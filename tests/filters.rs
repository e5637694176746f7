use bible_reader::query::{range_condition, verses_query, VerseFilter};
use bible_reader::range::NumRange;

fn range(start: i64, end: i64) -> NumRange {
    NumRange { start, end }
}

#[test]
fn chapter_range_alone_selects_every_verse_of_those_chapters() {
    let f = VerseFilter { chapters: range(1, 3), verses: vec![] };
    for chapter in 0..6 {
        for verse in 1..40 {
            assert_eq!(f.matches(chapter, verse), (1..=3).contains(&chapter));
        }
    }
    assert_eq!(f.condition(), "(chapter >= ? AND chapter <= ?)");
    assert_eq!(f.arguments(), vec![1, 3]);
}

#[test]
fn verse_ranges_are_alternatives_within_the_chapters() {
    let f = VerseFilter { chapters: range(1, 1), verses: vec![range(1, 2), range(5, 5)] };
    for chapter in 0..4 {
        for verse in 0..10 {
            let expected = chapter == 1 && (verse == 1 || verse == 2 || verse == 5);
            assert_eq!(f.matches(chapter, verse), expected);
        }
    }
    assert_eq!(
        f.condition(),
        "(chapter >= ? AND chapter <= ?) AND ((verse >= ? AND verse <= ?) OR (verse >= ? AND verse <= ?))"
    );
    assert_eq!(f.arguments(), vec![1, 1, 1, 2, 5, 5]);
}

#[test]
fn reversed_chapter_range_selects_nothing() {
    let f = VerseFilter { chapters: range(4, 2), verses: vec![] };
    for chapter in 0..8 {
        assert!(!f.matches(chapter, 1));
    }
}

#[test]
fn range_condition_names_its_column_twice() {
    assert_eq!(range_condition("verse"), "(verse >= ? AND verse <= ?)");
}

#[test]
fn verses_query_binds_book_then_bounds() {
    let f = VerseFilter { chapters: range(2, 2), verses: vec![range(5, 5)] };
    let q = verses_query(43, &f);
    assert_eq!(
        q.text,
        "SELECT chapter, verse, text FROM verse WHERE book_id = ? AND \
         (chapter >= ? AND chapter <= ?) AND ((verse >= ? AND verse <= ?))"
    );
    assert_eq!(q.args, vec![43, 2, 2, 5, 5]);
    assert_eq!(q.text.matches('?').count(), q.args.len());
}

#[test]
fn three_verse_ranges_are_joined_by_or() {
    let f = VerseFilter { chapters: range(1, 2), verses: vec![range(1, 1), range(3, 4), range(9, 7)] };
    let q = verses_query(1, &f);
    assert!(q.text.ends_with(
        "((verse >= ? AND verse <= ?) OR (verse >= ? AND verse <= ?) OR (verse >= ? AND verse <= ?))"
    ));
    assert_eq!(q.args, vec![1, 1, 2, 1, 1, 3, 4, 9, 7]);
}
