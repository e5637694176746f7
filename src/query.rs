//! The filter that a chapter range and verse ranges describe, and the
//! queries, with `?` placeholders and their bound values, that ask the store
//! for the rows it keeps.

use vstd::prelude::*;
use vstd::string::*;
use crate::range::NumRange;
use crate::token::free_of;

verus! {

/// Names of all books, in canonical order.
pub const BOOKS_QUERY: &'static str = "SELECT name FROM book ORDER BY book_reference_id ASC";

/// The identifier of the book with a given name.
pub const BOOK_ID_QUERY: &'static str = "SELECT id FROM book WHERE name = ?";

/// The text of one verse, given book identifier, chapter and verse.
pub const VERSE_QUERY: &'static str = "SELECT text FROM verse WHERE book_id = ? AND chapter = ? AND verse = ?";

/// A selection of rows: one range of chapters, and either no verse ranges
/// (any verse) or verse ranges of which at least one must hold the verse.
pub struct VerseFilter {
    pub chapters: NumRange,
    pub verses: Vec<NumRange>,
}

impl VerseFilter {
    /// Whether the row at `chapter:verse` is selected.
    pub open spec fn holds(&self, chapter: int, verse: int) -> bool {
        &&& self.chapters.contains(chapter)
        &&& (self.verses@.len() == 0 || exists|i: int|
            0 <= i < self.verses@.len() && #[trigger] self.verses@[i].contains(verse))
    }

    /// Whether the row at `chapter:verse` is selected.
    pub fn matches(&self, chapter: i64, verse: i64) -> (r: bool)
        ensures
            r == self.holds(chapter as int, verse as int),
    {
        if !self.chapters.includes(chapter) {
            return false;
        }
        if self.verses.len() == 0 {
            return true;
        }
        let mut i: usize = 0;
        while i < self.verses.len()
            invariant
                i <= self.verses@.len(),
                self.chapters.contains(chapter as int),
                forall|k: int| 0 <= k < i ==> !(#[trigger] self.verses@[k]).contains(verse as int),
            decreases self.verses@.len() - i,
        {
            if self.verses[i].includes(verse) {
                assert(self.verses@[i as int].contains(verse as int));
                return true;
            }
            i = i + 1;
        }
        false
    }

    /// The condition that selects these rows, with a `?` for each bound.
    pub fn condition(&self) -> (r: String)
        ensures
            r@ == condition_text(self.verses@.len()),
    {
        let mut r = range_condition("chapter");
        let n = self.verses.len();
        if n > 0 {
            r.append(" AND (");
            let group = verse_group(n);
            r.append(group.as_str());
            r.append(")");
        }
        r
    }

    /// The values for the placeholders of `condition`, in order.
    pub fn arguments(&self) -> (r: Vec<i64>)
        ensures
            r@ == range_args(self.chapters) + verse_args(self.verses@),
    {
        let mut r: Vec<i64> = Vec::new();
        r.push(self.chapters.start);
        r.push(self.chapters.end);
        let mut i: usize = 0;
        while i < self.verses.len()
            invariant
                i <= self.verses@.len(),
                r@ == range_args(self.chapters) + verse_args(self.verses@.take(i as int)),
            decreases self.verses@.len() - i,
        {
            assert(self.verses@.take(i + 1).drop_last() =~= self.verses@.take(i as int));
            r.push(self.verses[i].start);
            r.push(self.verses[i].end);
            i = i + 1;
            assert(r@ =~= range_args(self.chapters) + verse_args(self.verses@.take(i as int)));
        }
        assert(self.verses@.take(self.verses@.len() as int) =~= self.verses@);
        r
    }
}

pub open spec fn range_text(column: Seq<char>) -> Seq<char> {
    "("@ + column + " >= ? AND "@ + column + " <= ?)"@
}

/// `n` verse conditions joined by `OR`.
pub open spec fn verse_group_text(n: nat) -> Seq<char>
    decreases n,
{
    if n <= 1 {
        range_text("verse"@)
    } else {
        verse_group_text((n - 1) as nat) + " OR "@ + range_text("verse"@)
    }
}

/// The chapter condition, and where there are `n > 0` verse ranges, the
/// group of their conditions after it.
pub open spec fn condition_text(n: nat) -> Seq<char> {
    if n == 0 {
        range_text("chapter"@)
    } else {
        range_text("chapter"@) + " AND ("@ + verse_group_text(n) + ")"@
    }
}

pub open spec fn range_args(r: NumRange) -> Seq<i64> {
    seq![r.start, r.end]
}

/// The bounds of each range, start then end, range after range.
pub open spec fn verse_args(rs: Seq<NumRange>) -> Seq<i64>
    decreases rs.len(),
{
    if rs.len() == 0 {
        Seq::empty()
    } else {
        verse_args(rs.drop_last()) + range_args(rs.last())
    }
}

/// The condition that `column` lies between two bound values, both included.
pub fn range_condition(column: &str) -> (r: String)
    ensures
        r@ == range_text(column@),
{
    let mut r = String::new();
    r.append("(");
    r.append(column);
    r.append(" >= ? AND ");
    r.append(column);
    r.append(" <= ?)");
    assert(r@ =~= range_text(column@));
    r
}

fn verse_group(n: usize) -> (r: String)
    requires
        n >= 1,
    ensures
        r@ == verse_group_text(n as nat),
{
    let mut r = range_condition("verse");
    let mut i: usize = 1;
    while i < n
        invariant
            1 <= i <= n,
            r@ == verse_group_text(i as nat),
        decreases n - i,
    {
        r.append(" OR ");
        let next = range_condition("verse");
        r.append(next.as_str());
        i = i + 1;
    }
    r
}

/// A query text and the values bound to its placeholders, in order.
pub struct Query {
    pub text: String,
    pub args: Vec<i64>,
}

pub open spec fn verses_query_text(n: nat) -> Seq<char> {
    "SELECT chapter, verse, text FROM verse WHERE book_id = "@ + "?"@ + " AND "@ + condition_text(n)
}

/// The query for chapter, verse and text of every row of book `book_id`
/// that `filter` selects.
pub fn verses_query(book_id: i64, filter: &VerseFilter) -> (q: Query)
    ensures
        q.text@ == verses_query_text(filter.verses@.len()),
        q.args@ == seq![book_id] + range_args(filter.chapters) + verse_args(filter.verses@),
{
    let mut text = String::new();
    text.append("SELECT chapter, verse, text FROM verse WHERE book_id = ");
    text.append("?");
    text.append(" AND ");
    let cond = filter.condition();
    text.append(cond.as_str());
    let mut args: Vec<i64> = Vec::new();
    args.push(book_id);
    let mut rest = filter.arguments();
    args.append(&mut rest);
    assert(args@ =~= seq![book_id] + range_args(filter.chapters) + verse_args(filter.verses@));
    Query { text, args }
}

/// The number of `?` placeholders in `s`.
pub open spec fn placeholders(s: Seq<char>) -> nat
    decreases s.len(),
{
    if s.len() == 0 {
        0
    } else {
        placeholders(s.drop_last()) + if s.last() == '?' {
            1nat
        } else {
            0nat
        }
    }
}

proof fn lemma_placeholders_concat(a: Seq<char>, b: Seq<char>)
    ensures
        placeholders(a + b) == placeholders(a) + placeholders(b),
    decreases b.len(),
{
    if b.len() == 0 {
        assert(a + b =~= a);
    } else {
        lemma_placeholders_concat(a, b.drop_last());
        assert((a + b).drop_last() =~= a + b.drop_last());
    }
}

proof fn lemma_no_placeholders(s: Seq<char>)
    requires
        free_of(s, '?'),
    ensures
        placeholders(s) == 0,
    decreases s.len(),
{
    if s.len() > 0 {
        assert(free_of(s.drop_last(), '?'));
        lemma_no_placeholders(s.drop_last());
    }
}

proof fn lemma_range_text_placeholders(column: Seq<char>)
    requires
        placeholders(column) == 0,
    ensures
        placeholders(range_text(column)) == 2,
{
    reveal_strlit("(");
    reveal_strlit(" >= ? AND ");
    reveal_strlit(" <= ?)");
    reveal_with_fuel(placeholders, 11);
    lemma_placeholders_concat("("@, column);
    lemma_placeholders_concat("("@ + column, " >= ? AND "@);
    lemma_placeholders_concat("("@ + column + " >= ? AND "@, column);
    lemma_placeholders_concat("("@ + column + " >= ? AND "@ + column, " <= ?)"@);
}

proof fn lemma_column_placeholders()
    ensures
        placeholders("chapter"@) == 0,
        placeholders("verse"@) == 0,
        placeholders(" OR "@) == 0,
        placeholders(" AND ("@) == 0,
        placeholders(")"@) == 0,
{
    reveal_strlit("chapter");
    reveal_strlit("verse");
    reveal_strlit(" OR ");
    reveal_strlit(" AND (");
    reveal_strlit(")");
    reveal_with_fuel(placeholders, 8);
}

proof fn lemma_verse_group_placeholders(n: nat)
    requires
        n >= 1,
    ensures
        placeholders(verse_group_text(n)) == 2 * n,
    decreases n,
{
    lemma_column_placeholders();
    lemma_range_text_placeholders("verse"@);
    if n > 1 {
        lemma_verse_group_placeholders((n - 1) as nat);
        lemma_placeholders_concat(verse_group_text((n - 1) as nat), " OR "@);
        lemma_placeholders_concat(verse_group_text((n - 1) as nat) + " OR "@, range_text("verse"@));
    }
}

proof fn lemma_verse_args_len(rs: Seq<NumRange>)
    ensures
        verse_args(rs).len() == 2 * rs.len(),
    decreases rs.len(),
{
    if rs.len() > 0 {
        lemma_verse_args_len(rs.drop_last());
    }
}

/// Every verse query binds exactly one value to each of its placeholders:
/// the book, the chapter bounds, and the bounds of each verse range.
pub proof fn lemma_verses_query_placeholders(book_id: i64, chapters: NumRange, verses: Seq<NumRange>)
    ensures
        placeholders(verses_query_text(verses.len())) == (seq![book_id] + range_args(chapters)
            + verse_args(verses)).len(),
{
    let n = verses.len();
    lemma_verse_args_len(verses);
    lemma_column_placeholders();
    lemma_range_text_placeholders("chapter"@);
    let select = "SELECT chapter, verse, text FROM verse WHERE book_id = "@;
    assert(free_of(select, '?')) by {
        reveal_strlit("SELECT chapter, verse, text FROM verse WHERE book_id = ");
    }
    lemma_no_placeholders(select);
    assert(placeholders("?"@) == 1) by {
        reveal_strlit("?");
        reveal_with_fuel(placeholders, 2);
    }
    assert(placeholders(" AND "@) == 0) by {
        reveal_strlit(" AND ");
        reveal_with_fuel(placeholders, 6);
    }
    lemma_placeholders_concat(select, "?"@);
    lemma_placeholders_concat(select + "?"@, " AND "@);
    let head = select + "?"@ + " AND "@;
    if n > 0 {
        lemma_verse_group_placeholders(n);
        lemma_placeholders_concat(range_text("chapter"@), " AND ("@);
        lemma_placeholders_concat(range_text("chapter"@) + " AND ("@, verse_group_text(n));
        lemma_placeholders_concat(range_text("chapter"@) + " AND ("@ + verse_group_text(n), ")"@);
    }
    lemma_placeholders_concat(head, condition_text(n));
}

} // verus!
