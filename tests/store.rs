use bible_reader::command::{verses_request, Request};
use bible_reader::query::{verses_query, BOOKS_QUERY, BOOK_ID_QUERY, VERSE_QUERY};
use rusqlite::{params_from_iter, Connection};

fn fixture() -> Connection {
    let conn = Connection::open_in_memory().unwrap();
    conn.execute_batch(
        "CREATE TABLE book (id INTEGER, name TEXT, book_reference_id INTEGER);
         CREATE TABLE verse (book_id INTEGER, chapter INTEGER, verse INTEGER, text TEXT);
         INSERT INTO book VALUES (10, 'Leviticus', 3);
         INSERT INTO book VALUES (11, 'Genesis', 1);
         INSERT INTO book VALUES (12, 'Exodus', 2);
         INSERT INTO verse VALUES (11, 1, 1, 'In the beginning');
         INSERT INTO verse VALUES (11, 2, 4, 'S');
         INSERT INTO verse VALUES (11, 2, 5, 'T');
         INSERT INTO verse VALUES (11, 2, 6, 'U');
         INSERT INTO verse VALUES (12, 2, 5, 'other book');",
    )
    .unwrap();
    conn
}

fn book_id(conn: &Connection, name: &str) -> rusqlite::Result<i64> {
    conn.query_row(BOOK_ID_QUERY, [name], |r| r.get(0))
}

fn run_verses(conn: &Connection, book: &str, chapters: &str, verses: Option<&str>) -> Vec<String> {
    let filter = match verses_request(book, chapters, verses) {
        Ok(Request::Verses { filter, .. }) => filter,
        _ => panic!("expected a verses request"),
    };
    let q = verses_query(book_id(conn, book).unwrap(), &filter);
    let mut stmt = conn.prepare(&q.text).unwrap();
    let rows = stmt
        .query_map(params_from_iter(q.args.iter()), |r| {
            Ok((r.get::<_, i64>(0)?, r.get::<_, i64>(1)?, r.get::<_, String>(2)?))
        })
        .unwrap();
    rows.map(|t| {
        let (c, v, text) = t.unwrap();
        format!("{}:{} {}", c, v, text)
    })
    .collect()
}

#[test]
fn books_are_listed_by_ordering_key() {
    let conn = fixture();
    let mut stmt = conn.prepare(BOOKS_QUERY).unwrap();
    let names: Vec<String> = stmt.query_map([], |r| r.get(0)).unwrap().map(|n| n.unwrap()).collect();
    assert_eq!(names, vec!["Genesis", "Exodus", "Leviticus"]);
}

#[test]
fn missing_verse_is_an_error() {
    let conn = fixture();
    let id = book_id(&conn, "Genesis").unwrap();
    let found: rusqlite::Result<String> = conn.query_row(VERSE_QUERY, [id, 9, 9], |r| r.get(0));
    assert!(matches!(found, Err(rusqlite::Error::QueryReturnedNoRows)));
    let found: String = conn.query_row(VERSE_QUERY, [id, 2, 5], |r| r.get(0)).unwrap();
    assert_eq!(found, "T");
}

#[test]
fn unknown_book_is_an_error() {
    let conn = fixture();
    assert!(matches!(book_id(&conn, "genesis"), Err(rusqlite::Error::QueryReturnedNoRows)));
}

#[test]
fn single_verse_range_prints_one_line() {
    let conn = fixture();
    assert_eq!(run_verses(&conn, "Genesis", "2", Some("5")), vec!["2:5 T"]);
}

#[test]
fn chapter_range_prints_every_verse_of_the_book_in_it() {
    let conn = fixture();
    assert_eq!(
        run_verses(&conn, "Genesis", "1-2", None),
        vec!["1:1 In the beginning", "2:4 S", "2:5 T", "2:6 U"]
    );
    assert_eq!(run_verses(&conn, "Genesis", "2", Some("4,6")), vec!["2:4 S", "2:6 U"]);
    assert!(run_verses(&conn, "Genesis", "2-1", None).is_empty());
}
