//! Where a version's store lies, and what each command asks of it once its
//! arguments are read.

use vstd::prelude::*;
use vstd::string::*;
use crate::query::VerseFilter;
use crate::range::{parse_range, parse_ranges, range_of, ranges_of, NumRange, RangeError};
use crate::token::{i64_of, parse_i64};

verus! {

/// The version read when none is chosen.
pub const DEFAULT_VERSION: &'static str = "KJV";

/// The version chosen, or the default one.
pub fn version_or_default<'a>(chosen: Option<&'a str>) -> (r: &'a str)
    ensures
        chosen is Some ==> r@ == chosen->0@,
        chosen is None ==> r@ == DEFAULT_VERSION@,
{
    match chosen {
        Some(v) => v,
        None => DEFAULT_VERSION,
    }
}

pub open spec fn store_path_text(db_dir: Seq<char>, version: Seq<char>) -> Seq<char> {
    db_dir + "/bibles/"@ + version + ".sqlite"@
}

/// The file that holds version `version` under the data directory `db_dir`.
pub fn store_path(db_dir: &str, version: &str) -> (r: String)
    ensures
        r@ == store_path_text(db_dir@, version@),
{
    let mut r = String::new();
    r.append(db_dir);
    r.append("/bibles/");
    r.append(version);
    r.append(".sqlite");
    assert(r@ =~= store_path_text(db_dir@, version@));
    r
}

/// What a command asks of the store.
pub enum Request {
    /// Every book name, in canonical order.
    Books,
    /// The text of one verse.
    Verse { book: String, chapter: i64, verse: i64 },
    /// Every row of a book that a filter selects.
    Verses { book: String, filter: VerseFilter },
}

/// Why a command's arguments were refused.
#[derive(Clone, Copy, Debug, PartialEq, Eq, Structural)]
pub enum RequestError {
    /// A chapter or verse number that is not a decimal `i64`.
    BadNumber,
    /// A range expression that does not parse.
    BadRange(RangeError),
}

/// The request for one verse, from the book name and the chapter and verse
/// as written.
pub fn verse_request(book: &str, chapter: &str, verse: &str) -> (r: Result<Request, RequestError>)
    ensures
        match (i64_of(chapter@), i64_of(verse@)) {
            (Some(c), Some(v)) => r matches Ok(Request::Verse { book: b, chapter: c2, verse: v2 })
                && b@ == book@ && c2 == c && v2 == v,
            _ => r == Err::<Request, RequestError>(RequestError::BadNumber),
        },
{
    let c = parse_i64(chapter);
    let v = parse_i64(verse);
    match (c, v) {
        (Some(c), Some(v)) => Ok(Request::Verse { book: book.to_string(), chapter: c, verse: v }),
        _ => Err(RequestError::BadNumber),
    }
}

/// The verse ranges that an optional list stands for: none where the list
/// is absent.
pub open spec fn optional_ranges_of(verses: Option<&str>) -> Result<Seq<NumRange>, RangeError> {
    match verses {
        Some(v) => ranges_of(v@),
        None => Ok(Seq::empty()),
    }
}

/// The request for a span of verses, from the book name, the chapter range
/// and the optional list of verse ranges as written.
pub fn verses_request(book: &str, chapters: &str, verses: Option<&str>) -> (r: Result<Request, RequestError>)
    ensures
        match (range_of(chapters@), optional_ranges_of(verses)) {
            (Err(e), _) => r == Err::<Request, RequestError>(RequestError::BadRange(e)),
            (Ok(_), Err(e)) => r == Err::<Request, RequestError>(RequestError::BadRange(e)),
            (Ok(ch), Ok(vs)) => r matches Ok(Request::Verses { book: b, filter: f })
                && b@ == book@ && f.chapters == ch && f.verses@ == vs,
        },
{
    let ch = match parse_range(chapters) {
        Ok(ch) => ch,
        Err(e) => return Err(RequestError::BadRange(e)),
    };
    let vs = match verses {
        Some(v) => match parse_ranges(v) {
            Ok(vs) => vs,
            Err(e) => return Err(RequestError::BadRange(e)),
        },
        None => Vec::new(),
    };
    Ok(Request::Verses { book: book.to_string(), filter: VerseFilter { chapters: ch, verses: vs } })
}

} // verus!
