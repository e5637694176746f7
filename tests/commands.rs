use bible_reader::command::{
    store_path, verse_request, verses_request, version_or_default, Request, RequestError,
};
use bible_reader::range::{NumRange, RangeError};

#[test]
fn version_defaults_to_kjv() {
    assert_eq!(version_or_default(None), "KJV");
    assert_eq!(version_or_default(Some("ESV")), "ESV");
}

#[test]
fn store_path_joins_directory_and_version() {
    assert_eq!(
        store_path("/home/reader/.local/share/openlp", "KJV"),
        "/home/reader/.local/share/openlp/bibles/KJV.sqlite"
    );
}

#[test]
fn missing_version_has_no_store_file() {
    let path = store_path("/nonexistent/openlp", "NOSUCH");
    assert_eq!(path, "/nonexistent/openlp/bibles/NOSUCH.sqlite");
    assert!(!std::path::Path::new(&path).exists());
}

#[test]
fn verse_request_reads_chapter_and_verse() {
    match verse_request("John", "3", "16") {
        Ok(Request::Verse { book, chapter, verse }) => {
            assert_eq!(book, "John");
            assert_eq!(chapter, 3);
            assert_eq!(verse, 16);
        }
        _ => panic!("expected a verse request"),
    }
    assert!(matches!(verse_request("John", "three", "16"), Err(RequestError::BadNumber)));
    assert!(matches!(verse_request("John", "3", ""), Err(RequestError::BadNumber)));
}

#[test]
fn verses_request_without_verse_list_has_no_verse_ranges() {
    match verses_request("Genesis", "1-3", None) {
        Ok(Request::Verses { book, filter }) => {
            assert_eq!(book, "Genesis");
            assert_eq!(filter.chapters, NumRange { start: 1, end: 3 });
            assert!(filter.verses.is_empty());
        }
        _ => panic!("expected a verses request"),
    }
}

#[test]
fn verses_request_reads_verse_list() {
    match verses_request("Genesis", "2", Some("5,7-9")) {
        Ok(Request::Verses { filter, .. }) => {
            assert_eq!(filter.chapters, NumRange { start: 2, end: 2 });
            assert_eq!(
                filter.verses,
                vec![NumRange { start: 5, end: 5 }, NumRange { start: 7, end: 9 }]
            );
        }
        _ => panic!("expected a verses request"),
    }
}

#[test]
fn verses_request_reports_bad_ranges() {
    assert!(matches!(
        verses_request("Genesis", "1-2-3", Some("x")),
        Err(RequestError::BadRange(RangeError::Malformed))
    ));
    assert!(matches!(
        verses_request("Genesis", "1", Some("2,x")),
        Err(RequestError::BadRange(RangeError::NotANumber))
    ));
}
