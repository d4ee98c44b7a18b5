use file_cache::cache::{CacheError, FileCache};

#[test]
fn new_cache_is_empty() {
    let cache = FileCache::new();
    assert_eq!(cache.list_entries().len(), 0);
}

#[test]
fn load_then_list() {
    let mut cache = FileCache::new();
    let bytes = b"hello".to_vec();
    let r = cache.get_or_load("a/b/notes.txt", Some(&bytes));
    assert_eq!(r, Ok("hello".to_string()));
    assert_eq!(cache.list_entries(), vec!["a/b/notes.txt".to_string()]);
}

#[test]
fn invalid_bytes_are_rejected_and_not_cached() {
    let mut cache = FileCache::new();
    let bytes = vec![0xff_u8, 0xfe, 0x00, 0x80];
    let r = cache.get_or_load("a/data.bin", Some(&bytes));
    assert_eq!(r, Err(CacheError::InvalidEncoding));
    assert_eq!(cache.list_entries().len(), 0);
}

#[test]
fn failed_read_is_an_io_error() {
    let mut cache = FileCache::new();
    let r = cache.get_or_load("a/locked.txt", None);
    assert_eq!(r, Err(CacheError::IOError));
    assert_eq!(cache.list_entries().len(), 0);
}

#[test]
fn cached_content_survives_the_file() {
    let mut cache = FileCache::new();
    let bytes = b"hello".to_vec();
    let first = cache.get_or_load("a/notes.txt", Some(&bytes));
    // The file is gone now: a re-read would fail, but the cache answers.
    let second = cache.get_or_load("a/notes.txt", None);
    assert_eq!(first, Ok("hello".to_string()));
    assert_eq!(first, second);
    assert_eq!(cache.list_entries().len(), 1);
}

#[test]
fn cached_content_is_never_rewritten() {
    let mut cache = FileCache::new();
    let first = cache.get_or_load("a/notes.txt", Some(&b"one".to_vec()));
    let second = cache.get_or_load("a/notes.txt", Some(&b"two".to_vec()));
    assert_eq!(first, Ok("one".to_string()));
    assert_eq!(second, Ok("one".to_string()));
    assert_eq!(cache.list_entries().len(), 1);
}

#[test]
fn multibyte_text_is_decoded() {
    let mut cache = FileCache::new();
    let text = "h\u{e9}llo \u{2603}";
    let bytes = text.as_bytes().to_vec();
    let r = cache.get_or_load("a/snow.txt", Some(&bytes));
    assert_eq!(r, Ok(text.to_string()));
}

#[test]
fn find_by_name_ignores_case() {
    let mut cache = FileCache::new();
    cache
        .get_or_load("docs/ReadMe.MD", Some(&b"read me first".to_vec()))
        .unwrap();
    assert_eq!(
        cache.find_by_name("README.md"),
        Some("read me first".to_string())
    );
    assert_eq!(
        cache.find_by_name("readme.md"),
        Some("read me first".to_string())
    );
}

#[test]
fn find_by_name_trims_the_query() {
    let mut cache = FileCache::new();
    cache
        .get_or_load("a/notes.txt", Some(&b"hello".to_vec()))
        .unwrap();
    assert_eq!(
        cache.find_by_name("  notes.txt \n"),
        Some("hello".to_string())
    );
}

#[test]
fn find_by_name_misses_cleanly() {
    let mut cache = FileCache::new();
    cache
        .get_or_load("a/notes.txt", Some(&b"hello".to_vec()))
        .unwrap();
    assert_eq!(cache.find_by_name("missing.txt"), None);
}

#[test]
fn find_by_name_returns_the_first_match() {
    let mut cache = FileCache::new();
    cache
        .get_or_load("a/notes.txt", Some(&b"first".to_vec()))
        .unwrap();
    cache
        .get_or_load("b/NOTES.TXT", Some(&b"second".to_vec()))
        .unwrap();
    assert_eq!(cache.find_by_name("Notes.Txt"), Some("first".to_string()));
}

#[test]
fn find_entry_by_name_returns_path_and_content() {
    let mut cache = FileCache::new();
    cache
        .get_or_load("docs/ReadMe.MD", Some(&b"read me".to_vec()))
        .unwrap();
    assert_eq!(
        cache.find_entry_by_name("readme.md"),
        Some(("docs/ReadMe.MD".to_string(), "read me".to_string()))
    );
    assert_eq!(cache.find_entry_by_name("other.md"), None);
}
