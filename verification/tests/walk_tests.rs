use file_cache::cache::{CacheError, FileCache};
use file_cache::walk::{load_all, should_process, WalkEntry};

fn file(path: &str, bytes: &[u8]) -> WalkEntry {
    WalkEntry {
        path: path.to_string(),
        is_file: true,
        data: Some(bytes.to_vec()),
    }
}

fn dir(path: &str) -> WalkEntry {
    WalkEntry {
        path: path.to_string(),
        is_file: false,
        data: None,
    }
}

#[test]
fn filter_accepts_plain_files_only() {
    assert!(should_process("src/main.rs", true));
    assert!(!should_process("src", false));
    assert!(!should_process("a/logo.png", true));
    assert!(!should_process("a/logo.jpg", true));
    assert!(!should_process("a/icon.svg", true));
    assert!(!should_process(".git/config", true));
    assert!(!should_process("a/.DS_Store", true));
    assert!(!should_process("a/sound.wav", true));
    assert!(!should_process("a/app.provisionprofile", true));
}

#[test]
fn filter_matches_substrings_of_the_whole_path() {
    // A directory whose name contains a denied substring takes all its
    // files with it.
    assert!(!should_process("pngfiles/data.txt", true));
    assert!(!should_process("digital/file.txt", true));
}

#[test]
fn end_to_end_walk_caches_exactly_the_text_files() {
    let mut cache = FileCache::new();
    let entries = vec![
        dir("a"),
        dir("a/b"),
        file("a/b/notes.txt", b"hello"),
        file("a/logo.png", &[0x89, 0x50, 0x4e, 0x47, 0xff]),
        dir(".git"),
        file(".git/config", b"[core]"),
    ];
    let fails = load_all(&mut cache, &entries);
    assert!(fails.is_empty());
    assert_eq!(cache.list_entries(), vec!["a/b/notes.txt".to_string()]);
    assert_eq!(
        cache.get_or_load("a/b/notes.txt", None),
        Ok("hello".to_string())
    );
    assert_eq!(cache.find_by_name("notes.txt"), Some("hello".to_string()));
    assert_eq!(cache.find_by_name("config"), None);
    assert_eq!(cache.find_by_name("logo.png"), None);
}

#[test]
fn load_all_reports_each_failing_file() {
    let mut cache = FileCache::new();
    let entries = vec![
        file("a/data.bin", &[0xff, 0xfe]),
        file("a/locked.txt", b"ok"),
        WalkEntry {
            path: "a/gone.txt".to_string(),
            is_file: true,
            data: None,
        },
    ];
    let fails = load_all(&mut cache, &entries);
    assert_eq!(
        fails,
        vec![
            ("a/data.bin".to_string(), CacheError::InvalidEncoding),
            ("a/gone.txt".to_string(), CacheError::IOError),
        ]
    );
    assert_eq!(cache.list_entries(), vec!["a/locked.txt".to_string()]);
}

#[test]
fn denied_files_fail_silently() {
    let mut cache = FileCache::new();
    // Unreadable, but filtered out before any read is attempted.
    let entries = vec![WalkEntry {
        path: "a/art.svg".to_string(),
        is_file: true,
        data: None,
    }];
    let fails = load_all(&mut cache, &entries);
    assert!(fails.is_empty());
    assert_eq!(cache.list_entries().len(), 0);
}

#[test]
fn duplicate_paths_keep_the_first_content() {
    let mut cache = FileCache::new();
    let entries = vec![file("a/notes.txt", b"one"), file("a/notes.txt", b"two")];
    let fails = load_all(&mut cache, &entries);
    assert!(fails.is_empty());
    assert_eq!(cache.list_entries(), vec!["a/notes.txt".to_string()]);
    assert_eq!(cache.get_or_load("a/notes.txt", None), Ok("one".to_string()));
}

#[test]
fn walk_extends_an_existing_cache() {
    let mut cache = FileCache::new();
    cache.get_or_load("kept.txt", Some(&b"kept".to_vec())).unwrap();
    let entries = vec![file("new.txt", b"new")];
    let fails = load_all(&mut cache, &entries);
    assert!(fails.is_empty());
    assert_eq!(
        cache.list_entries(),
        vec!["kept.txt".to_string(), "new.txt".to_string()]
    );
    assert_eq!(cache.get_or_load("kept.txt", None), Ok("kept".to_string()));
}
