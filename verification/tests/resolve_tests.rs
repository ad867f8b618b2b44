use kindle_mtp::device::{FileEntry, ParentRef};
use kindle_mtp::resolver::{ResolveError, ResolveState, StepOutcome};
use kindle_mtp::store::ObjectStore;

fn folder(name: &str, id: u32) -> FileEntry {
    FileEntry { name: name.to_string(), size: 0, is_folder: true, id }
}

fn file(name: &str, size: u64, id: u32) -> FileEntry {
    FileEntry { name: name.to_string(), size, is_folder: false, id }
}

/// Root holds folders Documents (1) and eBooks (2) plus readme.txt (3);
/// eBooks holds the file novel.azw3 (42).
fn sample_store() -> ObjectStore {
    ObjectStore {
        root: vec![
            folder("Documents", 1),
            folder("eBooks", 2),
            file("readme.txt", 321, 3),
        ],
        folders: vec![
            (1, vec![]),
            (2, vec![file("novel.azw3", 1024, 42)]),
        ],
    }
}

#[test]
fn empty_path_fails_with_root_restriction() {
    let store = sample_store();
    let r = store.resolve("");
    assert!(matches!(r, Err(ResolveError::RootUnaddressable)));
}

#[test]
fn slash_path_fails_with_root_restriction() {
    let store = sample_store();
    let r = store.resolve("/");
    assert!(matches!(r, Err(ResolveError::RootUnaddressable)));
    // runs of separators alone are still the root
    let r = store.resolve("///");
    assert!(matches!(r, Err(ResolveError::RootUnaddressable)));
}

#[test]
fn resolve_file_in_folder_returns_its_identifier() {
    let store = sample_store();
    assert_eq!(store.resolve("/eBooks/novel.azw3").unwrap(), 42);
}

#[test]
fn resolve_ignores_extra_separators() {
    let store = sample_store();
    assert_eq!(store.resolve("//eBooks///novel.azw3/").unwrap(), 42);
    assert_eq!(store.resolve("eBooks/novel.azw3").unwrap(), 42);
}

#[test]
fn resolve_missing_entry_names_the_unmatched_segment() {
    let store = sample_store();
    match store.resolve("/eBooks/missing.azw3") {
        Err(ResolveError::NotFound(seg)) => assert_eq!(seg.as_str(), "missing.azw3"),
        other => panic!("expected NotFound, got {:?}", other),
    }
    match store.resolve("/nowhere/deep/deeper") {
        Err(ResolveError::NotFound(seg)) => assert_eq!(seg.as_str(), "nowhere"),
        other => panic!("expected NotFound, got {:?}", other),
    }
}

#[test]
fn resolve_through_a_file_names_that_segment() {
    let store = sample_store();
    match store.resolve("/readme.txt/anything") {
        Err(ResolveError::NotADirectory(seg)) => assert_eq!(seg.as_str(), "readme.txt"),
        other => panic!("expected NotADirectory, got {:?}", other),
    }
}

#[test]
fn resolve_final_segment_may_be_folder_or_file() {
    let store = sample_store();
    assert_eq!(store.resolve("/eBooks").unwrap(), 2);
    assert_eq!(store.resolve("/readme.txt").unwrap(), 3);
}

#[test]
fn duplicate_names_resolve_to_the_first_match() {
    let store = ObjectStore {
        root: vec![file("twin", 1, 10), file("twin", 2, 11)],
        folders: vec![],
    };
    assert_eq!(store.resolve("/twin").unwrap(), 10);
}

#[test]
fn stepwise_walk_agrees_with_resolve() {
    let store = sample_store();
    let mut st = ResolveState::begin("/eBooks/novel.azw3").unwrap();
    assert!(matches!(st.parent(), ParentRef::Root));
    let out = st.step(&store.root);
    assert!(matches!(out, StepOutcome::Continue));
    assert!(matches!(st.parent(), ParentRef::Folder(2)));
    let ebooks = vec![file("novel.azw3", 1024, 42)];
    match st.step(&ebooks) {
        StepOutcome::Resolved { id, is_folder } => {
            assert_eq!(id, 42);
            assert!(!is_folder);
            assert_eq!(id, store.resolve("/eBooks/novel.azw3").unwrap());
        },
        other => panic!("expected Resolved, got {:?}", other),
    }
}

#[test]
fn begin_rejects_the_root_path() {
    assert!(matches!(
        ResolveState::begin("/"),
        Err(ResolveError::RootUnaddressable)
    ));
}

#[test]
fn list_root_returns_entries_in_adapter_order() {
    let store = sample_store();
    let listing = store.list("/").unwrap();
    let names: Vec<&str> = listing.iter().map(|e| e.name.as_str()).collect();
    assert_eq!(names, vec!["Documents", "eBooks", "readme.txt"]);
    let empty_path = store.list("").unwrap();
    assert_eq!(empty_path.len(), 3);
}

#[test]
fn list_folder_returns_its_children() {
    let store = sample_store();
    let listing = store.list("/eBooks").unwrap();
    assert_eq!(listing.len(), 1);
    assert_eq!(listing[0].name.as_str(), "novel.azw3");
    assert_eq!(listing[0].size, 1024);
    assert!(!listing[0].is_folder);
}

#[test]
fn list_of_a_file_is_not_a_directory() {
    let store = sample_store();
    match store.list("/eBooks/novel.azw3") {
        Err(ResolveError::NotADirectory(seg)) => assert_eq!(seg.as_str(), "novel.azw3"),
        other => panic!("expected NotADirectory, got {:?}", other),
    }
}

#[test]
fn list_empty_folder_is_empty() {
    let store = sample_store();
    let listing = store.list("/Documents").unwrap();
    assert!(listing.is_empty());
}

#[test]
fn split_path_drops_empty_segments() {
    let segs = kindle_mtp::resolver::split_path("//a///bc/");
    let views: Vec<&str> = segs.iter().map(|s| s.as_str()).collect();
    assert_eq!(views, vec!["a", "bc"]);
    assert!(kindle_mtp::resolver::split_path("/").is_empty());
    assert!(kindle_mtp::resolver::split_path("").is_empty());
}
