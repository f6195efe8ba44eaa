use note_shell::errors::FileError;
use note_shell::store::DeviceFileStore;
use note_shell::store::device_file_path;

fn fresh_store() -> DeviceFileStore {
    DeviceFileStore::new(String::from("/data/app"))
}

#[test]
fn save_then_read_round_trips() {
    let mut store = fresh_store();
    let path = store.save("notes", String::from("hi")).unwrap();
    assert_eq!(path, "/data/app/notes.txt");
    assert_eq!(store.read("notes"), Ok(String::from("hi")));
    assert_eq!(store.read("notes.txt"), Ok(String::from("hi")));
}

#[test]
fn save_overwrites_same_document_across_case() {
    let mut store = fresh_store();
    store.save("notes", String::from("hi")).unwrap();
    assert_eq!(store.list(), vec![String::from("notes.txt")]);
    store.save("NOTES.TXT", String::from("bye")).unwrap();
    assert_eq!(store.list(), vec![String::from("notes.txt")]);
    assert_eq!(store.read("notes"), Ok(String::from("bye")));
    assert_eq!(store.read("NOTES.TXT"), Ok(String::from("bye")));
}

#[test]
fn empty_store_lists_nothing() {
    let store = fresh_store();
    assert_eq!(store.list(), Vec::<String>::new());
}

#[test]
fn listing_is_sorted_without_duplicates() {
    let mut store = fresh_store();
    store.save("banana", String::from("b")).unwrap();
    store.save("cherry", String::from("c")).unwrap();
    store.save("apple", String::from("a")).unwrap();
    store.save("banana", String::from("again")).unwrap();
    assert_eq!(
        store.list(),
        vec![
            String::from("apple.txt"),
            String::from("banana.txt"),
            String::from("cherry.txt"),
        ]
    );
}

#[test]
fn missing_document_reads_as_read_error() {
    let store = fresh_store();
    assert_eq!(store.read("nope"), Err(FileError::ReadError));
}

#[test]
fn invalid_names_rejected_by_store() {
    let mut store = fresh_store();
    assert_eq!(store.save("a/b", String::from("x")), Err(FileError::InvalidFilename));
    assert_eq!(store.save("  ", String::from("x")), Err(FileError::InvalidFilename));
    assert_eq!(store.read("a\\b"), Err(FileError::InvalidFilename));
}

#[test]
fn device_paths_join_directory_and_sanitized_name() {
    assert_eq!(device_file_path("/data/app", "notes"), Ok(String::from("/data/app/notes.txt")));
    assert_eq!(device_file_path("/data/app", " memo.TXT "), Ok(String::from("/data/app/memo.TXT")));
    assert_eq!(device_file_path("/data/app", "a/b"), Err(FileError::InvalidFilename));
}

#[test]
fn overwrite_keeps_the_first_stored_case() {
    let mut store = fresh_store();
    store.save("Mixed.TXT", String::from("one")).unwrap();
    store.save("mixed.txt", String::from("two")).unwrap();
    assert_eq!(store.list(), vec![String::from("Mixed.TXT")]);
    assert_eq!(store.read("MIXED.TXT"), Ok(String::from("two")));
}
