use note_shell::errors::FileError;
use note_shell::sanitize::sanitize_filename;

#[test]
fn appends_txt_suffix() {
    assert_eq!(sanitize_filename("notes"), Ok(String::from("notes.txt")));
}

#[test]
fn keeps_existing_suffix_in_any_case() {
    assert_eq!(sanitize_filename("NOTES.TXT"), Ok(String::from("NOTES.TXT")));
    assert_eq!(sanitize_filename("memo.TxT"), Ok(String::from("memo.TxT")));
    assert_eq!(sanitize_filename("plain.txt"), Ok(String::from("plain.txt")));
}

#[test]
fn trims_surrounding_whitespace() {
    assert_eq!(sanitize_filename("  notes \n"), Ok(String::from("notes.txt")));
    assert_eq!(sanitize_filename("\t a b \r"), Ok(String::from("a b.txt")));
}

#[test]
fn empty_names_rejected() {
    assert_eq!(sanitize_filename(""), Err(FileError::InvalidFilename));
    assert_eq!(sanitize_filename("   "), Err(FileError::InvalidFilename));
    assert_eq!(sanitize_filename("\t\n"), Err(FileError::InvalidFilename));
}

#[test]
fn path_separators_rejected() {
    assert_eq!(sanitize_filename("a/b.txt"), Err(FileError::InvalidFilename));
    assert_eq!(sanitize_filename("a\\b.txt"), Err(FileError::InvalidFilename));
    assert_eq!(sanitize_filename("../up.txt"), Err(FileError::InvalidFilename));
}

#[test]
fn sanitizing_twice_changes_nothing() {
    for name in ["notes", "NOTES.TXT", "  memo ", "deep.dots.here", ".txt"] {
        let once = sanitize_filename(name).unwrap();
        let twice = sanitize_filename(&once).unwrap();
        assert_eq!(once, twice);
    }
}

#[test]
fn suffix_dot_only_name_kept() {
    assert_eq!(sanitize_filename(".txt"), Ok(String::from(".txt")));
}

#[test]
fn embedded_dot_dot_without_separator_accepted() {
    assert_eq!(sanitize_filename(".."), Ok(String::from("...txt")));
    assert_eq!(sanitize_filename("a..b"), Ok(String::from("a..b.txt")));
}

#[test]
fn non_ascii_names_kept_whole() {
    assert_eq!(sanitize_filename("héllo"), Ok(String::from("héllo.txt")));
    assert_eq!(sanitize_filename(" نوتة.txt "), Ok(String::from("نوتة.txt")));
}
