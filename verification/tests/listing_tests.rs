use note_shell::listing::DirEntry;
use note_shell::listing::select_txt_names;

fn entry(name: &str, is_file: bool) -> DirEntry {
    DirEntry { name: String::from(name), is_file }
}

#[test]
fn keeps_only_txt_files_sorted() {
    let entries = vec![
        entry("b.txt", true),
        entry("A.TXT", true),
        entry("folder.txt", false),
        entry("c.md", true),
        entry("a.txt", true),
    ];
    let names = select_txt_names(&entries);
    assert_eq!(
        names,
        vec![String::from("A.TXT"), String::from("a.txt"), String::from("b.txt")]
    );
}

#[test]
fn duplicate_names_listed_once() {
    let entries = vec![entry("a.txt", true), entry("a.txt", true)];
    assert_eq!(select_txt_names(&entries), vec![String::from("a.txt")]);
}

#[test]
fn empty_directory_lists_nothing() {
    let entries: Vec<DirEntry> = Vec::new();
    assert_eq!(select_txt_names(&entries), Vec::<String>::new());
}

#[test]
fn directories_and_other_suffixes_dropped() {
    let entries = vec![
        entry("notes.txt", false),
        entry("readme.md", true),
        entry("archive.tar", true),
    ];
    assert_eq!(select_txt_names(&entries), Vec::<String>::new());
}
