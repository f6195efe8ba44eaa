use note_shell::bridge::DialogChoice;
use note_shell::bridge::Notification;
use note_shell::bridge::OpenStep;
use note_shell::bridge::SaveStep;
use note_shell::bridge::open_file_outcome;
use note_shell::bridge::open_file_step;
use note_shell::bridge::save_file_outcome;
use note_shell::bridge::save_file_step;
use note_shell::errors::FileError;

#[test]
fn cancelled_open_finishes_silently() {
    assert!(matches!(open_file_step(DialogChoice::Cancelled), OpenStep::Finish));
}

#[test]
fn chosen_open_reads_the_chosen_path() {
    let step = open_file_step(DialogChoice::Chosen(String::from("/tmp/a.txt")));
    assert!(matches!(step, OpenStep::ReadFrom(ref p) if p == "/tmp/a.txt"));
}

#[test]
fn successful_read_broadcasts_the_content() {
    let n = open_file_outcome(Ok(String::from("hello")));
    assert!(matches!(n, Notification::Content(ref c) if c == "hello"));
}

#[test]
fn failed_read_broadcasts_a_read_error() {
    let n = open_file_outcome(Err(String::from("gone")));
    assert!(matches!(n, Notification::Failure(FileError::ReadError)));
}

#[test]
fn cancelled_save_finishes_silently() {
    assert!(matches!(save_file_step(DialogChoice::Cancelled), SaveStep::Finish));
}

#[test]
fn chosen_save_writes_the_chosen_path() {
    let step = save_file_step(DialogChoice::Chosen(String::from("/tmp/b.txt")));
    assert!(matches!(step, SaveStep::WriteTo(ref p) if p == "/tmp/b.txt"));
}

#[test]
fn save_outcomes_broadcast_path_or_write_error() {
    let ok = save_file_outcome(String::from("/tmp/b.txt"), true);
    assert!(matches!(ok, Notification::SaveState(ref p) if p == "/tmp/b.txt"));
    let bad = save_file_outcome(String::from("/tmp/b.txt"), false);
    assert!(matches!(bad, Notification::Failure(FileError::WriteError)));
}

#[test]
fn error_messages_name_the_failure() {
    assert_eq!(FileError::ReadError.message(), "failed to read file");
    assert_eq!(FileError::WriteError.message(), "failed to write file");
    assert_eq!(FileError::InvalidFilename.message(), "invalid filename");
}
