use vstd::prelude::*;

use crate::errors::FileError;

verus! {

/// What the host's native file dialog came back with: nothing, because
/// the user cancelled, or the path the user chose.
pub enum DialogChoice {
    Cancelled,
    Chosen(String),
}

/// The next step of an open-file operation once its dialog has returned.
pub enum OpenStep {
    /// The user cancelled: the operation ends silently, emitting nothing.
    Finish,
    /// Read the chosen file, then hand the outcome to `open_file_outcome`.
    ReadFrom(String),
}

/// The next step of a save-file operation once its dialog has returned.
pub enum SaveStep {
    /// The user cancelled: the operation ends silently, emitting nothing.
    Finish,
    /// Write the pending content to the chosen path, then hand the
    /// outcome to `save_file_outcome`.
    WriteTo(String),
}

/// A notification broadcast to listeners when a bridge operation ends.
pub enum Notification {
    /// The text an open-file operation read.
    Content(String),
    /// The path a save-file operation wrote.
    SaveState(String),
    /// A failed read or write, reported rather than aborting the process.
    Failure(FileError),
}

/// Decides what an open-file operation does after its dialog returns:
/// cancellation ends it silently, a chosen path is to be read.
pub fn open_file_step(choice: DialogChoice) -> (s: OpenStep)
    ensures
        match choice {
            DialogChoice::Cancelled => s is Finish,
            DialogChoice::Chosen(path) => s matches OpenStep::ReadFrom(p) && p == path,
        },
{
    match choice {
        DialogChoice::Cancelled => OpenStep::Finish,
        DialogChoice::Chosen(path) => OpenStep::ReadFrom(path),
    }
}

/// The notification an open-file operation broadcasts once the chosen
/// file has been read: the content on success, a reported read failure
/// otherwise — never a crash.
pub fn open_file_outcome(read_result: Result<String, String>) -> (n: Notification)
    ensures
        match read_result {
            Ok(content) => n matches Notification::Content(c) && c == content,
            Err(_) => n == Notification::Failure(FileError::ReadError),
        },
{
    match read_result {
        Ok(content) => Notification::Content(content),
        Err(_) => Notification::Failure(FileError::ReadError),
    }
}

/// Decides what a save-file operation does after its dialog returns:
/// cancellation ends it silently, a chosen path is to be written.
pub fn save_file_step(choice: DialogChoice) -> (s: SaveStep)
    ensures
        match choice {
            DialogChoice::Cancelled => s is Finish,
            DialogChoice::Chosen(path) => s matches SaveStep::WriteTo(p) && p == path,
        },
{
    match choice {
        DialogChoice::Cancelled => SaveStep::Finish,
        DialogChoice::Chosen(path) => SaveStep::WriteTo(path),
    }
}

/// The notification a save-file operation broadcasts once the write has
/// been attempted: the path written on success, a reported write failure
/// otherwise — never a crash.
pub fn save_file_outcome(path: String, write_ok: bool) -> (n: Notification)
    ensures
        write_ok ==> (n matches Notification::SaveState(p) && p == path),
        !write_ok ==> n == Notification::Failure(FileError::WriteError),
{
    if write_ok {
        Notification::SaveState(path)
    } else {
        Notification::Failure(FileError::WriteError)
    }
}

} // verus!
