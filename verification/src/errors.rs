//! The errors that the audio and storage layers report to the interface.
use vstd::prelude::*;

verus! {

/// An error reported to the interface, with a code and, for most codes, a
/// message.
#[derive(Debug)]
pub enum AppError {
    AudioDeviceNotFound(String),
    AudioPermissionDenied(String),
    AudioBusy(String),
    AudioTooShort,
    AudioTooQuiet,
    ModelNotFound,
    ModelCorrupt,
    TranscriptionFailed(String),
    DatabaseError(String),
    FileSystemError(String),
    Unknown(String),
}

} // verus!
