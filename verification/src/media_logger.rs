//! The log of what is done with media files.
use vstd::prelude::*;

verus! {

/// What is done with a media file.
#[derive(Clone, Copy, Debug, PartialEq, Eq, Structural)]
pub enum MediaOperationType {
    Upload,
    Download,
}

impl MediaOperationType {
    /// The number under which the log has it.
    pub fn code(&self) -> (r: i32)
        ensures
            r == match self {
                MediaOperationType::Upload => 1i32,
                MediaOperationType::Download => 2i32,
            },
    {
        match self {
            MediaOperationType::Upload => 1,
            MediaOperationType::Download => 2,
        }
    }
}

/// An entry of the log.
#[derive(Debug, PartialEq)]
pub struct MediaLogEntry {
    pub operation: i32,
    pub user_id: Option<i32>,
    pub ip_address: String,
    pub file_hash: Option<String>,
    pub file_name: Option<String>,
    pub file_size: Option<i64>,
}

/// The entry for what was done with a media file.
pub fn log_media_operation(
    operation_type: MediaOperationType,
    user_id: Option<i32>,
    ip_address: String,
    file_hash: Option<String>,
    file_name: Option<String>,
    file_size: Option<i64>,
) -> (r: MediaLogEntry)
    ensures
        r.operation == match operation_type {
            MediaOperationType::Upload => 1i32,
            MediaOperationType::Download => 2i32,
        },
        r.user_id == user_id,
        r.ip_address == ip_address,
        r.file_hash == file_hash,
        r.file_name == file_name,
        r.file_size == file_size,
{
    MediaLogEntry {
        operation: operation_type.code(),
        user_id,
        ip_address,
        file_hash,
        file_name,
        file_size,
    }
}

} // verus!
