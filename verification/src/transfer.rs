//! Single-object transfer dispatch: the four backend-kind combinations as
//! a closed match, and the choice between one-shot and multipart upload.
use vstd::prelude::*;

use crate::path_utils::PathType;

verus! {

/// Which of the four backend-kind combinations a copy takes.
#[derive(Debug, Clone, Copy, PartialEq, Eq, Structural)]
pub enum TransferRoute {
    /// Local file to remote object.
    Upload,
    /// Remote object to local file.
    Download,
    /// Remote object to remote object, copied server-side.
    RemoteCopy,
    /// Local file to local file, a plain byte copy.
    LocalCopy,
}

/// The route a source and destination kind pair takes.
pub open spec fn spec_transfer_route(src: PathType, dst: PathType) -> TransferRoute {
    match (src, dst) {
        (PathType::Local(_), PathType::S3 { .. }) => TransferRoute::Upload,
        (PathType::S3 { .. }, PathType::Local(_)) => TransferRoute::Download,
        (PathType::S3 { .. }, PathType::S3 { .. }) => TransferRoute::RemoteCopy,
        (PathType::Local(_), PathType::Local(_)) => TransferRoute::LocalCopy,
    }
}

/// Dispatches a copy on the source and destination kinds.
pub fn transfer_route(src: &PathType, dst: &PathType) -> (r: TransferRoute)
    ensures
        r == spec_transfer_route(*src, *dst),
{
    match (src, dst) {
        (PathType::Local(_), PathType::S3 { .. }) => TransferRoute::Upload,
        (PathType::S3 { .. }, PathType::Local(_)) => TransferRoute::Download,
        (PathType::S3 { .. }, PathType::S3 { .. }) => TransferRoute::RemoteCopy,
        (PathType::Local(_), PathType::Local(_)) => TransferRoute::LocalCopy,
    }
}

/// Dispatches a recursive copy: the three cross-backend combinations are
/// supported, and a local-to-local request is refused with its message.
pub fn recursive_copy_route(src: &PathType, dst: &PathType) -> (r: Result<TransferRoute, String>)
    ensures
        match spec_transfer_route(*src, *dst) {
            TransferRoute::LocalCopy => r matches Err(e) && e@
                == "Local to local recursive copy not implemented. Use standard 'cp -r' command."@,
            route => r matches Ok(v) && v == route,
        },
{
    match transfer_route(src, dst) {
        TransferRoute::LocalCopy => Err(
            String::from_str(
                "Local to local recursive copy not implemented. Use standard 'cp -r' command.",
            ),
        ),
        route => Ok(route),
    }
}

/// Dispatches a sync: the three cross-backend combinations are supported,
/// and a local-to-local request is refused with its message.
pub fn sync_route(src: &PathType, dst: &PathType) -> (r: Result<TransferRoute, String>)
    ensures
        match spec_transfer_route(*src, *dst) {
            TransferRoute::LocalCopy => r matches Err(e) && e@
                == "Local to local sync not implemented. Use standard 'rsync' command."@,
            route => r matches Ok(v) && v == route,
        },
{
    match transfer_route(src, dst) {
        TransferRoute::LocalCopy => Err(
            String::from_str("Local to local sync not implemented. Use standard 'rsync' command."),
        ),
        route => Ok(route),
    }
}

/// The copy-source parameter of a server-side copy: the source bucket and
/// key joined by one separator.
pub fn copy_source_param(bucket: &str, key: &str) -> (r: String)
    ensures
        r@ == bucket@ + "/"@ + key@,
{
    String::from_str(bucket).concat("/").concat(key)
}

/// Whether an upload of this size goes through the multipart path: it
/// does exactly when the size reaches the threshold.
pub fn use_multipart(file_size: u64, threshold: u64) -> (r: bool)
    ensures
        r == (file_size >= threshold),
{
    file_size >= threshold
}

} // verus!
