use vstd::prelude::*;

pub mod bundle;
pub mod bytes;
pub mod handler;
pub mod images;
pub mod queue;
pub mod sandbox;
pub mod scanner;
pub mod sidecar;
pub mod worker;

verus! {

/// The externally supplied configuration: network port, filesystem root,
/// the static gallery shell, and the log destination.
pub struct Config {
    pub gallery_index: String,
    pub logfile: String,
    pub port: u16,
    pub root_directory: String,
}

/// The error kinds the pipeline can report.
#[derive(Debug, Clone, Copy, PartialEq, Eq, Structural)]
pub enum SyncError {
    /// A directory or file could not be read or written.
    IoError,
    /// An image could not be decoded.
    DecodeError,
    /// A decoded image could not be normalized to the truecolor format.
    UnsupportedFormat,
    /// A client-supplied path would resolve outside the configured root.
    InvalidPath,
    /// The sync worker is no longer accepting commands.
    QueueClosed,
}

} // verus!
