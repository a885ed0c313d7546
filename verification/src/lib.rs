//! Client-side logic for the Android Debug Bridge (ADB) host protocol.
//!
//! The crate covers the wire codec (ASCII length prefixes and the binary
//! sync sub-protocol), response interpretation, shell-command quoting,
//! device selection, and the planning of file transfers.  Everything here
//! is verified; the socket, process and file-system plumbing that drives
//! these functions lives outside the crate.

pub mod codec;
pub mod devices;
pub mod device;
pub mod error;
pub mod host;
pub mod shell;
pub mod strutil;
pub mod sync;
pub mod transfer;
pub mod unixpath;

pub use codec::{encode_message, read_length, read_length_little_endian, write_length_little_endian};
pub use devices::{parse_device_brief, parse_device_info, DeviceBrief, DeviceInfo, DeviceSerial,
    DeviceState};
pub use device::{AndroidStorage, AndroidStorageInput, Device};
pub use error::DeviceError;
pub use host::Host;
pub use sync::{FileMetadata, UnixFileStatus};
pub use transfer::{DirectoryTransferProgress, FileTransferProgress};
