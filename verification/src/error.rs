//! The closed set of errors that library operations surface.

use vstd::prelude::*;

verus! {

/// Everything that can go wrong while talking to the ADB server or while
/// preparing a request for it.  Variants that the I/O layer fills in
/// (socket failures, local walk failures) carry their message as a plain
/// string.
#[derive(Debug, Clone)]
pub enum DeviceError {
    /// A protocol-level error message produced by the ADB server.
    Adb(String),
    /// A payload length did not fit the 16-bit ASCII length prefix.
    FromInt,
    /// A storage-location input was not one of the accepted words.
    InvalidStorage,
    /// An I/O failure, carried as its message.
    Io(String),
    /// A run-as operation was requested without a configured package.
    MissingPackage,
    /// More than one device was online and none was selected.
    MultipleDevices,
    /// An integer field could not be parsed.
    ParseInt,
    /// No online device has the given serial.
    UnknownDevice(String),
    /// A framed payload was not valid UTF-8.
    Utf8,
    /// A local file-system walk failed, carried as its message.
    WalkDir(String),
    /// The package manager rejected an operation; carries its full output.
    PackageManagerError(String),
    /// The ADB server did not accept a connection in time.
    ConnectTimeout,
}

impl DeviceError {
    /// The human-readable message for this error.
    pub open spec fn spec_message(self) -> Seq<char> {
        match self {
            DeviceError::Adb(s) => s@,
            DeviceError::FromInt => "out of range integral type conversion attempted"@,
            DeviceError::InvalidStorage => "Invalid storage"@,
            DeviceError::Io(s) => s@,
            DeviceError::MissingPackage => "Missing package"@,
            DeviceError::MultipleDevices => "Multiple Android devices online"@,
            DeviceError::ParseInt => "invalid digit found in string"@,
            DeviceError::UnknownDevice(s) => "Unknown Android device with serial '"@ + s@ + "'"@,
            DeviceError::Utf8 => "invalid utf-8 sequence"@,
            DeviceError::WalkDir(s) => s@,
            DeviceError::PackageManagerError(s) => "Package manager returned an error: "@ + s@,
            DeviceError::ConnectTimeout => "Timed out while opening ADB connection"@,
        }
    }

    /// Renders the error as the message a user sees.
    pub fn message(&self) -> (r: String)
        ensures
            r@ == self.spec_message(),
    {
        match self {
            DeviceError::Adb(s) => s.clone(),
            DeviceError::FromInt => {
                String::from_str("out of range integral type conversion attempted")
            },
            DeviceError::InvalidStorage => String::from_str("Invalid storage"),
            DeviceError::Io(s) => s.clone(),
            DeviceError::MissingPackage => String::from_str("Missing package"),
            DeviceError::MultipleDevices => String::from_str("Multiple Android devices online"),
            DeviceError::ParseInt => String::from_str("invalid digit found in string"),
            DeviceError::UnknownDevice(s) => {
                String::from_str("Unknown Android device with serial '").concat(s.as_str()).concat(
                    "'",
                )
            },
            DeviceError::Utf8 => String::from_str("invalid utf-8 sequence"),
            DeviceError::WalkDir(s) => s.clone(),
            DeviceError::PackageManagerError(s) => {
                String::from_str("Package manager returned an error: ").concat(s.as_str())
            },
            DeviceError::ConnectTimeout => {
                String::from_str("Timed out while opening ADB connection")
            },
        }
    }
}

} // verus!
