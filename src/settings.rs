//! The program's settings and the ways loading them can fail. Reading and
//! writing the file, and the JSON form, belong to the program around the
//! library.
use vstd::prelude::*;

verus! {

/// A failed read or write; carried, never looked into.
#[verifier::external_type_specification]
#[verifier::external_body]
pub struct ExIoError(std::io::Error);

/// A failed JSON decode or encode; carried, never looked into.
#[verifier::external_type_specification]
#[verifier::external_body]
pub struct ExJsonError(serde_json::Error);

/// Why settings could not be loaded or saved.
#[derive(Debug)]
pub enum SettingsError {
    /// There is no settings file at the path.
    FileNotFound,
    /// The settings file may not be read or written.
    PermissionDenied,
    /// Reading or writing failed for another reason, carried here.
    Io(std::io::Error),
    /// The file's text is not settings in JSON.
    Parse(serde_json::Error),
    /// Reading failed in a way that has no meaning for settings.
    Unknown,
}

/// The ways of failing to read a file that loading tells apart.
#[derive(Clone, Copy, Debug, PartialEq, Eq, Structural)]
pub enum ReadFailureKind {
    NotFound,
    PermissionDenied,
    Other,
    Unrecognized,
}

/// Relies on std::io::Error::kind: sorts the error by its kind.
#[verifier::external_body]
fn read_failure_kind(e: &std::io::Error) -> ReadFailureKind {
    match e.kind() {
        std::io::ErrorKind::NotFound => ReadFailureKind::NotFound,
        std::io::ErrorKind::PermissionDenied => ReadFailureKind::PermissionDenied,
        std::io::ErrorKind::Other => ReadFailureKind::Other,
        _ => ReadFailureKind::Unrecognized,
    }
}

impl SettingsError {
    /// The error for a failed read of the settings file, of the given kind.
    pub fn from_read_failure(kind: ReadFailureKind, cause: std::io::Error) -> (r: SettingsError)
        ensures
            kind == ReadFailureKind::NotFound <==> r is FileNotFound,
            kind == ReadFailureKind::PermissionDenied <==> r is PermissionDenied,
            kind == ReadFailureKind::Other <==> r is Io,
            kind == ReadFailureKind::Other ==> r == SettingsError::Io(cause),
            kind == ReadFailureKind::Unrecognized <==> r is Unknown,
    {
        match kind {
            ReadFailureKind::NotFound => SettingsError::FileNotFound,
            ReadFailureKind::PermissionDenied => SettingsError::PermissionDenied,
            ReadFailureKind::Other => SettingsError::Io(cause),
            ReadFailureKind::Unrecognized => SettingsError::Unknown,
        }
    }

    /// The error for a failed read of the settings file: never a parse error.
    pub fn from_read_error(cause: std::io::Error) -> (r: SettingsError)
        ensures
            !(r is Parse),
    {
        let kind = read_failure_kind(&cause);
        SettingsError::from_read_failure(kind, cause)
    }

    /// The error for settings text that is not valid JSON settings.
    pub fn from_parse_error(cause: serde_json::Error) -> (r: SettingsError)
        ensures
            r is Parse,
    {
        SettingsError::Parse(cause)
    }
}

/// The program's settings.
#[derive(Debug)]
pub struct Settings {
    pub project_name: String,
    pub version: String,
    pub debug: bool,
    pub max_connections: u32,
}

impl Settings {
    /// Allows one more connection than before; the other settings stay.
    pub fn increment_max_connections(&mut self)
        requires
            old(self).max_connections < u32::MAX,
        ensures
            final(self).max_connections == old(self).max_connections + 1,
            final(self).project_name == old(self).project_name,
            final(self).version == old(self).version,
            final(self).debug == old(self).debug,
    {
        self.max_connections = self.max_connections + 1;
    }
}

} // verus!
