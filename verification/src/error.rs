//! The error taxonomy of the engine.

use vstd::prelude::*;
use vstd::string::StringExecFns;

verus! {

/// Every way a scan, encode, or patch operation can fail.
///
/// A delete of an already-absent file is deliberately absent here: it is
/// non-fatal and surfaces only as a logged warning in the caller.
#[derive(Debug)]
pub enum Error {
    /// The tracked-directory marker file is absent or malformed.
    MissingMetadata,
    /// An ignore entry in the marker file is not a valid glob pattern.
    BadIgnorePattern { pattern: String },
    /// A file could not be read during a scan.
    FileReadError { path: String },
    /// A file named by the diff could not be found while encoding a package.
    MissingSourceFile { path: String },
    /// The first eight bytes of a package are not the expected magic token.
    BadMagic,
    /// The manifest block of a package is truncated or not valid manifest JSON.
    MalformedManifest,
    /// The patch target directory carries no marker file.
    NotTrackedDirectory,
    /// The package was built against a different version than the target has.
    VersionMismatch { expected: String, actual: String },
    /// The compressed payload block is truncated or cannot be unpacked,
    /// or the archive engine failed while a package was being assembled.
    ExtractionError,
}

impl Error {
    /// A short human-readable description, for callers that log failures.
    pub fn describe(&self) -> (r: String)
        ensures
            r@ == match *self {
                Error::MissingMetadata => "unable to open eto.json"@,
                Error::BadIgnorePattern { pattern } => "invalid ignore pattern: "@ + pattern@,
                Error::FileReadError { path } => "failed to read file to track: "@ + path@,
                Error::MissingSourceFile { path } => "unable to open diff file: "@ + path@,
                Error::BadMagic => "package magic number does not match, file is likely not a package or has an unsupported format version"@,
                Error::MalformedManifest => "malformed manifest json"@,
                Error::NotTrackedDirectory => "directory is not an eto tracked directory"@,
                Error::VersionMismatch { expected, actual } => "package was made for version \""@
                    + expected@ + "\", but current version is \""@ + actual@ + "\""@,
                Error::ExtractionError => "failed to decode gzip data block"@,
            },
    {
        match self {
            Error::MissingMetadata => "unable to open eto.json".to_owned(),
            Error::BadIgnorePattern { pattern } => "invalid ignore pattern: ".to_owned().concat(
                pattern.as_str(),
            ),
            Error::FileReadError { path } => "failed to read file to track: ".to_owned().concat(
                path.as_str(),
            ),
            Error::MissingSourceFile { path } => "unable to open diff file: ".to_owned().concat(
                path.as_str(),
            ),
            Error::BadMagic => {
                "package magic number does not match, file is likely not a package or has an unsupported format version".to_owned()
            },
            Error::MalformedManifest => "malformed manifest json".to_owned(),
            Error::NotTrackedDirectory => "directory is not an eto tracked directory".to_owned(),
            Error::VersionMismatch { expected, actual } => {
                "package was made for version \"".to_owned().concat(expected.as_str()).concat(
                    "\", but current version is \"",
                ).concat(actual.as_str()).concat("\"")
            },
            Error::ExtractionError => "failed to decode gzip data block".to_owned(),
        }
    }
}

} // verus!
