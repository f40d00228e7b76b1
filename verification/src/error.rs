//! Error types for Fontsource client operations.

use std::path::PathBuf;
use vstd::prelude::*;

verus! {

/// The error of the HTTP client (`reqwest`); carried, never inspected.
#[verifier::external_type_specification]
#[verifier::external_body]
pub struct ExHttpClientError(reqwest::Error);

/// A file-system error; carried, never inspected.
#[verifier::external_type_specification]
#[verifier::external_body]
pub struct ExIoError(std::io::Error);

/// A file-system path; carried, never inspected.
#[verifier::external_type_specification]
#[verifier::external_body]
pub struct ExPathBuf(std::path::PathBuf);

/// A JSON (de)serialization error; carried, never inspected.
#[verifier::external_type_specification]
#[verifier::external_body]
pub struct ExJsonError(serde_json::Error);

/// The failure of a concurrent task; carried, never inspected.
#[verifier::external_type_specification]
#[verifier::external_body]
pub struct ExJoinError(tokio::task::JoinError);

/// Errors that can occur during Fontsource client operations.
#[derive(Debug)]
pub enum FontSourceError {
    /// The HTTP client failed to initialize.
    ClientBuildFailed {
        /// The underlying error from the HTTP client builder.
        source: reqwest::Error,
    },
    /// An HTTP request was unsuccessful.
    MetadataRequestFailed {
        /// A description of the request that failed.
        request: String,
        /// The underlying error from the HTTP client.
        source: reqwest::Error,
    },
    /// A metadata response could not be decoded into text.
    MetadataDecodeFailed {
        /// A description of the request whose payload failed to decode.
        request: String,
        /// The underlying error when decoding the payload.
        source: reqwest::Error,
    },
    /// The requested font family is not provided by Fontsource.
    FontFamilyNotFound {
        /// The requested font family.
        family: String,
    },
    /// The requested variant is not available for the requested family.
    FontVariantNotAvailable {
        /// The font family.
        family: String,
        /// The field of the variant: weight, style or subset.
        field: &'static str,
        /// The requested value(s), as text.
        requested_value: String,
    },
    /// A cache directory could not be created.
    CreateFontCacheDirFailed {
        /// The directory that could not be created.
        path: String,
        /// The underlying error from the file system.
        source: std::io::Error,
    },
    /// A font file could not be downloaded.
    FontDownloadFailed {
        /// The URL of the font file.
        url: String,
        /// The underlying error from the HTTP client.
        source: reqwest::Error,
    },
    /// A concurrent task failed to complete.
    ConcurrentTaskFailed {
        /// A description of the concurrent operation.
        task: &'static str,
        /// The underlying task failure.
        source: tokio::task::JoinError,
    },
    /// A file (in the cache directory) could not be written.
    WriteFileFailed {
        /// The file that could not be written.
        path: String,
        /// The underlying error from the file system.
        source: std::io::Error,
    },
    /// A cache file could not be read.
    ReadCacheFileFailed {
        /// The cache file.
        path: PathBuf,
        /// The underlying error from the file system.
        source: std::io::Error,
    },
    /// A Fontsource response could not be parsed.
    ParseResponseFailed {
        /// A description of the request whose payload failed to parse.
        task: &'static str,
        /// The underlying error from the JSON parser.
        source: serde_json::Error,
    },
    /// A cached JSON file could not be deserialized.
    JsonError(serde_json::Error),
    /// The lock file of the cache is poisoned.
    CacheLockPoisoned {
        /// The lock file.
        path: PathBuf,
        /// The underlying error from the file system.
        source: std::io::Error,
    },
}

/// The contents of a "variant not available" error.
pub struct Missing {
    pub family: Seq<char>,
    pub field: Seq<char>,
    pub requested: Seq<char>,
}

impl FontSourceError {
    /// This error reports the missing variant `m`.
    pub open spec fn reports(self, m: Missing) -> bool {
        match self {
            FontSourceError::FontVariantNotAvailable { family, field, requested_value } => {
                &&& family@ == m.family
                &&& field@ == m.field
                &&& requested_value@ == m.requested
            },
            _ => false,
        }
    }
}

/// The Python exception class that an error is raised as.
#[derive(Debug, Clone, Copy, PartialEq, Eq, Structural)]
pub enum PythonErrorKind {
    /// `OSError`: the client or the file system failed.
    OSError,
    /// `RuntimeError`: a request, download or task failed.
    RuntimeError,
    /// `ValueError`: the request or a payload was invalid.
    ValueError,
}

/// The Python exception class of each error variant.
pub open spec fn python_error_kind_of(e: FontSourceError) -> PythonErrorKind {
    match e {
        FontSourceError::ClientBuildFailed { .. } => PythonErrorKind::OSError,
        FontSourceError::MetadataRequestFailed { .. } => PythonErrorKind::RuntimeError,
        FontSourceError::MetadataDecodeFailed { .. } => PythonErrorKind::ValueError,
        FontSourceError::FontFamilyNotFound { .. } => PythonErrorKind::ValueError,
        FontSourceError::FontVariantNotAvailable { .. } => PythonErrorKind::ValueError,
        FontSourceError::CreateFontCacheDirFailed { .. } => PythonErrorKind::OSError,
        FontSourceError::FontDownloadFailed { .. } => PythonErrorKind::RuntimeError,
        FontSourceError::ConcurrentTaskFailed { .. } => PythonErrorKind::RuntimeError,
        FontSourceError::WriteFileFailed { .. } => PythonErrorKind::OSError,
        FontSourceError::ReadCacheFileFailed { .. } => PythonErrorKind::OSError,
        FontSourceError::ParseResponseFailed { .. } => PythonErrorKind::RuntimeError,
        FontSourceError::JsonError(..) => PythonErrorKind::ValueError,
        FontSourceError::CacheLockPoisoned { .. } => PythonErrorKind::OSError,
    }
}

impl FontSourceError {
    /// The Python exception class that this error is raised as: `OSError`
    /// for client and file-system failures, `RuntimeError` for failed
    /// requests, downloads, tasks and unparsable responses, `ValueError` for
    /// undecodable payloads, unknown families or variants, and invalid cache
    /// files.
    pub fn python_error_kind(&self) -> (r: PythonErrorKind)
        ensures
            r == python_error_kind_of(*self),
    {
        match self {
            FontSourceError::ClientBuildFailed { .. } => PythonErrorKind::OSError,
            FontSourceError::MetadataRequestFailed { .. } => PythonErrorKind::RuntimeError,
            FontSourceError::MetadataDecodeFailed { .. } => PythonErrorKind::ValueError,
            FontSourceError::FontFamilyNotFound { .. } => PythonErrorKind::ValueError,
            FontSourceError::FontVariantNotAvailable { .. } => PythonErrorKind::ValueError,
            FontSourceError::CreateFontCacheDirFailed { .. } => PythonErrorKind::OSError,
            FontSourceError::FontDownloadFailed { .. } => PythonErrorKind::RuntimeError,
            FontSourceError::ConcurrentTaskFailed { .. } => PythonErrorKind::RuntimeError,
            FontSourceError::WriteFileFailed { .. } => PythonErrorKind::OSError,
            FontSourceError::ReadCacheFileFailed { .. } => PythonErrorKind::OSError,
            FontSourceError::ParseResponseFailed { .. } => PythonErrorKind::RuntimeError,
            FontSourceError::JsonError(..) => PythonErrorKind::ValueError,
            FontSourceError::CacheLockPoisoned { .. } => PythonErrorKind::OSError,
        }
    }
}

/// Whether the error carries a path of the file system (whose text only the
/// platform knows).
pub open spec fn carries_path(e: FontSourceError) -> bool {
    e is ReadCacheFileFailed || e is CacheLockPoisoned
}

/// The message of an error, with `path` as the text of the path it carries
/// (where it carries one).
pub open spec fn message_of(e: FontSourceError, path: Seq<char>) -> Seq<char> {
    match e {
        FontSourceError::ClientBuildFailed { .. } => "Failed to build HTTP client for Fontsource"@,
        FontSourceError::MetadataRequestFailed { request, .. } => "Failed to query Fontsource when "@
            + request@,
        FontSourceError::MetadataDecodeFailed { request, .. } =>
            "Failed to decode Fontsource metadata when "@ + request@,
        FontSourceError::FontFamilyNotFound { family } => "Fontsource does not provide a family named '"@
            + family@ + "'"@,
        FontSourceError::FontVariantNotAvailable { family, field, requested_value } =>
            "Fontsource family '"@ + family@ + "' does not provide "@ + field@ + " "@
            + requested_value@,
        FontSourceError::CreateFontCacheDirFailed { path: p, .. } =>
            "Failed to create font cache directory '"@ + p@ + "'"@,
        FontSourceError::FontDownloadFailed { url, .. } => "Failed to download font file from '"@
            + url@ + "'"@,
        FontSourceError::ConcurrentTaskFailed { task, .. } =>
            "Failed while running concurrent task for "@ + task@,
        FontSourceError::WriteFileFailed { path: p, .. } => "Failed to write file '"@ + p@ + "'"@,
        FontSourceError::ReadCacheFileFailed { .. } => "Failed to read cache file '"@ + path + "'"@,
        FontSourceError::ParseResponseFailed { task, .. } => "Failed to parse response payload about "@
            + task@ + " from Fontsource"@,
        FontSourceError::JsonError(..) => "Failed to deserialize JSON file from cache"@,
        FontSourceError::CacheLockPoisoned { .. } => "Cache lock file is poisoned for '"@ + path
            + "'"@,
    }
}

/// The text of a path as `Path::display` shows it. Nothing is claimed of
/// the text: it depends on the platform's encoding of paths.
#[verifier::external_body]
fn path_text(path: &PathBuf) -> String {
    path.display().to_string()
}

fn joined3(a: &str, b: &str, c: &str) -> (r: String)
    ensures
        r@ == a@ + b@ + c@,
{
    let mut r = a.to_owned();
    r.append(b);
    r.append(c);
    r
}

impl FontSourceError {
    /// The message of this error: what happened and to what (the request,
    /// family, variant, file, URL or task).
    pub fn message(&self) -> (r: String)
        ensures
            !carries_path(*self) ==> r@ == message_of(*self, seq![]),
            carries_path(*self) ==> exists|p: Seq<char>| r@ == message_of(*self, p),
    {
        proof {
            reveal_strlit("");
        }
        match self {
            FontSourceError::ClientBuildFailed { .. } => "Failed to build HTTP client for Fontsource".to_owned(),
            FontSourceError::MetadataRequestFailed { request, .. } => joined3(
                "Failed to query Fontsource when ",
                request.as_str(),
                "",
            ),
            FontSourceError::MetadataDecodeFailed { request, .. } => joined3(
                "Failed to decode Fontsource metadata when ",
                request.as_str(),
                "",
            ),
            FontSourceError::FontFamilyNotFound { family } => joined3(
                "Fontsource does not provide a family named '",
                family.as_str(),
                "'",
            ),
            FontSourceError::FontVariantNotAvailable { family, field, requested_value } => {
                let mut r = joined3("Fontsource family '", family.as_str(), "' does not provide ");
                r.append(field);
                r.append(" ");
                r.append(requested_value.as_str());
                r
            },
            FontSourceError::CreateFontCacheDirFailed { path, .. } => joined3(
                "Failed to create font cache directory '",
                path.as_str(),
                "'",
            ),
            FontSourceError::FontDownloadFailed { url, .. } => joined3(
                "Failed to download font file from '",
                url.as_str(),
                "'",
            ),
            FontSourceError::ConcurrentTaskFailed { task, .. } => joined3(
                "Failed while running concurrent task for ",
                task,
                "",
            ),
            FontSourceError::WriteFileFailed { path, .. } => joined3(
                "Failed to write file '",
                path.as_str(),
                "'",
            ),
            FontSourceError::ReadCacheFileFailed { path, .. } => {
                let p = path_text(path);
                let r = joined3("Failed to read cache file '", p.as_str(), "'");
                assert(r@ == message_of(*self, p@));
                r
            },
            FontSourceError::ParseResponseFailed { task, .. } => joined3(
                "Failed to parse response payload about ",
                task,
                " from Fontsource",
            ),
            FontSourceError::JsonError(..) => "Failed to deserialize JSON file from cache".to_owned(),
            FontSourceError::CacheLockPoisoned { path, .. } => {
                let p = path_text(path);
                let r = joined3("Cache lock file is poisoned for '", p.as_str(), "'");
                assert(r@ == message_of(*self, p@));
                r
            },
        }
    }
}

/// A convenient alias for results of Fontsource client operations.
pub type Result<T> = std::result::Result<T, FontSourceError>;

} // verus!
