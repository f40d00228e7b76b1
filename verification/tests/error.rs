use std::path::PathBuf;

use fontsource_downloader::error::{FontSourceError, PythonErrorKind};

fn io_error() -> std::io::Error {
    std::io::Error::other("denied")
}

fn json_error() -> serde_json::Error {
    serde_json::from_str::<u8>("not json").unwrap_err()
}

fn http_error() -> reqwest::Error {
    reqwest::Client::new().get("not a url").build().unwrap_err()
}

#[test]
fn python_error_kind_of_lookup_errors() {
    let not_found = FontSourceError::FontFamilyNotFound {
        family: "Nonexistent Font".to_string(),
    };
    assert_eq!(not_found.python_error_kind(), PythonErrorKind::ValueError);

    let not_available = FontSourceError::FontVariantNotAvailable {
        family: "Roboto".to_string(),
        field: "weight",
        requested_value: "700".to_string(),
    };
    assert_eq!(not_available.python_error_kind(), PythonErrorKind::ValueError);
}

#[test]
fn python_error_kind_of_file_system_errors() {
    let cases = [
        FontSourceError::CreateFontCacheDirFailed {
            path: "cache".to_string(),
            source: io_error(),
        },
        FontSourceError::WriteFileFailed {
            path: "cache/font.ttf".to_string(),
            source: io_error(),
        },
        FontSourceError::ReadCacheFileFailed {
            path: PathBuf::from("cache/list.json"),
            source: io_error(),
        },
        FontSourceError::CacheLockPoisoned {
            path: PathBuf::from("cache/list.lock"),
            source: io_error(),
        },
        FontSourceError::ClientBuildFailed {
            source: http_error(),
        },
    ];
    for case in &cases {
        assert_eq!(case.python_error_kind(), PythonErrorKind::OSError);
    }
}

#[test]
fn python_error_kind_of_request_and_payload_errors() {
    let request = FontSourceError::MetadataRequestFailed {
        request: "getting the supported list of font families".to_string(),
        source: http_error(),
    };
    assert_eq!(request.python_error_kind(), PythonErrorKind::RuntimeError);

    let download = FontSourceError::FontDownloadFailed {
        url: "https://example.com/font.ttf".to_string(),
        source: http_error(),
    };
    assert_eq!(download.python_error_kind(), PythonErrorKind::RuntimeError);

    let parse = FontSourceError::ParseResponseFailed {
        task: "getting font metadata",
        source: json_error(),
    };
    assert_eq!(parse.python_error_kind(), PythonErrorKind::RuntimeError);

    let decode = FontSourceError::MetadataDecodeFailed {
        request: "getting metadata about the font family Roboto".to_string(),
        source: http_error(),
    };
    assert_eq!(decode.python_error_kind(), PythonErrorKind::ValueError);

    let cached = FontSourceError::JsonError(json_error());
    assert_eq!(cached.python_error_kind(), PythonErrorKind::ValueError);
}

#[test]
fn error_messages() {
    let not_found = FontSourceError::FontFamilyNotFound {
        family: "Nonexistent Font".to_string(),
    };
    assert_eq!(
        not_found.message(),
        "Fontsource does not provide a family named 'Nonexistent Font'"
    );
    let not_available = FontSourceError::FontVariantNotAvailable {
        family: "Roboto".to_string(),
        field: "weight",
        requested_value: "700".to_string(),
    };
    assert_eq!(
        not_available.message(),
        "Fontsource family 'Roboto' does not provide weight 700"
    );
    let request = FontSourceError::MetadataRequestFailed {
        request: "getting the supported list of font families".to_string(),
        source: http_error(),
    };
    assert_eq!(
        request.message(),
        "Failed to query Fontsource when getting the supported list of font families"
    );
    let parse = FontSourceError::ParseResponseFailed {
        task: "getting font metadata",
        source: json_error(),
    };
    assert_eq!(
        parse.message(),
        "Failed to parse response payload about getting font metadata from Fontsource"
    );
    assert_eq!(
        FontSourceError::JsonError(json_error()).message(),
        "Failed to deserialize JSON file from cache"
    );
    let read = FontSourceError::ReadCacheFileFailed {
        path: PathBuf::from("cache/list.json"),
        source: io_error(),
    };
    assert_eq!(read.message(), "Failed to read cache file 'cache/list.json'");
    let write = FontSourceError::WriteFileFailed {
        path: "cache/font.ttf".to_string(),
        source: io_error(),
    };
    assert_eq!(write.message(), "Failed to write file 'cache/font.ttf'");
}
