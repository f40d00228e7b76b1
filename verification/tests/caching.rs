use std::time::{Duration, SystemTime, UNIX_EPOCH};

use fontsource_downloader::caching::{
    cached_family, cached_family_id, expires_at, family_cache, family_not_found, font_list_cache,
    max_age_seconds, parse_max_age, DEFAULT_METADATA_TTL_SECS,
};
use fontsource_downloader::api::{family_metadata_url, font_list_url, FONTSOURCE_API};
use fontsource_downloader::error::FontSourceError;
use fontsource_downloader::responses::{FontSourceFamily, FontSourceVariants, TextMap};
use fontsource_downloader::FontListCacheInfo;
use reqwest::header::HeaderValue;

fn now_unix() -> u64 {
    SystemTime::now()
        .duration_since(UNIX_EPOCH)
        .map_or(0, |duration| duration.as_secs())
}

fn header_bytes(value: &HeaderValue) -> Option<&[u8]> {
    Some(value.as_bytes())
}

#[test]
fn parse_max_age_variants() {
    assert_eq!(parse_max_age(None), None);

    let valid = HeaderValue::from_static("public, max-age=123, immutable");
    assert_eq!(
        parse_max_age(header_bytes(&valid)).map(Duration::from_secs),
        Some(Duration::from_secs(123))
    );

    let non_numeric = HeaderValue::from_static("max-age=abc");
    assert_eq!(parse_max_age(header_bytes(&non_numeric)), None);

    let invalid_utf8 = HeaderValue::from_bytes(b"max-age=10\xFF").unwrap();
    assert_eq!(parse_max_age(header_bytes(&invalid_utf8)), None);
}

#[test]
fn parse_max_age_first_valid_directive() {
    assert_eq!(max_age_seconds("max-age=x, max-age=7"), Some(7));
    assert_eq!(max_age_seconds("  max-age=+9  "), Some(9));
    assert_eq!(max_age_seconds("max-age="), None);
    assert_eq!(max_age_seconds("max-age=-1"), None);
    assert_eq!(max_age_seconds("Max-Age=5"), None);
    assert_eq!(max_age_seconds("max-age =5"), None);
    assert_eq!(max_age_seconds("max-age=18446744073709551615"), Some(u64::MAX));
    assert_eq!(max_age_seconds("max-age=18446744073709551616"), None);
    assert_eq!(max_age_seconds(",,max-age=3,"), Some(3));
    assert_eq!(max_age_seconds(""), None);
}

#[test]
fn parse_max_age_header_bytes() {
    assert_eq!(parse_max_age(Some(b"\tmax-age=5".as_slice())), Some(5));
    assert_eq!(parse_max_age(Some(b"max-age=5, \x7f".as_slice())), None);
    assert_eq!(parse_max_age(Some(b"max-age=5\n".as_slice())), None);
    assert_eq!(parse_max_age(Some(b"no-cache, max-age=60".as_slice())), Some(60));
    assert_eq!(parse_max_age(Some(b"".as_slice())), None);
}

#[test]
fn expires_at_adds_ttl() {
    let before = now_unix();
    let expires = expires_at(now_unix(), 2);
    let after = now_unix();

    assert!(expires >= before + 2);
    assert!(expires <= after + 2);
}

#[test]
fn expires_at_saturates() {
    assert_eq!(expires_at(u64::MAX - 1, 5), u64::MAX);
    assert_eq!(expires_at(10, 5), 15);
}

fn families() -> TextMap {
    let mut map = TextMap::new();
    map.insert("roboto".to_string(), "Roboto".to_string());
    map.insert("open-sans".to_string(), "Open Sans".to_string());
    map
}

#[test]
fn family_id_lookup() {
    let cache = FontListCacheInfo {
        expiration: 42,
        families: families(),
    };
    assert_eq!(cache.get_id_for_family("  Open Sans\n"), Some("open-sans"));
    assert_eq!(cache.get_id_for_family("Roboto"), Some("roboto"));
    assert_eq!(cache.get_id_for_family("roboto"), None);
}

#[test]
fn font_list_cache_freshness() {
    let cache = font_list_cache(families(), 1000, Some(60));
    assert_eq!(cache.expiration, 1060);
    assert_eq!(
        cached_family_id(Some(&cache), 1059, "Roboto"),
        Some(Some("roboto".to_string()))
    );
    assert_eq!(cached_family_id(Some(&cache), 1059, "Nope"), Some(None));
    assert_eq!(cached_family_id(Some(&cache), 1060, "Roboto"), None);
    assert_eq!(cached_family_id(None, 0, "Roboto"), None);

    let default_ttl = font_list_cache(families(), 1000, None);
    assert_eq!(default_ttl.expiration, 1000 + DEFAULT_METADATA_TTL_SECS);
    assert_eq!(DEFAULT_METADATA_TTL_SECS, 24 * 60 * 60);
}

fn empty_family() -> FontSourceFamily {
    FontSourceFamily {
        id: "roboto".to_string(),
        family: "Roboto".to_string(),
        subsets: vec![],
        weights: vec![],
        styles: vec![],
        default_subset: "latin".to_string(),
        unicode_range: TextMap::new(),
        variable: false,
        variants: FontSourceVariants::new(),
    }
}

#[test]
fn family_cache_freshness() {
    let cache = family_cache(empty_family(), 5, Some(10));
    assert_eq!(cache.expiration, 15);
    assert!(cached_family(Some(cache), 14).is_some());
    let cache = family_cache(empty_family(), 5, Some(10));
    assert!(cached_family(Some(cache), 15).is_none());
}

#[test]
fn family_not_found_error() {
    assert!(matches!(
        family_not_found("  Nonexistent Font "),
        FontSourceError::FontFamilyNotFound { family } if family == "Nonexistent Font"
    ));
}

#[test]
fn api_urls() {
    assert_eq!(
        font_list_url(FONTSOURCE_API),
        "https://api.fontsource.org/fontlist?family"
    );
    assert_eq!(
        family_metadata_url(FONTSOURCE_API, "roboto"),
        "https://api.fontsource.org/v1/fonts/roboto"
    );
}

#[test]
fn cache_round_trip_until_expiry() {
    let cache = font_list_cache(families(), 2000, None);
    assert_eq!(cache.expiration, 2000 + DEFAULT_METADATA_TTL_SECS);
    for t in [2000, 2001, 2000 + DEFAULT_METADATA_TTL_SECS - 1] {
        assert!(cached_family_id(Some(&cache), t, " Roboto ").unwrap().is_some());
    }
    assert_eq!(
        cached_family_id(Some(&cache), 2000 + DEFAULT_METADATA_TTL_SECS, "Roboto"),
        None
    );
    let family_entry = family_cache(empty_family(), u64::MAX - 5, Some(10));
    assert_eq!(family_entry.expiration, u64::MAX);
    assert!(cached_family(Some(family_entry), u64::MAX - 1).is_some());
}
