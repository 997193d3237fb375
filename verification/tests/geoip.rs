use dandelion::geoip::{
    cache_is_fresh, country_code, download_status, download_target_from, UrlParts, download_target, geoip_cache_file_name, license_download_url,
    DownloadError,
};
use dandelion::rule::GeoLookup;

#[test]
fn geoip_country_code() {
    assert_eq!(country_code(&GeoLookup::Found(Some("US".to_string()))), "US");
    assert_eq!(country_code(&GeoLookup::Found(None)), "");
    assert_eq!(country_code(&GeoLookup::NotFound), "");
    assert_eq!(country_code(&GeoLookup::Failed), "");
}

#[test]
fn geoip_cache_file_name_is_sha256_hex() {
    let name = geoip_cache_file_name("abc");
    assert_eq!(name, "ba7816bf8f01cfea414140de5dae2223b00361a396177a9cb410ff61f20015ad.mmdb");
    let empty = geoip_cache_file_name("");
    assert_eq!(empty, "e3b0c44298fc1c149afbf4c8996fb92427ae41e4649b934ca495991b7852b855.mmdb");
}

#[test]
fn geoip_cache_freshness() {
    assert!(cache_is_fresh(10, 0, 11));
    assert!(!cache_is_fresh(11, 0, 11));
    assert!(!cache_is_fresh(11, 5, 11));
    assert!(cache_is_fresh(10, 999_999_999, 11));
}

#[test]
fn geoip_download_target() {
    assert_eq!(download_target("https://example.com/db.mmdb"), Ok(("example.com".to_string(), 443)));
    assert_eq!(download_target("http://example.com/db.mmdb"), Ok(("example.com".to_string(), 80)));
    assert_eq!(download_target("https://example.com:8443/x"), Ok(("example.com".to_string(), 8443)));
    assert_eq!(download_target("ftp://example.com/x"), Err(DownloadError::UnsupportedScheme));
    assert_eq!(download_target("https://1.2.3.4/x"), Err(DownloadError::NoDomain));
    assert_eq!(download_target("not a url"), Err(DownloadError::InvalidUrl));
}

#[test]
fn geoip_license_url() {
    assert_eq!(
        license_download_url("KEY"),
        "https://download.maxmind.com/app/geoip_download?edition_id=GeoLite2-Country&license_key=KEY&suffix=tar.gz"
    );
}

#[test]
fn geoip_download_needs_200() {
    assert_eq!(download_status(200), Ok(()));
    assert_eq!(download_status(404), Err(DownloadError::HttpStatus(404)));
    assert_eq!(download_status(301), Err(DownloadError::HttpStatus(301)));
}

#[test]
fn geoip_download_target_from_parts() {
    let parts = |scheme: &str, domain: Option<&str>, port: Option<u16>| {
        Some(UrlParts { scheme: scheme.to_string(), domain: domain.map(|d| d.to_string()), port })
    };
    assert_eq!(download_target_from(parts("https", Some("example.com"), None)), Ok(("example.com".to_string(), 443)));
    assert_eq!(download_target_from(parts("http", Some("example.com"), Some(8080))), Ok(("example.com".to_string(), 8080)));
    assert_eq!(download_target_from(parts("ftp", Some("example.com"), None)), Err(DownloadError::UnsupportedScheme));
    assert_eq!(download_target_from(parts("https", None, None)), Err(DownloadError::NoDomain));
    assert_eq!(download_target_from(None), Err(DownloadError::InvalidUrl));
}
