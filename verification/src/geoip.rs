//! The answers of a MaxMind country database, and the decisions around
//! getting that database: where it is cached, when the cache is fresh, and where it
//! is downloaded from.
use crate::rule::GeoLookup;
use crate::text::{push_char, push_str};
use vstd::prelude::*;
use vstd::utf8::encode_utf8;

verus! {

/// Where the country database comes from: a file, or MaxMind's download
/// service with a license key.
#[derive(Debug, Clone)]
pub enum Source {
    File(String),
    License(String),
}

/// The country code a lookup gives, or the empty text where it gives none.
pub open spec fn code_of(lookup: GeoLookup) -> Seq<char> {
    match lookup {
        GeoLookup::Found(Some(code)) => code@,
        _ => Seq::empty(),
    }
}

/// The country code a lookup gives, or the empty text where it gives none.
pub fn country_code(lookup: &GeoLookup) -> (res: String)
    ensures
        res@ == code_of(*lookup),
{
    match lookup {
        GeoLookup::Found(Some(code)) => code.clone(),
        _ => String::new(),
    }
}

/// What `sha2::Sha256` gives for the bytes: their 32-byte digest.
pub uninterp spec fn sha256_of(data: Seq<u8>) -> Seq<u8>;

/// The SHA-256 digest of the bytes (`sha2::Sha256::digest`).
#[verifier::external_body]
fn sha256(data: &[u8]) -> (res: Vec<u8>)
    ensures
        res@ == sha256_of(data@),
        res@.len() == 32,
{
    <sha2::Sha256 as sha2::Digest>::digest(data).to_vec()
}

/// The lowercase hexadecimal digit of a value below 16.
pub open spec fn hex_digit(d: nat) -> char {
    if d < 10 {
        (d + '0' as nat) as char
    } else {
        (d - 10 + 'a' as nat) as char
    }
}

/// The lowercase hexadecimal text of bytes, two digits each.
pub open spec fn hex(b: Seq<u8>) -> Seq<char>
    decreases b.len(),
{
    if b.len() == 0 {
        Seq::empty()
    } else {
        hex(b.drop_last()) + seq![hex_digit((b.last() / 16) as nat), hex_digit((b.last() % 16) as nat)]
    }
}

fn hex_char(d: u8) -> (c: char)
    requires
        d < 16,
    ensures
        c == hex_digit(d as nat),
{
    if d < 10 {
        ((d + 48) as char)
    } else {
        ((d - 10 + 97) as char)
    }
}

/// The file name a downloaded database is cached under: the hexadecimal
/// SHA-256 of its URL, with `.mmdb` appended.
pub open spec fn cache_file_name(url: Seq<char>) -> Seq<char> {
    hex(sha256_of(encode_utf8(url))) + ".mmdb"@
}

/// The file name a database downloaded from `url` is cached under.
pub fn geoip_cache_file_name(url: &str) -> (res: String)
    ensures
        res@ == cache_file_name(url@),
{
    let bytes = url.as_bytes();
    let digest = sha256(bytes);
    let mut s = String::new();
    let mut i: usize = 0;
    while i < digest.len()
        invariant
            i <= digest@.len(),
            s@ == hex(digest@.take(i as int)),
        decreases digest.len() - i,
    {
        proof {
            assert(digest@.take(i + 1).drop_last() =~= digest@.take(i as int));
            assert(digest@.take(i + 1).last() == digest@[i as int]);
        }
        push_char(&mut s, hex_char(digest[i] / 16));
        push_char(&mut s, hex_char(digest[i] % 16));
        i = i + 1;
        proof {
            assert(s@ =~= hex(digest@.take(i as int)));
        }
    }
    proof {
        assert(digest@.take(digest@.len() as int) =~= digest@);
    }
    push_str(&mut s, ".mmdb");
    s
}

/// Whether a cached database of this age (whole seconds and nanoseconds)
/// is still used: it is younger than the update interval in seconds.
pub fn cache_is_fresh(age_secs: u64, age_nanos: u32, update_interval: u64) -> (res: bool)
    requires
        age_nanos < 1_000_000_000,
    ensures
        res == (age_secs * 1_000_000_000 + age_nanos < update_interval * 1_000_000_000),
{
    age_secs < update_interval
}

/// The parts of a URL the download needs: its scheme, its domain (none for
/// an IP host), and its explicit port.
pub struct UrlParts {
    pub scheme: String,
    pub domain: Option<String>,
    pub port: Option<u16>,
}

/// What `reqwest::Url::parse` gives for a text: the URL's scheme, domain
/// and explicit port, or `None` where the text is no URL.
pub uninterp spec fn url_parts_of(s: Seq<char>) -> Option<(Seq<char>, Option<Seq<char>>, Option<u16>)>;

/// Parses a URL with `reqwest::Url::parse` and reads its scheme, domain and
/// explicit port.
#[verifier::external_body]
pub(crate) fn parse_url(s: &str) -> (res: Option<UrlParts>)
    ensures
        match (res, url_parts_of(s@)) {
            (Some(p), Some(q)) => p.scheme@ == q.0 && match (p.domain, q.1) {
                (Some(a), Some(b)) => a@ == b,
                (None, None) => true,
                _ => false,
            } && p.port == q.2,
            (None, None) => true,
            _ => false,
        },
{
    match reqwest::Url::parse(s) {
        Ok(u) => Some(UrlParts {
            scheme: u.scheme().to_owned(),
            domain: u.domain().map(|d| d.to_owned()),
            port: u.port(),
        }),
        Err(_) => None,
    }
}

/// Why a database download cannot start.
#[derive(Debug, Clone, Copy, PartialEq, Eq, Structural)]
pub enum DownloadError {
    InvalidUrl,
    UnsupportedScheme,
    NoDomain,
    /// The server answered with another status than 200.
    HttpStatus(u16),
}

/// Where a database is downloaded from: an `http` or `https` URL with a
/// domain; its explicit port, else 443 for `https` and 80 for `http`.
pub open spec fn download_target_spec(url: Option<(Seq<char>, Option<Seq<char>>, Option<u16>)>) -> Result<
    (Seq<char>, u16),
    DownloadError,
> {
    match url {
        None => Err(DownloadError::InvalidUrl),
        Some((scheme, domain, port)) => if scheme != "https"@ && scheme != "http"@ {
            Err(DownloadError::UnsupportedScheme)
        } else {
            match domain {
                None => Err(DownloadError::NoDomain),
                Some(d) => Ok(
                    (
                        d,
                        match port {
                            Some(p) => p,
                            None => if scheme == "https"@ {
                                443
                            } else {
                                80
                            },
                        },
                    ),
                ),
            }
        },
    }
}

/// The parts of a parsed URL as sequences.
pub open spec fn url_parts_view(p: Option<UrlParts>) -> Option<(Seq<char>, Option<Seq<char>>, Option<u16>)> {
    match p {
        Some(u) => Some(
            (
                u.scheme@,
                match u.domain {
                    Some(d) => Some(d@),
                    None => None,
                },
                u.port,
            ),
        ),
        None => None,
    }
}

/// The domain and port a database is downloaded from, given what its URL
/// parsed into (`None` where it is no URL).
pub fn download_target_from(parts: Option<UrlParts>) -> (res: Result<(String, u16), DownloadError>)
    ensures
        match (res, download_target_spec(url_parts_view(parts))) {
            (Ok((d, p)), Ok((d2, p2))) => d@ == d2 && p == p2,
            (Err(a), Err(b)) => a == b,
            _ => false,
        },
{
    let parts = match parts {
        Some(p) => p,
        None => {
            return Err(DownloadError::InvalidUrl);
        },
    };
    let https = crate::text::str_equal(parts.scheme.as_str(), "https");
    let http = crate::text::str_equal(parts.scheme.as_str(), "http");
    if !https && !http {
        return Err(DownloadError::UnsupportedScheme);
    }
    match parts.domain {
        None => Err(DownloadError::NoDomain),
        Some(d) => {
            let port = match parts.port {
                Some(p) => p,
                None => if https {
                    443
                } else {
                    80
                },
            };
            Ok((d, port))
        },
    }
}

/// The domain and port a database URL is downloaded from.
pub fn download_target(url: &str) -> (res: Result<(String, u16), DownloadError>)
    ensures
        match (res, download_target_spec(url_parts_of(url@))) {
            (Ok((d, p)), Ok((d2, p2))) => d@ == d2 && p == p2,
            (Err(a), Err(b)) => a == b,
            _ => false,
        },
{
    let parts = parse_url(url);
    proof {
        assert(url_parts_view(parts) == url_parts_of(url@));
    }
    download_target_from(parts)
}

/// What a download's answer status means: the body of a 200 answer is the
/// database, to be written to the cache file and read back from it; any
/// other status is an error and nothing is written.
pub fn download_status(status: u16) -> (res: Result<(), DownloadError>)
    ensures
        status == 200 ==> res is Ok,
        status != 200 ==> res == Err::<(), DownloadError>(DownloadError::HttpStatus(status)),
{
    if status == 200 {
        Ok(())
    } else {
        Err(DownloadError::HttpStatus(status))
    }
}

/// The MaxMind download URL of the country database for a license key.
pub open spec fn license_url(license: Seq<char>) -> Seq<char> {
    "https://download.maxmind.com/app/geoip_download?edition_id=GeoLite2-Country&license_key="@
        + license + "&suffix=tar.gz"@
}

/// The MaxMind download URL of the country database for a license key.
pub fn license_download_url(license: &str) -> (res: String)
    ensures
        res@ == license_url(license@),
{
    let mut s = String::new();
    push_str(
        &mut s,
        "https://download.maxmind.com/app/geoip_download?edition_id=GeoLite2-Country&license_key=",
    );
    push_str(&mut s, license);
    push_str(&mut s, "&suffix=tar.gz");
    s
}

} // verus!
