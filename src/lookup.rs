//! Text handed to outside services: the video-search request line and the
//! icon payload.
use vstd::prelude::*;
use base64::Engine;

verus! {

/// What `urlencoding::encode` returns for the characters `s`.
pub uninterp spec fn url_encoded(s: Seq<char>) -> Seq<char>;

/// What the standard padded alphabet of `base64` encodes the bytes `b` to.
pub uninterp spec fn base64_of(b: Seq<u8>) -> Seq<char>;

/// Relies on `urlencoding::encode`: the percent-encoded form of the text,
/// which depends on the text alone.
#[verifier::external_body]
fn percent_encode(s: &str) -> (r: String)
    ensures
        r@ == url_encoded(s@),
{
    urlencoding::encode(s).into_owned()
}

/// Relies on `base64::engine::general_purpose::STANDARD.encode`: the padded
/// standard encoding, which depends on the bytes alone.
#[verifier::external_body]
fn base64_standard(b: &Vec<u8>) -> (r: String)
    ensures
        r@ == base64_of(b@),
{
    base64::engine::general_purpose::STANDARD.encode(b)
}

pub open spec fn search_url_spec(query: Seq<char>, key: Seq<char>) -> Seq<char> {
    "https://www.googleapis.com/youtube/v3/search?part=snippet&q="@ + url_encoded(query)
        + "&type=video&maxResults=1&key="@ + key
}

/// The request for the first video that matches `query`.
pub fn youtube_search_url(query: &str, key: &str) -> (r: String)
    ensures
        r@ == search_url_spec(query@, key@),
{
    let q = percent_encode(query);
    let mut s = String::from_str("https://www.googleapis.com/youtube/v3/search?part=snippet&q=");
    s.append(q.as_str());
    s.append("&type=video&maxResults=1&key=");
    s.append(key);
    s
}

pub open spec fn missing_key_message() -> Seq<char> {
    "YouTube API Key not provided. Please set it in Settings."@
}

/// The API key to use: the one given, else the one from the environment,
/// else an error asking for one.
pub fn resolve_api_key(given: Option<String>, from_env: Option<String>) -> (r: Result<String, String>)
    ensures
        given matches Some(k) ==> r == Ok::<String, String>(k),
        given is None && from_env is Some ==> r == Ok::<String, String>(from_env->0),
        given is None && from_env is None ==> r is Err && r->Err_0@ == missing_key_message(),
{
    match given {
        Some(k) => Ok(k),
        None => match from_env {
            Some(k) => Ok(k),
            None => Err(String::from_str("YouTube API Key not provided. Please set it in Settings.")),
        },
    }
}

/// The icon payload for a bitmap in BGRA byte order: a format tag, then the
/// bytes in base64.
pub fn icon_payload(bgra: &Vec<u8>) -> (r: String)
    ensures
        r@ == "icon-bgra:"@ + base64_of(bgra@),
{
    let b = base64_standard(bgra);
    let mut s = String::from_str("icon-bgra:");
    s.append(b.as_str());
    s
}

} // verus!
