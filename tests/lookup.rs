use nexus_launcher::lookup::{icon_payload, resolve_api_key, youtube_search_url};

#[test]
fn search_url_encodes_the_query() {
    assert_eq!(
        youtube_search_url("lo fi & chill", "K1"),
        "https://www.googleapis.com/youtube/v3/search?part=snippet&q=lo%20fi%20%26%20chill&type=video&maxResults=1&key=K1"
    );
}

#[test]
fn api_key_selection() {
    assert_eq!(resolve_api_key(Some("a".to_string()), Some("b".to_string())), Ok("a".to_string()));
    assert_eq!(resolve_api_key(None, Some("b".to_string())), Ok("b".to_string()));
    assert_eq!(
        resolve_api_key(None, None),
        Err("YouTube API Key not provided. Please set it in Settings.".to_string())
    );
}

#[test]
fn icon_payload_is_tagged_base64() {
    assert_eq!(icon_payload(&vec![0u8, 0, 0, 0]), "icon-bgra:AAAAAA==");
    assert_eq!(icon_payload(&Vec::new()), "icon-bgra:");
}
