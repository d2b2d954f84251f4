//! What is asked of servers, and what they answer.

use oxiplay::opensubtitles::{
    after_download, after_search, download_request, find, link_in, parse_download_link,
    parse_top_file_id, top_file_in, urlencode, Request, API, UA,
};
use oxiplay::update::{check_latest, parse_version, update_in, RELEASES_URL, VERSION};

#[test]
fn parses_search_response() {
    let json = r#"{"data":[{"attributes":{"files":[{"file_id":12345}]}}]}"#;
    assert_eq!(parse_top_file_id(json), Some(12345));
    assert_eq!(parse_top_file_id(r#"{"data":[]}"#), None);
    assert_eq!(parse_top_file_id("pas du json"), None);
}

#[test]
fn parses_download_response() {
    assert_eq!(
        parse_download_link(r#"{"link":"https://dl.os.com/s.srt"}"#),
        Some("https://dl.os.com/s.srt".to_string())
    );
    assert_eq!(parse_download_link(r#"{"message":"quota"}"#), None);
}

#[test]
fn urlencodes_query() {
    assert_eq!(urlencode("big buck bunny"), "big+buck+bunny");
    assert_eq!(urlencode("le fabuleux"), "le+fabuleux");
    assert_eq!(urlencode("a/b&c"), "a%2Fb%26c");
}

#[test]
fn empty_key_is_inactive() {
    assert!(find("x", "fr", "").is_none());
    assert!(find("x", "fr", "   ").is_none());
}

#[test]
fn queries_are_encoded_byte_by_byte() {
    assert_eq!(urlencode("é~-_.A9"), "%C3%A9~-_.A9");
    assert_eq!(urlencode(""), "");
}

#[test]
fn subtitles_are_found_in_three_steps() {
    match find("a b", "fr", "key").unwrap() {
        Request::Search { url } => {
            assert_eq!(url, format!("{API}/subtitles?query=a+b&languages=fr"));
        }
        _ => unreachable!(),
    }
    let answer = r#"{"data":[{"attributes":{"files":[{"file_id":-7}]}}]}"#;
    match after_search(Some(answer)).unwrap() {
        Request::Download { url, body } => {
            assert_eq!(url, format!("{API}/download"));
            assert_eq!(body, r#"{"file_id":-7}"#);
        }
        _ => unreachable!(),
    }
    match after_download(Some(r#"{"link":"https://x/é"}"#)).unwrap() {
        Request::Fetch { url } => assert_eq!(url, "https://x/é"),
        _ => unreachable!(),
    }
    assert!(after_search(None).is_none());
    assert!(after_search(Some("{}")).is_none());
    assert!(after_download(Some("[]")).is_none());
    assert!(UA.starts_with("oxiplay v"));
    assert!(matches!(download_request(1), Request::Download { .. }));
}

#[test]
fn answers_are_taken_apart() {
    let v: serde_json::Value =
        serde_json::from_str(r#"{"data":[{"attributes":{"files":[{"file_id":1.5}]}}]}"#).unwrap();
    assert_eq!(top_file_in(Some(&v)), None);
    assert_eq!(top_file_in(None), None);
    let v: serde_json::Value = serde_json::from_str(r#"{"link":7}"#).unwrap();
    assert_eq!(link_in(Some(&v)), None);
}

#[test]
fn version_parsing() {
    assert_eq!(parse_version("v1.2.3"), Some((1, 2, 3)));
    assert_eq!(parse_version("0.1.0"), Some((0, 1, 0)));
    assert_eq!(parse_version("v2.0.0-dev.1"), Some((2, 0, 0)));
    assert_eq!(parse_version("1.4"), Some((1, 4, 0)));
}

#[test]
fn version_ordering() {
    assert!(parse_version("v0.2.0") > parse_version("v0.1.0"));
    assert!(parse_version("v1.0.0") > parse_version("v0.9.9"));
    assert!(parse_version("v0.1.1") > parse_version("v0.1.0"));
    assert!(parse_version("v0.1.0") <= parse_version("v0.1.0"));
}

#[test]
fn odd_versions() {
    assert_eq!(parse_version("x.1"), None);
    assert_eq!(parse_version(" v7 "), Some((7, 0, 0)));
    assert_eq!(parse_version("1.x.3"), Some((1, 0, 3)));
    assert_eq!(parse_version("99999999999.0"), None);
}

#[test]
fn newer_releases_are_announced() {
    let body = r#"[{"tag_name":"v0.2.0","html_url":"https://x/r"},{"tag_name":"v9.0.0"}]"#;
    let info = check_latest(body, VERSION).unwrap();
    assert_eq!(info.version, "0.2.0");
    assert_eq!(info.url, "https://x/r");
    assert!(check_latest(body, "0.2.0").is_none());
    assert!(check_latest("[]", VERSION).is_none());
    assert!(check_latest("{", VERSION).is_none());
    let plain = r#"[{"tag_name":"1.0"}]"#;
    assert_eq!(check_latest(plain, VERSION).unwrap().url, "");
    assert!(update_in(None, VERSION).is_none());
    assert!(RELEASES_URL.ends_with("/releases?per_page=1"));
}

#[test]
fn encoded_texts_are_plain() {
    let out = urlencode("été & co/=?#");
    assert_eq!(out, "%C3%A9t%C3%A9+%26+co%2F%3D%3F%23");
    assert!(out.bytes().all(|b| b.is_ascii_alphanumeric() || b"+%-_.~".contains(&b)));
}
