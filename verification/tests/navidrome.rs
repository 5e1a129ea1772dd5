use aether::navidrome::{check_subsonic_status, extract_songs, JsonField, NavidromeClient, SongRecord};

fn client() -> NavidromeClient {
    NavidromeClient::new("http://localhost:4533", "admin", "password", reqwest::Client::new())
}

fn is_lower_hex(s: &str) -> bool {
    s.chars().all(|c| c.is_ascii_hexdigit() && !c.is_uppercase())
}

#[test]
fn auth_produces_hex_token() {
    let c = client();
    let [(_u, _user), (_t, token), (_s, salt), ..] = c.auth();
    assert_eq!(token.len(), 32, "MD5 token should be 32 hex chars");
    assert!(is_lower_hex(&token));
    assert_eq!(salt.len(), 8);
}

#[test]
fn auth_salts_differ_between_calls() {
    let c = client();
    let salts: Vec<String> = (0..5)
        .map(|_| {
            let [_, _, (_, s), ..] = c.auth();
            s
        })
        .collect();
    let unique: std::collections::HashSet<_> = salts.iter().collect();
    assert!(unique.len() > 1, "salts should differ across calls");
}

#[test]
fn auth_token_is_md5_of_password_and_salt() {
    let c = client();
    let auth = c.auth_with_salt("c19b2d0e");
    let names: Vec<&str> = auth.iter().map(|p| p.0).collect();
    assert_eq!(names, vec!["u", "t", "s", "v", "c", "f"]);
    assert_eq!(auth[0].1, "admin");
    assert_eq!(auth[1].1, format!("{:x}", md5::compute("passwordc19b2d0e")));
    assert_eq!(auth[2].1, "c19b2d0e");
    assert_eq!(auth[3].1, "1.16.1");
    assert_eq!(auth[4].1, "aether");
    assert_eq!(auth[5].1, "json");
}

#[test]
fn auth_token_known_digest() {
    // md5("abc") = 900150983cd24fb0d6963f7d28e17f72
    let c = NavidromeClient::new("http://x", "u", "ab", reqwest::Client::new());
    let auth = c.auth_with_salt("c");
    assert_eq!(auth[1].1, "900150983cd24fb0d6963f7d28e17f72");
}

#[test]
fn stream_url_contains_song_id() {
    let c = client();
    let url = c.stream_url("song-42", "http://192.168.1.5:4533");
    assert!(url.contains("id=song-42"), "URL should contain song ID");
    assert!(url.contains("format=mp3"), "URL should request MP3");
    assert!(url.starts_with("http://192.168.1.5:4533"), "should use external base");
}

#[test]
fn stream_url_exact_form() {
    let c = client();
    let url = c.stream_url_with_salt("7", "http://h:1", "0123abcd");
    let token = format!("{:x}", md5::compute("password0123abcd"));
    assert_eq!(
        url,
        format!("http://h:1/rest/stream?u=admin&t={token}&s=0123abcd&v=1.16.1&c=aether&id=7&format=mp3")
    );
}

#[test]
fn random_songs_request_names_size() {
    let c = client();
    let (url, params) = c.random_songs_request_with_salt(25, "0123abcd");
    assert_eq!(url, "http://localhost:4533/rest/getRandomSongs");
    assert_eq!(params.len(), 7);
    assert_eq!(params[6], ("size".to_string(), "25".to_string()));
    assert_eq!(params[2], ("s".to_string(), "0123abcd".to_string()));
}

#[test]
fn search_request_limits_to_five_songs() {
    let c = client();
    let (url, params) = c.search_request("daft punk");
    assert_eq!(url, "http://localhost:4533/rest/search3");
    let tail: Vec<(String, String)> = params[6..].to_vec();
    assert_eq!(
        tail,
        vec![
            ("query".to_string(), "daft punk".to_string()),
            ("songCount".to_string(), "5".to_string()),
            ("albumCount".to_string(), "0".to_string()),
            ("artistCount".to_string(), "0".to_string()),
        ]
    );
    assert_eq!(params[2].1.len(), 8);
    assert!(is_lower_hex(&params[2].1));
}

fn text(s: &str) -> JsonField {
    JsonField::Text(s.to_string())
}

#[test]
fn extract_songs_handles_missing_fields() {
    let arr = vec![
        SongRecord { id: text("1"), title: text("Song One"), artist: text("Artist A") },
        SongRecord { id: text("2"), title: text("No Artist"), artist: JsonField::Absent },
        SongRecord { id: JsonField::Absent, title: text("No ID"), artist: JsonField::Absent },
    ];
    let songs = extract_songs(&arr);
    assert_eq!(songs.len(), 2);
    assert_eq!(songs[0].artist, "Artist A");
    assert_eq!(songs[1].artist, "Unknown Artist");
}

#[test]
fn extract_songs_drops_mistyped_fields() {
    let arr = vec![
        SongRecord { id: JsonField::Other, title: text("t"), artist: text("a") },
        SongRecord { id: text("9"), title: text("t"), artist: JsonField::Other },
        SongRecord { id: text("3"), title: text("Three"), artist: text("C") },
    ];
    let songs = extract_songs(&arr);
    assert_eq!(songs.len(), 1);
    assert_eq!(songs[0].id, "3");
    assert_eq!(songs[0].title, "Three");
}

#[test]
fn check_status_fails_on_error_response() {
    let r = check_subsonic_status(Some("failed"), Some("Wrong username or password."));
    assert!(r.is_err());
    assert_eq!(r.unwrap_err(), "Navidrome error: Wrong username or password.");
}

#[test]
fn check_status_ok_on_success() {
    assert!(check_subsonic_status(Some("ok"), None).is_ok());
}

#[test]
fn check_status_without_status_or_message() {
    assert_eq!(check_subsonic_status(None, None), Err("Navidrome error: unknown error".to_string()));
}
