use aether::music::{music_client, music_not_configured, music_query, pause_music, play_result, stop_music, MusicQuery};
use aether::navidrome::Song;

fn client() -> aether::navidrome::NavidromeClient {
    music_client(Some("http://navidrome:4533"), Some("admin"), Some("pw"), reqwest::Client::new()).unwrap()
}

#[test]
fn empty_query_plays_something_random() {
    assert!(matches!(music_query(None), MusicQuery::Random));
    assert!(matches!(music_query(Some("")), MusicQuery::Random));
    match music_query(Some("jazz")) {
        MusicQuery::Search(q) => assert_eq!(q, "jazz"),
        MusicQuery::Random => panic!("expected a search"),
    }
}

#[test]
fn client_needs_url_user_and_password() {
    assert!(music_client(Some("http://n:4533"), None, Some("p"), reqwest::Client::new()).is_none());
    assert!(music_client(None, Some("u"), Some("p"), reqwest::Client::new()).is_none());
    assert!(music_client(Some("http://n:4533"), Some("u"), Some("p"), reqwest::Client::new()).is_some());
    let r = music_not_configured();
    assert_eq!(r.spoken_reply, "Music isn't set up yet — configure Navidrome credentials in Skills Settings.");
    assert!(r.music_command.is_none());
}

#[test]
fn first_song_is_played_from_the_lan_address() {
    let c = client();
    let songs = vec![
        Song { id: "s1".into(), title: "Blue".into(), artist: "Joni".into() },
        Song { id: "s2".into(), title: "Other".into(), artist: "X".into() },
    ];
    let r = play_result(&c, Ok(songs), Some("http://navidrome:4600"), "192.168.1.5");
    assert_eq!(r.spoken_reply, "Playing Blue by Joni.");
    let m = r.music_command.unwrap();
    assert_eq!(m.action, "play");
    assert_eq!(m.title, "Blue");
    assert_eq!(m.artist, "Joni");
    assert!(m.stream_url.starts_with("http://192.168.1.5:4600/rest/stream?u=admin&t="));
    assert!(m.stream_url.ends_with("&v=1.16.1&c=aether&id=s1&format=mp3"));
}

#[test]
fn default_port_when_the_url_names_none() {
    let c = client();
    let songs = vec![Song { id: "s1".into(), title: "T".into(), artist: "A".into() }];
    let r = play_result(&c, Ok(songs), None, "10.0.0.1");
    assert!(r.music_command.unwrap().stream_url.starts_with("http://10.0.0.1:4533/rest/stream"));
}

#[test]
fn failures_are_spoken() {
    let c = client();
    let r = play_result(&c, Ok(vec![]), None, "10.0.0.1");
    assert_eq!(r.spoken_reply, "No songs found in your library.");
    assert!(r.music_command.is_none());
    let r = play_result(&c, Err("timeout".into()), None, "10.0.0.1");
    assert_eq!(r.spoken_reply, "Couldn't reach Navidrome — check it's running.");
    assert!(r.music_command.is_none());
}

#[test]
fn pause_and_stop_commands() {
    let p = pause_music();
    assert_eq!(p.spoken_reply, "Music paused.");
    let m = p.music_command.unwrap();
    assert_eq!((m.action.as_str(), m.stream_url.as_str(), m.title.as_str()), ("pause", "", ""));
    let s = stop_music();
    assert_eq!(s.spoken_reply, "Music stopped.");
    assert_eq!(s.music_command.unwrap().action, "stop");
}
