//! Navidrome (Subsonic API) client logic: token authentication, request
//! building, reply checking and song extraction. The HTTP round trip itself
//! is made by the caller with the client's `http` handle.
use vstd::prelude::*;
use crate::text::{digit_char, decimal, push_str, push_decimal, push_char, str_eq};

verus! {

#[verifier::external_type_specification]
#[verifier::external_body]
pub struct ExHttpClient(reqwest::Client);

// ─── Domain types ─────────────────────────────────────────────────────────────

#[derive(Debug, Clone)]
pub struct Song {
    pub id: String,
    pub title: String,
    pub artist: String,
}

/// The artist recorded for a song whose reply names none.
pub open spec fn unknown_artist_text() -> Seq<char> {
    "Unknown Artist"@
}

fn unknown_artist() -> (s: String)
    ensures
        s@ == unknown_artist_text(),
{
    let mut s = String::new();
    push_str(&mut s, "Unknown Artist");
    s
}

/// One field of a song object in a reply: absent, a JSON string, or any
/// other JSON value.
#[derive(Debug, Clone)]
pub enum JsonField {
    Absent,
    Text(String),
    Other,
}

/// The `id`, `title` and `artist` fields of one element of a reply's song
/// array, as they were found there.
#[derive(Debug, Clone)]
pub struct SongRecord {
    pub id: JsonField,
    pub title: JsonField,
    pub artist: JsonField,
}

/// The song a record describes: `id` and `title` must be strings, `artist`
/// a string or absent (then "Unknown Artist"); any other shape is no song.
pub open spec fn record_song(r: SongRecord) -> Option<(Seq<char>, Seq<char>, Seq<char>)> {
    match (r.id, r.title, r.artist) {
        (JsonField::Text(id), JsonField::Text(title), JsonField::Text(artist)) => Some(
            (id@, title@, artist@),
        ),
        (JsonField::Text(id), JsonField::Text(title), JsonField::Absent) => Some(
            (id@, title@, unknown_artist_text()),
        ),
        _ => None,
    }
}

/// The songs of `rs`, in order, skipping records that describe none.
pub open spec fn songs_of(rs: Seq<SongRecord>) -> Seq<(Seq<char>, Seq<char>, Seq<char>)>
    decreases rs.len(),
{
    if rs.len() == 0 {
        Seq::empty()
    } else {
        let rest = songs_of(rs.drop_last());
        match record_song(rs.last()) {
            Some(t) => rest.push(t),
            None => rest,
        }
    }
}

/// The view of a song: (id, title, artist).
pub open spec fn song_view(s: Song) -> (Seq<char>, Seq<char>, Seq<char>) {
    (s.id@, s.title@, s.artist@)
}

fn clone_string(s: &String) -> (r: String)
    ensures
        r@ == s@,
{
    let mut r = String::new();
    push_str(&mut r, s.as_str());
    r
}

/// The song a record describes, if any.
pub fn song_from_record(r: &SongRecord) -> (s: Option<Song>)
    ensures
        match s {
            Some(song) => record_song(*r) == Some(song_view(song)),
            None => record_song(*r) is None,
        },
{
    match (&r.id, &r.title) {
        (JsonField::Text(id), JsonField::Text(title)) => {
            let artist = match &r.artist {
                JsonField::Text(a) => clone_string(a),
                JsonField::Absent => unknown_artist(),
                JsonField::Other => {
                    return None;
                },
            };
            Some(Song { id: clone_string(id), title: clone_string(title), artist })
        },
        _ => None,
    }
}

/// The songs in a reply's song array, skipping malformed entries.
pub fn extract_songs(records: &Vec<SongRecord>) -> (songs: Vec<Song>)
    ensures
        songs@.map_values(|s: Song| song_view(s)) == songs_of(records@),
{
    let mut songs: Vec<Song> = Vec::new();
    let mut i: usize = 0;
    while i < records.len()
        invariant
            i <= records@.len(),
            songs@.map_values(|s: Song| song_view(s)) == songs_of(records@.subrange(0, i as int)),
        decreases records.len() - i,
    {
        let found = song_from_record(&records[i]);
        proof {
            let next = records@.subrange(0, i + 1);
            assert(next.drop_last() =~= records@.subrange(0, i as int));
            assert(next.last() == records@[i as int]);
        }
        match found {
            Some(song) => {
                songs.push(song);
            },
            None => {},
        }
        i = i + 1;
        assert(songs@.map_values(|s: Song| song_view(s)) =~= songs_of(
            records@.subrange(0, i as int),
        ));
    }
    assert(records@.subrange(0, records@.len() as int) =~= records@);
    songs
}

// ─── Replies ──────────────────────────────────────────────────────────────────

/// Whether a reply reports success, and the error it reports otherwise:
/// `Ok` when its status is "ok", else "Navidrome error: " and the reply's
/// error message ("unknown error" when it gives none).
pub open spec fn subsonic_outcome(status: Option<Seq<char>>, message: Option<Seq<char>>) -> Result<
    (),
    Seq<char>,
> {
    let st = match status {
        Some(s) => s,
        None => Seq::empty(),
    };
    if st == "ok"@ {
        Ok(())
    } else {
        Err(
            "Navidrome error: "@ + match message {
                Some(m) => m,
                None => "unknown error"@,
            },
        )
    }
}

/// The view of an optional string.
pub open spec fn opt_view(o: Option<&str>) -> Option<Seq<char>> {
    match o {
        Some(s) => Some(s@),
        None => None,
    }
}

/// Check a reply's `status` (and `error.message`), as strings when the reply
/// holds strings there.
pub fn check_subsonic_status(status: Option<&str>, message: Option<&str>) -> (r: Result<(), String>)
    ensures
        match r {
            Ok(()) => subsonic_outcome(opt_view(status), opt_view(message)) == Ok::<
                (),
                Seq<char>,
            >(()),
            Err(e) => subsonic_outcome(opt_view(status), opt_view(message)) == Err::<
                (),
                Seq<char>,
            >(e@),
        },
{
    let ok = match status {
        Some(st) => str_eq(st, "ok"),
        None => {
            proof {
                reveal_strlit("ok");
            }
            false
        },
    };
    if ok {
        Ok(())
    } else {
        let mut e = String::new();
        push_str(&mut e, "Navidrome error: ");
        match message {
            Some(m) => push_str(&mut e, m),
            None => push_str(&mut e, "unknown error"),
        }
        Err(e)
    }
}

// ─── Authentication ───────────────────────────────────────────────────────────

/// The MD5 digest of the UTF-8 bytes of `text`.
pub uninterp spec fn md5_of(text: Seq<char>) -> Seq<u8>;

/// `md5::compute` over the bytes of `text`.
///
/// Claims only that the digest is the named function of the text; what MD5
/// computes is not restated here.
#[verifier::external_body]
fn md5_digest(text: &str) -> (d: [u8; 16])
    ensures
        d@ == md5_of(text@),
{
    md5::compute(text).0
}

/// Whether `c` is a lower-case hexadecimal digit.
pub open spec fn lower_hex_char(c: char) -> bool {
    ('0' <= c && c <= '9') || ('a' <= c && c <= 'f')
}

/// A fresh random version-4 UUID in its simple form
/// (`Uuid::new_v4().simple().to_string()`).
///
/// Claims what the uuid crate's `Simple` formatting writes: 32 lower-case
/// hexadecimal digits. Which digits come out is left open: they are random.
#[verifier::external_body]
fn random_uuid_simple() -> (s: String)
    ensures
        s@.len() == 32,
        forall|i: int| 0 <= i < 32 ==> lower_hex_char(#[trigger] s@[i]),
{
    uuid::Uuid::new_v4().simple().to_string()
}

/// The lower-case hexadecimal digit for `d < 16`.
pub open spec fn hex_digit(d: nat) -> char {
    if d < 10 {
        digit_char(d)
    } else {
        ((d + 87) as u32) as char
    }
}

/// Bytes written as two lower-case hexadecimal digits each, high nibble
/// first (the `{:x}` form of an MD5 digest).
pub open spec fn lower_hex(b: Seq<u8>) -> Seq<char>
    decreases b.len(),
{
    if b.len() == 0 {
        Seq::empty()
    } else {
        lower_hex(b.drop_last()).push(hex_digit((b.last() / 16) as nat)).push(
            hex_digit((b.last() % 16) as nat),
        )
    }
}

/// Hex text has two lower-case hexadecimal digits per byte.
pub proof fn lemma_lower_hex_shape(b: Seq<u8>)
    ensures
        lower_hex(b).len() == 2 * b.len(),
        forall|i: int| 0 <= i < lower_hex(b).len() ==> lower_hex_char(#[trigger] lower_hex(b)[i]),
    decreases b.len(),
{
    if b.len() > 0 {
        lemma_lower_hex_shape(b.drop_last());
        let hi = (b.last() / 16) as nat;
        let lo = (b.last() % 16) as nat;
        assert(lower_hex_char(hex_digit(hi)));
        assert(lower_hex_char(hex_digit(lo)));
    }
}

/// An authentication token as the client makes them: 32 lower-case
/// hexadecimal digits.
pub open spec fn is_token(t: Seq<char>) -> bool {
    t.len() == 32 && forall|i: int| 0 <= i < 32 ==> lower_hex_char(#[trigger] t[i])
}

fn hex_char(d: u8) -> (c: char)
    requires
        d < 16,
    ensures
        c == hex_digit(d as nat),
{
    match d {
        0 => '0',
        1 => '1',
        2 => '2',
        3 => '3',
        4 => '4',
        5 => '5',
        6 => '6',
        7 => '7',
        8 => '8',
        9 => '9',
        10 => 'a',
        11 => 'b',
        12 => 'c',
        13 => 'd',
        14 => 'e',
        _ => 'f',
    }
}

/// Append the lower-case hexadecimal form of `bytes` to `s`.
fn push_lower_hex(s: &mut String, bytes: &[u8])
    ensures
        final(s)@ == old(s)@ + lower_hex(bytes@),
{
    let mut i: usize = 0;
    while i < bytes.len()
        invariant
            i <= bytes@.len(),
            s@ == old(s)@ + lower_hex(bytes@.subrange(0, i as int)),
        decreases bytes.len() - i,
    {
        let b = bytes[i];
        push_char(s, hex_char(b / 16));
        push_char(s, hex_char(b % 16));
        proof {
            let next = bytes@.subrange(0, i + 1);
            assert(next.drop_last() =~= bytes@.subrange(0, i as int));
            assert(next.last() == b);
        }
        i = i + 1;
        assert(s@ =~= old(s)@ + lower_hex(bytes@.subrange(0, i as int)));
    }
    assert(bytes@.subrange(0, bytes@.len() as int) =~= bytes@);
}

/// A salt as the client makes them: eight lower-case hexadecimal digits.
pub open spec fn is_salt(s: Seq<char>) -> bool {
    s.len() == 8 && forall|i: int| 0 <= i < 8 ==> lower_hex_char(#[trigger] s[i])
}

/// The authentication token: the hex MD5 of the password followed by the salt.
pub open spec fn auth_token(password: Seq<char>, salt: Seq<char>) -> Seq<char> {
    lower_hex(md5_of(password + salt))
}

/// The authentication query parameters for `user`, `password` and `salt`.
pub open spec fn auth_pairs(user: Seq<char>, password: Seq<char>, salt: Seq<char>) -> Seq<
    (Seq<char>, Seq<char>),
> {
    seq![
        ("u"@, user),
        ("t"@, auth_token(password, salt)),
        ("s"@, salt),
        ("v"@, "1.16.1"@),
        ("c"@, "aether"@),
        ("f"@, "json"@),
    ]
}

/// The view of a list of query parameters.
pub open spec fn pairs_view(p: Seq<(String, String)>) -> Seq<(Seq<char>, Seq<char>)> {
    p.map_values(|q: (String, String)| (q.0@, q.1@))
}

/// The view of a list of query parameters with literal names.
pub open spec fn named_pairs_view(p: Seq<(&str, String)>) -> Seq<(Seq<char>, Seq<char>)> {
    p.map_values(|q: (&str, String)| (q.0@, q.1@))
}

fn owned(t: &str) -> (s: String)
    ensures
        s@ == t@,
{
    let mut s = String::new();
    push_str(&mut s, t);
    s
}

/// A fresh salt: the first eight digits of a random UUID.
fn new_salt() -> (s: String)
    ensures
        is_salt(s@),
{
    let id = random_uuid_simple();
    let cs = crate::text::chars_of(id.as_str());
    let s = crate::text::string_from_chars(cs.as_slice(), 0, 8);
    assert forall|i: int| 0 <= i < 8 implies lower_hex_char(#[trigger] s@[i]) by {
        assert(s@[i] == id@[i]);
    }
    s
}

/// The stream URL the client builds for a song.
pub open spec fn stream_url_text(
    base: Seq<char>,
    user: Seq<char>,
    token: Seq<char>,
    salt: Seq<char>,
    id: Seq<char>,
) -> Seq<char> {
    base + "/rest/stream?u="@ + user + "&t="@ + token + "&s="@ + salt + "&v=1.16.1&c=aether&id="@
        + id + "&format=mp3"@
}

/// The search parameters after the authentication ones: up to five songs, no
/// albums or artists.
pub open spec fn search_pairs(query: Seq<char>) -> Seq<(Seq<char>, Seq<char>)> {
    seq![
        ("query"@, query),
        ("songCount"@, "5"@),
        ("albumCount"@, "0"@),
        ("artistCount"@, "0"@),
    ]
}

pub struct NavidromeClient {
    base_url: String,
    user: String,
    password: String,
    http: reqwest::Client,
}

impl NavidromeClient {
    pub fn new(base_url: &str, user: &str, password: &str, http: reqwest::Client) -> (c: Self)
        ensures
            c.base_url_view() == base_url@,
            c.user_view() == user@,
            c.password_view() == password@,
            c.http_client() == http,
    {
        NavidromeClient { base_url: owned(base_url), user: owned(user), password: owned(password), http }
    }

    /// The server's base URL.
    pub closed spec fn base_url_view(&self) -> Seq<char> {
        self.base_url@
    }

    /// The user name.
    pub closed spec fn user_view(&self) -> Seq<char> {
        self.user@
    }

    /// The password.
    pub closed spec fn password_view(&self) -> Seq<char> {
        self.password@
    }

    /// The HTTP client the client was made with.
    pub closed spec fn http_client(&self) -> reqwest::Client {
        self.http
    }

    /// The HTTP client the requests are sent with: the one the client was
    /// made with.
    pub fn http(&self) -> (h: &reqwest::Client)
        ensures
            *h == self.http_client(),
    {
        &self.http
    }

    /// The authentication parameters for a given salt.
    pub fn auth_with_salt(&self, salt: &str) -> (r: [(&'static str, String); 6])
        ensures
            named_pairs_view(r@) == auth_pairs(self.user_view(), self.password_view(), salt@),
            is_token(r@[1].1@),
    {
        let mut material = String::new();
        push_str(&mut material, self.password.as_str());
        push_str(&mut material, salt);
        let digest = md5_digest(material.as_str());
        let mut token = String::new();
        push_lower_hex(&mut token, digest.as_slice());
        proof {
            lemma_lower_hex_shape(digest@);
            assert(token@ =~= lower_hex(digest@));
        }
        let r = [
            ("u", clone_string(&self.user)),
            ("t", token),
            ("s", owned(salt)),
            ("v", owned("1.16.1")),
            ("c", owned("aether")),
            ("f", owned("json")),
        ];
        assert(named_pairs_view(r@) =~= auth_pairs(self.user_view(), self.password_view(), salt@));
        r
    }

    /// MD5 token authentication as required by the Subsonic API.
    /// Returns (user, token, salt) for query-string inclusion.
    pub fn auth(&self) -> (r: [(&'static str, String); 6])
        ensures
            is_salt(r@[2].1@),
            is_token(r@[1].1@),
            named_pairs_view(r@) == auth_pairs(self.user_view(), self.password_view(), r@[2].1@),
    {
        let salt = new_salt();
        let r = self.auth_with_salt(salt.as_str());
        proof {
            reveal_strlit("s");
            assert(named_pairs_view(r@)[2] == auth_pairs(self.user_view(), self.password_view(), salt@)[2]);
        }
        r
    }
    /// The stream URL for `song_id` under `external_base`, authenticated with `salt`.
    pub fn stream_url_with_salt(&self, song_id: &str, external_base: &str, salt: &str) -> (url: String)
        ensures
            url@ == stream_url_text(
                external_base@,
                self.user_view(),
                auth_token(self.password_view(), salt@),
                salt@,
                song_id@,
            ),
    {
        let auth = self.auth_with_salt(salt);
        proof {
            reveal_strlit("t");
            reveal_strlit("s");
            reveal_strlit("u");
            assert(named_pairs_view(auth@)[0] == auth_pairs(self.user_view(), self.password_view(), salt@)[0]);
            assert(named_pairs_view(auth@)[1] == auth_pairs(self.user_view(), self.password_view(), salt@)[1]);
            assert(named_pairs_view(auth@)[2] == auth_pairs(self.user_view(), self.password_view(), salt@)[2]);
        }
        let mut url = String::new();
        push_str(&mut url, external_base);
        push_str(&mut url, "/rest/stream?u=");
        push_str(&mut url, auth[0].1.as_str());
        push_str(&mut url, "&t=");
        push_str(&mut url, auth[1].1.as_str());
        push_str(&mut url, "&s=");
        push_str(&mut url, auth[2].1.as_str());
        push_str(&mut url, "&v=1.16.1&c=aether&id=");
        push_str(&mut url, song_id);
        push_str(&mut url, "&format=mp3");
        url
    }

    /// Build an MP3 stream URL accessible from outside Docker (Pi on LAN).
    /// `external_base` is `http://{brain_ip}:{navidrome_port}`.
    pub fn stream_url(&self, song_id: &str, external_base: &str) -> (url: String)
        ensures
            exists|salt: Seq<char>|
                is_salt(salt) && url@ == #[trigger] stream_url_text(
                    external_base@,
                    self.user_view(),
                    auth_token(self.password_view(), salt),
                    salt,
                    song_id@,
                ),
    {
        let salt = new_salt();
        self.stream_url_with_salt(song_id, external_base, salt.as_str())
    }

    /// The authentication parameters as owned pairs.
    fn auth_vec(&self, salt: &str) -> (v: Vec<(String, String)>)
        ensures
            pairs_view(v@) == auth_pairs(self.user_view(), self.password_view(), salt@),
    {
        let auth = self.auth_with_salt(salt);
        let mut v: Vec<(String, String)> = Vec::new();
        let mut i: usize = 0;
        while i < 6
            invariant
                i <= 6,
                v@.len() == i,
                auth@.len() == 6,
                pairs_view(v@) == named_pairs_view(auth@).subrange(0, i as int),
            decreases 6 - i,
        {
            let name = owned(auth[i].0);
            let value = clone_string(&auth[i].1);
            let ghost before = v@;
            assert(name@ == named_pairs_view(auth@)[i as int].0);
            assert(value@ == named_pairs_view(auth@)[i as int].1);
            v.push((name, value));
            assert(v@ == before.push((name, value)));
            i = i + 1;
            assert(pairs_view(v@)[i - 1] == (name@, value@));
            assert forall|j: int| 0 <= j < i implies #[trigger] pairs_view(v@)[j]
                == named_pairs_view(auth@)[j] by {
                if j < i - 1 {
                    assert(v@[j] == before[j]);
                    assert(pairs_view(before)[j] == named_pairs_view(auth@).subrange(0, i - 1)[j]);
                }
            }
            assert(pairs_view(v@) =~= named_pairs_view(auth@).subrange(0, i as int));
        }
        assert(named_pairs_view(auth@).subrange(0, 6) =~= named_pairs_view(auth@));
        v
    }

    /// The `getRandomSongs` request for `count` songs, authenticated with
    /// `salt`: its URL and its query parameters.
    pub fn random_songs_request_with_salt(&self, count: u32, salt: &str) -> (r: (String, Vec<(String, String)>))
        ensures
            r.0@ == self.base_url_view() + "/rest/getRandomSongs"@,
            pairs_view(r.1@) == auth_pairs(self.user_view(), self.password_view(), salt@).push(
                ("size"@, decimal(count as nat)),
            ),
    {
        let mut url = clone_string(&self.base_url);
        push_str(&mut url, "/rest/getRandomSongs");
        let mut params = self.auth_vec(salt);
        let mut n = String::new();
        push_decimal(&mut n, count as u64);
        let ghost before = params@;
        params.push((owned("size"), n));
        assert(pairs_view(params@) =~= pairs_view(before).push(("size"@, decimal(count as nat))));
        (url, params)
    }

    /// The `getRandomSongs` request for `count` songs with a fresh salt.
    pub fn random_songs_request(&self, count: u32) -> (r: (String, Vec<(String, String)>))
        ensures
            r.0@ == self.base_url_view() + "/rest/getRandomSongs"@,
            exists|salt: Seq<char>|
                is_salt(salt) && pairs_view(r.1@) == #[trigger] auth_pairs(
                    self.user_view(),
                    self.password_view(),
                    salt,
                ).push(("size"@, decimal(count as nat))),
    {
        let salt = new_salt();
        self.random_songs_request_with_salt(count, salt.as_str())
    }

    /// The `search3` request for songs matching `query`, authenticated with
    /// `salt`: its URL and its query parameters.
    pub fn search_request_with_salt(&self, query: &str, salt: &str) -> (r: (String, Vec<(String, String)>))
        ensures
            r.0@ == self.base_url_view() + "/rest/search3"@,
            pairs_view(r.1@) == auth_pairs(self.user_view(), self.password_view(), salt@) + search_pairs(query@),
    {
        let mut url = clone_string(&self.base_url);
        push_str(&mut url, "/rest/search3");
        let mut params = self.auth_vec(salt);
        let ghost before = params@;
        params.push((owned("query"), owned(query)));
        params.push((owned("songCount"), owned("5")));
        params.push((owned("albumCount"), owned("0")));
        params.push((owned("artistCount"), owned("0")));
        assert(pairs_view(params@) =~= pairs_view(before) + search_pairs(query@));
        (url, params)
    }

    /// The `search3` request for songs matching `query` with a fresh salt.
    pub fn search_request(&self, query: &str) -> (r: (String, Vec<(String, String)>))
        ensures
            r.0@ == self.base_url_view() + "/rest/search3"@,
            exists|salt: Seq<char>|
                is_salt(salt) && pairs_view(r.1@) == #[trigger] auth_pairs(
                    self.user_view(),
                    self.password_view(),
                    salt,
                ) + search_pairs(query@),
    {
        let salt = new_salt();
        self.search_request_with_salt(query, salt.as_str())
    }
}

} // verus!
