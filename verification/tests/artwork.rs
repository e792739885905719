use sonora::artwork::{
    accept_artwork_headers, artwork_candidates, artwork_data_url, musicbrainz_query, release_is_trustworthy,
    MusicBrainzArtist, MusicBrainzArtistCredit, MusicBrainzRecording, MusicBrainzRelease, MusicBrainzReleaseGroup,
    MusicBrainzSearch, MAX_ARTWORK_BYTES,
};

fn credit(name: &str) -> MusicBrainzArtistCredit {
    MusicBrainzArtistCredit { artist: MusicBrainzArtist { name: name.to_string() } }
}

fn release(id: &str, title: &str, status: Option<&str>, group: Option<&str>) -> MusicBrainzRelease {
    MusicBrainzRelease {
        id: id.to_string(),
        title: title.to_string(),
        status: status.map(|s| s.to_string()),
        artist_credit: vec![],
        release_group: group.map(|g| MusicBrainzReleaseGroup { id: g.to_string(), secondary_types: vec![] }),
    }
}

fn recording(score: u16, title: &str, artist: &str, releases: Vec<MusicBrainzRelease>) -> MusicBrainzRecording {
    MusicBrainzRecording { score, title: title.to_string(), artist_credit: vec![credit(artist)], releases }
}

fn release_url(id: &str) -> String {
    format!("https://coverartarchive.org/release/{id}/front-500")
}

fn group_url(id: &str) -> String {
    format!("https://coverartarchive.org/release-group/{id}/front-500")
}

#[test]
fn rejects_polluted_compilation_releases() {
    let polluted = MusicBrainzRelease {
        id: "5511b326-4527-447f-af85-b9a2d07c112c".to_string(),
        title: "Buddy Holly Remastered".to_string(),
        status: Some("Expunged".to_string()),
        artist_credit: vec![credit("gaymichaelafton")],
        release_group: Some(MusicBrainzReleaseGroup {
            id: "d78f2674-47ea-4dbb-b25b-4968d3be8489".to_string(),
            secondary_types: vec!["Compilation".to_string()],
        }),
    };
    let official = MusicBrainzRelease {
        id: "e461c1b4-4eb5-46c2-8eb1-1b29e1befdf4".to_string(),
        title: "French Exit".to_string(),
        status: Some("Official".to_string()),
        artist_credit: vec![],
        release_group: Some(MusicBrainzReleaseGroup {
            id: "a7e457e6-4124-4cb5-9f2a-8c35a30835a3".to_string(),
            secondary_types: vec![],
        }),
    };

    assert!(!release_is_trustworthy(&polluted, "tvgirl"));
    assert!(release_is_trustworthy(&official, "tvgirl"));
}

#[test]
fn rejected_statuses_and_compilations_are_not_trusted() {
    for status in ["Expunged", "Cancelled", "Withdrawn", "Bootleg", "Pseudo-Release"] {
        assert!(!release_is_trustworthy(&release("r", "Album", Some(status), None), "artist"));
    }
    assert!(release_is_trustworthy(&release("r", "Album", Some("Promotion"), None), "artist"));
    let mut compilation = release("r", "Album", Some("Official"), Some("g"));
    compilation.release_group.as_mut().unwrap().secondary_types = vec!["compilation".to_string()];
    assert!(!release_is_trustworthy(&compilation, "artist"));
}

#[test]
fn releases_credited_to_someone_else_are_not_trusted() {
    let mut other = release("r", "Album", Some("Official"), None);
    other.artist_credit = vec![credit("Someone Else")];
    assert!(!release_is_trustworthy(&other, "tvgirl"));
    other.artist_credit.push(credit("TV Girl"));
    assert!(release_is_trustworthy(&other, "tvgirl"));
}

#[test]
fn search_query_quotes_and_escapes_both_terms() {
    assert_eq!(
        musicbrainz_query("Say \"Hi\"", "TV Girl"),
        "recording:\"Say \\\"Hi\\\"\" AND artist:\"TV Girl\""
    );
}

#[test]
fn candidates_put_the_album_first_then_official_then_other_then_live() {
    let search = MusicBrainzSearch {
        recordings: vec![recording(
            100,
            "Hate Yourself",
            "TV Girl",
            vec![
                release("live", "Live in Paris", Some("Official"), None),
                release("other", "Singles", None, None),
                release("official", "French Exit", Some("Official"), Some("fe-group")),
                release("album", "Who Really Cares", Some("Official"), None),
            ],
        )],
    };
    let urls = artwork_candidates(&search, "Hate Yourself", "TV Girl", Some("who really cares"));
    assert_eq!(
        urls,
        vec![
            release_url("album"),
            group_url("fe-group"),
            release_url("official"),
            release_url("other"),
            release_url("live"),
        ]
    );
}

#[test]
fn candidates_skip_recordings_that_do_not_answer() {
    let search = MusicBrainzSearch {
        recordings: vec![
            recording(89, "Hate Yourself", "TV Girl", vec![release("low", "A", None, None)]),
            recording(100, "Another Song", "TV Girl", vec![release("title", "B", None, None)]),
            recording(100, "Hate Yourself", "Someone", vec![release("artist", "C", None, None)]),
            recording(90, "hate yourself!", "tv girl", vec![release("good", "D", None, None)]),
        ],
    };
    let urls = artwork_candidates(&search, "Hate Yourself", "TV Girl", None);
    assert_eq!(urls, vec![release_url("good")]);
}

#[test]
fn candidates_have_no_repeats_and_at_most_eight() {
    let mut releases = vec![];
    for i in 0..6 {
        releases.push(release(&format!("r{i}"), "Album", None, Some("shared")));
    }
    let search = MusicBrainzSearch { recordings: vec![recording(100, "Song", "Band", releases)] };
    let urls = artwork_candidates(&search, "Song", "Band", None);
    assert_eq!(urls.len(), 7);
    assert_eq!(urls[0], group_url("shared"));
    assert_eq!(urls[1], release_url("r0"));

    let mut many = vec![];
    for i in 0..12 {
        many.push(release(&format!("m{i}"), "Album", None, None));
    }
    let search = MusicBrainzSearch { recordings: vec![recording(100, "Song", "Band", many)] };
    let urls = artwork_candidates(&search, "Song", "Band", Some(""));
    assert_eq!(urls.len(), 8);
    assert_eq!(urls[7], release_url("m7"));
}

#[test]
fn image_responses_are_accepted_by_type_and_size() {
    assert_eq!(accept_artwork_headers(Some(1000), Some("image/jpeg")), Some("image/jpeg".to_string()));
    assert_eq!(
        accept_artwork_headers(None, Some("image/png; charset=binary")),
        Some("image/png".to_string())
    );
    assert_eq!(accept_artwork_headers(Some(MAX_ARTWORK_BYTES), Some("image/png")), Some("image/png".to_string()));
    assert_eq!(accept_artwork_headers(Some(MAX_ARTWORK_BYTES + 1), Some("image/png")), None);
    assert_eq!(accept_artwork_headers(Some(10), Some("text/html")), None);
    assert_eq!(accept_artwork_headers(Some(10), None), None);
}

#[test]
fn artwork_becomes_a_base64_data_url() {
    assert_eq!(artwork_data_url("image/png", b"Man"), Some("data:image/png;base64,TWFu".to_string()));
    assert_eq!(artwork_data_url("image/png", b"Ma"), Some("data:image/png;base64,TWE=".to_string()));
    assert_eq!(artwork_data_url("image/gif", b"M"), Some("data:image/gif;base64,TQ==".to_string()));
    assert_eq!(artwork_data_url("image/gif", b""), Some("data:image/gif;base64,".to_string()));
    assert_eq!(
        artwork_data_url("image/jpeg", &[0xfb, 0xff, 0xbf]),
        Some("data:image/jpeg;base64,+/+/".to_string())
    );
}

#[test]
fn oversized_artwork_is_refused() {
    let big = vec![0u8; MAX_ARTWORK_BYTES as usize + 1];
    assert_eq!(artwork_data_url("image/png", &big), None);
    let limit = vec![0u8; MAX_ARTWORK_BYTES as usize];
    assert!(artwork_data_url("image/png", &limit).is_some());
}
