use sonora::now_playing::{artwork_query, current, macos, windows, NowPlaying};

fn track(title: &str, artist: Option<&str>, album: Option<&str>, artwork: Option<&str>) -> NowPlaying {
    NowPlaying {
        title: title.to_string(),
        artist: artist.map(|s| s.to_string()),
        album: album.map(|s| s.to_string()),
        artwork: artwork.map(|s| s.to_string()),
    }
}

#[test]
fn blank_titles_are_not_shown() {
    assert!(current(None).is_none());
    assert!(current(Some(track("  \t", Some("A"), None, None))).is_none());
}

#[test]
fn blank_artwork_is_dropped() {
    let shown = current(Some(track("Song", Some("A"), Some("B"), Some("  ")))).unwrap();
    assert_eq!(shown.title, "Song");
    assert_eq!(shown.artist.as_deref(), Some("A"));
    assert_eq!(shown.album.as_deref(), Some("B"));
    assert_eq!(shown.artwork, None);
    let kept = current(Some(track("Song", None, None, Some("https://x/y.jpg")))).unwrap();
    assert_eq!(kept.artwork.as_deref(), Some("https://x/y.jpg"));
}

#[test]
fn artwork_lookup_cleans_artist_and_title() {
    let q = artwork_query(&track("TV Girl - Hate Yourself (Official Audio)", Some("TV Girl - Topic"), None, None)).unwrap();
    assert_eq!(q.artist, "TV Girl");
    assert_eq!(q.title, "Hate Yourself");
    assert_eq!(q.album, None);
    assert_eq!(q.key, "tvgirl|hateyourself|");
}

#[test]
fn artwork_lookup_keys_include_the_album() {
    let q = artwork_query(&track("Song", Some("Band"), Some("The Album!"), None)).unwrap();
    assert_eq!(q.key, "band|song|thealbum");
    assert_eq!(q.album.as_deref(), Some("The Album!"));
}

#[test]
fn tracks_without_an_artist_are_not_looked_up() {
    assert!(artwork_query(&track("Song", None, None, None)).is_none());
    assert!(artwork_query(&track("Song", Some("   "), None, None)).is_none());
}

#[test]
fn macos_fills_missing_artwork_from_the_fallback() {
    let system = track("Song", None, Some("Album"), None);
    let fallback = track("song!", Some("Band"), Some("Other"), Some("art"));
    assert!(macos::needs_fallback(&Some(system.clone())));
    let merged = macos::current(Some(system), Some(fallback)).unwrap();
    assert_eq!(merged.title, "Song");
    assert_eq!(merged.artwork.as_deref(), Some("art"));
    assert_eq!(merged.artist.as_deref(), Some("Band"));
    assert_eq!(merged.album.as_deref(), Some("Album"));
}

#[test]
fn macos_keeps_the_system_track_when_titles_differ() {
    let system = track("Song", None, None, None);
    let fallback = track("Other", Some("Band"), None, Some("art"));
    let merged = macos::current(Some(system), Some(fallback)).unwrap();
    assert_eq!(merged.artwork, None);
    assert_eq!(merged.artist, None);
    let only = macos::current(None, Some(track("Other", None, None, None))).unwrap();
    assert_eq!(only.title, "Other");
    assert!(!macos::needs_fallback(&Some(track("S", None, None, Some("a")))));
    assert!(macos::needs_fallback(&None));
}

#[test]
fn windows_drops_empty_fields() {
    assert!(windows::current(" ".to_string(), None, None).is_none());
    let t = windows::current("Song".to_string(), Some(String::new()), Some("Album".to_string())).unwrap();
    assert_eq!(t.artist, None);
    assert_eq!(t.album.as_deref(), Some("Album"));
    assert_eq!(t.artwork, None);
}

#[test]
fn other_systems_report_nothing() {
    assert!(sonora::now_playing::fallback::current().is_none());
}
