use sonora::metadata::{
    artist_for_lookup, is_presentation_label, looks_like_live_release, musicbrainz_escape, normalize,
    strip_presentation_suffix, strip_wrapping_quotes, title_for_lookup, title_without_artist_prefix,
};

#[test]
fn normalizes_track_metadata_for_matching() {
    assert_eq!(normalize("Where Am I?"), "whereami");
    assert_eq!(normalize("TITLE FIGHT"), "titlefight");
}

#[test]
fn removes_matching_artist_prefix() {
    assert_eq!(
        title_without_artist_prefix("Title Fight - Where Am I?", "Title Fight"),
        "Where Am I?"
    );
    assert_eq!(
        title_without_artist_prefix("Artist — Song", "Different Artist"),
        "Artist — Song"
    );
}

#[test]
fn removes_youtube_presentation_text_from_titles() {
    assert_eq!(
        title_for_lookup(
            "Black Country, New Road - 'The Place Where He Inserted the Blade' (Official Audio)",
            "Black Country, New Road"
        ),
        "The Place Where He Inserted the Blade"
    );
    assert_eq!(
        title_for_lookup("An Artist - \"A Song\" [Official Music Video]", "An Artist"),
        "A Song"
    );
}

#[test]
fn preserves_meaningful_song_versions() {
    assert_eq!(
        title_for_lookup("A Song (Live at Bush Hall)", "An Artist"),
        "A Song (Live at Bush Hall)"
    );
    assert_eq!(
        title_for_lookup("A Song - Acoustic Version", "An Artist"),
        "A Song - Acoustic Version"
    );
}

#[test]
fn removes_youtube_topic_suffix_for_musicbrainz() {
    assert_eq!(
        artist_for_lookup("Neutral Milk Hotel - Topic"),
        "Neutral Milk Hotel"
    );
    assert_eq!(artist_for_lookup("An Artist"), "An Artist");
}

#[test]
fn escapes_musicbrainz_query_values() {
    assert_eq!(
        musicbrainz_escape("A \\\"quote\\\""),
        "A \\\\\\\"quote\\\\\\\""
    );
}

#[test]
fn normalization_keeps_unicode_letters_and_digits() {
    assert_eq!(normalize("Björk — Jóga (1997)"), "björkjóga1997");
    assert_eq!(normalize("ÀÉÎ"), "àéî");
    assert_eq!(normalize(""), "");
}

#[test]
fn artist_prefix_is_matched_whatever_the_dash() {
    assert_eq!(title_without_artist_prefix("TV Girl – Hate Yourself", "tv girl"), "Hate Yourself");
    assert_eq!(title_without_artist_prefix("TV Girl — Hate Yourself ", "TV Girl"), "Hate Yourself");
    assert_eq!(title_without_artist_prefix("  Hate Yourself  ", "TV Girl"), "Hate Yourself");
}

#[test]
fn an_artist_prefix_with_nothing_after_it_stays() {
    assert_eq!(title_without_artist_prefix("TV Girl -   ", "TV Girl"), "TV Girl -");
}

#[test]
fn presentation_labels_are_recognised() {
    assert!(is_presentation_label("Official Audio"));
    assert!(is_presentation_label("official music video"));
    assert!(is_presentation_label("Lyrics"));
    assert!(is_presentation_label("HD"));
    assert!(is_presentation_label("4K"));
    assert!(is_presentation_label("Official Lyric Video HQ"));
    assert!(!is_presentation_label("Live at Bush Hall"));
    assert!(!is_presentation_label("Official Remix Video"));
    assert!(!is_presentation_label("Acoustic"));
    assert!(!is_presentation_label("feat. Someone"));
}

#[test]
fn one_presentation_suffix_is_stripped_at_a_time() {
    assert_eq!(strip_presentation_suffix("Song (Official Video) [HD]"), Some("Song (Official Video)"));
    assert_eq!(strip_presentation_suffix("Song (Official Video)"), Some("Song"));
    assert_eq!(strip_presentation_suffix("Song | Official Audio"), Some("Song"));
    assert_eq!(strip_presentation_suffix("Song - Lyrics"), Some("Song"));
    assert_eq!(strip_presentation_suffix("Song (Remix)"), None);
    assert_eq!(strip_presentation_suffix("Song"), None);
}

#[test]
fn every_presentation_suffix_is_stripped_for_lookup() {
    assert_eq!(title_for_lookup("Song (Official Video) [HD]", "Someone"), "Song");
    assert_eq!(title_for_lookup("Someone - Song | Lyrics (4K)", "Someone"), "Song");
}

#[test]
fn wrapping_quotes_are_removed_once() {
    assert_eq!(strip_wrapping_quotes("'Song'"), "Song");
    assert_eq!(strip_wrapping_quotes("\"Song\""), "Song");
    assert_eq!(strip_wrapping_quotes("‘Song’"), "Song");
    assert_eq!(strip_wrapping_quotes("“Song”"), "Song");
    assert_eq!(strip_wrapping_quotes("''Song''"), "'Song'");
    assert_eq!(strip_wrapping_quotes("' '"), "' '");
    assert_eq!(strip_wrapping_quotes("'Song"), "'Song");
}

#[test]
fn topic_suffix_needs_a_name_before_it() {
    assert_eq!(artist_for_lookup("  TV Girl – TOPIC "), "TV Girl");
    assert_eq!(artist_for_lookup(" - Topic"), "- Topic");
    assert_eq!(artist_for_lookup("Topic"), "Topic");
}

#[test]
fn live_releases_are_recognised() {
    assert!(looks_like_live_release("Live at Reading"));
    assert!(looks_like_live_release("BBC Sessions"));
    assert!(looks_like_live_release("In Concert"));
    assert!(looks_like_live_release("Bootleg Series"));
    assert!(looks_like_live_release("1997/05/12"));
    assert!(!looks_like_live_release("French Exit"));
    assert!(!looks_like_live_release("AC/DC"));
}

#[test]
fn normalising_two_texts_joins_their_normal_forms() {
    assert_eq!(normalize("Where Am I?Title FIGHT"), normalize("Where Am I?") + &normalize("Title FIGHT"));
    assert!(normalize("A-b C!").chars().all(|c| c.is_alphanumeric()));
}
