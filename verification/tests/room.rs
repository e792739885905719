use sonora::protocol::Ctrl;
use sonora::protocol::{CHANNELS, SAMPLE_RATE};
use sonora::room::{add_listener, listener_name, remove_listener, welcome_messages, RoomState};

const LOSSLESS: &str = "16-bit · 48 kHz stereo PCM";

#[test]
fn an_idle_room_shows_idle_everywhere() {
    let s = RoomState::idle();
    assert_eq!(s.mode, "idle");
    assert_eq!(s.path, "idle");
    assert_eq!(s.status, "idle");
    assert_eq!(s.lossless, LOSSLESS);
    assert!(s.room_code.is_none() && s.host_name.is_none() && s.error.is_none());
    assert!(s.listeners.is_empty());
}

#[test]
fn a_hosted_room_starts_live_and_publishing() {
    let mut s = RoomState::hosting("SNR-K7MQ-2PLX".to_string(), "Spotify".to_string(), "Ana".to_string());
    assert_eq!(s.mode, "hosting");
    assert_eq!(s.room_code.as_deref(), Some("SNR-K7MQ-2PLX"));
    assert_eq!(s.source_label.as_deref(), Some("Spotify"));
    assert_eq!(s.host_name.as_deref(), Some("Ana"));
    assert_eq!(s.path, "publishing");
    assert_eq!(s.status, "live");
    s.on_audio_published();
    assert_eq!(s.path, "live");
    assert_eq!(s.status, "live");
}

#[test]
fn a_joined_room_goes_from_connecting_to_live() {
    let mut s = RoomState::listening("SNR-K7MQ-2PLX".to_string());
    assert_eq!(s.mode, "listening");
    assert_eq!(s.status, "connecting");
    assert_eq!(s.path, "connecting");
    s.on_room_info("Ana".to_string(), "Spotify".to_string(), "connected".to_string());
    assert_eq!(s.host_name.as_deref(), Some("Ana"));
    assert_eq!(s.source_label.as_deref(), Some("Spotify"));
    assert_eq!(s.status, "live");
    assert_eq!(s.path, "connected");
    s.on_peers(vec!["Bo".to_string(), "Cy".to_string()]);
    assert_eq!(s.listeners, vec!["Bo".to_string(), "Cy".to_string()]);
    s.on_audio_received();
    assert_eq!(s.status, "live");
}

#[test]
fn a_failed_audio_stream_is_reported() {
    let mut s = RoomState::listening("SNR-K7MQ-2PLX".to_string());
    s.on_audio_failed("timed out");
    assert_eq!(s.error.as_deref(), Some("Audio stream failed: timed out"));
    assert_eq!(s.status, "error");
    assert_eq!(s.mode, "listening");
}

#[test]
fn listeners_are_named_by_their_greeting() {
    let hello = Ctrl::Hello { name: "Bo".to_string(), role: "listener".to_string() };
    assert_eq!(listener_name(hello), "Bo");
    let other = Ctrl::Bye { reason: "x".to_string() };
    assert_eq!(listener_name(other), "Listener");
}

#[test]
fn a_listener_who_joins_and_leaves_leaves_the_list_as_it_was() {
    let mut names = vec!["Bo".to_string(), "Cy".to_string()];
    add_listener(&mut names, "Di".to_string());
    assert_eq!(names, vec!["Bo".to_string(), "Cy".to_string(), "Di".to_string()]);
    remove_listener(&mut names, "Di");
    assert_eq!(names, vec!["Bo".to_string(), "Cy".to_string()]);
}

#[test]
fn the_last_listener_of_a_name_leaves_first() {
    let mut names = vec!["Bo".to_string(), "Cy".to_string(), "Bo".to_string(), "Di".to_string()];
    remove_listener(&mut names, "Bo");
    assert_eq!(names, vec!["Bo".to_string(), "Cy".to_string(), "Di".to_string()]);
    remove_listener(&mut names, "Zed");
    assert_eq!(names, vec!["Bo".to_string(), "Cy".to_string(), "Di".to_string()]);
}

#[test]
fn a_listener_is_welcomed_with_the_room_then_the_listeners() {
    let (room, peers) = welcome_messages("Ana".to_string(), "Spotify".to_string(), vec!["Bo".to_string()]);
    match room {
        Ctrl::Room { host, source, rate, channels } => {
            assert_eq!(host, "Ana");
            assert_eq!(source, "Spotify");
            assert_eq!(rate, SAMPLE_RATE);
            assert_eq!(channels, CHANNELS);
        }
        other => panic!("unexpected {other:?}"),
    }
    match peers {
        Ctrl::Peers { names } => assert_eq!(names, vec!["Bo".to_string()]),
        other => panic!("unexpected {other:?}"),
    }
}

#[test]
fn host_messages_drive_a_joined_room() {
    let mut s = RoomState::listening("SNR-K7MQ-2PLX".to_string());
    s.on_first_message(Ctrl::Peers { names: vec!["X".to_string()] }, "connected".to_string());
    assert_eq!(s.status, "connecting");
    assert!(s.listeners.is_empty());
    s.on_first_message(
        Ctrl::Room { host: "Ana".to_string(), source: "Spotify".to_string(), rate: 48_000, channels: 2 },
        "connected".to_string(),
    );
    assert_eq!(s.status, "live");
    assert_eq!(s.host_name.as_deref(), Some("Ana"));
    s.on_message(Ctrl::Bye { reason: "x".to_string() });
    assert!(s.listeners.is_empty());
    s.on_message(Ctrl::Peers { names: vec!["Bo".to_string()] });
    assert_eq!(s.listeners, vec!["Bo".to_string()]);
}
