use sonora::identity::{
    canon_char, format_room_code, generate_room_code, host_id, parse_room_code, room_code_from_draws, room_secret, CODE_LEN,
};

const BAD_CODE: &str = "Use an 8-character room code like SNR-K7MQ-2PLX.";
const ALPHABET: &str = "23456789ABCDEFGHJKLMNPQRSTUVWXYZ";

#[test]
fn roundtrip() {
    let code = generate_room_code();
    assert!(code.starts_with("SNR-"));
    let parsed = parse_room_code(&code).unwrap();
    assert_eq!(parsed, code);
    let a = room_secret(&code).unwrap();
    let b = room_secret(&code.to_lowercase()).unwrap();
    assert_eq!(a.public(), b.public());
}

#[test]
fn generated_codes_use_the_alphabet() {
    for _ in 0..20 {
        let code = generate_room_code();
        assert_eq!(code.len(), 4 + CODE_LEN + 1);
        let body: String = code[4..8].to_string() + &code[9..];
        assert_eq!(&code[8..9], "-");
        assert!(body.chars().all(|c| ALPHABET.contains(c)));
    }
}

#[test]
fn formats_room_codes_in_two_groups() {
    assert_eq!(format_room_code("K7MQ2PLX"), "SNR-K7MQ-2PLX");
}

#[test]
fn parses_typed_codes_loosely() {
    assert_eq!(parse_room_code("snr-k7mq-2plx"), Ok("SNR-K7MQ-2PLX".to_string()));
    assert_eq!(parse_room_code("K7MQ 2PLX"), Ok("SNR-K7MQ-2PLX".to_string()));
    assert_eq!(parse_room_code("  k7mq2plx "), Ok("SNR-K7MQ-2PLX".to_string()));
}

#[test]
fn confusable_characters_are_read_as_their_look_alikes() {
    assert_eq!(canon_char('1'), Some('L'));
    assert_eq!(canon_char('i'), Some('L'));
    assert_eq!(canon_char('I'), Some('L'));
    assert_eq!(canon_char('a'), Some('A'));
    assert_eq!(canon_char('7'), Some('7'));
    assert_eq!(parse_room_code("SNR-K7MQ-2P1X"), Ok("SNR-K7MQ-2PLX".to_string()));
    assert_eq!(parse_room_code("SNR-K7MQ-2PIX"), Ok("SNR-K7MQ-2PLX".to_string()));
}

#[test]
fn characters_outside_the_alphabet_are_dropped() {
    assert_eq!(canon_char('U'), Some('U'));
    assert_eq!(canon_char('0'), None);
    assert_eq!(canon_char('o'), None);
    assert_eq!(parse_room_code("SNR-K7M0-2PLX"), Err(BAD_CODE.to_string()));
    assert_eq!(canon_char('-'), None);
    assert_eq!(canon_char('é'), None);
    assert_eq!(parse_room_code("SNR-K7MQ-2PLX!"), Ok("SNR-K7MQ-2PLX".to_string()));
}

#[test]
fn codes_of_the_wrong_length_are_refused() {
    assert_eq!(parse_room_code(""), Err(BAD_CODE.to_string()));
    assert_eq!(parse_room_code("SNR-K7MQ-2PL"), Err(BAD_CODE.to_string()));
    assert_eq!(parse_room_code("SNR-K7MQ-2PLXX"), Err(BAD_CODE.to_string()));
    assert!(room_secret("nope").is_err());
    assert_eq!(host_id("nope").err(), Some(BAD_CODE.to_string()));
}

#[test]
fn room_keys_ignore_how_the_code_was_typed() {
    let a = room_secret("SNR-K7MQ-2PLX").unwrap();
    let b = room_secret("k7mq2plx").unwrap();
    assert_eq!(a.to_bytes(), b.to_bytes());
    assert_eq!(host_id("snr k7mq 2plx").unwrap(), a.public());
}

#[test]
fn room_key_is_the_blake3_hash_of_the_code_body() {
    let secret = room_secret("SNR-K7MQ-2PLX").unwrap();
    let expected = blake3::hash(b"sonora-room-v1:K7MQ2PLX");
    assert_eq!(&secret.to_bytes(), expected.as_bytes());
}

#[test]
fn host_id_is_the_public_key_of_the_room_key() {
    let secret = room_secret("SNR-K7MQ-2PLX").unwrap();
    let key = iroh::SecretKey::from_bytes(&secret.to_bytes());
    assert_eq!(host_id("SNR-K7MQ-2PLX").unwrap(), *key.public().as_bytes());
    assert_ne!(secret.public(), secret.to_bytes());
}

#[test]
fn different_codes_give_different_rooms() {
    let a = host_id("SNR-K7MQ-2PLX").unwrap();
    let b = host_id("SNR-K7MQ-2PLY").unwrap();
    assert_ne!(a, b);
}

#[test]
fn a_parsed_code_reads_back_as_itself() {
    let once = parse_room_code("k7mq 2p1x").unwrap();
    assert_eq!(parse_room_code(&once), Ok(once.clone()));
}

#[test]
fn draws_pick_characters_of_the_alphabet() {
    assert_eq!(room_code_from_draws(&[0, 0, 0, 0, 0, 0, 0, 0]), "SNR-2222-2222");
    assert_eq!(room_code_from_draws(&[31, 8, 16, 21, 7, 15, 20, 30]), "SNR-ZAJP-9HNY");
    assert_eq!(room_code_from_draws(&[17, 5, 19, 22, 0, 21, 18, 29]), "SNR-K7MQ-2PLX");
}
