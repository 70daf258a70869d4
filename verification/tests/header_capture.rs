use ws_relay::headers::{decode_headers, header_or_none};
use ws_relay::registry::Registry;
use ws_relay::relay::{on_message, on_open, MessageOutcome};

#[test]
fn header_values_are_decoded_permissively() {
    let raw = vec![
        ("Host".to_string(), b"example.test".to_vec()),
        ("X-Bin".to_string(), vec![0xff, 0xfe, b'a']),
    ];
    let meta = decode_headers(&raw);
    assert_eq!(meta.len(), 2);
    assert_eq!(meta[0], ("Host".to_string(), "example.test".to_string()));
    assert_eq!(meta[1].0, "X-Bin");
    assert_eq!(
        meta[1].1, "\u{fffd}\u{fffd}a",
        "undecodable bytes are replaced, never rejected"
    );
}

#[test]
fn header_lookup_defaults_to_the_none_placeholder() {
    let meta = vec![("Host".to_string(), "example.test".to_string())];
    assert_eq!(header_or_none(&meta, "Host"), "example.test");
    assert_eq!(header_or_none(&meta, "User-Agent"), "none");
    assert_eq!(header_or_none(&meta, "host"), "none", "names match case-sensitively");
    assert_eq!(header_or_none(&Vec::new(), "Host"), "none");
}

#[test]
fn later_header_of_the_same_name_wins() {
    let meta = vec![
        ("X-Tag".to_string(), "first".to_string()),
        ("Other".to_string(), "x".to_string()),
        ("X-Tag".to_string(), "second".to_string()),
    ];
    assert_eq!(header_or_none(&meta, "X-Tag"), "second");
}

#[test]
fn message_outcome_reports_the_sender_user_agent() {
    let mut reg: Registry<u32> = Registry::new();
    let raw = vec![
        ("User-Agent".to_string(), b"relay-test/1.0".to_vec()),
        ("Origin".to_string(), b"http://example.test".to_vec()),
    ];
    on_open(&mut reg, 1, "/user", &raw, 101);
    match on_message(&reg, 1, "hi".to_string()) {
        MessageOutcome::SenderUnknown => panic!("producer 1 is registered"),
        MessageOutcome::Handled { user_agent, .. } => {
            assert_eq!(user_agent, "relay-test/1.0");
        }
    }
}

#[test]
fn message_outcome_user_agent_defaults_to_none() {
    let mut reg: Registry<u32> = Registry::new();
    let raw: Vec<(String, Vec<u8>)> = Vec::new();
    on_open(&mut reg, 1, "/user", &raw, 101);
    match on_message(&reg, 1, "hi".to_string()) {
        MessageOutcome::SenderUnknown => panic!("producer 1 is registered"),
        MessageOutcome::Handled { user_agent, .. } => {
            assert_eq!(user_agent, "none");
        }
    }
}
