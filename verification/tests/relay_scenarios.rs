use ws_relay::registry::{ConnectionRole, Registry};
use ws_relay::relay::{classify_path, on_close, on_message, on_open, Admission, MessageOutcome};

fn no_headers() -> Vec<(String, Vec<u8>)> {
    Vec::new()
}

fn deliveries_of(reg: &Registry<u32>, sender: u32, payload: &str) -> Vec<(u32, u32, String)> {
    match on_message(reg, sender, payload.to_string()) {
        MessageOutcome::SenderUnknown => panic!("sender {} must be registered", sender),
        MessageOutcome::Handled { deliveries, .. } => {
            deliveries.into_iter().map(|d| (d.target, d.handle, d.payload)).collect()
        }
    }
}

#[test]
fn classify_path_is_bit_exact() {
    assert_eq!(classify_path("/user"), Some(ConnectionRole::Producer));
    assert_eq!(classify_path("/client"), Some(ConnectionRole::Consumer));
    assert_eq!(classify_path("/admin"), None);
    assert_eq!(classify_path("/User"), None);
    assert_eq!(classify_path("/user/"), None);
    assert_eq!(classify_path(""), None);
}

#[test]
fn broadcast_reaches_each_consumer_exactly_once() {
    let mut reg: Registry<u32> = Registry::new();
    let h = no_headers();
    assert!(matches!(
        on_open(&mut reg, 1, "/user", &h, 101),
        Admission::Admitted { role: ConnectionRole::Producer }
    ));
    assert!(matches!(
        on_open(&mut reg, 2, "/client", &h, 102),
        Admission::Admitted { role: ConnectionRole::Consumer }
    ));
    assert!(matches!(
        on_open(&mut reg, 3, "/client", &h, 103),
        Admission::Admitted { role: ConnectionRole::Consumer }
    ));

    let inbox = deliveries_of(&reg, 1, "ping");
    assert_eq!(inbox.len(), 2);
    assert_eq!(
        inbox.iter().filter(|e| **e == (2, 102, "ping".to_string())).count(),
        1
    );
    assert_eq!(
        inbox.iter().filter(|e| **e == (3, 103, "ping".to_string())).count(),
        1
    );
    assert!(inbox.iter().all(|e| e.0 != 1), "the producer must receive nothing");

    on_close(&mut reg, 2);
    let inbox2 = deliveries_of(&reg, 1, "ping2");
    assert_eq!(inbox2, vec![(3, 103, "ping2".to_string())]);
}

#[test]
fn consumer_message_is_accepted_but_goes_nowhere() {
    let mut reg: Registry<u32> = Registry::new();
    let h = no_headers();
    on_open(&mut reg, 1, "/user", &h, 101);
    on_open(&mut reg, 2, "/client", &h, 102);
    on_open(&mut reg, 3, "/client", &h, 103);

    match on_message(&reg, 2, "from-consumer".to_string()) {
        MessageOutcome::SenderUnknown => panic!("consumer 2 is registered"),
        MessageOutcome::Handled { sender_role, deliveries, .. } => {
            assert_eq!(sender_role, ConnectionRole::Consumer);
            assert!(deliveries.is_empty());
        }
    }
}

#[test]
fn unrecognized_path_is_refused_and_stays_silent() {
    let mut reg: Registry<u32> = Registry::new();
    let h = no_headers();
    on_open(&mut reg, 1, "/user", &h, 101);
    on_open(&mut reg, 2, "/client", &h, 102);

    let adm = on_open(&mut reg, 4, "/admin", &h, 104);
    assert!(
        matches!(adm, Admission::Refused),
        "the caller must now close connection 4 with a protocol-violation status"
    );
    assert!(reg.get(4).is_none(), "a refused connection never appears in the registry");

    assert!(matches!(
        on_message(&reg, 4, "late".to_string()),
        MessageOutcome::SenderUnknown
    ));

    let inbox = deliveries_of(&reg, 1, "hello");
    assert_eq!(inbox, vec![(2, 102, "hello".to_string())]);
    assert!(inbox.iter().all(|e| e.0 != 4), "a refused id never receives a broadcast");
}

#[test]
fn message_from_never_admitted_id_is_dropped() {
    let reg: Registry<u32> = Registry::new();
    assert!(matches!(
        on_message(&reg, 9, "lost".to_string()),
        MessageOutcome::SenderUnknown
    ));
}

#[test]
fn duplicate_close_is_a_noop() {
    let mut reg: Registry<u32> = Registry::new();
    let h = no_headers();
    on_open(&mut reg, 1, "/user", &h, 101);
    on_open(&mut reg, 2, "/client", &h, 102);

    on_close(&mut reg, 2);
    assert!(reg.get(2).is_none());
    on_close(&mut reg, 2);
    assert!(reg.get(2).is_none());
    assert!(reg.get(1).is_some(), "closing 2 twice must not disturb 1");

    let inbox = deliveries_of(&reg, 1, "after-close");
    assert!(inbox.is_empty());
}
