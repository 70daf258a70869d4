use ws_relay::registry::{ConnectionRecord, ConnectionRole, Registry};

fn record(id: u32, role: ConnectionRole, handle: u32) -> ConnectionRecord<u32> {
    ConnectionRecord {
        id,
        role,
        handle,
        metadata: vec![("Host".to_string(), "example.test".to_string())],
    }
}

#[test]
fn insert_then_get_returns_the_record_unchanged() {
    let mut reg: Registry<u32> = Registry::new();
    reg.insert(record(7, ConnectionRole::Producer, 700));
    let rec = reg.get(7).expect("inserted id must be found");
    assert_eq!(rec.id, 7);
    assert_eq!(rec.role, ConnectionRole::Producer);
    assert_eq!(rec.handle, 700);
    assert_eq!(
        rec.metadata,
        vec![("Host".to_string(), "example.test".to_string())]
    );
}

#[test]
fn remove_then_get_returns_not_found() {
    let mut reg: Registry<u32> = Registry::new();
    reg.insert(record(7, ConnectionRole::Consumer, 700));
    reg.insert(record(8, ConnectionRole::Consumer, 800));
    reg.remove(7);
    assert!(reg.get(7).is_none());
    assert!(reg.get(8).is_some(), "removing 7 must leave 8 in place");
}

#[test]
fn get_of_unknown_id_returns_not_found() {
    let reg: Registry<u32> = Registry::new();
    assert!(reg.get(1).is_none());
}

#[test]
fn remove_of_unknown_id_is_a_silent_noop() {
    let mut reg: Registry<u32> = Registry::new();
    reg.insert(record(1, ConnectionRole::Producer, 100));
    reg.remove(2);
    reg.remove(2);
    assert!(reg.get(1).is_some());
}

#[test]
fn collect_role_snapshots_exactly_that_role() {
    let mut reg: Registry<u32> = Registry::new();
    reg.insert(record(1, ConnectionRole::Producer, 100));
    reg.insert(record(2, ConnectionRole::Consumer, 200));
    reg.insert(record(3, ConnectionRole::Consumer, 300));

    let mut consumers = reg.collect_role(ConnectionRole::Consumer);
    consumers.sort();
    assert_eq!(consumers, vec![(2, 200), (3, 300)]);

    let producers = reg.collect_role(ConnectionRole::Producer);
    assert_eq!(producers, vec![(1, 100)]);
}
