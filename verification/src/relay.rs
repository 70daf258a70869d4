//! The per-connection event logic: admission, message routing, closure.
//!
//! Each transport event is answered by a decision over the registry. On open,
//! the request path classifies the connection — `/user` admits a producer,
//! `/client` admits a consumer, anything else is refused and the caller
//! closes the connection with a protocol-violation status. On a message, the
//! sender's role decides the routing: a producer's message is handed back as
//! one [`Delivery`] per registered consumer, a consumer's message is accepted
//! and produces none. On close, the entry is dropped; a repeated close for
//! the same id is a no-op.
//!
//! The caller performs the network effects (the sends, the closes) outside
//! the registry, through the cloned handles carried by the deliveries.

use vstd::prelude::*;

verus! {

use crate::headers::{decode_headers, decoded_headers, header_or_none, header_or_none_spec};
use crate::registry::{has_target, ConnectionRecord, ConnectionRole, Registry};

/// How the request path classifies a connection: `/user` makes a producer,
/// `/client` a consumer, any other path is not admitted.
pub open spec fn classify_spec(path: Seq<char>) -> Option<ConnectionRole> {
    if path == "/user"@ {
        Some(ConnectionRole::Producer)
    } else if path == "/client"@ {
        Some(ConnectionRole::Consumer)
    } else {
        None
    }
}

/// Classifies a request path, bit-exactly: `/user` or `/client`, nothing
/// else.
pub fn classify_path(path: &str) -> (r: Option<ConnectionRole>)
    ensures
        r == classify_spec(path@),
{
    let p = path.to_owned();
    if p == "/user".to_owned() {
        Some(ConnectionRole::Producer)
    } else if p == "/client".to_owned() {
        Some(ConnectionRole::Consumer)
    } else {
        None
    }
}

/// The answer to an open event.
#[derive(Clone, Copy, Debug, PartialEq, Eq, Structural)]
pub enum Admission {
    /// The connection was registered under the given role.
    Admitted { role: ConnectionRole },
    /// Unrecognized path: nothing was registered, and the caller must close
    /// the connection with a protocol-violation status.
    Refused,
}

/// One message to pass on: the receiving connection's id, a clone of its
/// outbound handle to send through, and a copy of the payload.
pub struct Delivery<S, M> {
    /// Id of the receiving connection.
    pub target: u32,
    /// Clone of the receiver's outbound handle.
    pub handle: S,
    /// Copy of the sender's payload, forwarded untouched.
    pub payload: M,
}

/// The answer to a message event.
pub enum MessageOutcome<S, M> {
    /// The sender has no registry entry (a message raced past admission or
    /// close): the message is dropped.
    SenderUnknown,
    /// The sender is registered; the message produces exactly the given
    /// deliveries — one per consumer if the sender is a producer, none
    /// otherwise.
    Handled {
        /// The sender's registered role.
        sender_role: ConnectionRole,
        /// The sender's recorded user-agent header, or `"none"`; kept for
        /// the diagnostic line the caller emits.
        user_agent: String,
        /// The fan-out: whom to send a copy of the payload to.
        deliveries: Vec<Delivery<S, M>>,
    },
}

/// Is `id` registered with the consumer role?
pub open spec fn is_consumer<S>(m: Map<u32, ConnectionRecord<S>>, id: u32) -> bool {
    m.contains_key(id) && m[id].role == ConnectionRole::Consumer
}

/// The ids a message from `sender` is delivered to: every registered
/// consumer when `sender` is a registered producer, nobody otherwise.
pub open spec fn route_targets<S>(m: Map<u32, ConnectionRecord<S>>, sender: u32) -> Set<u32> {
    if m.contains_key(sender) && m[sender].role == ConnectionRole::Producer {
        Set::new(|id: u32| is_consumer(m, id))
    } else {
        Set::empty()
    }
}

/// Some delivery of `ds` is addressed to `id`.
pub open spec fn delivered_to<S, M>(ds: Seq<Delivery<S, M>>, id: u32) -> bool {
    exists|a: int| 0 <= a < ds.len() && (#[trigger] ds[a]).target == id
}

/// Handles an open event: captures the headers, classifies the path, and on
/// success registers the connection under the transport-assigned id. On an
/// unrecognized path nothing is registered and the caller closes the
/// connection with a protocol-violation status.
pub fn on_open<S>(
    reg: &mut Registry<S>,
    id: u32,
    path: &str,
    raw_headers: &Vec<(String, Vec<u8>)>,
    handle: S,
) -> (r: Admission)
    requires
        !old(reg)@.contains_key(id),
    ensures
        match r {
            Admission::Admitted { role } => {
                &&& classify_spec(path@) == Some(role)
                &&& final(reg)@.contains_key(id)
                &&& final(reg)@ == old(reg)@.insert(id, final(reg)@[id])
                &&& final(reg)@[id].id == id
                &&& final(reg)@[id].role == role
                &&& final(reg)@[id].handle == handle
                &&& decoded_headers(final(reg)@[id].metadata@, raw_headers@)
            },
            Admission::Refused => {
                &&& classify_spec(path@) is None
                &&& final(reg)@ == old(reg)@
            },
        },
{
    match classify_path(path) {
        None => Admission::Refused,
        Some(role) => {
            let metadata = decode_headers(raw_headers);
            let record = ConnectionRecord { id, role, handle, metadata };
            reg.insert(record);
            Admission::Admitted { role }
        },
    }
}

/// Handles a message event: the sender's registry entry decides. An
/// unregistered sender has its message dropped. A registered sender gets
/// back the exact fan-out — a copy of the payload for every registered
/// consumer if it is a producer, no deliveries at all if it is a consumer —
/// together with its recorded user-agent for the diagnostic line.
pub fn on_message<S: Clone, M: Clone>(reg: &Registry<S>, sender_id: u32, payload: M) -> (r:
    MessageOutcome<S, M>)
    ensures
        match r {
            MessageOutcome::SenderUnknown => !reg@.contains_key(sender_id),
            MessageOutcome::Handled { sender_role, user_agent, deliveries } => {
                &&& reg@.contains_key(sender_id)
                &&& sender_role == reg@[sender_id].role
                &&& user_agent@ == header_or_none_spec(reg@[sender_id].metadata@, "User-Agent"@)
                &&& forall|a: int, b: int|
                    0 <= a < b < deliveries@.len() ==> (#[trigger] deliveries@[a]).target != (
                    #[trigger] deliveries@[b]).target
                &&& forall|a: int|
                    0 <= a < deliveries@.len() ==> {
                        &&& route_targets(reg@, sender_id).contains(
                            (#[trigger] deliveries@[a]).target,
                        )
                        &&& cloned(reg@[deliveries@[a].target].handle, deliveries@[a].handle)
                        &&& cloned(payload, deliveries@[a].payload)
                    }
                &&& forall|id: u32|
                    route_targets(reg@, sender_id).contains(id) ==> delivered_to(deliveries@, id)
            },
        },
{
    let rec = match reg.get(sender_id) {
        None => {
            return MessageOutcome::SenderUnknown;
        },
        Some(rec) => rec,
    };
    let user_agent = header_or_none(&rec.metadata, "User-Agent");
    let sender_role = rec.role;
    let mut deliveries: Vec<Delivery<S, M>> = Vec::new();
    if sender_role == ConnectionRole::Producer {
        let mut pairs = reg.collect_role(ConnectionRole::Consumer);
        let ghost pairs0 = pairs@;
        let ghost total = pairs0.len();
        proof {
            assert(pairs0.take(total as int) =~= pairs0);
        }
        while pairs.len() > 0
            invariant
                pairs@ == pairs0.take(pairs@.len() as int),
                deliveries@.len() + pairs@.len() == total,
                total == pairs0.len(),
                forall|a: int|
                    0 <= a < deliveries@.len() ==> {
                        &&& (#[trigger] deliveries@[a]).target == pairs0[total - 1 - a].0
                        &&& deliveries@[a].handle == pairs0[total - 1 - a].1
                        &&& cloned(payload, deliveries@[a].payload)
                    },
            decreases pairs@.len(),
        {
            let ghost len0 = pairs@.len();
            proof {
                assert(pairs0.take(len0 as int).drop_last() =~= pairs0.take(len0 as int - 1));
                assert(pairs0.take(len0 as int).last() == pairs0[len0 as int - 1]);
            }
            let p = pairs.pop().unwrap();
            let copy = payload.clone();
            deliveries.push(Delivery { target: p.0, handle: p.1, payload: copy });
        }
        proof {
            lemma_fan_out_exact(reg@, sender_id, pairs0, deliveries@, payload);
        }
    } else {
        proof {
            assert(route_targets(reg@, sender_id) =~= Set::<u32>::empty());
        }
    }
    MessageOutcome::Handled { sender_role, user_agent, deliveries }
}

/// The deliveries built from a reversed consumer snapshot are exactly the
/// routed fan-out: pairwise-distinct targets, each a registered consumer
/// with a cloned handle, and every registered consumer reached.
proof fn lemma_fan_out_exact<S: Clone, M: Clone>(
    m: Map<u32, ConnectionRecord<S>>,
    sender: u32,
    pairs: Seq<(u32, S)>,
    ds: Seq<Delivery<S, M>>,
    payload: M,
)
    requires
        m.contains_key(sender),
        m[sender].role == ConnectionRole::Producer,
        forall|a: int, b: int|
            0 <= a < b < pairs.len() ==> (#[trigger] pairs[a]).0 != (#[trigger] pairs[b]).0,
        forall|a: int|
            0 <= a < pairs.len() ==> {
                &&& m.contains_key((#[trigger] pairs[a]).0)
                &&& m[pairs[a].0].role == ConnectionRole::Consumer
                &&& cloned(m[pairs[a].0].handle, pairs[a].1)
            },
        forall|id: u32| m.contains_key(id) && (#[trigger] m[id]).role == ConnectionRole::Consumer
            ==> has_target(pairs, id),
        ds.len() == pairs.len(),
        forall|a: int|
            0 <= a < ds.len() ==> {
                &&& (#[trigger] ds[a]).target == pairs[pairs.len() - 1 - a].0
                &&& ds[a].handle == pairs[pairs.len() - 1 - a].1
                &&& cloned(payload, ds[a].payload)
            },
    ensures
        forall|a: int, b: int|
            0 <= a < b < ds.len() ==> (#[trigger] ds[a]).target != (#[trigger] ds[b]).target,
        forall|a: int|
            0 <= a < ds.len() ==> {
                &&& route_targets(m, sender).contains((#[trigger] ds[a]).target)
                &&& cloned(m[ds[a].target].handle, ds[a].handle)
                &&& cloned(payload, ds[a].payload)
            },
        forall|id: u32| route_targets(m, sender).contains(id) ==> delivered_to(ds, id),
{
    let n = pairs.len();
    assert forall|a: int, b: int| 0 <= a < b < ds.len() implies (#[trigger] ds[a]).target != (
    #[trigger] ds[b]).target by {
        assert(ds[a].target == pairs[n - 1 - a].0);
        assert(ds[b].target == pairs[n - 1 - b].0);
    }
    assert forall|a: int|
        0 <= a < ds.len() implies {
            &&& route_targets(m, sender).contains((#[trigger] ds[a]).target)
            &&& cloned(m[ds[a].target].handle, ds[a].handle)
        } by {
        assert(ds[a].target == pairs[n - 1 - a].0);
    }
    assert forall|id: u32| route_targets(m, sender).contains(id) implies delivered_to(ds, id) by {
        assert(is_consumer(m, id));
        let a = choose|a: int| 0 <= a < pairs.len() && (#[trigger] pairs[a]).0 == id;
        assert((ds[n - 1 - a]).target == pairs[a].0);
    }
}

/// Handles a close event: drops the connection's entry. Final for that id;
/// a duplicate close notification finds nothing and changes nothing.
pub fn on_close<S>(reg: &mut Registry<S>, id: u32)
    ensures
        final(reg)@ == old(reg)@.remove(id),
{
    reg.remove(id);
}

} // verus!
