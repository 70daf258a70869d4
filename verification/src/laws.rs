//! The relay's guarantees, stated once over the registry view and the
//! routing function and proved for every registry state.

use vstd::prelude::*;

verus! {

use crate::registry::{ConnectionRecord, ConnectionRole};
use crate::relay::{classify_spec, is_consumer, route_targets};

/// Path `/user` admits a producer, and a registered producer's broadcast is
/// routed to every registered consumer and to no producer — the sender
/// included.
pub proof fn producer_reaches_all_consumers<S>(m: Map<u32, ConnectionRecord<S>>, sender: u32)
    requires
        m.contains_key(sender),
        m[sender].role == ConnectionRole::Producer,
    ensures
        classify_spec("/user"@) == Some(ConnectionRole::Producer),
        forall|id: u32| route_targets(m, sender).contains(id) <==> is_consumer(m, id),
        forall|id: u32|
            m.contains_key(id) && (#[trigger] m[id]).role == ConnectionRole::Producer
                ==> !route_targets(m, sender).contains(id),
        !route_targets(m, sender).contains(sender),
{
}

/// Path `/client` admits a consumer, and a registered consumer's message,
/// though accepted, is routed to nobody.
pub proof fn consumer_never_forwarded<S>(m: Map<u32, ConnectionRecord<S>>, sender: u32)
    requires
        m.contains_key(sender),
        m[sender].role == ConnectionRole::Consumer,
    ensures
        classify_spec("/client"@) == Some(ConnectionRole::Consumer),
        route_targets(m, sender) == Set::<u32>::empty(),
{
    reveal_strlit("/user");
    reveal_strlit("/client");
    assert(("/client"@).len() != ("/user"@).len());
    assert(route_targets(m, sender) =~= Set::<u32>::empty());
}

/// A path other than `/user` and `/client` is not classified, so such a
/// connection is refused and stays out of the registry; and an id that is
/// not registered neither originates a delivery nor receives one.
pub proof fn unregistered_id_is_silent<S>(m: Map<u32, ConnectionRecord<S>>, id: u32)
    requires
        !m.contains_key(id),
    ensures
        route_targets(m, id) == Set::<u32>::empty(),
        forall|sender: u32| !(#[trigger] route_targets(m, sender)).contains(id),
{
    assert(route_targets(m, id) =~= Set::<u32>::empty());
    assert forall|sender: u32| !(#[trigger] route_targets(m, sender)).contains(id) by {
        if m.contains_key(sender) && m[sender].role == ConnectionRole::Producer {
            assert(!is_consumer(m, id));
        }
    }
}

/// Admission makes membership: right after an insert, the inserted id is
/// registered and looks up to the very record inserted, unchanged.
pub proof fn admitted_then_found<S>(m: Map<u32, ConnectionRecord<S>>, rec: ConnectionRecord<S>)
    ensures
        m.insert(rec.id, rec).contains_key(rec.id),
        m.insert(rec.id, rec)[rec.id] == rec,
{
}

/// Closure ends membership: right after a removal, the id is no longer
/// registered, and no other entry moved.
pub proof fn closed_then_absent<S>(m: Map<u32, ConnectionRecord<S>>, id: u32)
    ensures
        !m.remove(id).contains_key(id),
        forall|other: u32|
            other != id && m.contains_key(other) ==> m.remove(id).contains_key(other) && m.remove(
                id,
            )[other] == m[other],
{
}

/// Close handling is idempotent: removing the same id twice leaves the very
/// registry state that removing it once leaves.
pub proof fn close_idempotent<S>(m: Map<u32, ConnectionRecord<S>>, id: u32)
    ensures
        m.remove(id).remove(id) == m.remove(id),
{
    assert(m.remove(id).remove(id) =~= m.remove(id));
}

} // verus!
