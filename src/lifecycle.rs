use vstd::prelude::*;

use crate::reader::read_effect;
use crate::registry::RegistryModel;

verus! {

/// One change to the registry: a connection is accepted with a write handle
/// (`ConnectionRegistry::register`), or connection `id` is removed
/// (`ConnectionRegistry::deregister`).
pub enum Event<H> {
    Accept(H),
    Close(nat),
}

/// The registry after `events`, applied in order, starting from `m`.
pub open spec fn replay<H>(m: RegistryModel<H>, events: Seq<Event<H>>) -> RegistryModel<H>
    decreases events.len(),
{
    if events.len() == 0 {
        m
    } else {
        let prev = replay(m, events.drop_last());
        match events.last() {
            Event::Accept(h) => prev.accepted(h),
            Event::Close(id) => prev.closed(id),
        }
    }
}

/// The identifiers handed to the accepted connections of `events`, in the
/// order in which they were accepted.
pub open spec fn assigned_ids<H>(m: RegistryModel<H>, events: Seq<Event<H>>) -> Seq<nat>
    decreases events.len(),
{
    if events.len() == 0 {
        Seq::empty()
    } else {
        let prev = assigned_ids(m, events.drop_last());
        match events.last() {
            Event::Accept(_) => prev.push(replay(m, events.drop_last()).next_id),
            Event::Close(_) => prev,
        }
    }
}

proof fn lemma_ids_count_up<H>(m: RegistryModel<H>, events: Seq<Event<H>>)
    ensures
        replay(m, events).next_id == m.next_id + assigned_ids(m, events).len(),
        forall|i: int|
            0 <= i < assigned_ids(m, events).len() ==> #[trigger] assigned_ids(m, events)[i]
                == m.next_id + i,
    decreases events.len(),
{
    if events.len() > 0 {
        lemma_ids_count_up(m, events.drop_last());
    }
}

/// Identifiers are handed out in accept order from 0: after any run of
/// accepts and removals on a fresh registry, the `i`-th accepted connection
/// has identifier `i`, so no identifier is given twice, even after
/// disconnects, and the next one is the number of accepts.
pub proof fn lemma_ids_in_accept_order<H>(events: Seq<Event<H>>)
    ensures
        forall|i: int|
            0 <= i < assigned_ids(RegistryModel::empty(), events).len() ==> #[trigger] assigned_ids(
                RegistryModel::empty(),
                events,
            )[i] == i,
        replay(RegistryModel::<H>::empty(), events).next_id == assigned_ids(
            RegistryModel::empty(),
            events,
        ).len(),
{
    lemma_ids_count_up(RegistryModel::<H>::empty(), events);
}

proof fn lemma_next_id_grows<H>(m: RegistryModel<H>, events: Seq<Event<H>>)
    ensures
        replay(m, events).next_id >= m.next_id,
    decreases events.len(),
{
    if events.len() > 0 {
        lemma_next_id_grows(m, events.drop_last());
    }
}

proof fn lemma_stays_live<H>(m: RegistryModel<H>, c: nat, events: Seq<Event<H>>)
    requires
        m.live.contains_key(c),
        forall|i: int| 0 <= i < events.len() ==> events[i] != Event::<H>::Close(c),
    ensures
        replay(m, events).live.contains_key(c),
    decreases events.len(),
{
    if events.len() > 0 {
        let prefix = events.drop_last();
        assert forall|i: int| 0 <= i < prefix.len() implies prefix[i] != Event::<H>::Close(c) by {
            assert(prefix[i] == events[i]);
        }
        lemma_stays_live(m, c, prefix);
        assert(events.last() == events[events.len() - 1]);
    }
}

/// A registered connection is in every fan-out until it is removed: after
/// connection `m.next_id` is registered with handle `h`, every fan-out of the
/// registry that any later accepts and removals of other connections lead to
/// names it.
pub proof fn lemma_registered_until_removed<H>(
    m: RegistryModel<H>,
    h: H,
    events: Seq<Event<H>>,
    targets: Seq<usize>,
)
    requires
        forall|i: int| 0 <= i < events.len() ==> events[i] != Event::<H>::Close(m.next_id),
        replay(m.accepted(h), events).is_fanout(targets),
    ensures
        exists|i: int| 0 <= i < targets.len() && targets[i] as nat == m.next_id,
{
    lemma_stays_live(m.accepted(h), m.next_id, events);
}

proof fn lemma_stays_out<H>(m: RegistryModel<H>, c: nat, events: Seq<Event<H>>)
    requires
        !m.live.contains_key(c),
        c < m.next_id,
    ensures
        !replay(m, events).live.contains_key(c),
    decreases events.len(),
{
    if events.len() > 0 {
        lemma_stays_out(m, c, events.drop_last());
        lemma_next_id_grows(m, events.drop_last());
    }
}

/// A connection whose peer closed is gone for good: once the reader of a
/// handed-out identifier `c` reads end of stream, `c` is no longer registered,
/// and no fan-out after any later accepts and removals names it.
pub proof fn lemma_closed_stays_out<H>(
    m: RegistryModel<H>,
    c: nat,
    events: Seq<Event<H>>,
    targets: Seq<usize>,
)
    requires
        c < m.next_id,
        replay(read_effect(m, c, Some(0usize)), events).is_fanout(targets),
    ensures
        !read_effect(m, c, Some(0usize)).live.contains_key(c),
        forall|i: int| 0 <= i < targets.len() ==> targets[i] as nat != c,
{
    lemma_stays_out(read_effect(m, c, Some(0usize)), c, events);
}

/// A fan-out writes to each registered connection exactly once, whatever
/// state its peer is in: no connection is skipped and none is written twice.
pub proof fn lemma_fanout_once_each<H>(m: RegistryModel<H>, targets: Seq<usize>, k: nat)
    requires
        m.is_fanout(targets),
        m.live.contains_key(k),
    ensures
        exists|i: int| 0 <= i < targets.len() && targets[i] as nat == k,
        forall|i: int, j: int|
            0 <= i < targets.len() && 0 <= j < targets.len() && targets[i] as nat == k
                && targets[j] as nat == k ==> i == j,
{
    assert forall|i: int, j: int|
        0 <= i < targets.len() && 0 <= j < targets.len() && targets[i] as nat == k && targets[j]
            as nat == k implies i == j by {
        if i < j {
            assert(targets[i] < targets[j]);
        } else if j < i {
            assert(targets[j] < targets[i]);
        }
    }
}

/// What one connection sends touches no other connection: whatever a read by
/// the reader of `id` returned, the entry of every other connection is as it
/// was, and so is the next identifier.
pub proof fn lemma_read_touches_own_entry<H>(
    m: RegistryModel<H>,
    id: nat,
    bytes_read: Option<usize>,
    other: nat,
)
    requires
        other != id,
    ensures
        read_effect(m, id, bytes_read).next_id == m.next_id,
        read_effect(m, id, bytes_read).live.contains_key(other) == m.live.contains_key(other),
        m.live.contains_key(other) ==> read_effect(m, id, bytes_read).live[other] == m.live[other],
{
}

} // verus!
