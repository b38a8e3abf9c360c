//! Why text never reaches the coordinator from an unknown address.
//!
//! Events of different connections interleave freely on their way to the
//! coordinator, but those of one connection keep the order in which its
//! worker emitted them. This module shows that this is enough: when every
//! connection's events are well ordered, each address is registered at the
//! moment a text of its connection arrives.

use crate::server::{after_event, lemma_names_stay_unique, names_unique, Event, Session};
use crate::worker::well_ordered;
use vstd::prelude::*;

verus! {

/// The events of the connection at `addr` in a log of tagged events, in
/// the order of the log.
pub open spec fn events_of(log: Seq<(u64, Event)>, addr: u64) -> Seq<Event>
    decreases log.len(),
{
    if log.len() == 0 {
        Seq::empty()
    } else {
        let rest = events_of(log.drop_last(), addr);
        if log.last().0 == addr {
            rest.push(log.last().1)
        } else {
            rest
        }
    }
}

/// The registry after the coordinator has handled a log of tagged events,
/// one by one.
pub open spec fn registry_after(registry: Map<u64, Session>, log: Seq<(u64, Event)>) -> Map<
    u64,
    Session,
>
    decreases log.len(),
{
    if log.len() == 0 {
        registry
    } else {
        after_event(registry_after(registry, log.drop_last()), log.last().0, log.last().1)
    }
}

/// A connection is live after these events when it has reported itself
/// and has not ended.
pub open spec fn live(events: Seq<Event>) -> bool {
    events.len() > 0 && !(events.last() is Disconnected)
}

proof fn lemma_events_of_prefix(log: Seq<(u64, Event)>, n: int, addr: u64)
    requires
        0 <= n <= log.len(),
    ensures
        events_of(log.take(n), addr).len() <= events_of(log, addr).len(),
        events_of(log.take(n), addr) == events_of(log, addr).take(
            events_of(log.take(n), addr).len() as int,
        ),
    decreases log.len() - n,
{
    let whole = events_of(log, addr);
    if n == log.len() {
        assert(log.take(n) =~= log);
        assert(whole.take(whole.len() as int) =~= whole);
    } else {
        let front = log.drop_last();
        assert(front.take(n) =~= log.take(n));
        lemma_events_of_prefix(front, n, addr);
        let part = events_of(log.take(n), addr);
        assert(events_of(front, addr).take(part.len() as int) =~= whole.take(part.len() as int));
    }
}

proof fn lemma_well_ordered_prefix(events: Seq<Event>, n: int)
    requires
        well_ordered(events),
        0 <= n <= events.len(),
    ensures
        well_ordered(events.take(n)),
        n >= 1 && events[n - 1] is Text ==> live(events.take(n - 1)),
        n >= 1 && events[n - 1] is Connected ==> n == 1,
{
    let part = events.take(n);
    let tail = events.drop_first();
    if n > 0 {
        assert(part[0] == events[0]);
        assert forall|i: int| 0 <= i < part.drop_first().len() implies (
        #[trigger] part.drop_first()[i]) is Text || (part.drop_first()[i] is Disconnected && i
            == part.drop_first().len() - 1) by {
            assert(part.drop_first()[i] == tail[i]);
        }
        if n >= 2 {
            assert(events[n - 1] == tail[n - 2]);
            assert(events.take(n - 1).last() == events[n - 2]);
            if n >= 3 {
                assert(events[n - 2] == tail[n - 3]);
            }
        }
    }
}

/// While the events of every connection are well ordered, an address is
/// registered exactly as long as its connection is live.
pub proof fn lemma_registered_iff_live(log: Seq<(u64, Event)>, addr: u64)
    requires
        forall|a: u64| well_ordered(#[trigger] events_of(log, a)),
    ensures
        registry_after(Map::empty(), log).contains_key(addr) <==> live(events_of(log, addr)),
    decreases log.len(),
{
    if log.len() > 0 {
        let front = log.drop_last();
        let (at, event) = log.last();
        assert(front =~= log.take(log.len() - 1));
        assert forall|a: u64| well_ordered(#[trigger] events_of(front, a)) by {
            lemma_events_of_prefix(log, log.len() - 1, a);
            lemma_well_ordered_prefix(events_of(log, a), events_of(front, a).len() as int);
        }
        lemma_registered_iff_live(front, addr);
        lemma_registered_iff_live(front, at);
        let before = registry_after(Map::empty(), front);
        let mine = events_of(log, at);
        assert(mine == events_of(front, at).push(event));
        assert(mine.take(mine.len() - 1) =~= events_of(front, at));
        lemma_well_ordered_prefix(mine, mine.len() as int);
        assert(event is Text ==> before.contains_key(at));
    }
}

/// No text arrives from an address that is not registered: whenever the
/// events of each connection reach the coordinator well ordered, however
/// the connections interleave, the sender of every text is registered when
/// its text is handled.
pub proof fn lemma_text_comes_from_registered(log: Seq<(u64, Event)>, i: int)
    requires
        forall|a: u64| well_ordered(#[trigger] events_of(log, a)),
        0 <= i < log.len(),
        log[i].1 is Text,
    ensures
        registry_after(Map::empty(), log.take(i)).contains_key(log[i].0),
{
    let (at, event) = log[i];
    let upto = log.take(i + 1);
    let front = log.take(i);
    assert(upto.drop_last() =~= front);
    assert(upto.last() == log[i]);
    assert forall|a: u64| well_ordered(#[trigger] events_of(front, a)) by {
        lemma_events_of_prefix(log, i, a);
        lemma_well_ordered_prefix(events_of(log, a), events_of(front, a).len() as int);
    }
    lemma_registered_iff_live(front, at);
    lemma_events_of_prefix(log, i + 1, at);
    let mine = events_of(upto, at);
    assert(mine == events_of(front, at).push(event));
    assert(mine.take(mine.len() - 1) =~= events_of(front, at));
    lemma_well_ordered_prefix(events_of(log, at), mine.len() as int);
    assert(events_of(log, at).take(mine.len() as int) == mine);
    lemma_well_ordered_prefix(mine, mine.len() as int);
}

/// Starting from an empty registry, no two sessions ever hold the same
/// name, whatever well-ordered events the connections send.
pub proof fn lemma_names_always_unique(log: Seq<(u64, Event)>)
    requires
        forall|a: u64| well_ordered(#[trigger] events_of(log, a)),
    ensures
        names_unique(registry_after(Map::empty(), log)),
    decreases log.len(),
{
    if log.len() > 0 {
        let front = log.drop_last();
        let last = log.len() - 1;
        assert(front =~= log.take(last));
        assert forall|a: u64| well_ordered(#[trigger] events_of(front, a)) by {
            lemma_events_of_prefix(log, last, a);
            lemma_well_ordered_prefix(events_of(log, a), events_of(front, a).len() as int);
        }
        lemma_names_always_unique(front);
        if log[last].1 is Text {
            lemma_text_comes_from_registered(log, last);
        }
        lemma_names_stay_unique(registry_after(Map::empty(), front), log[last].0, log[last].1);
    }
}

} // verus!
