//! What a subscription's global progress tells of its read model.

use vstd::prelude::*;

use super::{SubscriptionError, SubscriptionLoop};
use crate::{
    projection::{EventHandler, Filters, ProjectionFilters},
    repository::inmemory::SnapshotState,
    snapshot,
    store::{
        inmemory::{InMemoryError, InMemoryEvent, Store},
        EventFilter, Selector, StreamId,
    },
};

verus! {

/// Picks the events up to `last`.
pub open spec fn up_to<Id, Meta>(last: Option<u64>) -> spec_fn(InMemoryEvent<Id, Meta>) -> bool {
    |event: InMemoryEvent<Id, Meta>| super::already_seen(last, event.position)
}

/// What a subscription at `last` has taken of the events that `filters` select, oldest
/// first.
pub open spec fn seen<Id: StreamId, Meta>(
    log: Seq<InMemoryEvent<Id, Meta>>,
    filters: Seq<Selector<Id::Key, u64>>,
    last: Option<u64>,
) -> Seq<InMemoryEvent<Id, Meta>> {
    crate::store::inmemory::matching(log, filters).filter(up_to(last))
}

/// Whether a subscription mirrors a log: its read model is what `initial` becomes by
/// the events that it has taken, and its global progress tells no more than that.
pub open spec fn mirrors<Id, Meta, E, P, H>(
    log: Seq<InMemoryEvent<Id, Meta>>,
    filters: Seq<Selector<Id::Key, u64>>,
    initial: P,
    running: SubscriptionLoop<Store<Id, Meta, E>, P, H>,
) -> bool where Id: StreamId, Meta: Clone, H: EventHandler<P, Store<Id, Meta, E>> {
    &&& super::inmemory::reflects(log, filters, running.last_checkpoint, running.observed)
    &&& running.last_checkpoint matches Some(last) ==> last < log.len()
    &&& exists|events: Seq<InMemoryEvent<Id, Meta>>|
        {
            &&& #[trigger] crate::store::inmemory::copies_of(
                seen(log, filters, running.last_checkpoint),
                events,
            )
            &&& crate::repository::projects_all::<P, Store<Id, Meta, E>, H>(
                running.handlers,
                initial,
                events,
                running.projection,
            )
        }
}

/// Events in order are those up to a cursor, and then those past it.
proof fn lemma_split_at<Id: StreamId, Meta>(
    found: Seq<InMemoryEvent<Id, Meta>>,
    cursor: Option<u64>,
) -> (k: int)
    requires
        crate::store::inmemory::ascending(found),
    ensures
        0 <= k <= found.len(),
        found.filter(up_to(cursor)) == found.take(k),
        found.filter(crate::store::inmemory::past(cursor)) == found.skip(k),
        forall|i: int|
            0 <= i < found.len() ==> (super::already_seen(cursor, (#[trigger] found[i]).position)
                <==> i < k),
    decreases found.len(),
{
    let early = up_to::<Id, Meta>(cursor);
    let late = crate::store::inmemory::past::<Id, Meta>(cursor);
    reveal(Seq::filter);
    if found.len() == 0 {
        assert(found.filter(early) == found.take(0));
        assert(found.filter(late) == found.skip(0));
        0
    } else {
        let init = found.drop_last();
        let k = lemma_split_at(init, cursor);
        assert forall|i: int| 0 <= i < init.len() implies (super::already_seen(
            cursor,
            (#[trigger] found[i]).position,
        ) <==> i < k) by {
            assert(init[i] == found[i]);
        }
        if early(found.last()) {
            if k < init.len() {
                assert(found[k].position < found[found.len() - 1].position);
                assert(!super::already_seen(cursor, found[k].position));
            }
            assert(init.take(k).push(found.last()) == found.take(found.len() as int));
            assert(found.filter(late) == found.skip(found.len() as int));
            found.len() as int
        } else {
            assert(found.filter(early) == found.take(k));
            assert(init.skip(k).push(found.last()) == found.skip(k));
            k
        }
    }
}

/// What was taken before, and the first of what was not, is what was taken after.
proof fn lemma_seen_grows<Id: StreamId, Meta>(
    log: Seq<InMemoryEvent<Id, Meta>>,
    filters: Seq<Selector<Id::Key, u64>>,
    last: Option<u64>,
    n: int,
)
    requires
        crate::store::inmemory::positioned(log),
        0 <= n <= crate::store::inmemory::unseen(log, filters, last).len(),
    ensures
        ({
            let fresh = crate::store::inmemory::unseen(log, filters, last);
            let moved = crate::store::inmemory::moved_past(last, fresh.take(n));
            seen(log, filters, moved) == seen(log, filters, last) + fresh.take(n)
        }),
{
    let found = crate::store::inmemory::matching(log, filters);
    let fresh = crate::store::inmemory::unseen(log, filters, last);
    let moved = crate::store::inmemory::moved_past(last, fresh.take(n));
    crate::store::inmemory::lemma_filter_ascending(
        log,
        crate::store::inmemory::accepted_by(filters),
    );
    let k = lemma_split_at(found, last);
    let m = lemma_split_at(found, moved);
    if n > 0 {
        assert(fresh.take(n).last() == found[k + n - 1]);
        assert(super::already_seen(moved, found[k + n - 1].position));
        if k + n < found.len() {
            assert(found[k + n - 1].position < found[k + n].position);
            assert(!super::already_seen(moved, found[k + n].position));
        }
        assert(m == k + n);
    }
    assert(found.take(k) + found.skip(k).take(n) == found.take(k + n));
}

/// A subscription that mirrors the log goes on mirroring it by taking what is there,
/// even where a handler refuses an event.
pub proof fn pumping_keeps_mirroring<Id, Meta, E, P, H, Inst, F>(
    log: Seq<InMemoryEvent<Id, Meta>>,
    filters: Seq<Selector<Id::Key, u64>>,
    initial: P,
    before: SubscriptionLoop<Store<Id, Meta, E>, P, H>,
    after: SubscriptionLoop<Store<Id, Meta, E>, P, H>,
    held: snapshot::inmemory::Store<Inst, u64, F>,
    kept: snapshot::inmemory::Store<Inst, u64, F>,
    key: (Seq<char>, Inst::Key),
    r: Result<bool, SubscriptionError<InMemoryError<E>>>,
) where
    Id: StreamId,
    Meta: Clone,
    H: EventHandler<P, Store<Id, Meta, E>>,
    P: SnapshotState<F>,
    Inst: StreamId,

    requires
        crate::store::inmemory::positioned(log),
        log.len() <= u64::MAX,
        mirrors(log, filters, initial, before),
        super::inmemory::pumped::<Id, Meta, E, P, H, Inst, F>(
            before,
            crate::store::inmemory::unseen(log, filters, before.last_checkpoint),
            crate::store::inmemory::latest(log),
            after,
            held,
            kept,
            key,
            r,
        ),
    ensures
        mirrors(log, filters, initial, after),
{
    let fresh = crate::store::inmemory::unseen(log, filters, before.last_checkpoint);
    let (copies, states, n) = choose|
        copies: Seq<InMemoryEvent<Id, Meta>>,
        states: Seq<P>,
        n: int,
    |
        {
            &&& crate::store::inmemory::copies_of(fresh, copies)
            &&& 0 <= n <= fresh.len()
            &&& #[trigger] super::inmemory::took::<Id, Meta, E, P, H>(
                before,
                fresh,
                copies.take(n),
                states,
                after,
            )
            &&& match r {
                Ok(_) => n == fresh.len() && after.observed == crate::order::furthest(
                    before.observed,
                    crate::store::inmemory::latest(log),
                ),
                Err(_) => after.observed == crate::order::furthest(
                    before.observed,
                    crate::store::inmemory::newest(fresh.take(n)),
                ),
            }
        };
    super::inmemory::lemma_still_reflects(
        log,
        filters,
        before.last_checkpoint,
        before.observed,
        n,
        after.observed,
    );
    super::inmemory::lemma_unseen(log, filters, before.last_checkpoint);
    if n > 0 {
        assert(fresh.take(n).last() == fresh[n - 1]);
    }
    lemma_seen_grows(log, filters, before.last_checkpoint, n);
    let old = seen(log, filters, before.last_checkpoint);
    let first = choose|events: Seq<InMemoryEvent<Id, Meta>>|
        {
            &&& #[trigger] crate::store::inmemory::copies_of(old, events)
            &&& crate::repository::projects_all::<P, Store<Id, Meta, E>, H>(
                before.handlers,
                initial,
                events,
                before.projection,
            )
        };
    let second = copies.take(n);
    crate::repository::projection_laws::lemma_copies_add(old, first, fresh.take(n), second);
    assert(crate::repository::projects_all::<P, Store<Id, Meta, E>, H>(
        before.handlers,
        before.projection,
        second,
        after.projection,
    ));
    crate::repository::projecting_composes::<P, Store<Id, Meta, E>, H>(
        before.handlers,
        initial,
        first,
        second,
        after.projection,
    );
}

/// Commits do not undo that a subscription mirrors the log: what it has not taken yet
/// lies past its global progress.
pub proof fn commits_keep_mirroring<Id, Meta, E, P, H>(
    before: Seq<InMemoryEvent<Id, Meta>>,
    after: Seq<InMemoryEvent<Id, Meta>>,
    filters: Seq<Selector<Id::Key, u64>>,
    initial: P,
    running: SubscriptionLoop<Store<Id, Meta, E>, P, H>,
) where Id: StreamId, Meta: Clone, H: EventHandler<P, Store<Id, Meta, E>>
    requires
        crate::store::inmemory::positioned(after),
        before.len() <= after.len(),
        before == after.take(before.len() as int),
        mirrors(before, filters, initial, running),
    ensures
        mirrors(after, filters, initial, running),
{
    let pred = crate::store::inmemory::accepted_by::<Id, Meta>(filters);
    let last = running.last_checkpoint;
    let early = up_to::<Id, Meta>(last);
    let tail = after.skip(before.len() as int);
    assert(after == before + tail);
    Seq::filter_distributes_over_add(before, tail, pred);
    let old_found = before.filter(pred);
    let new_found = tail.filter(pred);
    Seq::filter_distributes_over_add(old_found, new_found, early);
    assert forall|i: int| 0 <= i < new_found.len() implies !early(#[trigger] new_found[i]) by {
        assert(new_found.contains(new_found[i]));
        tail.lemma_filter_contains_rev(pred, new_found[i]);
        let k = choose|k: int| 0 <= k < tail.len() && tail[k] == new_found[i];
        assert(tail[k] == after[before.len() + k]);
    }
    new_found.lemma_all_neg_filter_empty(early);
    assert(seen(after, filters, last) == seen(before, filters, last));
    assert forall|p: int|
        {
            &&& 0 <= p < after.len()
            &&& pred(#[trigger] after[p])
            &&& crate::order::cursor_at_least(running.observed, Some(p as u64))
        } implies super::already_seen(last, p as u64) by {
        if p < before.len() {
            assert(before[p] == after[p]);
        } else {
            assert(after[p].position == p);
        }
    }
}

/// Who takes all that was not seen yet has taken every matching event.
proof fn lemma_all_seen<Id: StreamId, Meta>(
    log: Seq<InMemoryEvent<Id, Meta>>,
    filters: Seq<Selector<Id::Key, u64>>,
    from: Option<u64>,
)
    requires
        crate::store::inmemory::positioned(log),
    ensures
        seen(
            log,
            filters,
            crate::store::inmemory::moved_past(
                from,
                crate::store::inmemory::unseen(log, filters, from),
            ),
        ) == crate::store::inmemory::matching(log, filters),
{
    let found = crate::store::inmemory::matching(log, filters);
    let fresh = crate::store::inmemory::unseen(log, filters, from);
    assert(fresh.take(fresh.len() as int) == fresh);
    lemma_seen_grows(log, filters, from, fresh.len() as int);
    crate::store::inmemory::lemma_filter_ascending(
        log,
        crate::store::inmemory::accepted_by(filters),
    );
    let k = lemma_split_at(found, from);
    assert(found.take(k) + found.skip(k) == found);
}

/// A subscription that is started from a sound snapshot, or from none, mirrors the log.
pub proof fn starting_mirrors<P, Id, Meta, E>(
    log: Seq<InMemoryEvent<Id, Meta>>,
    filters: Filters<Store<Id, Meta, E>, P, P::Handler>,
    initial: P,
    base: Option<(P, u64)>,
    running: SubscriptionLoop<Store<Id, Meta, E>, P, P::Handler>,
    event_filters: Vec<EventFilter<Id, u64>>,
) where P: ProjectionFilters<Store<Id, Meta, E>>, Id: StreamId, Meta: Clone
    requires
        crate::store::inmemory::positioned(log),
        log.len() <= u64::MAX,
        crate::repository::projection_laws::projection_sound::<P, Id, Meta, E>(
            log,
            filters,
            initial,
            base,
        ),
        super::inmemory::started::<P, Id, Meta, E>(
            log,
            filters,
            match base {
                Some((state, _)) => state,
                None => initial,
            },
            crate::repository::inmemory::base_position(base),
            Ok((running, event_filters)),
        ),
    ensures
        mirrors(log, crate::store::selectors(event_filters@), initial, running),
{
    let specs = crate::store::selectors(filters.specs@);
    let every = crate::repository::inmemory::positioned_selectors(specs, None);
    let from = crate::repository::inmemory::base_position(base);
    let fresh = crate::store::inmemory::unseen(log, every, from);
    super::inmemory::unseen_is_what_comes_after(log, specs, from);
    assert(fresh.take(fresh.len() as int) == fresh);
    super::inmemory::lemma_still_reflects(
        log,
        every,
        from,
        from,
        fresh.len() as int,
        running.observed,
    );
    super::inmemory::lemma_unseen(log, every, from);
    lemma_all_seen(log, every, from);
    super::laws::starting_gives_the_projection::<P, Id, Meta, E>(
        log,
        filters,
        initial,
        base,
        running,
        event_filters,
    );
}

/// Reading one's own writes: once a subscription has reached a token, its read model is
/// built from events that include every matching one that was committed up to the
/// token.
pub proof fn reached_tokens_are_reflected<Id, Meta, E, P, H>(
    log: Seq<InMemoryEvent<Id, Meta>>,
    filters: Seq<Selector<Id::Key, u64>>,
    initial: P,
    running: SubscriptionLoop<Store<Id, Meta, E>, P, H>,
    token: super::ConsistencyToken<u64>,
) where Id: StreamId, Meta: Clone, H: EventHandler<P, Store<Id, Meta, E>>
    requires
        crate::store::inmemory::positioned(log),
        mirrors(log, filters, initial, running),
        token.reached_by(running.observed),
    ensures
        token.spec_checkpoint() < log.len(),
        forall|p: int|
            {
                &&& 0 <= p <= token.spec_checkpoint()
                &&& crate::store::inmemory::accepted_by::<Id, Meta>(filters)(#[trigger] log[p])
            } ==> seen(log, filters, running.last_checkpoint).contains(log[p]),
        exists|events: Seq<InMemoryEvent<Id, Meta>>|
            {
                &&& #[trigger] crate::store::inmemory::copies_of(
                    seen(log, filters, running.last_checkpoint),
                    events,
                )
                &&& crate::repository::projects_all::<P, Store<Id, Meta, E>, H>(
                    running.handlers,
                    initial,
                    events,
                    running.projection,
                )
            },
{
    let pred = crate::store::inmemory::accepted_by::<Id, Meta>(filters);
    let found = crate::store::inmemory::matching(log, filters);
    let early = up_to::<Id, Meta>(running.last_checkpoint);
    assert forall|p: int|
        0 <= p <= token.spec_checkpoint() && pred(#[trigger] log[p]) implies seen(
        log,
        filters,
        running.last_checkpoint,
    ).contains(log[p]) by {
        assert(log[p].position == p);
        assert(super::already_seen(running.last_checkpoint, p as u64));
        log.lemma_filter_contains(pred, p);
        let k = choose|k: int| 0 <= k < found.len() && found[k] == log[p];
        found.lemma_filter_contains(early, k);
    }
}

/// What waiting for a token tells of a subscription that mirrors the log. Success is
/// owed at once where the token is reached, and then the read model is built from events
/// that include every matching one up to the token. Failure comes exactly where the
/// subscription stopped before it reached the token.
pub proof fn waiting_reads_ones_writes<Id, Meta, E, P, H>(
    log: Seq<InMemoryEvent<Id, Meta>>,
    filters: Seq<Selector<Id::Key, u64>>,
    initial: P,
    current: SubscriptionLoop<Store<Id, Meta, E>, P, H>,
    token: super::ConsistencyToken<u64>,
    running: bool,
) where Id: StreamId, Meta: Clone, H: EventHandler<P, Store<Id, Meta, E>>
    requires
        crate::store::inmemory::positioned(log),
        mirrors(log, filters, initial, current),
    ensures
        token.awaits(current.observed, running) matches Some(Ok(_)) <==> (
        current.observed matches Some(processed) && processed >= token.spec_checkpoint()),
        token.awaits(current.observed, running) matches Some(Err(_)) <==> !running
            && !token.reached_by(current.observed),
        token.awaits(current.observed, running) matches Some(Ok(_)) ==> exists|
            events: Seq<InMemoryEvent<Id, Meta>>,
        |
            {
                &&& #[trigger] crate::store::inmemory::copies_of(
                    seen(log, filters, current.last_checkpoint),
                    events,
                )
                &&& crate::repository::projects_all::<P, Store<Id, Meta, E>, H>(
                    current.handlers,
                    initial,
                    events,
                    current.projection,
                )
                &&& forall|p: int|
                    {
                        &&& 0 <= p <= token.spec_checkpoint()
                        &&& crate::store::inmemory::accepted_by::<Id, Meta>(filters)(
                            #[trigger] log[p],
                        )
                    } ==> seen(log, filters, current.last_checkpoint).contains(log[p])
            },
{
    if token.reached_by(current.observed) {
        reached_tokens_are_reflected(log, filters, initial, current, token);
    }
}

/// A subscription that has taken everything has reached every token of what was
/// committed, matching or not: no one waits for good.
pub proof fn committed_tokens_are_reached<Id, Meta, E, P, H, Inst, F>(
    log: Seq<InMemoryEvent<Id, Meta>>,
    filters: Seq<Selector<Id::Key, u64>>,
    before: SubscriptionLoop<Store<Id, Meta, E>, P, H>,
    after: SubscriptionLoop<Store<Id, Meta, E>, P, H>,
    held: snapshot::inmemory::Store<Inst, u64, F>,
    kept: snapshot::inmemory::Store<Inst, u64, F>,
    key: (Seq<char>, Inst::Key),
    ready: bool,
    token: super::ConsistencyToken<u64>,
) where
    Id: StreamId,
    Meta: Clone,
    H: EventHandler<P, Store<Id, Meta, E>>,
    P: SnapshotState<F>,
    Inst: StreamId,

    requires
        log.len() <= u64::MAX,
        super::inmemory::pumped::<Id, Meta, E, P, H, Inst, F>(
            before,
            crate::store::inmemory::unseen(log, filters, before.last_checkpoint),
            crate::store::inmemory::latest(log),
            after,
            held,
            kept,
            key,
            Ok(ready),
        ),
        token.spec_checkpoint() < log.len(),
    ensures
        token.reached_by(after.observed),
{
}

} // verus!
