//! Subscriptions to the in-memory store.

use std::convert::Infallible;

use serde_json::Value;
use vstd::prelude::*;

use super::{
    load_snapshot, was_stored, Delivery, Progress, SnapshotDue, SubscriptionError, SubscriptionLoop,
};
use crate::{
    projection::{EventHandler, Filters, Projection, ProjectionError, ProjectionFilters},
    repository::{
        inmemory::{SnapshotPolicy, SnapshotState},
        Snapshots,
    },
    snapshot::{self, Snapshot},
    store::{
        inmemory::{InMemoryError, InMemoryEvent, Store},
        EventFilter, Selector, StreamId,
    },
};

verus! {

/// Whether `events`, copies of the first of `fresh`, took a subscription from
/// `before` to `after`, with `states` for its read model along the way.
pub open spec fn took<Id, Meta, E, P, H>(
    before: SubscriptionLoop<Store<Id, Meta, E>, P, H>,
    fresh: Seq<InMemoryEvent<Id, Meta>>,
    events: Seq<InMemoryEvent<Id, Meta>>,
    states: Seq<P>,
    after: SubscriptionLoop<Store<Id, Meta, E>, P, H>,
) -> bool where Id: StreamId, Meta: Clone, H: EventHandler<P, Store<Id, Meta, E>> {
    &&& events.len() <= fresh.len()
    &&& crate::store::inmemory::copies_of(fresh.take(events.len() as int), events)
    &&& crate::repository::is_run::<P, Store<Id, Meta, E>, H>(before.handlers, states, events)
    &&& states.first() == before.projection
    &&& states.last() == after.projection
    &&& after.handlers == before.handlers
    &&& after.catchup_target == before.catchup_target
    &&& after.last_checkpoint == crate::store::inmemory::moved_past(
        before.last_checkpoint,
        fresh.take(events.len() as int),
    )
    &&& after.caught_up == (before.caught_up || (events.len() > 0
        && crate::order::cursor_at_least(after.last_checkpoint, before.catchup_target)))
}

/// Whether offering a snapshot of a subscription takes it from `before` to `after`,
/// and the snapshots from `held` to `kept`.
///
/// Nothing is offered while no events are pending. Only a stored snapshot starts the
/// count of events anew; one that could not be serialised is as good as declined.
pub open spec fn maintained<S, P, H, Inst, F>(
    before: SubscriptionLoop<S, P, H>,
    after: SubscriptionLoop<S, P, H>,
    held: snapshot::inmemory::Store<Inst, u64, F>,
    kept: snapshot::inmemory::Store<Inst, u64, F>,
    key: (Seq<char>, Inst::Key),
) -> bool where
    S: super::SubscribableStore<Checkpoint = u64>,
    P: SnapshotState<F>,
    Inst: StreamId,
 {
    let stored = {
        &&& before.events_since_snapshot > 0
        &&& before.last_checkpoint is Some
        &&& held.spec_policy().due(before.events_since_snapshot)
        &&& before.projection.frozen() is Some
        &&& !crate::snapshot::inmemory::outdated(held@, key, before.last_checkpoint->0)
    };
    &&& kept.spec_policy() == held.spec_policy()
    &&& kept@ == if stored {
        held@.insert(
            key,
            (Snapshot {
                position: before.last_checkpoint->0,
                data: before.projection.frozen()->0,
            }),
        )
    } else {
        held@
    }
    &&& after == (SubscriptionLoop {
        events_since_snapshot: if stored {
            0
        } else {
            before.events_since_snapshot
        },
        ..before
    })
}

/// What the snapshots held come to, and how many events are pending since the last
/// one, once a subscription has taken `events` with `states` along the way: after each
/// event its read model is offered.
///
/// An offer is stored if the policy says that it is due, the read model can be
/// serialised, and no snapshot as recent is held.
pub open spec fn offers_along<P, F, Id, Meta, Key>(
    policy: snapshot::inmemory::SnapshotPolicy,
    key: Key,
    held: Map<Key, Snapshot<u64, Value>>,
    pending: int,
    states: Seq<P>,
    events: Seq<InMemoryEvent<Id, Meta>>,
) -> (Map<Key, Snapshot<u64, Value>>, int) where P: SnapshotState<F>
    decreases events.len(),
{
    if events.len() == 0 {
        (held, pending)
    } else {
        let (kept, waiting) = offers_along::<P, F, Id, Meta, Key>(
            policy,
            key,
            held,
            pending,
            states.drop_last(),
            events.drop_last(),
        );
        let position = events.last().position;
        if policy.due((waiting + 1) as u64) && states.last().frozen() is Some
            && !crate::snapshot::inmemory::outdated(kept, key, position) {
            (kept.insert(key, (Snapshot { position, data: states.last().frozen()->0 })), 0)
        } else {
            (kept, waiting + 1)
        }
    }
}

/// Offers along the way replace no snapshot but one's own, and that by what the read
/// model was after one of the events.
pub proof fn lemma_offers_along<P, F, Id, Meta, Key>(
    policy: snapshot::inmemory::SnapshotPolicy,
    key: Key,
    held: Map<Key, Snapshot<u64, Value>>,
    pending: int,
    states: Seq<P>,
    events: Seq<InMemoryEvent<Id, Meta>>,
) where P: SnapshotState<F>
    requires
        states.len() == events.len() + 1,
    ensures
        ({
            let kept = offers_along::<P, F, Id, Meta, Key>(
                policy,
                key,
                held,
                pending,
                states,
                events,
            ).0;
            kept == held || exists|m: int|
                {
                    &&& 0 < m <= events.len()
                    &&& kept == held.insert(key, kept[key])
                    &&& kept[key].position == events[m - 1].position
                    &&& (#[trigger] states[m]).frozen() == Some(kept[key].data)
                }
        }),
    decreases events.len(),
{
    if events.len() > 0 {
        let (before, _) = offers_along::<P, F, Id, Meta, Key>(
            policy,
            key,
            held,
            pending,
            states.drop_last(),
            events.drop_last(),
        );
        let (kept, _) = offers_along::<P, F, Id, Meta, Key>(
            policy,
            key,
            held,
            pending,
            states,
            events,
        );
        lemma_offers_along::<P, F, Id, Meta, Key>(
            policy,
            key,
            held,
            pending,
            states.drop_last(),
            events.drop_last(),
        );
        if kept == before {
            if kept != held {
                let m = choose|m: int|
                    {
                        &&& 0 < m <= events.drop_last().len()
                        &&& kept == held.insert(key, kept[key])
                        &&& kept[key].position == events.drop_last()[m - 1].position
                        &&& (#[trigger] states.drop_last()[m]).frozen() == Some(kept[key].data)
                    };
                assert(states[m] == states.drop_last()[m]);
            }
        } else {
            let m = events.len() as int;
            assert(states[m] == states.last());
            assert(kept == held.insert(key, kept[key]));
        }
    }
}

/// Whether handing `fresh` and then the frontier to a subscription takes it from
/// `before` to `after`, its snapshots from `held` to `kept`, and comes to `r`: it takes
/// all of them, or those before the first that is refused, and offers a snapshot after
/// each.
///
/// Its global progress is then at the frontier, or at the last event taken, unless it
/// was further already.
pub open spec fn pumped<Id, Meta, E, P, H, Inst, F>(
    before: SubscriptionLoop<Store<Id, Meta, E>, P, H>,
    fresh: Seq<InMemoryEvent<Id, Meta>>,
    frontier: Option<u64>,
    after: SubscriptionLoop<Store<Id, Meta, E>, P, H>,
    held: snapshot::inmemory::Store<Inst, u64, F>,
    kept: snapshot::inmemory::Store<Inst, u64, F>,
    key: (Seq<char>, Inst::Key),
    r: Result<bool, SubscriptionError<InMemoryError<E>>>,
) -> bool where
    Id: StreamId,
    Meta: Clone,
    H: EventHandler<P, Store<Id, Meta, E>>,
    P: SnapshotState<F>,
    Inst: StreamId,
 {
    exists|copies: Seq<InMemoryEvent<Id, Meta>>, states: Seq<P>, n: int|
        {
            &&& crate::store::inmemory::copies_of(fresh, copies)
            &&& 0 <= n <= fresh.len()
            &&& #[trigger] took::<Id, Meta, E, P, H>(
                before,
                fresh,
                copies.take(n),
                states,
                after,
            )
            &&& offers_along::<P, F, Id, Meta, (Seq<char>, Inst::Key)>(
                held.spec_policy(),
                key,
                held@,
                before.events_since_snapshot as int,
                states,
                copies.take(n),
            ) == (kept@, after.events_since_snapshot as int)
            &&& match r {
                Ok(ready) => {
                    &&& n == fresh.len()
                    &&& after.observed == crate::order::furthest(before.observed, frontier)
                    &&& ready == (after.caught_up && !before.caught_up)
                },
                Err(SubscriptionError::EventDecode(error)) => {
                    &&& n < fresh.len()
                    &&& after.observed == crate::order::furthest(
                        before.observed,
                        crate::store::inmemory::newest(fresh.take(n)),
                    )
                    &&& crate::repository::step_fails::<P, Store<Id, Meta, E>, H>(
                        before.handlers,
                        copies[n],
                        error,
                    )
                },
                Err(_) => false,
            }
        }
}

/// Whether global progress tells no more than the read model holds: it is not past the
/// end of the log, and every matching event that it has reached was taken.
pub open spec fn reflects<Id: StreamId, Meta>(
    log: Seq<InMemoryEvent<Id, Meta>>,
    filters: Seq<Selector<Id::Key, u64>>,
    last: Option<u64>,
    progress: Option<u64>,
) -> bool {
    &&& progress matches Some(position) ==> position < log.len()
    &&& forall|p: int|
        {
            &&& 0 <= p < log.len()
            &&& crate::store::inmemory::accepted_by::<Id, Meta>(filters)(#[trigger] log[p])
            &&& crate::order::cursor_at_least(progress, Some(p as u64))
        } ==> super::already_seen(last, p as u64)
}

/// What a subscriber has not seen yet comes in order, past its cursor.
pub proof fn lemma_unseen<Id: StreamId, Meta>(
    log: Seq<InMemoryEvent<Id, Meta>>,
    filters: Seq<Selector<Id::Key, u64>>,
    cursor: Option<u64>,
)
    requires
        crate::store::inmemory::positioned(log),
    ensures
        ({
            let fresh = crate::store::inmemory::unseen(log, filters, cursor);
            &&& fresh.len() <= log.len()
            &&& crate::store::inmemory::ascending(fresh)
            &&& forall|i: int|
                0 <= i < fresh.len() ==> {
                    &&& (#[trigger] fresh[i]).position < log.len()
                    &&& !super::already_seen(cursor, fresh[i].position)
                }
        }),
{
    let accepted = crate::store::inmemory::accepted_by::<Id, Meta>(filters);
    let later = crate::store::inmemory::past::<Id, Meta>(cursor);
    let found = log.filter(accepted);
    let fresh = found.filter(later);
    log.lemma_filter_len(accepted);
    found.lemma_filter_len(later);
    crate::store::inmemory::lemma_filter_ascending(log, accepted);
    crate::store::inmemory::lemma_filter_ascending(found, later);
    assert forall|i: int| 0 <= i < fresh.len() implies {
        &&& (#[trigger] fresh[i]).position < log.len()
        &&& !super::already_seen(cursor, fresh[i].position)
    } by {
        found.lemma_filter_pred(later, i);
        assert(fresh.contains(fresh[i]));
        found.lemma_filter_contains_rev(later, fresh[i]);
        log.lemma_filter_contains_rev(accepted, fresh[i]);
    }
}

/// Taking the first of what was not seen yet leaves nothing behind that global progress
/// has reached, if nothing was left behind before.
pub proof fn lemma_still_reflects<Id: StreamId, Meta>(
    log: Seq<InMemoryEvent<Id, Meta>>,
    filters: Seq<Selector<Id::Key, u64>>,
    last: Option<u64>,
    before: Option<u64>,
    n: int,
    after: Option<u64>,
)
    requires
        crate::store::inmemory::positioned(log),
        reflects(log, filters, last, before),
        ({
            let fresh = crate::store::inmemory::unseen(log, filters, last);
            &&& 0 <= n <= fresh.len()
            &&& after == crate::order::furthest(
                before,
                crate::store::inmemory::newest(fresh.take(n)),
            ) || (n == fresh.len() && after == crate::order::furthest(
                before,
                crate::store::inmemory::latest(log),
            ))
        }),
        log.len() <= u64::MAX,
    ensures
        reflects(
            log,
            filters,
            crate::store::inmemory::moved_past(
                last,
                crate::store::inmemory::unseen(log, filters, last).take(n),
            ),
            after,
        ),
{
    let fresh = crate::store::inmemory::unseen(log, filters, last);
    let moved = crate::store::inmemory::moved_past(last, fresh.take(n));
    lemma_unseen(log, filters, last);
    if n > 0 {
        assert(fresh.take(n).last() == fresh[n - 1]);
    }
    assert forall|p: int|
        {
            &&& 0 <= p < log.len()
            &&& crate::store::inmemory::accepted_by::<Id, Meta>(filters)(#[trigger] log[p])
            &&& crate::order::cursor_at_least(after, Some(p as u64))
        } implies super::already_seen(moved, p as u64) by {
        assert(log[p].position == p);
        super::laws::no_write_is_missed(log, filters, last, p);
        if !super::already_seen(last, p as u64) {
            let k = choose|k: int| 0 <= k < fresh.len() && fresh[k] == log[p];
            if k < n - 1 {
                assert(fresh[k].position < fresh[n - 1].position);
            }
            if k >= n {
                assert(!crate::order::cursor_at_least(before, Some(p as u64)));
                if n > 0 {
                    assert(fresh[n - 1].position < fresh[k].position);
                }
            }
        }
    }
}

/// Copies of the first of a list are the first of its copies.
pub proof fn lemma_copies_prefix<Id: StreamId, Meta: Clone>(
    events: Seq<InMemoryEvent<Id, Meta>>,
    copies: Seq<InMemoryEvent<Id, Meta>>,
    n: int,
)
    requires
        crate::store::inmemory::copies_of(events, copies),
        0 <= n <= events.len(),
    ensures
        crate::store::inmemory::copies_of(events.take(n), copies.take(n)),
{
    assert forall|i: int| 0 <= i < n implies crate::store::inmemory::copy_of(
        events.take(n)[i],
        #[trigger] copies.take(n)[i],
    ) by {
        assert(crate::store::inmemory::copy_of(events[i], copies[i]));
    }
}

/// The part of a run before any of its events is a run.
pub proof fn lemma_run_prefix<P, S: crate::store::EventStore, H: EventHandler<P, S>>(
    handlers: crate::projection::Handlers<H>,
    states: Seq<P>,
    events: Seq<crate::store::StoredEvent<S::Id, S::Position, S::Data, S::Metadata>>,
    n: int,
)
    requires
        crate::repository::is_run::<P, S, H>(handlers, states, events),
        0 <= n <= events.len(),
    ensures
        crate::repository::projects_all::<P, S, H>(
            handlers,
            states.first(),
            events.take(n),
            states[n],
        ),
{
    let early = states.take(n + 1);
    assert forall|i: int| 0 <= i < n implies crate::repository::steps::<P, S, H>(
        handlers,
        early[i],
        #[trigger] events.take(n)[i],
        early[i + 1],
    ) by {
        assert(events.take(n)[i] == events[i]);
    }
    assert(crate::repository::is_run::<P, S, H>(handlers, early, events.take(n)));
}

impl<Id, Meta, E, P, H> SubscriptionLoop<Store<Id, Meta, E>, P, H> where
    Id: StreamId,
    Meta: Clone,
    H: EventHandler<P, Store<Id, Meta, E>>,
    P: Projection,
 {
    /// Offers a snapshot of the read model, if events are pending.
    ///
    /// Whether it is stored is for the policy of the snapshot store to say. A failure
    /// counts as "not stored", so that the subscription stays live.
    pub fn maintain_snapshot<F>(
        &mut self,
        snapshots: &mut snapshot::inmemory::Store<P::InstanceId, u64, F>,
        instance_id: &P::InstanceId,
    ) where P: SnapshotState<F>, P::InstanceId: StreamId
        ensures
            maintained(
                *old(self),
                *final(self),
                *old(snapshots),
                *final(snapshots),
                (P::KIND@, instance_id.key()),
            ),
    {
        let due: SnapshotDue<u64> = match self.pending_snapshot() {
            Some(due) => due,
            None => {
                return ;
            },
        };
        let position: u64 = due.checkpoint;
        let state: &P = &self.projection;
        let create = || -> (r: Result<Snapshot<u64, Result<Value, F>>, Infallible>)
            ensures
                r matches Ok(snapshot) && snapshot.position == position && match snapshot.data {
                    Ok(value) => state.frozen() == Some(value),
                    Err(_) => state.frozen() is None,
                },
            { Ok(Snapshot { position, data: state.freeze() }) };
        let stored: bool = was_stored(
            snapshots.offer_snapshot(P::KIND, instance_id, due.events_since_snapshot, create),
        );
        self.snapshot_answered(stored);
    }

    /// Takes one item of the delivery stream, and offers a snapshot after an event.
    ///
    /// # Errors
    ///
    /// As [`handle_delivery`](SubscriptionLoop::handle_delivery); nothing is offered
    /// then.
    pub fn take<F>(
        &mut self,
        delivered: Result<Delivery<Store<Id, Meta, E>>, InMemoryError<E>>,
        store: &Store<Id, Meta, E>,
        snapshots: &mut snapshot::inmemory::Store<P::InstanceId, u64, F>,
        instance_id: &P::InstanceId,
    ) -> (r: Result<Progress<u64>, SubscriptionError<InMemoryError<E>>>) where
        P: SnapshotState<F>,
        P::InstanceId: StreamId,

        requires
            old(self).counts(delivered) ==> old(self).events_since_snapshot < u64::MAX,
        ensures
            match r {
                Ok(progress) => exists|handled: Self|
                    {
                        &&& #[trigger] old(self).handles(delivered, handled, r)
                        &&& if progress.applied {
                            maintained(
                                handled,
                                *final(self),
                                *old(snapshots),
                                *final(snapshots),
                                (P::KIND@, instance_id.key()),
                            )
                        } else {
                            *final(self) == handled && *final(snapshots) == *old(snapshots)
                        }
                    },
                Err(_) => {
                    &&& old(self).handles(delivered, *final(self), r)
                    &&& *final(snapshots) == *old(snapshots)
                },
            },
    {
        let r: Result<Progress<u64>, SubscriptionError<InMemoryError<E>>> = self.handle_delivery(
            delivered,
            store,
        );
        if let Ok(progress) = &r {
            if progress.applied {
                self.maintain_snapshot(snapshots, instance_id);
            }
        }
        r
    }

    /// Takes everything that the store has for this subscription, and reports
    /// whether that completed catch-up.
    ///
    /// Afterwards the read model reflects every matching event that was committed,
    /// and the global progress has reached the last commit, matching or not. Whatever
    /// comes of it, global progress does not run ahead of the read model.
    ///
    /// # Errors
    ///
    /// Returns [`SubscriptionError::EventDecode`] at the first event that its
    /// handler refuses; the read model is then left as the events before it made it.
    pub fn pump<F>(
        &mut self,
        store: &Store<Id, Meta, E>,
        filters: &[EventFilter<Id, u64>],
        snapshots: &mut snapshot::inmemory::Store<P::InstanceId, u64, F>,
        instance_id: &P::InstanceId,
    ) -> (r: Result<bool, SubscriptionError<InMemoryError<E>>>) where
        P: SnapshotState<F>,
        P::InstanceId: StreamId,

        requires
            old(self).events_since_snapshot + crate::store::inmemory::unseen(
                store.log(),
                crate::store::selectors(filters@),
                old(self).last_checkpoint,
            ).len() <= u64::MAX,
        ensures
            crate::store::inmemory::positioned(store.log()),
            store.log().len() <= u64::MAX,
            final(snapshots).spec_policy() == old(snapshots).spec_policy(),
            pumped::<Id, Meta, E, P, H, P::InstanceId, F>(
                *old(self),
                crate::store::inmemory::unseen(
                    store.log(),
                    crate::store::selectors(filters@),
                    old(self).last_checkpoint,
                ),
                crate::store::inmemory::latest(store.log()),
                *final(self),
                *old(snapshots),
                *final(snapshots),
                (P::KIND@, instance_id.key()),
                r,
            ),
            reflects(
                store.log(),
                crate::store::selectors(filters@),
                old(self).last_checkpoint,
                old(self).observed,
            ) ==> reflects(
                store.log(),
                crate::store::selectors(filters@),
                final(self).last_checkpoint,
                final(self).observed,
            ),
    {
        let ghost before = *self;
        let ghost held = *snapshots;
        let ghost key = (P::KIND@, instance_id.key());
        let mut cursor: Option<u64> = self.last_checkpoint;
        let ghost fresh = crate::store::inmemory::unseen(
            store.log(),
            crate::store::selectors(filters@),
            self.last_checkpoint,
        );
        let deliveries: Vec<Delivery<Store<Id, Meta, E>>> = store.drain(filters, &mut cursor);
        proof {
            lemma_unseen(
                store.log(),
                crate::store::selectors(filters@),
                self.last_checkpoint,
            );
        }
        let ghost all = deliveries@;
        let ghost mut states = seq![before.projection];
        let ghost mut events = Seq::<InMemoryEvent<Id, Meta>>::empty();
        let ghost copies = Seq::new(fresh.len(), |i: int| all[i]->Event_0.event);
        proof {
            assert forall|i: int| 0 <= i < copies.len() implies crate::store::inmemory::copy_of(
                fresh[i],
                #[trigger] copies[i],
            ) by {
                assert(crate::store::inmemory::delivers(all[i], fresh[i]));
            }
        }
        let ghost count = fresh.len();
        let mut ready: bool = false;
        for delivery in iter: deliveries
            invariant
                iter.seq() == all,
                crate::store::inmemory::positioned(store.log()),
                count == fresh.len(),
                all.len() == count + if store.log().len() == 0 {
                    0int
                } else {
                    1
                },
                store.log().len() <= u64::MAX,
                forall|i: int|
                    0 <= i < count ==> crate::store::inmemory::delivers(
                        #[trigger] all[i],
                        fresh[i],
                    ),
                all.len() > count ==> all.last() == Delivery::<
                    Store<Id, Meta, E>,
                >::Frontier((store.log().len() - 1) as u64),
                crate::store::inmemory::ascending(fresh),
                forall|i: int|
                    0 <= i < fresh.len() ==> {
                        &&& (#[trigger] fresh[i]).position < store.log().len()
                        &&& !super::already_seen(before.last_checkpoint, fresh[i].position)
                    },
                before.events_since_snapshot + count <= u64::MAX,
                self.handlers == before.handlers,
                self.catchup_target == before.catchup_target,
                ready == (self.caught_up && !before.caught_up),
                self.caught_up == (before.caught_up || (events.len() > 0
                    && crate::order::cursor_at_least(
                    self.last_checkpoint,
                    before.catchup_target,
                ))),
                self.observed == crate::order::furthest(
                    before.observed,
                    if iter.index() <= count {
                        crate::store::inmemory::newest(fresh.take(iter.index()))
                    } else {
                        crate::store::inmemory::latest(store.log())
                    },
                ),
                events.len() == if iter.index() <= count {
                    iter.index()
                } else {
                    count as int
                },
                crate::store::inmemory::copies_of(fresh, copies),
                forall|i: int|
                    0 <= i < count ==> #[trigger] copies[i] == all[i]->Event_0.event,
                events == copies.take(events.len() as int),
                crate::repository::is_run::<P, Store<Id, Meta, E>, H>(
                    before.handlers,
                    states,
                    events,
                ),
                states.first() == before.projection,
                states.last() == self.projection,
                self.last_checkpoint == crate::store::inmemory::moved_past(
                    before.last_checkpoint,
                    fresh.take(events.len() as int),
                ),
                self.events_since_snapshot <= before.events_since_snapshot + events.len(),
                snapshots.spec_policy() == held.spec_policy(),
                offers_along::<P, F, Id, Meta, (Seq<char>, <P::InstanceId as StreamId>::Key)>(
                    held.spec_policy(),
                    key,
                    held@,
                    before.events_since_snapshot as int,
                    states,
                    events,
                ) == (snapshots@, self.events_since_snapshot as int),
                key == (P::KIND@, instance_id.key()),
                held == *old(snapshots),
                before == *old(self),
                fresh == crate::store::inmemory::unseen(
                    store.log(),
                    crate::store::selectors(filters@),
                    before.last_checkpoint,
                ),
        {
            let ghost n = iter.index();
            let ghost given = delivery;
            proof {
                if n < count {
                    assert(crate::store::inmemory::delivers(all[n], fresh[n]));
                    if n > 0 {
                        assert(fresh.take(n).last() == fresh[n - 1]);
                        assert(fresh[n - 1].position < fresh[n].position);
                    }
                }
            }
            match self.take(Ok(delivery), store, snapshots, instance_id) {
                Ok(progress) => {
                    if progress.ready {
                        ready = true;
                    }
                    proof {
                        if n < count {
                            let item = given->Event_0;
                            let longer = states.push(self.projection);
                            let more = events.push(item.event);
                            assert forall|i: int| 0 <= i < more.len() implies #[trigger]
                                crate::repository::steps::<P, Store<Id, Meta, E>, H>(
                                before.handlers,
                                longer[i],
                                more[i],
                                longer[i + 1],
                            ) by {
                                if i < events.len() {
                                    assert(more[i] == events[i]);
                                    assert(crate::repository::steps::<P, Store<Id, Meta, E>, H>(
                                        before.handlers,
                                        states[i],
                                        events[i],
                                        states[i + 1],
                                    ));
                                }
                            }
                            assert(fresh.take(n + 1) == fresh.take(n).push(fresh[n]));
                            assert(more == copies.take(n + 1));
                            assert(longer.drop_last() == states);
                            assert(more.drop_last() == events);
                            states = longer;
                            events = more;
                        }
                    }
                },
                Err(error) => {
                    proof {
                        assert(n < count);
                        assert(copies[n] == given->Event_0.event);
                        lemma_copies_prefix(fresh, copies, n);
                        assert(took::<Id, Meta, E, P, H>(
                            before,
                            fresh,
                            copies.take(n),
                            states,
                            *self,
                        ));
                        if reflects(
                            store.log(),
                            crate::store::selectors(filters@),
                            before.last_checkpoint,
                            before.observed,
                        ) {
                            lemma_still_reflects(
                                store.log(),
                                crate::store::selectors(filters@),
                                before.last_checkpoint,
                                before.observed,
                                n,
                                self.observed,
                            );
                        }
                    }
                    return Err(error);
                },
            }
        }
        proof {
            lemma_copies_prefix(fresh, copies, count as int);
            assert(took::<Id, Meta, E, P, H>(
                before,
                fresh,
                copies.take(count as int),
                states,
                *self,
            ));
            if reflects(
                store.log(),
                crate::store::selectors(filters@),
                before.last_checkpoint,
                before.observed,
            ) {
                lemma_still_reflects(
                    store.log(),
                    crate::store::selectors(filters@),
                    before.last_checkpoint,
                    before.observed,
                    count as int,
                    self.observed,
                );
            }
        }
        Ok(ready)
    }
}

/// Keeping what has one property and then what has another keeps what has both.
proof fn lemma_filter_twice<A>(
    s: Seq<A>,
    p: spec_fn(A) -> bool,
    q: spec_fn(A) -> bool,
    both: spec_fn(A) -> bool,
)
    requires
        forall|i: int| 0 <= i < s.len() ==> both(#[trigger] s[i]) == (p(s[i]) && q(s[i])),
    ensures
        s.filter(p).filter(q) == s.filter(both),
    decreases s.len(),
{
    reveal(Seq::filter);
    if s.len() > 0 {
        let init = s.drop_last();
        assert forall|i: int| 0 <= i < init.len() implies both(#[trigger] init[i]) == (p(init[i])
            && q(init[i])) by {
            assert(init[i] == s[i]);
        }
        lemma_filter_twice(init, p, q, both);
        if p(s.last()) {
            assert(init.filter(p).push(s.last()).drop_last() == init.filter(p));
        }
    }
}

/// What a subscriber at a cursor has not seen is what a load after that position
/// gives.
pub proof fn unseen_is_what_comes_after<Id: StreamId, Meta>(
    log: Seq<InMemoryEvent<Id, Meta>>,
    specs: Seq<Selector<Id::Key, ()>>,
    cursor: Option<u64>,
)
    ensures
        crate::store::inmemory::unseen(
            log,
            crate::repository::inmemory::positioned_selectors(specs, None),
            cursor,
        ) == crate::store::inmemory::matching(
            log,
            crate::repository::inmemory::positioned_selectors(specs, cursor),
        ),
{
    let every = crate::repository::inmemory::positioned_selectors(specs, None);
    let later = crate::repository::inmemory::positioned_selectors(specs, cursor);
    let accepted = crate::store::inmemory::accepted_by::<Id, Meta>(every);
    let narrowed = crate::store::inmemory::accepted_by::<Id, Meta>(later);
    let past = crate::store::inmemory::past::<Id, Meta>(cursor);
    assert forall|p: int| 0 <= p < log.len() implies narrowed(#[trigger] log[p]) == (accepted(
        log[p],
    ) && past(log[p])) by {
        if narrowed(log[p]) {
            let k = choose|k: int|
                0 <= k < later.len() && crate::store::inmemory::accepts(
                    #[trigger] later[k],
                    log[p],
                );
            assert(crate::store::inmemory::accepts(every[k], log[p]));
        }
        if accepted(log[p]) && past(log[p]) {
            let k = choose|k: int|
                0 <= k < every.len() && crate::store::inmemory::accepts(
                    #[trigger] every[k],
                    log[p],
                );
            assert(crate::store::inmemory::accepts(later[k], log[p]));
        }
    }
    lemma_filter_twice(log, accepted, past, narrowed);
}

/// The snapshot that a subscription starts from, if there is one that can be read.
pub open spec fn resume_point<P: SnapshotState<F>, Inst: StreamId, F>(
    snapshots: snapshot::inmemory::Store<Inst, u64, F>,
    kind: Seq<char>,
    instance_id: Inst::Key,
) -> Option<(P, u64)> {
    SnapshotPolicy::<P, Inst>::base(&Snapshots(snapshots), kind, instance_id)
}

/// Whether starting a subscription at `start`, which stands for everything up to a
/// position, with `filters` on `log`, comes to `r`: it is up to date when it is handed
/// out, and its read model is what a load from there gives.
pub open spec fn started<P, Id, Meta, E>(
    log: Seq<InMemoryEvent<Id, Meta>>,
    filters: Filters<Store<Id, Meta, E>, P, P::Handler>,
    start: P,
    position: Option<u64>,
    r: Result<
        (SubscriptionLoop<Store<Id, Meta, E>, P, P::Handler>, Vec<EventFilter<Id, u64>>),
        SubscriptionError<InMemoryError<E>>,
    >,
) -> bool where P: ProjectionFilters<Store<Id, Meta, E>>, Id: StreamId, Meta: Clone {
    let specs = crate::store::selectors(filters.specs@);
    match r {
        Ok((running, event_filters)) => {
            &&& crate::repository::inmemory::projection_built::<P, Id, Meta, E>(
                log,
                filters,
                start,
                position,
                Ok(running.projection),
            )
            &&& running.caught_up
            &&& running.handlers == filters.handlers
            &&& running.last_checkpoint == crate::store::inmemory::moved_past(
                position,
                crate::store::inmemory::matching(
                    log,
                    crate::repository::inmemory::positioned_selectors(specs, position),
                ),
            )
            &&& running.observed == crate::order::furthest(
                position,
                crate::store::inmemory::latest(log),
            )
            &&& crate::store::selectors(event_filters@)
                == crate::repository::inmemory::positioned_selectors(specs, None)
        },
        Err(SubscriptionError::EventDecode(error)) =>
            crate::repository::inmemory::projection_built::<P, Id, Meta, E>(
            log,
            filters,
            start,
            position,
            Err(ProjectionError::EventDecode(error)),
        ),
        Err(_) => false,
    }
}

/// Whether the snapshots went from `held` to `kept` while a subscription at `start`
/// took what `filters` select from `log` after a position, which came to `r`: it
/// offered its read model after each event that it took.
pub open spec fn snapshots_along<P, Id, Meta, E, F, Key>(
    log: Seq<InMemoryEvent<Id, Meta>>,
    filters: Filters<Store<Id, Meta, E>, P, P::Handler>,
    start: P,
    position: Option<u64>,
    policy: snapshot::inmemory::SnapshotPolicy,
    held: Map<Key, Snapshot<u64, Value>>,
    kept: Map<Key, Snapshot<u64, Value>>,
    key: Key,
    r: Result<
        (SubscriptionLoop<Store<Id, Meta, E>, P, P::Handler>, Vec<EventFilter<Id, u64>>),
        SubscriptionError<InMemoryError<E>>,
    >,
) -> bool where
    P: ProjectionFilters<Store<Id, Meta, E>> + SnapshotState<F>,
    Id: StreamId,
    Meta: Clone,
 {
    let found = crate::store::inmemory::matching(
        log,
        crate::repository::inmemory::positioned_selectors(
            crate::store::selectors(filters.specs@),
            position,
        ),
    );
    exists|copies: Seq<InMemoryEvent<Id, Meta>>, states: Seq<P>, n: int|
        {
            let (stored, pending) = offers_along::<P, F, Id, Meta, Key>(
                policy,
                key,
                held,
                0,
                states,
                copies.take(n),
            );
            &&& crate::store::inmemory::copies_of(found, copies)
            &&& 0 <= n <= found.len()
            &&& #[trigger] crate::repository::is_run::<P, Store<Id, Meta, E>, P::Handler>(
                filters.handlers,
                states,
                copies.take(n),
            )
            &&& states.first() == start
            &&& kept == stored
            &&& match r {
                Ok((running, _)) => {
                    &&& n == found.len()
                    &&& running.projection == states.last()
                    &&& running.events_since_snapshot == pending
                },
                Err(SubscriptionError::EventDecode(error)) => {
                    &&& n < found.len()
                    &&& crate::repository::step_fails::<P, Store<Id, Meta, E>, P::Handler>(
                        filters.handlers,
                        copies[n],
                        error,
                    )
                },
                Err(_) => false,
            }
        }
}

/// A subscription whose target is the newest matching event is caught up once it has
/// taken everything.
proof fn lemma_catches_up<Id: StreamId, Meta>(
    log: Seq<InMemoryEvent<Id, Meta>>,
    filters: Seq<Selector<Id::Key, u64>>,
    from: Option<u64>,
)
    requires
        crate::store::inmemory::positioned(log),
    ensures
        ({
            let target = crate::store::inmemory::newest(
                crate::store::inmemory::matching(log, filters),
            );
            let fresh = crate::store::inmemory::unseen(log, filters, from);
            crate::order::cursor_at_least(from, target) || (fresh.len() > 0
                && crate::order::cursor_at_least(
                crate::store::inmemory::moved_past(from, fresh),
                target,
            ))
        }),
{
    let accepted = crate::store::inmemory::accepted_by::<Id, Meta>(filters);
    let found = crate::store::inmemory::matching(log, filters);
    let later = crate::store::inmemory::past::<Id, Meta>(from);
    let fresh = found.filter(later);
    let target = crate::store::inmemory::newest(found);
    if !crate::order::cursor_at_least(from, target) {
        assert(later(found[found.len() - 1]));
        found.lemma_filter_contains(later, found.len() - 1);
        let k = choose|k: int| 0 <= k < fresh.len() && fresh[k] == found.last();
        crate::store::inmemory::lemma_filter_ascending(log, accepted);
        crate::store::inmemory::lemma_filter_ascending(found, later);
        if k < fresh.len() - 1 {
            assert(fresh[k].position < fresh[fresh.len() - 1].position);
        }
    }
}

/// Starts a subscription: from its snapshot if there is one that can be read, and
/// else from a fresh instance, it takes everything that was committed.
///
/// Returns the subscription with what it is subscribed to; hand both to
/// [`pump`](SubscriptionLoop::pump) whenever there may be more. It returns only after
/// catch-up completes.
///
/// # Errors
///
/// Returns [`SubscriptionError::EventDecode`] if an event cannot be decoded.
pub fn start<P, Id, Meta, E, F>(
    store: &Store<Id, Meta, E>,
    snapshots: &mut snapshot::inmemory::Store<P::InstanceId, u64, F>,
    instance_id: &P::InstanceId,
) -> (r: Result<
    (SubscriptionLoop<Store<Id, Meta, E>, P, P::Handler>, Vec<EventFilter<Id, u64>>),
    SubscriptionError<InMemoryError<E>>,
>) where
    P: Projection + ProjectionFilters<Store<Id, Meta, E>> + SnapshotState<F>,
    P::InstanceId: StreamId,
    Id: StreamId,
    Meta: Clone,

    ensures
        crate::store::inmemory::positioned(store.log()),
        store.log().len() <= u64::MAX,
        final(snapshots).spec_policy() == old(snapshots).spec_policy(),
        exists|filters: Filters<Store<Id, Meta, E>, P, P::Handler>|
            {
                let base: Option<(P, u64)> = resume_point(
                    *old(snapshots),
                    P::KIND@,
                    instance_id.key(),
                );
                let key = (P::KIND@, instance_id.key());
                &&& #[trigger] call_ensures(
                    <P as ProjectionFilters<Store<Id, Meta, E>>>::filters,
                    (instance_id,),
                    filters,
                )
                &&& started::<P, Id, Meta, E>(
                    store.log(),
                    filters,
                    crate::repository::inmemory::projection_start(base, *instance_id),
                    crate::repository::inmemory::base_position(base),
                    r,
                )
                &&& snapshots_along::<P, Id, Meta, E, F, (Seq<char>, <P::InstanceId as StreamId>::Key)>(
                    store.log(),
                    filters,
                    crate::repository::inmemory::projection_start(base, *instance_id),
                    crate::repository::inmemory::base_position(base),
                    old(snapshots).spec_policy(),
                    old(snapshots)@,
                    final(snapshots)@,
                    key,
                    r,
                )
            },
{
    let ghost held = *snapshots;
    let ghost key = (P::KIND@, instance_id.key());
    let ghost log = store.log();
    let decode = |value: Value| -> (r: Result<P, F>)
        ensures
            match r {
                Ok(state) => P::revived(value) == Some(state),
                Err(_) => P::revived(value) is None,
            },
        { P::revive(value) };
    let (projection, from): (P, Option<u64>) = load_snapshot::<P, u64, _>(
        snapshots.load(P::KIND, instance_id, decode),
        instance_id,
    );
    let ghost base: Option<(P, u64)> = resume_point(held, P::KIND@, instance_id.key());
    let filters: Filters<Store<Id, Meta, E>, P, P::Handler> = <P as ProjectionFilters<
        Store<Id, Meta, E>,
    >>::filters(instance_id);
    let ghost given = filters;
    let ghost specs = crate::store::selectors(filters.specs@);
    let (event_filters, handlers) = filters.into_event_filters(None);
    proof {
        crate::repository::inmemory::lemma_specs_placed_exactly(
            specs,
            None,
            crate::store::selectors(event_filters@),
        );
        unseen_is_what_comes_after(log, specs, from);
    }
    let catchup_target: Option<u64> = store.current_checkpoint(&event_filters);
    let mut running: SubscriptionLoop<Store<Id, Meta, E>, P, P::Handler> =
        SubscriptionLoop::resume(handlers, projection, from, catchup_target);
    let ghost before = running;
    proof {
        lemma_catches_up(log, crate::store::selectors(event_filters@), from);
        lemma_unseen(log, crate::store::selectors(event_filters@), from);
    }
    let outcome: Result<bool, SubscriptionError<InMemoryError<E>>> = running.pump(
        store,
        &event_filters,
        snapshots,
        instance_id,
    );
    let ghost fresh = crate::store::inmemory::unseen(
        log,
        crate::store::selectors(event_filters@),
        from,
    );
    proof {
        let (copies, states, n) = choose|
            copies: Seq<InMemoryEvent<Id, Meta>>,
            states: Seq<P>,
            n: int,
        |
            {
                &&& crate::store::inmemory::copies_of(fresh, copies)
                &&& 0 <= n <= fresh.len()
                &&& #[trigger] took::<Id, Meta, E, P, P::Handler>(
                    before,
                    fresh,
                    copies.take(n),
                    states,
                    running,
                )
                &&& offers_along::<P, F, Id, Meta, (Seq<char>, <P::InstanceId as StreamId>::Key)>(
                    held.spec_policy(),
                    key,
                    held@,
                    before.events_since_snapshot as int,
                    states,
                    copies.take(n),
                ) == (snapshots@, running.events_since_snapshot as int)
                &&& match outcome {
                    Ok(ready) => {
                        &&& n == fresh.len()
                        &&& running.observed == crate::order::furthest(
                            before.observed,
                            crate::store::inmemory::latest(log),
                        )
                        &&& ready == (running.caught_up && !before.caught_up)
                    },
                    Err(SubscriptionError::EventDecode(error)) => {
                        &&& n < fresh.len()
                        &&& running.observed == crate::order::furthest(
                            before.observed,
                            crate::store::inmemory::newest(fresh.take(n)),
                        )
                        &&& crate::repository::step_fails::<P, Store<Id, Meta, E>, P::Handler>(
                            before.handlers,
                            copies[n],
                            error,
                        )
                    },
                    Err(_) => false,
                }
            };
        assert(fresh.take(fresh.len() as int) == fresh);
        assert(copies.take(copies.len() as int) == copies);
        assert(crate::repository::projects_all::<P, Store<Id, Meta, E>, P::Handler>(
            given.handlers,
            before.projection,
            copies.take(n),
            running.projection,
        ));
    }
    match outcome {
        Ok(_) => Ok((running, event_filters)),
        Err(error) => Err(error),
    }
}

} // verus!
