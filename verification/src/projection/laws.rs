//! What subscriptions of projections pick from a log.

use vstd::prelude::*;

use super::{
    ApplyProjection, DomainHandler, EventHandler, Filters, HandlerError, Handlers, Subscribable,
    SumHandler,
};
use crate::{
    aggregate::Aggregate,
    event::{DecodeEvent, DomainEvent, ProjectionEvent},
    store::{
        inmemory::{InMemoryEvent, Store},
        EventFilter, EventStore, Selector, StoredEvent, StreamId,
    },
};

verus! {

/// Filters that are placed after a position pick what they ask for after it.
proof fn lemma_placed_filters_pick<Id: StreamId, M>(
    log: Seq<InMemoryEvent<Id, M>>,
    selectors: Seq<Selector<Id::Key, ()>>,
    after: Option<u64>,
    placed: Seq<Selector<Id::Key, u64>>,
    event: InMemoryEvent<Id, M>,
)
    requires
        super::all_placed_after(selectors, after, placed),
    ensures
        crate::store::inmemory::matching(log, placed).contains(event) <==> {
            &&& log.contains(event)
            &&& after is Some ==> event.position > after->0
            &&& exists|i: int|
                {
                    &&& 0 <= i < selectors.len()
                    &&& event.kind@ == (#[trigger] selectors[i]).event_kind
                    &&& selectors[i].aggregate_kind is Some ==> event.aggregate_kind@
                        == selectors[i].aggregate_kind->0
                    &&& selectors[i].aggregate_id is Some ==> event.aggregate_id.key()
                        == selectors[i].aggregate_id->0
                }
        },
{
    crate::store::records::selectors_pick_what_they_ask_for(log, placed, event);
    assert forall|i: int| 0 <= i < placed.len() implies {
        &&& (#[trigger] placed[i]).event_kind == selectors[i].event_kind
        &&& placed[i].aggregate_kind == selectors[i].aggregate_kind
        &&& placed[i].aggregate_id == selectors[i].aggregate_id
        &&& placed[i].after_position == after
    } by {
        assert(super::placed_after(selectors[i], after, placed[i]));
    }
    if crate::store::inmemory::matching(log, placed).contains(event) {
        let i = choose|i: int|
            0 <= i < placed.len() && crate::store::records::asked_by::<Id, M>(
                #[trigger] placed[i],
                event,
            );
        assert(event.kind@ == selectors[i].event_kind);
    }
    if log.contains(event) && (after is Some ==> event.position > after->0) && exists|i: int|
        {
            &&& 0 <= i < selectors.len()
            &&& event.kind@ == (#[trigger] selectors[i]).event_kind
            &&& selectors[i].aggregate_kind is Some ==> event.aggregate_kind@
                == selectors[i].aggregate_kind->0
            &&& selectors[i].aggregate_id is Some ==> event.aggregate_id.key()
                == selectors[i].aggregate_id->0
        } {
        let i = choose|i: int|
            {
                &&& 0 <= i < selectors.len()
                &&& event.kind@ == (#[trigger] selectors[i]).event_kind
                &&& selectors[i].aggregate_kind is Some ==> event.aggregate_kind@
                    == selectors[i].aggregate_kind->0
                &&& selectors[i].aggregate_id is Some ==> event.aggregate_id.key()
                    == selectors[i].aggregate_id->0
            };
        assert(crate::store::records::asked_by::<Id, M>(placed[i], event));
    }
}

/// A subscription to one aggregate instance adds the events of its stream, and of no
/// other: of what is in the log, a projection gets after it what it got before and the events
/// of that stream with a kind that was subscribed to, after the position.
pub proof fn instance_subscriptions_add_their_stream<Id, M, E, P, H, T>(
    before: Filters<Store<Id, M, E>, P, H>,
    kinds: Seq<&'static str>,
    aggregate_kind: Seq<char>,
    id: Id,
    source: T,
    built: Filters<Store<Id, M, E>, P, H>,
    after: Option<u64>,
    earlier: Seq<EventFilter<Id, u64>>,
    filters: Seq<EventFilter<Id, u64>>,
    log: Seq<InMemoryEvent<Id, M>>,
    event: InMemoryEvent<Id, M>,
) where Id: StreamId, M: Clone, H: From<T>,
    requires
        super::subscribes(
            before,
            super::within_of(kinds, aggregate_kind, id.key()),
            kinds,
            source,
            built,
        ),
        super::all_placed_after(
            crate::store::selectors(before.specs@),
            after,
            crate::store::selectors(earlier),
        ),
        super::all_placed_after(
            crate::store::selectors(built.specs@),
            after,
            crate::store::selectors(filters),
        ),
    ensures
        crate::store::inmemory::matching(log, crate::store::selectors(filters)).contains(event) <==> {
            ||| crate::store::inmemory::matching(log, crate::store::selectors(earlier)).contains(
                event,
            )
            ||| {
                &&& log.contains(event)
                &&& event.aggregate_kind@ == aggregate_kind
                &&& event.aggregate_id.key() == id.key()
                &&& crate::store::records::of_kinds_after(event, kinds, after)
            }
        },
{
    let had = crate::store::selectors(before.specs@);
    let has = crate::store::selectors(built.specs@);
    lemma_placed_filters_pick(log, had, after, crate::store::selectors(earlier), event);
    lemma_placed_filters_pick(log, has, after, crate::store::selectors(filters), event);
    assert forall|i: int| 0 <= i < had.len() implies has[i] == #[trigger] had[i] by {}
    assert forall|k: int| 0 <= k < kinds.len() implies {
        &&& has[had.len() + k].event_kind == (#[trigger] kinds[k])@
        &&& has[had.len() + k].aggregate_kind == Some(aggregate_kind)
        &&& has[had.len() + k].aggregate_id == Some(id.key())
    } by {}
    if crate::store::inmemory::matching(log, crate::store::selectors(filters)).contains(event) {
        let i = choose|i: int|
            {
                &&& 0 <= i < has.len()
                &&& event.kind@ == (#[trigger] has[i]).event_kind
                &&& has[i].aggregate_kind is Some ==> event.aggregate_kind@
                    == has[i].aggregate_kind->0
                &&& has[i].aggregate_id is Some ==> event.aggregate_id.key()
                    == has[i].aggregate_id->0
            };
        if i < had.len() {
            assert(had[i] == has[i]);
        } else {
            assert(kinds[i - had.len()]@ == event.kind@);
        }
    }
    if crate::store::records::of_kinds_after(event, kinds, after) {
        let k = choose|k: int| 0 <= k < kinds.len() && (#[trigger] kinds[k])@ == event.kind@;
        assert(has[had.len() + k].event_kind == event.kind@);
    }
}

/// What a projection that subscribed to one aggregate instance and to nothing else gets: only
/// events of that stream with a kind that was subscribed to and after the position, and
/// every one of those.
pub proof fn instance_subscriptions_get_their_stream<Id, M, E, P, H, T>(
    empty: Filters<Store<Id, M, E>, P, H>,
    kinds: Seq<&'static str>,
    aggregate_kind: Seq<char>,
    id: Id,
    source: T,
    built: Filters<Store<Id, M, E>, P, H>,
    after: Option<u64>,
    filters: Seq<EventFilter<Id, u64>>,
    log: Seq<InMemoryEvent<Id, M>>,
) where Id: StreamId, M: Clone, H: From<T>,
    requires
        empty.specs@.len() == 0,
        super::subscribes(
            empty,
            super::within_of(kinds, aggregate_kind, id.key()),
            kinds,
            source,
            built,
        ),
        super::all_placed_after(
            crate::store::selectors(built.specs@),
            after,
            crate::store::selectors(filters),
        ),
    ensures
        forall|i: int|
            0 <= i < crate::store::inmemory::matching(log, crate::store::selectors(filters)).len()
                ==> {
                let event = #[trigger] crate::store::inmemory::matching(
                    log,
                    crate::store::selectors(filters),
                )[i];
                &&& event.aggregate_kind@ == aggregate_kind
                &&& event.aggregate_id.key() == id.key()
                &&& crate::store::records::of_kinds_after(event, kinds, after)
            },
        forall|i: int|
            0 <= i < crate::store::inmemory::stream_of(log, aggregate_kind, id.key()).len()
                && crate::store::records::of_kinds_after(
                #[trigger] crate::store::inmemory::stream_of(log, aggregate_kind, id.key())[i],
                kinds,
                after,
            ) ==> crate::store::inmemory::matching(log, crate::store::selectors(filters)).contains(
                crate::store::inmemory::stream_of(log, aggregate_kind, id.key())[i],
            ),
{
    let found = crate::store::inmemory::matching(log, crate::store::selectors(filters));
    let stream = crate::store::inmemory::stream_of(log, aggregate_kind, id.key());
    let picks = crate::store::inmemory::in_stream::<Id, M>(aggregate_kind, id.key());
    let none = Seq::<EventFilter<Id, u64>>::empty();
    assert forall|event: InMemoryEvent<Id, M>| #[trigger] found.contains(event) <==> {
        &&& log.contains(event)
        &&& event.aggregate_kind@ == aggregate_kind
        &&& event.aggregate_id.key() == id.key()
        &&& crate::store::records::of_kinds_after(event, kinds, after)
    } by {
        instance_subscriptions_add_their_stream(
            empty,
            kinds,
            aggregate_kind,
            id,
            source,
            built,
            after,
            none,
            filters,
            log,
            event,
        );
        crate::store::records::selectors_pick_what_they_ask_for(
            log,
            crate::store::selectors(none),
            event,
        );
    }
    assert forall|i: int| 0 <= i < found.len() implies {
        &&& (#[trigger] found[i]).aggregate_kind@ == aggregate_kind
        &&& found[i].aggregate_id.key() == id.key()
        &&& crate::store::records::of_kinds_after(found[i], kinds, after)
    } by {
        assert(found.contains(found[i]));
    }
    assert forall|i: int|
        0 <= i < stream.len() && crate::store::records::of_kinds_after(#[trigger] stream[i], kinds, after) implies found.contains(
        stream[i],
    ) by {
        assert(stream.contains(stream[i]));
        log.lemma_filter_contains_rev(picks, stream[i]);
        log.lemma_filter_pred(picks, i);
    }
}

/// A subscription to kinds of events adds every event of those kinds after the position,
/// whatever its stream, and nothing else.
pub proof fn global_subscriptions_add_their_kinds<Id, M, E, P, H, T>(
    before: Filters<Store<Id, M, E>, P, H>,
    kinds: Seq<&'static str>,
    source: T,
    built: Filters<Store<Id, M, E>, P, H>,
    after: Option<u64>,
    earlier: Seq<EventFilter<Id, u64>>,
    filters: Seq<EventFilter<Id, u64>>,
    log: Seq<InMemoryEvent<Id, M>>,
    event: InMemoryEvent<Id, M>,
) where Id: StreamId, M: Clone, H: From<T>,
    requires
        super::subscribes(before, super::every_of(kinds), kinds, source, built),
        super::all_placed_after(
            crate::store::selectors(before.specs@),
            after,
            crate::store::selectors(earlier),
        ),
        super::all_placed_after(
            crate::store::selectors(built.specs@),
            after,
            crate::store::selectors(filters),
        ),
    ensures
        crate::store::inmemory::matching(log, crate::store::selectors(filters)).contains(event) <==> {
            ||| crate::store::inmemory::matching(log, crate::store::selectors(earlier)).contains(
                event,
            )
            ||| log.contains(event) && crate::store::records::of_kinds_after(event, kinds, after)
        },
        before.specs@.len() == 0 ==> (crate::store::inmemory::matching(
            log,
            crate::store::selectors(filters),
        ).contains(event) <==> log.contains(event) && crate::store::records::of_kinds_after(event, kinds, after)),
{
    let had = crate::store::selectors(before.specs@);
    let has = crate::store::selectors(built.specs@);
    lemma_placed_filters_pick(log, had, after, crate::store::selectors(earlier), event);
    lemma_placed_filters_pick(log, has, after, crate::store::selectors(filters), event);
    assert forall|i: int| 0 <= i < had.len() implies has[i] == #[trigger] had[i] by {}
    assert forall|k: int| 0 <= k < kinds.len() implies {
        &&& has[had.len() + k].event_kind == (#[trigger] kinds[k])@
        &&& has[had.len() + k].aggregate_kind is None
        &&& has[had.len() + k].aggregate_id is None
    } by {}
    if crate::store::inmemory::matching(log, crate::store::selectors(filters)).contains(event) {
        let i = choose|i: int|
            {
                &&& 0 <= i < has.len()
                &&& event.kind@ == (#[trigger] has[i]).event_kind
                &&& has[i].aggregate_kind is Some ==> event.aggregate_kind@
                    == has[i].aggregate_kind->0
                &&& has[i].aggregate_id is Some ==> event.aggregate_id.key()
                    == has[i].aggregate_id->0
            };
        if i < had.len() {
            assert(had[i] == has[i]);
        } else {
            assert(kinds[i - had.len()]@ == event.kind@);
        }
    }
    if crate::store::records::of_kinds_after(event, kinds, after) {
        let k = choose|k: int| 0 <= k < kinds.len() && (#[trigger] kinds[k])@ == event.kind@;
        assert(has[had.len() + k].event_kind == event.kind@);
    }
}

/// A subscription registers one handler, made of what was subscribed, for each of its
/// kinds, and leaves the handlers of all other kinds as they are.
pub proof fn subscriptions_register_their_kinds<Id, M, E, P, H, T>(
    before: Filters<Store<Id, M, E>, P, H>,
    selectors: Seq<Selector<Id::Key, ()>>,
    kinds: Seq<&'static str>,
    source: T,
    built: Filters<Store<Id, M, E>, P, H>,
) where Id: StreamId, M: Clone, H: From<T>,
    requires
        super::subscribes(before, selectors, kinds, source, built),
    ensures
        exists|handler: H|
            {
                &&& #[trigger] call_ensures(<H as From<T>>::from, (source,), handler)
                &&& forall|k: int|
                    0 <= k < kinds.len() ==> built.handlers.handler_of((#[trigger] kinds[k])@) == Some(
                        handler,
                    )
                &&& forall|kind: Seq<char>|
                    (forall|k: int| 0 <= k < kinds.len() ==> (#[trigger] kinds[k])@ != kind)
                        ==> #[trigger] built.handlers.handler_of(kind)
                        == before.handlers.handler_of(kind)
            },
{
    let handler = choose|handler: H| #[trigger]
        call_ensures(<H as From<T>>::from, (source,), handler) && super::registers(
            before.handlers,
            built.handlers,
            kinds,
            handler,
        );
    assert forall|k: int| 0 <= k < kinds.len() implies built.handlers.handler_of(
        (#[trigger] kinds[k])@,
    ) == Some(handler) by {
        assert(crate::event::is_kind(kinds, kinds[k]@));
    }
}

/// The filters for one aggregate instance pick its stream: every event of it with one of
/// the kinds after the position, and nothing else.
pub proof fn instance_filters_pick_their_stream<Id: StreamId, M>(
    kinds: Seq<&'static str>,
    aggregate_kind: Seq<char>,
    id: Id::Key,
    after: Option<u64>,
    filters: Seq<EventFilter<Id, u64>>,
    log: Seq<InMemoryEvent<Id, M>>,
    event: InMemoryEvent<Id, M>,
)
    requires
        super::all_placed_after(
            super::within_of(kinds, aggregate_kind, id),
            after,
            crate::store::selectors(filters),
        ),
    ensures
        crate::store::inmemory::matching(log, crate::store::selectors(filters)).contains(event) <==> {
            &&& log.contains(event)
            &&& event.aggregate_kind@ == aggregate_kind
            &&& event.aggregate_id.key() == id
            &&& crate::store::records::of_kinds_after(event, kinds, after)
        },
{
    let has = super::within_of::<Id::Key, ()>(kinds, aggregate_kind, id);
    lemma_placed_filters_pick(log, has, after, crate::store::selectors(filters), event);
    assert forall|k: int| 0 <= k < kinds.len() implies {
        &&& has[k].event_kind == (#[trigger] kinds[k])@
        &&& has[k].aggregate_kind == Some(aggregate_kind)
        &&& has[k].aggregate_id == Some(id)
    } by {}
    if crate::store::inmemory::matching(log, crate::store::selectors(filters)).contains(event) {
        let i = choose|i: int|
            {
                &&& 0 <= i < has.len()
                &&& event.kind@ == (#[trigger] has[i]).event_kind
                &&& has[i].aggregate_kind is Some ==> event.aggregate_kind@
                    == has[i].aggregate_kind->0
                &&& has[i].aggregate_id is Some ==> event.aggregate_id.key()
                    == has[i].aggregate_id->0
            };
        assert(kinds[i]@ == event.kind@);
    }
    if crate::store::records::of_kinds_after(event, kinds, after) {
        let k = choose|k: int| 0 <= k < kinds.len() && (#[trigger] kinds[k])@ == event.kind@;
        assert(has[k].event_kind == event.kind@);
    }
}

/// The handler for one event type applies what it decodes: the event in the record, with
/// the instance it belongs to and its metadata, cloned and converted. It refuses what cannot
/// be decoded, for the store's reason, and nothing else.
pub proof fn domain_handlers_apply_the_event<P, S, E>(
    handler: DomainHandler<E>,
    before: P,
    stored: StoredEvent<S::Id, S::Position, S::Data, S::Metadata>,
    after: P,
    error: HandlerError<S::Error>,
) where
    S: EventStore,
    P: ApplyProjection<E> + Subscribable<Id = S::Id>,
    E: DecodeEvent<S>,
    S::Metadata: Clone + Into<<P as Subscribable>::Metadata>,

    ensures
        <DomainHandler<E> as EventHandler<P, S>>::handled(&handler, before, stored, after) ==> {
            &&& E::decoded(stored) is Some
            &&& exists|copy: S::Metadata, metadata: <P as Subscribable>::Metadata|
                {
                    &&& cloned(stored.metadata, copy)
                    &&& #[trigger] call_ensures(
                        <S::Metadata as Into<<P as Subscribable>::Metadata>>::into,
                        (copy,),
                        metadata,
                    )
                    &&& after == before.projected(
                        stored.aggregate_id,
                        E::decoded(stored)->0,
                        metadata,
                    )
                }
        },
        <DomainHandler<E> as EventHandler<P, S>>::refused(&handler, stored, error) ==> {
            &&& E::decoded(stored) is None
            &&& error is Store
            &&& E::undecodable(stored, error->Store_0)
        },
{
}

/// The handler for a sum type applies what it restores, as the handler for one event type
/// applies what it decodes. It refuses what cannot be restored and nothing else: a kind that
/// the sum type does not know by that kind and those it knows, any other record for the
/// store's reason.
pub proof fn sum_handlers_apply_the_event<P, S, E>(
    handler: SumHandler<E>,
    before: P,
    stored: StoredEvent<S::Id, S::Position, S::Data, S::Metadata>,
    after: P,
    error: HandlerError<S::Error>,
) where
    S: EventStore,
    P: ApplyProjection<E> + Subscribable<Id = S::Id>,
    E: ProjectionEvent<S>,
    S::Metadata: Clone + Into<<P as Subscribable>::Metadata>,

    ensures
        <SumHandler<E> as EventHandler<P, S>>::handled(&handler, before, stored, after) ==> {
            &&& E::restored(stored) is Some
            &&& exists|copy: S::Metadata, metadata: <P as Subscribable>::Metadata|
                {
                    &&& cloned(stored.metadata, copy)
                    &&& #[trigger] call_ensures(
                        <S::Metadata as Into<<P as Subscribable>::Metadata>>::into,
                        (copy,),
                        metadata,
                    )
                    &&& after == before.projected(
                        stored.aggregate_id,
                        E::restored(stored)->0,
                        metadata,
                    )
                }
        },
        <SumHandler<E> as EventHandler<P, S>>::refused(&handler, stored, error) ==> {
            &&& E::restored(stored) is None
            &&& error is EventDecode
            &&& if exists|k: int|
                0 <= k < E::EVENT_KINDS@.len() && (#[trigger] E::EVENT_KINDS@[k])@ == stored.kind@ {
                &&& error->EventDecode_0 is Store
                &&& E::unrestorable(stored, error->EventDecode_0->Store_0)
            } else {
                &&& error->EventDecode_0 is UnknownKind
                &&& error->EventDecode_0->UnknownKind_kind@ == stored.kind@
                &&& error->EventDecode_0->UnknownKind_expected@ == E::EVENT_KINDS@
            }
        },
{
}

/// Filters that are handed out are placed after the position.
proof fn lemma_filters_are_placed<S: EventStore, P, H>(
    built: Filters<S, P, H>,
    after: Option<&S::Position>,
    r: (Vec<EventFilter<S::Id, S::Position>>, Handlers<H>),
)
    requires
        call_ensures(Filters::<S, P, H>::into_event_filters, (built, after), r),
    ensures
        super::all_placed_after(
            crate::store::selectors(built.specs@),
            match after {
                Some(position) => Some(*position),
                None => None,
            },
            crate::store::selectors(r.0@),
        ),
{
}

/// A projection that subscribes to one event type of one aggregate instance gets exactly the
/// events of that kind in the stream of that instance, after the position.
pub proof fn projections_of_one_event_get_its_stream<A, E, P, H, Id, M, F>(
    empty: Filters<Store<Id, M, F>, P, H>,
    aggregate_id: &Id,
    built: Filters<Store<Id, M, F>, P, H>,
    after: Option<&u64>,
    r: (Vec<EventFilter<Id, u64>>, Handlers<H>),
    log: Seq<InMemoryEvent<Id, M>>,
) where
    A: Aggregate<Id = Id>,
    E: DomainEvent,
    H: From<DomainHandler<E>>,
    Id: StreamId,
    M: Clone,

    requires
        call_ensures(Filters::<Store<Id, M, F>, P, H>::new, (), empty),
        call_ensures(
            Filters::<Store<Id, M, F>, P, H>::event_for::<A, E>,
            (empty, aggregate_id),
            built,
        ),
        call_ensures(
            Filters::<Store<Id, M, F>, P, H>::into_event_filters,
            (built, after),
            r,
        ),
    ensures
        crate::reactor::laws::picks_the_stream(
            log,
            r.0@,
            A::KIND@,
            aggregate_id.key(),
            seq![E::KIND],
            match after {
                Some(position) => Some(*position),
                None => None,
            },
        ),
{
    let kinds = seq![E::KIND];
    let position = match after {
        Some(position) => Some(*position),
        None => None,
    };
    lemma_filters_are_placed(built, after, r);
    instance_subscriptions_get_their_stream(
        empty,
        kinds,
        A::KIND@,
        *aggregate_id,
        DomainHandler::<E>::only(),
        built,
        position,
        r.0@,
        log,
    );
}

/// A projection that subscribes to all events of one aggregate instance gets exactly the events
/// of the kinds that its event type knows in the stream of that instance, after the
/// position.
pub proof fn projections_of_one_instance_get_its_stream<A, P, H, Id, M, F>(
    empty: Filters<Store<Id, M, F>, P, H>,
    aggregate_id: &Id,
    built: Filters<Store<Id, M, F>, P, H>,
    after: Option<&u64>,
    r: (Vec<EventFilter<Id, u64>>, Handlers<H>),
    log: Seq<InMemoryEvent<Id, M>>,
) where
    A: Aggregate<Id = Id>,
    A::Event: ProjectionEvent<Store<Id, M, F>>,
    H: From<SumHandler<A::Event>>,
    Id: StreamId,
    M: Clone,

    requires
        call_ensures(Filters::<Store<Id, M, F>, P, H>::new, (), empty),
        call_ensures(
            Filters::<Store<Id, M, F>, P, H>::events_for::<A>,
            (empty, aggregate_id),
            built,
        ),
        call_ensures(
            Filters::<Store<Id, M, F>, P, H>::into_event_filters,
            (built, after),
            r,
        ),
    ensures
        crate::reactor::laws::picks_the_stream(
            log,
            r.0@,
            A::KIND@,
            aggregate_id.key(),
            <A::Event as ProjectionEvent<Store<Id, M, F>>>::EVENT_KINDS@,
            match after {
                Some(position) => Some(*position),
                None => None,
            },
        ),
{
    let kinds = <A::Event as ProjectionEvent<Store<Id, M, F>>>::EVENT_KINDS@;
    let position = match after {
        Some(position) => Some(*position),
        None => None,
    };
    lemma_filters_are_placed(built, after, r);
    instance_subscriptions_get_their_stream(
        empty,
        kinds,
        A::KIND@,
        *aggregate_id,
        SumHandler::<A::Event>::only(),
        built,
        position,
        r.0@,
        log,
    );
}

} // verus!
