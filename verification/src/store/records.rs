//! What the in-memory store keeps and hands out, event by event.

use nonempty::NonEmpty;
use vstd::prelude::*;

use super::{
    inmemory::{EncodedEvent, InMemoryEvent, Store},
    EventFilter, Selector, StreamId,
};
use crate::subscription::Delivery;

verus! {

/// Whether a filter names this event: by its kind and, where the filter says more, by its
/// aggregate's kind, by its aggregate, and by lying past a position.
pub open spec fn names<Id: StreamId, M>(
    filter: EventFilter<Id, u64>,
    event: InMemoryEvent<Id, M>,
) -> bool {
    &&& event.kind@ == filter.event_kind@
    &&& filter.aggregate_kind is None || event.aggregate_kind@ == filter.aggregate_kind->0@
    &&& filter.aggregate_id is None || event.aggregate_id.key() == filter.aggregate_id->0.key()
    &&& filter.after_position is None || filter.after_position->0 < event.position
}

/// Whether one of `filters` names this event.
pub open spec fn named_by<Id: StreamId, M>(
    filters: Seq<EventFilter<Id, u64>>,
    event: InMemoryEvent<Id, M>,
) -> bool {
    exists|j: int| 0 <= j < filters.len() && names(#[trigger] filters[j], event)
}

/// A load returns what its filters ask for, and nothing else: every event that comes out
/// is named by some filter, and every committed event that some filter names comes out,
/// once, as it was committed, in the order of commits.
pub proof fn loads_are_what_was_asked_for<Id: StreamId, M: Clone>(
    log: Seq<InMemoryEvent<Id, M>>,
    filters: Seq<EventFilter<Id, u64>>,
    loaded: Seq<InMemoryEvent<Id, M>>,
)
    requires
        crate::store::inmemory::positioned(log),
        crate::store::inmemory::copies_of(
            crate::store::inmemory::matching(log, crate::store::selectors(filters)),
            loaded,
        ),
    ensures
        forall|i: int| 0 <= i < loaded.len() ==> named_by(filters, #[trigger] loaded[i]),
        forall|i: int|
            0 <= i < loaded.len() ==> {
                let committed = log[loaded[i].position as int];
                &&& (#[trigger] loaded[i]).position < log.len()
                &&& loaded[i].kind@ == committed.kind@
                &&& loaded[i].aggregate_kind@ == committed.aggregate_kind@
                &&& loaded[i].aggregate_id.key() == committed.aggregate_id.key()
                &&& loaded[i].data == committed.data
                &&& cloned(committed.metadata, loaded[i].metadata)
            },
        forall|p: int|
            0 <= p < log.len() && named_by(filters, #[trigger] log[p]) ==> exists|i: int|
                0 <= i < loaded.len() && (#[trigger] loaded[i]).position == p,
        forall|i: int, j: int|
            0 <= i < j < loaded.len() ==> (#[trigger] loaded[i]).position < (
            #[trigger] loaded[j]).position,
{
    let selectors = crate::store::selectors(filters);
    let pred = crate::store::inmemory::accepted_by::<Id, M>(selectors);
    let found = crate::store::inmemory::matching(log, selectors);
    crate::store::inmemory::lemma_filter_ascending(log, pred);
    assert forall|i: int| 0 <= i < loaded.len() implies {
        let committed = log[loaded[i].position as int];
        &&& (#[trigger] loaded[i]).position < log.len()
        &&& committed == found[i]
        &&& crate::store::inmemory::copy_of(found[i], loaded[i])
    } by {
        assert(crate::store::inmemory::copy_of(found[i], loaded[i]));
        assert(found.contains(found[i]));
        log.lemma_filter_contains_rev(pred, found[i]);
    }
    assert forall|i: int| 0 <= i < loaded.len() implies named_by(
        filters,
        #[trigger] loaded[i],
    ) by {
        assert(crate::store::inmemory::copy_of(found[i], loaded[i]));
        log.lemma_filter_pred(pred, i);
        let j = choose|j: int|
            0 <= j < selectors.len() && crate::store::inmemory::accepts(
                #[trigger] selectors[j],
                found[i],
            );
        assert(selectors[j] == filters[j].selector());
        assert(names(filters[j], loaded[i]));
    }
    assert forall|p: int|
        0 <= p < log.len() && named_by(filters, #[trigger] log[p]) implies exists|i: int|
        0 <= i < loaded.len() && (#[trigger] loaded[i]).position == p by {
        let j = choose|j: int| 0 <= j < filters.len() && names(#[trigger] filters[j], log[p]);
        assert(selectors[j] == filters[j].selector());
        assert(crate::store::inmemory::accepts(selectors[j], log[p]));
        log.lemma_filter_contains(pred, p);
        let i = choose|i: int| 0 <= i < found.len() && found[i] == log[p];
        assert(crate::store::inmemory::copy_of(found[i], loaded[i]));
    }
    assert forall|i: int, j: int| 0 <= i < j < loaded.len() implies (
    #[trigger] loaded[i]).position < (#[trigger] loaded[j]).position by {
        assert(crate::store::inmemory::copy_of(found[i], loaded[i]));
        assert(crate::store::inmemory::copy_of(found[j], loaded[j]));
        assert(found[i].position < found[j].position);
    }
}

/// Every event that a load returns has exactly the kind that one of the filters names.
pub proof fn loads_have_the_kinds_asked_for<Id: StreamId, M: Clone>(
    log: Seq<InMemoryEvent<Id, M>>,
    filters: Seq<EventFilter<Id, u64>>,
    loaded: Seq<InMemoryEvent<Id, M>>,
    i: int,
)
    requires
        crate::store::inmemory::positioned(log),
        crate::store::inmemory::copies_of(
            crate::store::inmemory::matching(log, crate::store::selectors(filters)),
            loaded,
        ),
        0 <= i < loaded.len(),
    ensures
        exists|j: int|
            0 <= j < filters.len() && (#[trigger] filters[j]).event_kind@ == loaded[i].kind@,
{
    loads_are_what_was_asked_for(log, filters, loaded);
    let j = choose|j: int| 0 <= j < filters.len() && names(#[trigger] filters[j], loaded[i]);
    assert(filters[j].event_kind@ == loaded[i].kind@);
}

/// Filters for kinds alone, without an aggregate or a position, select precisely the
/// committed events whose kind is one of those named.
pub proof fn kinds_are_selected_exactly<Id: StreamId, M: Clone>(
    log: Seq<InMemoryEvent<Id, M>>,
    filters: Seq<EventFilter<Id, u64>>,
    loaded: Seq<InMemoryEvent<Id, M>>,
    p: int,
)
    requires
        crate::store::inmemory::positioned(log),
        forall|j: int|
            0 <= j < filters.len() ==> {
                &&& (#[trigger] filters[j]).aggregate_kind is None
                &&& filters[j].aggregate_id is None
                &&& filters[j].after_position is None
            },
        crate::store::inmemory::copies_of(
            crate::store::inmemory::matching(log, crate::store::selectors(filters)),
            loaded,
        ),
        0 <= p < log.len(),
    ensures
        (exists|i: int| 0 <= i < loaded.len() && (#[trigger] loaded[i]).position == p) <==> (exists|
            j: int,
        |
            0 <= j < filters.len() && (#[trigger] filters[j]).event_kind@ == log[p].kind@),
{
    loads_are_what_was_asked_for(log, filters, loaded);
    if exists|i: int| 0 <= i < loaded.len() && (#[trigger] loaded[i]).position == p {
        let i = choose|i: int| 0 <= i < loaded.len() && (#[trigger] loaded[i]).position == p;
        loads_have_the_kinds_asked_for(log, filters, loaded, i);
        let j = choose|j: int|
            0 <= j < filters.len() && (#[trigger] filters[j]).event_kind@ == loaded[i].kind@;
        assert(filters[j].event_kind@ == log[p].kind@);
    }
    if exists|j: int| 0 <= j < filters.len() && (#[trigger] filters[j]).event_kind@ == log[p].kind@ {
        let j = choose|j: int|
            0 <= j < filters.len() && (#[trigger] filters[j]).event_kind@ == log[p].kind@;
        assert(names(filters[j], log[p]));
    }
}

/// Filters that all name one stream and one position to start after select precisely the
/// events of that stream past that position, with the kinds that are named.
pub proof fn streams_are_selected_exactly<Id: StreamId, M: Clone>(
    log: Seq<InMemoryEvent<Id, M>>,
    filters: Seq<EventFilter<Id, u64>>,
    aggregate_kind: Seq<char>,
    aggregate_id: Id::Key,
    after: Option<u64>,
    loaded: Seq<InMemoryEvent<Id, M>>,
    p: int,
)
    requires
        crate::store::inmemory::positioned(log),
        forall|j: int|
            0 <= j < filters.len() ==> {
                &&& (#[trigger] filters[j]).aggregate_kind matches Some(kind)
                &&& kind@ == aggregate_kind
                &&& filters[j].aggregate_id matches Some(id)
                &&& id.key() == aggregate_id
                &&& filters[j].after_position == after
            },
        crate::store::inmemory::copies_of(
            crate::store::inmemory::matching(log, crate::store::selectors(filters)),
            loaded,
        ),
        0 <= p < log.len(),
    ensures
        (exists|i: int| 0 <= i < loaded.len() && (#[trigger] loaded[i]).position == p) <==> ({
            &&& log[p].aggregate_kind@ == aggregate_kind
            &&& log[p].aggregate_id.key() == aggregate_id
            &&& after is None || after->0 < p
            &&& exists|j: int|
                0 <= j < filters.len() && (#[trigger] filters[j]).event_kind@ == log[p].kind@
        }),
{
    loads_are_what_was_asked_for(log, filters, loaded);
    if exists|i: int| 0 <= i < loaded.len() && (#[trigger] loaded[i]).position == p {
        let i = choose|i: int| 0 <= i < loaded.len() && (#[trigger] loaded[i]).position == p;
        let j = choose|j: int| 0 <= j < filters.len() && names(#[trigger] filters[j], loaded[i]);
        assert(filters[j].event_kind@ == log[p].kind@);
    }
    if exists|j: int| 0 <= j < filters.len() && (#[trigger] filters[j]).event_kind@ == log[p].kind@ {
        let j = choose|j: int|
            0 <= j < filters.len() && (#[trigger] filters[j]).event_kind@ == log[p].kind@;
        if log[p].aggregate_kind@ == aggregate_kind && log[p].aggregate_id.key() == aggregate_id && (
        after is None || after->0 < p) {
            assert(names(filters[j], log[p]));
        }
    }
}

/// A commit writes down what it was given: the log keeps what it held, and behind it come
/// the events of the batch, one for each, in the order of the batch, with their kinds and
/// payloads, in the stream that was named, with the metadata that was given, each at the
/// position of its place in the log.
pub proof fn commits_write_what_was_given<Id: StreamId, M: Clone, E>(
    before: Seq<InMemoryEvent<Id, M>>,
    after: Seq<InMemoryEvent<Id, M>>,
    kind: Seq<char>,
    id: Id::Key,
    events: NonEmpty<EncodedEvent<E>>,
    metadata: M,
)
    requires
        crate::store::inmemory::all_encoded(crate::store::batch(events)),
        crate::store::inmemory::appended(
            before,
            after,
            kind,
            id,
            crate::store::inmemory::payloads(crate::store::batch(events)),
            metadata,
        ),
    ensures
        after.len() == before.len() + 1 + events.tail@.len(),
        forall|p: int| 0 <= p < before.len() ==> #[trigger] after[p] == before[p],
        forall|p: int|
            before.len() <= p < after.len() ==> {
                let given = if p == before.len() {
                    events.head
                } else {
                    events.tail@[p - before.len() - 1]
                };
                &&& (#[trigger] after[p]).kind@ == given.kind@
                &&& given.data == Ok::<_, E>(after[p].data)
                &&& after[p].aggregate_kind@ == kind
                &&& after[p].aggregate_id.key() == id
                &&& cloned(metadata, after[p].metadata)
                &&& after[p].position == p
            },
{
    let batch = crate::store::batch(events);
    let staged = crate::store::inmemory::payloads(batch);
    assert forall|p: int| 0 <= p < before.len() implies #[trigger] after[p] == before[p] by {
        assert(after.take(before.len() as int)[p] == after[p]);
    }
    assert forall|p: int| before.len() <= p < after.len() implies {
        let given = if p == before.len() {
            events.head
        } else {
            events.tail@[p - before.len() - 1]
        };
        &&& (#[trigger] after[p]).kind@ == given.kind@
        &&& given.data == Ok::<_, E>(after[p].data)
        &&& after[p].aggregate_kind@ == kind
        &&& after[p].aggregate_id.key() == id
        &&& cloned(metadata, after[p].metadata)
        &&& after[p].position == p
    } by {
        let i = p - before.len();
        assert(crate::store::inmemory::recorded(
            after[before.len() + i],
            kind,
            id,
            staged[i],
            metadata,
            before.len() + i,
        ));
        assert(batch[i].data is Ok);
    }
}

/// A batch is accepted only as a whole: it counts as encoded exactly where every one of
/// its events is, and a failure names the first event that is not, with its cause.
pub proof fn batches_stand_or_fall_together<E>(
    events: NonEmpty<EncodedEvent<E>>,
    index: int,
    cause: E,
)
    ensures
        crate::store::inmemory::all_encoded(crate::store::batch(events)) <==> events.head.data is Ok
            && forall|i: int| 0 <= i < events.tail@.len() ==> (#[trigger] events.tail@[i]).data is Ok,
        crate::store::inmemory::first_failure(crate::store::batch(events), index, cause) ==> {
            &&& 0 <= index <= events.tail@.len()
            &&& index == 0 ==> events.head.data is Err && events.head.data->Err_0 == cause
            &&& index > 0 ==> {
                &&& events.head.data is Ok
                &&& events.tail@[index - 1].data is Err
                &&& events.tail@[index - 1].data->Err_0 == cause
                &&& forall|i: int|
                    0 <= i < index - 1 ==> (#[trigger] events.tail@[i]).data is Ok
            }
        },
{
    let batch = crate::store::batch(events);
    assert(batch[0] == events.head);
    assert forall|i: int| 0 <= i < events.tail@.len() implies #[trigger] events.tail@[i] == batch[i
        + 1] by {}
    if crate::store::inmemory::all_encoded(batch) {
        assert forall|i: int| 0 <= i < events.tail@.len() implies (
        #[trigger] events.tail@[i]).data is Ok by {
            assert(batch[i + 1].data is Ok);
        }
    }
    if crate::store::inmemory::first_failure(batch, index, cause) && index > 0 {
        assert forall|i: int| 0 <= i < index - 1 implies (
        #[trigger] events.tail@[i]).data is Ok by {
            assert(batch[i + 1].data is Ok);
        }
    }
}

/// The version of a stream is the position of its last event: an event of that stream
/// stands there, and none after it. A stream without a version has no events.
pub proof fn versions_are_last_positions<Id: StreamId, M>(
    log: Seq<InMemoryEvent<Id, M>>,
    kind: Seq<char>,
    id: Id::Key,
)
    requires
        crate::store::inmemory::positioned(log),
    ensures
        match crate::store::inmemory::version_of(log, kind, id) {
            Some(version) => {
                &&& version < log.len()
                &&& log[version as int].aggregate_kind@ == kind
                &&& log[version as int].aggregate_id.key() == id
                &&& forall|p: int|
                    version < p < log.len() ==> !((#[trigger] log[p]).aggregate_kind@ == kind
                        && log[p].aggregate_id.key() == id)
            },
            None => forall|p: int|
                0 <= p < log.len() ==> !((#[trigger] log[p]).aggregate_kind@ == kind
                    && log[p].aggregate_id.key() == id),
        },
{
    let pred = crate::store::inmemory::in_stream::<Id, M>(kind, id);
    let stream = log.filter(pred);
    crate::store::inmemory::lemma_filter_ascending(log, pred);
    if stream.len() > 0 {
        assert(stream.contains(stream.last()));
        log.lemma_filter_contains_rev(pred, stream.last());
        log.lemma_filter_pred(pred, stream.len() - 1);
        let version = stream.last().position as int;
        assert(log[version] == stream.last());
    }
    assert forall|p: int|
        0 <= p < log.len() && (#[trigger] log[p]).aggregate_kind@ == kind
            && log[p].aggregate_id.key() == id implies stream.len() > 0 && p
        <= stream.last().position by {
        log.lemma_filter_contains(pred, p);
        let k = choose|k: int| 0 <= k < stream.len() && stream[k] == log[p];
        if k < stream.len() - 1 {
            assert(stream[k].position < stream[stream.len() - 1].position);
        }
    }
}

/// Positions number the events from zero, the latest checkpoint is the last position, and
/// every position that was given is its own checkpoint.
pub proof fn checkpoints_are_positions<Id: StreamId, M>(
    log: Seq<InMemoryEvent<Id, M>>,
    position: u64,
)
    requires
        crate::store::inmemory::positioned(log),
        log.len() <= u64::MAX,
    ensures
        forall|p: int| 0 <= p < log.len() ==> (#[trigger] log[p]).position == p,
        log.len() == 0 ==> crate::store::inmemory::latest(log) is None,
        log.len() > 0 ==> crate::store::inmemory::latest(log) == Some(log.last().position),
        position < log.len() ==> crate::store::inmemory::checkpoint_of(log, position) == Some(
            position,
        ),
        position >= log.len() ==> crate::store::inmemory::checkpoint_of(log, position) is None,
{
}

/// The checkpoint that catch-up ends at is the greatest position of any event that the
/// filters ask for; there is none where they ask for nothing that was committed.
pub proof fn catch_up_ends_at_the_newest<Id: StreamId, M: Clone>(
    log: Seq<InMemoryEvent<Id, M>>,
    filters: Seq<EventFilter<Id, u64>>,
    loaded: Seq<InMemoryEvent<Id, M>>,
)
    requires
        crate::store::inmemory::positioned(log),
        crate::store::inmemory::copies_of(
            crate::store::inmemory::matching(log, crate::store::selectors(filters)),
            loaded,
        ),
    ensures
        match crate::store::inmemory::newest(
            crate::store::inmemory::matching(log, crate::store::selectors(filters)),
        ) {
            Some(newest) => {
                &&& exists|i: int| 0 <= i < loaded.len() && (#[trigger] loaded[i]).position == newest
                &&& forall|i: int|
                    0 <= i < loaded.len() ==> (#[trigger] loaded[i]).position <= newest
            },
            None => loaded.len() == 0,
        },
{
    loads_are_what_was_asked_for(log, filters, loaded);
    let found = crate::store::inmemory::matching(log, crate::store::selectors(filters));
    if found.len() > 0 {
        let n = found.len() - 1;
        assert(crate::store::inmemory::copy_of(found[n], loaded[n]));
        assert forall|i: int| 0 <= i < loaded.len() implies (#[trigger] loaded[i]).position
            <= found.last().position by {
            if i < n {
                assert(loaded[i].position < loaded[n].position);
            }
        }
    }
}

/// A drain hands out what lies past its cursor: the events of a load whose positions are
/// greater, in the same order, each at the checkpoint of its position.
pub proof fn drains_hand_out_what_is_new<Id: StreamId, M: Clone, E>(
    log: Seq<InMemoryEvent<Id, M>>,
    filters: Seq<EventFilter<Id, u64>>,
    cursor: Option<u64>,
    i: int,
    delivery: Delivery<Store<Id, M, E>>,
)
    requires
        crate::store::inmemory::positioned(log),
        0 <= i < crate::store::inmemory::unseen(
            log,
            crate::store::selectors(filters),
            cursor,
        ).len(),
        crate::store::inmemory::delivers(
            delivery,
            crate::store::inmemory::unseen(log, crate::store::selectors(filters), cursor)[i],
        ),
    ensures
        delivery is Event,
        ({
            let item = delivery->Event_0;
            let committed = log[item.checkpoint as int];
            &&& item.checkpoint == item.event.position
            &&& item.checkpoint < log.len()
            &&& cursor is None || cursor->0 < item.checkpoint
            &&& item.event.kind@ == committed.kind@
            &&& item.event.aggregate_kind@ == committed.aggregate_kind@
            &&& item.event.aggregate_id.key() == committed.aggregate_id.key()
            &&& item.event.data == committed.data
            &&& cloned(committed.metadata, item.event.metadata)
            &&& named_by(filters, committed)
        }),
{
    let selectors = crate::store::selectors(filters);
    let pred = crate::store::inmemory::accepted_by::<Id, M>(selectors);
    let found = crate::store::inmemory::matching(log, selectors);
    let later = crate::store::inmemory::past::<Id, M>(cursor);
    let fresh = crate::store::inmemory::unseen(log, selectors, cursor);
    found.lemma_filter_pred(later, i);
    assert(fresh.contains(fresh[i]));
    found.lemma_filter_contains_rev(later, fresh[i]);
    let k = choose|k: int| 0 <= k < found.len() && found[k] == fresh[i];
    assert(found.contains(found[k]));
    log.lemma_filter_contains_rev(pred, found[k]);
    log.lemma_filter_pred(pred, k);
    let j = choose|j: int|
        0 <= j < selectors.len() && crate::store::inmemory::accepts(
            #[trigger] selectors[j],
            found[k],
        );
    assert(selectors[j] == filters[j].selector());
    assert(names(filters[j], found[k]));
}

/// A drain leaves nothing behind: every committed event that some filter names and that
/// lies past the cursor is among what it hands out. They come in order, and the cursor
/// moves to the last; it stays where it was if there is none.
pub proof fn drains_leave_nothing_behind<Id: StreamId, M>(
    log: Seq<InMemoryEvent<Id, M>>,
    filters: Seq<EventFilter<Id, u64>>,
    cursor: Option<u64>,
)
    requires
        crate::store::inmemory::positioned(log),
    ensures
        ({
            let fresh = crate::store::inmemory::unseen(
                log,
                crate::store::selectors(filters),
                cursor,
            );
            &&& forall|p: int|
                {
                    &&& 0 <= p < log.len()
                    &&& cursor is None || cursor->0 < p
                    &&& named_by(filters, #[trigger] log[p])
                } ==> fresh.contains(log[p])
            &&& forall|i: int, j: int|
                0 <= i < j < fresh.len() ==> (#[trigger] fresh[i]).position < (
                #[trigger] fresh[j]).position
            &&& crate::store::inmemory::moved_past(cursor, fresh) == if fresh.len() == 0 {
                cursor
            } else {
                Some(fresh[fresh.len() - 1].position)
            }
        }),
{
    let selectors = crate::store::selectors(filters);
    let pred = crate::store::inmemory::accepted_by::<Id, M>(selectors);
    let found = crate::store::inmemory::matching(log, selectors);
    let later = crate::store::inmemory::past::<Id, M>(cursor);
    crate::store::inmemory::lemma_filter_ascending(log, pred);
    crate::store::inmemory::lemma_filter_ascending(found, later);
    assert forall|p: int|
        {
            &&& 0 <= p < log.len()
            &&& cursor is None || cursor->0 < p
            &&& named_by(filters, #[trigger] log[p])
        } implies crate::store::inmemory::unseen(log, selectors, cursor).contains(log[p]) by {
        let j = choose|j: int| 0 <= j < filters.len() && names(#[trigger] filters[j], log[p]);
        assert(selectors[j] == filters[j].selector());
        assert(crate::store::inmemory::accepts(selectors[j], log[p]));
        log.lemma_filter_contains(pred, p);
        let k = choose|k: int| 0 <= k < found.len() && found[k] == log[p];
        found.lemma_filter_contains(later, k);
    }
}

/// Whether `event` is what a selector asks for: of its kind, in its stream where it names
/// one, and after its position where it gives one.
pub open spec fn asked_by<Id: StreamId, M>(
    selector: Selector<Id::Key, u64>,
    event: InMemoryEvent<Id, M>,
) -> bool {
    &&& event.kind@ == selector.event_kind
    &&& selector.aggregate_kind is Some ==> event.aggregate_kind@ == selector.aggregate_kind->0
    &&& selector.aggregate_id is Some ==> event.aggregate_id.key() == selector.aggregate_id->0
    &&& selector.after_position is Some ==> event.position > selector.after_position->0
}

/// What selectors pick from a log is what is in it and one of them asks for.
pub proof fn selectors_pick_what_they_ask_for<Id: StreamId, M>(
    log: Seq<InMemoryEvent<Id, M>>,
    selectors: Seq<Selector<Id::Key, u64>>,
    event: InMemoryEvent<Id, M>,
)
    ensures
        crate::store::inmemory::matching(log, selectors).contains(event) <==> log.contains(event)
            && exists|i: int|
            0 <= i < selectors.len() && asked_by::<Id, M>(#[trigger] selectors[i], event),
{
    let pred = crate::store::inmemory::accepted_by::<Id, M>(selectors);
    let found = crate::store::inmemory::matching(log, selectors);
    if found.contains(event) {
        log.lemma_filter_contains_rev(pred, event);
        let p = choose|p: int| 0 <= p < found.len() && found[p] == event;
        log.lemma_filter_pred(pred, p);
        let i = choose|i: int|
            0 <= i < selectors.len() && crate::store::inmemory::accepts(
                #[trigger] selectors[i],
                event,
            );
        assert(asked_by::<Id, M>(selectors[i], event));
    }
    if log.contains(event) && exists|i: int|
        0 <= i < selectors.len() && asked_by::<Id, M>(#[trigger] selectors[i], event) {
        let i = choose|i: int|
            0 <= i < selectors.len() && asked_by::<Id, M>(#[trigger] selectors[i], event);
        assert(crate::store::inmemory::accepts(selectors[i], event));
        let p = choose|p: int| 0 <= p < log.len() && log[p] == event;
        assert(pred(log[p]));
        log.lemma_filter_contains(pred, p);
    }
}

/// Whether `event` has one of `kinds` and comes after `after`.
pub open spec fn of_kinds_after<Id, M>(
    event: InMemoryEvent<Id, M>,
    kinds: Seq<&'static str>,
    after: Option<u64>,
) -> bool {
    &&& after is Some ==> event.position > after->0
    &&& exists|k: int| 0 <= k < kinds.len() && (#[trigger] kinds[k])@ == event.kind@
}

} // verus!
