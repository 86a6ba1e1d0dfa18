//! In-memory event store.

use std::{collections::BTreeMap, marker::PhantomData};

use nonempty::NonEmpty;
use serde_json::Value;
use vstd::prelude::*;

use crate::{
    concurrency::ConcurrencyConflict,
    message::{prefixed_message, Message},
    store::{
        CommitError, Committed, EventFilter, EventStore, GloballyOrderedStore,
        OptimisticCommitError, Selector, StoredEvent, StreamId, StreamKey,
    },
    subscription::{Checkpointed, Delivery, SubscribableStore},
};

verus! {

/// A JSON value; its contents are opaque here.
#[verifier::external_type_specification]
#[verifier::external_body]
pub struct ExValue(serde_json::Value);

/// `Value::clone` copies the value: the copy is equal to it.
pub assume_specification[ <serde_json::Value as Clone>::clone ](value: &serde_json::Value) -> (copy:
    serde_json::Value)
    ensures
        copy == *value,
;

/// An event as this store keeps it.
pub type InMemoryEvent<Id, M> = StoredEvent<Id, u64, Value, M>;

/// Error type for in-memory store.
#[derive(Debug)]
pub enum InMemoryError<E> {
    /// An event could not be turned into JSON.
    Serialization(E),
    /// JSON could not be turned into an event.
    Deserialization(E),
}

impl<E: Message> Message for InMemoryError<E> {
    open spec fn described_by(&self, text: Seq<char>) -> bool {
        match self {
            InMemoryError::Serialization(cause) => crate::message::prefixed(
                "serialization error: "@,
                cause,
                text,
            ),
            InMemoryError::Deserialization(cause) => crate::message::prefixed(
                "deserialization error: "@,
                cause,
                text,
            ),
        }
    }

    fn message(&self) -> (text: String) {
        match self {
            InMemoryError::Serialization(cause) => prefixed_message(
                "serialization error: ",
                cause,
            ),
            InMemoryError::Deserialization(cause) => prefixed_message(
                "deserialization error: ",
                cause,
            ),
        }
    }
}

impl<E: Message> InMemoryError<E> {
    /// The text of the underlying failure.
    pub fn source(&self) -> (r: Option<String>)
        ensures
            r matches Some(text) && match self {
                InMemoryError::Serialization(cause) => cause.described_by(text@),
                InMemoryError::Deserialization(cause) => cause.described_by(text@),
            },
    {
        match self {
            InMemoryError::Serialization(cause) => Some(cause.message()),
            InMemoryError::Deserialization(cause) => Some(cause.message()),
        }
    }
}

/// An event on its way into the store: its kind, and what came of encoding it.
pub struct EncodedEvent<E> {
    /// The event type identifier.
    pub kind: String,
    /// The payload, or why there is none.
    pub data: Result<Value, E>,
}

/// One stream and its events, oldest first.
struct Stream<Id, M> {
    key: StreamKey<Id>,
    events: Vec<InMemoryEvent<Id, M>>,
}

/// State of the store.
struct Inner<Id, M> {
    /// All event streams; no two have the same key.
    streams: Vec<Stream<Id, M>>,
    /// Position of the next event to be committed, whatever its stream.
    next_position: u64,
    /// Every event, in the order of commits.
    log: Ghost<Seq<InMemoryEvent<Id, M>>>,
}

/// Picks the events of one stream.
pub open spec fn in_stream<Id: StreamId, M>(kind: Seq<char>, id: Id::Key) -> spec_fn(
    InMemoryEvent<Id, M>,
) -> bool {
    |event: InMemoryEvent<Id, M>| event.aggregate_kind@ == kind && event.aggregate_id.key() == id
}

/// The events of one stream, oldest first.
pub open spec fn stream_of<Id: StreamId, M>(
    log: Seq<InMemoryEvent<Id, M>>,
    kind: Seq<char>,
    id: Id::Key,
) -> Seq<InMemoryEvent<Id, M>> {
    log.filter(in_stream(kind, id))
}

/// Position of the last event of one stream.
pub open spec fn version_of<Id: StreamId, M>(
    log: Seq<InMemoryEvent<Id, M>>,
    kind: Seq<char>,
    id: Id::Key,
) -> Option<u64> {
    let stream = stream_of(log, kind, id);
    if stream.len() == 0 {
        None
    } else {
        Some(stream.last().position)
    }
}

/// Whether positions number the events of `log` from zero, without gaps.
pub open spec fn positioned<Id, M>(log: Seq<InMemoryEvent<Id, M>>) -> bool {
    forall|p: int| 0 <= p < log.len() ==> (#[trigger] log[p]).position == p
}

/// Whether `event` satisfies `filter`.
pub open spec fn accepts<Id: StreamId, M>(
    filter: Selector<Id::Key, u64>,
    event: InMemoryEvent<Id, M>,
) -> bool {
    &&& filter.event_kind == event.kind@
    &&& filter.aggregate_kind matches Some(kind) ==> kind == event.aggregate_kind@
    &&& filter.aggregate_id matches Some(id) ==> id == event.aggregate_id.key()
    &&& filter.after_position matches Some(after) ==> event.position > after
}

/// Picks the events that satisfy at least one of `filters`.
pub open spec fn accepted_by<Id: StreamId, M>(filters: Seq<Selector<Id::Key, u64>>) -> spec_fn(
    InMemoryEvent<Id, M>,
) -> bool {
    |event: InMemoryEvent<Id, M>|
        exists|i: int| 0 <= i < filters.len() && accepts(#[trigger] filters[i], event)
}

/// The events of `log` that satisfy at least one of `filters`, oldest first.
pub open spec fn matching<Id: StreamId, M>(
    log: Seq<InMemoryEvent<Id, M>>,
    filters: Seq<Selector<Id::Key, u64>>,
) -> Seq<InMemoryEvent<Id, M>> {
    log.filter(accepted_by(filters))
}

/// Whether `copy` says of an event what `event` says.
pub open spec fn copy_of<Id: StreamId, M: Clone>(
    event: InMemoryEvent<Id, M>,
    copy: InMemoryEvent<Id, M>,
) -> bool {
    &&& copy.aggregate_kind == event.aggregate_kind
    &&& copy.aggregate_id == event.aggregate_id
    &&& copy.kind == event.kind
    &&& copy.position == event.position
    &&& copy.data == event.data
    &&& cloned(event.metadata, copy.metadata)
}

/// Whether `copies` say of events what `events` say.
pub open spec fn copies_of<Id: StreamId, M: Clone>(
    events: Seq<InMemoryEvent<Id, M>>,
    copies: Seq<InMemoryEvent<Id, M>>,
) -> bool {
    &&& copies.len() == events.len()
    &&& forall|i: int| 0 <= i < copies.len() ==> copy_of(events[i], #[trigger] copies[i])
}

/// Whether `event` records what was staged for it.
pub open spec fn recorded<Id: StreamId, M: Clone>(
    event: InMemoryEvent<Id, M>,
    kind: Seq<char>,
    id: Id::Key,
    staged: (Seq<char>, Value),
    metadata: M,
    position: int,
) -> bool {
    &&& event.aggregate_kind@ == kind
    &&& event.aggregate_id.key() == id
    &&& event.kind@ == staged.0
    &&& event.position == position
    &&& event.data == staged.1
    &&& cloned(metadata, event.metadata)
}

/// Whether `after` is `before` with one event for each staged one at its end.
pub open spec fn appended<Id: StreamId, M: Clone>(
    before: Seq<InMemoryEvent<Id, M>>,
    after: Seq<InMemoryEvent<Id, M>>,
    kind: Seq<char>,
    id: Id::Key,
    staged: Seq<(Seq<char>, Value)>,
    metadata: M,
) -> bool {
    &&& after.len() == before.len() + staged.len()
    &&& before == after.take(before.len() as int)
    &&& forall|i: int|
        0 <= i < staged.len() ==> recorded(
            #[trigger] after[before.len() + i],
            kind,
            id,
            staged[i],
            metadata,
            before.len() + i,
        )
}

impl<Id: StreamId, M> Stream<Id, M> {
    spec fn holds(self, log: Seq<InMemoryEvent<Id, M>>) -> bool {
        self.events@ == stream_of(log, self.key.aggregate_kind@, self.key.aggregate_id.key())
    }

    spec fn named(self, kind: Seq<char>, id: Id::Key) -> bool {
        self.key.aggregate_kind@ == kind && self.key.aggregate_id.key() == id
    }
}

impl<Id: StreamId, M> Inner<Id, M> {
    spec fn wf(self) -> bool {
        &&& self.log@.len() == self.next_position
        &&& positioned(self.log@)
        &&& forall|i: int|
            0 <= i < self.streams@.len() ==> (#[trigger] self.streams@[i]).holds(self.log@)
        &&& forall|i: int, j: int|
            0 <= i < j < self.streams@.len() ==> !(#[trigger] self.streams@[i]).named(
                (#[trigger] self.streams@[j]).key.aggregate_kind@,
                self.streams@[j].key.aggregate_id.key(),
            )
        &&& forall|p: int|
            0 <= p < self.log@.len() ==> self.has_stream(
                (#[trigger] self.log@[p]).aggregate_kind@,
                self.log@[p].aggregate_id.key(),
            )
    }

    spec fn has_stream(self, kind: Seq<char>, id: Id::Key) -> bool {
        exists|i: int| 0 <= i < self.streams@.len() && (#[trigger] self.streams@[i]).named(kind, id)
    }

    fn new() -> (r: Self)
        ensures
            r.wf(),
            r.log@ == Seq::<InMemoryEvent<Id, M>>::empty(),
    {
        Inner { streams: Vec::new(), next_position: 0, log: Ghost(Seq::empty()) }
    }

    /// Index of the stream with the given key.
    fn find(&self, kind: &str, id: &Id) -> (r: Option<usize>)
        ensures
            match r {
                Some(i) => i < self.streams@.len() && self.streams@[i as int].named(
                    kind@,
                    id.key(),
                ),
                None => !self.has_stream(kind@, id.key()),
            },
    {
        let wanted: String = kind.to_owned();
        let mut i: usize = 0;
        while i < self.streams.len()
            invariant
                i <= self.streams@.len(),
                wanted@ == kind@,
                forall|j: int| 0 <= j < i ==> !(#[trigger] self.streams@[j]).named(kind@, id.key()),
            decreases self.streams@.len() - i,
        {
            let stream: &Stream<Id, M> = &self.streams[i];
            if stream.key.aggregate_kind == wanted && stream.key.aggregate_id.same_id(id) {
                return Some(i);
            }
            i = i + 1;
        }
        None
    }

    /// Position of the last event of one stream.
    fn version(&self, kind: &str, id: &Id) -> (r: Option<u64>)
        requires
            self.wf(),
        ensures
            r == version_of(self.log@, kind@, id.key()),
    {
        match self.find(kind, id) {
            Some(i) => {
                let events: &Vec<InMemoryEvent<Id, M>> = &self.streams[i].events;
                if events.len() == 0 {
                    None
                } else {
                    Some(events[events.len() - 1].position)
                }
            },
            None => {
                proof {
                    lemma_no_stream(*self, kind@, id.key());
                }
                None
            },
        }
    }
}

/// A stream that is not held has no events.
proof fn lemma_no_stream<Id: StreamId, M>(inner: Inner<Id, M>, kind: Seq<char>, id: Id::Key)
    requires
        inner.wf(),
        !inner.has_stream(kind, id),
    ensures
        stream_of(inner.log@, kind, id).len() == 0,
{
    broadcast use Seq::lemma_filter_pred;

    let stream = stream_of(inner.log@, kind, id);
    if stream.len() > 0 {
        let event = stream[0];
        assert(in_stream::<Id, M>(kind, id)(event));
        assert(stream.contains(event));
        inner.log@.lemma_filter_contains_rev(in_stream(kind, id), event);
        let p = choose|p: int| 0 <= p < inner.log@.len() && inner.log@[p] == event;
        assert(inner.has_stream(inner.log@[p].aggregate_kind@, inner.log@[p].aggregate_id.key()));
    }
}

/// Whether every event of a batch was encoded.
pub open spec fn all_encoded<E>(events: Seq<EncodedEvent<E>>) -> bool {
    forall|i: int| 0 <= i < events.len() ==> (#[trigger] events[i]).data is Ok
}

/// The kinds and payloads of a batch whose events were all encoded.
pub open spec fn payloads<E>(events: Seq<EncodedEvent<E>>) -> Seq<(Seq<char>, Value)> {
    events.map_values(|event: EncodedEvent<E>| (event.kind@, event.data->Ok_0))
}

/// Kinds and payloads as the store takes them.
pub open spec fn staged_views(staged: Seq<(String, Value)>) -> Seq<(Seq<char>, Value)> {
    staged.map_values(|pair: (String, Value)| (pair.0@, pair.1))
}

/// Whether the event at `index` is the first of a batch that was not encoded,
/// for the reason `error`.
pub open spec fn first_failure<E>(events: Seq<EncodedEvent<E>>, index: int, error: E) -> bool {
    &&& 0 <= index < events.len()
    &&& events[index].data == Err::<Value, E>(error)
    &&& forall|i: int| 0 <= i < index ==> (#[trigger] events[i]).data is Ok
}

/// Collects `(kind, json)` pairs, reporting the offending index on failure so
/// callers can build their commit-specific `Serialization` variant.
pub fn stage_events<E>(events: NonEmpty<EncodedEvent<E>>) -> (r: Result<
    Vec<(String, Value)>,
    (usize, InMemoryError<E>),
>)
    ensures
        match r {
            Ok(staged) => {
                &&& all_encoded(crate::store::batch(events))
                &&& staged@.len() == crate::store::batch(events).len()
                &&& staged_views(staged@) == payloads(crate::store::batch(events))
            },
            Err((index, InMemoryError::Serialization(error))) => first_failure(
                crate::store::batch(events),
                index as int,
                error,
            ),
            Err((_, InMemoryError::Deserialization(_))) => false,
        },
{
    let ghost batch = crate::store::batch(events);
    let NonEmpty { head, tail } = events;
    let mut items: Vec<EncodedEvent<E>> = Vec::new();
    items.push(head);
    let mut rest: Vec<EncodedEvent<E>> = tail;
    items.append(&mut rest);
    assert(items@ == batch);
    let count: usize = items.len();

    let mut staged: Vec<(String, Value)> = Vec::new();
    let mut index: usize = 0;
    for event in iter: items
        invariant
            iter.seq() == batch,
            batch == crate::store::batch(events),
            batch.len() == count,
            index == iter.index(),
            staged@.len() == index,
            forall|i: int| 0 <= i < index ==> (#[trigger] batch[i]).data is Ok,
            forall|i: int|
                0 <= i < index ==> (#[trigger] staged@[i]).0 == batch[i].kind && staged@[i].1
                    == batch[i].data->Ok_0,
    {
        let EncodedEvent { kind, data } = event;
        match data {
            Ok(json) => {
                staged.push((kind, json));
            },
            Err(error) => {
                return Err((index, InMemoryError::Serialization(error)));
            },
        }
        index = index + 1;
    }
    assert(staged_views(staged@) == payloads(batch));
    Ok(staged)
}

/// Keeping what all elements have keeps every element.
pub proof fn lemma_filter_keeps_all<A>(s: Seq<A>, pred: spec_fn(A) -> bool)
    requires
        forall|i: int| 0 <= i < s.len() ==> pred(#[trigger] s[i]),
    ensures
        s.filter(pred) == s,
    decreases s.len(),
{
    reveal(Seq::filter);
    if s.len() > 0 {
        lemma_filter_keeps_all(s.drop_last(), pred);
        assert(s.drop_last().push(s.last()) == s);
    }
}

/// New events of one stream come last in it, and no other stream has them.
pub proof fn lemma_stream_of_extended<Id: StreamId, M>(
    log: Seq<InMemoryEvent<Id, M>>,
    stored: Seq<InMemoryEvent<Id, M>>,
    kind: Seq<char>,
    id: Id::Key,
    other_kind: Seq<char>,
    other_id: Id::Key,
)
    requires
        forall|i: int|
            0 <= i < stored.len() ==> (#[trigger] stored[i]).aggregate_kind@ == kind
                && stored[i].aggregate_id.key() == id,
    ensures
        stream_of(log + stored, other_kind, other_id) == if other_kind == kind && other_id == id {
            stream_of(log, kind, id) + stored
        } else {
            stream_of(log, other_kind, other_id)
        },
{
    let pred = in_stream::<Id, M>(other_kind, other_id);
    Seq::filter_distributes_over_add(log, stored, pred);
    if other_kind == kind && other_id == id {
        lemma_filter_keeps_all(stored, pred);
    } else {
        stored.lemma_all_neg_filter_empty(pred);
    }
}

/// Append a batch of pre-serialised events to the store, assigning positions.
fn commit_staged<Id: StreamId, M: Clone>(
    inner: &mut Inner<Id, M>,
    aggregate_kind: &str,
    aggregate_id: &Id,
    staged: Vec<(String, Value)>,
    metadata: &M,
) -> (last_position: u64)
    requires
        old(inner).wf(),
        old(inner).log@.len() + staged@.len() <= u64::MAX,
    ensures
        final(inner).wf(),
        appended(
            old(inner).log@,
            final(inner).log@,
            aggregate_kind@,
            aggregate_id.key(),
            staged_views(staged@),
            *metadata,
        ),
        last_position == if staged@.len() == 0 {
            0
        } else {
            final(inner).log@.len() - 1
        },
{
    let ghost log = inner.log@;
    let ghost streams = inner.streams@;
    let ghost pairs = staged@;
    let start: u64 = inner.next_position;
    let mut last_position: u64 = 0;
    let mut next_position: u64 = start;
    let mut stored: Vec<InMemoryEvent<Id, M>> = Vec::new();

    for pair in iter: staged
        invariant
            iter.seq() == pairs,
            start == log.len(),
            log.len() + pairs.len() <= u64::MAX,
            stored@.len() == iter.index(),
            next_position == start + iter.index(),
            last_position == if iter.index() == 0 {
                0
            } else {
                next_position - 1
            },
            forall|i: int|
                0 <= i < stored@.len() ==> recorded(
                    #[trigger] stored@[i],
                    aggregate_kind@,
                    aggregate_id.key(),
                    (pairs[i].0@, pairs[i].1),
                    *metadata,
                    start + i,
                ),
    {
        let (kind, data) = pair;
        let position: u64 = next_position;
        next_position = next_position + 1;
        last_position = position;
        stored.push(
            StoredEvent {
                aggregate_kind: aggregate_kind.to_owned(),
                aggregate_id: aggregate_id.copy_id(),
                kind,
                position,
                data,
                metadata: metadata.clone(),
            },
        );
    }

    let ghost added = stored@;
    let ghost kind = aggregate_kind@;
    let ghost id = aggregate_id.key();
    let ghost target: int;
    match inner.find(aggregate_kind, aggregate_id) {
        Some(i) => {
            inner.streams[i].events.append(&mut stored);
            proof {
                target = i as int;
            }
        },
        None => {
            proof {
                lemma_no_stream(*inner, kind, id);
            }
            inner.streams.push(
                Stream {
                    key: StreamKey::new(aggregate_kind, aggregate_id.copy_id()),
                    events: stored,
                },
            );
            proof {
                target = streams.len() as int;
            }
        },
    }
    inner.next_position = next_position;
    inner.log = Ghost(log + added);

    proof {
        assert forall|k: int| 0 <= k < inner.streams@.len() implies (
        #[trigger] inner.streams@[k]).holds(inner.log@) by {
            let key = inner.streams@[k].key;
            lemma_stream_of_extended(
                log,
                added,
                kind,
                id,
                key.aggregate_kind@,
                key.aggregate_id.key(),
            );
        }
        assert forall|p: int| 0 <= p < inner.log@.len() implies inner.has_stream(
            (#[trigger] inner.log@[p]).aggregate_kind@,
            inner.log@[p].aggregate_id.key(),
        ) by {
            let event = inner.log@[p];
            if p < log.len() {
                assert(event == log[p]);
                let k = choose|k: int|
                    0 <= k < streams.len() && (#[trigger] streams[k]).named(
                        event.aggregate_kind@,
                        event.aggregate_id.key(),
                    );
                assert(inner.streams@[k].key == streams[k].key);
            } else {
                assert(event == added[p - log.len()]);
                assert(inner.streams@[target].named(kind, id));
            }
        }
        assert(log == inner.log@.take(log.len() as int));
    }
    last_position
}

/// Whether `event` satisfies `filter`: the event kind must match, any present
/// aggregate scope must match, and the position must be past `after_position`.
pub fn filter_matches<Id: StreamId, M>(
    filter: &EventFilter<Id, u64>,
    event: &InMemoryEvent<Id, M>,
) -> (r: bool)
    ensures
        r == accepts(filter.selector(), *event),
{
    filter.event_kind == event.kind && (match &filter.aggregate_kind {
        Some(kind) => *kind == event.aggregate_kind,
        None => true,
    }) && (match &filter.aggregate_id {
        Some(id) => id.same_id(&event.aggregate_id),
        None => true,
    }) && (match filter.after_position {
        Some(after) => event.position > after,
        None => true,
    })
}

/// Whether `event` satisfies at least one of `filters`.
fn any_matches<Id: StreamId, M>(
    filters: &[EventFilter<Id, u64>],
    event: &InMemoryEvent<Id, M>,
) -> (r: bool)
    ensures
        r == accepted_by(crate::store::selectors(filters@))(*event),
{
    let mut i: usize = 0;
    while i < filters.len()
        invariant
            i <= filters@.len(),
            forall|j: int| 0 <= j < i ==> !accepts((#[trigger] filters@[j]).selector(), *event),
        decreases filters@.len() - i,
    {
        if filter_matches(&filters[i], event) {
            assert(crate::store::selectors(filters@)[i as int] == filters@[i as int].selector());
            return true;
        }
        i = i + 1;
    }
    false
}

/// Numbers in strictly increasing order that are exactly the places of the
/// elements with a property list those elements in order.
proof fn lemma_places_list_filtered<A>(s: Seq<A>, pred: spec_fn(A) -> bool, places: Seq<u64>)
    requires
        forall|i: int, j: int| 0 <= i < j < places.len() ==> places[i] < places[j],
        forall|p: u64| #[trigger] places.contains(p) <==> p < s.len() && pred(s[p as int]),
        s.len() <= u64::MAX,
    ensures
        s.filter(pred) == places.map_values(|p: u64| s[p as int]),
    decreases s.len(),
{
    reveal(Seq::filter);
    if s.len() == 0 {
        if places.len() > 0 {
            assert(places.contains(places[0]));
        }
        assert(s.filter(pred) == places.map_values(|p: u64| s[p as int]));
    } else {
        let last = (s.len() - 1) as u64;
        let init = s.drop_last();
        assert forall|i: int| 0 <= i < places.len() implies (#[trigger] places[i]) < s.len() by {
            assert(places.contains(places[i]));
        }
        if pred(s.last()) {
            assert(places.contains(last));
            let k = choose|k: int| 0 <= k < places.len() && places[k] == last;
            assert(k == places.len() - 1) by {
                if k < places.len() - 1 {
                    assert(places[k] < places[places.len() - 1]);
                }
            }
            let before = places.drop_last();
            assert forall|p: u64| #[trigger] before.contains(p) <==> p < init.len() && pred(
                init[p as int],
            ) by {
                if before.contains(p) {
                    let j = choose|j: int| 0 <= j < before.len() && before[j] == p;
                    assert(places[j] == p);
                    assert(places[j] < places[places.len() - 1]);
                    assert(places.contains(p));
                }
                if p < init.len() && pred(init[p as int]) {
                    assert(places.contains(p));
                    let j = choose|j: int| 0 <= j < places.len() && places[j] == p;
                    assert(before[j] == p);
                }
            }
            lemma_places_list_filtered(init, pred, before);
            assert(s.filter(pred) == places.map_values(|p: u64| s[p as int]));
        } else {
            assert forall|p: u64| #[trigger] places.contains(p) <==> p < init.len() && pred(
                init[p as int],
            ) by {
                if places.contains(p) {
                    assert(p != last);
                }
            }
            lemma_places_list_filtered(init, pred, places);
            assert forall|i: int| 0 <= i < places.len() implies s[(
            #[trigger] places[i]) as int] == init[places[i] as int] by {
                assert(places.contains(places[i]));
            }
            assert(s.filter(pred) == places.map_values(|p: u64| s[p as int]));
        }
    }
}

/// Another record of the same event.
fn copy_event<Id: StreamId, M: Clone>(event: &InMemoryEvent<Id, M>) -> (copy: InMemoryEvent<Id, M>)
    ensures
        copy_of(*event, copy),
{
    StoredEvent {
        aggregate_kind: event.aggregate_kind.clone(),
        aggregate_id: event.aggregate_id.copy_id(),
        kind: event.kind.clone(),
        position: event.position,
        data: event.data.clone(),
        metadata: event.metadata.clone(),
    }
}

/// Adds `event` to the collected ones if it is wanted and not among them yet.
fn collect<'a, Id, M>(
    matched: &mut BTreeMap<u64, &'a InMemoryEvent<Id, M>>,
    event: &'a InMemoryEvent<Id, M>,
    wanted: bool,
)
    ensures
        final(matched)@ == if wanted && !old(matched)@.contains_key(event.position) {
            old(matched)@.insert(event.position, event)
        } else {
            old(matched)@
        },
{
    broadcast use vstd::std_specs::btree::group_btree_axioms;
    broadcast use vstd::laws_cmp::group_laws_cmp;

    if wanted && !matched.contains_key(&event.position) {
        matched.insert(event.position, event);
    }
}

/// Whether `places` lists the keys of `matched` in strictly increasing order.
spec fn lists_keys<V>(matched: Map<u64, V>, places: Seq<u64>) -> bool {
    &&& forall|i: int, j: int| 0 <= i < j < places.len() ==> places[i] < places[j]
    &&& forall|p: u64| #[trigger] places.contains(p) <==> matched.contains_key(p)
}

/// Copies of the collected events, by position.
fn in_order<Id: StreamId, M: Clone>(matched: &BTreeMap<u64, &InMemoryEvent<Id, M>>) -> (r: Vec<
    InMemoryEvent<Id, M>,
>)
    ensures
        exists|places: Seq<u64>|
            {
                &&& #[trigger] lists_keys(matched@, places)
                &&& r@.len() == places.len()
                &&& forall|i: int|
                    0 <= i < places.len() ==> copy_of(
                        *matched@[#[trigger] places[i]],
                        r@[i],
                    )
            },
{
    let mut r: Vec<InMemoryEvent<Id, M>> = Vec::new();
    let pairs = matched.iter();
    let ghost all = vstd::std_specs::iter::IteratorSpec::remaining(&pairs);
    let ghost places = all.map_values(|pair: (&u64, &&InMemoryEvent<Id, M>)| *pair.0);
    proof {
        broadcast use vstd::std_specs::btree::group_btree_axioms;
        broadcast use vstd::laws_cmp::group_laws_cmp;

        assert(vstd::std_specs::btree::increasing_seq(places));
        assert forall|i: int, j: int| 0 <= i < j < places.len() implies places[i] < places[j] by {
            assert(vstd::std_specs::cmp::OrdSpec::cmp_spec(&places[i], &places[j]) is Less);
        }
        assert forall|p: u64| #[trigger] places.contains(p) <==> matched@.contains_key(p) by {
            if matched@.contains_key(p) {
                assert(all.contains((&p, &matched@[p])));
                let k = choose|k: int| 0 <= k < all.len() && all[k] == (&p, &matched@[p]);
                assert(places[k] == p);
            }
            if places.contains(p) {
                let k = choose|k: int| 0 <= k < places.len() && places[k] == p;
                assert(*all[k].0 == p);
            }
        }
        assert(lists_keys(matched@, places));
    }
    for pair in iter: pairs
        invariant
            iter.seq() == all,
            r@.len() == iter.index(),
            forall|i: int| 0 <= i < r@.len() ==> copy_of(**(#[trigger] all[i]).1, r@[i]),
    {
        r.push(copy_event(*pair.1));
    }
    r
}

/// What a stream holds stands in the log, at the position that it carries.
proof fn lemma_stream_event<Id: StreamId, M>(inner: Inner<Id, M>, i: int, k: int)
    requires
        inner.wf(),
        0 <= i < inner.streams@.len(),
        0 <= k < inner.streams@[i].events@.len(),
    ensures
        ({
            let event = inner.streams@[i].events@[k];
            event.position < inner.log@.len() && inner.log@[event.position as int] == event
        }),
{
    let stream = inner.streams@[i];
    let pred = in_stream::<Id, M>(stream.key.aggregate_kind@, stream.key.aggregate_id.key());
    assert(stream.holds(inner.log@));
    let event = stream.events@[k];
    assert(stream.events@.contains(event));
    inner.log@.lemma_filter_contains_rev(pred, event);
}

/// An event of the log stands in a stream.
proof fn lemma_logged_event<Id: StreamId, M>(inner: Inner<Id, M>, p: int) -> (r: (int, int))
    requires
        inner.wf(),
        0 <= p < inner.log@.len(),
    ensures
        0 <= r.0 < inner.streams@.len(),
        0 <= r.1 < inner.streams@[r.0].events@.len(),
        inner.streams@[r.0].events@[r.1] == inner.log@[p],
{
    let event = inner.log@[p];
    let kind = event.aggregate_kind@;
    let id = event.aggregate_id.key();
    assert(inner.has_stream(kind, id));
    let i = choose|i: int|
        0 <= i < inner.streams@.len() && (#[trigger] inner.streams@[i]).named(kind, id);
    assert(inner.streams@[i].holds(inner.log@));
    assert(in_stream::<Id, M>(kind, id)(event));
    inner.log@.lemma_filter_contains(in_stream(kind, id), p);
    let k = choose|k: int|
        0 <= k < inner.streams@[i].events@.len() && inner.streams@[i].events@[k] == event;
    (i, k)
}

/// Load all events matching the given filters, sorted by position.
///
/// An event is included when it satisfies any filter. Keying by the globally
/// unique position keeps an event that several filters accept from coming out
/// twice, and sorts the result.
fn load_matching_events<Id: StreamId, M: Clone>(
    inner: &Inner<Id, M>,
    filters: &[EventFilter<Id, u64>],
) -> (r: Vec<InMemoryEvent<Id, M>>)
    requires
        inner.wf(),
    ensures
        copies_of(matching(inner.log@, crate::store::selectors(filters@)), r@),
{
    let ghost log = inner.log@;
    let ghost pred = accepted_by::<Id, M>(crate::store::selectors(filters@));
    let mut matched: BTreeMap<u64, &InMemoryEvent<Id, M>> = BTreeMap::new();
    let mut i: usize = 0;
    while i < inner.streams.len()
        invariant
            inner.wf(),
            log == inner.log@,
            pred == accepted_by::<Id, M>(crate::store::selectors(filters@)),
            i <= inner.streams@.len(),
            forall|p: u64| #[trigger]
                matched@.contains_key(p) ==> p < log.len() && pred(log[p as int])
                    && *matched@[p] == log[p as int],
            forall|s: int, k: int|
                0 <= s < i && 0 <= k < inner.streams@[s].events@.len() && pred(
                    #[trigger] inner.streams@[s].events@[k],
                ) ==> matched@.contains_key(inner.streams@[s].events@[k].position),
        decreases inner.streams@.len() - i,
    {
        let events: &Vec<InMemoryEvent<Id, M>> = &inner.streams[i].events;
        let mut k: usize = 0;
        while k < events.len()
            invariant
                inner.wf(),
                log == inner.log@,
                pred == accepted_by::<Id, M>(crate::store::selectors(filters@)),
                i < inner.streams@.len(),
                *events == inner.streams@[i as int].events,
                k <= events@.len(),
                forall|p: u64| #[trigger]
                    matched@.contains_key(p) ==> p < log.len() && pred(log[p as int])
                        && *matched@[p] == log[p as int],
                forall|s: int, k: int|
                    0 <= s < i && 0 <= k < inner.streams@[s].events@.len() && pred(
                        #[trigger] inner.streams@[s].events@[k],
                    ) ==> matched@.contains_key(inner.streams@[s].events@[k].position),
                forall|j: int|
                    0 <= j < k && pred(#[trigger] events@[j]) ==> matched@.contains_key(
                        events@[j].position,
                    ),
            decreases events@.len() - k,
        {
            let event: &InMemoryEvent<Id, M> = &events[k];
            proof {
                lemma_stream_event(*inner, i as int, k as int);
            }
            collect(&mut matched, event, any_matches(filters, event));
            k = k + 1;
        }
        i = i + 1;
    }

    let r: Vec<InMemoryEvent<Id, M>> = in_order(&matched);
    proof {
        assert forall|p: u64| p < log.len() && pred(log[p as int]) implies
        #[trigger] matched@.contains_key(p) by {
            let at = lemma_logged_event(*inner, p as int);
            assert(pred(inner.streams@[at.0].events@[at.1]));
        }
        let places = choose|places: Seq<u64>|
            {
                &&& #[trigger] lists_keys(matched@, places)
                &&& r@.len() == places.len()
                &&& forall|i: int|
                    0 <= i < places.len() ==> copy_of(*matched@[#[trigger] places[i]], r@[i])
            };
        lemma_places_list_filtered(log, pred, places);
        assert forall|i: int| 0 <= i < r@.len() implies copy_of(
            matching(log, crate::store::selectors(filters@))[i],
            #[trigger] r@[i],
        ) by {
            assert(places.contains(places[i]));
        }
    }
    r
}

/// In-memory event store.
///
/// Uses a global sequence counter (`Position = u64`) to maintain chronological
/// ordering across streams, so that projections over several aggregates can
/// interleave events by time rather than by stream name.
///
/// `E` says why an event could not be turned into JSON or back.
pub struct Store<Id: StreamId, M, E = String> {
    inner: Inner<Id, M>,
    failure: PhantomData<E>,
}

impl<Id: StreamId, M: Clone, E> EventStore for Store<Id, M, E> {
    type Id = Id;

    type Position = u64;

    type Error = InMemoryError<E>;

    type Metadata = M;

    type Data = Value;
}

impl<Id: StreamId, M: Clone, E> GloballyOrderedStore for Store<Id, M, E> {

}

impl<Id: StreamId, M: Clone, E> SubscribableStore for Store<Id, M, E> {
    type Checkpoint = u64;
}

impl<Id: StreamId, M, E> Default for Store<Id, M, E> {
    fn default() -> (r: Self)
        ensures
            r.log() == Seq::<InMemoryEvent<Id, M>>::empty(),
    {
        Self::new()
    }
}

/// The last position of a log; none while it is empty.
pub open spec fn latest<Id, M>(log: Seq<InMemoryEvent<Id, M>>) -> Option<u64> {
    if log.len() == 0 {
        None
    } else {
        Some((log.len() - 1) as u64)
    }
}

/// The checkpoint of what was committed at a position; none where nothing was.
pub open spec fn checkpoint_of<Id, M>(
    log: Seq<InMemoryEvent<Id, M>>,
    position: u64,
) -> Option<u64> {
    if position < log.len() {
        Some(position)
    } else {
        None
    }
}

impl<Id: StreamId, M, E> Store<Id, M, E> {
    /// Every committed event, in the order of commits.
    pub closed spec fn log(&self) -> Seq<InMemoryEvent<Id, M>> {
        self.inner.log@
    }

    #[verifier::type_invariant]
    spec fn wf(self) -> bool {
        self.inner.wf()
    }

    /// Create an empty in-memory store.
    ///
    /// Event positions start at `0` and increase globally across all streams.
    #[must_use]
    pub fn new() -> (r: Self)
        ensures
            r.log() == Seq::<InMemoryEvent<Id, M>>::empty(),
    {
        Store { inner: Inner::new(), failure: PhantomData }
    }

    /// Get the current version (latest position) for an aggregate stream.
    ///
    /// Returns `None` for streams with no events.
    pub fn stream_version(&self, aggregate_kind: &str, aggregate_id: &Id) -> (r: Option<u64>)
        ensures
            r == version_of(self.log(), aggregate_kind@, aggregate_id.key()),
            positioned(self.log()),
    {
        proof {
            use_type_invariant(self);
        }
        self.inner.version(aggregate_kind, aggregate_id)
    }

    /// The latest committed position across all events; `None` when the store is
    /// empty.
    pub fn latest_checkpoint(&self) -> (r: Option<u64>)
        ensures
            positioned(self.log()),
            self.log().len() <= u64::MAX,
            r == latest(self.log()),
    {
        proof {
            use_type_invariant(self);
        }
        if self.inner.next_position == 0 {
            None
        } else {
            Some(self.inner.next_position - 1)
        }
    }

    /// The checkpoint of the event committed at `position`; `None` when no event
    /// exists there.
    pub fn checkpoint_for_position(&self, position: &u64) -> (r: Option<u64>)
        ensures
            r == checkpoint_of(self.log(), *position),
    {
        proof {
            use_type_invariant(self);
        }
        if *position < self.inner.next_position {
            Some(*position)
        } else {
            None
        }
    }
}

impl<Id: StreamId, M: Clone, E> Store<Id, M, E> {
    /// Commit events to an aggregate stream without version checking.
    ///
    /// The events of a batch are all appended, or none is. No conflict detection
    /// is performed (last-writer-wins).
    ///
    /// # Errors
    ///
    /// Returns [`CommitError::Serialization`] if an event failed to serialize.
    pub fn commit_events(
        &mut self,
        aggregate_kind: &str,
        aggregate_id: &Id,
        events: NonEmpty<EncodedEvent<E>>,
        metadata: &M,
    ) -> (r: Result<Committed<u64>, CommitError<InMemoryError<E>>>)
        requires
            all_encoded(crate::store::batch(events)) ==> old(self).log().len()
                + crate::store::batch(events).len() <= u64::MAX,
        ensures
            r is Ok <==> all_encoded(crate::store::batch(events)),
            r matches Ok(committed) ==> {
                &&& appended(
                    old(self).log(),
                    final(self).log(),
                    aggregate_kind@,
                    aggregate_id.key(),
                    payloads(crate::store::batch(events)),
                    *metadata,
                )
                &&& committed.last_position == final(self).log().len() - 1
            },
            r matches Err(error) ==> {
                &&& error matches CommitError::Serialization {
                    index,
                    source: InMemoryError::Serialization(cause),
                }
                &&& first_failure(crate::store::batch(events), index as int, cause)
                &&& final(self).log() == old(self).log()
            },
            positioned(old(self).log()),
            positioned(final(self).log()),
    {
        proof {
            use_type_invariant(&*self);
        }
        match stage_events(events) {
            Ok(staged) => {
                let mut inner: Inner<Id, M> = Inner::new();
                std::mem::swap(&mut inner, &mut self.inner);
                let last_position: u64 = commit_staged(
                    &mut inner,
                    aggregate_kind,
                    aggregate_id,
                    staged,
                    metadata,
                );
                self.inner = inner;
                Ok(Committed { last_position })
            },
            Err((index, source)) => Err(CommitError::Serialization { index, source }),
        }
    }

    /// Commit events to an aggregate stream with optimistic concurrency control.
    ///
    /// The commit fails if `expected_version` is not the version of the stream,
    /// where `None` stands for a stream without events.
    ///
    /// # Errors
    ///
    /// Returns [`OptimisticCommitError::Serialization`] if an event failed to
    /// serialize, or [`OptimisticCommitError::Conflict`] if the version check
    /// fails.
    pub fn commit_events_optimistic(
        &mut self,
        aggregate_kind: &str,
        aggregate_id: &Id,
        expected_version: Option<u64>,
        events: NonEmpty<EncodedEvent<E>>,
        metadata: &M,
    ) -> (r: Result<Committed<u64>, OptimisticCommitError<u64, InMemoryError<E>>>)
        requires
            all_encoded(crate::store::batch(events)) && expected_version == version_of(
                old(self).log(),
                aggregate_kind@,
                aggregate_id.key(),
            ) ==> old(self).log().len() + crate::store::batch(events).len() <= u64::MAX,
        ensures
            r is Ok <==> all_encoded(crate::store::batch(events)) && expected_version
                == version_of(old(self).log(), aggregate_kind@, aggregate_id.key()),
            r matches Ok(committed) ==> {
                &&& appended(
                    old(self).log(),
                    final(self).log(),
                    aggregate_kind@,
                    aggregate_id.key(),
                    payloads(crate::store::batch(events)),
                    *metadata,
                )
                &&& committed.last_position == final(self).log().len() - 1
            },
            r is Err ==> final(self).log() == old(self).log(),
            r matches Err(error) ==> match error {
                OptimisticCommitError::Serialization {
                    index,
                    source: InMemoryError::Serialization(cause),
                } => first_failure(crate::store::batch(events), index as int, cause),
                OptimisticCommitError::Conflict(conflict) => {
                    &&& all_encoded(crate::store::batch(events))
                    &&& conflict.expected == expected_version
                    &&& conflict.actual == version_of(
                        old(self).log(),
                        aggregate_kind@,
                        aggregate_id.key(),
                    )
                },
                _ => false,
            },
            positioned(old(self).log()),
            positioned(final(self).log()),
    {
        proof {
            use_type_invariant(&*self);
        }
        let staged: Vec<(String, Value)> = match stage_events(events) {
            Ok(staged) => staged,
            Err((index, source)) => {
                return Err(OptimisticCommitError::Serialization { index, source });
            },
        };
        let current: Option<u64> = self.inner.version(aggregate_kind, aggregate_id);
        match expected_version {
            Some(expected) => {
                if current != Some(expected) {
                    return Err(
                        OptimisticCommitError::from(
                            ConcurrencyConflict { expected: Some(expected), actual: current },
                        ),
                    );
                }
            },
            None => {
                if let Some(actual) = current {
                    return Err(
                        OptimisticCommitError::from(
                            ConcurrencyConflict { expected: None, actual: Some(actual) },
                        ),
                    );
                }
            },
        }
        let mut inner: Inner<Id, M> = Inner::new();
        std::mem::swap(&mut inner, &mut self.inner);
        let last_position: u64 = commit_staged(
            &mut inner,
            aggregate_kind,
            aggregate_id,
            staged,
            metadata,
        );
        self.inner = inner;
        Ok(Committed { last_position })
    }

    /// Load events matching the specified filters, sorted by position.
    ///
    /// An event comes out once when it satisfies one filter or more, and not at
    /// all when it satisfies none.
    pub fn load_events(&self, filters: &[EventFilter<Id, u64>]) -> (r: Vec<InMemoryEvent<Id, M>>)
        ensures
            copies_of(matching(self.log(), crate::store::selectors(filters@)), r@),
            positioned(self.log()),
    {
        proof {
            use_type_invariant(self);
        }
        load_matching_events(&self.inner, filters)
    }

    /// The largest position that an event matching `filters` has; `None` when no
    /// event matches.
    pub fn current_checkpoint(&self, filters: &[EventFilter<Id, u64>]) -> (r: Option<u64>)
        ensures
            r == newest(matching(self.log(), crate::store::selectors(filters@))),
            positioned(self.log()),
            self.log().len() <= u64::MAX,
    {
        proof {
            use_type_invariant(self);
        }
        let events: Vec<InMemoryEvent<Id, M>> = load_matching_events(&self.inner, filters);
        if events.len() == 0 {
            None
        } else {
            Some(events[events.len() - 1].position)
        }
    }
}

/// Position of the last of `events`.
pub open spec fn newest<Id, M>(events: Seq<InMemoryEvent<Id, M>>) -> Option<u64> {
    if events.len() == 0 {
        None
    } else {
        Some(events.last().position)
    }
}

/// Picks the events after `cursor`.
pub open spec fn past<Id, M>(cursor: Option<u64>) -> spec_fn(InMemoryEvent<Id, M>) -> bool {
    |event: InMemoryEvent<Id, M>| cursor matches Some(position) ==> event.position > position
}

/// The events of `log` that a subscriber at `cursor` has not seen yet, oldest
/// first.
pub open spec fn unseen<Id: StreamId, M>(
    log: Seq<InMemoryEvent<Id, M>>,
    filters: Seq<Selector<Id::Key, u64>>,
    cursor: Option<u64>,
) -> Seq<InMemoryEvent<Id, M>> {
    matching(log, filters).filter(past(cursor))
}

/// The cursor after `events` went to a subscriber that was at `cursor`.
pub open spec fn moved_past<Id, M>(
    cursor: Option<u64>,
    events: Seq<InMemoryEvent<Id, M>>,
) -> Option<u64> {
    if events.len() == 0 {
        cursor
    } else {
        Some(events.last().position)
    }
}

/// Whether `delivery` hands out `event` at the checkpoint of its position.
pub open spec fn delivers<Id: StreamId, M: Clone, E>(
    delivery: Delivery<Store<Id, M, E>>,
    event: InMemoryEvent<Id, M>,
) -> bool {
    delivery matches Delivery::Event(item) && item.checkpoint == event.position && copy_of(
        event,
        item.event,
    )
}

/// Whether events come in strictly increasing order of their positions.
pub open spec fn ascending<Id, M>(events: Seq<InMemoryEvent<Id, M>>) -> bool {
    forall|i: int, j: int|
        0 <= i < j < events.len() ==> (#[trigger] events[i]).position < (
        #[trigger] events[j]).position
}

/// Leaving events out keeps the order of the others.
pub proof fn lemma_filter_ascending<Id, M>(
    events: Seq<InMemoryEvent<Id, M>>,
    pred: spec_fn(InMemoryEvent<Id, M>) -> bool,
)
    requires
        ascending(events),
    ensures
        ascending(events.filter(pred)),
    decreases events.len(),
{
    reveal(Seq::filter);
    if events.len() > 0 {
        let init = events.drop_last();
        lemma_filter_ascending(init, pred);
        let kept = init.filter(pred);
        assert forall|i: int| 0 <= i < kept.len() implies (#[trigger] kept[i]).position
            < events.last().position by {
            assert(kept.contains(kept[i]));
            init.lemma_filter_contains_rev(pred, kept[i]);
        }
    }
}

impl<Id: StreamId, M: Clone, E> Store<Id, M, E> {
    /// What a subscriber at `cursor` gets next: every matching event after the
    /// cursor, then the frontier, which is the highest committed position.
    ///
    /// Moves the cursor to the last event handed out. Nothing is yielded while
    /// the store is empty.
    pub fn drain(&self, filters: &[EventFilter<Id, u64>], cursor: &mut Option<u64>) -> (r: Vec<
        Delivery<Self>,
    >)
        ensures
            positioned(self.log()),
            self.log().len() <= u64::MAX,
            r@.len() == unseen(self.log(), crate::store::selectors(filters@), *old(cursor)).len() + if self.log().len()
                == 0 {
                0int
            } else {
                1
            },
            forall|i: int|
                0 <= i < unseen(self.log(), crate::store::selectors(filters@), *old(cursor)).len() ==> delivers(
                    #[trigger] r@[i],
                    unseen(self.log(), crate::store::selectors(filters@), *old(cursor))[i],
                ),
            self.log().len() > 0 ==> r@.last() == Delivery::<Self>::Frontier(
                (self.log().len() - 1) as u64,
            ),
            *final(cursor) == moved_past(
                *old(cursor),
                unseen(self.log(), crate::store::selectors(filters@), *old(cursor)),
            ),
    {
        proof {
            use_type_invariant(self);
        }
        let ghost found = matching(self.log(), crate::store::selectors(filters@));
        let ghost from = *cursor;
        let events: Vec<InMemoryEvent<Id, M>> = load_matching_events(&self.inner, filters);
        let ghost loaded = events@;
        let mut out: Vec<Delivery<Self>> = Vec::new();
        proof {
            reveal(Seq::filter);
            assert(found.take(0).filter(past(from)) == Seq::<InMemoryEvent<Id, M>>::empty());
            lemma_filter_ascending(self.log(), accepted_by(crate::store::selectors(filters@)));
        }
        for event in iter: events
            invariant
                iter.seq() == loaded,
                loaded.len() == found.len(),
                ascending(found),
                forall|i: int| 0 <= i < loaded.len() ==> copy_of(found[i], #[trigger] loaded[i]),
                out@.len() == found.take(iter.index()).filter(past(from)).len(),
                forall|i: int|
                    0 <= i < out@.len() ==> delivers(
                        #[trigger] out@[i],
                        found.take(iter.index()).filter(past(from))[i],
                    ),
                *cursor == moved_past(from, found.take(iter.index()).filter(past(from))),
        {
            let ghost n = iter.index();
            let ghost seen = found.take(n).filter(past(from));
            proof {
                assert(found.take(n + 1).drop_last() == found.take(n));
                reveal(Seq::filter);
                assert(copy_of(found[n], loaded[n]));
                if seen.len() > 0 {
                    assert(seen.contains(seen.last()));
                    found.take(n).lemma_filter_contains_rev(past(from), seen.last());
                    let k = choose|k: int|
                        0 <= k < found.take(n).len() && found.take(n)[k] == seen.last();
                    assert(found[k].position < found[n].position);
                    assert(past::<Id, M>(from)(seen.last())) by {
                        found.take(n).lemma_filter_pred(past(from), seen.len() - 1);
                    }
                }
            }
            let fresh: bool = match *cursor {
                Some(position) => event.position > position,
                None => true,
            };
            if fresh {
                let checkpoint: u64 = event.position;
                *cursor = Some(checkpoint);
                out.push(Delivery::Event(Checkpointed { checkpoint, event }));
            }
        }
        proof {
            assert(found.take(found.len() as int) == found);
        }
        if self.inner.next_position > 0 {
            out.push(Delivery::Frontier(self.inner.next_position - 1));
        }
        out
    }
}

} // verus!
