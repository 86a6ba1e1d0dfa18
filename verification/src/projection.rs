//! Read-side primitives.
//!
//! Projections rebuild query models from streams of stored events. This module
//! holds the projection traits, event application hooks via
//! [`ApplyProjection`], and the [`Filters`] builder that wires everything
//! together.

use std::marker::PhantomData;

use vstd::prelude::*;
use vstd::std_specs::convert::FromSpecImpl;

use crate::{
    aggregate::Aggregate,
    event::{DecodeEvent, DomainEvent, EventDecodeError, ProjectionEvent},
    message::{prefixed_message, Message},
    store::{EventFilter, EventStore, Selector, StoredEvent, StreamId},
};

pub mod laws;

verus! {

/// Base trait for types that subscribe to events.
///
/// Its spec functions are left open here; verified code gives them a body of its own.
pub trait Subscribable: Sized {
    /// Aggregate identifier type this subscriber is compatible with.
    type Id;

    /// Instance identifier for this subscriber.
    ///
    /// For singleton subscribers use `()`.
    type InstanceId;

    /// Metadata type expected by this subscriber's handlers.
    type Metadata;

    /// The state of a fresh instance.
    open spec fn initial(instance_id: Self::InstanceId) -> Self {
        arbitrary()
    }

    /// Construct a fresh instance from the instance identifier.
    fn init(instance_id: &Self::InstanceId) -> (r: Self)
        ensures
            r == Self::initial(*instance_id),
    ;
}

/// The filter set and the handlers of a subscriber of store `S`.
///
/// Its spec functions are left open here; verified code gives them a body of its own.
pub trait ProjectionFilters<S: EventStore>: Subscribable {
    /// How events reach this subscriber.
    type Handler: EventHandler<Self, S>;

    /// What an instance is subscribed to.
    open spec fn selected(instance_id: Self::InstanceId) -> Seq<
        Selector<<S::Id as StreamId>::Key, ()>,
    > {
        arbitrary()
    }

    /// How events of `kind` reach an instance.
    open spec fn handler_for(
        instance_id: Self::InstanceId,
        kind: Seq<char>,
    ) -> Option<Self::Handler> {
        arbitrary()
    }

    /// Build the filter set and handlers for this subscriber.
    ///
    /// Given the same `instance_id`, it must always return the same filter set.
    fn filters(instance_id: &Self::InstanceId) -> (r: Filters<S, Self, Self::Handler>)
        ensures
            crate::store::selectors(r.specs@) == Self::selected(*instance_id),
            forall|kind: Seq<char>| #[trigger]
                r.handlers.handler_of(kind) == Self::handler_for(*instance_id, kind),
    ;
}

/// Trait implemented by read models that can be constructed from an event
/// stream.
pub trait Projection: Subscribable {
    /// Stable identifier for this projection type.
    const KIND: &'static str;
}

/// Apply an event to a projection with access to envelope context.
///
/// Its spec functions are left open here; verified code gives them a body of its own.
pub trait ApplyProjection<E>: Subscribable {
    /// The state after one more event.
    open spec fn projected(self, aggregate_id: Self::Id, event: E, metadata: Self::Metadata) -> Self {
        arbitrary()
    }

    /// Apply `event`, which the aggregate `aggregate_id` brought about.
    fn apply_projection(&mut self, aggregate_id: &Self::Id, event: &E, metadata: &Self::Metadata)
        ensures
            *final(self) == old(self).projected(*aggregate_id, *event, *metadata),
    ;
}

/// Errors that can occur when rebuilding a projection.
#[derive(Debug)]
pub enum ProjectionError<StoreError> {
    /// Events could not be loaded.
    Store(StoreError),
    /// An event could not be decoded.
    EventDecode(EventDecodeError<StoreError>),
}

impl<StoreError: Message> Message for ProjectionError<StoreError> {
    open spec fn described_by(&self, text: Seq<char>) -> bool {
        match self {
            ProjectionError::Store(cause) => crate::message::prefixed(
                "failed to load events: "@,
                cause,
                text,
            ),
            ProjectionError::EventDecode(cause) => crate::message::prefixed(
                "failed to decode event: "@,
                cause,
                text,
            ),
        }
    }

    fn message(&self) -> (text: String) {
        match self {
            ProjectionError::Store(cause) => prefixed_message("failed to load events: ", cause),
            ProjectionError::EventDecode(cause) => prefixed_message(
                "failed to decode event: ",
                cause,
            ),
        }
    }
}

impl<StoreError: Message> ProjectionError<StoreError> {
    /// The text of the underlying failure.
    pub fn source(&self) -> (r: Option<String>)
        ensures
            r matches Some(text) && match self {
                ProjectionError::Store(cause) => cause.described_by(text@),
                ProjectionError::EventDecode(cause) => cause.described_by(text@),
            },
    {
        match self {
            ProjectionError::Store(cause) => Some(cause.message()),
            ProjectionError::EventDecode(cause) => Some(cause.message()),
        }
    }
}

/// Why a handler did not apply an event.
#[derive(Debug)]
pub enum HandlerError<StoreError> {
    /// The event sum type did not accept the event.
    EventDecode(EventDecodeError<StoreError>),
    /// The store could not decode the event.
    Store(StoreError),
}

impl<StoreError> From<StoreError> for HandlerError<StoreError> {
    fn from(error: StoreError) -> (r: Self) {
        HandlerError::Store(error)
    }
}

impl<StoreError> FromSpecImpl<StoreError> for HandlerError<StoreError> {
    open spec fn obeys_from_spec() -> bool {
        true
    }

    open spec fn from_spec(error: StoreError) -> Self {
        HandlerError::Store(error)
    }
}

impl<StoreError> HandlerError<StoreError> {
    /// This failure as one of decoding.
    pub open spec fn as_decode_error(self) -> EventDecodeError<StoreError> {
        match self {
            HandlerError::EventDecode(error) => error,
            HandlerError::Store(error) => EventDecodeError::Store(error),
        }
    }

    /// This failure as one of decoding.
    pub fn into_decode_error(self) -> (r: EventDecodeError<StoreError>)
        ensures
            r == self.as_decode_error(),
    {
        match self {
            HandlerError::EventDecode(error) => error,
            HandlerError::Store(error) => EventDecodeError::Store(error),
        }
    }
}

/// Applies stored events of store `S` to subscribers of type `P`.
///
/// Its spec functions are left open here; verified code gives them a body of its own.
pub trait EventHandler<P, S: EventStore> {
    /// Whether applying `stored` to `before` gives `after`.
    open spec fn handled(
        &self,
        before: P,
        stored: StoredEvent<S::Id, S::Position, S::Data, S::Metadata>,
        after: P,
    ) -> bool {
        arbitrary()
    }

    /// Whether `stored` cannot be applied, for the reason `error`.
    open spec fn refused(
        &self,
        stored: StoredEvent<S::Id, S::Position, S::Data, S::Metadata>,
        error: HandlerError<S::Error>,
    ) -> bool {
        arbitrary()
    }

    /// Apply `stored` to `subscriber`, which stays as it was if that fails.
    ///
    /// # Errors
    ///
    /// Returns an error if the event cannot be decoded.
    fn call(
        &self,
        subscriber: &mut P,
        stored: &StoredEvent<S::Id, S::Position, S::Data, S::Metadata>,
        store: &S,
    ) -> (r: Result<(), HandlerError<S::Error>>)
        ensures
            match r {
                Ok(()) => self.handled(*old(subscriber), *stored, *final(subscriber)),
                Err(error) => self.refused(*stored, error) && *final(subscriber) == *old(
                    subscriber,
                ),
            },
    ;
}

/// Whether `converted` can come of cloning `metadata` and converting the clone.
pub open spec fn metadata_converts<M: Clone + Into<N>, N>(metadata: M, converted: N) -> bool {
    exists|copy: M|
        cloned(metadata, copy) && #[trigger] call_ensures(
            <M as Into<N>>::into,
            (copy,),
            converted,
        )
}

/// Whether `event` out of `stored` takes `before` to `after`.
pub open spec fn projects<P, S, E>(
    before: P,
    stored: StoredEvent<S::Id, S::Position, S::Data, S::Metadata>,
    event: E,
    after: P,
) -> bool where
    S: EventStore,
    P: ApplyProjection<E> + Subscribable<Id = S::Id>,
    S::Metadata: Clone + Into<<P as Subscribable>::Metadata>,
 {
    exists|metadata: <P as Subscribable>::Metadata| #[trigger]
        metadata_converts(stored.metadata, metadata) && after == before.projected(
            stored.aggregate_id,
            event,
            metadata,
        )
}

/// Handler for events of one type.
pub struct DomainHandler<E>(PhantomData<E>);

impl<E> DomainHandler<E> {
    /// The only value of this type.
    pub closed spec fn only() -> Self {
        DomainHandler(PhantomData)
    }

    /// Handler for events of type `E`.
    #[must_use]
    pub fn new() -> (r: Self)
        ensures
            r == Self::only(),
    {
        DomainHandler(PhantomData)
    }
}

impl<P, S, E> EventHandler<P, S> for DomainHandler<E> where
    S: EventStore,
    P: ApplyProjection<E> + Subscribable<Id = S::Id>,
    E: DecodeEvent<S>,
    S::Metadata: Clone + Into<<P as Subscribable>::Metadata>,
 {
    open spec fn handled(
        &self,
        before: P,
        stored: StoredEvent<S::Id, S::Position, S::Data, S::Metadata>,
        after: P,
    ) -> bool {
        E::decoded(stored) matches Some(event) && projects::<P, S, E>(before, stored, event, after)
    }

    open spec fn refused(
        &self,
        stored: StoredEvent<S::Id, S::Position, S::Data, S::Metadata>,
        error: HandlerError<S::Error>,
    ) -> bool {
        &&& E::decoded(stored) is None
        &&& error matches HandlerError::Store(cause) && E::undecodable(stored, cause)
    }

    fn call(
        &self,
        subscriber: &mut P,
        stored: &StoredEvent<S::Id, S::Position, S::Data, S::Metadata>,
        store: &S,
    ) -> (r: Result<(), HandlerError<S::Error>>) {
        match E::decode_event(store, stored) {
            Ok(event) => {
                let copy: S::Metadata = stored.metadata.clone();
                let metadata: <P as Subscribable>::Metadata = copy.into();
                assert(metadata_converts(stored.metadata, metadata));
                subscriber.apply_projection(&stored.aggregate_id, &event, &metadata);
                Ok(())
            },
            Err(error) => Err(HandlerError::from(error)),
        }
    }
}

/// Handler for the events of one sum type.
pub struct SumHandler<E>(PhantomData<E>);

impl<E> SumHandler<E> {
    /// The only value of this type.
    pub closed spec fn only() -> Self {
        SumHandler(PhantomData)
    }

    /// Handler for events of the sum type `E`.
    #[must_use]
    pub fn new() -> (r: Self)
        ensures
            r == Self::only(),
    {
        SumHandler(PhantomData)
    }
}

impl<P, S, E> EventHandler<P, S> for SumHandler<E> where
    S: EventStore,
    P: ApplyProjection<E> + Subscribable<Id = S::Id>,
    E: ProjectionEvent<S>,
    S::Metadata: Clone + Into<<P as Subscribable>::Metadata>,
 {
    open spec fn handled(
        &self,
        before: P,
        stored: StoredEvent<S::Id, S::Position, S::Data, S::Metadata>,
        after: P,
    ) -> bool {
        E::restored(stored) matches Some(event) && projects::<P, S, E>(
            before,
            stored,
            event,
            after,
        )
    }

    open spec fn refused(
        &self,
        stored: StoredEvent<S::Id, S::Position, S::Data, S::Metadata>,
        error: HandlerError<S::Error>,
    ) -> bool {
        E::restored(stored) is None && match error {
            HandlerError::EventDecode(EventDecodeError::UnknownKind { kind, expected }) => {
                &&& !crate::event::is_kind(E::EVENT_KINDS@, stored.kind@)
                &&& kind@ == stored.kind@
                &&& expected@ == E::EVENT_KINDS@
            },
            HandlerError::EventDecode(EventDecodeError::Store(cause)) => {
                &&& crate::event::is_kind(E::EVENT_KINDS@, stored.kind@)
                &&& E::unrestorable(stored, cause)
            },
            HandlerError::Store(_) => false,
        }
    }

    fn call(
        &self,
        subscriber: &mut P,
        stored: &StoredEvent<S::Id, S::Position, S::Data, S::Metadata>,
        store: &S,
    ) -> (r: Result<(), HandlerError<S::Error>>) {
        match E::from_stored(stored, store) {
            Ok(event) => {
                let copy: S::Metadata = stored.metadata.clone();
                let metadata: <P as Subscribable>::Metadata = copy.into();
                assert(metadata_converts(stored.metadata, metadata));
                subscriber.apply_projection(&stored.aggregate_id, &event, &metadata);
                Ok(())
            },
            Err(error) => Err(HandlerError::EventDecode(error)),
        }
    }
}

/// Sends events of one kind to the handler with the given number.
pub struct Route {
    kind: String,
    handler: usize,
}

/// The number that the last of `routes` for `kind` gives.
spec fn last_route(routes: Seq<Route>, kind: Seq<char>) -> Option<usize>
    decreases routes.len(),
{
    if routes.len() == 0 {
        None
    } else if routes.last().kind@ == kind {
        Some(routes.last().handler)
    } else {
        last_route(routes.drop_last(), kind)
    }
}

/// Handlers by event kind. Of several registered for one kind the last stays.
pub struct Handlers<H> {
    routes: Vec<Route>,
    handlers: Vec<H>,
}

impl<H> Handlers<H> {
    #[verifier::type_invariant]
    spec fn wf(self) -> bool {
        forall|i: int|
            0 <= i < self.routes@.len() ==> (#[trigger] self.routes@[i]).handler
                < self.handlers@.len()
    }

    /// The handler of events of `kind`, if there is one.
    pub closed spec fn handler_of(self, kind: Seq<char>) -> Option<H> {
        match last_route(self.routes@, kind) {
            Some(handler) => Some(self.handlers@[handler as int]),
            None => None,
        }
    }

    /// No handlers.
    pub fn new() -> (r: Self)
        ensures
            forall|kind: Seq<char>| (#[trigger] r.handler_of(kind)) is None,
    {
        Handlers { routes: Vec::new(), handlers: Vec::new() }
    }

    /// The handler of events of `kind`, if there is one.
    pub fn get(&self, kind: &str) -> (r: Option<&H>)
        ensures
            match r {
                Some(handler) => self.handler_of(kind@) == Some(*handler),
                None => self.handler_of(kind@) is None,
            },
    {
        proof {
            use_type_invariant(self);
        }
        let wanted: String = kind.to_owned();
        let mut i: usize = self.routes.len();
        proof {
            assert(self.routes@.take(i as int) == self.routes@);
        }
        while i > 0
            invariant
                i <= self.routes@.len(),
                wanted@ == kind@,
                self.wf(),
                last_route(self.routes@, kind@) == last_route(self.routes@.take(i as int), kind@),
            decreases i,
        {
            proof {
                assert(self.routes@.take(i as int).drop_last() == self.routes@.take(i - 1));
            }
            i = i - 1;
            if self.routes[i].kind == wanted {
                return Some(&self.handlers[self.routes[i].handler]);
            }
        }
        None
    }

    /// Register `handler` for every one of `kinds`.
    pub fn insert(&mut self, kinds: &[&'static str], handler: H)
        ensures
            forall|kind: Seq<char>| #[trigger]
                final(self).handler_of(kind) == if crate::event::is_kind(kinds@, kind) {
                    Some(handler)
                } else {
                    old(self).handler_of(kind)
                },
    {
        proof {
            use_type_invariant(&*self);
        }
        let ghost before = self.routes@;
        let ghost held = self.handlers@;
        let mut routes: Vec<Route> = Vec::new();
        std::mem::swap(&mut routes, &mut self.routes);
        let number: usize = self.handlers.len();
        let mut i: usize = 0;
        while i < kinds.len()
            invariant
                i <= kinds@.len(),
                number == held.len(),
                forall|k: int|
                    0 <= k < routes@.len() ==> (#[trigger] routes@[k]).handler <= held.len(),
                forall|kind: Seq<char>| #[trigger]
                    last_route(routes@, kind) == if crate::event::is_kind(
                        kinds@.take(i as int),
                        kind,
                    ) {
                        Some(number)
                    } else {
                        last_route(before, kind)
                    },
            decreases kinds@.len() - i,
        {
            let ghost earlier = routes@;
            routes.push(Route { kind: kinds[i].to_owned(), handler: number });
            proof {
                assert(routes@.drop_last() == earlier);
                assert forall|kind: Seq<char>| #[trigger]
                    last_route(routes@, kind) == if crate::event::is_kind(
                        kinds@.take(i + 1),
                        kind,
                    ) {
                        Some(number)
                    } else {
                        last_route(before, kind)
                    } by {
                    assert(kinds@.take(i + 1)[i as int]@ == kinds@[i as int]@);
                    assert(routes@.last().kind@ == kinds@[i as int]@);
                    assert(last_route(earlier, kind) == if crate::event::is_kind(
                        kinds@.take(i as int),
                        kind,
                    ) {
                        Some(number)
                    } else {
                        last_route(before, kind)
                    });
                    if crate::event::is_kind(kinds@.take(i as int), kind) {
                        let k = choose|k: int|
                            0 <= k < i && (#[trigger] kinds@.take(i as int)[k])@ == kind;
                        assert(kinds@.take(i + 1)[k]@ == kind);
                    }
                    if crate::event::is_kind(kinds@.take(i + 1), kind) && kinds@[i as int]@
                        != kind {
                        let k = choose|k: int|
                            0 <= k < i + 1 && (#[trigger] kinds@.take(i + 1)[k])@ == kind;
                        assert(kinds@.take(i as int)[k]@ == kind);
                    }
                }
            }
            i = i + 1;
        }
        let mut handlers: Vec<H> = Vec::new();
        std::mem::swap(&mut handlers, &mut self.handlers);
        handlers.push(handler);
        self.handlers = handlers;
        self.routes = routes;
        proof {
            assert(kinds@.take(kinds@.len() as int) == kinds@);
            assert forall|kind: Seq<char>| #[trigger]
                self.handler_of(kind) == if crate::event::is_kind(kinds@, kind) {
                    Some(handler)
                } else {
                    old(self).handler_of(kind)
                } by {
                lemma_last_route_in_range(before, kind, held.len());
                assert(last_route(self.routes@, kind) == if crate::event::is_kind(kinds@, kind) {
                    Some(number)
                } else {
                    last_route(before, kind)
                });
            }
        }
    }
}

/// Routes to existing handlers lead to existing handlers.
proof fn lemma_last_route_in_range(routes: Seq<Route>, kind: Seq<char>, count: nat)
    requires
        forall|k: int| 0 <= k < routes.len() ==> (#[trigger] routes[k]).handler < count,
    ensures
        last_route(routes, kind) matches Some(handler) ==> handler < count,
    decreases routes.len(),
{
    if routes.len() > 0 && routes.last().kind@ != kind {
        lemma_last_route_in_range(routes.drop_last(), kind, count);
    }
}

/// Combined filter configuration and handlers of a subscriber.
///
/// Filters are constructed without positions. Positions are applied at
/// load/subscribe time.
pub struct Filters<S: EventStore, P, H> {
    /// Which events to load.
    pub specs: Vec<EventFilter<S::Id, ()>>,
    /// How to apply them.
    pub handlers: Handlers<H>,
    /// The subscriber.
    pub subscriber: PhantomData<P>,
}

/// Selectors for every event of each of `kinds`.
pub open spec fn every_of<Key, Pos>(kinds: Seq<&'static str>) -> Seq<Selector<Key, Pos>> {
    kinds.map_values(|kind: &'static str| crate::store::every::<Key, Pos>(kind@))
}

/// Selectors for the events of each of `kinds` in one stream.
pub open spec fn within_of<Key, Pos>(
    kinds: Seq<&'static str>,
    aggregate_kind: Seq<char>,
    aggregate_id: Key,
) -> Seq<Selector<Key, Pos>> {
    kinds.map_values(
        |kind: &'static str| crate::store::within::<Key, Pos>(kind@, aggregate_kind, aggregate_id),
    )
}

/// Whether `after` registers `handler` for `kinds` and is otherwise `before`.
pub open spec fn registers<H>(
    before: Handlers<H>,
    after: Handlers<H>,
    kinds: Seq<&'static str>,
    handler: H,
) -> bool {
    forall|kind: Seq<char>| #[trigger]
        after.handler_of(kind) == if crate::event::is_kind(kinds, kind) {
            Some(handler)
        } else {
            before.handler_of(kind)
        }
}

/// Whether `r` is `filters` with `selectors` added and, for `kinds`, the handler
/// that `source` converts into.
pub open spec fn subscribes<S: EventStore, P, H: From<T>, T>(
    filters: Filters<S, P, H>,
    selectors: Seq<Selector<<S::Id as StreamId>::Key, ()>>,
    kinds: Seq<&'static str>,
    source: T,
    r: Filters<S, P, H>,
) -> bool {
    &&& crate::store::selectors(r.specs@) == crate::store::selectors(filters.specs@) + selectors
    &&& exists|handler: H| #[trigger]
        call_ensures(<H as From<T>>::from, (source,), handler) && registers(
            filters.handlers,
            r.handlers,
            kinds,
            handler,
        )
}

/// Adds a filter for every event of each of `kinds`.
pub(crate) fn push_every<Id: StreamId, Pos>(
    specs: &mut Vec<EventFilter<Id, Pos>>,
    kinds: &[&'static str],
)
    ensures
        crate::store::selectors(final(specs)@) == crate::store::selectors(old(specs)@) + every_of(
            kinds@,
        ),
{
    let ghost before = specs@;
    let mut i: usize = 0;
    while i < kinds.len()
        invariant
            i <= kinds@.len(),
            crate::store::selectors(specs@) == crate::store::selectors(before) + every_of(
                kinds@.take(i as int),
            ),
        decreases kinds@.len() - i,
    {
        let ghost earlier = specs@;
        specs.push(EventFilter::for_event(kinds[i]));
        proof {
            assert(crate::store::selectors(specs@) == crate::store::selectors(earlier).push(
                specs@.last().selector(),
            ));
            assert(kinds@.take(i + 1) == kinds@.take(i as int).push(kinds@[i as int]));
            assert(every_of::<Id::Key, Pos>(kinds@.take(i + 1)) == every_of::<Id::Key, Pos>(
                kinds@.take(i as int),
            ).push(specs@.last().selector()));
        }
        i = i + 1;
    }
    assert(kinds@.take(kinds@.len() as int) == kinds@);
}

/// A filter for the events of one kind in one stream.
pub(crate) fn stream_filter<Id: StreamId, Pos>(
    event_kind: &str,
    aggregate_kind: &str,
    aggregate_id: &Id,
) -> (r: EventFilter<Id, Pos>)
    ensures
        r.selector() == crate::store::within::<Id::Key, Pos>(
            event_kind@,
            aggregate_kind@,
            aggregate_id.key(),
        ),
{
    EventFilter {
        event_kind: event_kind.to_owned(),
        aggregate_kind: Some(aggregate_kind.to_owned()),
        aggregate_id: Some(aggregate_id.copy_id()),
        after_position: None,
    }
}

/// Adds a filter for the events of each of `kinds` in one stream.
pub(crate) fn push_within<Id: StreamId, Pos>(
    specs: &mut Vec<EventFilter<Id, Pos>>,
    kinds: &[&'static str],
    aggregate_kind: &str,
    aggregate_id: &Id,
)
    ensures
        crate::store::selectors(final(specs)@) == crate::store::selectors(old(specs)@) + within_of(
            kinds@,
            aggregate_kind@,
            aggregate_id.key(),
        ),
{
    let ghost before = specs@;
    let mut i: usize = 0;
    while i < kinds.len()
        invariant
            i <= kinds@.len(),
            crate::store::selectors(specs@) == crate::store::selectors(before) + within_of(
                kinds@.take(i as int),
                aggregate_kind@,
                aggregate_id.key(),
            ),
        decreases kinds@.len() - i,
    {
        let ghost earlier = specs@;
        specs.push(stream_filter(kinds[i], aggregate_kind, aggregate_id));
        proof {
            assert(crate::store::selectors(specs@) == crate::store::selectors(earlier).push(
                specs@.last().selector(),
            ));
            assert(kinds@.take(i + 1) == kinds@.take(i as int).push(kinds@[i as int]));
            assert(within_of::<Id::Key, Pos>(
                kinds@.take(i + 1),
                aggregate_kind@,
                aggregate_id.key(),
            ) == within_of::<Id::Key, Pos>(
                kinds@.take(i as int),
                aggregate_kind@,
                aggregate_id.key(),
            ).push(specs@.last().selector()));
        }
        i = i + 1;
    }
    assert(kinds@.take(kinds@.len() as int) == kinds@);
}

impl<S: EventStore, P, H> Default for Filters<S, P, H> {
    fn default() -> (r: Self)
        ensures
            r.specs@.len() == 0,
            forall|kind: Seq<char>| (#[trigger] r.handlers.handler_of(kind)) is None,
    {
        Self::new()
    }
}

impl<S: EventStore, P, H> Filters<S, P, H> {
    /// Create an empty filter set.
    #[must_use]
    pub fn new() -> (r: Self)
        ensures
            r.specs@.len() == 0,
            forall|kind: Seq<char>| (#[trigger] r.handlers.handler_of(kind)) is None,
    {
        Filters { specs: Vec::new(), handlers: Handlers::new(), subscriber: PhantomData }
    }

    /// Subscribe to a specific event type globally (all aggregates).
    #[must_use]
    pub fn event<E>(self) -> (r: Self) where E: DomainEvent, H: From<DomainHandler<E>>,
        ensures
            subscribes(
                self,
                every_of(seq![E::KIND]),
                seq![E::KIND],
                DomainHandler::<E>::only(),
                r,
            ),
    {
        let mut filters: Self = self;
        let kinds: [&'static str; 1] = [E::KIND];
        push_every(&mut filters.specs, &kinds);
        filters.handlers.insert(&kinds, H::from(DomainHandler::new()));
        assert(kinds@ == seq![E::KIND]);
        filters
    }

    /// Subscribe to all event kinds supported by a [`ProjectionEvent`] sum type
    /// across all aggregates.
    #[must_use]
    pub fn events<E>(self) -> (r: Self) where E: ProjectionEvent<S>, H: From<SumHandler<E>>,
        ensures
            subscribes(
                self,
                every_of(E::EVENT_KINDS@),
                E::EVENT_KINDS@,
                SumHandler::<E>::only(),
                r,
            ),
    {
        let mut filters: Self = self;
        push_every(&mut filters.specs, E::EVENT_KINDS);
        filters.handlers.insert(E::EVENT_KINDS, H::from(SumHandler::new()));
        filters
    }

    /// Subscribe to a specific event type from a specific aggregate instance.
    #[must_use]
    pub fn event_for<A, E>(self, aggregate_id: &S::Id) -> (r: Self) where
        A: Aggregate<Id = S::Id>,
        E: DomainEvent,
        H: From<DomainHandler<E>>,

        ensures
            subscribes(
                self,
                within_of(seq![E::KIND], A::KIND@, aggregate_id.key()),
                seq![E::KIND],
                DomainHandler::<E>::only(),
                r,
            ),
    {
        let mut filters: Self = self;
        let kinds: [&'static str; 1] = [E::KIND];
        push_within(&mut filters.specs, &kinds, A::KIND, aggregate_id);
        filters.handlers.insert(&kinds, H::from(DomainHandler::new()));
        assert(kinds@ == seq![E::KIND]);
        filters
    }

    /// Subscribe to all events from a specific aggregate instance.
    #[must_use]
    pub fn events_for<A>(self, aggregate_id: &S::Id) -> (r: Self) where
        A: Aggregate<Id = S::Id>,
        A::Event: ProjectionEvent<S>,
        H: From<SumHandler<A::Event>>,

        ensures
            subscribes(
                self,
                within_of(
                    <A::Event as ProjectionEvent<S>>::EVENT_KINDS@,
                    A::KIND@,
                    aggregate_id.key(),
                ),
                <A::Event as ProjectionEvent<S>>::EVENT_KINDS@,
                SumHandler::<A::Event>::only(),
                r,
            ),
    {
        let mut filters: Self = self;
        let kinds: &'static [&'static str] = <A::Event as ProjectionEvent<S>>::EVENT_KINDS;
        push_within(&mut filters.specs, kinds, A::KIND, aggregate_id);
        filters.handlers.insert(kinds, H::from(SumHandler::new()));
        filters
    }
}

/// Whether `r` asks for what `spec` asks for, but only after `after`.
pub open spec fn placed_after<Key, Pos: Clone>(
    spec_: Selector<Key, ()>,
    after: Option<Pos>,
    r: Selector<Key, Pos>,
) -> bool {
    &&& r.event_kind == spec_.event_kind
    &&& r.aggregate_kind == spec_.aggregate_kind
    &&& r.aggregate_id == spec_.aggregate_id
    &&& match (after, r.after_position) {
        (Some(position), Some(copy)) => cloned(position, copy),
        (None, None) => true,
        _ => false,
    }
}

/// Whether each of `r` asks for what the one of `specs` at its place asks for, but
/// only after `after`.
pub open spec fn all_placed_after<Key, Pos: Clone>(
    specs: Seq<Selector<Key, ()>>,
    after: Option<Pos>,
    r: Seq<Selector<Key, Pos>>,
) -> bool {
    &&& r.len() == specs.len()
    &&& forall|i: int| 0 <= i < r.len() ==> placed_after(specs[i], after, #[trigger] r[i])
}

impl<S: EventStore, P, H> Filters<S, P, H> {
    /// Convert positionless filter specs into positioned [`EventFilter`]s.
    pub fn into_event_filters(self, after: Option<&S::Position>) -> (r: (
        Vec<EventFilter<S::Id, S::Position>>,
        Handlers<H>,
    ))
        ensures
            all_placed_after(
                crate::store::selectors(self.specs@),
                match after {
                    Some(position) => Some(*position),
                    None => None,
                },
                crate::store::selectors(r.0@),
            ),
            r.1 == self.handlers,
    {
        let Filters { specs, handlers, subscriber: _ } = self;
        let ghost given = specs@;
        let ghost bound = match after {
            Some(position) => Some(*position),
            None => None,
        };
        let mut filters: Vec<EventFilter<S::Id, S::Position>> = Vec::new();
        for item in iter: specs
            invariant
                iter.seq() == given,
                filters@.len() == iter.index(),
                bound == match after {
                    Some(position) => Some(*position),
                    None => None,
                },
                forall|i: int|
                    0 <= i < filters@.len() ==> placed_after(
                        given[i].selector(),
                        bound,
                        (#[trigger] filters@[i]).selector(),
                    ),
        {
            let mut filter: EventFilter<S::Id, S::Position> = EventFilter {
                event_kind: item.event_kind,
                aggregate_kind: item.aggregate_kind,
                aggregate_id: item.aggregate_id,
                after_position: None,
            };
            if let Some(position) = after {
                filter = filter.after(position.clone());
            }
            filters.push(filter);
        }
        (filters, handlers)
    }
}

} // verus!
