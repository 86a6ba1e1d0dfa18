//! What the calls of a repository over the in-memory store do, from the repository before
//! the call to the one after it.

use nonempty::NonEmpty;
use vstd::prelude::*;

use super::{
    command_laws::{all_or_nothing, concerns},
    inmemory::{CommitPolicy, EncodeEvent, SnapshotPolicy},
    CommandError, LifecycleError, LoadedAggregate, Repository,
};
use crate::{
    aggregate::{Aggregate, Handle, HandleCreate},
    concurrency::{ConcurrencyConflict, Optimistic},
    event::ProjectionEvent,
    projection::ProjectionError,
    snapshot::NoSnapshots,
    store::{
        inmemory::{InMemoryError, InMemoryEvent, Store},
        StreamId,
    },
};

verus! {

/// Whether some event of `log` belongs to the stream with this kind and this id.
pub open spec fn has_events<Id: StreamId, Meta>(
    log: Seq<InMemoryEvent<Id, Meta>>,
    kind: Seq<char>,
    id: Id::Key,
) -> bool {
    exists|p: int|
        {
            &&& 0 <= p < log.len()
            &&& (#[trigger] log[p]).aggregate_kind@ == kind
            &&& log[p].aggregate_id.key() == id
        }
}

/// A stream has a version exactly where it has events.
proof fn lemma_versions_need_events<Id: StreamId, Meta>(
    log: Seq<InMemoryEvent<Id, Meta>>,
    kind: Seq<char>,
    id: Id::Key,
)
    ensures
        crate::store::inmemory::version_of(log, kind, id) is Some <==> has_events(log, kind, id),
{
    let stream = crate::store::inmemory::stream_of(log, kind, id);
    let pred = crate::store::inmemory::in_stream::<Id, Meta>(kind, id);
    if stream.len() > 0 {
        assert(stream.contains(stream[0]));
        log.lemma_filter_contains_rev(pred, stream[0]);
        log.lemma_filter_pred(pred, 0);
        let p = choose|p: int| 0 <= p < log.len() && log[p] == stream[0];
        assert(log[p].aggregate_kind@ == kind);
    }
    if has_events(log, kind, id) {
        let p = choose|p: int|
            {
                &&& 0 <= p < log.len()
                &&& (#[trigger] log[p]).aggregate_kind@ == kind
                &&& log[p].aggregate_id.key() == id
            };
        assert(pred(log[p]));
        log.lemma_filter_contains(pred, p);
    }
}

/// Whether a command took `before` to `after` and came to `r` as the handler of an existing
/// instance said: by the events that it returned, or by its error.
pub open spec fn as_handled<A, Cmd, Id, Meta, E, C, M>(
    before: Repository<Store<Id, Meta, E>, C, M>,
    after: Repository<Store<Id, Meta, E>, C, M>,
    id: Id::Key,
    base: LoadedAggregate<A, u64>,
    command: &Cmd,
    metadata: Meta,
    r: Result<
        (),
        CommandError<A::Error, C::ConcurrencyError, InMemoryError<E>, M::SnapshotError>,
    >,
) -> bool where
    A: Aggregate + Handle<Cmd>,
    A::Event: EncodeEvent<E>,
    Id: StreamId,
    Meta: Clone,
    C: CommitPolicy,
    M: SnapshotPolicy<A, Id>,
 {
    exists|handled: Result<Vec<A::Event>, A::HandleError>|
        {
            &&& #[trigger] call_ensures(
                <A as Handle<Cmd>>::handle,
                (&base.aggregate, command),
                handled,
            )
            &&& handled is Ok ==> all_or_nothing::<A, Id, Meta, E, C, M>(
                before,
                after,
                id,
                base.version,
                handled->Ok_0@,
                metadata,
                r,
            )
            &&& handled is Err ==> {
                &&& after.store.log() == before.store.log()
                &&& after.snapshots == before.snapshots
                &&& r is Err
                &&& r->Err_0 is Aggregate
                &&& call_ensures(
                    <A::HandleError as Into<A::Error>>::into,
                    (handled->Err_0,),
                    r->Err_0->Aggregate_0,
                )
            }
        }
}

/// Whether a command took `before` to `after` and came to `r` as the creation handler said.
pub open spec fn as_created<A, Cmd, Id, Meta, E, C, M>(
    before: Repository<Store<Id, Meta, E>, C, M>,
    after: Repository<Store<Id, Meta, E>, C, M>,
    id: Id::Key,
    command: &Cmd,
    metadata: Meta,
    r: Result<
        (),
        CommandError<A::Error, C::ConcurrencyError, InMemoryError<E>, M::SnapshotError>,
    >,
) -> bool where
    A: Aggregate + HandleCreate<Cmd>,
    A::Event: EncodeEvent<E>,
    Id: StreamId,
    Meta: Clone,
    C: CommitPolicy,
    M: SnapshotPolicy<A, Id>,
 {
    exists|handled: Result<Vec<A::Event>, A::HandleCreateError>|
        {
            &&& #[trigger] call_ensures(
                <A as HandleCreate<Cmd>>::handle_create,
                (command,),
                handled,
            )
            &&& handled is Ok ==> all_or_nothing::<A, Id, Meta, E, C, M>(
                before,
                after,
                id,
                None,
                handled->Ok_0@,
                metadata,
                r,
            )
            &&& handled is Err ==> {
                &&& after.store.log() == before.store.log()
                &&& after.snapshots == before.snapshots
                &&& r is Err
                &&& r->Err_0 is Aggregate
                &&& call_ensures(
                    <A::HandleCreateError as Into<A::Error>>::into,
                    (handled->Err_0,),
                    r->Err_0->Aggregate_0,
                )
            }
        }
}

/// A creation on a stream that has events is refused and changes nothing. On one that has
/// none it does what the creation handler said: it writes the events that were returned, all
/// of them and in their order, behind the log, or nothing.
pub proof fn create_writes_what_was_handled<A, Cmd, Id, Meta, E, C, M>(
    repository: &mut Repository<Store<Id, Meta, E>, C, M>,
    id: &Id,
    command: &Cmd,
    metadata: &Meta,
    r: Result<
        (),
        CommandError<A::Error, C::ConcurrencyError, InMemoryError<E>, M::SnapshotError>,
    >,
) where
    A: Aggregate<Id = Id> + HandleCreate<Cmd>,
    A::Event: EncodeEvent<E>,
    Id: StreamId,
    Meta: Clone,
    C: CommitPolicy,
    M: SnapshotPolicy<A, Id>,

    requires
        call_ensures(
            Repository::<Store<Id, Meta, E>, C, M>::create::<A, Cmd>,
            (repository, id, command, metadata),
            r,
        ),
    ensures
        has_events(old(repository).store.log(), A::KIND@, id.key()) ==> {
            &&& final(repository).store.log() == old(repository).store.log()
            &&& final(repository).snapshots == old(repository).snapshots
            &&& r is Err
            &&& r->Err_0 is Lifecycle
            &&& r->Err_0->Lifecycle_0 == LifecycleError::AggregateAlreadyExists
        },
        !has_events(old(repository).store.log(), A::KIND@, id.key()) ==> as_created::<
            A,
            Cmd,
            Id,
            Meta,
            E,
            C,
            M,
        >(*old(repository), *final(repository), id.key(), command, *metadata, r),
{
    let log = old(repository).store.log();
    lemma_versions_need_events(log, A::KIND@, id.key());
    if !has_events(log, A::KIND@, id.key()) {
        let answer = choose|answer: Result<Option<NonEmpty<A::Event>>, A::Error>| #[trigger]
            super::answers_creation::<A, Cmd>(command, answer)
                && super::inmemory::carries_out::<A, Id, Meta, E, C, M>(
                *old(repository),
                *final(repository),
                id.key(),
                None,
                answer,
                *metadata,
                r,
            );
        super::command_laws::creations_append_what_was_handled::<A, Cmd, Id, Meta, E, C, M>(
            *old(repository),
            *final(repository),
            id.key(),
            command,
            answer,
            *metadata,
            r,
        );
    }
}

/// Whether a command for an existing stream took `before` to `after` and came to `r`: as the
/// handler of the loaded instance said; or, where nothing was loaded or loading failed,
/// without any change and with that for an error.
pub open spec fn as_updated<A, Cmd, Id, Meta, E, C, M>(
    before: Repository<Store<Id, Meta, E>, C, M>,
    after: Repository<Store<Id, Meta, E>, C, M>,
    id: Id::Key,
    command: &Cmd,
    metadata: Meta,
    r: Result<
        (),
        CommandError<A::Error, C::ConcurrencyError, InMemoryError<E>, M::SnapshotError>,
    >,
) -> bool where
    A: Aggregate + Handle<Cmd>,
    A::Event: ProjectionEvent<Store<Id, Meta, E>> + EncodeEvent<E>,
    Id: StreamId,
    Meta: Clone,
    C: CommitPolicy,
    M: SnapshotPolicy<A, Id>,
 {
    exists|loaded: Result<Option<LoadedAggregate<A, u64>>, ProjectionError<InMemoryError<E>>>|
        {
            &&& #[trigger] super::inmemory::loads_from_log::<A, Id, Meta, E>(
                before.store.log(),
                before.snapshots.base(A::KIND@, id),
                id,
                loaded,
            )
            &&& match loaded {
                Ok(Some(base)) => as_handled::<A, Cmd, Id, Meta, E, C, M>(
                    before,
                    after,
                    id,
                    base,
                    command,
                    metadata,
                    r,
                ),
                Ok(None) => {
                    &&& after.store.log() == before.store.log()
                    &&& after.snapshots == before.snapshots
                    &&& r is Err && r->Err_0 is Lifecycle
                    &&& r->Err_0->Lifecycle_0 == LifecycleError::AggregateNotFound
                },
                Err(error) => {
                    &&& after.store.log() == before.store.log()
                    &&& after.snapshots == before.snapshots
                    &&& r is Err && r->Err_0 is Projection
                    &&& r->Err_0->Projection_0 == error
                },
            }
        }
}

/// One attempt at a command for an existing stream does as that says.
proof fn lemma_attempts_are_updates<A, Cmd, Id, Meta, E, C, M>(
    before: Repository<Store<Id, Meta, E>, C, M>,
    after: Repository<Store<Id, Meta, E>, C, M>,
    id: Id::Key,
    command: &Cmd,
    metadata: Meta,
    r: Result<
        (),
        CommandError<A::Error, C::ConcurrencyError, InMemoryError<E>, M::SnapshotError>,
    >,
) where
    A: Aggregate + Handle<Cmd>,
    A::Event: ProjectionEvent<Store<Id, Meta, E>> + EncodeEvent<E>,
    Id: StreamId,
    Meta: Clone,
    C: CommitPolicy,
    M: SnapshotPolicy<A, Id>,

    requires
        super::inmemory::attempted::<A, Cmd, Id, Meta, E, C, M>(
            before,
            after,
            id,
            command,
            metadata,
            r,
        ),
    ensures
        as_updated::<A, Cmd, Id, Meta, E, C, M>(before, after, id, command, metadata, r),
{
    let loaded = choose|
        loaded: Result<Option<LoadedAggregate<A, u64>>, ProjectionError<InMemoryError<E>>>,
    |
        #[trigger] super::inmemory::loads_from_log::<A, Id, Meta, E>(
            before.store.log(),
            before.snapshots.base(A::KIND@, id),
            id,
            loaded,
        ) && super::inmemory::updates::<A, Cmd, Id, Meta, E, C, M>(
            before,
            after,
            id,
            loaded,
            command,
            metadata,
            r,
        );
    if let Ok(Some(base)) = loaded {
        super::command_laws::updates_append_what_was_handled::<A, Cmd, Id, Meta, E, C, M>(
            before,
            after,
            id,
            base,
            command,
            metadata,
            r,
        );
    }
}

/// An update does what the handler of the loaded instance said: it writes the events that
/// were returned, all of them and in their order, behind the log, or nothing. Where nothing
/// was loaded, or loading failed, it changes nothing and says so.
pub proof fn update_writes_what_was_handled<A, Cmd, Id, Meta, E, C, M>(
    repository: &mut Repository<Store<Id, Meta, E>, C, M>,
    id: &Id,
    command: &Cmd,
    metadata: &Meta,
    r: Result<
        (),
        CommandError<A::Error, C::ConcurrencyError, InMemoryError<E>, M::SnapshotError>,
    >,
) where
    A: Aggregate<Id = Id> + Handle<Cmd>,
    A::Event: ProjectionEvent<Store<Id, Meta, E>> + EncodeEvent<E>,
    Id: StreamId,
    Meta: Clone,
    C: CommitPolicy,
    M: SnapshotPolicy<A, Id>,

    requires
        call_ensures(
            Repository::<Store<Id, Meta, E>, C, M>::update::<A, Cmd>,
            (repository, id, command, metadata),
            r,
        ),
    ensures
        as_updated::<A, Cmd, Id, Meta, E, C, M>(
            *old(repository),
            *final(repository),
            id.key(),
            command,
            *metadata,
            r,
        ),
{
    lemma_attempts_are_updates::<A, Cmd, Id, Meta, E, C, M>(
        *old(repository),
        *final(repository),
        id.key(),
        command,
        *metadata,
        r,
    );
}

/// A command that may create or update does what the handler of the loaded instance said,
/// and what the creation handler said where nothing was loaded. Where loading failed it
/// changes nothing and says so.
pub proof fn upsert_writes_what_was_handled<A, Cmd, Id, Meta, E, C, M>(
    repository: &mut Repository<Store<Id, Meta, E>, C, M>,
    id: &Id,
    command: &Cmd,
    metadata: &Meta,
    r: Result<
        (),
        CommandError<A::Error, C::ConcurrencyError, InMemoryError<E>, M::SnapshotError>,
    >,
) where
    A: Aggregate<Id = Id> + Handle<Cmd> + HandleCreate<Cmd>,
    A::Event: ProjectionEvent<Store<Id, Meta, E>> + EncodeEvent<E>,
    Id: StreamId,
    Meta: Clone,
    C: CommitPolicy,
    M: SnapshotPolicy<A, Id>,

    requires
        call_ensures(
            Repository::<Store<Id, Meta, E>, C, M>::upsert::<A, Cmd>,
            (repository, id, command, metadata),
            r,
        ),
    ensures
        exists|loaded: Result<Option<LoadedAggregate<A, u64>>, ProjectionError<InMemoryError<E>>>|
            {
                &&& #[trigger] super::inmemory::loads_from_log::<A, Id, Meta, E>(
                    old(repository).store.log(),
                    old(repository).snapshots.base(A::KIND@, id.key()),
                    id.key(),
                    loaded,
                )
                &&& match loaded {
                    Ok(Some(base)) => as_handled::<A, Cmd, Id, Meta, E, C, M>(
                        *old(repository),
                        *final(repository),
                        id.key(),
                        base,
                        command,
                        *metadata,
                        r,
                    ),
                    Ok(None) => as_created::<A, Cmd, Id, Meta, E, C, M>(
                        *old(repository),
                        *final(repository),
                        id.key(),
                        command,
                        *metadata,
                        r,
                    ),
                    Err(error) => {
                        &&& final(repository).store.log() == old(repository).store.log()
                        &&& final(repository).snapshots == old(repository).snapshots
                        &&& r is Err && r->Err_0 is Projection
                        &&& r->Err_0->Projection_0 == error
                    },
                }
            },
{
    let loaded = choose|
        loaded: Result<Option<LoadedAggregate<A, u64>>, ProjectionError<InMemoryError<E>>>,
    |
        #[trigger] super::inmemory::loads_from_log::<A, Id, Meta, E>(
            old(repository).store.log(),
            old(repository).snapshots.base(A::KIND@, id.key()),
            id.key(),
            loaded,
        ) && super::inmemory::upserts::<A, Cmd, Id, Meta, E, C, M>(
            *old(repository),
            *final(repository),
            id.key(),
            loaded,
            command,
            *metadata,
            r,
        );
    match loaded {
        Ok(Some(base)) => {
            super::command_laws::updates_append_what_was_handled::<A, Cmd, Id, Meta, E, C, M>(
                *old(repository),
                *final(repository),
                id.key(),
                base,
                command,
                *metadata,
                r,
            );
        },
        Ok(None) => {
            let answer = choose|answer: Result<Option<NonEmpty<A::Event>>, A::Error>| #[trigger]
                super::answers_creation::<A, Cmd>(command, answer)
                    && super::inmemory::carries_out::<A, Id, Meta, E, C, M>(
                    *old(repository),
                    *final(repository),
                    id.key(),
                    None,
                    answer,
                    *metadata,
                    r,
                );
            super::command_laws::creations_append_what_was_handled::<A, Cmd, Id, Meta, E, C, M>(
                *old(repository),
                *final(repository),
                id.key(),
                command,
                answer,
                *metadata,
                r,
            );
        },
        Err(_) => {},
    }
}

/// Updating with retries leaves behind what its last attempt does: an update from the
/// repository before the call to the one after it. Success is reported as the number of
/// attempts, which is at least one and at most one more than the retries allowed; failure as
/// the last error.
pub proof fn update_with_retry_is_one_update<A, Cmd, Id, Meta, E, M>(
    repository: &mut Repository<Store<Id, Meta, E>, Optimistic, M>,
    id: &Id,
    command: &Cmd,
    metadata: &Meta,
    max_retries: usize,
    r: Result<
        usize,
        CommandError<A::Error, ConcurrencyConflict<u64>, InMemoryError<E>, M::SnapshotError>,
    >,
) where
    A: Aggregate<Id = Id> + Handle<Cmd>,
    A::Event: ProjectionEvent<Store<Id, Meta, E>> + EncodeEvent<E>,
    Id: StreamId,
    Meta: Clone,
    M: SnapshotPolicy<A, Id>,

    requires
        max_retries < usize::MAX,
        call_ensures(
            Repository::<Store<Id, Meta, E>, Optimistic, M>::update_with_retry::<A, Cmd>,
            (repository, id, command, metadata, max_retries),
            r,
        ),
    ensures
        match r {
            Ok(attempts) => {
                &&& 1 <= attempts <= max_retries + 1
                &&& as_updated::<A, Cmd, Id, Meta, E, Optimistic, M>(
                    *old(repository),
                    *final(repository),
                    id.key(),
                    command,
                    *metadata,
                    Ok(()),
                )
            },
            Err(error) => as_updated::<A, Cmd, Id, Meta, E, Optimistic, M>(
                *old(repository),
                *final(repository),
                id.key(),
                command,
                *metadata,
                Err(error),
            ),
        },
{
    let outcomes = choose|
        outcomes: Seq<
            Result<
                (),
                CommandError<
                    A::Error,
                    ConcurrencyConflict<u64>,
                    InMemoryError<E>,
                    M::SnapshotError,
                >,
            >,
        >,
    |
        {
            &&& #[trigger] super::attempts_made(outcomes, max_retries)
            &&& r == super::retry_result(outcomes)
            &&& super::inmemory::attempted::<A, Cmd, Id, Meta, E, Optimistic, M>(
                *old(repository),
                *final(repository),
                id.key(),
                command,
                *metadata,
                outcomes.last(),
            )
        };
    super::command_laws::retries_are_counted(outcomes, max_retries, r);
    lemma_attempts_are_updates::<A, Cmd, Id, Meta, E, Optimistic, M>(
        *old(repository),
        *final(repository),
        id.key(),
        command,
        *metadata,
        outcomes.last(),
    );
}

/// A load of an instance whose stream has no events finds nothing.
proof fn lemma_nothing_to_load<A, Id, Meta, E>(log: Seq<InMemoryEvent<Id, Meta>>, id: Id::Key) where
    A: Aggregate,
    A::Event: ProjectionEvent<Store<Id, Meta, E>>,
    Id: StreamId,
    Meta: Clone,

    requires
        crate::store::inmemory::version_of(log, A::KIND@, id) is None,
    ensures
        super::inmemory::loads_from_log::<A, Id, Meta, E>(log, None, id, Ok(None)),
{
    super::laws::no_events_no_state::<A, Id, Meta, E>(log, id);
    let none = Seq::<InMemoryEvent<Id, Meta>>::empty();
    assert(crate::store::inmemory::copies_of(super::laws::history::<A, Id, Meta, E>(log, id), none));
}

/// What a load gives, as a load of the log itself.
proof fn lemma_given_is_loaded<A, Id, Meta, E>(
    log: Seq<InMemoryEvent<Id, Meta>>,
    id: Id::Key,
    r: Result<Option<A>, ProjectionError<InMemoryError<E>>>,
) where
    A: Aggregate,
    A::Event: ProjectionEvent<Store<Id, Meta, E>>,
    Id: StreamId,
    Meta: Clone,

    requires
        super::inmemory::gives_state::<A, Id, Meta, E>(log, None, id, r),
    ensures
        exists|loaded: Result<Option<LoadedAggregate<A, u64>>, ProjectionError<InMemoryError<E>>>|
            #[trigger] super::inmemory::loads_from_log::<A, Id, Meta, E>(log, None, id, loaded) && r
                == match loaded {
                Ok(Some(loaded)) => Ok(Some(loaded.aggregate)),
                Ok(None) => Ok(None),
                Err(error) => Err(error),
            },
{
    if crate::store::inmemory::version_of(log, A::KIND@, id) is None {
        lemma_nothing_to_load::<A, Id, Meta, E>(log, id);
    }
}

/// Two loads, before and after one more event. One that concerns the instance creates it or
/// is applied to it, or makes the load fail where it cannot be restored; any other makes no
/// difference. An instance is missing while the log is empty.
pub proof fn loads_differ_by_what_was_written<A, Id, Meta, E, C>(
    before: Repository<Store<Id, Meta, E>, C, NoSnapshots<u64>>,
    event: InMemoryEvent<Id, Meta>,
    after: Repository<Store<Id, Meta, E>, C, NoSnapshots<u64>>,
    id: &Id,
    earlier: Result<Option<A>, ProjectionError<InMemoryError<E>>>,
    later: Result<Option<A>, ProjectionError<InMemoryError<E>>>,
) where
    A: Aggregate<Id = Id>,
    A::Event: ProjectionEvent<Store<Id, Meta, E>>,
    Id: StreamId,
    Meta: Clone,
    C: CommitPolicy,

    requires
        super::laws::clones_exactly::<Meta>(),
        call_ensures(
            Repository::<Store<Id, Meta, E>, C, NoSnapshots<u64>>::load::<A>,
            (&before, id),
            earlier,
        ),
        after.store.log() == before.store.log().push(event),
        call_ensures(
            Repository::<Store<Id, Meta, E>, C, NoSnapshots<u64>>::load::<A>,
            (&after, id),
            later,
        ),
    ensures
        before.store.log().len() == 0 ==> earlier is Ok && earlier->Ok_0 is None,
        ({
            let concerned = concerns::<A, Id, Meta, E>(id.key(), event);
            let restored = <A::Event as ProjectionEvent<Store<Id, Meta, E>>>::restored(event);
            &&& earlier is Err ==> later is Err
            &&& earlier is Ok && !concerned ==> later == earlier
            &&& earlier is Ok && concerned && restored is None ==> later is Err
            &&& earlier is Ok && concerned && restored is Some ==> {
                &&& later is Ok
                &&& later->Ok_0 == Some(
                    match earlier->Ok_0 {
                        None => A::created(restored->0),
                        Some(aggregate) => aggregate.applied(restored->0),
                    },
                )
            }
        }),
{
    lemma_given_is_loaded::<A, Id, Meta, E>(before.store.log(), id.key(), earlier);
    lemma_given_is_loaded::<A, Id, Meta, E>(after.store.log(), id.key(), later);
    let first = choose|
        loaded: Result<Option<LoadedAggregate<A, u64>>, ProjectionError<InMemoryError<E>>>,
    |
        #[trigger] super::inmemory::loads_from_log::<A, Id, Meta, E>(
            before.store.log(),
            None,
            id.key(),
            loaded,
        ) && earlier == match loaded {
            Ok(Some(loaded)) => Ok(Some(loaded.aggregate)),
            Ok(None) => Ok(None),
            Err(error) => Err(error),
        };
    let second = choose|
        loaded: Result<Option<LoadedAggregate<A, u64>>, ProjectionError<InMemoryError<E>>>,
    |
        #[trigger] super::inmemory::loads_from_log::<A, Id, Meta, E>(
            after.store.log(),
            None,
            id.key(),
            loaded,
        ) && later == match loaded {
            Ok(Some(loaded)) => Ok(Some(loaded.aggregate)),
            Ok(None) => Ok(None),
            Err(error) => Err(error),
        };
    super::command_laws::loads_follow_the_log::<A, Id, Meta, E>(
        before.store.log(),
        event,
        None,
        id.key(),
        first,
        second,
    );
    if before.store.log().len() == 0 {
        assert(before.store.log() == Seq::<InMemoryEvent<Id, Meta>>::empty());
        super::command_laws::loads_start_from_the_base::<A, Id, Meta, E>(None, id.key(), first);
    }
}

} // verus!
