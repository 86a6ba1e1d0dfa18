//! What holds of snapshot stores as a whole.

use serde_json::Value;
use vstd::prelude::*;

use super::{
    inmemory::{Error, SnapshotPolicy, Store},
    OfferSnapshotError, Snapshot, SnapshotOffer,
};
use crate::store::StreamId;

verus! {

/// Snapshots only advance: an offer never takes one away, and never puts one in the
/// place of a newer one.
pub proof fn snapshots_only_advance<Key, Pos: PartialOrd, CE, E>(
    before: Map<Key, Snapshot<Pos, Value>>,
    after: Map<Key, Snapshot<Pos, Value>>,
    key: Key,
    created: Result<Snapshot<Pos, Result<Value, E>>, CE>,
    r: Result<SnapshotOffer, OfferSnapshotError<Error<E>, CE>>,
    any: Key,
)
    requires
        crate::order::total::<Pos>(),
        super::inmemory::settled(before, after, key, created, r),
        before.contains_key(any),
    ensures
        after.contains_key(any),
        crate::order::at_least(after[any].position, before[any].position),
{
    assert(crate::order::at_least(before[any].position, before[any].position));
    if let Ok(snapshot) = created {
        assert(crate::order::at_least(before[any].position, snapshot.position)
            || crate::order::above(snapshot.position, before[any].position));
        assert(crate::order::above(snapshot.position, before[any].position)
            ==> crate::order::at_least(snapshot.position, before[any].position));
    }
}

/// What is stored is read back: after an offer that was stored, a load of the same
/// instance decodes exactly the state that was offered, at the same position.
pub proof fn stored_snapshots_are_read_back<Key, Pos: PartialOrd + Clone, T, CE, E>(
    before: Map<Key, Snapshot<Pos, Value>>,
    after: Map<Key, Snapshot<Pos, Value>>,
    key: Key,
    created: Result<Snapshot<Pos, Result<Value, E>>, CE>,
    decoded: T,
    load: Result<Option<Snapshot<Pos, T>>, Error<E>>,
)
    requires
        crate::repository::laws::clones_exactly::<Pos>(),
        super::inmemory::settled(before, after, key, created, Ok(SnapshotOffer::Stored)),
        super::inmemory::loaded(after[key].position, Ok(decoded), load),
    ensures
        after.contains_key(key),
        created matches Ok(snapshot) && snapshot.data == Ok::<Value, E>(after[key].data) && load
            == Ok::<Option<Snapshot<Pos, T>>, Error<E>>(
            Some(Snapshot { position: snapshot.position, data: decoded }),
        ),
{
}

/// An offer concerns one instance: what is held of any other stays as it is.
pub proof fn offers_leave_other_instances_alone<Key, Pos: PartialOrd, CE, E>(
    before: Map<Key, Snapshot<Pos, Value>>,
    after: Map<Key, Snapshot<Pos, Value>>,
    key: Key,
    created: Result<Snapshot<Pos, Result<Value, E>>, CE>,
    r: Result<SnapshotOffer, OfferSnapshotError<Error<E>, CE>>,
    other: Key,
)
    requires
        super::inmemory::settled(before, after, key, created, r),
        other != key,
    ensures
        after.contains_key(other) == before.contains_key(other),
        before.contains_key(other) ==> after[other] == before[other],
{
}

/// An offer that is not stored, whether it was declined or failed, changes nothing.
pub proof fn unstored_offers_change_nothing<Key, Pos: PartialOrd, CE, E>(
    before: Map<Key, Snapshot<Pos, Value>>,
    after: Map<Key, Snapshot<Pos, Value>>,
    key: Key,
    created: Result<Snapshot<Pos, Result<Value, E>>, CE>,
    r: Result<SnapshotOffer, OfferSnapshotError<Error<E>, CE>>,
)
    requires
        super::inmemory::settled(before, after, key, created, r),
        !(r matches Ok(SnapshotOffer::Stored)),
    ensures
        after == before,
{
}

/// A snapshot that is no newer than one that was just stored is declined.
pub proof fn older_offers_are_declined<Key, Pos: PartialOrd, CE, E>(
    before: Map<Key, Snapshot<Pos, Value>>,
    stored: Map<Key, Snapshot<Pos, Value>>,
    after: Map<Key, Snapshot<Pos, Value>>,
    key: Key,
    first: Snapshot<Pos, Result<Value, E>>,
    second: Snapshot<Pos, Result<Value, E>>,
    r: Result<SnapshotOffer, OfferSnapshotError<Error<E>, CE>>,
)
    requires
        super::inmemory::settled(
            before,
            stored,
            key,
            Ok::<_, CE>(first),
            Ok(SnapshotOffer::Stored),
        ),
        crate::order::at_least(first.position, second.position),
        second.data is Ok,
        super::inmemory::settled(stored, after, key, Ok(second), r),
    ensures
        r == Ok::<SnapshotOffer, OfferSnapshotError<Error<E>, CE>>(SnapshotOffer::Declined),
        after == stored,
{
}

/// A snapshot that is due stays due while more events come.
pub proof fn due_snapshots_stay_due(policy: SnapshotPolicy, fewer: u64, more: u64)
    requires
        fewer <= more,
        policy.due(fewer),
    ensures
        policy.due(more),
{
}

/// When a snapshot is due: always, never, or exactly where at least as many events came
/// since the last one as the policy names.
pub proof fn policies_say_when(threshold: u64, events_since: u64)
    ensures
        SnapshotPolicy::Always.due(events_since),
        !SnapshotPolicy::Never.due(events_since),
        events_since < threshold ==> !SnapshotPolicy::EveryNEvents(threshold).due(events_since),
        events_since >= threshold ==> SnapshotPolicy::EveryNEvents(threshold).due(events_since),
{
}

/// An offer that was asked for is stored exactly where the store holds no snapshot of
/// that instance at the same position or a later one. Then the store holds what was
/// offered, at the position that was offered, and of every other instance what it held.
pub proof fn newer_offers_are_stored<Key, CE, E>(
    before: Map<Key, Snapshot<u64, Value>>,
    after: Map<Key, Snapshot<u64, Value>>,
    key: Key,
    position: u64,
    data: Value,
    r: Result<SnapshotOffer, OfferSnapshotError<Error<E>, CE>>,
    other: Key,
)
    requires
        super::inmemory::settled(
            before,
            after,
            key,
            Ok::<_, CE>(Snapshot { position, data: Ok::<Value, E>(data) }),
            r,
        ),
    ensures
        r is Ok,
        r->Ok_0 == SnapshotOffer::Stored <==> !(before.contains_key(key) && before[key].position
            >= position),
        r->Ok_0 == SnapshotOffer::Stored ==> {
            &&& after.contains_key(key)
            &&& after[key].position == position
            &&& after[key].data == data
        },
        r->Ok_0 != SnapshotOffer::Stored ==> after == before,
        other != key ==> after.contains_key(other) == before.contains_key(other) && after[other]
            == before[other],
{
}

/// What could not be created or serialised is answered with its cause, and nothing is
/// stored.
pub proof fn failed_offers_tell_why<Key, Pos: PartialOrd, CE, E>(
    before: Map<Key, Snapshot<Pos, Value>>,
    after: Map<Key, Snapshot<Pos, Value>>,
    key: Key,
    created: Result<Snapshot<Pos, Result<Value, E>>, CE>,
    r: Result<SnapshotOffer, OfferSnapshotError<Error<E>, CE>>,
)
    requires
        super::inmemory::settled(before, after, key, created, r),
    ensures
        created is Err ==> after == before && r is Err && r->Err_0 is Create
            && r->Err_0->Create_0 == created->Err_0,
        created is Ok && created->Ok_0.data is Err ==> after == before && r is Err
            && r->Err_0 is Snapshot && r->Err_0->Snapshot_0 is Serialization
            && r->Err_0->Snapshot_0->Serialization_0 == created->Ok_0.data->Err_0,
{
}

/// A load answers with what decoding gave: the state, at the position that is held, or
/// the reason why there is none.
pub proof fn loads_answer_what_was_decoded<T, E>(
    position: u64,
    decoded: Result<T, E>,
    r: Result<Option<Snapshot<u64, T>>, Error<E>>,
)
    requires
        super::inmemory::loaded(position, decoded, r),
    ensures
        decoded is Ok ==> r is Ok && r->Ok_0 is Some && r->Ok_0->0.position == position
            && r->Ok_0->0.data == decoded->Ok_0,
        decoded is Err ==> r is Err && r->Err_0 is Deserialization
            && r->Err_0->Deserialization_0 == decoded->Err_0,
{
}

/// What a policy answers: always yes, never yes, or yes exactly where at least as many events
/// came since the last snapshot as it names.
pub proof fn answers_compare_with_the_threshold(
    policy: &SnapshotPolicy,
    events_since: u64,
    r: bool,
)
    requires
        call_ensures(SnapshotPolicy::should_snapshot, (policy, events_since), r),
    ensures
        match *policy {
            SnapshotPolicy::Always => r,
            SnapshotPolicy::EveryNEvents(n) => r <==> events_since >= n,
            SnapshotPolicy::Never => !r,
        },
{
}

/// A store that was just made is empty, and has the policy that it was made for: to store
/// always, every so many events, or never.
pub proof fn new_stores_have_their_policy<Id: StreamId, E>(
    n: u64,
    always: Store<Id, u64, E>,
    every: Store<Id, u64, E>,
    never: Store<Id, u64, E>,
)
    requires
        call_ensures(Store::<Id, u64, E>::always, (), always),
        call_ensures(Store::<Id, u64, E>::every, (n,), every),
        call_ensures(Store::<Id, u64, E>::never, (), never),
    ensures
        always.spec_policy() is Always,
        every.spec_policy() is EveryNEvents,
        every.spec_policy()->EveryNEvents_0 == n,
        never.spec_policy() is Never,
        forall|key: (Seq<char>, Id::Key)| !(#[trigger] always@.contains_key(key)),
        forall|key: (Seq<char>, Id::Key)| !(#[trigger] every@.contains_key(key)),
        forall|key: (Seq<char>, Id::Key)| !(#[trigger] never@.contains_key(key)),
{
}

/// What an offer does. Where the policy does not ask for it, it is declined, and nothing is
/// created. Where it does, what was created is stored if nothing as new is held of that
/// instance, and declined otherwise; what could not be created or serialised is answered
/// with its cause. Only what is stored changes the store, and that at its own place.
pub proof fn offer_stores_what_was_asked_for<Id: StreamId, E, CE, Create>(
    store: &mut Store<Id, u64, E>,
    kind: &str,
    id: &Id,
    events_since: u64,
    create: Create,
    r: Result<SnapshotOffer, OfferSnapshotError<Error<E>, CE>>,
) where Create: FnOnce() -> Result<Snapshot<u64, Result<Value, E>>, CE>
    requires
        call_ensures(
            Store::<Id, u64, E>::offer_snapshot::<CE, Create>,
            (store, kind, id, events_since, create),
            r,
        ),
    ensures
        final(store).spec_policy() == old(store).spec_policy(),
        ({
            let asked = match old(store).spec_policy() {
                SnapshotPolicy::Always => true,
                SnapshotPolicy::EveryNEvents(n) => events_since >= n,
                SnapshotPolicy::Never => false,
            };
            &&& !asked ==> {
                &&& r is Ok
                &&& r->Ok_0 is Declined
                &&& final(store)@ == old(store)@
            }
            &&& asked ==> exists|created: Result<Snapshot<u64, Result<Value, E>>, CE>|
                #![trigger create.ensures((), created)]
                {
                    &&& create.ensures((), created)
                    &&& answered(old(store)@, final(store)@, (kind@, id.key()), created, r)
                }
        }),
{
    if old(store).spec_policy().due(events_since) {
        let created = choose|created: Result<Snapshot<u64, Result<Value, E>>, CE>|
            #![trigger super::inmemory::settled(
                old(store)@,
                final(store)@,
                (kind@, id.key()),
                created,
                r,
            )]
            create.ensures((), created) && super::inmemory::settled(
                old(store)@,
                final(store)@,
                (kind@, id.key()),
                created,
                r,
            );
        let key = (kind@, id.key());
        if let Ok(snapshot) = created {
            if snapshot.data is Ok {
                crate::order::u64_compares_as_numbers(old(store)@[key].position, snapshot.position);
                assert(old(store)@.insert(key, final(store)@[key]).remove(key) == old(
                    store,
                )@.remove(key));
            }
        }
        assert(answered(old(store)@, final(store)@, key, created, r));
        assert(create.ensures((), created));
    }
}

/// Whether an offer of `created` was answered with `r` and took `before` to `after`: stored
/// at its place where nothing as new was held there, declined without a change where
/// something was, and failed without a change where there was nothing to store.
pub open spec fn answered<Key, CE, E>(
    before: Map<Key, Snapshot<u64, Value>>,
    after: Map<Key, Snapshot<u64, Value>>,
    key: Key,
    created: Result<Snapshot<u64, Result<Value, E>>, CE>,
    r: Result<SnapshotOffer, OfferSnapshotError<Error<E>, CE>>,
) -> bool {
    if created is Err {
        &&& after == before
        &&& r is Err
        &&& r->Err_0 is Create
        &&& r->Err_0->Create_0 == created->Err_0
    } else if created->Ok_0.data is Err {
        &&& after == before
        &&& r is Err
        &&& r->Err_0 is Snapshot
        &&& r->Err_0->Snapshot_0 is Serialization
        &&& r->Err_0->Snapshot_0->Serialization_0 == created->Ok_0.data->Err_0
    } else if before.contains_key(key) && before[key].position >= created->Ok_0.position {
        &&& after == before
        &&& r is Ok
        &&& r->Ok_0 is Declined
    } else {
        &&& r is Ok
        &&& r->Ok_0 is Stored
        &&& after.contains_key(key)
        &&& after[key].position == created->Ok_0.position
        &&& after[key].data == created->Ok_0.data->Ok_0
        &&& after.remove(key) == before.remove(key)
    }
}

/// What a load answers: nothing where none is held of that instance, and else the state that
/// its JSON was decoded to, at the position that is held, or why it could not be decoded.
pub proof fn load_answers_what_is_held<Id: StreamId, E, T, Decode>(
    store: &Store<Id, u64, E>,
    kind: &str,
    id: &Id,
    decode: Decode,
    r: Result<Option<Snapshot<u64, T>>, Error<E>>,
) where Decode: FnOnce(Value) -> Result<T, E>
    requires
        call_ensures(
            Store::<Id, u64, E>::load::<T, Decode>,
            (store, kind, id, decode),
            r,
        ),
    ensures
        !store@.contains_key((kind@, id.key())) ==> r is Ok && r->Ok_0 is None,
        store@.contains_key((kind@, id.key())) ==> exists|decoded: Result<T, E>|
            #![trigger decode.ensures((store@[(kind@, id.key())].data,), decoded)]
            {
                &&& decode.ensures((store@[(kind@, id.key())].data,), decoded)
                &&& decoded is Ok ==> {
                    &&& r is Ok && r->Ok_0 is Some
                    &&& r->Ok_0->0.position == store@[(kind@, id.key())].position
                    &&& r->Ok_0->0.data == decoded->Ok_0
                }
                &&& decoded is Err ==> {
                    &&& r is Err && r->Err_0 is Deserialization
                    &&& r->Err_0->Deserialization_0 == decoded->Err_0
                }
            },
{
    if store@.contains_key((kind@, id.key())) {
        let decoded = choose|decoded: Result<T, E>|
            #![trigger super::inmemory::loaded(store@[(kind@, id.key())].position, decoded, r)]
            decode.ensures((store@[(kind@, id.key())].data,), decoded) && super::inmemory::loaded(
                store@[(kind@, id.key())].position,
                decoded,
                r,
            );
        assert(decode.ensures((store@[(kind@, id.key())].data,), decoded));
    }
}

} // verus!
