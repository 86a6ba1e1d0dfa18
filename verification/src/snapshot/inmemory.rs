//! In-memory snapshot store.

use std::marker::PhantomData;

use serde_json::Value;
use vstd::prelude::*;

use super::{OfferSnapshotError, Snapshot, SnapshotOffer, SnapshotStore};
use crate::{
    message::{prefixed_message, Message},
    store::StreamId,
};

verus! {

/// When a snapshot store accepts offers.
#[derive(Clone, Debug)]
pub enum SnapshotPolicy {
    /// Create a snapshot after every command.
    Always,
    /// Create a snapshot every N events.
    EveryNEvents(u64),
    /// Never create snapshots (load-only mode).
    Never,
}

impl SnapshotPolicy {
    /// Whether a snapshot is due after `events_since` events without one.
    pub open spec fn due(self, events_since: u64) -> bool {
        match self {
            SnapshotPolicy::Always => true,
            SnapshotPolicy::EveryNEvents(threshold) => events_since >= threshold,
            SnapshotPolicy::Never => false,
        }
    }

    /// Check if a snapshot should be created based on events since last
    /// snapshot.
    #[must_use]
    pub fn should_snapshot(&self, events_since: u64) -> (r: bool)
        ensures
            r == self.due(events_since),
            self is Always ==> r,
            self is Never ==> !r,
            *self matches SnapshotPolicy::EveryNEvents(threshold) ==> (r <==> events_since
                >= threshold),
    {
        match self {
            SnapshotPolicy::Always => true,
            SnapshotPolicy::EveryNEvents(threshold) => events_since >= *threshold,
            SnapshotPolicy::Never => false,
        }
    }
}

/// Error type for in-memory snapshot store.
#[derive(Debug)]
pub enum Error<E> {
    /// State could not be turned into JSON.
    Serialization(E),
    /// JSON could not be turned into state.
    Deserialization(E),
}

impl<E> Error<E> {
    /// State could not be turned into JSON.
    pub fn serialization(err: E) -> (r: Self)
        ensures
            r == Error::Serialization(err),
    {
        Error::Serialization(err)
    }

    /// JSON could not be turned into state.
    pub fn deserialization(err: E) -> (r: Self)
        ensures
            r == Error::Deserialization(err),
    {
        Error::Deserialization(err)
    }
}

impl<E: Message> Message for Error<E> {
    open spec fn described_by(&self, text: Seq<char>) -> bool {
        match self {
            Error::Serialization(cause) => crate::message::prefixed(
                "serialization error: "@,
                cause,
                text,
            ),
            Error::Deserialization(cause) => crate::message::prefixed(
                "deserialization error: "@,
                cause,
                text,
            ),
        }
    }

    fn message(&self) -> (text: String) {
        match self {
            Error::Serialization(cause) => prefixed_message("serialization error: ", cause),
            Error::Deserialization(cause) => prefixed_message("deserialization error: ", cause),
        }
    }
}

impl<E: Message> Error<E> {
    /// The text of the underlying failure.
    pub fn source(&self) -> (r: Option<String>)
        ensures
            r matches Some(text) && match self {
                Error::Serialization(cause) => cause.described_by(text@),
                Error::Deserialization(cause) => cause.described_by(text@),
            },
    {
        match self {
            Error::Serialization(cause) => Some(cause.message()),
            Error::Deserialization(cause) => Some(cause.message()),
        }
    }
}

/// Name of one snapshot: a type and an instance of it.
#[derive(Clone, Debug, Eq, PartialEq)]
pub struct SnapshotKey<Id> {
    /// The type identifier.
    pub kind: String,
    /// The instance identifier.
    pub id: Id,
}

impl<Id> SnapshotKey<Id> {
    /// Names the snapshot of one instance.
    pub fn new(kind: &str, id: Id) -> (r: Self)
        ensures
            r.kind@ == kind@,
            r.id == id,
    {
        SnapshotKey { kind: kind.to_owned(), id }
    }
}

struct Entry<Id, Pos> {
    key: SnapshotKey<Id>,
    snapshot: Snapshot<Pos, Value>,
}

impl<Id: StreamId, Pos> Entry<Id, Pos> {
    spec fn named(self, kind: Seq<char>, id: Id::Key) -> bool {
        self.key.kind@ == kind && self.key.id.key() == id
    }
}

/// In-memory snapshot store with configurable policy.
///
/// `E` says why state could not be turned into JSON or back.
pub struct Store<Id: StreamId, Pos, E = String> {
    entries: Vec<Entry<Id, Pos>>,
    policy: SnapshotPolicy,
    failure: PhantomData<E>,
}

impl<Id: StreamId, Pos, E> SnapshotStore<Id> for Store<Id, Pos, E> {
    type Position = Pos;

    type Error = Error<E>;
}

impl<Id: StreamId, Pos, E> Default for Store<Id, Pos, E> {
    fn default() -> (r: Self)
        ensures
            r@ == Map::<(Seq<char>, Id::Key), Snapshot<Pos, Value>>::empty(),
            r.spec_policy() == SnapshotPolicy::Always,
    {
        Self::always()
    }
}

impl<Id: StreamId, Pos, E> View for Store<Id, Pos, E> {
    type V = Map<(Seq<char>, Id::Key), Snapshot<Pos, Value>>;

    /// The snapshots, by kind and instance.
    closed spec fn view(&self) -> Self::V {
        Map::new(
            |key: (Seq<char>, Id::Key)| holds_key(self.entries@, key.0, key.1),
            |key: (Seq<char>, Id::Key)| self.entries@[place_of(self.entries@, key.0, key.1)].snapshot,
        )
    }
}

spec fn holds_key<Id: StreamId, Pos>(
    entries: Seq<Entry<Id, Pos>>,
    kind: Seq<char>,
    id: Id::Key,
) -> bool {
    exists|i: int| 0 <= i < entries.len() && (#[trigger] entries[i]).named(kind, id)
}

spec fn place_of<Id: StreamId, Pos>(
    entries: Seq<Entry<Id, Pos>>,
    kind: Seq<char>,
    id: Id::Key,
) -> int {
    choose|i: int| 0 <= i < entries.len() && (#[trigger] entries[i]).named(kind, id)
}

/// Whether a snapshot at `position` is not newer than the one already held.
pub open spec fn outdated<Key, Pos: PartialOrd>(
    held: Map<Key, Snapshot<Pos, Value>>,
    key: Key,
    position: Pos,
) -> bool {
    held.contains_key(key) && crate::order::at_least(held[key].position, position)
}

impl<Id: StreamId, Pos, E> Store<Id, Pos, E> {
    /// When this store accepts offers.
    pub closed spec fn spec_policy(&self) -> SnapshotPolicy {
        self.policy
    }

    #[verifier::type_invariant]
    spec fn wf(self) -> bool {
        forall|i: int, j: int|
            0 <= i < j < self.entries@.len() ==> !(#[trigger] self.entries@[i]).named(
                (#[trigger] self.entries@[j]).key.kind@,
                self.entries@[j].key.id.key(),
            )
    }

    /// Create a snapshot store that accepts offers as `policy` says.
    fn with_policy(policy: SnapshotPolicy) -> (r: Self)
        ensures
            r@ == Map::<(Seq<char>, Id::Key), Snapshot<Pos, Value>>::empty(),
            r.spec_policy() == policy,
    {
        let r: Self = Store { entries: Vec::new(), policy, failure: PhantomData };
        assert(r@ == Map::<(Seq<char>, Id::Key), Snapshot<Pos, Value>>::empty());
        r
    }

    /// Create a snapshot store that saves after every command.
    ///
    /// Best for aggregates with expensive replay or many events.
    #[must_use]
    pub fn always() -> (r: Self)
        ensures
            r@ == Map::<(Seq<char>, Id::Key), Snapshot<Pos, Value>>::empty(),
            r.spec_policy() == SnapshotPolicy::Always,
    {
        Self::with_policy(SnapshotPolicy::Always)
    }

    /// Create a snapshot store that saves every N events.
    #[must_use]
    pub fn every(n: u64) -> (r: Self)
        ensures
            r@ == Map::<(Seq<char>, Id::Key), Snapshot<Pos, Value>>::empty(),
            r.spec_policy() == SnapshotPolicy::EveryNEvents(n),
    {
        Self::with_policy(SnapshotPolicy::EveryNEvents(n))
    }

    /// Create a snapshot store that never saves (load-only).
    #[must_use]
    pub fn never() -> (r: Self)
        ensures
            r@ == Map::<(Seq<char>, Id::Key), Snapshot<Pos, Value>>::empty(),
            r.spec_policy() == SnapshotPolicy::Never,
    {
        Self::with_policy(SnapshotPolicy::Never)
    }

    /// When this store accepts offers.
    pub fn policy(&self) -> (r: &SnapshotPolicy)
        ensures
            *r == self.spec_policy(),
    {
        &self.policy
    }

    /// Index of the entry for one instance.
    fn find(&self, kind: &str, id: &Id) -> (r: Option<usize>)
        ensures
            match r {
                Some(i) => {
                    &&& i < self.entries@.len()
                    &&& self.entries@[i as int].named(kind@, id.key())
                    &&& self@.contains_key((kind@, id.key()))
                    &&& self@[(kind@, id.key())] == self.entries@[i as int].snapshot
                },
                None => !self@.contains_key((kind@, id.key())) && !holds_key(
                    self.entries@,
                    kind@,
                    id.key(),
                ),
            },
    {
        proof {
            use_type_invariant(self);
        }
        let wanted: String = kind.to_owned();
        let mut i: usize = 0;
        while i < self.entries.len()
            invariant
                i <= self.entries@.len(),
                wanted@ == kind@,
                self.wf(),
                forall|j: int| 0 <= j < i ==> !(#[trigger] self.entries@[j]).named(kind@, id.key()),
            decreases self.entries@.len() - i,
        {
            let entry: &Entry<Id, Pos> = &self.entries[i];
            if entry.key.kind == wanted && entry.key.id.same_id(id) {
                assert(place_of(self.entries@, kind@, id.key()) == i) by {
                    let k = place_of(self.entries@, kind@, id.key());
                    assert(self.entries@[i as int].named(kind@, id.key()));
                    assert(self.entries@[k].named(kind@, id.key()));
                }
                return Some(i);
            }
            i = i + 1;
        }
        None
    }
}

impl<Id: StreamId, Pos: Clone, E> Store<Id, Pos, E> {
    /// Load the most recent snapshot of one instance, as it is held.
    ///
    /// Returns `None` if no snapshot exists.
    pub fn lookup(&self, kind: &str, id: &Id) -> (r: Option<Snapshot<Pos, Value>>)
        ensures
            match r {
                Some(snapshot) => {
                    &&& self@.contains_key((kind@, id.key()))
                    &&& cloned(self@[(kind@, id.key())].position, snapshot.position)
                    &&& snapshot.data == self@[(kind@, id.key())].data
                },
                None => !self@.contains_key((kind@, id.key())),
            },
    {
        match self.find(kind, id) {
            Some(i) => {
                let held: &Snapshot<Pos, Value> = &self.entries[i].snapshot;
                Some(Snapshot { position: held.position.clone(), data: held.data.clone() })
            },
            None => None,
        }
    }
}

/// Whether `r` is what a load answers whose snapshot, held at `position`, was
/// decoded to `decoded`.
pub open spec fn loaded<Pos: Clone, T, E>(
    position: Pos,
    decoded: Result<T, E>,
    r: Result<Option<Snapshot<Pos, T>>, Error<E>>,
) -> bool {
    match decoded {
        Ok(data) => r matches Ok(Some(snapshot)) && cloned(position, snapshot.position)
            && snapshot.data == data,
        Err(error) => r == Err::<Option<Snapshot<Pos, T>>, Error<E>>(
            Error::Deserialization(error),
        ),
    }
}

impl<Id: StreamId, Pos: Clone, E> Store<Id, Pos, E> {
    /// Load the most recent snapshot of one instance.
    ///
    /// Returns `Ok(None)` if no snapshot exists.
    ///
    /// # Errors
    ///
    /// Returns [`Error::Deserialization`] if `decode` fails.
    pub fn load<T, Decode: FnOnce(Value) -> Result<T, E>>(
        &self,
        kind: &str,
        id: &Id,
        decode: Decode,
    ) -> (r: Result<Option<Snapshot<Pos, T>>, Error<E>>)
        requires
            self@.contains_key((kind@, id.key())) ==> decode.requires(
                (self@[(kind@, id.key())].data,),
            ),
        ensures
            !self@.contains_key((kind@, id.key())) ==> r == Ok::<
                Option<Snapshot<Pos, T>>,
                Error<E>,
            >(None),
            self@.contains_key((kind@, id.key())) ==> exists|decoded: Result<T, E>|
                #![trigger loaded(self@[(kind@, id.key())].position, decoded, r)]
                decode.ensures((self@[(kind@, id.key())].data,), decoded) && loaded(
                    self@[(kind@, id.key())].position,
                    decoded,
                    r,
                ),
    {
        match self.lookup(kind, id) {
            Some(held) => {
                let Snapshot { position, data } = held;
                let decoded: Result<T, E> = decode(data);
                let ghost outcome = decoded;
                let r: Result<Option<Snapshot<Pos, T>>, Error<E>> = match decoded {
                    Ok(data) => Ok(Some(Snapshot { position, data })),
                    Err(error) => Err(Error::deserialization(error)),
                };
                assert(loaded(self@[(kind@, id.key())].position, outcome, r));
                r
            },
            None => Ok(None),
        }
    }
}

/// Whether an accepted offer, whose snapshot was created as `created`, is
/// answered with `r` and takes `before` to `after`.
pub open spec fn settled<Key, Pos: PartialOrd, CE, E>(
    before: Map<Key, Snapshot<Pos, Value>>,
    after: Map<Key, Snapshot<Pos, Value>>,
    key: Key,
    created: Result<Snapshot<Pos, Result<Value, E>>, CE>,
    r: Result<SnapshotOffer, OfferSnapshotError<Error<E>, CE>>,
) -> bool {
    match created {
        Err(error) => {
            &&& r == Err::<SnapshotOffer, _>(OfferSnapshotError::<Error<E>, CE>::Create(error))
            &&& after == before
        },
        Ok(snapshot) => match snapshot.data {
            Err(error) => {
                &&& r == Err::<SnapshotOffer, _>(
                    OfferSnapshotError::<Error<E>, CE>::Snapshot(Error::Serialization(error)),
                )
                &&& after == before
            },
            Ok(data) => if outdated(before, key, snapshot.position) {
                r == Ok::<_, OfferSnapshotError<Error<E>, CE>>(SnapshotOffer::Declined) && after
                    == before
            } else {
                r == Ok::<_, OfferSnapshotError<Error<E>, CE>>(SnapshotOffer::Stored) && after
                    == before.insert(key, (Snapshot { position: snapshot.position, data }))
            },
        },
    }
}

impl<Id: StreamId, Pos: PartialOrd, E> Store<Id, Pos, E> {
    /// Offer a snapshot, which is created only if the policy asks for one.
    ///
    /// A snapshot that is not newer than the one already held is declined.
    ///
    /// # Errors
    ///
    /// Returns [`OfferSnapshotError::Create`] if `create_snapshot` fails, and
    /// [`OfferSnapshotError::Snapshot`] if its state was not encoded.
    pub fn offer_snapshot<CE, Create: FnOnce() -> Result<Snapshot<Pos, Result<Value, E>>, CE>>(
        &mut self,
        kind: &str,
        id: &Id,
        events_since_last_snapshot: u64,
        create_snapshot: Create,
    ) -> (r: Result<SnapshotOffer, OfferSnapshotError<Error<E>, CE>>)
        requires
            crate::order::comparable::<Pos>(),
            old(self).spec_policy().due(events_since_last_snapshot) ==> create_snapshot.requires(
                (),
            ),
        ensures
            final(self).spec_policy() == old(self).spec_policy(),
            !old(self).spec_policy().due(events_since_last_snapshot) ==> r == Ok::<
                _,
                OfferSnapshotError<Error<E>, CE>,
            >(SnapshotOffer::Declined) && final(self)@ == old(self)@,
            old(self).spec_policy().due(events_since_last_snapshot) ==> exists|
                created: Result<Snapshot<Pos, Result<Value, E>>, CE>,
            |
                #![trigger settled(old(self)@, final(self)@, (kind@, id.key()), created, r)]
                create_snapshot.ensures((), created) && settled(
                    old(self)@,
                    final(self)@,
                    (kind@, id.key()),
                    created,
                    r,
                ),
    {
        if !self.policy.should_snapshot(events_since_last_snapshot) {
            return Ok(SnapshotOffer::Declined);
        }
        self.settle_offer(kind, id, create_snapshot())
    }

    /// Answers an offer that the policy asked for, from what came of creating the
    /// snapshot.
    ///
    /// # Errors
    ///
    /// As [`offer_snapshot`](Self::offer_snapshot).
    pub fn settle_offer<CE>(
        &mut self,
        kind: &str,
        id: &Id,
        created: Result<Snapshot<Pos, Result<Value, E>>, CE>,
    ) -> (r: Result<SnapshotOffer, OfferSnapshotError<Error<E>, CE>>)
        requires
            crate::order::comparable::<Pos>(),
        ensures
            final(self).spec_policy() == old(self).spec_policy(),
            settled(old(self)@, final(self)@, (kind@, id.key()), created, r),
    {
        match created {
            Ok(snapshot) => {
                let Snapshot { position, data } = snapshot;
                match data {
                    Ok(data) => Ok(self.store_snapshot(kind, id, Snapshot { position, data })),
                    Err(error) => Err(OfferSnapshotError::Snapshot(Error::serialization(error))),
                }
            },
            Err(error) => Err(OfferSnapshotError::Create(error)),
        }
    }

    /// Takes a snapshot in, unless the one already held is as new.
    pub fn store_snapshot(&mut self, kind: &str, id: &Id, snapshot: Snapshot<Pos, Value>) -> (r:
        SnapshotOffer)
        requires
            crate::order::comparable::<Pos>(),
        ensures
            final(self).spec_policy() == old(self).spec_policy(),
            r == if outdated(old(self)@, (kind@, id.key()), snapshot.position) {
                SnapshotOffer::Declined
            } else {
                SnapshotOffer::Stored
            },
            final(self)@ == match r {
                SnapshotOffer::Declined => old(self)@,
                SnapshotOffer::Stored => old(self)@.insert((kind@, id.key()), snapshot),
            },
    {
        let ghost before = self.entries@;
        let ghost key = (kind@, id.key());
        proof {
            use_type_invariant(&*self);
        }
        match self.find(kind, id) {
            Some(i) => {
                if self.entries[i].snapshot.position >= snapshot.position {
                    return SnapshotOffer::Declined;
                }
                let mut entries: Vec<Entry<Id, Pos>> = Vec::new();
                std::mem::swap(&mut entries, &mut self.entries);
                entries[i].snapshot = snapshot;
                assert(forall|k: int|
                    0 <= k < before.len() ==> (#[trigger] entries@[k]).key == before[k].key);
                self.entries = entries;
                proof {
                    lemma_view_after_store(before, self.entries@, i as int, key.0, key.1);
                    assert(self@ == old(self)@.insert(key, snapshot));
                }
            },
            None => {
                let mut entries: Vec<Entry<Id, Pos>> = Vec::new();
                std::mem::swap(&mut entries, &mut self.entries);
                entries.push(Entry { key: SnapshotKey::new(kind, id.copy_id()), snapshot });
                self.entries = entries;
                proof {
                    lemma_view_after_store(
                        before,
                        self.entries@,
                        before.len() as int,
                        key.0,
                        key.1,
                    );
                    assert(self@ == old(self)@.insert(key, snapshot));
                }
            },
        }
        SnapshotOffer::Stored
    }
}

spec fn distinct<Id: StreamId, Pos>(entries: Seq<Entry<Id, Pos>>) -> bool {
    forall|i: int, j: int|
        0 <= i < j < entries.len() ==> !(#[trigger] entries[i]).named(
            (#[trigger] entries[j]).key.kind@,
            entries[j].key.id.key(),
        )
}

/// Looking a name up after one entry was set finds that entry for its name, and
/// for every other name what was there before.
proof fn lemma_view_after_store<Id: StreamId, Pos>(
    before: Seq<Entry<Id, Pos>>,
    after: Seq<Entry<Id, Pos>>,
    at: int,
    kind: Seq<char>,
    id: Id::Key,
)
    requires
        distinct(before),
        distinct(after),
        0 <= at < after.len(),
        before.len() <= after.len(),
        after.len() == before.len() || (after.len() == before.len() + 1 && at == before.len()),
        after[at].named(kind, id),
        forall|k: int|
            0 <= k < before.len() ==> (#[trigger] after[k]).key == before[k].key && (k != at
                ==> after[k] == before[k]),
    ensures
        holds_key(after, kind, id),
        place_of(after, kind, id) == at,
        forall|other: (Seq<char>, Id::Key)|
            other != (kind, id) ==> {
                &&& #[trigger] holds_key(after, other.0, other.1) == holds_key(
                    before,
                    other.0,
                    other.1,
                )
                &&& holds_key(after, other.0, other.1) ==> after[place_of(
                    after,
                    other.0,
                    other.1,
                )] == before[place_of(before, other.0, other.1)]
            },
{
    assert(after[place_of(after, kind, id)].named(kind, id));
    assert forall|other: (Seq<char>, Id::Key)| other != (kind, id) implies {
        &&& #[trigger] holds_key(after, other.0, other.1) == holds_key(before, other.0, other.1)
        &&& holds_key(after, other.0, other.1) ==> after[place_of(after, other.0, other.1)]
            == before[place_of(before, other.0, other.1)]
    } by {
        if holds_key(before, other.0, other.1) {
            let k = place_of(before, other.0, other.1);
            assert(before[k].named(other.0, other.1));
            assert(after[k].named(other.0, other.1));
            let j = place_of(after, other.0, other.1);
            assert(after[j].named(other.0, other.1));
        }
        if holds_key(after, other.0, other.1) {
            let j = place_of(after, other.0, other.1);
            assert(after[j].named(other.0, other.1));
            assert(j != at);
            assert(before[j].named(other.0, other.1));
        }
    }
}

} // verus!
