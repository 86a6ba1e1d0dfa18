//! What the test utilities set up and tell.

use vstd::prelude::*;

use super::SeedError;
use crate::{
    aggregate::Aggregate,
    repository::inmemory::EncodeEvent,
    store::{
        inmemory::{InMemoryError, InMemoryEvent},
        StreamId,
    },
};

verus! {

/// A scenario starts from a default, and each event that is given is applied to it in turn.
pub proof fn given_events_are_applied_in_turn<A: Aggregate + Default>(
    events: Seq<A::Event>,
    event: A::Event,
    state: A,
)
    ensures
        super::from_default(Seq::<A::Event>::empty(), state) ==> call_ensures(
            <A as Default>::default,
            (),
            state,
        ),
        super::from_default(events.push(event), state) ==> exists|earlier: A| #[trigger]
            super::from_default(events, earlier) && state == earlier.applied(event),
{
    if super::from_default(events.push(event), state) {
        let initial = choose|initial: A| #[trigger]
            call_ensures(<A as Default>::default, (), initial) && state
                == crate::aggregate::replay(initial, events.push(event));
        crate::aggregate::replay_applies_each(initial, events, event);
        let earlier = crate::aggregate::replay(initial, events);
        assert(super::from_default(events, earlier));
    }
}

/// What a scenario comes to is what the handler returned: its events as they are, or its
/// error, converted.
pub proof fn results_are_what_was_handled<E, HE: Into<AE>, AE>(
    handled: Result<Vec<E>, HE>,
    r: Result<Vec<E>, AE>,
)
    requires
        super::comes_to(handled, r),
    ensures
        handled is Ok <==> r is Ok,
        handled is Ok ==> r->Ok_0 == handled->Ok_0,
        handled is Err ==> call_ensures(<HE as Into<AE>>::into, (handled->Err_0,), r->Err_0),
{
}

/// Events are found to be those expected where there are as many and each was found equal to
/// the one at its place; they are found to be others only where that was not so.
pub proof fn expected_events_are_compared_in_place<T: PartialEq>(
    events: Seq<T>,
    expected: Seq<T>,
    verdict: bool,
)
    requires
        super::found_same(events, expected, verdict),
    ensures
        verdict ==> events.len() == expected.len() && forall|i: int|
            0 <= i < events.len() ==> call_ensures(
                <T as PartialEq>::eq,
                (&(#[trigger] events[i]), &expected[i]),
                true,
            ),
        !verdict ==> events.len() != expected.len() || exists|i: int|
            0 <= i < events.len() && call_ensures(
                <T as PartialEq>::eq,
                (&(#[trigger] events[i]), &expected[i]),
                false,
            ),
{
    if verdict {
        assert forall|i: int| 0 <= i < events.len() implies call_ensures(
            <T as PartialEq>::eq,
            (&(#[trigger] events[i]), &expected[i]),
            true,
        ) by {
            assert(super::found_equal(events[i], expected[i], true));
        }
    } else if events.len() == expected.len() {
        let i = choose|i: int|
            0 <= i < events.len() && super::found_equal(#[trigger] events[i], expected[i], false);
        assert(call_ensures(<T as PartialEq>::eq, (&events[i], &expected[i]), false));
    }
}

/// A text contains what stands in it with something before and something behind it, and
/// nothing else.
pub proof fn texts_contain_what_stands_in_them(
    text: Seq<char>,
    part: Seq<char>,
    before: Seq<char>,
    behind: Seq<char>,
)
    ensures
        super::contains_text(before + part + behind, part),
        super::contains_text(text, part) ==> exists|from: int|
            {
                &&& 0 <= from <= text.len() - part.len()
                &&& text == #[trigger] text.take(from) + part + text.skip(from + part.len())
            },
{
    let whole = before + part + behind;
    let at = before.len() as int;
    assert(whole.subrange(at, at + part.len()) == part);
    if super::contains_text(text, part) {
        let from = choose|from: int|
            0 <= from <= text.len() - part.len() && #[trigger] text.subrange(
                from,
                from + part.len(),
            ) == part;
        assert(text == text.take(from) + part + text.skip(from + part.len())) by {
            assert forall|i: int| 0 <= i < text.len() implies text[i] == (text.take(from) + part
                + text.skip(from + part.len()))[i] by {
                if from <= i < from + part.len() {
                    assert(text.subrange(from, from + part.len())[i - from] == text[i]);
                }
            }
        }
    }
}

/// Seeding writes the events behind what is there: one record for each, in order, with its
/// kind, its JSON and default metadata, in the stream that is named. Where one has no JSON
/// nothing is written, and the reason is that of the first such event.
pub proof fn seeded_events_are_written_in_order<Id, Meta, E, T>(
    before: Seq<InMemoryEvent<Id, Meta>>,
    after: Seq<InMemoryEvent<Id, Meta>>,
    kind: Seq<char>,
    id: Id::Key,
    events: Seq<T>,
    r: Result<(), SeedError<InMemoryError<E>, E>>,
) where Id: StreamId, Meta: Clone + Default, T: EncodeEvent<E>
    requires
        super::seeds::<Id, Meta, E, T>(before, after, kind, id, events, r),
    ensures
        r is Ok <==> forall|i: int| 0 <= i < events.len() ==> (#[trigger] events[i]).json() is Some,
        r is Ok ==> exists|metadata: Meta|
            {
                &&& #[trigger] call_ensures(<Meta as Default>::default, (), metadata)
                &&& crate::repository::command_laws::written_behind::<T, Id, Meta, E>(
                    before,
                    after,
                    kind,
                    id,
                    events,
                    metadata,
                )
            },
        r is Err ==> {
            &&& after == before
            &&& r->Err_0 is Codec
            &&& exists|i: int|
                {
                    &&& 0 <= i < events.len()
                    &&& forall|j: int| 0 <= j < i ==> (#[trigger] events[j]).json() is Some
                    &&& (#[trigger] events[i]).json() is None
                    &&& events[i].unencodable(r->Err_0->Codec_0)
                }
        },
{
    if crate::repository::inmemory::all_json::<E, T>(events) {
        let metadata = choose|metadata: Meta| #[trigger]
            call_ensures(<Meta as Default>::default, (), metadata)
                && crate::store::inmemory::appended(
                before,
                after,
                kind,
                id,
                crate::repository::inmemory::json_of::<E, T>(events),
                metadata,
            );
        crate::repository::command_laws::lemma_appended_is_written_behind::<T, Id, Meta, E>(
            before,
            after,
            kind,
            id,
            events,
            metadata,
        );
    } else {
        let cause = r->Err_0->Codec_0;
        let first = choose|first: int| #[trigger]
            crate::repository::inmemory::unencodable_at::<E, T>(events, first, cause);
        assert forall|j: int| 0 <= j < first implies (#[trigger] events[j]).json() is Some by {
            assert(events.take(first)[j] == events[j]);
        }
        assert(events[first].json() is None);
    }
}

} // verus!
