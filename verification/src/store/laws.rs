//! What holds of the in-memory store as a whole.

use serde_json::Value;
use vstd::prelude::*;

use crate::store::{
    inmemory::InMemoryEvent,
    Selector, StreamId,
};

verus! {

/// What is loaded comes in strictly increasing order of positions, so nothing
/// comes out twice.
pub proof fn loads_are_ascending<Id: StreamId, M>(
    log: Seq<InMemoryEvent<Id, M>>,
    filters: Seq<Selector<Id::Key, u64>>,
)
    requires
        crate::store::inmemory::positioned(log),
    ensures
        crate::store::inmemory::ascending(crate::store::inmemory::matching(log, filters)),
{
    crate::store::inmemory::lemma_filter_ascending(
        log,
        crate::store::inmemory::accepted_by(filters),
    );
}

/// A filter set selects the union of what its filters select: an event is
/// loaded if and only if it was committed and some filter accepts it.
pub proof fn loads_are_the_union<Id: StreamId, M>(
    log: Seq<InMemoryEvent<Id, M>>,
    filters: Seq<Selector<Id::Key, u64>>,
    event: InMemoryEvent<Id, M>,
)
    ensures
        crate::store::inmemory::matching(log, filters).contains(event) <==> log.contains(event)
            && exists|i: int|
            0 <= i < filters.len() && crate::store::inmemory::accepts(
                #[trigger] filters[i],
                event,
            ),
{
    let pred = crate::store::inmemory::accepted_by::<Id, M>(filters);
    let found = log.filter(pred);
    if found.contains(event) {
        log.lemma_filter_contains_rev(pred, event);
        let k = choose|k: int| 0 <= k < found.len() && found[k] == event;
        log.lemma_filter_pred(pred, k);
        assert(pred(event));
    }
    if log.contains(event) && pred(event) {
        let p = choose|p: int| 0 <= p < log.len() && log[p] == event;
        log.lemma_filter_contains(pred, p);
    }
}

/// A commit adds its events, in order, at the end of its own stream, and leaves
/// every other stream as it was.
pub proof fn commit_extends_one_stream<Id: StreamId, M: Clone>(
    before: Seq<InMemoryEvent<Id, M>>,
    after: Seq<InMemoryEvent<Id, M>>,
    kind: Seq<char>,
    id: Id::Key,
    staged: Seq<(Seq<char>, Value)>,
    metadata: M,
    other_kind: Seq<char>,
    other_id: Id::Key,
)
    requires
        crate::store::inmemory::appended(before, after, kind, id, staged, metadata),
    ensures
        crate::store::inmemory::stream_of(after, other_kind, other_id) == if other_kind == kind
            && other_id == id {
            crate::store::inmemory::stream_of(before, kind, id) + after.skip(before.len() as int)
        } else {
            crate::store::inmemory::stream_of(before, other_kind, other_id)
        },
{
    let stored = after.skip(before.len() as int);
    assert(after == before + stored);
    assert forall|i: int| 0 <= i < stored.len() implies (
    #[trigger] stored[i]).aggregate_kind@ == kind && stored[i].aggregate_id.key() == id by {
        assert(stored[i] == after[before.len() + i]);
    }
    crate::store::inmemory::lemma_stream_of_extended(before, stored, kind, id, other_kind, other_id);
}

/// After a commit the stream is at the position that the commit reported, and
/// every other stream is at the version it was at.
pub proof fn commit_moves_one_version<Id: StreamId, M: Clone>(
    before: Seq<InMemoryEvent<Id, M>>,
    after: Seq<InMemoryEvent<Id, M>>,
    kind: Seq<char>,
    id: Id::Key,
    staged: Seq<(Seq<char>, Value)>,
    metadata: M,
    other_kind: Seq<char>,
    other_id: Id::Key,
)
    requires
        crate::store::inmemory::appended(before, after, kind, id, staged, metadata),
        staged.len() > 0,
        after.len() <= u64::MAX,
    ensures
        crate::store::inmemory::version_of(after, other_kind, other_id) == if other_kind == kind
            && other_id == id {
            Some((after.len() - 1) as u64)
        } else {
            crate::store::inmemory::version_of(before, other_kind, other_id)
        },
{
    commit_extends_one_stream(before, after, kind, id, staged, metadata, other_kind, other_id);
    if other_kind == kind && other_id == id {
        let stored = after.skip(before.len() as int);
        assert(stored.last() == after[before.len() + (staged.len() - 1)]);
    }
}

/// Of two writers that loaded a stream at the same version, the second to commit
/// is turned away: an accepted commit leaves the stream at another version than
/// the one it was accepted at.
pub proof fn second_writer_conflicts<Id: StreamId, M: Clone>(
    before: Seq<InMemoryEvent<Id, M>>,
    after: Seq<InMemoryEvent<Id, M>>,
    kind: Seq<char>,
    id: Id::Key,
    staged: Seq<(Seq<char>, Value)>,
    metadata: M,
)
    requires
        crate::store::inmemory::positioned(before),
        crate::store::inmemory::appended(before, after, kind, id, staged, metadata),
        staged.len() > 0,
        after.len() <= u64::MAX,
    ensures
        crate::store::inmemory::version_of(after, kind, id)
            != crate::store::inmemory::version_of(before, kind, id),
{
    commit_moves_one_version(before, after, kind, id, staged, metadata, kind, id);
    let pred = crate::store::inmemory::in_stream::<Id, M>(kind, id);
    let stream = before.filter(pred);
    if stream.len() > 0 {
        assert(stream.contains(stream.last()));
        before.lemma_filter_contains_rev(pred, stream.last());
    }
}

/// `filters`, each narrowed to positions after `position`.
pub open spec fn all_after<Key>(filters: Seq<Selector<Key, u64>>, position: u64) -> Seq<
    Selector<Key, u64>,
> {
    filters.map_values(
        |filter: Selector<Key, u64>| Selector { after_position: Some(position), ..filter },
    )
}

/// Filters without positions of their own.
pub open spec fn unpositioned<Key>(filters: Seq<Selector<Key, u64>>) -> bool {
    forall|i: int| 0 <= i < filters.len() ==> (#[trigger] filters[i]).after_position is None
}

/// Two properties that agree on the elements of a sequence pick the same ones.
pub proof fn lemma_filter_same<A>(s: Seq<A>, p: spec_fn(A) -> bool, q: spec_fn(A) -> bool)
    requires
        forall|i: int| 0 <= i < s.len() ==> p(#[trigger] s[i]) == q(s[i]),
    ensures
        s.filter(p) == s.filter(q),
    decreases s.len(),
{
    reveal(Seq::filter);
    if s.len() > 0 {
        lemma_filter_same(s.drop_last(), p, q);
    }
}

/// A property that no element has picks nothing.
proof fn lemma_filter_none<A>(s: Seq<A>, p: spec_fn(A) -> bool)
    requires
        forall|i: int| 0 <= i < s.len() ==> !p(#[trigger] s[i]),
    ensures
        s.filter(p) == Seq::<A>::empty(),
{
    s.lemma_all_neg_filter_empty(p);
}

/// Loading what came up to a position and then, with the filters narrowed to
/// what came after it, the rest, gives what one load of everything gives. This is
/// what lets a snapshot stand for the events before it.
pub proof fn loading_splits_at_a_position<Id: StreamId, M>(
    log: Seq<InMemoryEvent<Id, M>>,
    filters: Seq<Selector<Id::Key, u64>>,
    position: u64,
)
    requires
        crate::store::inmemory::positioned(log),
        unpositioned(filters),
        position < log.len(),
    ensures
        crate::store::inmemory::matching(log, filters) == crate::store::inmemory::matching(
            log.take(position + 1),
            filters,
        ) + crate::store::inmemory::matching(log, all_after(filters, position)),
{
    let head = log.take(position + 1);
    let tail = log.skip(position + 1);
    let pred = crate::store::inmemory::accepted_by::<Id, M>(filters);
    let later = crate::store::inmemory::accepted_by::<Id, M>(all_after(filters, position));
    let narrowed = all_after(filters, position);
    assert(log == head + tail);
    Seq::filter_distributes_over_add(head, tail, pred);
    Seq::filter_distributes_over_add(head, tail, later);
    assert forall|i: int| 0 <= i < head.len() implies !later(#[trigger] head[i]) by {
        assert(head[i] == log[i]);
        if later(head[i]) {
            let k = choose|k: int|
                0 <= k < narrowed.len() && crate::store::inmemory::accepts(
                    #[trigger] narrowed[k],
                    head[i],
                );
            assert(narrowed[k].after_position == Some(position));
        }
    }
    lemma_filter_none(head, later);
    assert forall|i: int| 0 <= i < tail.len() implies pred(#[trigger] tail[i]) == later(
        tail[i],
    ) by {
        let event = tail[i];
        assert(event == log[position + 1 + i]);
        if pred(event) {
            let k = choose|k: int|
                0 <= k < filters.len() && crate::store::inmemory::accepts(
                    #[trigger] filters[k],
                    event,
                );
            assert(crate::store::inmemory::accepts(narrowed[k], event));
        }
        if later(event) {
            let k = choose|k: int|
                0 <= k < narrowed.len() && crate::store::inmemory::accepts(
                    #[trigger] narrowed[k],
                    event,
                );
            assert(filters[k].after_position is None);
            assert(crate::store::inmemory::accepts(filters[k], event));
        }
    }
    lemma_filter_same(tail, pred, later);
}

/// The frontier covers the log: a subscriber that has reached it has no matching
/// event left to see.
pub proof fn frontier_covers_the_log<Id: StreamId, M>(
    log: Seq<InMemoryEvent<Id, M>>,
    filters: Seq<Selector<Id::Key, u64>>,
)
    requires
        crate::store::inmemory::positioned(log),
        0 < log.len() <= u64::MAX,
    ensures
        crate::store::inmemory::unseen(log, filters, Some((log.len() - 1) as u64)).len() == 0,
{
    let found = crate::store::inmemory::matching(log, filters);
    let pred = crate::store::inmemory::accepted_by::<Id, M>(filters);
    let later = crate::store::inmemory::past::<Id, M>(Some((log.len() - 1) as u64));
    assert forall|i: int| 0 <= i < found.len() implies !later(#[trigger] found[i]) by {
        assert(found.contains(found[i]));
        log.lemma_filter_contains_rev(pred, found[i]);
    }
    lemma_filter_none(found, later);
}

/// Draining, then draining again once more was committed, hands out exactly what
/// one drain at the end would have: no matching event is lost between the two and
/// none comes twice.
pub proof fn drains_add_up<Id: StreamId, M>(
    before: Seq<InMemoryEvent<Id, M>>,
    after: Seq<InMemoryEvent<Id, M>>,
    filters: Seq<Selector<Id::Key, u64>>,
    cursor: Option<u64>,
)
    requires
        crate::store::inmemory::positioned(after),
        before.len() <= after.len(),
        before == after.take(before.len() as int),
    ensures
        ({
            let first = crate::store::inmemory::unseen(before, filters, cursor);
            let next = crate::store::inmemory::moved_past(cursor, first);
            first + crate::store::inmemory::unseen(after, filters, next)
                == crate::store::inmemory::unseen(after, filters, cursor)
        }),
{
    let pred = crate::store::inmemory::accepted_by::<Id, M>(filters);
    let from = crate::store::inmemory::past::<Id, M>(cursor);
    let first = crate::store::inmemory::unseen(before, filters, cursor);
    let next = crate::store::inmemory::moved_past(cursor, first);
    let onward = crate::store::inmemory::past::<Id, M>(next);
    let tail = after.skip(before.len() as int);
    let old_found = before.filter(pred);
    let new_found = tail.filter(pred);
    assert(after == before + tail);
    assert forall|p: int| 0 <= p < before.len() implies (#[trigger] before[p]).position
        == p by {
        assert(before[p] == after[p]);
    }
    Seq::filter_distributes_over_add(before, tail, pred);
    Seq::filter_distributes_over_add(old_found, new_found, from);
    Seq::filter_distributes_over_add(old_found, new_found, onward);
    assert forall|i: int| 0 <= i < first.len() implies (#[trigger] first[i]).position
        < before.len() by {
        assert(first.contains(first[i]));
        old_found.lemma_filter_contains_rev(from, first[i]);
        before.lemma_filter_contains_rev(pred, first[i]);
    }
    // What the first drain handed out, or passed over, is not handed out again.
    crate::store::inmemory::lemma_filter_ascending(before, pred);
    crate::store::inmemory::lemma_filter_ascending(old_found, from);
    assert forall|i: int| 0 <= i < old_found.len() implies !onward(#[trigger] old_found[i]) || first.len() == 0 by {
        if first.len() > 0 && onward(old_found[i]) {
            first_is_past_start(old_found, from, cursor);
            assert(first.contains(first.last()));
            assert(from(old_found[i]));
            old_found.lemma_filter_contains(from, i);
            let k = choose|k: int| 0 <= k < first.len() && first[k] == old_found[i];
            if k < first.len() - 1 {
                assert(first[k].position < first[first.len() - 1].position);
            }
        }
    }
    if first.len() > 0 {
        lemma_filter_none(old_found, onward);
    } else {
        assert(onward == from);
    }
    // Everything committed since lies past either cursor.
    assert forall|i: int| 0 <= i < new_found.len() implies from(#[trigger] new_found[i])
        == onward(new_found[i]) by {
        assert(new_found.contains(new_found[i]));
        tail.lemma_filter_contains_rev(pred, new_found[i]);
        let k = choose|k: int| 0 <= k < tail.len() && tail[k] == new_found[i];
        assert(tail[k] == after[before.len() + k]);
        if first.len() > 0 {
            first_is_past_start(old_found, from, cursor);
        }
    }
    lemma_filter_same(new_found, from, onward);
}

/// Events that come after the last one handed out come after the start as well.
proof fn first_is_past_start<Id, M>(
    found: Seq<InMemoryEvent<Id, M>>,
    from: spec_fn(InMemoryEvent<Id, M>) -> bool,
    cursor: Option<u64>,
)
    requires
        from == crate::store::inmemory::past::<Id, M>(cursor),
        found.filter(from).len() > 0,
    ensures
        cursor matches Some(position) ==> found.filter(from).last().position > position,
{
    found.lemma_filter_pred(from, found.filter(from).len() - 1);
}

/// Whether each of `logs` is what the one before it became by commits.
pub open spec fn growing<Id, M>(logs: Seq<Seq<InMemoryEvent<Id, M>>>) -> bool {
    forall|i: int, j: int|
        0 <= i <= j < logs.len() ==> (#[trigger] logs[i]).len() <= (#[trigger] logs[j]).len()
            && logs[i] == logs[j].take(logs[i].len() as int)
}

/// What a subscriber that starts at `from` is handed by one drain after another, each
/// of the log as it then is.
pub open spec fn handed_out<Id: StreamId, M>(
    logs: Seq<Seq<InMemoryEvent<Id, M>>>,
    filters: Seq<Selector<Id::Key, u64>>,
    from: Option<u64>,
) -> Seq<InMemoryEvent<Id, M>>
    decreases logs.len(),
{
    if logs.len() == 0 {
        Seq::empty()
    } else {
        let earlier = handed_out(logs.drop_last(), filters, from);
        earlier + crate::store::inmemory::unseen(
            logs.last(),
            filters,
            crate::store::inmemory::moved_past(from, earlier),
        )
    }
}

/// However drains and commits alternate, what is handed out in the end is what one
/// drain of the last log gives.
pub proof fn drains_come_to_one<Id: StreamId, M>(
    logs: Seq<Seq<InMemoryEvent<Id, M>>>,
    filters: Seq<Selector<Id::Key, u64>>,
    from: Option<u64>,
)
    requires
        logs.len() > 0,
        growing(logs),
        crate::store::inmemory::positioned(logs.last()),
    ensures
        handed_out(logs, filters, from) == crate::store::inmemory::unseen(
            logs.last(),
            filters,
            from,
        ),
    decreases logs.len(),
{
    let init = logs.drop_last();
    if init.len() == 0 {
        assert(handed_out(init, filters, from) == Seq::<InMemoryEvent<Id, M>>::empty());
    } else {
        let before = init.last();
        let after = logs.last();
        assert(before == logs[logs.len() - 2]);
        assert(after == logs[logs.len() - 1]);
        assert(before == after.take(before.len() as int));
        assert forall|p: int| 0 <= p < before.len() implies (#[trigger] before[p]).position
            == p by {
            assert(before[p] == after[p]);
        }
        assert forall|i: int, j: int| 0 <= i <= j < init.len() implies (#[trigger] init[i]).len()
            <= (#[trigger] init[j]).len() && init[i] == init[j].take(init[i].len() as int) by {
            assert(init[i] == logs[i]);
            assert(init[j] == logs[j]);
        }
        drains_come_to_one(init, filters, from);
        drains_add_up(before, after, filters, from);
    }
}

/// What a subscription is handed while commits go on: matching events past its start,
/// in strictly increasing order of positions. When the frontier of a drain is handed
/// out, every matching event up to it came before, and none comes after.
pub proof fn deliveries_are_in_order_and_complete<Id: StreamId, M>(
    logs: Seq<Seq<InMemoryEvent<Id, M>>>,
    filters: Seq<Selector<Id::Key, u64>>,
    from: Option<u64>,
    k: int,
)
    requires
        growing(logs),
        0 <= k < logs.len(),
        crate::store::inmemory::positioned(logs.last()),
    ensures
        ({
            let all = handed_out(logs, filters, from);
            let first = handed_out(logs.take(k + 1), filters, from);
            &&& crate::store::inmemory::ascending(all)
            &&& forall|i: int|
                0 <= i < all.len() ==> {
                    &&& crate::store::inmemory::accepted_by::<Id, M>(filters)(#[trigger] all[i])
                    &&& crate::store::inmemory::past::<Id, M>(from)(all[i])
                }
            &&& first.len() <= all.len()
            &&& first == all.take(first.len() as int)
            &&& forall|p: int|
                {
                    &&& 0 <= p < logs[k].len()
                    &&& crate::store::inmemory::accepted_by::<Id, M>(filters)(
                        #[trigger] logs.last()[p],
                    )
                    &&& crate::store::inmemory::past::<Id, M>(from)(logs.last()[p])
                } ==> first.contains(logs.last()[p])
            &&& forall|i: int|
                first.len() <= i < all.len() ==> (#[trigger] all[i]).position >= logs[k].len()
        }),
{
    let pred = crate::store::inmemory::accepted_by::<Id, M>(filters);
    let later = crate::store::inmemory::past::<Id, M>(from);
    let head = logs.take(k + 1);
    let before = logs[k];
    let after = logs.last();
    assert(before == after.take(before.len() as int)) by {
        assert(after == logs[logs.len() - 1]);
    }
    assert forall|p: int| 0 <= p < before.len() implies (#[trigger] before[p]).position
        == p by {
        assert(before[p] == after[p]);
    }
    assert forall|i: int, j: int| 0 <= i <= j < head.len() implies (#[trigger] head[i]).len()
        <= (#[trigger] head[j]).len() && head[i] == head[j].take(head[i].len() as int) by {
        assert(head[i] == logs[i]);
        assert(head[j] == logs[j]);
    }
    drains_come_to_one(logs, filters, from);
    drains_come_to_one(head, filters, from);
    let first = before.filter(pred).filter(later);
    let tail = after.skip(before.len() as int);
    let rest = tail.filter(pred).filter(later);
    let all = after.filter(pred).filter(later);
    assert(after == before + tail);
    Seq::filter_distributes_over_add(before, tail, pred);
    Seq::filter_distributes_over_add(before.filter(pred), tail.filter(pred), later);
    assert(all == first + rest);
    assert(first == all.take(first.len() as int));
    crate::store::inmemory::lemma_filter_ascending(after, pred);
    crate::store::inmemory::lemma_filter_ascending(after.filter(pred), later);
    assert forall|i: int| 0 <= i < all.len() implies pred(#[trigger] all[i]) && later(all[i]) by {
        after.filter(pred).lemma_filter_pred(later, i);
        assert(all.contains(all[i]));
        after.filter(pred).lemma_filter_contains_rev(later, all[i]);
        let j = choose|j: int|
            0 <= j < after.filter(pred).len() && after.filter(pred)[j] == all[i];
        after.lemma_filter_pred(pred, j);
    }
    assert forall|p: int|
        0 <= p < before.len() && pred(#[trigger] after[p]) && later(after[p]) implies first.contains(
        after[p],
    ) by {
        assert(before[p] == after[p]);
        before.lemma_filter_contains(pred, p);
        let j = choose|j: int|
            0 <= j < before.filter(pred).len() && before.filter(pred)[j] == after[p];
        before.filter(pred).lemma_filter_contains(later, j);
    }
    assert forall|i: int| first.len() <= i < all.len() implies (#[trigger] all[i]).position
        >= before.len() by {
        let event = rest[i - first.len()];
        assert(all[i] == event);
        assert(rest.contains(event));
        tail.filter(pred).lemma_filter_contains_rev(later, event);
        tail.lemma_filter_contains_rev(pred, event);
        let j = choose|j: int| 0 <= j < tail.len() && tail[j] == event;
        assert(tail[j] == after[before.len() + j]);
    }
}

/// Positions stay unique and without gaps, in the order of commits, across all streams
/// and within each; and no position is given up.
pub proof fn positions_stay_gap_free<Id: StreamId, M: Clone>(
    before: Seq<InMemoryEvent<Id, M>>,
    after: Seq<InMemoryEvent<Id, M>>,
    kind: Seq<char>,
    id: Id::Key,
    staged: Seq<(Seq<char>, Value)>,
    metadata: M,
    any_kind: Seq<char>,
    any_id: Id::Key,
)
    requires
        crate::store::inmemory::positioned(before),
        crate::store::inmemory::appended(before, after, kind, id, staged, metadata),
    ensures
        crate::store::inmemory::positioned(Seq::<InMemoryEvent<Id, M>>::empty()),
        crate::store::inmemory::positioned(after),
        before.len() <= after.len(),
        crate::store::inmemory::ascending(after),
        crate::store::inmemory::ascending(
            crate::store::inmemory::stream_of(after, any_kind, any_id),
        ),
{
    assert forall|p: int| 0 <= p < after.len() implies (#[trigger] after[p]).position == p by {
        if p < before.len() {
            assert(after[p] == before[p]);
        } else {
            assert(after[p] == after[before.len() + (p - before.len())]);
        }
    }
    crate::store::inmemory::lemma_filter_ascending(
        after,
        crate::store::inmemory::in_stream(any_kind, any_id),
    );
}

/// The position that a commit reports is a checkpoint from then on, whatever is
/// committed later. A position has no checkpoint exactly where nothing was committed at
/// it, and none exceeds the latest.
pub proof fn committed_positions_are_checkpoints<Id: StreamId, M: Clone>(
    before: Seq<InMemoryEvent<Id, M>>,
    after: Seq<InMemoryEvent<Id, M>>,
    kind: Seq<char>,
    id: Id::Key,
    staged: Seq<(Seq<char>, Value)>,
    metadata: M,
    later: Seq<InMemoryEvent<Id, M>>,
    position: u64,
)
    requires
        crate::store::inmemory::appended(before, after, kind, id, staged, metadata),
        staged.len() > 0,
        crate::store::inmemory::positioned(later),
        after.len() <= later.len() <= u64::MAX,
        after == later.take(after.len() as int),
    ensures
        crate::store::inmemory::checkpoint_of(later, (after.len() - 1) as u64) == Some(
            (after.len() - 1) as u64,
        ),
        crate::store::inmemory::checkpoint_of(later, position) is None <==> !exists|p: int|
            0 <= p < later.len() && (#[trigger] later[p]).position == position,
        crate::order::cursor_at_least(
            crate::store::inmemory::latest(later),
            crate::store::inmemory::checkpoint_of(later, position),
        ),
{
    if position < later.len() {
        assert(later[position as int].position == position);
    }
}

} // verus!
