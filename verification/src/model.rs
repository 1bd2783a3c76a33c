//! The mathematical model of the store: the referential and ordering
//! invariants of the three tables, stated over sequences of records.
//!
//! Every `REFERENCES` and `CHECK` clause of the persisted schema is
//! re-expressed here as a named spec function, and every write path of
//! the store proves that the conjunction `store_ok` still holds.

use vstd::prelude::*;
use crate::kinds::EventKind;
use crate::kinds::kind_above;
use crate::kinds::kind_rank;
use crate::records::CanvasItem;
use crate::records::Event;
use crate::records::Item;
use crate::text::chars_le;

verus! {

/// Some event in `events` carries identifier `id`.
pub open spec fn has_event(events: Seq<Event>, id: Seq<char>) -> bool {
    exists|e: Event| #[trigger] events.contains(e) && e.id@ == id
}

/// Some item in `items` carries identifier `id`.
pub open spec fn has_item(items: Seq<Item>, id: Seq<char>) -> bool {
    exists|it: Item| #[trigger] items.contains(it) && it.id@ == id
}

/// The key function `key` takes pairwise distinct values on `s`.
pub open spec fn unique_by<A, K>(s: Seq<A>, key: spec_fn(A) -> K) -> bool {
    forall|i: int, j: int| 0 <= i < j < s.len() ==> key(#[trigger] s[i]) != key(#[trigger] s[j])
}

/// Event identifiers are pairwise distinct.
pub open spec fn unique_event_ids(events: Seq<Event>) -> bool {
    unique_by(events, |e: Event| e.id@)
}

/// Item identifiers are pairwise distinct.
pub open spec fn unique_item_ids(items: Seq<Item>) -> bool {
    unique_by(items, |it: Item| it.id@)
}

/// Placement keys `(event_id, item_id)` are pairwise distinct.
pub open spec fn unique_canvas_keys(canvas: Seq<CanvasItem>) -> bool {
    unique_by(canvas, |c: CanvasItem| (c.event_id@, c.item_id@))
}

/// `parent_id` (or any optional identifier field) holds exactly `id`.
pub open spec fn opt_id_is(o: Option<String>, id: Seq<char>) -> bool {
    match o {
        Some(s) => s@ == id,
        None => false,
    }
}

/// The hierarchy rule for one event: an event has no parent exactly when
/// it is a year, and a present parent resolves to an event whose kind
/// sits strictly above.
pub open spec fn event_links_ok(events: Seq<Event>, e: Event) -> bool {
    match e.parent_id {
        None => e.kind == EventKind::Year,
        Some(p) => e.kind != EventKind::Year && (exists|pe: Event|
            #[trigger] events.contains(pe) && pe.id@ == p@ && kind_above(pe.kind, e.kind)),
    }
}

/// The time rule for one event: a present end instant does not precede
/// the start instant.
pub open spec fn event_times_ok(e: Event) -> bool {
    match e.end_at {
        None => true,
        Some(end) => chars_le(e.start_at@, end@),
    }
}

/// All events obey the hierarchy and time rules.
pub open spec fn events_ok(events: Seq<Event>) -> bool {
    forall|i: int|
        0 <= i < events.len() ==> event_links_ok(events, #[trigger] events[i])
            && event_times_ok(events[i])
}

/// Every item is owned by an existing event.
pub open spec fn items_ok(events: Seq<Event>, items: Seq<Item>) -> bool {
    forall|i: int| 0 <= i < items.len() ==> has_event(events, (#[trigger] items[i]).event_id@)
}

/// The cross-reference rule for one placement: its item exists and is
/// owned by the very event whose canvas it sits on.
pub open spec fn canvas_entry_ok(items: Seq<Item>, c: CanvasItem) -> bool {
    exists|it: Item|
        #[trigger] items.contains(it) && it.id@ == c.item_id@ && it.event_id@ == c.event_id@
}

/// All placements obey the cross-reference rule.
pub open spec fn canvas_ok(items: Seq<Item>, canvas: Seq<CanvasItem>) -> bool {
    forall|i: int| 0 <= i < canvas.len() ==> canvas_entry_ok(items, #[trigger] canvas[i])
}

/// `e` is `root` itself or a descendant of the event with identifier
/// `root`, following `parent_id` links upward.  The walk is bounded
/// because a parent's kind always sits strictly above its child's.
pub open spec fn reaches(events: Seq<Event>, e: Event, root: Seq<char>) -> bool
    decreases kind_rank(e.kind),
{
    e.id@ == root || match e.parent_id {
        None => false,
        Some(p) => exists|pe: Event|
            #[trigger] events.contains(pe) && pe.id@ == p@ && kind_rank(pe.kind) < kind_rank(
                e.kind,
            ) && reaches(events, pe, root),
    }
}

/// The event in `events` carrying identifier `id`; meaningful when
/// `has_event` holds and identifiers are unique.
pub open spec fn event_with_id(events: Seq<Event>, id: Seq<char>) -> Event {
    choose|e: Event| #[trigger] events.contains(e) && e.id@ == id
}

/// Extending a prefix by one element extends its filtering by that
/// element exactly when the predicate admits it.
pub proof fn lemma_filter_take_step<A>(s: Seq<A>, p: spec_fn(A) -> bool, i: int)
    requires
        0 <= i < s.len(),
    ensures
        s.take(i + 1).filter(p) == if p(s[i]) {
            s.take(i).filter(p).push(s[i])
        } else {
            s.take(i).filter(p)
        },
{
    reveal(Seq::filter);
    assert(s.take(i + 1).drop_last() =~= s.take(i));
    assert(s.take(i + 1).last() == s[i]);
}

/// A member of a filtered sequence is a member of the original and
/// satisfies the predicate.
pub proof fn lemma_filter_mem<A>(s: Seq<A>, p: spec_fn(A) -> bool, x: A)
    requires
        s.filter(p).contains(x),
    ensures
        s.contains(x),
        p(x),
    decreases s.len(),
{
    reveal(Seq::filter);
    if s.len() == 0 {
        assert(false);
    } else {
        let pre = s.drop_last();
        if p(s.last()) && x == s.last() {
            assert(s[s.len() - 1] == x);
        } else {
            if p(s.last()) {
                let f = pre.filter(p);
                let k = choose|k: int| 0 <= k < s.filter(p).len() && s.filter(p)[k] == x;
                assert(s.filter(p) == f.push(s.last()));
                assert(k < f.len());
                assert(f[k] == x);
                assert(f.contains(x));
            } else {
                assert(s.filter(p) == pre.filter(p));
            }
            lemma_filter_mem(pre, p, x);
            let m = choose|m: int| 0 <= m < pre.len() && pre[m] == x;
            assert(s[m] == x);
        }
    }
}

/// A member of the original that satisfies the predicate is a member of
/// the filtered sequence.
pub proof fn lemma_filter_mem_rev<A>(s: Seq<A>, p: spec_fn(A) -> bool, x: A)
    requires
        s.contains(x),
        p(x),
    ensures
        s.filter(p).contains(x),
{
    s.lemma_filter_contains_rev(p, x);
}

/// Filtering keeps keys pairwise distinct.
pub proof fn lemma_filter_unique_by<A, K>(s: Seq<A>, key: spec_fn(A) -> K, p: spec_fn(A) -> bool)
    requires
        unique_by(s, key),
    ensures
        unique_by(s.filter(p), key),
    decreases s.len(),
{
    reveal(Seq::filter);
    if s.len() > 0 {
        let pre = s.drop_last();
        assert(unique_by(pre, key)) by {
            assert(forall|i: int| 0 <= i < pre.len() ==> pre[i] == s[i]);
        }
        lemma_filter_unique_by(pre, key, p);
        let f = pre.filter(p);
        if p(s.last()) {
            assert(s.filter(p) == f.push(s.last()));
            assert forall|i: int, j: int| 0 <= i < j < f.push(s.last()).len() implies key(
                #[trigger] f.push(s.last())[i],
            ) != key(#[trigger] f.push(s.last())[j]) by {
                if j == f.len() {
                    assert(f.push(s.last())[j] == s.last());
                    assert(f.push(s.last())[i] == f[i]);
                    assert(f.contains(f[i]));
                    lemma_filter_mem(pre, p, f[i]);
                    let m = choose|m: int| 0 <= m < pre.len() && pre[m] == f[i];
                    assert(key(s[m]) != key(s[s.len() - 1]));
                } else {
                    assert(f.push(s.last())[i] == f[i]);
                    assert(f.push(s.last())[j] == f[j]);
                }
            }
        } else {
            assert(s.filter(p) == f);
        }
    }
}

/// Appending an element with a fresh key keeps keys pairwise distinct.
pub proof fn lemma_push_unique_by<A, K>(s: Seq<A>, key: spec_fn(A) -> K, x: A)
    requires
        unique_by(s, key),
        forall|i: int| 0 <= i < s.len() ==> key(#[trigger] s[i]) != key(x),
    ensures
        unique_by(s.push(x), key),
{
    assert forall|i: int, j: int| 0 <= i < j < s.push(x).len() implies key(
        #[trigger] s.push(x)[i],
    ) != key(#[trigger] s.push(x)[j]) by {
        if j == s.len() {
            assert(s.push(x)[j] == x);
            assert(s.push(x)[i] == s[i]);
        } else {
            assert(s.push(x)[i] == s[i]);
            assert(s.push(x)[j] == s[j]);
        }
    }
}

/// Replacing an element by one with the same key keeps keys pairwise
/// distinct.
pub proof fn lemma_update_unique_by<A, K>(s: Seq<A>, key: spec_fn(A) -> K, i: int, x: A)
    requires
        unique_by(s, key),
        0 <= i < s.len(),
        key(x) == key(s[i]),
    ensures
        unique_by(s.update(i, x), key),
{
    assert forall|a: int, b: int| 0 <= a < b < s.update(i, x).len() implies key(
        #[trigger] s.update(i, x)[a],
    ) != key(#[trigger] s.update(i, x)[b]) by {
        assert(key(s.update(i, x)[a]) == key(s[a]));
        assert(key(s.update(i, x)[b]) == key(s[b]));
    }
}

/// In a sequence of events with distinct identifiers, any member that
/// carries the identifier of position `i` is the event at position `i`.
pub proof fn lemma_unique_event_at(events: Seq<Event>, i: int, pe: Event)
    requires
        unique_event_ids(events),
        0 <= i < events.len(),
        events.contains(pe),
        pe.id@ == events[i].id@,
    ensures
        pe == events[i],
{
    let j = choose|j: int| 0 <= j < events.len() && events[j] == pe;
}

/// In a sequence of items with distinct identifiers, any member that
/// carries the identifier of position `i` is the item at position `i`.
pub proof fn lemma_unique_item_at(items: Seq<Item>, i: int, it: Item)
    requires
        unique_item_ids(items),
        0 <= i < items.len(),
        items.contains(it),
        it.id@ == items[i].id@,
    ensures
        it == items[i],
{
    let j = choose|j: int| 0 <= j < items.len() && items[j] == it;
}

} // verus!
