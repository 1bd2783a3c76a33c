//! The cross-cutting guarantees of the store, stated as laws over any
//! well-formed store value.  Each holds of every state the public
//! operations can produce, because every operation proves `wf` again.

use vstd::prelude::*;
use crate::deletes::event_survives;
use crate::deletes::surviving_events;
use crate::kinds::EventKind;
use crate::kinds::kind_above;
use crate::model::event_links_ok;
use crate::model::event_times_ok;
use crate::model::lemma_filter_mem;
use crate::model::opt_id_is;
use crate::model::reaches;
use crate::records::Event;
use crate::store::Store;
use crate::text::chars_le;

verus! {

/// Law: every event that is not a year has a parent that exists in the
/// store and whose kind precedes the event's kind in the fixed order
/// year, period, event, item; and a year has no parent.
pub proof fn lemma_hierarchy_law(s: Store, e: Event)
    requires
        s.wf(),
        s.events@.contains(e),
    ensures
        e.kind != EventKind::Year ==> e.parent_id is Some,
        e.kind == EventKind::Year ==> e.parent_id is None,
        e.kind != EventKind::Year ==> exists|pe: Event|
            #[trigger] s.events@.contains(pe) && opt_id_is(e.parent_id, pe.id@) && kind_above(
                pe.kind,
                e.kind,
            ),
{
    let i = choose|i: int| 0 <= i < s.events@.len() && s.events@[i] == e;
    assert(event_links_ok(s.events@, e));
    match e.parent_id {
        None => {},
        Some(p) => {
            let pe = choose|pe: Event|
                #[trigger] s.events@.contains(pe) && pe.id@ == p@ && kind_above(pe.kind, e.kind);
            assert(opt_id_is(e.parent_id, pe.id@));
        },
    }
}

/// Law: for every event with both instants set, the end does not
/// precede the start.
pub proof fn lemma_time_order_law(s: Store, e: Event)
    requires
        s.wf(),
        s.events@.contains(e),
    ensures
        e.end_at matches Some(end) ==> chars_le(e.start_at@, end@),
{
    let i = choose|i: int| 0 <= i < s.events@.len() && s.events@[i] == e;
    assert(event_times_ok(e));
}

/// Law: every placement corresponds to exactly one stored item, and
/// that item is owned by the very event whose canvas holds the
/// placement.
pub proof fn lemma_placement_law(s: Store, j: int)
    requires
        s.wf(),
        0 <= j < s.canvas@.len(),
    ensures
        exists|m: int|
            0 <= m < s.items@.len() && (#[trigger] s.items@[m]).id@ == s.canvas@[j].item_id@
                && s.items@[m].event_id@ == s.canvas@[j].event_id@,
        forall|m1: int, m2: int|
            0 <= m1 < s.items@.len() && 0 <= m2 < s.items@.len() && (
            #[trigger] s.items@[m1]).id@ == s.canvas@[j].item_id@ && (#[trigger] s.items@[m2]).id@
                == s.canvas@[j].item_id@ ==> m1 == m2,
{
    let c = s.canvas@[j];
    assert(crate::model::canvas_entry_ok(s.items@, c));
    let w = choose|w: crate::records::Item|
        #[trigger] s.items@.contains(w) && w.id@ == c.item_id@ && w.event_id@ == c.event_id@;
    let m = choose|m: int| 0 <= m < s.items@.len() && s.items@[m] == w;
    assert(0 <= m < s.items@.len() && s.items@[m].id@ == c.item_id@ && s.items@[m].event_id@
        == c.event_id@);
}

/// Law: a cascade removes the whole subtree: no surviving event is the
/// deleted event or one of its descendants.
pub proof fn lemma_cascade_complete_law(events: Seq<Event>, root: Seq<char>, e: Event)
    requires
        surviving_events(events, root).contains(e),
    ensures
        !reaches(events, e, root),
        e.id@ != root,
{
    lemma_filter_mem(events, event_survives(events, root), e);
}

} // verus!
