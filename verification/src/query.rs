//! The query layer: chronological and spatial reads over the store.
//! Queries never mutate; each returns copies of the matching records.
//!
//! Canvases are per-event and small, so spatial queries are linear
//! scans; chronological listings are sorted by a selection sort, linear
//! in comparisons per output element.

use vstd::prelude::*;
use vstd::multiset::Multiset;
use crate::errors::StoreError;
use crate::canvas::has_placement;
use crate::canvas::placement_at;
use crate::kinds::kind_rank;
use crate::model::event_with_id;
use crate::model::has_event;
use crate::model::lemma_filter_take_step;
use crate::model::lemma_unique_event_at;
use crate::model::opt_id_is;
use crate::model::unique_event_ids;
use crate::records::BBox;
use crate::records::CanvasItem;
use crate::records::Event;
use crate::records::Item;
use crate::store::Store;
use crate::text::chars_le;
use crate::text::lemma_chars_le_refl;
use crate::text::lemma_chars_le_total;
use crate::text::lemma_chars_le_trans;

verus! {

/// The predicate selecting the children of the event carrying `pid`.
pub open spec fn child_of(pid: Seq<char>) -> spec_fn(Event) -> bool {
    |e: Event| opt_id_is(e.parent_id, pid)
}

/// The predicate selecting the items owned by the event carrying `eid`.
pub open spec fn owned_by(eid: Seq<char>) -> spec_fn(Item) -> bool {
    |it: Item| it.event_id@ == eid
}

/// The predicate selecting events whose start instant lies in the
/// inclusive-exclusive range `[start, end)`.
pub open spec fn starts_in_range(start: Seq<char>, end: Seq<char>) -> spec_fn(Event) -> bool {
    |e: Event| chars_le(start, e.start_at@) && !chars_le(end, e.start_at@)
}

/// The predicate selecting the placements on the canvas of the event
/// carrying `eid`.
pub open spec fn on_canvas_of(eid: Seq<char>) -> spec_fn(CanvasItem) -> bool {
    |c: CanvasItem| c.event_id@ == eid
}

/// The predicate selecting the placements of event `eid` whose position
/// lies within `bbox` (bounds inclusive).
pub open spec fn in_viewport(eid: Seq<char>, bbox: BBox) -> spec_fn(CanvasItem) -> bool {
    |c: CanvasItem|
        c.event_id@ == eid && bbox.min_x <= c.x && c.x <= bbox.max_x && bbox.min_y <= c.y && c.y
            <= bbox.max_y
}

/// The predicate selecting the items of event `eid` that have no canvas
/// placement: the "unplaced" remainder of a canvas join.
pub open spec fn unplaced_on(canvas: Seq<CanvasItem>, eid: Seq<char>) -> spec_fn(Item) -> bool {
    |it: Item| it.event_id@ == eid && !has_placement(canvas, eid, it.id@)
}

/// The predicate selecting the items of event `eid` that have a canvas
/// placement.
pub open spec fn placed_on(canvas: Seq<CanvasItem>, eid: Seq<char>) -> spec_fn(Item) -> bool {
    |it: Item| it.event_id@ == eid && has_placement(canvas, eid, it.id@)
}

/// Events ordered by start instant, earliest first.
pub open spec fn sorted_by_start(s: Seq<Event>) -> bool {
    forall|i: int, j: int|
        0 <= i < j < s.len() ==> chars_le((#[trigger] s[i]).start_at@, (#[trigger] s[j]).start_at@)
}

/// Placements ordered by stacking order, back to front.
pub open spec fn sorted_by_z(s: Seq<CanvasItem>) -> bool {
    forall|i: int, j: int|
        0 <= i < j < s.len() ==> (#[trigger] s[i]).z_index <= (#[trigger] s[j]).z_index
}

/// One row of a canvas join: an item together with its placement.
pub struct CanvasEntry {
    pub item: Item,
    pub placement: CanvasItem,
}

impl Store {
    /// Lists the events whose parent is the event carrying `parent_id`,
    /// in insertion order.
    pub fn list_children(&self, parent_id: &String) -> (r: Vec<Event>)
        ensures
            r@ == self.events@.filter(child_of(parent_id@)),
    {
        let mut out: Vec<Event> = Vec::new();
        let n: usize = self.events.len();
        let mut i: usize = 0;
        while i < n
            invariant
                i <= n,
                n == self.events@.len(),
                out@ == self.events@.take(i as int).filter(child_of(parent_id@)),
            decreases n - i,
        {
            proof {
                lemma_filter_take_step(self.events@, child_of(parent_id@), i as int);
            }
            let hit: bool = match &self.events[i].parent_id {
                Some(p) => *p == *parent_id,
                None => false,
            };
            if hit {
                out.push(self.events[i].duplicate());
            }
            i = i + 1;
        }
        proof {
            assert(self.events@.take(n as int) =~= self.events@);
        }
        out
    }

    /// Lists the items owned by the event carrying `event_id`, in
    /// insertion order.
    pub fn list_items(&self, event_id: &String) -> (r: Vec<Item>)
        ensures
            r@ == self.items@.filter(owned_by(event_id@)),
    {
        let mut out: Vec<Item> = Vec::new();
        let n: usize = self.items.len();
        let mut i: usize = 0;
        while i < n
            invariant
                i <= n,
                n == self.items@.len(),
                out@ == self.items@.take(i as int).filter(owned_by(event_id@)),
            decreases n - i,
        {
            proof {
                lemma_filter_take_step(self.items@, owned_by(event_id@), i as int);
            }
            if self.items[i].event_id == *event_id {
                out.push(self.items[i].duplicate());
            }
            i = i + 1;
        }
        proof {
            assert(self.items@.take(n as int) =~= self.items@);
        }
        out
    }

    /// Lists the events whose start instant lies in `[start, end)`,
    /// ordered by start instant ascending.
    pub fn list_events_by_time_range(&self, start: &String, end: &String) -> (r: Vec<Event>)
        ensures
            r@.to_multiset() == self.events@.filter(
                starts_in_range(start@, end@),
            ).to_multiset(),
            sorted_by_start(r@),
    {
        let mut picked: Vec<Event> = Vec::new();
        let n: usize = self.events.len();
        let mut i: usize = 0;
        while i < n
            invariant
                i <= n,
                n == self.events@.len(),
                picked@ == self.events@.take(i as int).filter(starts_in_range(start@, end@)),
            decreases n - i,
        {
            proof {
                lemma_filter_take_step(self.events@, starts_in_range(start@, end@), i as int);
            }
            if crate::text::str_le(start.as_str(), self.events[i].start_at.as_str())
                && !crate::text::str_le(end.as_str(), self.events[i].start_at.as_str()) {
                picked.push(self.events[i].duplicate());
            }
            i = i + 1;
        }
        proof {
            assert(self.events@.take(n as int) =~= self.events@);
        }
        sort_events_by_start(picked)
    }

    /// Lists the placements on the canvas of the event carrying
    /// `event_id`, ordered by stacking order ascending, for back-to-
    /// front rendering.
    pub fn list_canvas(&self, event_id: &String) -> (r: Vec<CanvasItem>)
        ensures
            r@.to_multiset() == self.canvas@.filter(on_canvas_of(event_id@)).to_multiset(),
            sorted_by_z(r@),
    {
        let mut picked: Vec<CanvasItem> = Vec::new();
        let n: usize = self.canvas.len();
        let mut i: usize = 0;
        while i < n
            invariant
                i <= n,
                n == self.canvas@.len(),
                picked@ == self.canvas@.take(i as int).filter(on_canvas_of(event_id@)),
            decreases n - i,
        {
            proof {
                lemma_filter_take_step(self.canvas@, on_canvas_of(event_id@), i as int);
            }
            if self.canvas[i].event_id == *event_id {
                picked.push(self.canvas[i].duplicate());
            }
            i = i + 1;
        }
        proof {
            assert(self.canvas@.take(n as int) =~= self.canvas@);
        }
        sort_canvas_by_z(picked)
    }

    /// Lists the placements of event `event_id` whose position lies
    /// within `bbox` (bounds inclusive), in insertion order, by a
    /// linear scan.
    pub fn list_in_viewport(&self, event_id: &String, bbox: &BBox) -> (r: Vec<CanvasItem>)
        ensures
            r@ == self.canvas@.filter(in_viewport(event_id@, *bbox)),
    {
        let mut out: Vec<CanvasItem> = Vec::new();
        let n: usize = self.canvas.len();
        let mut i: usize = 0;
        while i < n
            invariant
                i <= n,
                n == self.canvas@.len(),
                out@ == self.canvas@.take(i as int).filter(in_viewport(event_id@, *bbox)),
            decreases n - i,
        {
            proof {
                lemma_filter_take_step(self.canvas@, in_viewport(event_id@, *bbox), i as int);
            }
            let c = &self.canvas[i];
            if c.event_id == *event_id && bbox.min_x <= c.x && c.x <= bbox.max_x && bbox.min_y
                <= c.y && c.y <= bbox.max_y {
                out.push(self.canvas[i].duplicate());
            }
            i = i + 1;
        }
        proof {
            assert(self.canvas@.take(n as int) =~= self.canvas@);
        }
        out
    }

    /// Joins the items of event `event_id` with their placements; items
    /// without a placement are reported by `unplaced_items`.
    pub fn canvas_entries(&self, event_id: &String) -> (r: Vec<CanvasEntry>)
        requires
            self.wf(),
        ensures
            r@.map_values(|ce: CanvasEntry| ce.item) == self.items@.filter(
                placed_on(self.canvas@, event_id@),
            ),
            forall|k: int|
                0 <= k < r@.len() ==> self.canvas@.contains((#[trigger] r@[k]).placement) && r@[
                    k].placement.event_id@ == event_id@ && r@[k].placement.item_id@
                    == r@[k].item.id@,
    {
        let mut out: Vec<CanvasEntry> = Vec::new();
        let n: usize = self.items.len();
        let mut i: usize = 0;
        while i < n
            invariant
                i <= n,
                n == self.items@.len(),
                out@.map_values(|ce: CanvasEntry| ce.item) == self.items@.take(i as int).filter(
                    placed_on(self.canvas@, event_id@),
                ),
                forall|k: int|
                    0 <= k < out@.len() ==> self.canvas@.contains((#[trigger] out@[k]).placement)
                        && out@[k].placement.event_id@ == event_id@ && out@[k].placement.item_id@
                        == out@[k].item.id@,
            decreases n - i,
        {
            proof {
                lemma_filter_take_step(self.items@, placed_on(self.canvas@, event_id@), i as int);
            }
            if self.items[i].event_id == *event_id {
                match self.find_placement(event_id, &self.items[i].id) {
                    Some(pi) => {
                        let ghost prev = out@;
                        out.push(
                            CanvasEntry {
                                item: self.items[i].duplicate(),
                                placement: self.canvas[pi].duplicate(),
                            },
                        );
                        proof {
                            assert(self.canvas@.contains(self.canvas@[pi as int]));
                            assert(out@.map_values(|ce: CanvasEntry| ce.item) =~= prev.map_values(
                                |ce: CanvasEntry| ce.item,
                            ).push(self.items@[i as int]));
                        }
                    },
                    None => {},
                }
            }
            i = i + 1;
        }
        proof {
            assert(self.items@.take(n as int) =~= self.items@);
        }
        out
    }

    /// Lists the items of event `event_id` that have no canvas
    /// placement: the "unplaced" remainder of a canvas join.
    pub fn unplaced_items(&self, event_id: &String) -> (r: Vec<Item>)
        ensures
            r@ == self.items@.filter(unplaced_on(self.canvas@, event_id@)),
    {
        let mut out: Vec<Item> = Vec::new();
        let n: usize = self.items.len();
        let mut i: usize = 0;
        while i < n
            invariant
                i <= n,
                n == self.items@.len(),
                out@ == self.items@.take(i as int).filter(unplaced_on(self.canvas@, event_id@)),
            decreases n - i,
        {
            proof {
                lemma_filter_take_step(self.items@, unplaced_on(self.canvas@, event_id@),
                    i as int);
            }
            if self.items[i].event_id == *event_id {
                match self.find_placement(event_id, &self.items[i].id) {
                    None => {
                        out.push(self.items[i].duplicate());
                    },
                    Some(_pi) => {},
                }
            }
            i = i + 1;
        }
        proof {
            assert(self.items@.take(n as int) =~= self.items@);
        }
        out
    }

    /// Resolves the full ancestor chain of the event carrying `id`:
    /// its parent first, ending at the root year.  Each step up the
    /// chain strictly decreases the hierarchy rank, so the walk is
    /// bounded by the number of hierarchy levels and a `parent_id`
    /// cycle is unrepresentable in a well-formed store; `CycleDetected`
    /// is therefore never produced here.  Fails with `NotFound` when
    /// `id` is absent.
    pub fn ancestors(&self, id: &String) -> (r: Result<Vec<Event>, StoreError>)
        requires
            self.wf(),
        ensures
            match r {
                Ok(ch) => has_event(self.events@, id@) && ch@ == ancestor_chain(
                    self.events@,
                    event_with_id(self.events@, id@),
                ),
                Err(e) => e == StoreError::NotFound && !has_event(self.events@, id@),
            },
    {
        let idx = match self.find_event(id) {
            None => {
                return Err(StoreError::NotFound);
            },
            Some(i) => i,
        };
        proof {
            assert(self.events@.contains(self.events@[idx as int]));
            lemma_unique_event_at(self.events@, idx as int, event_with_id(self.events@, id@));
        }
        Ok(chain_from(&self.events, &self.events[idx].duplicate()))
    }
}

/// The ancestor chain of `e`: its parent first, then the parent's
/// chain.  The recursion is grounded in the hierarchy rank, which
/// strictly decreases up the chain.
pub open spec fn ancestor_chain(events: Seq<Event>, e: Event) -> Seq<Event>
    decreases kind_rank(e.kind),
{
    match e.parent_id {
        None => Seq::empty(),
        Some(p) => {
            let pe = event_with_id(events, p@);
            if has_event(events, p@) && kind_rank(pe.kind) < kind_rank(e.kind) {
                seq![pe] + ancestor_chain(events, pe)
            } else {
                Seq::empty()
            }
        },
    }
}

/// Walks the parent chain of `e` upward, collecting each ancestor.
fn chain_from(events: &Vec<Event>, e: &Event) -> (r: Vec<Event>)
    requires
        unique_event_ids(events@),
    ensures
        r@ == ancestor_chain(events@, *e),
    decreases kind_rank(e.kind),
{
    match &e.parent_id {
        None => Vec::new(),
        Some(p) => {
            match crate::deletes::find_event_pos(events, p) {
                None => {
                    proof {
                        if has_event(events@, p@) {
                            let w = choose|w: Event| events@.contains(w) && w.id@ == p@;
                        }
                        assert(ancestor_chain(events@, *e) =~= Seq::<Event>::empty());
                    }
                    Vec::new()
                },
                Some(j) => {
                    proof {
                        assert(events@.contains(events@[j as int]));
                        lemma_unique_event_at(events@, j as int, event_with_id(events@, p@));
                    }
                    if events[j].kind.rank() < e.kind.rank() {
                        let mut out: Vec<Event> = Vec::new();
                        out.push(events[j].duplicate());
                        let mut rest = chain_from(events, &events[j].duplicate());
                        out.append(&mut rest);
                        proof {
                            assert(out@ =~= seq![events@[j as int]] + ancestor_chain(
                                events@,
                                events@[j as int],
                            ));
                        }
                        out
                    } else {
                        proof {
                            assert(ancestor_chain(events@, *e) =~= Seq::<Event>::empty());
                        }
                        Vec::new()
                    }
                },
            }
        },
    }
}

/// Selection sort of events by start instant.
fn sort_events_by_start(v: Vec<Event>) -> (r: Vec<Event>)
    ensures
        r@.to_multiset() == v@.to_multiset(),
        sorted_by_start(r@),
{
    broadcast use vstd::seq_lib::group_to_multiset_ensures;

    let ghost orig: Seq<Event> = v@;
    let mut rest = v;
    let mut out: Vec<Event> = Vec::new();
    proof {
        assert(out@.to_multiset().add(rest@.to_multiset()) =~= orig.to_multiset());
    }
    while rest.len() > 0
        invariant
            out@.to_multiset().add(rest@.to_multiset()) == orig.to_multiset(),
            sorted_by_start(out@),
            forall|a: int, b: int|
                0 <= a < out@.len() && 0 <= b < rest@.len() ==> chars_le(
                    (#[trigger] out@[a]).start_at@,
                    (#[trigger] rest@[b]).start_at@,
                ),
        decreases rest.len(),
    {
        let mut mi: usize = 0;
        let mut j: usize = 1;
        proof {
            lemma_chars_le_refl(rest@[0].start_at@);
        }
        while j < rest.len()
            invariant
                mi < j <= rest@.len(),
                forall|t: int|
                    0 <= t < j ==> chars_le(
                        rest@[mi as int].start_at@,
                        (#[trigger] rest@[t]).start_at@,
                    ),
            decreases rest@.len() - j,
        {
            if crate::text::str_le(rest[j].start_at.as_str(), rest[mi].start_at.as_str()) {
                proof {
                    lemma_chars_le_refl(rest@[j as int].start_at@);
                    assert forall|t: int| 0 <= t < j implies chars_le(
                        rest@[j as int].start_at@,
                        (#[trigger] rest@[t]).start_at@,
                    ) by {
                        lemma_chars_le_trans(
                            rest@[j as int].start_at@,
                            rest@[mi as int].start_at@,
                            rest@[t].start_at@,
                        );
                    }
                }
                mi = j;
            } else {
                proof {
                    lemma_chars_le_total(
                        rest@[j as int].start_at@,
                        rest@[mi as int].start_at@,
                    );
                }
            }
            j = j + 1;
        }
        let ghost prev_out = out@;
        let ghost prev_rest = rest@;
        let x = rest.remove(mi);
        out.push(x);
        proof {
            prev_out.to_multiset_ensures();
            prev_rest.to_multiset_ensures();
            assert(out@ == prev_out.push(prev_rest[mi as int]));
            assert(rest@ == prev_rest.remove(mi as int));
            assert(prev_out.push(prev_rest[mi as int]).to_multiset() =~= prev_out.to_multiset().insert(prev_rest[mi as int]));
            assert(prev_rest.remove(mi as int).to_multiset() =~= prev_rest.to_multiset().remove(prev_rest[mi as int]));
            assert(out@.to_multiset() =~= prev_out.to_multiset().insert(prev_rest[mi as int]));
            assert(rest@.to_multiset() =~= prev_rest.to_multiset().remove(prev_rest[mi as int]));
            assert(prev_rest.to_multiset().contains(prev_rest[mi as int]));
            assert(out@.to_multiset().add(rest@.to_multiset()) =~= orig.to_multiset());
            assert forall|a: int, b: int|
                0 <= a < out@.len() && 0 <= b < rest@.len() implies chars_le(
                (#[trigger] out@[a]).start_at@,
                (#[trigger] rest@[b]).start_at@,
            ) by {
                let rb = rest@[b];
                assert(rb == if b < mi {
                    prev_rest[b]
                } else {
                    prev_rest[b + 1]
                });
                if a < prev_out.len() {
                    assert(out@[a] == prev_out[a]);
                } else {
                    assert(out@[a] == prev_rest[mi as int]);
                }
            }
            assert forall|a: int, b: int| 0 <= a < b < out@.len() implies chars_le(
                (#[trigger] out@[a]).start_at@,
                (#[trigger] out@[b]).start_at@,
            ) by {
                if b < prev_out.len() {
                    assert(out@[a] == prev_out[a] && out@[b] == prev_out[b]);
                } else {
                    assert(out@[a] == prev_out[a] && out@[b] == prev_rest[mi as int]);
                }
            }
        }
    }
    proof {
        assert(rest@.to_multiset() =~= Multiset::<Event>::empty());
        assert(out@.to_multiset() =~= orig.to_multiset());
    }
    out
}

/// Selection sort of placements by stacking order.
fn sort_canvas_by_z(v: Vec<CanvasItem>) -> (r: Vec<CanvasItem>)
    ensures
        r@.to_multiset() == v@.to_multiset(),
        sorted_by_z(r@),
{
    broadcast use vstd::seq_lib::group_to_multiset_ensures;

    let ghost orig: Seq<CanvasItem> = v@;
    let mut rest = v;
    let mut out: Vec<CanvasItem> = Vec::new();
    proof {
        assert(out@.to_multiset().add(rest@.to_multiset()) =~= orig.to_multiset());
    }
    while rest.len() > 0
        invariant
            out@.to_multiset().add(rest@.to_multiset()) == orig.to_multiset(),
            sorted_by_z(out@),
            forall|a: int, b: int|
                0 <= a < out@.len() && 0 <= b < rest@.len() ==> (#[trigger] out@[a]).z_index <= (
                #[trigger] rest@[b]).z_index,
        decreases rest.len(),
    {
        let mut mi: usize = 0;
        let mut j: usize = 1;
        while j < rest.len()
            invariant
                mi < j <= rest@.len(),
                forall|t: int|
                    0 <= t < j ==> rest@[mi as int].z_index <= (#[trigger] rest@[t]).z_index,
            decreases rest@.len() - j,
        {
            if rest[j].z_index < rest[mi].z_index {
                mi = j;
            }
            j = j + 1;
        }
        let ghost prev_out = out@;
        let ghost prev_rest = rest@;
        let x = rest.remove(mi);
        out.push(x);
        proof {
            prev_out.to_multiset_ensures();
            prev_rest.to_multiset_ensures();
            assert(out@ == prev_out.push(prev_rest[mi as int]));
            assert(rest@ == prev_rest.remove(mi as int));
            assert(prev_out.push(prev_rest[mi as int]).to_multiset() =~= prev_out.to_multiset().insert(prev_rest[mi as int]));
            assert(prev_rest.remove(mi as int).to_multiset() =~= prev_rest.to_multiset().remove(prev_rest[mi as int]));
            assert(out@.to_multiset() =~= prev_out.to_multiset().insert(prev_rest[mi as int]));
            assert(rest@.to_multiset() =~= prev_rest.to_multiset().remove(prev_rest[mi as int]));
            assert(prev_rest.to_multiset().contains(prev_rest[mi as int]));
            assert(out@.to_multiset().add(rest@.to_multiset()) =~= orig.to_multiset());
            assert forall|a: int, b: int|
                0 <= a < out@.len() && 0 <= b < rest@.len() implies (#[trigger] out@[a]).z_index
                <= (#[trigger] rest@[b]).z_index by {
                let rb = rest@[b];
                assert(rb == if b < mi {
                    prev_rest[b]
                } else {
                    prev_rest[b + 1]
                });
                if a < prev_out.len() {
                    assert(out@[a] == prev_out[a]);
                } else {
                    assert(out@[a] == prev_rest[mi as int]);
                }
            }
            assert forall|a: int, b: int| 0 <= a < b < out@.len() implies (
            #[trigger] out@[a]).z_index <= (#[trigger] out@[b]).z_index by {
                if b < prev_out.len() {
                    assert(out@[a] == prev_out[a] && out@[b] == prev_out[b]);
                } else {
                    assert(out@[a] == prev_out[a] && out@[b] == prev_rest[mi as int]);
                }
            }
        }
    }
    proof {
        assert(rest@.to_multiset() =~= Multiset::<CanvasItem>::empty());
        assert(out@.to_multiset() =~= orig.to_multiset());
    }
    out
}

} // verus!
