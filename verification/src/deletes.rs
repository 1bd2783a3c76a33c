//! Deletion: single-row deletes with conflict detection, and the
//! recursive cascade that removes an event together with all descendant
//! events, their items, and every placement of those items.
//!
//! The cascade is computed against the pre-state and applied as one
//! rewrite of the three tables, so a partial cascade is never
//! observable.

use vstd::prelude::*;
use crate::errors::StoreError;
use crate::kinds::kind_rank;
use crate::model::canvas_entry_ok;
use crate::model::event_links_ok;
use crate::model::event_times_ok;
use crate::model::has_event;
use crate::model::lemma_filter_mem;
use crate::model::lemma_filter_mem_rev;
use crate::model::lemma_filter_take_step;
use crate::model::lemma_filter_unique_by;
use crate::model::lemma_unique_event_at;
use crate::model::opt_id_is;
use crate::model::reaches;
use crate::model::unique_event_ids;
use crate::records::Event;
use crate::records::Item;
use crate::records::CanvasItem;
use crate::store::Store;
use crate::store::event_id_assigned;
use crate::store::item_id_assigned;

verus! {

/// Some event still names `id` as its parent, or some item is owned by
/// it: the event may not be deleted without cascade.
pub open spec fn event_referenced(events: Seq<Event>, items: Seq<Item>, id: Seq<char>) -> bool {
    ||| exists|e: Event| #[trigger] events.contains(e) && opt_id_is(e.parent_id, id)
    ||| exists|it: Item| #[trigger] items.contains(it) && it.event_id@ == id
}

/// The validation outcome of `delete_event`.
pub open spec fn delete_event_check(
    events: Seq<Event>,
    items: Seq<Item>,
    id: Seq<char>,
    cascade: bool,
) -> Option<StoreError> {
    if !has_event(events, id) {
        Some(StoreError::NotFound)
    } else if !cascade && event_referenced(events, items, id) {
        Some(StoreError::Conflict)
    } else {
        None
    }
}

/// The predicate selecting the events that survive a cascade rooted at
/// `root`: those that do not descend from it.
pub open spec fn event_survives(events: Seq<Event>, root: Seq<char>) -> spec_fn(Event) -> bool {
    |e: Event| !reaches(events, e, root)
}

/// The events that survive a cascade rooted at `root`.
pub open spec fn surviving_events(events: Seq<Event>, root: Seq<char>) -> Seq<Event> {
    events.filter(event_survives(events, root))
}

/// An item falls to the cascade when its owning event does.
pub open spec fn item_deleted(events: Seq<Event>, root: Seq<char>, it: Item) -> bool {
    exists|ev: Event|
        #[trigger] events.contains(ev) && ev.id@ == it.event_id@ && reaches(events, ev, root)
}

/// The predicate selecting the items that survive a cascade rooted at
/// `root`.
pub open spec fn item_survives(events: Seq<Event>, root: Seq<char>) -> spec_fn(Item) -> bool {
    |it: Item| !item_deleted(events, root, it)
}

/// The items that survive a cascade rooted at `root`.
pub open spec fn surviving_items(events: Seq<Event>, items: Seq<Item>, root: Seq<char>) -> Seq<
    Item,
> {
    items.filter(item_survives(events, root))
}

/// A placement falls to the cascade when the event whose canvas it sits
/// on does.
pub open spec fn canvas_deleted(events: Seq<Event>, root: Seq<char>, c: CanvasItem) -> bool {
    exists|ev: Event|
        #[trigger] events.contains(ev) && ev.id@ == c.event_id@ && reaches(events, ev, root)
}

/// The predicate selecting the placements that survive a cascade rooted
/// at `root`.
pub open spec fn canvas_survives(events: Seq<Event>, root: Seq<char>) -> spec_fn(
    CanvasItem,
) -> bool {
    |c: CanvasItem| !canvas_deleted(events, root, c)
}

/// The placements that survive a cascade rooted at `root`.
pub open spec fn surviving_canvas(
    events: Seq<Event>,
    canvas: Seq<CanvasItem>,
    root: Seq<char>,
) -> Seq<CanvasItem> {
    canvas.filter(canvas_survives(events, root))
}

/// The predicate keeping every event but the one carrying `id`.
pub open spec fn other_events(id: Seq<char>) -> spec_fn(Event) -> bool {
    |e: Event| e.id@ != id
}

/// Finds the position of the event carrying `id` in a bare table.
pub(crate) fn find_event_pos(events: &Vec<Event>, id: &String) -> (r: Option<usize>)
    ensures
        match r {
            Some(i) => i < events@.len() && events@[i as int].id@ == id@,
            None => !has_event(events@, id@),
        },
{
    let n: usize = events.len();
    let mut i: usize = 0;
    while i < n
        invariant
            i <= n,
            n == events@.len(),
            forall|j: int| 0 <= j < i ==> (#[trigger] events@[j]).id@ != id@,
        decreases n - i,
    {
        if events[i].id == *id {
            return Some(i);
        }
        i = i + 1;
    }
    proof {
        if has_event(events@, id@) {
            let e = choose|e: Event| events@.contains(e) && e.id@ == id@;
            let j = choose|j: int| 0 <= j < events@.len() && events@[j] == e;
        }
    }
    None
}

/// Decides whether `e` is the event `root` or one of its descendants,
/// by walking `parent_id` upward.  Each step strictly decreases the
/// hierarchy rank, so the walk takes at most as many steps as there are
/// hierarchy levels.
fn event_reaches(events: &Vec<Event>, e: &Event, root: &String) -> (r: bool)
    requires
        unique_event_ids(events@),
    ensures
        r == reaches(events@, *e, root@),
    decreases kind_rank(e.kind),
{
    if e.id == *root {
        return true;
    }
    match &e.parent_id {
        None => false,
        Some(p) => {
            match find_event_pos(events, p) {
                None => {
                    proof {
                        if reaches(events@, *e, root@) {
                            let pe = choose|pe: Event|
                                #[trigger] events@.contains(pe) && pe.id@ == p@ && kind_rank(
                                    pe.kind,
                                ) < kind_rank(e.kind) && reaches(events@, pe, root@);
                        }
                    }
                    false
                },
                Some(j) => {
                    proof {
                        assert(events@.contains(events@[j as int]));
                    }
                    let pr = events[j].kind.rank();
                    let er = e.kind.rank();
                    if pr < er {
                        let res = event_reaches(events, &events[j].duplicate(), root);
                        proof {
                            if res {
                                assert(reaches(events@, *e, root@));
                            } else {
                                if reaches(events@, *e, root@) {
                                    let pe = choose|pe: Event|
                                        #[trigger] events@.contains(pe) && pe.id@ == p@
                                            && kind_rank(pe.kind) < kind_rank(e.kind) && reaches(
                                            events@,
                                            pe,
                                            root@,
                                        );
                                    lemma_unique_event_at(events@, j as int, pe);
                                }
                            }
                        }
                        res
                    } else {
                        proof {
                            if reaches(events@, *e, root@) {
                                let pe = choose|pe: Event|
                                    #[trigger] events@.contains(pe) && pe.id@ == p@ && kind_rank(
                                        pe.kind,
                                    ) < kind_rank(e.kind) && reaches(events@, pe, root@);
                                lemma_unique_event_at(events@, j as int, pe);
                            }
                        }
                        false
                    }
                },
            }
        },
    }
}

/// After a cascade rewrite of the three tables, the invariant holds
/// again.
proof fn lemma_cascade_wf(pre: Store, post: Store, root: Seq<char>)
    requires
        pre.wf(),
        post.events@ == surviving_events(pre.events@, root),
        post.items@ == surviving_items(pre.events@, pre.items@, root),
        post.canvas@ == surviving_canvas(pre.events@, pre.canvas@, root),
        post.next_serial == pre.next_serial,
    ensures
        post.wf(),
{
    let es = pre.events@;
    let pe_keep = event_survives(es, root);
    let pi_keep = item_survives(es, root);
    let pc_keep = canvas_survives(es, root);
    lemma_filter_unique_by(es, |e: Event| e.id@, pe_keep);
    lemma_filter_unique_by(pre.items@, |it: Item| it.id@, pi_keep);
    lemma_filter_unique_by(pre.canvas@, |c: CanvasItem| (c.event_id@, c.item_id@), pc_keep);
    let ns = post.events@;
    // hierarchy and time rules of the surviving events
    assert forall|j: int| 0 <= j < ns.len() implies event_links_ok(ns, #[trigger] ns[j])
        && event_times_ok(ns[j]) by {
        let e = ns[j];
        assert(ns.contains(e));
        lemma_filter_mem(es, pe_keep, e);
        let m = choose|m: int| 0 <= m < es.len() && es[m] == e;
        assert(event_links_ok(es, e) && event_times_ok(e));
        match e.parent_id {
            None => {},
            Some(p) => {
                let pe = choose|pe: Event|
                    #[trigger] es.contains(pe) && pe.id@ == p@ && crate::kinds::kind_above(
                        pe.kind,
                        e.kind,
                    );
                if reaches(es, pe, root) {
                    assert(reaches(es, e, root));
                    assert(false);
                }
                lemma_filter_mem_rev(es, pe_keep, pe);
                assert(ns.contains(pe));
            },
        }
    }
    // surviving items are owned by surviving events
    assert forall|j: int| 0 <= j < post.items@.len() implies has_event(
        ns,
        (#[trigger] post.items@[j]).event_id@,
    ) by {
        let it = post.items@[j];
        assert(post.items@.contains(it));
        lemma_filter_mem(pre.items@, pi_keep, it);
        assert(has_event(es, it.event_id@));
        let oe = choose|oe: Event| es.contains(oe) && oe.id@ == it.event_id@;
        if reaches(es, oe, root) {
            assert(item_deleted(es, root, it));
            assert(false);
        }
        lemma_filter_mem_rev(es, pe_keep, oe);
        assert(ns.contains(oe));
    }
    // surviving placements still point at surviving items
    assert forall|j: int| 0 <= j < post.canvas@.len() implies canvas_entry_ok(
        post.items@,
        #[trigger] post.canvas@[j],
    ) by {
        let c = post.canvas@[j];
        assert(post.canvas@.contains(c));
        lemma_filter_mem(pre.canvas@, pc_keep, c);
        assert(canvas_entry_ok(pre.items@, c));
        let it = choose|it: Item|
            #[trigger] pre.items@.contains(it) && it.id@ == c.item_id@ && it.event_id@
                == c.event_id@;
        if item_deleted(es, root, it) {
            let ev = choose|ev: Event|
                #[trigger] es.contains(ev) && ev.id@ == it.event_id@ && reaches(es, ev, root);
            assert(canvas_deleted(es, root, c));
            assert(false);
        }
        lemma_filter_mem_rev(pre.items@, pi_keep, it);
        assert(post.items@.contains(it));
    }
    // identifier freshness survives any filtering
    assert forall|j: int| 0 <= j < ns.len() implies event_id_assigned(
        #[trigger] ns[j],
        post.next_serial,
    ) by {
        assert(ns.contains(ns[j]));
        lemma_filter_mem(es, pe_keep, ns[j]);
        let m = choose|m: int| 0 <= m < es.len() && es[m] == ns[j];
        assert(event_id_assigned(es[m], pre.next_serial));
    }
    assert forall|j: int| 0 <= j < post.items@.len() implies item_id_assigned(
        #[trigger] post.items@[j],
        post.next_serial,
    ) by {
        assert(post.items@.contains(post.items@[j]));
        lemma_filter_mem(pre.items@, pi_keep, post.items@[j]);
        let m = choose|m: int| 0 <= m < pre.items@.len() && pre.items@[m] == post.items@[j];
        assert(item_id_assigned(pre.items@[m], pre.next_serial));
    }
}

/// After deleting one unreferenced event, the invariant holds again.
proof fn lemma_delete_single_wf(pre: Store, post: Store, id: Seq<char>)
    requires
        pre.wf(),
        !event_referenced(pre.events@, pre.items@, id),
        post.events@ == pre.events@.filter(other_events(id)),
        post.items@ == pre.items@,
        post.canvas@ == pre.canvas@,
        post.next_serial == pre.next_serial,
    ensures
        post.wf(),
{
    let es = pre.events@;
    let keep = other_events(id);
    lemma_filter_unique_by(es, |e: Event| e.id@, keep);
    let ns = post.events@;
    assert forall|j: int| 0 <= j < ns.len() implies event_links_ok(ns, #[trigger] ns[j])
        && event_times_ok(ns[j]) by {
        let e = ns[j];
        assert(ns.contains(e));
        lemma_filter_mem(es, keep, e);
        assert(event_links_ok(es, e) && event_times_ok(e));
        match e.parent_id {
            None => {},
            Some(p) => {
                let pe = choose|pe: Event|
                    #[trigger] es.contains(pe) && pe.id@ == p@ && crate::kinds::kind_above(
                        pe.kind,
                        e.kind,
                    );
                if pe.id@ == id {
                    assert(es.contains(e) && opt_id_is(e.parent_id, id));
                    assert(event_referenced(es, pre.items@, id));
                    assert(false);
                }
                lemma_filter_mem_rev(es, keep, pe);
                assert(ns.contains(pe));
            },
        }
    }
    assert forall|j: int| 0 <= j < post.items@.len() implies has_event(
        ns,
        (#[trigger] post.items@[j]).event_id@,
    ) by {
        let it = post.items@[j];
        assert(pre.items@.contains(it));
        assert(has_event(es, it.event_id@));
        let oe = choose|oe: Event| es.contains(oe) && oe.id@ == it.event_id@;
        if oe.id@ == id {
            assert(event_referenced(es, pre.items@, id));
            assert(false);
        }
        lemma_filter_mem_rev(es, keep, oe);
        assert(ns.contains(oe));
    }
    assert forall|j: int| 0 <= j < ns.len() implies event_id_assigned(
        #[trigger] ns[j],
        post.next_serial,
    ) by {
        assert(ns.contains(ns[j]));
        lemma_filter_mem(es, keep, ns[j]);
        let m = choose|m: int| 0 <= m < es.len() && es[m] == ns[j];
        assert(event_id_assigned(es[m], pre.next_serial));
    }
    assert forall|j: int| 0 <= j < post.items@.len() implies item_id_assigned(
        #[trigger] post.items@[j],
        post.next_serial,
    ) by {
        assert(item_id_assigned(pre.items@[j], pre.next_serial));
    }
}

impl Store {
    /// Deletes the event carrying `id`.  Without cascade the delete is
    /// refused with `Conflict` while any child event or owned item still
    /// references it.  With cascade, all descendant events, every item
    /// owned by a deleted event, and every placement on a deleted
    /// event's canvas are removed in one atomic rewrite.  Deleting an
    /// absent identifier fails with `NotFound`, so a repeated cascade
    /// delete of the same identifier fails with `NotFound`.
    pub fn delete_event(&mut self, id: &String, cascade: bool) -> (r: Result<(), StoreError>)
        requires
            old(self).wf(),
        ensures
            final(self).wf(),
            match r {
                Ok(()) => {
                    &&& delete_event_check(old(self).events@, old(self).items@, id@, cascade)
                        is None
                    &&& if cascade {
                        &&& final(self).events@ == surviving_events(old(self).events@, id@)
                        &&& final(self).items@ == surviving_items(
                            old(self).events@,
                            old(self).items@,
                            id@,
                        )
                        &&& final(self).canvas@ == surviving_canvas(
                            old(self).events@,
                            old(self).canvas@,
                            id@,
                        )
                    } else {
                        &&& final(self).events@ == old(self).events@.filter(
                            other_events(id@),
                        )
                        &&& final(self).items@ == old(self).items@
                        &&& final(self).canvas@ == old(self).canvas@
                    }
                    &&& !has_event(final(self).events@, id@)
                    &&& final(self).version == old(self).version
                    &&& final(self).next_serial == old(self).next_serial
                },
                Err(e) => {
                    &&& delete_event_check(old(self).events@, old(self).items@, id@, cascade)
                        == Some(e)
                    &&& *final(self) == *old(self)
                },
            },
    {
        let idx = match self.find_event(id) {
            None => {
                return Err(StoreError::NotFound);
            },
            Some(k) => k,
        };
        proof {
            assert(self.events@.contains(self.events@[idx as int]));
        }
        let ghost pre = *self;
        if cascade {
            let mut new_events: Vec<Event> = Vec::new();
            let mut i: usize = 0;
            let n: usize = self.events.len();
            while i < n
                invariant
                    i <= n,
                    n == self.events@.len(),
                    unique_event_ids(self.events@),
                    new_events@ == self.events@.take(i as int).filter(
                        event_survives(self.events@, id@),
                    ),
                decreases n - i,
            {
                let keep = !event_reaches(&self.events, &self.events[i].duplicate(), id);
                proof {
                    lemma_filter_take_step(
                        self.events@,
                        event_survives(self.events@, id@),
                        i as int,
                    );
                }
                if keep {
                    new_events.push(self.events[i].duplicate());
                }
                i = i + 1;
            }
            proof {
                assert(self.events@.take(n as int) =~= self.events@);
            }
            let mut new_items: Vec<Item> = Vec::new();
            let mut j: usize = 0;
            let m: usize = self.items.len();
            while j < m
                invariant
                    j <= m,
                    m == self.items@.len(),
                    unique_event_ids(self.events@),
                    new_items@ == self.items@.take(j as int).filter(
                        item_survives(self.events@, id@),
                    ),
                decreases m - j,
            {
                let keep: bool = match find_event_pos(&self.events, &self.items[j].event_id) {
                    None => {
                        proof {
                            if item_deleted(self.events@, id@, self.items@[j as int]) {
                                let ev = choose|ev: Event|
                                    #[trigger] self.events@.contains(ev) && ev.id@
                                        == self.items@[j as int].event_id@ && reaches(
                                        self.events@,
                                        ev,
                                        id@,
                                    );
                            }
                        }
                        true
                    },
                    Some(k) => {
                        let owner_deleted = event_reaches(
                            &self.events,
                            &self.events[k].duplicate(),
                            id,
                        );
                        proof {
                            assert(self.events@.contains(self.events@[k as int]));
                            if !owner_deleted && item_deleted(
                                self.events@,
                                id@,
                                self.items@[j as int],
                            ) {
                                let ev = choose|ev: Event|
                                    #[trigger] self.events@.contains(ev) && ev.id@
                                        == self.items@[j as int].event_id@ && reaches(
                                        self.events@,
                                        ev,
                                        id@,
                                    );
                                lemma_unique_event_at(self.events@, k as int, ev);
                            }
                        }
                        !owner_deleted
                    },
                };
                proof {
                    lemma_filter_take_step(
                        self.items@,
                        item_survives(self.events@, id@),
                        j as int,
                    );
                }
                if keep {
                    new_items.push(self.items[j].duplicate());
                }
                j = j + 1;
            }
            proof {
                assert(self.items@.take(m as int) =~= self.items@);
            }
            let mut new_canvas: Vec<CanvasItem> = Vec::new();
            let mut q: usize = 0;
            let w: usize = self.canvas.len();
            while q < w
                invariant
                    q <= w,
                    w == self.canvas@.len(),
                    unique_event_ids(self.events@),
                    new_canvas@ == self.canvas@.take(q as int).filter(
                        canvas_survives(self.events@, id@),
                    ),
                decreases w - q,
            {
                let keep: bool = match find_event_pos(&self.events, &self.canvas[q].event_id) {
                    None => {
                        proof {
                            if canvas_deleted(self.events@, id@, self.canvas@[q as int]) {
                                let ev = choose|ev: Event|
                                    #[trigger] self.events@.contains(ev) && ev.id@
                                        == self.canvas@[q as int].event_id@ && reaches(
                                        self.events@,
                                        ev,
                                        id@,
                                    );
                            }
                        }
                        true
                    },
                    Some(k) => {
                        let owner_deleted = event_reaches(
                            &self.events,
                            &self.events[k].duplicate(),
                            id,
                        );
                        proof {
                            assert(self.events@.contains(self.events@[k as int]));
                            if !owner_deleted && canvas_deleted(
                                self.events@,
                                id@,
                                self.canvas@[q as int],
                            ) {
                                let ev = choose|ev: Event|
                                    #[trigger] self.events@.contains(ev) && ev.id@
                                        == self.canvas@[q as int].event_id@ && reaches(
                                        self.events@,
                                        ev,
                                        id@,
                                    );
                                lemma_unique_event_at(self.events@, k as int, ev);
                            }
                        }
                        !owner_deleted
                    },
                };
                proof {
                    lemma_filter_take_step(
                        self.canvas@,
                        canvas_survives(self.events@, id@),
                        q as int,
                    );
                }
                if keep {
                    new_canvas.push(self.canvas[q].duplicate());
                }
                q = q + 1;
            }
            proof {
                assert(self.canvas@.take(w as int) =~= self.canvas@);
            }
            self.events = new_events;
            self.items = new_items;
            self.canvas = new_canvas;
            proof {
                lemma_cascade_wf(pre, *self, id@);
                if has_event(self.events@, id@) {
                    let e = choose|e: Event| self.events@.contains(e) && e.id@ == id@;
                    lemma_filter_mem(pre.events@, event_survives(pre.events@, id@), e);
                    assert(reaches(pre.events@, e, id@));
                }
            }
            Ok(())
        } else {
            if self.any_child(id) || self.any_owned_item(id) {
                return Err(StoreError::Conflict);
            }
            let mut new_events: Vec<Event> = Vec::new();
            let mut i: usize = 0;
            let n: usize = self.events.len();
            while i < n
                invariant
                    i <= n,
                    n == self.events@.len(),
                    new_events@ == self.events@.take(i as int).filter(other_events(id@)),
                decreases n - i,
            {
                proof {
                    lemma_filter_take_step(self.events@, other_events(id@), i as int);
                }
                if !(self.events[i].id == *id) {
                    new_events.push(self.events[i].duplicate());
                }
                i = i + 1;
            }
            proof {
                assert(self.events@.take(n as int) =~= self.events@);
            }
            self.events = new_events;
            proof {
                lemma_delete_single_wf(pre, *self, id@);
                if has_event(self.events@, id@) {
                    let e = choose|e: Event| self.events@.contains(e) && e.id@ == id@;
                    lemma_filter_mem(pre.events@, other_events(id@), e);
                }
            }
            Ok(())
        }
    }

    /// Some event names `id` as its parent.
    fn any_child(&self, id: &String) -> (r: bool)
        ensures
            r == exists|e: Event|
                #[trigger] self.events@.contains(e) && opt_id_is(e.parent_id, id@),
    {
        let n: usize = self.events.len();
        let mut i: usize = 0;
        while i < n
            invariant
                i <= n,
                n == self.events@.len(),
                forall|j: int|
                    0 <= j < i ==> !opt_id_is((#[trigger] self.events@[j]).parent_id, id@),
            decreases n - i,
        {
            let hit: bool = match &self.events[i].parent_id {
                Some(p) => *p == *id,
                None => false,
            };
            if hit {
                proof {
                    assert(self.events@.contains(self.events@[i as int]));
                }
                return true;
            }
            i = i + 1;
        }
        proof {
            if exists|e: Event| #[trigger] self.events@.contains(e) && opt_id_is(e.parent_id, id@) {
                let e = choose|e: Event|
                    #[trigger] self.events@.contains(e) && opt_id_is(e.parent_id, id@);
                let j = choose|j: int| 0 <= j < self.events@.len() && self.events@[j] == e;
            }
        }
        false
    }

    /// Some item is owned by the event carrying `id`.
    fn any_owned_item(&self, id: &String) -> (r: bool)
        ensures
            r == exists|it: Item| #[trigger] self.items@.contains(it) && it.event_id@ == id@,
    {
        let n: usize = self.items.len();
        let mut i: usize = 0;
        while i < n
            invariant
                i <= n,
                n == self.items@.len(),
                forall|j: int| 0 <= j < i ==> (#[trigger] self.items@[j]).event_id@ != id@,
            decreases n - i,
        {
            if self.items[i].event_id == *id {
                proof {
                    assert(self.items@.contains(self.items@[i as int]));
                }
                return true;
            }
            i = i + 1;
        }
        proof {
            if exists|it: Item| #[trigger] self.items@.contains(it) && it.event_id@ == id@ {
                let it = choose|it: Item|
                    #[trigger] self.items@.contains(it) && it.event_id@ == id@;
                let j = choose|j: int| 0 <= j < self.items@.len() && self.items@[j] == it;
            }
        }
        false
    }
}

} // verus!
