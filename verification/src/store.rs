//! The entity store: typed CRUD over events and items, the canvas
//! placements, and the schema version record, all in one owned handle.
//!
//! Every operation validates its input against the invariants of
//! `crate::model` before mutating anything, so no invalid state is ever
//! reachable, even transiently: an operation either fails and leaves the
//! store untouched, or succeeds with the invariant re-established.
//!
//! The caller supplies the current timestamp (`now`) on every mutation;
//! the core itself never reads a clock.

use vstd::prelude::*;
use crate::errors::StoreError;
use crate::ids::event_id_chars;
use crate::ids::event_id_string;
use crate::ids::item_id_chars;
use crate::ids::lemma_event_id_injective;
use crate::kinds::EventKind;
use crate::kinds::kind_above;
use crate::model::canvas_ok;
use crate::model::event_links_ok;
use crate::model::event_times_ok;
use crate::model::events_ok;
use crate::model::has_event;
use crate::model::has_item;
use crate::model::items_ok;
use crate::model::lemma_push_unique_by;
use crate::model::lemma_unique_event_at;
use crate::model::lemma_update_unique_by;
use crate::model::event_with_id;
use crate::model::unique_canvas_keys;
use crate::model::unique_event_ids;
use crate::model::unique_item_ids;
use crate::records::CanvasItem;
use crate::records::Event;
use crate::records::Item;
use crate::text::chars_le;

verus! {

/// The storage core: three in-memory tables plus the recorded schema
/// version and the serial counter that identifiers are assigned from.
pub struct Store {
    /// The schema version the store is at; `0` means fresh.
    pub version: u64,
    /// The `events` table.
    pub events: Vec<Event>,
    /// The `items` table.
    pub items: Vec<Item>,
    /// The `canvas_items` table.
    pub canvas: Vec<CanvasItem>,
    /// The next identifier serial; every stored identifier was assigned
    /// from a smaller serial.
    pub next_serial: u64,
}

/// The identifier of `e` was assigned from a serial below `bound`.
pub open spec fn event_id_assigned(e: Event, bound: u64) -> bool {
    exists|k: nat| k < bound && e.id@ == event_id_chars(k)
}

/// The identifier of `it` was assigned from a serial below `bound`.
pub open spec fn item_id_assigned(it: Item, bound: u64) -> bool {
    exists|k: nat| k < bound && it.id@ == item_id_chars(k)
}

/// A serial bound may grow without invalidating an assignment.
pub proof fn lemma_id_assigned_mono(e: Event, it: Item, b1: u64, b2: u64)
    requires
        b1 <= b2,
    ensures
        event_id_assigned(e, b1) ==> event_id_assigned(e, b2),
        item_id_assigned(it, b1) ==> item_id_assigned(it, b2),
{
    if event_id_assigned(e, b1) {
        let k = choose|k: nat| k < b1 && e.id@ == event_id_chars(k);
        assert(k < b2 && e.id@ == event_id_chars(k));
    }
    if item_id_assigned(it, b1) {
        let k = choose|k: nat| k < b1 && it.id@ == item_id_chars(k);
        assert(k < b2 && it.id@ == item_id_chars(k));
    }
}

impl Store {
    /// Every stored identifier was assigned from a serial below
    /// `next_serial`; a fresh serial therefore never collides.
    pub open spec fn ids_fresh(self) -> bool {
        &&& forall|i: int|
            0 <= i < self.events@.len() ==> event_id_assigned(
                #[trigger] self.events@[i],
                self.next_serial,
            )
        &&& forall|i: int|
            0 <= i < self.items@.len() ==> item_id_assigned(
                #[trigger] self.items@[i],
                self.next_serial,
            )
    }

    /// The well-formedness invariant of the whole store: identifier
    /// uniqueness, the hierarchy and time rules of events, ownership of
    /// items, and the placement rules of the canvas.
    pub open spec fn wf(self) -> bool {
        &&& unique_event_ids(self.events@)
        &&& events_ok(self.events@)
        &&& unique_item_ids(self.items@)
        &&& items_ok(self.events@, self.items@)
        &&& unique_canvas_keys(self.canvas@)
        &&& canvas_ok(self.items@, self.canvas@)
        &&& self.ids_fresh()
    }

    /// Opens a fresh, empty store at schema version `0`.
    pub fn new() -> (s: Store)
        ensures
            s.wf(),
            s.version == 0,
            s.events@.len() == 0,
            s.items@.len() == 0,
            s.canvas@.len() == 0,
            s.next_serial == 0,
    {
        Store {
            version: 0,
            events: Vec::new(),
            items: Vec::new(),
            canvas: Vec::new(),
            next_serial: 0,
        }
    }

    /// Finds the position of the event carrying `id`, if any.
    pub fn find_event(&self, id: &String) -> (r: Option<usize>)
        ensures
            match r {
                Some(i) => i < self.events@.len() && self.events@[i as int].id@ == id@,
                None => !has_event(self.events@, id@),
            },
    {
        let n: usize = self.events.len();
        let mut i: usize = 0;
        while i < n
            invariant
                i <= n,
                n == self.events@.len(),
                forall|j: int| 0 <= j < i ==> (#[trigger] self.events@[j]).id@ != id@,
            decreases n - i,
        {
            if self.events[i].id == *id {
                return Some(i);
            }
            i = i + 1;
        }
        proof {
            if has_event(self.events@, id@) {
                let e = choose|e: Event| self.events@.contains(e) && e.id@ == id@;
                let j = choose|j: int| 0 <= j < self.events@.len() && self.events@[j] == e;
            }
        }
        None
    }

    /// Finds the position of the item carrying `id`, if any.
    pub fn find_item(&self, id: &String) -> (r: Option<usize>)
        ensures
            match r {
                Some(i) => i < self.items@.len() && self.items@[i as int].id@ == id@,
                None => !has_item(self.items@, id@),
            },
    {
        let n: usize = self.items.len();
        let mut i: usize = 0;
        while i < n
            invariant
                i <= n,
                n == self.items@.len(),
                forall|j: int| 0 <= j < i ==> (#[trigger] self.items@[j]).id@ != id@,
            decreases n - i,
        {
            if self.items[i].id == *id {
                return Some(i);
            }
            i = i + 1;
        }
        proof {
            if has_item(self.items@, id@) {
                let it = choose|it: Item| self.items@.contains(it) && it.id@ == id@;
                let j = choose|j: int| 0 <= j < self.items@.len() && self.items@[j] == it;
            }
        }
        None
    }

    /// Returns a copy of the event carrying `id`, if any.
    pub fn get_event(&self, id: &String) -> (r: Option<Event>)
        ensures
            match r {
                Some(e) => self.events@.contains(e) && e.id@ == id@,
                None => !has_event(self.events@, id@),
            },
    {
        match self.find_event(id) {
            Some(i) => {
                let e = self.events[i].duplicate();
                proof {
                    assert(self.events@.contains(self.events@[i as int]));
                }
                Some(e)
            },
            None => None,
        }
    }

    /// Returns a copy of the item carrying `id`, if any.
    pub fn get_item(&self, id: &String) -> (r: Option<Item>)
        ensures
            match r {
                Some(it) => self.items@.contains(it) && it.id@ == id@,
                None => !has_item(self.items@, id@),
            },
    {
        match self.find_item(id) {
            Some(i) => {
                let it = self.items[i].duplicate();
                proof {
                    assert(self.items@.contains(self.items@[i as int]));
                }
                Some(it)
            },
            None => None,
        }
    }
}

/// The time rule checked at creation and update: a present end instant
/// does not precede the start instant.
pub open spec fn times_ok(start_at: String, end_at: Option<String>) -> bool {
    match end_at {
        None => true,
        Some(e) => chars_le(start_at@, e@),
    }
}

/// Some event in `events` carries identifier `p` and sits strictly above
/// `kind`.
pub open spec fn parent_above(events: Seq<Event>, p: Seq<char>, kind: EventKind) -> bool {
    exists|pe: Event| #[trigger] events.contains(pe) && pe.id@ == p && kind_above(pe.kind, kind)
}

/// The validation outcome of `create_event`, and of the hierarchy/time
/// part of `update_event`: `None` means the write is admitted.  Checks
/// run in a fixed order: time rule first, then the hierarchy shape, then
/// parent existence, then the kind ordering.
pub open spec fn event_write_check(
    events: Seq<Event>,
    kind: EventKind,
    start_at: String,
    end_at: Option<String>,
    parent_id: Option<String>,
) -> Option<StoreError> {
    if !times_ok(start_at, end_at) {
        Some(StoreError::Validation)
    } else {
        match parent_id {
            None => if kind != EventKind::Year {
                Some(StoreError::InvalidHierarchy)
            } else {
                None
            },
            Some(p) => if kind == EventKind::Year {
                Some(StoreError::InvalidHierarchy)
            } else if !has_event(events, p@) {
                Some(StoreError::NotFound)
            } else if !parent_above(events, p@, kind) {
                Some(StoreError::InvalidHierarchy)
            } else {
                None
            },
        }
    }
}

impl Store {
    /// Runs the event write checks; on success hands back the store
    /// unchanged.
    fn check_event_write(
        &self,
        kind: EventKind,
        start_at: &String,
        end_at: &Option<String>,
        parent_id: &Option<String>,
    ) -> (r: Result<(), StoreError>)
        requires
            unique_event_ids(self.events@),
        ensures
            match r {
                Ok(()) => event_write_check(self.events@, kind, *start_at, *end_at, *parent_id)
                    is None,
                Err(e) => event_write_check(self.events@, kind, *start_at, *end_at, *parent_id)
                    == Some(e),
            },
    {
        match end_at {
            Some(e) => {
                if !crate::text::str_le(start_at.as_str(), e.as_str()) {
                    return Err(StoreError::Validation);
                }
            },
            None => {},
        }
        match parent_id {
            None => {
                if kind != EventKind::Year {
                    return Err(StoreError::InvalidHierarchy);
                }
            },
            Some(p) => {
                if kind == EventKind::Year {
                    return Err(StoreError::InvalidHierarchy);
                }
                match self.find_event(p) {
                    None => {
                        return Err(StoreError::NotFound);
                    },
                    Some(i) => {
                        let pe_kind = self.events[i].kind;
                        proof {
                            assert(self.events@.contains(self.events@[i as int]));
                        }
                        if !pe_kind.is_above(&kind) {
                            proof {
                                if parent_above(self.events@, p@, kind) {
                                    let pe = choose|pe: Event|
                                        self.events@.contains(pe) && pe.id@ == p@ && kind_above(
                                            pe.kind,
                                            kind,
                                        );
                                    lemma_unique_event_at(self.events@, i as int, pe);
                                }
                            }
                            return Err(StoreError::InvalidHierarchy);
                        }
                    },
                }
            },
        }
        Ok(())
    }

    /// Creates an event, assigning its identifier and timestamps, after
    /// validating the time rule and the hierarchy rule.  On failure the
    /// store is untouched and the error names the first check that
    /// refused the write.
    pub fn create_event(
        &mut self,
        kind: EventKind,
        title: Option<String>,
        start_at: String,
        end_at: Option<String>,
        parent_id: Option<String>,
        cover_media_id: Option<String>,
        now: String,
    ) -> (r: Result<String, StoreError>)
        requires
            old(self).wf(),
            old(self).next_serial < u64::MAX,
        ensures
            final(self).wf(),
            match r {
                Ok(id) => {
                    &&& event_write_check(old(self).events@, kind, start_at, end_at, parent_id)
                        is None
                    &&& id@ == event_id_chars(old(self).next_serial as nat)
                    &&& !has_event(old(self).events@, id@)
                    &&& final(self).events@ == old(self).events@.push(
                        (Event {
                            id: id,
                            kind: kind,
                            title: title,
                            start_at: start_at,
                            end_at: end_at,
                            parent_id: parent_id,
                            cover_media_id: cover_media_id,
                            created_at: now,
                            updated_at: now,
                        }),
                    )
                    &&& final(self).items@ == old(self).items@
                    &&& final(self).canvas@ == old(self).canvas@
                    &&& final(self).version == old(self).version
                    &&& final(self).next_serial == old(self).next_serial + 1
                },
                Err(e) => {
                    &&& event_write_check(old(self).events@, kind, start_at, end_at, parent_id)
                        == Some(e)
                    &&& *final(self) == *old(self)
                },
            },
    {
        match self.check_event_write(kind, &start_at, &end_at, &parent_id) {
            Err(e) => Err(e),
            Ok(()) => {
                let id = event_id_string(self.next_serial);
                let ev = Event {
                    id: id.clone(),
                    kind: kind,
                    title: title,
                    start_at: start_at,
                    end_at: end_at,
                    parent_id: parent_id,
                    cover_media_id: cover_media_id,
                    created_at: now.clone(),
                    updated_at: now,
                };
                proof {
                    self.lemma_fresh_event_id();
                    if has_event(self.events@, event_id_chars(self.next_serial as nat)) {
                        let w = choose|w: Event|
                            self.events@.contains(w) && w.id@ == event_id_chars(
                                self.next_serial as nat,
                            );
                        let m = choose|m: int|
                            0 <= m < self.events@.len() && self.events@[m] == w;
                    }
                }
                let ghost pre = *self;
                self.events.push(ev);
                self.next_serial = self.next_serial + 1;
                proof {
                    lemma_create_event_wf(pre, *self, ev);
                }
                Ok(id)
            },
        }
    }

    /// A fresh serial's event identifier collides with no stored event
    /// identifier.
    proof fn lemma_fresh_event_id(self)
        requires
            self.ids_fresh(),
        ensures
            forall|i: int|
                0 <= i < self.events@.len() ==> (#[trigger] self.events@[i]).id@
                    != event_id_chars(self.next_serial as nat),
    {
        assert forall|i: int| 0 <= i < self.events@.len() implies (
        #[trigger] self.events@[i]).id@ != event_id_chars(self.next_serial as nat) by {
            assert(event_id_assigned(self.events@[i], self.next_serial));
            let k = choose|k: nat|
                k < self.next_serial && self.events@[i].id@ == event_id_chars(k);
            if self.events@[i].id@ == event_id_chars(self.next_serial as nat) {
                lemma_event_id_injective(k, self.next_serial as nat);
            }
        }
    }
}

/// The validation outcome of `update_event`: the event must exist, and
/// the new field values must pass the same checks as at creation,
/// against the event's unchanged kind.
pub open spec fn update_event_check(
    events: Seq<Event>,
    id: Seq<char>,
    start_at: String,
    end_at: Option<String>,
    parent_id: Option<String>,
) -> Option<StoreError> {
    if !has_event(events, id) {
        Some(StoreError::NotFound)
    } else {
        event_write_check(events, event_with_id(events, id).kind, start_at, end_at, parent_id)
    }
}

impl Store {
    /// Rewrites the mutable fields of the event carrying `id`, after
    /// re-validating the time and hierarchy rules against the event's
    /// unchanged kind, and refreshes `updated_at`.  The kind itself and
    /// `created_at` are immutable.
    pub fn update_event(
        &mut self,
        id: &String,
        title: Option<String>,
        start_at: String,
        end_at: Option<String>,
        parent_id: Option<String>,
        cover_media_id: Option<String>,
        now: String,
    ) -> (r: Result<(), StoreError>)
        requires
            old(self).wf(),
        ensures
            final(self).wf(),
            match r {
                Ok(()) => {
                    &&& update_event_check(old(self).events@, id@, start_at, end_at, parent_id)
                        is None
                    &&& exists|i: int|
                        {
                            &&& 0 <= i < old(self).events@.len()
                            &&& (#[trigger] old(self).events@[i]).id@ == id@
                            &&& final(self).events@ == old(self).events@.update(
                                i,
                                (Event {
                                    id: old(self).events@[i].id,
                                    kind: old(self).events@[i].kind,
                                    title: title,
                                    start_at: start_at,
                                    end_at: end_at,
                                    parent_id: parent_id,
                                    cover_media_id: cover_media_id,
                                    created_at: old(self).events@[i].created_at,
                                    updated_at: now,
                                }),
                            )
                        }
                    &&& final(self).items@ == old(self).items@
                    &&& final(self).canvas@ == old(self).canvas@
                    &&& final(self).version == old(self).version
                    &&& final(self).next_serial == old(self).next_serial
                },
                Err(e) => {
                    &&& update_event_check(old(self).events@, id@, start_at, end_at, parent_id)
                        == Some(e)
                    &&& *final(self) == *old(self)
                },
            },
    {
        let idx = match self.find_event(id) {
            None => {
                return Err(StoreError::NotFound);
            },
            Some(i) => i,
        };
        proof {
            assert(self.events@.contains(self.events@[idx as int]));
            lemma_unique_event_at(self.events@, idx as int, event_with_id(self.events@, id@));
        }
        let kind = self.events[idx].kind;
        match self.check_event_write(kind, &start_at, &end_at, &parent_id) {
            Err(e) => Err(e),
            Ok(()) => {
                let ghost pre = *self;
                let ne = Event {
                    id: self.events[idx].id.clone(),
                    kind: kind,
                    title: title,
                    start_at: start_at,
                    end_at: end_at,
                    parent_id: parent_id,
                    cover_media_id: cover_media_id,
                    created_at: self.events[idx].created_at.clone(),
                    updated_at: now,
                };
                self.events[idx] = ne;
                proof {
                    lemma_update_event_wf(pre, *self, idx as int);
                    assert(pre.events@[idx as int].id@ == id@);
                }
                Ok(())
            },
        }
    }
}

/// After an admitted `update_event` rewrite, the invariant holds again.
proof fn lemma_update_event_wf(pre: Store, post: Store, i: int)
    requires
        pre.wf(),
        0 <= i < pre.events@.len(),
        post.events@.len() == pre.events@.len(),
        post.events@ == pre.events@.update(i, post.events@[i]),
        post.events@[i].id@ == pre.events@[i].id@,
        post.events@[i].kind == pre.events@[i].kind,
        event_write_check(
            pre.events@,
            post.events@[i].kind,
            post.events@[i].start_at,
            post.events@[i].end_at,
            post.events@[i].parent_id,
        ) is None,
        post.items@ == pre.items@,
        post.canvas@ == pre.canvas@,
        post.next_serial == pre.next_serial,
    ensures
        post.wf(),
{
    let es = pre.events@;
    let ns = post.events@;
    let ne = post.events@[i];
    lemma_update_unique_by(es, |e: Event| e.id@, i, ne);
    assert(unique_event_ids(ns));
    // hierarchy and time rules
    assert forall|j: int| 0 <= j < ns.len() implies event_links_ok(ns, #[trigger] ns[j])
        && event_times_ok(ns[j]) by {
        if j == i {
            match ne.parent_id {
                None => {},
                Some(p) => {
                    let pe = choose|pe: Event|
                        #[trigger] es.contains(pe) && pe.id@ == p@ && kind_above(pe.kind, ne.kind);
                    if pe.id@ == ne.id@ {
                        lemma_unique_event_at(es, i, pe);
                        assert(false);
                    }
                    let m = choose|m: int| 0 <= m < es.len() && es[m] == pe;
                    assert(m != i);
                    assert(ns[m] == pe);
                    assert(ns.contains(pe));
                },
            }
        } else {
            assert(ns[j] == es[j]);
            assert(event_links_ok(es, es[j]));
            match es[j].parent_id {
                None => {},
                Some(p) => {
                    let pe = choose|pe: Event|
                        #[trigger] es.contains(pe) && pe.id@ == p@ && kind_above(
                            pe.kind,
                            es[j].kind,
                        );
                    if pe.id@ == ne.id@ {
                        lemma_unique_event_at(es, i, pe);
                        assert(ns[i] == ne);
                        assert(ns.contains(ne));
                        assert(ne.id@ == p@ && kind_above(ne.kind, es[j].kind));
                    } else {
                        let m = choose|m: int| 0 <= m < es.len() && es[m] == pe;
                        assert(m != i);
                        assert(ns[m] == pe);
                        assert(ns.contains(pe));
                    }
                },
            }
        }
    }
    // item ownership
    assert forall|j: int| 0 <= j < post.items@.len() implies has_event(
        ns,
        (#[trigger] post.items@[j]).event_id@,
    ) by {
        assert(has_event(es, pre.items@[j].event_id@));
        let oe = choose|oe: Event| es.contains(oe) && oe.id@ == pre.items@[j].event_id@;
        if oe.id@ == ne.id@ {
            lemma_unique_event_at(es, i, oe);
            assert(ns[i] == ne);
            assert(ns.contains(ne));
        } else {
            let m = choose|m: int| 0 <= m < es.len() && es[m] == oe;
            assert(m != i);
            assert(ns[m] == oe);
            assert(ns.contains(oe));
        }
    }
    // identifier freshness
    assert forall|j: int| 0 <= j < ns.len() implies event_id_assigned(
        #[trigger] ns[j],
        post.next_serial,
    ) by {
        if j == i {
            assert(event_id_assigned(es[i], pre.next_serial));
            let k = choose|k: nat| k < pre.next_serial && es[i].id@ == event_id_chars(k);
            assert(k < post.next_serial && ne.id@ == event_id_chars(k));
        } else {
            assert(ns[j] == es[j]);
            assert(event_id_assigned(es[j], pre.next_serial));
        }
    }
    assert forall|j: int| 0 <= j < post.items@.len() implies item_id_assigned(
        #[trigger] post.items@[j],
        post.next_serial,
    ) by {
        assert(post.items@[j] == pre.items@[j]);
        assert(item_id_assigned(pre.items@[j], pre.next_serial));
    }
}

/// After an admitted `create_event` push, the invariant holds again.
proof fn lemma_create_event_wf(pre: Store, post: Store, ev: Event)
    requires
        pre.wf(),
        pre.next_serial < u64::MAX,
        event_write_check(pre.events@, ev.kind, ev.start_at, ev.end_at, ev.parent_id) is None,
        ev.id@ == event_id_chars(pre.next_serial as nat),
        post.events@ == pre.events@.push(ev),
        post.items@ == pre.items@,
        post.canvas@ == pre.canvas@,
        post.next_serial == pre.next_serial + 1,
    ensures
        post.wf(),
{
    let es = pre.events@;
    let ns = es.push(ev);
    // identifier uniqueness
    pre.lemma_fresh_event_id();
    lemma_push_unique_by(es, |e: Event| e.id@, ev);
    // hierarchy and time rules
    assert forall|i: int| 0 <= i < ns.len() implies event_links_ok(ns, #[trigger] ns[i])
        && event_times_ok(ns[i]) by {
        if i < es.len() {
            assert(ns[i] == es[i]);
            assert(event_links_ok(es, es[i]));
            match es[i].parent_id {
                None => {},
                Some(p) => {
                    let pe = choose|pe: Event|
                        #[trigger] es.contains(pe) && pe.id@ == p@ && kind_above(
                            pe.kind,
                            es[i].kind,
                        );
                    let m = choose|m: int| 0 <= m < es.len() && es[m] == pe;
                    assert(ns[m] == pe);
                    assert(ns.contains(pe));
                },
            }
        } else {
            assert(ns[i] == ev);
            match ev.parent_id {
                None => {},
                Some(p) => {
                    let pe = choose|pe: Event|
                        #[trigger] es.contains(pe) && pe.id@ == p@ && kind_above(pe.kind, ev.kind);
                    let m = choose|m: int| 0 <= m < es.len() && es[m] == pe;
                    assert(ns[m] == pe);
                    assert(ns.contains(pe));
                },
            }
        }
    }
    // item ownership: witnesses survive the push
    assert forall|i: int| 0 <= i < post.items@.len() implies has_event(
        ns,
        (#[trigger] post.items@[i]).event_id@,
    ) by {
        assert(has_event(es, pre.items@[i].event_id@));
        let oe = choose|oe: Event| es.contains(oe) && oe.id@ == pre.items@[i].event_id@;
        let m = choose|m: int| 0 <= m < es.len() && es[m] == oe;
        assert(ns[m] == oe);
        assert(ns.contains(oe));
    }
    // identifier freshness
    assert forall|i: int| 0 <= i < post.events@.len() implies event_id_assigned(
        #[trigger] post.events@[i],
        post.next_serial,
    ) by {
        assert(post.events@[i] == ns[i]);
        if i < es.len() {
            assert(event_id_assigned(es[i], pre.next_serial));
            lemma_id_assigned_mono(es[i], pre.items@[0], pre.next_serial, post.next_serial);
        } else {
            let k: nat = pre.next_serial as nat;
            assert(k < post.next_serial && post.events@[i].id@ == event_id_chars(k));
        }
    }
    assert forall|i: int| 0 <= i < post.items@.len() implies item_id_assigned(
        #[trigger] post.items@[i],
        post.next_serial,
    ) by {
        assert(pre.items@[i] == post.items@[i]);
        assert(item_id_assigned(pre.items@[i], pre.next_serial));
        lemma_id_assigned_mono(pre.events@[0], pre.items@[i], pre.next_serial, post.next_serial);
    }
}

} // verus!
