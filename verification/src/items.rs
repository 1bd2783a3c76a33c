//! CRUD over the leaf content items.  Deleting an item also removes any
//! canvas placement of it, so a placement never outlives its item.

use vstd::prelude::*;
use crate::errors::StoreError;
use crate::ids::item_id_chars;
use crate::ids::item_id_string;
use crate::ids::lemma_item_id_injective;
use crate::kinds::ItemType;
use crate::model::canvas_entry_ok;
use crate::model::has_event;
use crate::model::has_item;
use crate::model::lemma_filter_mem;
use crate::model::lemma_filter_mem_rev;
use crate::model::lemma_filter_take_step;
use crate::model::lemma_filter_unique_by;
use crate::model::lemma_push_unique_by;
use crate::model::lemma_unique_item_at;
use crate::model::lemma_update_unique_by;
use crate::records::CanvasItem;
use crate::records::Event;
use crate::records::Item;
use crate::store::Store;
use crate::store::event_id_assigned;
use crate::store::item_id_assigned;
use crate::store::lemma_id_assigned_mono;

verus! {

/// A fresh serial's item identifier collides with no stored item
/// identifier.
proof fn lemma_fresh_item_id(s: Store)
    requires
        s.ids_fresh(),
    ensures
        forall|i: int|
            0 <= i < s.items@.len() ==> (#[trigger] s.items@[i]).id@ != item_id_chars(
                s.next_serial as nat,
            ),
{
    assert forall|i: int| 0 <= i < s.items@.len() implies (#[trigger] s.items@[i]).id@
        != item_id_chars(s.next_serial as nat) by {
        assert(item_id_assigned(s.items@[i], s.next_serial));
        let k = choose|k: nat| k < s.next_serial && s.items@[i].id@ == item_id_chars(k);
        if s.items@[i].id@ == item_id_chars(s.next_serial as nat) {
            lemma_item_id_injective(k, s.next_serial as nat);
        }
    }
}

/// After an admitted `create_item` push, the invariant holds again.
proof fn lemma_create_item_wf(pre: Store, post: Store, it: Item)
    requires
        pre.wf(),
        pre.next_serial < u64::MAX,
        has_event(pre.events@, it.event_id@),
        it.id@ == item_id_chars(pre.next_serial as nat),
        post.events@ == pre.events@,
        post.items@ == pre.items@.push(it),
        post.canvas@ == pre.canvas@,
        post.next_serial == pre.next_serial + 1,
    ensures
        post.wf(),
{
    lemma_fresh_item_id(pre);
    lemma_push_unique_by(pre.items@, |x: Item| x.id@, it);
    let ns = post.items@;
    assert forall|j: int| 0 <= j < ns.len() implies has_event(
        post.events@,
        (#[trigger] ns[j]).event_id@,
    ) by {
        if j < pre.items@.len() {
            assert(ns[j] == pre.items@[j]);
        } else {
            assert(ns[j] == it);
        }
    }
    assert forall|j: int| 0 <= j < post.canvas@.len() implies canvas_entry_ok(
        ns,
        #[trigger] post.canvas@[j],
    ) by {
        let c = pre.canvas@[j];
        assert(canvas_entry_ok(pre.items@, c));
        let w = choose|w: Item|
            #[trigger] pre.items@.contains(w) && w.id@ == c.item_id@ && w.event_id@ == c.event_id@;
        let m = choose|m: int| 0 <= m < pre.items@.len() && pre.items@[m] == w;
        assert(ns[m] == w);
        assert(ns.contains(w));
    }
    assert forall|j: int| 0 <= j < post.events@.len() implies event_id_assigned(
        #[trigger] post.events@[j],
        post.next_serial,
    ) by {
        assert(event_id_assigned(pre.events@[j], pre.next_serial));
        lemma_id_assigned_mono(pre.events@[j], it, pre.next_serial, post.next_serial);
    }
    assert forall|j: int| 0 <= j < ns.len() implies item_id_assigned(
        #[trigger] ns[j],
        post.next_serial,
    ) by {
        if j < pre.items@.len() {
            assert(ns[j] == pre.items@[j]);
            assert(item_id_assigned(pre.items@[j], pre.next_serial));
            lemma_id_assigned_mono(pre.events@[0], pre.items@[j], pre.next_serial,
                post.next_serial);
        } else {
            let k: nat = pre.next_serial as nat;
            assert(k < post.next_serial && ns[j].id@ == item_id_chars(k));
        }
    }
}

impl Store {
    /// Creates an item under an existing event, assigning its
    /// identifier.  Fails with `NotFound` when the owning event is
    /// absent; the store is then untouched.
    pub fn create_item(
        &mut self,
        event_id: String,
        item_type: ItemType,
        content: String,
        caption: Option<String>,
        happened_at: Option<String>,
        place_lat: Option<i64>,
        place_lng: Option<i64>,
        place_label: Option<String>,
    ) -> (r: Result<String, StoreError>)
        requires
            old(self).wf(),
            old(self).next_serial < u64::MAX,
        ensures
            final(self).wf(),
            match r {
                Ok(id) => {
                    &&& has_event(old(self).events@, event_id@)
                    &&& id@ == item_id_chars(old(self).next_serial as nat)
                    &&& !has_item(old(self).items@, id@)
                    &&& final(self).items@ == old(self).items@.push(
                        (Item {
                            id: id,
                            event_id: event_id,
                            item_type: item_type,
                            content: content,
                            caption: caption,
                            happened_at: happened_at,
                            place_lat: place_lat,
                            place_lng: place_lng,
                            place_label: place_label,
                        }),
                    )
                    &&& final(self).events@ == old(self).events@
                    &&& final(self).canvas@ == old(self).canvas@
                    &&& final(self).version == old(self).version
                    &&& final(self).next_serial == old(self).next_serial + 1
                },
                Err(e) => {
                    &&& e == StoreError::NotFound
                    &&& !has_event(old(self).events@, event_id@)
                    &&& *final(self) == *old(self)
                },
            },
    {
        match self.find_event(&event_id) {
            None => {
                return Err(StoreError::NotFound);
            },
            Some(k) => {
                proof {
                    assert(self.events@.contains(self.events@[k as int]));
                }
            },
        }
        let id = item_id_string(self.next_serial);
        proof {
            lemma_fresh_item_id(*self);
            if has_item(self.items@, item_id_chars(self.next_serial as nat)) {
                let w = choose|w: Item|
                    self.items@.contains(w) && w.id@ == item_id_chars(self.next_serial as nat);
                let m = choose|m: int| 0 <= m < self.items@.len() && self.items@[m] == w;
            }
        }
        let it = Item {
            id: id.clone(),
            event_id: event_id,
            item_type: item_type,
            content: content,
            caption: caption,
            happened_at: happened_at,
            place_lat: place_lat,
            place_lng: place_lng,
            place_label: place_label,
        };
        let ghost pre = *self;
        self.items.push(it);
        self.next_serial = self.next_serial + 1;
        proof {
            lemma_create_item_wf(pre, *self, self.items@.last());
        }
        Ok(id)
    }

    /// Rewrites the content fields of the item carrying `id`.  The
    /// identifier and the owning event are immutable.  Fails with
    /// `NotFound` when the item is absent.
    pub fn update_item(
        &mut self,
        id: &String,
        item_type: ItemType,
        content: String,
        caption: Option<String>,
        happened_at: Option<String>,
        place_lat: Option<i64>,
        place_lng: Option<i64>,
        place_label: Option<String>,
    ) -> (r: Result<(), StoreError>)
        requires
            old(self).wf(),
        ensures
            final(self).wf(),
            match r {
                Ok(()) => {
                    &&& has_item(old(self).items@, id@)
                    &&& exists|i: int|
                        {
                            &&& 0 <= i < old(self).items@.len()
                            &&& (#[trigger] old(self).items@[i]).id@ == id@
                            &&& final(self).items@ == old(self).items@.update(
                                i,
                                (Item {
                                    id: old(self).items@[i].id,
                                    event_id: old(self).items@[i].event_id,
                                    item_type: item_type,
                                    content: content,
                                    caption: caption,
                                    happened_at: happened_at,
                                    place_lat: place_lat,
                                    place_lng: place_lng,
                                    place_label: place_label,
                                }),
                            )
                        }
                    &&& final(self).events@ == old(self).events@
                    &&& final(self).canvas@ == old(self).canvas@
                    &&& final(self).version == old(self).version
                    &&& final(self).next_serial == old(self).next_serial
                },
                Err(e) => {
                    &&& e == StoreError::NotFound
                    &&& !has_item(old(self).items@, id@)
                    &&& *final(self) == *old(self)
                },
            },
    {
        let idx = match self.find_item(id) {
            None => {
                return Err(StoreError::NotFound);
            },
            Some(i) => i,
        };
        proof {
            assert(self.items@.contains(self.items@[idx as int]));
        }
        let ghost pre = *self;
        let ni = Item {
            id: self.items[idx].id.clone(),
            event_id: self.items[idx].event_id.clone(),
            item_type: item_type,
            content: content,
            caption: caption,
            happened_at: happened_at,
            place_lat: place_lat,
            place_lng: place_lng,
            place_label: place_label,
        };
        self.items[idx] = ni;
        proof {
            lemma_update_item_wf(pre, *self, idx as int);
            assert(pre.items@[idx as int].id@ == id@);
        }
        Ok(())
    }

    /// Deletes the item carrying `id`, together with any canvas
    /// placement of it.  Fails with `NotFound` when the item is absent.
    pub fn delete_item(&mut self, id: &String) -> (r: Result<(), StoreError>)
        requires
            old(self).wf(),
        ensures
            final(self).wf(),
            match r {
                Ok(()) => {
                    &&& has_item(old(self).items@, id@)
                    &&& final(self).items@ == old(self).items@.filter(other_items(id@))
                    &&& final(self).canvas@ == old(self).canvas@.filter(
                        without_item_placement(id@),
                    )
                    &&& !has_item(final(self).items@, id@)
                    &&& final(self).events@ == old(self).events@
                    &&& final(self).version == old(self).version
                    &&& final(self).next_serial == old(self).next_serial
                },
                Err(e) => {
                    &&& e == StoreError::NotFound
                    &&& !has_item(old(self).items@, id@)
                    &&& *final(self) == *old(self)
                },
            },
    {
        let idx = match self.find_item(id) {
            None => {
                return Err(StoreError::NotFound);
            },
            Some(i) => i,
        };
        proof {
            assert(self.items@.contains(self.items@[idx as int]));
        }
        let ghost pre = *self;
        let mut new_items: Vec<Item> = Vec::new();
        let n: usize = self.items.len();
        let mut i: usize = 0;
        while i < n
            invariant
                i <= n,
                n == self.items@.len(),
                new_items@ == self.items@.take(i as int).filter(other_items(id@)),
            decreases n - i,
        {
            proof {
                lemma_filter_take_step(self.items@, other_items(id@), i as int);
            }
            if !(self.items[i].id == *id) {
                new_items.push(self.items[i].duplicate());
            }
            i = i + 1;
        }
        proof {
            assert(self.items@.take(n as int) =~= self.items@);
        }
        let mut new_canvas: Vec<CanvasItem> = Vec::new();
        let m: usize = self.canvas.len();
        let mut q: usize = 0;
        while q < m
            invariant
                q <= m,
                m == self.canvas@.len(),
                new_canvas@ == self.canvas@.take(q as int).filter(without_item_placement(id@)),
            decreases m - q,
        {
            proof {
                lemma_filter_take_step(self.canvas@, without_item_placement(id@), q as int);
            }
            if !(self.canvas[q].item_id == *id) {
                new_canvas.push(self.canvas[q].duplicate());
            }
            q = q + 1;
        }
        proof {
            assert(self.canvas@.take(m as int) =~= self.canvas@);
        }
        self.items = new_items;
        self.canvas = new_canvas;
        proof {
            lemma_delete_item_wf(pre, *self, id@);
            if has_item(self.items@, id@) {
                let w = choose|w: Item| self.items@.contains(w) && w.id@ == id@;
                lemma_filter_mem(pre.items@, other_items(id@), w);
            }
        }
        Ok(())
    }
}

/// The predicate keeping every item but the one carrying `id`.
pub open spec fn other_items(id: Seq<char>) -> spec_fn(Item) -> bool {
    |it: Item| it.id@ != id
}

/// The predicate keeping every placement except those of the item
/// carrying `id`.
pub open spec fn without_item_placement(id: Seq<char>) -> spec_fn(CanvasItem) -> bool {
    |c: CanvasItem| c.item_id@ != id
}

/// After an admitted `update_item` rewrite, the invariant holds again.
proof fn lemma_update_item_wf(pre: Store, post: Store, i: int)
    requires
        pre.wf(),
        0 <= i < pre.items@.len(),
        post.items@.len() == pre.items@.len(),
        post.items@ == pre.items@.update(i, post.items@[i]),
        post.items@[i].id@ == pre.items@[i].id@,
        post.items@[i].event_id@ == pre.items@[i].event_id@,
        post.events@ == pre.events@,
        post.canvas@ == pre.canvas@,
        post.next_serial == pre.next_serial,
    ensures
        post.wf(),
{
    let ns = post.items@;
    let ni = post.items@[i];
    lemma_update_unique_by(pre.items@, |x: Item| x.id@, i, ni);
    assert forall|j: int| 0 <= j < ns.len() implies has_event(
        post.events@,
        (#[trigger] ns[j]).event_id@,
    ) by {
        if j == i {
            assert(has_event(pre.events@, pre.items@[i].event_id@));
        } else {
            assert(ns[j] == pre.items@[j]);
        }
    }
    assert forall|j: int| 0 <= j < post.canvas@.len() implies canvas_entry_ok(
        ns,
        #[trigger] post.canvas@[j],
    ) by {
        let c = pre.canvas@[j];
        assert(canvas_entry_ok(pre.items@, c));
        let w = choose|w: Item|
            #[trigger] pre.items@.contains(w) && w.id@ == c.item_id@ && w.event_id@ == c.event_id@;
        if w.id@ == ni.id@ {
            lemma_unique_item_at(pre.items@, i, w);
            assert(ns[i] == ni);
            assert(ns.contains(ni));
            assert(ni.id@ == c.item_id@ && ni.event_id@ == c.event_id@);
        } else {
            let m = choose|m: int| 0 <= m < pre.items@.len() && pre.items@[m] == w;
            assert(m != i);
            assert(ns[m] == w);
            assert(ns.contains(w));
        }
    }
    assert forall|j: int| 0 <= j < ns.len() implies item_id_assigned(
        #[trigger] ns[j],
        post.next_serial,
    ) by {
        assert(item_id_assigned(pre.items@[j], pre.next_serial));
        if j == i {
            let k = choose|k: nat| k < pre.next_serial && pre.items@[i].id@ == item_id_chars(k);
            assert(k < post.next_serial && ni.id@ == item_id_chars(k));
        } else {
            assert(ns[j] == pre.items@[j]);
        }
    }
    assert forall|j: int| 0 <= j < post.events@.len() implies event_id_assigned(
        #[trigger] post.events@[j],
        post.next_serial,
    ) by {
        assert(event_id_assigned(pre.events@[j], pre.next_serial));
    }
}

/// After deleting an item and its placements, the invariant holds
/// again.
proof fn lemma_delete_item_wf(pre: Store, post: Store, id: Seq<char>)
    requires
        pre.wf(),
        post.items@ == pre.items@.filter(other_items(id)),
        post.canvas@ == pre.canvas@.filter(without_item_placement(id)),
        post.events@ == pre.events@,
        post.next_serial == pre.next_serial,
    ensures
        post.wf(),
{
    lemma_filter_unique_by(pre.items@, |x: Item| x.id@, other_items(id));
    lemma_filter_unique_by(
        pre.canvas@,
        |c: CanvasItem| (c.event_id@, c.item_id@),
        without_item_placement(id),
    );
    let ns = post.items@;
    assert forall|j: int| 0 <= j < ns.len() implies has_event(
        post.events@,
        (#[trigger] ns[j]).event_id@,
    ) by {
        assert(ns.contains(ns[j]));
        lemma_filter_mem(pre.items@, other_items(id), ns[j]);
        let m = choose|m: int| 0 <= m < pre.items@.len() && pre.items@[m] == ns[j];
        assert(has_event(pre.events@, pre.items@[m].event_id@));
    }
    assert forall|j: int| 0 <= j < post.canvas@.len() implies canvas_entry_ok(
        ns,
        #[trigger] post.canvas@[j],
    ) by {
        let c = post.canvas@[j];
        assert(post.canvas@.contains(c));
        lemma_filter_mem(pre.canvas@, without_item_placement(id), c);
        assert(canvas_entry_ok(pre.items@, c));
        let w = choose|w: Item|
            #[trigger] pre.items@.contains(w) && w.id@ == c.item_id@ && w.event_id@ == c.event_id@;
        assert(w.id@ != id);
        lemma_filter_mem_rev(pre.items@, other_items(id), w);
        assert(ns.contains(w));
    }
    assert forall|j: int| 0 <= j < ns.len() implies item_id_assigned(
        #[trigger] ns[j],
        post.next_serial,
    ) by {
        assert(ns.contains(ns[j]));
        lemma_filter_mem(pre.items@, other_items(id), ns[j]);
        let m = choose|m: int| 0 <= m < pre.items@.len() && pre.items@[m] == ns[j];
        assert(item_id_assigned(pre.items@[m], pre.next_serial));
    }
    assert forall|j: int| 0 <= j < post.events@.len() implies event_id_assigned(
        #[trigger] post.events@[j],
        post.next_serial,
    ) by {
        assert(event_id_assigned(pre.events@[j], pre.next_serial));
    }
}

} // verus!
