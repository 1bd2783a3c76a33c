//! The canvas index: spatial placement records keyed by
//! `(event_id, item_id)`, with upsert placement, partial updates, and
//! idempotent removal.

use vstd::prelude::*;
use crate::errors::StoreError;
use crate::model::canvas_entry_ok;
use crate::model::lemma_filter_mem;
use crate::model::lemma_filter_take_step;
use crate::model::lemma_filter_unique_by;
use crate::model::lemma_push_unique_by;
use crate::model::lemma_update_unique_by;
use crate::model::unique_canvas_keys;
use crate::records::CanvasItem;
use crate::records::Item;
use crate::store::Store;
use crate::store::event_id_assigned;
use crate::store::item_id_assigned;

verus! {

/// Position `i` of `canvas` carries the placement key `(eid, iid)`.
pub open spec fn placement_at(canvas: Seq<CanvasItem>, i: int, eid: Seq<char>, iid: Seq<char>) -> bool {
    0 <= i < canvas.len() && canvas[i].event_id@ == eid && canvas[i].item_id@ == iid
}

/// Some placement carries the key `(eid, iid)`.
pub open spec fn has_placement(canvas: Seq<CanvasItem>, eid: Seq<char>, iid: Seq<char>) -> bool {
    exists|i: int| placement_at(canvas, i, eid, iid)
}

/// The position of the placement with key `(eid, iid)`; meaningful when
/// `has_placement` holds, and unique when keys are unique.
pub open spec fn placement_index(canvas: Seq<CanvasItem>, eid: Seq<char>, iid: Seq<char>) -> int {
    choose|i: int| placement_at(canvas, i, eid, iid)
}

/// With unique keys, at most one position carries a given key.
pub proof fn lemma_placement_index_unique(
    canvas: Seq<CanvasItem>,
    i: int,
    eid: Seq<char>,
    iid: Seq<char>,
)
    requires
        unique_canvas_keys(canvas),
        placement_at(canvas, i, eid, iid),
    ensures
        placement_index(canvas, eid, iid) == i,
{
    let j = placement_index(canvas, eid, iid);
    assert(placement_at(canvas, j, eid, iid));
}

/// The canvas after an upsert of `row`: the row with its key is
/// replaced, or appended when absent.
pub open spec fn placed_canvas(canvas: Seq<CanvasItem>, row: CanvasItem) -> Seq<CanvasItem> {
    if has_placement(canvas, row.event_id@, row.item_id@) {
        canvas.update(placement_index(canvas, row.event_id@, row.item_id@), row)
    } else {
        canvas.push(row)
    }
}

/// Some stored item carries identifier `iid` and is owned by the event
/// carrying `eid`: the pair may be placed on that event's canvas.
pub open spec fn item_placeable(items: Seq<Item>, eid: Seq<char>, iid: Seq<char>) -> bool {
    exists|it: Item| #[trigger] items.contains(it) && it.id@ == iid && it.event_id@ == eid
}

/// The predicate keeping every placement but the one keyed
/// `(eid, iid)`.
pub open spec fn other_placements(eid: Seq<char>, iid: Seq<char>) -> spec_fn(CanvasItem) -> bool {
    |c: CanvasItem| !(c.event_id@ == eid && c.item_id@ == iid)
}

/// Law: placement is an upsert, so placing the same pair twice leaves
/// exactly the placement of the second call, as if the first had never
/// happened.
pub proof fn lemma_place_upsert(canvas: Seq<CanvasItem>, r1: CanvasItem, r2: CanvasItem)
    requires
        unique_canvas_keys(canvas),
        r1.event_id@ == r2.event_id@,
        r1.item_id@ == r2.item_id@,
    ensures
        placed_canvas(placed_canvas(canvas, r1), r2) == placed_canvas(canvas, r2),
{
    let eid = r1.event_id@;
    let iid = r1.item_id@;
    if has_placement(canvas, eid, iid) {
        let i = placement_index(canvas, eid, iid);
        assert(placement_at(canvas, i, eid, iid));
        let c1 = canvas.update(i, r1);
        assert(placed_canvas(canvas, r1) == c1);
        assert(placement_at(c1, i, eid, iid));
        lemma_update_unique_by(canvas, |c: CanvasItem| (c.event_id@, c.item_id@), i, r1);
        lemma_placement_index_unique(c1, i, eid, iid);
        assert(placed_canvas(c1, r2) == c1.update(i, r2));
        lemma_placement_index_unique(canvas, i, eid, iid);
        assert(placed_canvas(canvas, r2) == canvas.update(i, r2));
        assert(c1.update(i, r2) =~= canvas.update(i, r2));
    } else {
        let c1 = canvas.push(r1);
        assert(placed_canvas(canvas, r1) == c1);
        let n = canvas.len() as int;
        assert(c1[n] == r1);
        assert(placement_at(c1, n, eid, iid));
        assert forall|j: int| 0 <= j < canvas.len() implies !((#[trigger] c1[j]).event_id@ == eid
            && c1[j].item_id@ == iid) by {
            assert(c1[j] == canvas[j]);
            if canvas[j].event_id@ == eid && canvas[j].item_id@ == iid {
                assert(placement_at(canvas, j, eid, iid));
            }
        }
        assert forall|j: int| 0 <= j < canvas.len() implies (#[trigger] canvas[j]).event_id@ != eid
            || canvas[j].item_id@ != iid by {
            if canvas[j].event_id@ == eid && canvas[j].item_id@ == iid {
                assert(placement_at(canvas, j, eid, iid));
            }
        }
        lemma_push_unique_by(canvas, |c: CanvasItem| (c.event_id@, c.item_id@), r1);
        lemma_placement_index_unique(c1, n, eid, iid);
        assert(placed_canvas(c1, r2) == c1.update(n, r2));
        assert(placed_canvas(canvas, r2) == canvas.push(r2));
        assert(c1.update(n, r2) =~= canvas.push(r2));
    }
}

/// After replacing a placement by one with the same key, the invariant
/// holds again.
proof fn lemma_canvas_update_wf(pre: Store, post: Store, i: int)
    requires
        pre.wf(),
        0 <= i < pre.canvas@.len(),
        post.canvas@.len() == pre.canvas@.len(),
        post.canvas@ == pre.canvas@.update(i, post.canvas@[i]),
        post.canvas@[i].event_id@ == pre.canvas@[i].event_id@,
        post.canvas@[i].item_id@ == pre.canvas@[i].item_id@,
        post.events@ == pre.events@,
        post.items@ == pre.items@,
        post.next_serial == pre.next_serial,
        post.version == pre.version,
    ensures
        post.wf(),
{
    lemma_update_unique_by(
        pre.canvas@,
        |c: CanvasItem| (c.event_id@, c.item_id@),
        i,
        post.canvas@[i],
    );
    assert forall|j: int| 0 <= j < post.canvas@.len() implies canvas_entry_ok(
        post.items@,
        #[trigger] post.canvas@[j],
    ) by {
        if j == i {
            let c = pre.canvas@[i];
            assert(canvas_entry_ok(pre.items@, c));
            let w = choose|w: Item|
                #[trigger] pre.items@.contains(w) && w.id@ == c.item_id@ && w.event_id@
                    == c.event_id@;
            assert(w.id@ == post.canvas@[i].item_id@ && w.event_id@ == post.canvas@[i].event_id@);
        } else {
            assert(post.canvas@[j] == pre.canvas@[j]);
            assert(canvas_entry_ok(pre.items@, pre.canvas@[j]));
        }
    }
}

impl Store {
    /// Finds the position of the placement keyed `(event_id, item_id)`,
    /// if any.
    pub fn find_placement(&self, event_id: &String, item_id: &String) -> (r: Option<usize>)
        ensures
            match r {
                Some(i) => placement_at(self.canvas@, i as int, event_id@, item_id@),
                None => !has_placement(self.canvas@, event_id@, item_id@),
            },
    {
        let n: usize = self.canvas.len();
        let mut i: usize = 0;
        while i < n
            invariant
                i <= n,
                n == self.canvas@.len(),
                forall|j: int|
                    0 <= j < i ==> !((#[trigger] self.canvas@[j]).event_id@ == event_id@
                        && self.canvas@[j].item_id@ == item_id@),
            decreases n - i,
        {
            if self.canvas[i].event_id == *event_id && self.canvas[i].item_id == *item_id {
                return Some(i);
            }
            i = i + 1;
        }
        proof {
            if has_placement(self.canvas@, event_id@, item_id@) {
                let j = choose|j: int| placement_at(self.canvas@, j, event_id@, item_id@);
            }
        }
        None
    }

    /// Places an item on the canvas of its owning event, or repositions
    /// it: one placement per pair, the latest call wins.  Fails with
    /// `Conflict` when the item does not exist or is owned by another
    /// event; the store is then untouched.
    pub fn place_item(
        &mut self,
        event_id: String,
        item_id: String,
        x: i64,
        y: i64,
        scale: i64,
        rotation: i64,
        z_index: i64,
    ) -> (r: Result<(), StoreError>)
        requires
            old(self).wf(),
        ensures
            final(self).wf(),
            match r {
                Ok(()) => {
                    &&& item_placeable(old(self).items@, event_id@, item_id@)
                    &&& final(self).canvas@ == placed_canvas(
                        old(self).canvas@,
                        (CanvasItem {
                            event_id: event_id,
                            item_id: item_id,
                            x: x,
                            y: y,
                            scale: scale,
                            rotation: rotation,
                            z_index: z_index,
                        }),
                    )
                    &&& final(self).events@ == old(self).events@
                    &&& final(self).items@ == old(self).items@
                    &&& final(self).version == old(self).version
                    &&& final(self).next_serial == old(self).next_serial
                },
                Err(e) => {
                    &&& e == StoreError::Conflict
                    &&& !item_placeable(old(self).items@, event_id@, item_id@)
                    &&& *final(self) == *old(self)
                },
            },
    {
        let placeable: bool = match self.find_item(&item_id) {
            None => {
                proof {
                    if item_placeable(self.items@, event_id@, item_id@) {
                        let w = choose|w: Item|
                            #[trigger] self.items@.contains(w) && w.id@ == item_id@ && w.event_id@
                                == event_id@;
                    }
                }
                false
            },
            Some(k) => {
                let okv = self.items[k].event_id == event_id;
                proof {
                    assert(self.items@.contains(self.items@[k as int]));
                    if !okv && item_placeable(self.items@, event_id@, item_id@) {
                        let w = choose|w: Item|
                            #[trigger] self.items@.contains(w) && w.id@ == item_id@ && w.event_id@
                                == event_id@;
                        crate::model::lemma_unique_item_at(self.items@, k as int, w);
                    }
                }
                okv
            },
        };
        if !placeable {
            return Err(StoreError::Conflict);
        }
        let row = CanvasItem {
            event_id: event_id,
            item_id: item_id,
            x: x,
            y: y,
            scale: scale,
            rotation: rotation,
            z_index: z_index,
        };
        let ghost pre = *self;
        match self.find_placement(&row.event_id, &row.item_id) {
            Some(i) => {
                self.canvas[i] = row;
                proof {
                    lemma_placement_index_unique(
                        pre.canvas@,
                        i as int,
                        pre.canvas@[i as int].event_id@,
                        pre.canvas@[i as int].item_id@,
                    );
                    lemma_canvas_update_wf(pre, *self, i as int);
                }
            },
            None => {
                proof {
                    assert forall|j: int| 0 <= j < self.canvas@.len() implies (
                    #[trigger] self.canvas@[j]).event_id@ != row.event_id@ || self.canvas@[j].item_id@
                        != row.item_id@ by {
                        if self.canvas@[j].event_id@ == row.event_id@ && self.canvas@[j].item_id@
                            == row.item_id@ {
                            assert(placement_at(self.canvas@, j, row.event_id@, row.item_id@));
                        }
                    }
                    lemma_push_unique_by(
                        self.canvas@,
                        |c: CanvasItem| (c.event_id@, c.item_id@),
                        row,
                    );
                }
                self.canvas.push(row);
                proof {
                    assert forall|j: int| 0 <= j < self.canvas@.len() implies canvas_entry_ok(
                        self.items@,
                        #[trigger] self.canvas@[j],
                    ) by {
                        if j < pre.canvas@.len() {
                            assert(self.canvas@[j] == pre.canvas@[j]);
                            assert(canvas_entry_ok(pre.items@, pre.canvas@[j]));
                        } else {
                            let w = choose|w: Item|
                                #[trigger] self.items@.contains(w) && w.id@
                                    == self.canvas@[j].item_id@ && w.event_id@
                                    == self.canvas@[j].event_id@;
                        }
                    }
                }
            },
        }
        Ok(())
    }

    /// Moves a placed item to a new position.  Fails with `NotFound`
    /// when no placement exists for the pair.
    pub fn move_item(&mut self, event_id: &String, item_id: &String, x: i64, y: i64) -> (r: Result<
        (),
        StoreError,
    >)
        requires
            old(self).wf(),
        ensures
            final(self).wf(),
            match r {
                Ok(()) => {
                    &&& exists|i: int|
                        {
                            &&& placement_at(old(self).canvas@, i, event_id@, item_id@)
                            &&& final(self).canvas@ == old(self).canvas@.update(
                                i,
                                (CanvasItem {
                                    event_id: old(self).canvas@[i].event_id,
                                    item_id: old(self).canvas@[i].item_id,
                                    x: x,
                                    y: y,
                                    scale: old(self).canvas@[i].scale,
                                    rotation: old(self).canvas@[i].rotation,
                                    z_index: old(self).canvas@[i].z_index,
                                }),
                            )
                        }
                    &&& final(self).events@ == old(self).events@
                    &&& final(self).items@ == old(self).items@
                    &&& final(self).version == old(self).version
                    &&& final(self).next_serial == old(self).next_serial
                },
                Err(e) => {
                    &&& e == StoreError::NotFound
                    &&& !has_placement(old(self).canvas@, event_id@, item_id@)
                    &&& *final(self) == *old(self)
                },
            },
    {
        let idx = match self.find_placement(event_id, item_id) {
            None => {
                return Err(StoreError::NotFound);
            },
            Some(i) => i,
        };
        let ghost pre = *self;
        let row = CanvasItem {
            event_id: self.canvas[idx].event_id.clone(),
            item_id: self.canvas[idx].item_id.clone(),
            x: x,
            y: y,
            scale: self.canvas[idx].scale,
            rotation: self.canvas[idx].rotation,
            z_index: self.canvas[idx].z_index,
        };
        self.canvas[idx] = row;
        proof {
            lemma_canvas_update_wf(pre, *self, idx as int);
        }
        Ok(())
    }

    /// Rescales and/or rotates a placed item; a `None` leaves the field
    /// unchanged.  Fails with `NotFound` when no placement exists.
    pub fn transform_item(
        &mut self,
        event_id: &String,
        item_id: &String,
        scale: Option<i64>,
        rotation: Option<i64>,
    ) -> (r: Result<(), StoreError>)
        requires
            old(self).wf(),
        ensures
            final(self).wf(),
            match r {
                Ok(()) => {
                    &&& exists|i: int|
                        {
                            &&& placement_at(old(self).canvas@, i, event_id@, item_id@)
                            &&& final(self).canvas@ == old(self).canvas@.update(
                                i,
                                (CanvasItem {
                                    event_id: old(self).canvas@[i].event_id,
                                    item_id: old(self).canvas@[i].item_id,
                                    x: old(self).canvas@[i].x,
                                    y: old(self).canvas@[i].y,
                                    scale: match scale {
                                        Some(s) => s,
                                        None => old(self).canvas@[i].scale,
                                    },
                                    rotation: match rotation {
                                        Some(a) => a,
                                        None => old(self).canvas@[i].rotation,
                                    },
                                    z_index: old(self).canvas@[i].z_index,
                                }),
                            )
                        }
                    &&& final(self).events@ == old(self).events@
                    &&& final(self).items@ == old(self).items@
                    &&& final(self).version == old(self).version
                    &&& final(self).next_serial == old(self).next_serial
                },
                Err(e) => {
                    &&& e == StoreError::NotFound
                    &&& !has_placement(old(self).canvas@, event_id@, item_id@)
                    &&& *final(self) == *old(self)
                },
            },
    {
        let idx = match self.find_placement(event_id, item_id) {
            None => {
                return Err(StoreError::NotFound);
            },
            Some(i) => i,
        };
        let ghost pre = *self;
        let new_scale: i64 = match scale {
            Some(s) => s,
            None => self.canvas[idx].scale,
        };
        let new_rotation: i64 = match rotation {
            Some(a) => a,
            None => self.canvas[idx].rotation,
        };
        let row = CanvasItem {
            event_id: self.canvas[idx].event_id.clone(),
            item_id: self.canvas[idx].item_id.clone(),
            x: self.canvas[idx].x,
            y: self.canvas[idx].y,
            scale: new_scale,
            rotation: new_rotation,
            z_index: self.canvas[idx].z_index,
        };
        self.canvas[idx] = row;
        proof {
            lemma_canvas_update_wf(pre, *self, idx as int);
        }
        Ok(())
    }

    /// Restacks a placed item to a new z-order.  Fails with `NotFound`
    /// when no placement exists.
    pub fn restack_item(&mut self, event_id: &String, item_id: &String, z_index: i64) -> (r:
        Result<(), StoreError>)
        requires
            old(self).wf(),
        ensures
            final(self).wf(),
            match r {
                Ok(()) => {
                    &&& exists|i: int|
                        {
                            &&& placement_at(old(self).canvas@, i, event_id@, item_id@)
                            &&& final(self).canvas@ == old(self).canvas@.update(
                                i,
                                (CanvasItem {
                                    event_id: old(self).canvas@[i].event_id,
                                    item_id: old(self).canvas@[i].item_id,
                                    x: old(self).canvas@[i].x,
                                    y: old(self).canvas@[i].y,
                                    scale: old(self).canvas@[i].scale,
                                    rotation: old(self).canvas@[i].rotation,
                                    z_index: z_index,
                                }),
                            )
                        }
                    &&& final(self).events@ == old(self).events@
                    &&& final(self).items@ == old(self).items@
                    &&& final(self).version == old(self).version
                    &&& final(self).next_serial == old(self).next_serial
                },
                Err(e) => {
                    &&& e == StoreError::NotFound
                    &&& !has_placement(old(self).canvas@, event_id@, item_id@)
                    &&& *final(self) == *old(self)
                },
            },
    {
        let idx = match self.find_placement(event_id, item_id) {
            None => {
                return Err(StoreError::NotFound);
            },
            Some(i) => i,
        };
        let ghost pre = *self;
        let row = CanvasItem {
            event_id: self.canvas[idx].event_id.clone(),
            item_id: self.canvas[idx].item_id.clone(),
            x: self.canvas[idx].x,
            y: self.canvas[idx].y,
            scale: self.canvas[idx].scale,
            rotation: self.canvas[idx].rotation,
            z_index: z_index,
        };
        self.canvas[idx] = row;
        proof {
            lemma_canvas_update_wf(pre, *self, idx as int);
        }
        Ok(())
    }

    /// Removes the placement keyed `(event_id, item_id)`; a no-op when
    /// none exists, so removal is idempotent.
    pub fn remove_placement(&mut self, event_id: &String, item_id: &String)
        requires
            old(self).wf(),
        ensures
            final(self).wf(),
            final(self).canvas@ == old(self).canvas@.filter(
                other_placements(event_id@, item_id@),
            ),
            !has_placement(final(self).canvas@, event_id@, item_id@),
            final(self).events@ == old(self).events@,
            final(self).items@ == old(self).items@,
            final(self).version == old(self).version,
            final(self).next_serial == old(self).next_serial,
    {
        let ghost pre = *self;
        let mut new_canvas: Vec<CanvasItem> = Vec::new();
        let n: usize = self.canvas.len();
        let mut i: usize = 0;
        while i < n
            invariant
                i <= n,
                n == self.canvas@.len(),
                new_canvas@ == self.canvas@.take(i as int).filter(
                    other_placements(event_id@, item_id@),
                ),
            decreases n - i,
        {
            proof {
                lemma_filter_take_step(self.canvas@, other_placements(event_id@, item_id@),
                    i as int);
            }
            if !(self.canvas[i].event_id == *event_id && self.canvas[i].item_id == *item_id) {
                new_canvas.push(self.canvas[i].duplicate());
            }
            i = i + 1;
        }
        proof {
            assert(self.canvas@.take(n as int) =~= self.canvas@);
        }
        self.canvas = new_canvas;
        proof {
            lemma_filter_unique_by(
                pre.canvas@,
                |c: CanvasItem| (c.event_id@, c.item_id@),
                other_placements(event_id@, item_id@),
            );
            assert forall|j: int| 0 <= j < self.canvas@.len() implies canvas_entry_ok(
                self.items@,
                #[trigger] self.canvas@[j],
            ) by {
                assert(self.canvas@.contains(self.canvas@[j]));
                lemma_filter_mem(pre.canvas@, other_placements(event_id@, item_id@),
                    self.canvas@[j]);
                let m = choose|m: int| 0 <= m < pre.canvas@.len() && pre.canvas@[m]
                    == self.canvas@[j];
                assert(canvas_entry_ok(pre.items@, pre.canvas@[m]));
            }
            if has_placement(self.canvas@, event_id@, item_id@) {
                let j = choose|j: int| placement_at(self.canvas@, j, event_id@, item_id@);
                assert(self.canvas@.contains(self.canvas@[j]));
                lemma_filter_mem(pre.canvas@, other_placements(event_id@, item_id@),
                    self.canvas@[j]);
            }
        }
    }
}

} // verus!
