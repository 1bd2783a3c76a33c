//! The three persisted record types: events, items, and canvas
//! placements.
//!
//! Timestamps are ISO-8601 text in UTC.  Spatial coordinates, scale,
//! rotation and geographic positions are fixed-point integers (the
//! caller chooses the unit, e.g. thousandths); the storage core never
//! computes with them, it only stores and filters them.

use vstd::prelude::*;
use crate::kinds::EventKind;
use crate::kinds::ItemType;

verus! {

/// A temporal node of the timeline hierarchy.
#[derive(Debug)]
pub struct Event {
    /// Opaque unique identifier.
    pub id: String,
    /// Hierarchy level.
    pub kind: EventKind,
    /// Optional display title.
    pub title: Option<String>,
    /// Required start instant, ISO-8601 text.
    pub start_at: String,
    /// Optional end instant; never precedes `start_at`.
    pub end_at: Option<String>,
    /// Identifier of the parent event; present exactly when the kind is
    /// not `Year`, and always one level or more above this event.
    pub parent_id: Option<String>,
    /// Opaque reference to cover media.
    pub cover_media_id: Option<String>,
    /// Creation timestamp.
    pub created_at: String,
    /// Last-modification timestamp.
    pub updated_at: String,
}

/// A leaf content block attached to an event.
#[derive(Debug)]
pub struct Item {
    /// Opaque unique identifier.
    pub id: String,
    /// Identifier of the owning event; always resolves.
    pub event_id: String,
    /// Content type.
    pub item_type: ItemType,
    /// Content payload: text, or an opaque media reference.
    pub content: String,
    /// Optional caption.
    pub caption: Option<String>,
    /// Optional occurrence instant, ISO-8601 text.
    pub happened_at: Option<String>,
    /// Optional geographic latitude, fixed-point.
    pub place_lat: Option<i64>,
    /// Optional geographic longitude, fixed-point.
    pub place_lng: Option<i64>,
    /// Optional place label.
    pub place_label: Option<String>,
}

/// The spatial placement of one item on the canvas of one event.
/// `(event_id, item_id)` is the composite key: at most one placement
/// exists per pair, and the item always belongs to that very event.
#[derive(Debug)]
pub struct CanvasItem {
    pub event_id: String,
    pub item_id: String,
    /// Position, fixed-point.
    pub x: i64,
    pub y: i64,
    /// Scale factor, fixed-point; the caller's unit value stands for 1.
    pub scale: i64,
    /// Rotation angle, fixed-point.
    pub rotation: i64,
    /// Stacking order, back to front.
    pub z_index: i64,
}

/// A rectangular viewport query window; bounds are inclusive.
#[derive(Clone, Copy, PartialEq, Eq, Structural, Debug)]
pub struct BBox {
    pub min_x: i64,
    pub min_y: i64,
    pub max_x: i64,
    pub max_y: i64,
}

/// Copies an optional string, preserving the value.
pub fn clone_opt_string(o: &Option<String>) -> (r: Option<String>)
    ensures
        r == *o,
{
    match o {
        Some(s) => Some(s.clone()),
        None => None,
    }
}

impl Event {
    /// Copies the record, preserving the value.
    pub fn duplicate(&self) -> (r: Event)
        ensures
            r == *self,
    {
        Event {
            id: self.id.clone(),
            kind: self.kind,
            title: clone_opt_string(&self.title),
            start_at: self.start_at.clone(),
            end_at: clone_opt_string(&self.end_at),
            parent_id: clone_opt_string(&self.parent_id),
            cover_media_id: clone_opt_string(&self.cover_media_id),
            created_at: self.created_at.clone(),
            updated_at: self.updated_at.clone(),
        }
    }
}

impl Item {
    /// Copies the record, preserving the value.
    pub fn duplicate(&self) -> (r: Item)
        ensures
            r == *self,
    {
        Item {
            id: self.id.clone(),
            event_id: self.event_id.clone(),
            item_type: self.item_type,
            content: self.content.clone(),
            caption: clone_opt_string(&self.caption),
            happened_at: clone_opt_string(&self.happened_at),
            place_lat: self.place_lat,
            place_lng: self.place_lng,
            place_label: clone_opt_string(&self.place_label),
        }
    }
}

impl CanvasItem {
    /// Copies the record, preserving the value.
    pub fn duplicate(&self) -> (r: CanvasItem)
        ensures
            r == *self,
    {
        CanvasItem {
            event_id: self.event_id.clone(),
            item_id: self.item_id.clone(),
            x: self.x,
            y: self.y,
            scale: self.scale,
            rotation: self.rotation,
            z_index: self.z_index,
        }
    }
}

} // verus!
