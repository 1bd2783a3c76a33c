//! The two closed enumerations of the schema: the hierarchy level of an
//! event and the content type of an item.
//!
//! The hierarchy levels are totally ordered, year above period above
//! event above item; a parent must sit strictly above its child.

use vstd::prelude::*;
use crate::errors::StoreError;

verus! {

/// The hierarchy level of an event.  `Item` here is the marker level of
/// the event hierarchy, not the leaf content entity.
#[derive(Clone, Copy, PartialEq, Eq, Structural, Debug)]
pub enum EventKind {
    Year,
    Period,
    Event,
    Item,
}

/// The content type of a leaf item.
#[derive(Clone, Copy, PartialEq, Eq, Structural, Debug)]
pub enum ItemType {
    Text,
    Photo,
    Video,
    Link,
}

/// Position of a hierarchy level in the fixed order, year first.
pub open spec fn kind_rank(k: EventKind) -> int {
    match k {
        EventKind::Year => 0,
        EventKind::Period => 1,
        EventKind::Event => 2,
        EventKind::Item => 3,
    }
}

/// `p` sits strictly above `c` in the hierarchy order.
pub open spec fn kind_above(p: EventKind, c: EventKind) -> bool {
    kind_rank(p) < kind_rank(c)
}

impl EventKind {
    /// Executable rank, equal to `kind_rank`.
    pub fn rank(&self) -> (r: u8)
        ensures
            r as int == kind_rank(*self),
    {
        match self {
            EventKind::Year => 0,
            EventKind::Period => 1,
            EventKind::Event => 2,
            EventKind::Item => 3,
        }
    }

    /// Executable strict-above test, equal to `kind_above`.
    pub fn is_above(&self, c: &EventKind) -> (r: bool)
        ensures
            r == kind_above(*self, *c),
    {
        self.rank() < c.rank()
    }
}

/// The event kind denoted by a string literal, if any.
pub open spec fn event_kind_of_chars(s: Seq<char>) -> Option<EventKind> {
    if s == "year"@ {
        Some(EventKind::Year)
    } else if s == "period"@ {
        Some(EventKind::Period)
    } else if s == "event"@ {
        Some(EventKind::Event)
    } else if s == "item"@ {
        Some(EventKind::Item)
    } else {
        None
    }
}

/// The item type denoted by a string literal, if any.
pub open spec fn item_type_of_chars(s: Seq<char>) -> Option<ItemType> {
    if s == "text"@ {
        Some(ItemType::Text)
    } else if s == "photo"@ {
        Some(ItemType::Photo)
    } else if s == "video"@ {
        Some(ItemType::Video)
    } else if s == "link"@ {
        Some(ItemType::Link)
    } else {
        None
    }
}

/// Parses an event kind at the input boundary; any string outside the
/// closed set fails with `Validation`.
pub fn parse_event_kind(s: &str) -> (r: Result<EventKind, StoreError>)
    ensures
        match r {
            Ok(k) => event_kind_of_chars(s@) == Some(k),
            Err(e) => event_kind_of_chars(s@) is None && e == StoreError::Validation,
        },
{
    if crate::text::str_eq(s, "year") {
        Ok(EventKind::Year)
    } else if crate::text::str_eq(s, "period") {
        Ok(EventKind::Period)
    } else if crate::text::str_eq(s, "event") {
        Ok(EventKind::Event)
    } else if crate::text::str_eq(s, "item") {
        Ok(EventKind::Item)
    } else {
        Err(StoreError::Validation)
    }
}

/// Parses an item type at the input boundary; any string outside the
/// closed set fails with `Validation`.
pub fn parse_item_type(s: &str) -> (r: Result<ItemType, StoreError>)
    ensures
        match r {
            Ok(t) => item_type_of_chars(s@) == Some(t),
            Err(e) => item_type_of_chars(s@) is None && e == StoreError::Validation,
        },
{
    if crate::text::str_eq(s, "text") {
        Ok(ItemType::Text)
    } else if crate::text::str_eq(s, "photo") {
        Ok(ItemType::Photo)
    } else if crate::text::str_eq(s, "video") {
        Ok(ItemType::Video)
    } else if crate::text::str_eq(s, "link") {
        Ok(ItemType::Link)
    } else {
        Err(StoreError::Validation)
    }
}

/// The canonical string of an event kind.
pub open spec fn event_kind_chars(k: EventKind) -> Seq<char> {
    match k {
        EventKind::Year => "year"@,
        EventKind::Period => "period"@,
        EventKind::Event => "event"@,
        EventKind::Item => "item"@,
    }
}

/// The canonical string of an item type.
pub open spec fn item_type_chars(t: ItemType) -> Seq<char> {
    match t {
        ItemType::Text => "text"@,
        ItemType::Photo => "photo"@,
        ItemType::Video => "video"@,
        ItemType::Link => "link"@,
    }
}

impl EventKind {
    /// The canonical string of this kind, as stored on disk.
    pub fn as_str(&self) -> (r: &'static str)
        ensures
            r@ == event_kind_chars(*self),
    {
        match self {
            EventKind::Year => "year",
            EventKind::Period => "period",
            EventKind::Event => "event",
            EventKind::Item => "item",
        }
    }
}

impl ItemType {
    /// The canonical string of this type, as stored on disk.
    pub fn as_str(&self) -> (r: &'static str)
        ensures
            r@ == item_type_chars(*self),
    {
        match self {
            ItemType::Text => "text",
            ItemType::Photo => "photo",
            ItemType::Video => "video",
            ItemType::Link => "link",
        }
    }
}

} // verus!
