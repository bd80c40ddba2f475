//! What the scan records for each entry of the schema.

use vstd::prelude::*;
use crate::value::TypedValue;
use crate::value::ValueView;

verus! {

/// What the command line has supplied for one entry so far.
#[derive(Debug, PartialEq, Eq)]
pub enum Slot {
    /// Nothing.
    Empty,
    /// Its flag, by the token at this place.
    Present(usize),
    /// This value, by the token at this place.
    Value(TypedValue, usize),
}

/// What a slot is, as mathematics.
pub enum SlotView {
    Empty,
    Present(int),
    Value(ValueView, int),
}

impl View for Slot {
    type V = SlotView;

    open spec fn view(&self) -> SlotView {
        match self {
            Slot::Empty => SlotView::Empty,
            Slot::Present(at) => SlotView::Present(*at as int),
            Slot::Value(value, at) => SlotView::Value(value@, *at as int),
        }
    }
}

impl DeepView for Slot {
    type V = SlotView;

    open spec fn deep_view(&self) -> SlotView {
        self@
    }
}

impl SlotView {
    /// The place of the token that filled the slot; 0 for an empty slot.
    pub open spec fn filled_at(self) -> int {
        match self {
            SlotView::Empty => 0,
            SlotView::Present(at) => at,
            SlotView::Value(_, at) => at,
        }
    }
}

impl Slot {
    /// The place of the token that filled the slot; 0 for an empty slot.
    pub fn filled_at(&self) -> (at: usize)
        ensures
            at == self@.filled_at(),
    {
        match self {
            Slot::Empty => 0,
            Slot::Present(at) => *at,
            Slot::Value(_, at) => *at,
        }
    }

    /// Whether nothing was supplied.
    pub fn is_empty(&self) -> (empty: bool)
        ensures
            empty == (self@ is Empty),
    {
        match self {
            Slot::Empty => true,
            _ => false,
        }
    }
}

/// The slots of a schema of `count` entries before the scan: all empty.
pub open spec fn empty_slots(count: int) -> Seq<SlotView> {
    Seq::new(count as nat, |k: int| SlotView::Empty)
}

} // verus!
