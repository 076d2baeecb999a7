//! Dimensions of a connected keyboard's keymap.

use vstd::prelude::*;

verus! {

/// Physical key-matrix dimensions.
#[derive(Clone, Copy, PartialEq, Eq, Structural, Debug)]
pub struct KeyMatrix {
    pub rows: u8,
    pub cols: u8,
}

impl KeyMatrix {
    /// `(row, col)` lies inside the matrix.
    pub open spec fn has(self, row: u8, col: u8) -> bool {
        row < self.rows && col < self.cols
    }

    /// True when `(row, col)` lies inside the matrix.
    pub fn contains(self, row: u8, col: u8) -> (inside: bool)
        ensures
            inside == self.has(row, col),
    {
        row < self.rows && col < self.cols
    }
}

/// Matrix and layer count, fixed for a device session.
#[derive(Clone, Copy, PartialEq, Eq, Structural, Debug)]
pub struct DeviceTopology {
    pub matrix: KeyMatrix,
    pub layer_count: u8,
}

impl DeviceTopology {
    /// `(layer, row, col)` is addressable.
    pub open spec fn has(self, layer: u8, row: u8, col: u8) -> bool {
        layer < self.layer_count && self.matrix.has(row, col)
    }

    /// True when `(layer, row, col)` is addressable.
    pub fn contains(self, layer: u8, row: u8, col: u8) -> (inside: bool)
        ensures
            inside == self.has(layer, row, col),
    {
        layer < self.layer_count && self.matrix.contains(row, col)
    }
}

/// An address is in bounds exactly if its layer, its row and its column are each
/// below what the device has of them.
pub proof fn bounds_are_checked_one_by_one(t: DeviceTopology, layer: u8, row: u8, col: u8)
    ensures
        t.has(layer, row, col) <==> layer < t.layer_count && row < t.matrix.rows && col < t.matrix.cols,
        t.matrix.has(row, col) <==> row < t.matrix.rows && col < t.matrix.cols,
{
}

} // verus!
