//! Errors raised while building a circuit's shape or assigning its cells.
use vstd::prelude::*;

verus! {

/// A fault in how the shape or assignment API was used.
#[derive(Clone, Copy, Debug, PartialEq, Eq, Structural)]
pub enum Error {
    /// The shape was changed after it was frozen.
    ShapeFrozen,
    /// A column or selector handle that was never allocated, or of the wrong kind.
    UnknownHandle,
    /// A counter of the shape reached its largest value.
    Capacity,
    /// A copy constraint names a column without equality enabled.
    NotEqualityEnabled,
    /// A cell is assigned a second time.
    CellCollision,
    /// A row lies outside the grid.
    RowOutOfRange,
    /// A region was opened while another one is open.
    RegionAlreadyOpen,
    /// A region operation was made with no region open.
    NoOpenRegion,
    /// The lookup tables were loaded a second time.
    TableAlreadyLoaded,
    /// A table write names a column that is not a table column, or a table column got no value.
    TableShapeMismatch,
    /// A table write skips a row.
    TableGap,
    /// A configuration parameter that cannot describe a circuit (a range of zero).
    InvalidParameter,
}

} // verus!
