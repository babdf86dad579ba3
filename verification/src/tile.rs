//! The value stored in one grid cell of the world.

use vstd::prelude::*;

verus! {

/// One grid cell's image references.
///
/// `None` on a channel means nothing is drawn on that channel. A tile with
/// both channels `None` is still an explicit tile ("explicitly empty"),
/// which the chunk grid keeps distinct from "no tile recorded here".
#[derive(Clone, Copy, Debug, PartialEq)]
pub struct Tile {
    /// Background image id, e.g. grass, dirt, stone or water.
    pub bg: Option<u16>,
    /// Foreground image id, e.g. a tree or a flower.
    pub fg: Option<u16>,
}

} // verus!
