//! What a caller hands over to have a tree drawn.

use vstd::prelude::*;
use crate::presence::{can_draw, drawable};
use crate::{fmt, render};

verus! {

/// Configuration for drawing a flat tree.
#[derive(Debug)]
pub struct Options {
    /// Nodes that are part of the flat tree, for example `0 1 2 3 7 8 9 10`.
    pub tree: Vec<usize>,
}

impl Options {
    /// Draws the tree of these options. There is no text where an index is
    /// too large to be drawn.
    pub fn to_text(&self) -> (text: Option<String>)
        ensures
            text is Some <==> drawable(self.tree@),
            text is Some ==> text.unwrap()@ == render(self.tree@),
    {
        if can_draw(self.tree.as_slice()) {
            Some(fmt(self.tree.as_slice()))
        } else {
            None
        }
    }
}

} // verus!
