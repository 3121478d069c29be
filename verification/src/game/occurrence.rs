//! A collision event as a game rule sees it.

use vstd::prelude::*;

verus! {

/// A collision event together with what a game rule finds attached to each
/// of its two objects: `found[0]` belongs to `collidees[0]`, `found[1]` to
/// `collidees[1]`, and `None` stands for an object that has nothing of the
/// kind attached.
#[derive(Debug, PartialEq, Eq)]
pub struct Occurrence<P> {
    pub collidees: [u64; 2],
    pub found: [Option<P>; 2],
}

} // verus!
