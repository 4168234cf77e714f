//! Stable identities of scene objects (tiles, nodes, tabs).

use vstd::prelude::*;

verus! {

/// Identity of a scene object, held as its 128-bit value.
#[derive(Clone, Copy, Debug, PartialEq, Eq, Hash, PartialOrd, Ord, Structural)]
pub struct SceneId {
    pub raw: u128,
}

impl SceneId {
    /// Wraps a raw 128-bit identity.
    pub fn from_raw(raw: u128) -> (id: SceneId)
        ensures
            id.raw == raw,
    {
        SceneId { raw }
    }
}

} // verus!
