//! The negative cache of status-bar icon loads: an icon whose SVG could not
//! be read, resolved or rasterised is not tried again until the design-token
//! map changes.

use vstd::prelude::*;

use crate::images::{same_resource, ResourceId};

verus! {

/// What a request for an icon texture does.
#[derive(Clone, Copy, Debug, PartialEq, Eq, Structural)]
pub enum IconLoadDecision {
    /// The texture is already cached: draw it.
    Cached,
    /// An earlier load of this icon failed: draw text only, no I/O.
    KnownFailure,
    /// Read, rasterise and upload the icon.
    Load,
}

/// The decision for an icon (identified by its path-derived resource id).
pub open spec fn icon_decision(failed: Set<Seq<u8>>, id: Seq<u8>, texture_cached: bool) -> IconLoadDecision {
    if texture_cached {
        IconLoadDecision::Cached
    } else if failed.contains(id) {
        IconLoadDecision::KnownFailure
    } else {
        IconLoadDecision::Load
    }
}

/// The failed icons after a request for `id` that took `decision` and,
/// for a load, succeeded or not.
pub open spec fn next_failures(
    failed: Set<Seq<u8>>,
    id: Seq<u8>,
    decision: IconLoadDecision,
    load_succeeded: bool,
) -> Set<Seq<u8>> {
    if decision == IconLoadDecision::Load && !load_succeeded {
        failed.insert(id)
    } else {
        failed
    }
}

/// The icons whose load failed.
pub struct IconFailureCache {
    failed: Vec<ResourceId>,
}

impl View for IconFailureCache {
    type V = Set<Seq<u8>>;

    closed spec fn view(&self) -> Set<Seq<u8>> {
        self.failed@.map_values(|r: ResourceId| r.bytes@).to_set()
    }
}

impl IconFailureCache {
    /// No failed icons.
    pub fn new() -> (c: Self)
        ensures
            c@ == Set::<Seq<u8>>::empty(),
    {
        let c = IconFailureCache { failed: Vec::new() };
        assert(c@ =~= Set::<Seq<u8>>::empty());
        c
    }

    /// Whether `id` is recorded as failed.
    pub fn contains(&self, id: &ResourceId) -> (r: bool)
        ensures
            r == self@.contains(id.bytes@),
    {
        let ghost ids = self.failed@.map_values(|r: ResourceId| r.bytes@);
        let n = self.failed.len();
        let mut i: usize = 0;
        while i < n
            invariant
                n == self.failed@.len(),
                ids == self.failed@.map_values(|r: ResourceId| r.bytes@),
                0 <= i <= n,
                forall|j: int| 0 <= j < i ==> ids[j] != id.bytes@,
            decreases n - i,
        {
            if same_resource(&self.failed[i], id) {
                assert(ids[i as int] == id.bytes@);
                assert(ids.contains(id.bytes@));
                return true;
            }
            i = i + 1;
        }
        proof {
            if ids.contains(id.bytes@) {
                let j = choose|j: int| 0 <= j < ids.len() && ids[j] == id.bytes@;
                assert(ids[j] != id.bytes@);
            }
        }
        false
    }

    /// Decide what a request for the icon `id` does, given whether its
    /// texture is already cached.
    pub fn decide(&self, id: &ResourceId, texture_cached: bool) -> (d: IconLoadDecision)
        ensures
            d == icon_decision(self@, id.bytes@, texture_cached),
    {
        if texture_cached {
            IconLoadDecision::Cached
        } else if self.contains(id) {
            IconLoadDecision::KnownFailure
        } else {
            IconLoadDecision::Load
        }
    }

    /// Record that loading the icon `id` failed.
    pub fn record_failure(&mut self, id: ResourceId)
        ensures
            final(self)@ == old(self)@.insert(id.bytes@),
    {
        if self.contains(&id) {
            assert(self@ =~= self@.insert(id.bytes@));
            return;
        }
        let ghost before = self.failed@;
        self.failed.push(id);
        proof {
            let f = |r: ResourceId| r.bytes@;
            assert(self.failed@.map_values(f) =~= before.map_values(f).push(id.bytes@));
            assert(self.failed@.map_values(f).to_set() =~= before.map_values(f).to_set().insert(
                id.bytes@,
            )) by {
                assert forall|x: Seq<u8>| #[trigger] self.failed@.map_values(f).contains(x)
                    <==> before.map_values(f).contains(x) || x == id.bytes@ by {
                    let s = before.map_values(f);
                    let t = self.failed@.map_values(f);
                    if t.contains(x) {
                        let k = choose|k: int| 0 <= k < t.len() && t[k] == x;
                        if k < s.len() {
                            assert(s[k] == x);
                        }
                    }
                    if s.contains(x) {
                        let k = choose|k: int| 0 <= k < s.len() && s[k] == x;
                        assert(t[k] == x);
                    }
                    if x == id.bytes@ {
                        assert(t[s.len() as int] == x);
                    }
                }
            }
        }
    }

    /// Complete a request for the icon `id` that took `decision`: a load
    /// that failed is recorded, so the icon is not read again. Returns
    /// whether the icon's texture is available to draw.
    pub fn finish_request(&mut self, id: ResourceId, decision: IconLoadDecision, load_succeeded: bool) -> (drawn: bool)
        ensures
            drawn == match decision {
                IconLoadDecision::Cached => true,
                IconLoadDecision::KnownFailure => false,
                IconLoadDecision::Load => load_succeeded,
            },
            final(self)@ == next_failures(old(self)@, id.bytes@, decision, load_succeeded),
    {
        match decision {
            IconLoadDecision::Cached => true,
            IconLoadDecision::KnownFailure => false,
            IconLoadDecision::Load => {
                if !load_succeeded {
                    self.record_failure(id);
                }
                load_succeeded
            },
        }
    }

    /// Forget every failure (the design-token map changed, so icons that
    /// failed on a missing token may now load).
    pub fn clear(&mut self)
        ensures
            final(self)@ == Set::<Seq<u8>>::empty(),
    {
        self.failed = Vec::new();
        assert(self@ =~= Set::<Seq<u8>>::empty());
    }
}

/// A failed icon is not loaded again while its texture is absent, until the
/// failures are cleared; after that it is loaded again.
pub proof fn law_failed_icon_not_retried(failed: Set<Seq<u8>>, id: Seq<u8>)
    ensures
        icon_decision(failed.insert(id), id, false) == IconLoadDecision::KnownFailure,
        icon_decision(
            next_failures(failed, id, icon_decision(failed, id, false), false),
            id,
            false,
        ) == IconLoadDecision::KnownFailure,
        icon_decision(Set::<Seq<u8>>::empty(), id, false) == IconLoadDecision::Load,
{
}

} // verus!
