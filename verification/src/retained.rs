//! Compositor-private retained state of the canonical headless evidence lane:
//! the invalidation planner's decision, the single-frame evidence slots, and
//! the renderer identity recorded in efficiency artifacts.

use vstd::prelude::*;
use vstd::utf8::encode_utf8;

verus! {

broadcast use vstd::slice::group_slice_axioms;

/// Number of tiles in the canonical headless scene.
pub const CANONICAL_TILE_COUNT: usize = 50;

/// Why a frame fell back to a full-surface redraw.
#[derive(Clone, Copy, Debug, PartialEq, Eq, Structural)]
pub enum FullSurfaceInvalidationReason {
    /// The surface was just created: no retained baseline exists yet.
    SurfaceCreation,
    /// The viewport size changed.
    Resize,
    /// The GPU device was recovered.
    DeviceRecovery,
    /// The backend cannot present partial damage.
    UnsupportedPartialPresentBackend,
    /// The scene change is outside what the retained lane handles.
    UnsupportedRetainedSceneChange,
}

/// Whether the presentation backend supports partial present.
#[derive(Clone, Copy, Debug, PartialEq, Eq, Structural)]
pub enum PartialPresentCapability {
    Supported,
    Unsupported,
}

/// A structured full-surface invalidation diagnostic.
#[derive(Clone, Copy, Debug, PartialEq, Eq, Structural)]
pub struct FullSurfaceInvalidation {
    pub reason: FullSurfaceInvalidationReason,
    pub partial_present_capability: PartialPresentCapability,
}

/// Build a full-surface invalidation diagnostic.
pub fn full_surface_invalidation(
    reason: FullSurfaceInvalidationReason,
    partial_present_capability: PartialPresentCapability,
) -> (d: FullSurfaceInvalidation)
    ensures
        d.reason == reason,
        d.partial_present_capability == partial_present_capability,
{
    FullSurfaceInvalidation { reason, partial_present_capability }
}

/// The planner's decision for one headless frame: a scoped partial redraw of
/// the single changed tile, or a full frame with an optional diagnostic.
#[derive(Debug, PartialEq, Eq)]
pub enum RetainedPlan<C> {
    Partial(C),
    FullFrame { diagnostic: Option<FullSurfaceInvalidation> },
}

/// A full frame carrying a diagnostic with the given reason (partial present
/// supported).
pub open spec fn full_frame_for<C>(reason: FullSurfaceInvalidationReason) -> RetainedPlan<C> {
    RetainedPlan::FullFrame {
        diagnostic: Some(
            FullSurfaceInvalidation {
                reason,
                partial_present_capability: PartialPresentCapability::Supported,
            },
        ),
    }
}

/// The retained planner's decision.
///
/// - A pending device recovery always redraws fully (`DeviceRecovery`).
/// - Without a baseline: a canonical scene redraws fully (`SurfaceCreation`),
///   any other scene redraws fully without a diagnostic.
/// - With a baseline: a non-canonical scene redraws fully
///   (`UnsupportedRetainedSceneChange`); a changed viewport redraws fully
///   (`Resize`); an unchanged snapshot redraws fully without a diagnostic; a
///   change confined to one tile's text redraws that tile only; any other
///   change redraws fully (`UnsupportedRetainedSceneChange`).
pub open spec fn retained_plan<C>(
    device_recovery_pending: bool,
    has_baseline: bool,
    next_is_canonical: bool,
    viewport_changed: bool,
    snapshot_unchanged: bool,
    single_changed_tile: Option<C>,
) -> RetainedPlan<C> {
    if device_recovery_pending {
        full_frame_for(FullSurfaceInvalidationReason::DeviceRecovery)
    } else if !has_baseline {
        if next_is_canonical {
            full_frame_for(FullSurfaceInvalidationReason::SurfaceCreation)
        } else {
            RetainedPlan::FullFrame { diagnostic: None }
        }
    } else if !next_is_canonical {
        full_frame_for(FullSurfaceInvalidationReason::UnsupportedRetainedSceneChange)
    } else if viewport_changed {
        full_frame_for(FullSurfaceInvalidationReason::Resize)
    } else if snapshot_unchanged {
        RetainedPlan::FullFrame { diagnostic: None }
    } else {
        match single_changed_tile {
            Some(c) => RetainedPlan::Partial(c),
            None => full_frame_for(FullSurfaceInvalidationReason::UnsupportedRetainedSceneChange),
        }
    }
}

/// Plan one headless frame from the comparison of the private baseline
/// snapshot with the snapshot of the scene about to be rendered (see
/// [`retained_plan`]).
pub fn plan_headless<C>(
    device_recovery_pending: bool,
    has_baseline: bool,
    next_is_canonical: bool,
    viewport_changed: bool,
    snapshot_unchanged: bool,
    single_changed_tile: Option<C>,
) -> (plan: RetainedPlan<C>)
    ensures
        plan == retained_plan(
            device_recovery_pending,
            has_baseline,
            next_is_canonical,
            viewport_changed,
            snapshot_unchanged,
            single_changed_tile,
        ),
{
    let supported = PartialPresentCapability::Supported;
    if device_recovery_pending {
        return RetainedPlan::FullFrame {
            diagnostic: Some(
                full_surface_invalidation(FullSurfaceInvalidationReason::DeviceRecovery, supported),
            ),
        };
    }
    if !has_baseline {
        if next_is_canonical {
            return RetainedPlan::FullFrame {
                diagnostic: Some(
                    full_surface_invalidation(
                        FullSurfaceInvalidationReason::SurfaceCreation,
                        supported,
                    ),
                ),
            };
        }
        return RetainedPlan::FullFrame { diagnostic: None };
    }
    if !next_is_canonical {
        return RetainedPlan::FullFrame {
            diagnostic: Some(
                full_surface_invalidation(
                    FullSurfaceInvalidationReason::UnsupportedRetainedSceneChange,
                    supported,
                ),
            ),
        };
    }
    if viewport_changed {
        return RetainedPlan::FullFrame {
            diagnostic: Some(
                full_surface_invalidation(FullSurfaceInvalidationReason::Resize, supported),
            ),
        };
    }
    if snapshot_unchanged {
        return RetainedPlan::FullFrame { diagnostic: None };
    }
    match single_changed_tile {
        Some(c) => RetainedPlan::Partial(c),
        None => RetainedPlan::FullFrame {
            diagnostic: Some(
                full_surface_invalidation(
                    FullSurfaceInvalidationReason::UnsupportedRetainedSceneChange,
                    supported,
                ),
            ),
        },
    }
}

/// A partial redraw is planned only from an established, undisturbed
/// baseline of the same viewport whose snapshot changed in exactly one tile.
pub proof fn law_partial_only_from_clean_baseline<C>(
    device_recovery_pending: bool,
    has_baseline: bool,
    next_is_canonical: bool,
    viewport_changed: bool,
    snapshot_unchanged: bool,
    single_changed_tile: Option<C>,
)
    ensures
        retained_plan(
            device_recovery_pending,
            has_baseline,
            next_is_canonical,
            viewport_changed,
            snapshot_unchanged,
            single_changed_tile,
        ) is Partial ==> !device_recovery_pending && has_baseline && next_is_canonical
            && !viewport_changed && !snapshot_unchanged && single_changed_tile is Some,
{
}

/// A pending device recovery always redraws the full surface with a
/// `DeviceRecovery` diagnostic, whatever the scenes compare to.
pub proof fn law_device_recovery_redraws_fully<C>(
    has_baseline: bool,
    next_is_canonical: bool,
    viewport_changed: bool,
    snapshot_unchanged: bool,
    single_changed_tile: Option<C>,
)
    ensures
        retained_plan(
            true,
            has_baseline,
            next_is_canonical,
            viewport_changed,
            snapshot_unchanged,
            single_changed_tile,
        ) == full_frame_for::<C>(FullSurfaceInvalidationReason::DeviceRecovery),
{
}

/// Status of a change-efficiency validation report.
#[derive(Clone, Copy, Debug, PartialEq, Eq, Structural)]
pub enum ChangeEfficiencyValidationStatus {
    /// The artifact satisfies its contract but awaits runtime certification.
    PendingRuntimeInstrumentation,
    /// A scoped retained observation, certified.
    CertifiedRetainedRuntime,
    /// A full-surface diagnostic: never a passing observation.
    DiagnosticFullSurface,
    /// Any other status the artifact validation reports.
    OtherStatus,
}

/// How an artifact's measurements were obtained.
#[derive(Clone, Copy, Debug, PartialEq, Eq, Structural)]
pub enum ChangeMeasurementProvenance {
    /// Observed on the retained (partial redraw) path.
    ObservedRetainedRuntime,
    /// Observed on a full-frame redraw.
    ObservedFullFrameRuntime,
    /// Any other provenance.
    OtherProvenance,
}

/// What a change-efficiency validation reports.
#[derive(Clone, Copy, Debug, PartialEq, Eq, Structural)]
pub struct ChangeEfficiencyValidation {
    pub passed: bool,
    pub contract_satisfied: bool,
    pub status: ChangeEfficiencyValidationStatus,
}

/// The certification rule of a retained capture: a contract-satisfying
/// report pending runtime instrumentation, of an observation made on the
/// retained path, passes as certified; any other report is unchanged.
pub open spec fn certified(
    report: ChangeEfficiencyValidation,
    provenance: ChangeMeasurementProvenance,
) -> ChangeEfficiencyValidation {
    if report.contract_satisfied && report.status
        == ChangeEfficiencyValidationStatus::PendingRuntimeInstrumentation && provenance
        == ChangeMeasurementProvenance::ObservedRetainedRuntime {
        ChangeEfficiencyValidation {
            passed: true,
            status: ChangeEfficiencyValidationStatus::CertifiedRetainedRuntime,
            ..report
        }
    } else {
        report
    }
}

/// An observed retained capture: the provenance of its artifact.
#[derive(Clone, Copy, Debug, PartialEq, Eq, Structural)]
pub struct RetainedChangeEfficiencyCapture {
    pub measurement_provenance: ChangeMeasurementProvenance,
}

impl RetainedChangeEfficiencyCapture {
    /// Validate the capture, given the report of its artifact's own
    /// validation: only a contract-valid, scoped retained observation is
    /// upgraded to certified (see [`certified`]).
    pub fn validate(&self, artifact_report: ChangeEfficiencyValidation) -> (report:
        ChangeEfficiencyValidation)
        ensures
            report == certified(artifact_report, self.measurement_provenance),
    {
        let mut report = artifact_report;
        if report.contract_satisfied && report.status
            == ChangeEfficiencyValidationStatus::PendingRuntimeInstrumentation
            && self.measurement_provenance == ChangeMeasurementProvenance::ObservedRetainedRuntime {
            report.passed = true;
            report.status = ChangeEfficiencyValidationStatus::CertifiedRetainedRuntime;
        }
        report
    }
}

/// Certification never turns a full-surface diagnostic or a full-frame
/// observation into a pass it did not already have.
pub proof fn law_full_frame_never_certified(
    report: ChangeEfficiencyValidation,
    provenance: ChangeMeasurementProvenance,
)
    ensures
        (report.status == ChangeEfficiencyValidationStatus::DiagnosticFullSurface || provenance
            != ChangeMeasurementProvenance::ObservedRetainedRuntime) ==> certified(
            report,
            provenance,
        ) == report,
{
}

/// Compositor-private retained state for the canonical headless lane: the
/// private baseline snapshot and the single-frame evidence slots.
pub struct RetainedRenderState<S, C, A> {
    pub snapshot: Option<S>,
    pub pending_full_surface_diagnostic: Option<FullSurfaceInvalidation>,
    pub latest_capture: Option<C>,
    pub latest_diagnostic: Option<A>,
    pub device_recovery_pending: bool,
}

impl<S, C, A> RetainedRenderState<S, C, A> {
    /// No baseline, no evidence, no pending recovery.
    pub fn new() -> (s: Self)
        ensures
            s.snapshot is None,
            s.pending_full_surface_diagnostic is None,
            s.latest_capture is None,
            s.latest_diagnostic is None,
            !s.device_recovery_pending,
    {
        RetainedRenderState {
            snapshot: None,
            pending_full_surface_diagnostic: None,
            latest_capture: None,
            latest_diagnostic: None,
            device_recovery_pending: false,
        }
    }

    /// Record the snapshot of a submitted full frame as the new baseline
    /// (`None` when the scene was not canonical); a pending device recovery
    /// is thereby resolved.
    pub fn remember_full_headless_scene(&mut self, snapshot: Option<S>)
        ensures
            final(self).snapshot == snapshot,
            !final(self).device_recovery_pending,
            final(self).pending_full_surface_diagnostic == old(
                self,
            ).pending_full_surface_diagnostic,
            final(self).latest_capture == old(self).latest_capture,
            final(self).latest_diagnostic == old(self).latest_diagnostic,
    {
        self.snapshot = snapshot;
        self.device_recovery_pending = false;
    }

    /// Drop the baseline.
    pub fn forget_snapshot(&mut self)
        ensures
            final(self).snapshot is None,
            final(self).pending_full_surface_diagnostic == old(
                self,
            ).pending_full_surface_diagnostic,
            final(self).latest_capture == old(self).latest_capture,
            final(self).latest_diagnostic == old(self).latest_diagnostic,
            final(self).device_recovery_pending == old(self).device_recovery_pending,
    {
        self.snapshot = None;
    }

    /// Adopt the snapshot after a completed partial redraw.
    pub fn complete_partial(&mut self, next_snapshot: S)
        ensures
            final(self).snapshot == Some(next_snapshot),
            final(self).pending_full_surface_diagnostic == old(
                self,
            ).pending_full_surface_diagnostic,
            final(self).latest_capture == old(self).latest_capture,
            final(self).latest_diagnostic == old(self).latest_diagnostic,
            final(self).device_recovery_pending == old(self).device_recovery_pending,
    {
        self.snapshot = Some(next_snapshot);
    }

    /// Park the planner's diagnostic until the full-frame observer runs.
    pub fn set_pending_full_surface_diagnostic(
        &mut self,
        diagnostic: Option<FullSurfaceInvalidation>,
    )
        ensures
            final(self).pending_full_surface_diagnostic == diagnostic,
            final(self).snapshot == old(self).snapshot,
            final(self).latest_capture == old(self).latest_capture,
            final(self).latest_diagnostic == old(self).latest_diagnostic,
            final(self).device_recovery_pending == old(self).device_recovery_pending,
    {
        self.pending_full_surface_diagnostic = diagnostic;
    }

    /// Start a new observed frame: every evidence slot of the previous frame
    /// is cleared, including a parked planner diagnostic.
    pub fn begin_observation_frame(&mut self)
        ensures
            final(self).latest_capture is None,
            final(self).latest_diagnostic is None,
            final(self).pending_full_surface_diagnostic is None,
            final(self).snapshot == old(self).snapshot,
            final(self).device_recovery_pending == old(self).device_recovery_pending,
    {
        self.clear_observed_evidence();
        self.pending_full_surface_diagnostic = None;
    }

    /// Clear the capture and diagnostic slots.
    pub fn clear_observed_evidence(&mut self)
        ensures
            final(self).latest_capture is None,
            final(self).latest_diagnostic is None,
            final(self).pending_full_surface_diagnostic == old(
                self,
            ).pending_full_surface_diagnostic,
            final(self).snapshot == old(self).snapshot,
            final(self).device_recovery_pending == old(self).device_recovery_pending,
    {
        self.latest_capture = None;
        self.latest_diagnostic = None;
    }

    /// Take the parked planner diagnostic, leaving the slot empty.
    pub fn take_pending_full_surface_diagnostic(&mut self) -> (d: Option<
        FullSurfaceInvalidation,
    >)
        ensures
            d == old(self).pending_full_surface_diagnostic,
            final(self).pending_full_surface_diagnostic is None,
            final(self).snapshot == old(self).snapshot,
            final(self).latest_capture == old(self).latest_capture,
            final(self).latest_diagnostic == old(self).latest_diagnostic,
            final(self).device_recovery_pending == old(self).device_recovery_pending,
    {
        self.pending_full_surface_diagnostic.take()
    }

    /// Store the capture of this frame.
    pub fn set_latest_capture(&mut self, capture: C)
        ensures
            final(self).latest_capture == Some(capture),
            final(self).snapshot == old(self).snapshot,
            final(self).pending_full_surface_diagnostic == old(
                self,
            ).pending_full_surface_diagnostic,
            final(self).latest_diagnostic == old(self).latest_diagnostic,
            final(self).device_recovery_pending == old(self).device_recovery_pending,
    {
        self.latest_capture = Some(capture);
    }

    /// Take the capture, leaving the slot empty.
    pub fn take_latest_capture(&mut self) -> (c: Option<C>)
        ensures
            c == old(self).latest_capture,
            final(self).latest_capture is None,
            final(self).snapshot == old(self).snapshot,
            final(self).pending_full_surface_diagnostic == old(
                self,
            ).pending_full_surface_diagnostic,
            final(self).latest_diagnostic == old(self).latest_diagnostic,
            final(self).device_recovery_pending == old(self).device_recovery_pending,
    {
        self.latest_capture.take()
    }

    /// Store the diagnostic artifact of this frame.
    pub fn set_latest_diagnostic(&mut self, artifact: A)
        ensures
            final(self).latest_diagnostic == Some(artifact),
            final(self).snapshot == old(self).snapshot,
            final(self).pending_full_surface_diagnostic == old(
                self,
            ).pending_full_surface_diagnostic,
            final(self).latest_capture == old(self).latest_capture,
            final(self).device_recovery_pending == old(self).device_recovery_pending,
    {
        self.latest_diagnostic = Some(artifact);
    }

    /// Take the diagnostic artifact, leaving the slot empty.
    pub fn take_latest_diagnostic(&mut self) -> (a: Option<A>)
        ensures
            a == old(self).latest_diagnostic,
            final(self).latest_diagnostic is None,
            final(self).snapshot == old(self).snapshot,
            final(self).pending_full_surface_diagnostic == old(
                self,
            ).pending_full_surface_diagnostic,
            final(self).latest_capture == old(self).latest_capture,
            final(self).device_recovery_pending == old(self).device_recovery_pending,
    {
        self.latest_diagnostic.take()
    }

    /// Note a device recovery: the baseline is dropped and the next frame
    /// redraws fully with a `DeviceRecovery` diagnostic.
    pub fn note_device_recovery(&mut self)
        ensures
            final(self).device_recovery_pending,
            final(self).snapshot is None,
            final(self).pending_full_surface_diagnostic == old(
                self,
            ).pending_full_surface_diagnostic,
            final(self).latest_capture == old(self).latest_capture,
            final(self).latest_diagnostic == old(self).latest_diagnostic,
    {
        self.device_recovery_pending = true;
        self.snapshot = None;
    }
}

/// The bytes occurring in a UTF-8 text.
pub open spec fn byte_inventory(s: Seq<char>) -> Set<u8> {
    encode_utf8(s).to_set()
}

/// True when both texts use exactly the same set of bytes (their glyph
/// inventory, for ASCII text).
pub fn same_ascii_glyph_inventory(before: &str, after: &str) -> (same: bool)
    ensures
        same == (byte_inventory(before@) == byte_inventory(after@)),
{
    let before_bytes = before.as_bytes();
    let after_bytes = after.as_bytes();
    let a = byte_presence(before_bytes);
    let b = byte_presence(after_bytes);
    assert(before_bytes@.to_set() == byte_inventory(before@));
    assert(after_bytes@.to_set() == byte_inventory(after@));
    let mut v: usize = 0;
    while v < 256
        invariant
            0 <= v <= 256,
            a@.len() == 256,
            b@.len() == 256,
            forall|x: u8| #[trigger] a@[x as int] == byte_inventory(before@).contains(x),
            forall|x: u8| #[trigger] b@[x as int] == byte_inventory(after@).contains(x),
            forall|x: int| 0 <= x < v ==> a@[x] == b@[x],
        decreases 256 - v,
    {
        if a[v] != b[v] {
            proof {
                let x = v as u8;
                assert(x as int == v as int);
                assert(a@[x as int] != b@[x as int]);
                if byte_inventory(before@) == byte_inventory(after@) {
                    assert(byte_inventory(before@).contains(x) == byte_inventory(after@).contains(x));
                }
            }
            return false;
        }
        v = v + 1;
    }
    assert(byte_inventory(before@) =~= byte_inventory(after@)) by {
        assert forall|x: u8| byte_inventory(before@).contains(x) == byte_inventory(after@).contains(
            x,
        ) by {
            assert(a@[x as int] == b@[x as int]);
        }
    }
    true
}

/// A presence table over byte values: entry `x` is true exactly when `x`
/// occurs in `bytes`.
fn byte_presence(bytes: &[u8]) -> (table: Vec<bool>)
    ensures
        table@.len() == 256,
        forall|x: u8| #[trigger] table@[x as int] == bytes@.to_set().contains(x),
{
    let mut table: Vec<bool> = Vec::new();
    let mut v: usize = 0;
    while v < 256
        invariant
            0 <= v <= 256,
            table@.len() == v,
            forall|x: int| 0 <= x < v ==> !table@[x],
        decreases 256 - v,
    {
        table.push(false);
        v = v + 1;
    }
    let n = bytes.len();
    let mut i: usize = 0;
    while i < n
        invariant
            n == bytes@.len(),
            0 <= i <= n,
            table@.len() == 256,
            forall|x: u8| #[trigger] table@[x as int] == bytes@.take(i as int).contains(x),
        decreases n - i,
    {
        let x = bytes[i];
        let ghost prev = table@;
        table.set(x as usize, true);
        assert forall|y: u8| #[trigger] table@[y as int] == bytes@.take(i + 1).contains(y) by {
            let t1 = bytes@.take(i + 1);
            let t0 = bytes@.take(i as int);
            assert(t1[i as int] == x);
            if y != x {
                assert(table@[y as int] == prev[y as int]) by {
                    assert(y as int != x as int);
                }
                if t1.contains(y) {
                    let j = choose|j: int| 0 <= j < t1.len() && t1[j] == y;
                    assert(t0[j] == y);
                }
                if t0.contains(y) {
                    let j = choose|j: int| 0 <= j < t0.len() && t0[j] == y;
                    assert(t1[j] == y);
                }
            }
        }
        i = i + 1;
    }
    assert(bytes@.take(n as int) =~= bytes@);
    assert forall|x: u8| #[trigger] table@[x as int] == bytes@.to_set().contains(x) by {
        assert(bytes@.to_set().contains(x) == bytes@.contains(x));
    }
    table
}

} // verus!
