use tze_hud_compositor::canonical::{
    canonical_snapshot, changed_canonical_tile, snapshots_equal, CanonicalTileCandidate, CanonicalSceneSnapshot, CanonicalTextChange,
    CanonicalTextTile, TileBoundsKey,
};
use tze_hud_compositor::identity::{
    eq_ignore_ascii_case, nonempty_identity, renderer_identity, trims_to_empty,
    CompositorAdapterInfo, CompositorError,
};
use tze_hud_compositor::retained::{
    ChangeEfficiencyValidation, ChangeEfficiencyValidationStatus, ChangeMeasurementProvenance,
    RetainedChangeEfficiencyCapture, full_surface_invalidation, plan_headless, same_ascii_glyph_inventory,
    FullSurfaceInvalidation, FullSurfaceInvalidationReason, PartialPresentCapability,
    RetainedPlan, RetainedRenderState, CANONICAL_TILE_COUNT,
};
use tze_hud_compositor::scene_id::SceneId;

/// What the tests record as a capture or diagnostic artifact: the
/// full-surface diagnostic it carries, with the viewport size.
type Artifact = (FullSurfaceInvalidation, u32, u32);

type State = RetainedRenderState<CanonicalSceneSnapshot, Artifact, Artifact>;

fn artifact(reason: FullSurfaceInvalidationReason) -> Artifact {
    (
        full_surface_invalidation(reason, PartialPresentCapability::Supported),
        1_000,
        500,
    )
}

fn tile(id: u128, content: &str) -> CanonicalTextTile {
    CanonicalTextTile {
        tile_id: SceneId::from_raw(id),
        node_id: SceneId::from_raw(1_000 + id),
        tile_bounds: TileBoundsKey { x: id as u32 * 20, y: 0, width: 20, height: 20 },
        content: content.to_string(),
        style: "size=14;color=#ffffff".to_string(),
    }
}

fn snapshot(width: u32, height: u32, contents: &[&str]) -> CanonicalSceneSnapshot {
    CanonicalSceneSnapshot {
        viewport_width: width,
        viewport_height: height,
        tiles: contents.iter().enumerate().map(|(i, c)| tile(i as u128, c)).collect(),
    }
}

#[test]
fn new_observation_clears_prior_frame_capture_and_diagnostic() {
    let mut state: State = RetainedRenderState::new();
    state.set_latest_capture(artifact(FullSurfaceInvalidationReason::SurfaceCreation));
    state.set_latest_diagnostic(artifact(FullSurfaceInvalidationReason::Resize));
    state.set_pending_full_surface_diagnostic(Some(full_surface_invalidation(
        FullSurfaceInvalidationReason::DeviceRecovery,
        PartialPresentCapability::Supported,
    )));

    state.begin_observation_frame();

    assert!(state.take_latest_capture().is_none());
    assert!(state.take_latest_diagnostic().is_none());
    assert!(state.take_pending_full_surface_diagnostic().is_none());
}

#[test]
fn device_recovery_invalidates_the_private_snapshot() {
    let mut state: State = RetainedRenderState::new();
    state.snapshot = Some(CanonicalSceneSnapshot {
        viewport_width: 1_000,
        viewport_height: 500,
        tiles: vec![],
    });

    state.note_device_recovery();

    assert!(state.snapshot.is_none());
    assert!(state.device_recovery_pending);
}

#[test]
fn evidence_slots_take_once() {
    let mut state: State = RetainedRenderState::new();
    state.set_latest_capture(artifact(FullSurfaceInvalidationReason::Resize));
    let taken = state.take_latest_capture().expect("capture stored");
    assert_eq!(taken.0.reason, FullSurfaceInvalidationReason::Resize);
    assert_eq!((taken.1, taken.2), (1_000, 500));
    assert!(state.take_latest_capture().is_none());

    state.set_latest_diagnostic(artifact(FullSurfaceInvalidationReason::SurfaceCreation));
    state.clear_observed_evidence();
    assert!(state.take_latest_diagnostic().is_none());
}

#[test]
fn full_frame_resolves_device_recovery_and_records_baseline() {
    let mut state: State = RetainedRenderState::new();
    state.note_device_recovery();
    state.remember_full_headless_scene(Some(snapshot(1_000, 500, &["a"])));
    assert!(!state.device_recovery_pending);
    assert!(state.snapshot.is_some());
    state.forget_snapshot();
    assert!(state.snapshot.is_none());
    state.complete_partial(snapshot(1_000, 500, &["b"]));
    assert_eq!(state.snapshot.as_ref().map(|s| s.tiles[0].content.as_str()), Some("b"));
}

fn diagnostic_reason<C>(plan: &RetainedPlan<C>) -> Option<FullSurfaceInvalidationReason> {
    match plan {
        RetainedPlan::FullFrame { diagnostic: Some(d) } => Some(d.reason),
        _ => None,
    }
}

#[test]
fn planner_decisions_in_precedence_order() {
    let p = plan_headless(true, true, true, false, false, Some(7u8));
    assert_eq!(diagnostic_reason(&p), Some(FullSurfaceInvalidationReason::DeviceRecovery));
    let p = plan_headless(false, false, true, false, false, Some(7u8));
    assert_eq!(diagnostic_reason(&p), Some(FullSurfaceInvalidationReason::SurfaceCreation));
    let p = plan_headless(false, false, false, false, false, Some(7u8));
    assert_eq!(p, RetainedPlan::FullFrame { diagnostic: None });
    let p = plan_headless(false, true, false, false, false, Some(7u8));
    assert_eq!(
        diagnostic_reason(&p),
        Some(FullSurfaceInvalidationReason::UnsupportedRetainedSceneChange)
    );
    let p = plan_headless(false, true, true, true, false, Some(7u8));
    assert_eq!(diagnostic_reason(&p), Some(FullSurfaceInvalidationReason::Resize));
    let p = plan_headless(false, true, true, false, true, Some(7u8));
    assert_eq!(p, RetainedPlan::FullFrame { diagnostic: None });
    let p = plan_headless(false, true, true, false, false, Some(7u8));
    assert_eq!(p, RetainedPlan::Partial(7u8));
    let p = plan_headless::<u8>(false, true, true, false, false, None);
    assert_eq!(
        diagnostic_reason(&p),
        Some(FullSurfaceInvalidationReason::UnsupportedRetainedSceneChange)
    );
}

#[test]
fn full_surface_diagnostics_keep_reason_and_capability() {
    for (reason, capability) in [
        (FullSurfaceInvalidationReason::Resize, PartialPresentCapability::Supported),
        (FullSurfaceInvalidationReason::DeviceRecovery, PartialPresentCapability::Supported),
        (
            FullSurfaceInvalidationReason::UnsupportedPartialPresentBackend,
            PartialPresentCapability::Unsupported,
        ),
        (
            FullSurfaceInvalidationReason::UnsupportedRetainedSceneChange,
            PartialPresentCapability::Supported,
        ),
    ] {
        let d = full_surface_invalidation(reason, capability);
        assert_eq!(d.reason, reason);
        assert_eq!(d.partial_present_capability, capability);
    }
    assert_eq!(CANONICAL_TILE_COUNT, 50);
}

#[test]
fn glyph_inventory_compares_byte_sets() {
    assert!(same_ascii_glyph_inventory("abc", "cab"));
    assert!(same_ascii_glyph_inventory("aabbc", "cba"));
    assert!(same_ascii_glyph_inventory("", ""));
    assert!(!same_ascii_glyph_inventory("abc", "abd"));
    assert!(!same_ascii_glyph_inventory("abc", "ab"));
    assert!(!same_ascii_glyph_inventory("", "a"));
}

#[test]
fn one_changed_tile_is_found() {
    let before = snapshot(1_000, 500, &["abc", "hello", "xyz"]);
    let after = snapshot(1_000, 500, &["abc", "olleh", "xyz"]);
    let changed = changed_canonical_tile(&before, &after).expect("one tile changed");
    assert_eq!(changed.tile_id, SceneId::from_raw(1));
    assert_eq!(changed.content, "olleh");
}

#[test]
fn unchanged_or_multiply_changed_snapshots_have_no_single_change() {
    let before = snapshot(1_000, 500, &["abc", "hello", "xyz"]);
    assert!(changed_canonical_tile(&before, &snapshot(1_000, 500, &["abc", "hello", "xyz"])).is_none());
    assert!(changed_canonical_tile(&before, &snapshot(1_000, 500, &["cab", "olleh", "xyz"])).is_none());
    assert!(changed_canonical_tile(&before, &snapshot(1_000, 500, &["abc", "hello"])).is_none());
}

#[test]
fn new_glyphs_or_moved_tiles_are_not_retained_changes() {
    let before = snapshot(1_000, 500, &["abc", "hello"]);
    // A new glyph ('!') needs a fresh glyph upload.
    assert!(changed_canonical_tile(&before, &snapshot(1_000, 500, &["abc", "hello!"])).is_none());
    // A moved tile.
    let mut moved = snapshot(1_000, 500, &["abc", "olleh"]);
    moved.tiles[0].tile_bounds.y = 5;
    assert!(changed_canonical_tile(&before, &moved).is_none());
    // A restyled tile.
    let mut restyled = snapshot(1_000, 500, &["abc", "olleh"]);
    restyled.tiles[0].style = "size=16".to_string();
    assert!(changed_canonical_tile(&before, &restyled).is_none());
}

#[test]
fn snapshot_equality_covers_viewport_and_tiles() {
    let a = snapshot(1_000, 500, &["abc", "hello"]);
    assert!(snapshots_equal(&a, &snapshot(1_000, 500, &["abc", "hello"])));
    assert!(!snapshots_equal(&a, &snapshot(1_001, 500, &["abc", "hello"])));
    assert!(!snapshots_equal(&a, &snapshot(1_000, 500, &["abc", "hellp"])));
    assert!(!snapshots_equal(&a, &snapshot(1_000, 500, &["abc"])));
}

fn partial(plan: RetainedPlan<CanonicalTextChange>) -> Option<CanonicalTextChange> {
    match plan {
        RetainedPlan::Partial(c) => Some(c),
        RetainedPlan::FullFrame { .. } => None,
    }
}

#[test]
fn snapshot_planner_serves_a_single_text_change_partially() {
    let mut state: State = RetainedRenderState::new();
    let first = state.plan_headless(Some(snapshot(1_000, 500, &["abc", "hello"])));
    assert_eq!(
        diagnostic_reason(&first),
        Some(FullSurfaceInvalidationReason::SurfaceCreation)
    );
    state.remember_full_headless_scene(Some(snapshot(1_000, 500, &["abc", "hello"])));

    let change = partial(state.plan_headless(Some(snapshot(1_000, 500, &["abc", "lehol"]))))
        .expect("partial redraw");
    assert_eq!(change.changed.tile_id, SceneId::from_raw(1));
    assert_eq!(change.changed.content, "lehol");
    assert_eq!(change.next_snapshot.tiles.len(), 2);

    let same = state.plan_headless(Some(snapshot(1_000, 500, &["abc", "hello"])));
    assert!(matches!(same, RetainedPlan::FullFrame { diagnostic: None }));

    let resized = state.plan_headless(Some(snapshot(800, 500, &["abc", "hello"])));
    assert_eq!(diagnostic_reason(&resized), Some(FullSurfaceInvalidationReason::Resize));

    let dropped = state.plan_headless(None);
    assert_eq!(
        diagnostic_reason(&dropped),
        Some(FullSurfaceInvalidationReason::UnsupportedRetainedSceneChange)
    );

    state.note_device_recovery();
    let recovery = state.plan_headless(Some(snapshot(1_000, 500, &["abc", "hello"])));
    assert_eq!(diagnostic_reason(&recovery), Some(FullSurfaceInvalidationReason::DeviceRecovery));
}

#[test]
fn blank_identities_fall_back() {
    assert!(trims_to_empty(""));
    assert!(trims_to_empty(" \t\n\u{3000}"));
    assert!(!trims_to_empty(" x "));
    assert_eq!(nonempty_identity("  ", "unknown-backend"), "unknown-backend");
    assert_eq!(nonempty_identity("", "fallback"), "fallback");
    assert_eq!(nonempty_identity(" Vulkan ", "unknown-backend"), " Vulkan ");
}

#[test]
fn renderer_identity_marks_cpu_devices_as_software() {
    let info = CompositorAdapterInfo {
        name: "llvmpipe".to_string(),
        backend: "Vulkan".to_string(),
        device_type: "Cpu".to_string(),
        driver: String::new(),
        driver_info: String::new(),
        vendor: 0,
        device: 0,
    };
    let id = renderer_identity(&info);
    assert_eq!(id.backend, "Vulkan");
    assert_eq!(id.adapter, "llvmpipe");
    assert!(id.software);

    let gpu = CompositorAdapterInfo {
        name: " ".to_string(),
        backend: String::new(),
        device_type: "DiscreteGpu".to_string(),
        ..info
    };
    let id = renderer_identity(&gpu);
    assert_eq!(id.backend, "unknown-backend");
    assert_eq!(id.adapter, "unknown-adapter");
    assert!(!id.software);
}

#[test]
fn ascii_case_folding_only() {
    assert!(eq_ignore_ascii_case("CPU", "cpu"));
    assert!(eq_ignore_ascii_case("", ""));
    assert!(!eq_ignore_ascii_case("cpus", "cpu"));
    assert!(!eq_ignore_ascii_case("É", "é"));
}

#[test]
fn compositor_error_messages() {
    assert_eq!(CompositorError::NoAdapter.message(), "no suitable GPU adapter found");
    assert_eq!(
        CompositorError::DeviceCreation("out of memory".to_string()).message(),
        "failed to create device: out of memory"
    );
}

fn candidate(id: u128) -> CanonicalTileCandidate {
    CanonicalTileCandidate {
        tile_id: SceneId::from_raw(id),
        tile_bounds: TileBoundsKey { x: id as u32, y: 0, width: 1, height: 1 },
        opaque_inside_viewport: true,
        root_node: Some(SceneId::from_raw(10_000 + id)),
        root_found: true,
        root_has_children: false,
        is_markdown_text: true,
        content: format!("tile {id}"),
        style: "size=14".to_string(),
        has_background: false,
        has_color_runs: false,
        overflow_clip: true,
        text_inside_tile: true,
    }
}

fn fifty_reversed() -> Vec<CanonicalTileCandidate> {
    (0..CANONICAL_TILE_COUNT as u128).rev().map(candidate).collect()
}

#[test]
fn canonical_scene_is_admitted_with_tiles_by_id() {
    let snap = canonical_snapshot(1_000, 500, true, 50, fifty_reversed(), false)
        .expect("canonical scene");
    assert_eq!((snap.viewport_width, snap.viewport_height), (1_000, 500));
    assert_eq!(snap.tiles.len(), 50);
    for (i, t) in snap.tiles.iter().enumerate() {
        assert_eq!(t.tile_id, SceneId::from_raw(i as u128));
        assert_eq!(t.node_id, SceneId::from_raw(10_000 + i as u128));
        assert_eq!(t.content, format!("tile {i}"));
    }
}

#[test]
fn non_canonical_scenes_are_refused() {
    assert!(canonical_snapshot(0, 500, true, 50, fifty_reversed(), false).is_none());
    assert!(canonical_snapshot(1_000, 0, true, 50, fifty_reversed(), false).is_none());
    assert!(canonical_snapshot(1_000, 500, false, 50, fifty_reversed(), false).is_none());
    assert!(canonical_snapshot(1_000, 500, true, 51, fifty_reversed(), false).is_none());
    assert!(canonical_snapshot(1_000, 500, true, 50, fifty_reversed(), true).is_none());
    let mut short = fifty_reversed();
    short.pop();
    assert!(canonical_snapshot(1_000, 500, true, 50, short, false).is_none());

    let refusals: Vec<fn(&mut CanonicalTileCandidate)> = vec![
        |c| c.opaque_inside_viewport = false,
        |c| c.root_node = None,
        |c| c.root_found = false,
        |c| c.root_has_children = true,
        |c| c.is_markdown_text = false,
        |c| c.content = String::new(),
        |c| c.content = "naïve".to_string(),
        |c| c.has_background = true,
        |c| c.has_color_runs = true,
        |c| c.overflow_clip = false,
        |c| c.text_inside_tile = false,
    ];
    for spoil in refusals {
        let mut cs = fifty_reversed();
        spoil(&mut cs[7]);
        assert!(canonical_snapshot(1_000, 500, true, 50, cs, false).is_none());
    }
}

fn report(contract_satisfied: bool, status: ChangeEfficiencyValidationStatus) -> ChangeEfficiencyValidation {
    ChangeEfficiencyValidation { passed: false, contract_satisfied, status }
}

#[test]
fn only_valid_retained_observations_are_certified() {
    let retained = RetainedChangeEfficiencyCapture {
        measurement_provenance: ChangeMeasurementProvenance::ObservedRetainedRuntime,
    };
    let pending = ChangeEfficiencyValidationStatus::PendingRuntimeInstrumentation;
    let certified = retained.validate(report(true, pending));
    assert!(certified.passed);
    assert_eq!(certified.status, ChangeEfficiencyValidationStatus::CertifiedRetainedRuntime);
    assert!(certified.contract_satisfied);

    assert_eq!(retained.validate(report(false, pending)), report(false, pending));
    let diag = ChangeEfficiencyValidationStatus::DiagnosticFullSurface;
    assert_eq!(retained.validate(report(true, diag)), report(true, diag));

    let full = RetainedChangeEfficiencyCapture {
        measurement_provenance: ChangeMeasurementProvenance::ObservedFullFrameRuntime,
    };
    assert_eq!(full.validate(report(true, pending)), report(true, pending));
}

#[test]
fn canonical_tiles_come_out_in_strictly_ascending_id() {
    let snap = canonical_snapshot(1_000, 500, true, 50, fifty_reversed(), false).expect("canonical");
    for w in snap.tiles.windows(2) {
        assert!(w[0].tile_id.raw < w[1].tile_id.raw);
    }
}
