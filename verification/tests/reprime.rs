use tze_hud_compositor::reprime::{
    adaptive_reprime_interval_ms, should_defer_reprime, SceneVersionGate, TruncationPrimeDecision,
    TruncationPrimeGate, FORCED_PRIME_VERSION, RESIZE_REPRIME_INTERVAL_LONG_MS,
    RESIZE_REPRIME_INTERVAL_MEDIUM_MS, RESIZE_REPRIME_INTERVAL_SHORT_MS,
};

const MS: u128 = 1_000_000;

#[test]
fn interval_steps_at_content_thresholds() {
    assert_eq!(adaptive_reprime_interval_ms(0), 16);
    assert_eq!(adaptive_reprime_interval_ms(1_023), 16);
    assert_eq!(adaptive_reprime_interval_ms(1_024), 50);
    assert_eq!(adaptive_reprime_interval_ms(16_383), 50);
    assert_eq!(adaptive_reprime_interval_ms(16_384), 100);
    assert_eq!(adaptive_reprime_interval_ms(usize::MAX), 100);
    assert_eq!(RESIZE_REPRIME_INTERVAL_SHORT_MS, 16);
    assert_eq!(RESIZE_REPRIME_INTERVAL_MEDIUM_MS, 50);
    assert_eq!(RESIZE_REPRIME_INTERVAL_LONG_MS, 100);
}

#[test]
fn interval_never_shrinks_as_content_grows() {
    let sizes = [0usize, 1, 500, 1_023, 1_024, 4_000, 16_383, 16_384, 100_000];
    for w in sizes.windows(2) {
        assert!(adaptive_reprime_interval_ms(w[0]) <= adaptive_reprime_interval_ms(w[1]));
    }
}

#[test]
fn defer_only_inside_the_window() {
    assert!(!should_defer_reprime(None, 100));
    assert!(should_defer_reprime(Some(0), 16));
    assert!(should_defer_reprime(Some(16 * MS - 1), 16));
    assert!(!should_defer_reprime(Some(16 * MS), 16));
    assert!(!should_defer_reprime(Some(1_000 * MS), 100));
    assert!(!should_defer_reprime(Some(0), 0));
}

#[test]
fn version_gate_tracks_scene_identity() {
    let mut gate = SceneVersionGate::new();
    assert_eq!(gate.version, FORCED_PRIME_VERSION);
    assert!(!gate.is_current(0, 1));
    assert!(gate.is_forced_for(1));
    gate.record(3, 1);
    assert!(gate.is_current(3, 1));
    assert!(!gate.is_current(4, 1));
    assert!(!gate.is_current(3, 2));
    assert!(!gate.is_forced_for(1));
    assert!(gate.is_forced_for(2));
    gate.force();
    assert!(!gate.is_current(3, 1));
    assert!(gate.is_forced_for(1));
}

#[test]
fn first_prime_is_immediate_and_records_scene() {
    let mut gate = TruncationPrimeGate::new();
    let d = gate.decide(1, 9, Some(0), true);
    assert_eq!(d, TruncationPrimeDecision::Prime);
    assert_eq!(gate.scene.version, 1);
    assert_eq!(gate.scene.instance, Some(9));
}

#[test]
fn unchanged_scene_is_skipped() {
    let mut gate = TruncationPrimeGate::new();
    assert_eq!(gate.decide(1, 9, None, true), TruncationPrimeDecision::Prime);
    assert_eq!(gate.decide(1, 9, Some(0), true), TruncationPrimeDecision::Unchanged);
    assert_eq!(gate.decide(1, 9, Some(10_000 * MS), false), TruncationPrimeDecision::Unchanged);
}

#[test]
fn changed_scene_inside_window_is_deferred_then_primed() {
    let mut gate = TruncationPrimeGate::new();
    assert_eq!(gate.decide(1, 9, None, true), TruncationPrimeDecision::Prime);
    gate.finish_prime(2_000); // medium content: 50 ms cadence
    assert_eq!(gate.decide(2, 9, Some(10 * MS), true), TruncationPrimeDecision::Deferred);
    assert_eq!(gate.scene.version, 1);
    assert_eq!(gate.decide(2, 9, Some(49 * MS), true), TruncationPrimeDecision::Deferred);
    assert_eq!(gate.decide(2, 9, Some(50 * MS), true), TruncationPrimeDecision::Prime);
    assert_eq!(gate.scene.version, 2);
    assert_eq!(gate.content_bytes, 2_000);
}

#[test]
fn forced_and_new_instance_bypass_the_window() {
    let mut gate = TruncationPrimeGate::new();
    assert_eq!(gate.decide(1, 9, None, true), TruncationPrimeDecision::Prime);
    gate.finish_prime(50_000);
    // A different scene instance is primed at once.
    assert_eq!(gate.decide(1, 10, Some(0), true), TruncationPrimeDecision::Prime);
    // A forced prime of the same scene is primed at once.
    gate.force();
    assert_eq!(gate.content_bytes, 50_000);
    assert_eq!(gate.decide(1, 10, Some(0), true), TruncationPrimeDecision::Prime);
}

#[test]
fn missing_rasterizer_leaves_gate_unrecorded() {
    let mut gate = TruncationPrimeGate::new();
    assert_eq!(gate.decide(1, 9, None, false), TruncationPrimeDecision::RasterizerUnavailable);
    assert_eq!(gate.scene.version, FORCED_PRIME_VERSION);
    assert_eq!(gate.scene.instance, None);
    assert_eq!(gate.decide(1, 9, None, true), TruncationPrimeDecision::Prime);
}
