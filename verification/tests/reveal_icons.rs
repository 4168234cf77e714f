use tze_hud_compositor::icon_cache::{IconFailureCache, IconLoadDecision};
use tze_hud_compositor::images::ResourceId;
use tze_hud_compositor::reveal_fade::{covering_run_index, reveal_slice_bounds};

fn rid(b: u8) -> ResourceId {
    ResourceId { bytes: [b; 32] }
}

#[test]
fn failed_icon_is_not_retried_until_cleared() {
    let mut cache = IconFailureCache::new();
    assert_eq!(cache.decide(&rid(1), false), IconLoadDecision::Load);
    cache.record_failure(rid(1));
    cache.record_failure(rid(1));
    assert_eq!(cache.decide(&rid(1), false), IconLoadDecision::KnownFailure);
    assert_eq!(cache.decide(&rid(2), false), IconLoadDecision::Load);
    assert_eq!(cache.decide(&rid(1), true), IconLoadDecision::Cached);
    assert!(cache.contains(&rid(1)));
    cache.clear();
    assert!(!cache.contains(&rid(1)));
    assert_eq!(cache.decide(&rid(1), false), IconLoadDecision::Load);
}

#[test]
fn slice_bounds_merge_candidates_in_order() {
    // "old new1 new2": reveal from 4, breakpoints at 9 and 13.
    let text = "old new1 new2";
    let bounds = reveal_slice_bounds(text, 4, &[9, 13], &[(0, 3), (4, 8)]);
    assert_eq!(bounds, vec![0, 3, 4, 8, 9, 13]);
}

#[test]
fn slice_bounds_clamp_and_skip_mid_char_offsets() {
    // 'é' occupies bytes 1..3.
    let text = "aéb";
    let bounds = reveal_slice_bounds(text, 2, &[1, 99, 3], &[(0, 2)]);
    assert_eq!(bounds, vec![0, 1, 3, 4]);
}

#[test]
fn slice_bounds_of_a_single_slice() {
    assert_eq!(reveal_slice_bounds("x", 0, &[], &[]), vec![0, 1]);
}

#[test]
fn last_covering_run_wins() {
    let runs = [(0, 5), (2, 4), (6, 9)];
    assert_eq!(covering_run_index(&runs, 3), Some(1));
    assert_eq!(covering_run_index(&runs, 0), Some(0));
    assert_eq!(covering_run_index(&runs, 4), Some(0));
    assert_eq!(covering_run_index(&runs, 5), None);
    assert_eq!(covering_run_index(&runs, 8), Some(2));
    assert_eq!(covering_run_index(&[], 0), None);
}

#[test]
fn failed_load_is_recorded_and_not_retried() {
    let mut cache = IconFailureCache::new();
    let d = cache.decide(&rid(4), false);
    assert_eq!(d, IconLoadDecision::Load);
    assert!(!cache.finish_request(rid(4), d, false));
    assert_eq!(cache.decide(&rid(4), false), IconLoadDecision::KnownFailure);
    assert!(!cache.finish_request(rid(4), IconLoadDecision::KnownFailure, true));

    let d = cache.decide(&rid(5), false);
    assert!(cache.finish_request(rid(5), d, true));
    assert!(!cache.contains(&rid(5)));
    assert!(cache.finish_request(rid(5), IconLoadDecision::Cached, false));
    assert!(!cache.contains(&rid(5)));
}
