use tze_hud_compositor::alert_banner::ZonePublishRecord;
use tze_hud_compositor::hit_order::{
    zone_hit_region_order, zone_name_order, zone_slot_order, HitRegionKind, HitRegionTarget,
};

fn rec(urgency: Option<u32>, at: u64) -> ZonePublishRecord {
    ZonePublishRecord { notification_urgency: urgency, published_at_wall_us: at }
}

#[test]
fn regular_zones_show_newest_first() {
    let ps = vec![rec(Some(1), 1), rec(Some(3), 2), rec(None, 3)];
    assert_eq!(zone_slot_order(&ps, false), vec![2, 1, 0]);
    assert_eq!(zone_slot_order(&[], false), Vec::<usize>::new());
}

#[test]
fn alert_banner_shows_severity_first() {
    let ps = vec![rec(Some(1), 1), rec(Some(3), 2), rec(None, 3)];
    assert_eq!(zone_slot_order(&ps, true), vec![1, 0, 2]);
}

#[test]
fn zone_names_in_ascending_order() {
    let names: Vec<String> =
        ["notification-area", "alert-banner", "toast", "alert"].iter().map(|s| s.to_string()).collect();
    let order = zone_name_order(&names);
    let sorted: Vec<&str> = order.iter().map(|&i| names[i].as_str()).collect();
    assert_eq!(sorted, vec!["alert", "alert-banner", "notification-area", "toast"]);
    assert_eq!(zone_name_order(&[]), Vec::<usize>::new());
}

fn t(zone: usize, slot: usize, kind: HitRegionKind, tab_order: u32) -> HitRegionTarget {
    HitRegionTarget { zone, slot, kind, tab_order }
}

#[test]
fn tab_order_numbers_dismiss_then_actions() {
    let zones = vec![vec![Some(2), None, Some(0)], vec![], vec![Some(5)]];
    let regions = zone_hit_region_order(&zones, 3);
    assert_eq!(
        regions,
        vec![
            t(0, 0, HitRegionKind::Dismiss, 0),
            t(0, 0, HitRegionKind::Action(0), 1),
            t(0, 0, HitRegionKind::Action(1), 2),
            t(0, 2, HitRegionKind::Dismiss, 3),
            t(2, 0, HitRegionKind::Dismiss, 4),
            t(2, 0, HitRegionKind::Action(0), 5),
            t(2, 0, HitRegionKind::Action(1), 6),
            t(2, 0, HitRegionKind::Action(2), 7),
        ]
    );
    assert!(zone_hit_region_order(&[vec![None]], 3).is_empty());
}
