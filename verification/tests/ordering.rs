use tze_hud_compositor::alert_banner::{
    is_alert_banner_zone, publish_urgency, sort_alert_banner_indices, ZonePublishRecord,
};
use tze_hud_compositor::tile_order::{
    effective_tile_z_order, sort_tiles_with_drag_boost, TileOrderKey, DRAG_Z_ORDER_BOOST,
};

fn notice(urgency: u32, at: u64) -> ZonePublishRecord {
    ZonePublishRecord { notification_urgency: Some(urgency), published_at_wall_us: at }
}

fn other(at: u64) -> ZonePublishRecord {
    ZonePublishRecord { notification_urgency: None, published_at_wall_us: at }
}

#[test]
fn alert_banner_zone_name_is_exact() {
    assert!(is_alert_banner_zone("alert-banner"));
    assert!(!is_alert_banner_zone("alert-banner "));
    assert!(!is_alert_banner_zone("notification-area"));
    assert!(!is_alert_banner_zone(""));
}

#[test]
fn urgency_defaults_to_zero_for_other_content() {
    assert_eq!(publish_urgency(&notice(3, 1)), 3);
    assert_eq!(publish_urgency(&other(1)), 0);
}

#[test]
fn alert_banner_orders_by_severity_then_recency() {
    let ps = vec![notice(1, 100), notice(3, 50), notice(3, 80), other(500), notice(1, 200)];
    assert_eq!(sort_alert_banner_indices(&ps), vec![2, 1, 4, 0, 3]);
}

#[test]
fn alert_banner_exact_ties_put_newer_insert_first() {
    let ps = vec![notice(2, 10), notice(2, 10), notice(2, 10)];
    assert_eq!(sort_alert_banner_indices(&ps), vec![2, 1, 0]);
}

#[test]
fn alert_banner_empty_and_single() {
    assert_eq!(sort_alert_banner_indices(&[]), Vec::<usize>::new());
    assert_eq!(sort_alert_banner_indices(&[other(0)]), vec![0]);
}

#[test]
fn alert_banner_order_is_a_permutation_in_display_order() {
    let ps: Vec<ZonePublishRecord> = (0..12u64)
        .map(|i| if i % 4 == 0 { other(i * 7 % 5) } else { notice((i % 3) as u32, i * 7 % 5) })
        .collect();
    let order = sort_alert_banner_indices(&ps);
    let mut seen = order.clone();
    seen.sort();
    assert_eq!(seen, (0..ps.len()).collect::<Vec<_>>());
    for w in order.windows(2) {
        let (a, b) = (w[0], w[1]);
        let (ua, ub) = (publish_urgency(&ps[a]), publish_urgency(&ps[b]));
        let (ta, tb) = (ps[a].published_at_wall_us, ps[b].published_at_wall_us);
        assert!(ua > ub || (ua == ub && (ta > tb || (ta == tb && a > b))));
    }
}

#[test]
fn drag_boost_applies_only_while_dragged() {
    assert_eq!(DRAG_Z_ORDER_BOOST, 0x1000);
    assert_eq!(effective_tile_z_order(&TileOrderKey { z_order: 5, drag_active: false }), 5);
    assert_eq!(effective_tile_z_order(&TileOrderKey { z_order: 5, drag_active: true }), 0x1005);
    assert_eq!(
        effective_tile_z_order(&TileOrderKey { z_order: u32::MAX - 1, drag_active: true }),
        u32::MAX
    );
}

#[test]
fn dragged_tile_is_painted_last() {
    let tiles = vec![
        TileOrderKey { z_order: 10, drag_active: false },
        TileOrderKey { z_order: 1, drag_active: true },
        TileOrderKey { z_order: 100, drag_active: false },
    ];
    assert_eq!(sort_tiles_with_drag_boost(&tiles), vec![0, 2, 1]);
}

#[test]
fn equal_z_tiles_keep_their_order() {
    let tiles = vec![
        TileOrderKey { z_order: 3, drag_active: false },
        TileOrderKey { z_order: 1, drag_active: false },
        TileOrderKey { z_order: 3, drag_active: false },
        TileOrderKey { z_order: 1, drag_active: false },
    ];
    assert_eq!(sort_tiles_with_drag_boost(&tiles), vec![1, 3, 0, 2]);
}

#[test]
fn saturated_drag_boost_ties_with_top_tile() {
    // A resting tile already at u32::MAX ties with the saturated boost and,
    // coming first, is painted first.
    let tiles = vec![
        TileOrderKey { z_order: u32::MAX, drag_active: false },
        TileOrderKey { z_order: u32::MAX - 2, drag_active: true },
    ];
    assert_eq!(sort_tiles_with_drag_boost(&tiles), vec![0, 1]);
}
