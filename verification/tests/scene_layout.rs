use std::collections::{HashMap, HashSet};

use tze_hud_compositor::images::{
    image_dims_admissible, rgba_len_matches, same_resource, ImageRegistry, ResourceId,
};
use tze_hud_compositor::layout_lines::{echo_divider_line_offsets, newlines_before};
use tze_hud_compositor::scene_id::SceneId;
use tze_hud_compositor::subtree::{
    collect_subtree_node_ids, portal_markdown_node_ids, TileScopeInfo,
};

fn graph(edges: &[(u128, &[u128])]) -> HashMap<u128, Vec<u128>> {
    edges.iter().map(|(k, v)| (*k, v.to_vec())).collect()
}

fn set(ids: &[u128]) -> HashSet<u128> {
    ids.iter().copied().collect()
}

#[test]
fn subtree_collects_node_and_descendants() {
    let nodes = graph(&[(1, &[2, 3]), (2, &[4]), (3, &[]), (4, &[]), (9, &[10])]);
    let mut out = HashSet::new();
    collect_subtree_node_ids(&nodes, SceneId::from_raw(1), &mut out);
    assert_eq!(out, set(&[1, 2, 3, 4]));
}

#[test]
fn subtree_of_leaf_or_unknown_node_is_itself() {
    let nodes = graph(&[(1, &[2]), (2, &[])]);
    let mut out = HashSet::new();
    collect_subtree_node_ids(&nodes, SceneId::from_raw(2), &mut out);
    assert_eq!(out, set(&[2]));
    let mut out = HashSet::new();
    collect_subtree_node_ids(&nodes, SceneId::from_raw(77), &mut out);
    assert_eq!(out, set(&[77]));
}

#[test]
fn subtree_terminates_on_shared_and_cyclic_children() {
    let nodes = graph(&[(1, &[2, 3]), (2, &[3]), (3, &[1])]);
    let mut out = HashSet::new();
    collect_subtree_node_ids(&nodes, SceneId::from_raw(2), &mut out);
    assert_eq!(out, set(&[1, 2, 3]));
}

#[test]
fn subtree_adds_to_earlier_collections() {
    let nodes = graph(&[(1, &[2]), (2, &[]), (5, &[6]), (6, &[])]);
    let mut out = HashSet::new();
    collect_subtree_node_ids(&nodes, SceneId::from_raw(1), &mut out);
    collect_subtree_node_ids(&nodes, SceneId::from_raw(5), &mut out);
    assert_eq!(out, set(&[1, 2, 5, 6]));
}

#[test]
fn subtree_is_collected_whatever_out_already_holds() {
    // `out` already holds node 2 but not its child 4: the whole subtree of 1
    // is still added.
    let nodes = graph(&[(1, &[2, 3]), (2, &[4]), (3, &[]), (4, &[])]);
    let mut out = set(&[2, 99]);
    collect_subtree_node_ids(&nodes, SceneId::from_raw(1), &mut out);
    assert_eq!(out, set(&[1, 2, 3, 4, 99]));
}

#[test]
fn portal_nodes_come_from_scrollable_tiles_only() {
    let nodes = graph(&[(1, &[2]), (2, &[]), (5, &[6]), (6, &[]), (8, &[])]);
    let tiles = [
        TileScopeInfo { has_scroll_config: true, root_node: Some(SceneId::from_raw(1)) },
        TileScopeInfo { has_scroll_config: false, root_node: Some(SceneId::from_raw(5)) },
        TileScopeInfo { has_scroll_config: true, root_node: None },
        TileScopeInfo { has_scroll_config: true, root_node: Some(SceneId::from_raw(8)) },
    ];
    assert_eq!(portal_markdown_node_ids(&nodes, &tiles), set(&[1, 2, 8]));
    assert_eq!(portal_markdown_node_ids(&nodes, &[]), HashSet::new());
}

#[test]
fn newlines_before_counts_up_to_clamped_offset() {
    let text = "a\nb\n\nc";
    assert_eq!(newlines_before(text, 0), 0);
    assert_eq!(newlines_before(text, 1), 0);
    assert_eq!(newlines_before(text, 2), 1);
    assert_eq!(newlines_before(text, 5), 3);
    assert_eq!(newlines_before(text, 100), 3);
    assert_eq!(newlines_before("é\nx", 3), 1);
    assert_eq!(newlines_before("", 4), 0);
}

#[test]
fn divider_offsets_are_running_line_totals() {
    assert_eq!(echo_divider_line_offsets(&[]), Vec::<usize>::new());
    assert_eq!(echo_divider_line_offsets(&[3]), Vec::<usize>::new());
    assert_eq!(echo_divider_line_offsets(&[2, 1, 3]), vec![2, 3]);
    assert_eq!(echo_divider_line_offsets(&[1, 1, 1, 1]), vec![1, 2, 3]);
}

fn rid(b: u8) -> ResourceId {
    ResourceId { bytes: [b; 32] }
}

#[test]
fn image_dimension_guards() {
    assert!(image_dims_admissible(1, 1));
    assert!(image_dims_admissible(640, 360));
    assert!(!image_dims_admissible(0, 10));
    assert!(!image_dims_admissible(10, 0));
    // The byte count only has to fit in `usize`.
    assert!(image_dims_admissible(65_536, 16_384));
    assert!(image_dims_admissible(65_536, 65_536));
    assert!(image_dims_admissible(u32::MAX, 2));
    assert!(!image_dims_admissible(u32::MAX, u32::MAX));
    assert!(rgba_len_matches(16, 2, 2));
    assert!(!rgba_len_matches(15, 2, 2));
}

#[test]
fn resource_identity_is_bytewise() {
    assert!(same_resource(&rid(1), &rid(1)));
    assert!(!same_resource(&rid(1), &rid(2)));
    let mut a = rid(3);
    a.bytes[31] = 4;
    assert!(!same_resource(&a, &rid(3)));
}

#[test]
fn register_keeps_first_registration() {
    let mut reg = ImageRegistry::new();
    reg.register_image_bytes(rid(1), vec![1, 2, 3, 4], 1, 1);
    reg.register_image_bytes(rid(1), vec![9, 9, 9, 9], 1, 1);
    let e = reg.get(&rid(1)).expect("registered");
    assert_eq!(e.rgba, vec![1, 2, 3, 4]);
    assert_eq!((e.width, e.height), (1, 1));
    assert!(reg.get(&rid(2)).is_none());
}

#[test]
fn register_ignores_degenerate_dimensions() {
    let mut reg = ImageRegistry::new();
    reg.register_image_bytes(rid(1), vec![], 0, 4);
    reg.register_image_bytes(rid(2), vec![], 4, 0);
    reg.register_image_bytes(rid(3), vec![], u32::MAX, u32::MAX);
    assert!(reg.get(&rid(1)).is_none());
    assert!(reg.get(&rid(2)).is_none());
    assert!(reg.get(&rid(3)).is_none());
}

#[test]
fn evict_keeps_only_referenced_images() {
    let mut reg = ImageRegistry::new();
    for b in 1..=4u8 {
        reg.register_image_bytes(rid(b), vec![b; 4], 1, 1);
    }
    reg.evict_unused(&[rid(2), rid(4), rid(9)]);
    assert!(reg.get(&rid(1)).is_none());
    assert_eq!(reg.get(&rid(2)).map(|e| e.rgba.clone()), Some(vec![2; 4]));
    assert!(reg.get(&rid(3)).is_none());
    assert!(reg.get(&rid(4)).is_some());
    reg.evict_unused(&[]);
    assert!(reg.get(&rid(2)).is_none());
    assert!(reg.get(&rid(4)).is_none());
}
