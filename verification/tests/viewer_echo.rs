use tze_hud_compositor::echo_text::{
    viewer_echo_display_text, viewer_echo_entry_texts, viewer_echo_joined_text,
    viewer_echo_timestamp_byte_ranges, viewer_echo_timestamp_prefix,
};
use tze_hud_compositor::scene_id::SceneId;
use tze_hud_compositor::viewer_echo::{
    ViewerEchoAppend, ViewerEchoEntry, ViewerEchoStore, MAX_VIEWER_ECHO_ENTRIES,
};

#[test]
fn append_retains_entries_oldest_first() {
    let mut store = ViewerEchoStore::new();
    let tile = SceneId::from_raw(1);
    store.append(tile, "first".into(), 10);
    store.append(tile, "second".into(), 20);

    let entries = store.entries_for(tile).expect("tile has entries");
    let texts: Vec<&str> = entries.iter().map(|e| e.text.as_str()).collect();
    assert_eq!(
        texts,
        vec!["first", "second"],
        "entries retained oldest-first"
    );
}

#[test]
fn append_evicts_oldest_beyond_bound() {
    let mut store = ViewerEchoStore::new();
    let tile = SceneId::from_raw(1);
    for i in 0..(MAX_VIEWER_ECHO_ENTRIES + 3) {
        store.append(tile, format!("m{i}"), i as u64);
    }
    let entries = store.entries_for(tile).unwrap();
    assert_eq!(
        entries.len(),
        MAX_VIEWER_ECHO_ENTRIES,
        "store stays bounded"
    );
    // Oldest three (m0,m1,m2) evicted; newest survives.
    assert_eq!(entries.front().unwrap().text, "m3");
    assert_eq!(entries.back().unwrap().text, "m10");
}

#[test]
fn drain_queue_moves_pending_appends_into_store() {
    let mut store = ViewerEchoStore::new();
    let tile = SceneId::from_raw(1);
    let mut queue: Vec<ViewerEchoAppend> = Vec::new();
    queue.push(ViewerEchoAppend {
        tile_id: tile,
        text: "hi".into(),
        submitted_at_wall_us: 1,
    });

    store.drain_queue(&mut queue);

    assert_eq!(store.entries_for(tile).unwrap().back().unwrap().text, "hi");
    assert!(
        queue.is_empty(),
        "queue drained after draining into the store"
    );
}

#[test]
fn retain_tiles_drops_dead_tiles() {
    let mut store = ViewerEchoStore::new();
    let live = SceneId::from_raw(1);
    let dead = SceneId::from_raw(2);
    store.append(live, "keep".into(), 1);
    store.append(dead, "drop".into(), 2);

    store.retain_tiles(|tid| tid == live);

    assert!(store.entries_for(live).is_some());
    assert!(store.entries_for(dead).is_none());
}

#[test]
fn entries_for_absent_tile_is_none() {
    let store = ViewerEchoStore::new();
    assert!(store.entries_for(SceneId::from_raw(7)).is_none());
    assert!(store.is_empty());
}

#[test]
fn zero_submitted_at_yields_no_prefix() {
    assert_eq!(viewer_echo_timestamp_prefix(0), None);
}

#[test]
fn nonzero_submitted_at_derives_hh_mm_prefix() {
    let secs_of_day = 12 * 3600 + 34 * 60 + 56;
    let us = secs_of_day as u64 * 1_000_000;
    assert_eq!(viewer_echo_timestamp_prefix(us), Some("12:34  ".to_owned()));
}

#[test]
fn prefix_wraps_at_day_boundary_and_truncates_seconds() {
    let one_day_us = 86_400u64 * 1_000_000;
    let half_past_midnight_us = one_day_us + 30 * 60 * 1_000_000; // +00:30
    assert_eq!(
        viewer_echo_timestamp_prefix(half_past_midnight_us),
        Some("00:30  ".to_owned()),
        "a value past one full day must wrap to the correct time-of-day"
    );
}

#[test]
fn display_text_prefixes_message_when_timestamped() {
    let timestamped = ViewerEchoEntry {
        text: "hello there".to_owned(),
        submitted_at_wall_us: (12 * 3600 + 34 * 60) * 1_000_000,
    };
    assert_eq!(viewer_echo_display_text(&timestamped), "12:34  hello there");

    let untimestamped = ViewerEchoEntry {
        text: "hello there".to_owned(),
        submitted_at_wall_us: 0,
    };
    assert_eq!(
        viewer_echo_display_text(&untimestamped),
        "hello there",
        "a zero (no-timestamp) entry must render its text unchanged"
    );
}

#[test]
fn store_is_not_empty_after_append_and_other_tiles_untouched() {
    let mut store = ViewerEchoStore::new();
    let a = SceneId::from_raw(10);
    let b = SceneId::from_raw(11);
    store.append(a, "one".into(), 0);
    assert!(!store.is_empty());
    for i in 0..20u64 {
        store.append(b, format!("b{i}"), i);
    }
    let ea = store.entries_for(a).unwrap();
    assert_eq!(ea.len(), 1);
    assert_eq!(ea[0].text, "one");
    let eb = store.entries_for(b).unwrap();
    assert_eq!(eb.len(), MAX_VIEWER_ECHO_ENTRIES);
    assert_eq!(eb.back().unwrap().text, "b19");
    assert_eq!(eb.front().unwrap().text, "b12");
}

#[test]
fn drain_queue_applies_appends_in_order_across_tiles() {
    let mut store = ViewerEchoStore::new();
    let a = SceneId::from_raw(1);
    let b = SceneId::from_raw(2);
    let mut queue = vec![
        ViewerEchoAppend { tile_id: a, text: "a1".into(), submitted_at_wall_us: 0 },
        ViewerEchoAppend { tile_id: b, text: "b1".into(), submitted_at_wall_us: 0 },
        ViewerEchoAppend { tile_id: a, text: "a2".into(), submitted_at_wall_us: 0 },
    ];
    store.drain_queue(&mut queue);
    assert!(queue.is_empty());
    let ta: Vec<&str> = store.entries_for(a).unwrap().iter().map(|e| e.text.as_str()).collect();
    assert_eq!(ta, vec!["a1", "a2"]);
    let tb: Vec<&str> = store.entries_for(b).unwrap().iter().map(|e| e.text.as_str()).collect();
    assert_eq!(tb, vec!["b1"]);
}

#[test]
fn retain_tiles_keeping_all_changes_nothing() {
    let mut store = ViewerEchoStore::new();
    let a = SceneId::from_raw(1);
    store.append(a, "x".into(), 5);
    store.retain_tiles(|_| true);
    assert_eq!(store.entries_for(a).unwrap().len(), 1);
    store.retain_tiles(|_| false);
    assert!(store.is_empty());
}

#[test]
fn joined_text_and_prefix_ranges_line_up() {
    let mut store = ViewerEchoStore::new();
    let tile = SceneId::from_raw(3);
    let t1 = (12 * 3600 + 34 * 60) * 1_000_000u64;
    let t2 = (9 * 3600 + 5 * 60) * 1_000_000u64;
    store.append(tile, "héllo".into(), t1);
    store.append(tile, "plain".into(), 0);
    store.append(tile, "bye".into(), t2);

    let texts = viewer_echo_entry_texts(&store, tile).unwrap();
    assert_eq!(texts, vec!["12:34  héllo".to_owned(), "plain".to_owned(), "09:05  bye".to_owned()]);

    let joined = viewer_echo_joined_text(&store, tile).unwrap();
    assert_eq!(joined, "12:34  héllo\nplain\n09:05  bye");

    let ranges = viewer_echo_timestamp_byte_ranges(&store, tile);
    // "12:34  héllo" is 13 bytes (é is two bytes); "plain" 5; separators 1 each.
    assert_eq!(ranges, vec![(0, 7), (20, 27)]);
    for (s, e) in &ranges {
        let slice = &joined[*s..*e];
        assert_eq!(slice.len(), 7);
        assert!(slice.ends_with("  "));
        assert_eq!(&slice[2..3], ":");
    }

    let absent = SceneId::from_raw(99);
    assert!(viewer_echo_joined_text(&store, absent).is_none());
    assert!(viewer_echo_entry_texts(&store, absent).is_none());
    assert!(viewer_echo_timestamp_byte_ranges(&store, absent).is_empty());
}

#[test]
fn prefix_just_before_midnight() {
    let us = (23 * 3600 + 59 * 60 + 59) * 1_000_000u64 + 999_999;
    assert_eq!(viewer_echo_timestamp_prefix(us), Some("23:59  ".to_owned()));
    assert_eq!(viewer_echo_timestamp_prefix(1), Some("00:00  ".to_owned()));
}
