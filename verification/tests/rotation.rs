use aether_opencode::rotation::{
    alive_keys, cooldown_key, cooldown_ttl_seconds, cursor_key, cursor_text,
    next_rotation_cursor_value,
    peek_rotation_cursor_value, pick_min_inflight_group, plan_exit_ip, plan_slot_rotation, rotate_slots,
    rotate_with_cursor, ExitIpPick, RotationCandidate, SlotRotation, DEFAULT_COOLDOWN_MINUTES,
    ROTATION_CURSOR_TTL_SECONDS,
};

fn candidate(key_id: &str, in_flight: u64) -> RotationCandidate {
    RotationCandidate {
        key_id: key_id.to_string(),
        in_flight,
    }
}

fn strings(items: &[&str]) -> Vec<String> {
    items.iter().map(|s| s.to_string()).collect()
}

#[test]
fn picks_only_the_least_loaded_group() {
    let group = pick_min_inflight_group(&[
        candidate("key-c", 3),
        candidate("key-a", 1),
        candidate("key-b", 1),
    ]);
    assert_eq!(group, vec!["key-a".to_string(), "key-b".to_string()]);
}

#[test]
fn group_is_sorted_regardless_of_input_order() {
    let forward = pick_min_inflight_group(&[
        candidate("key-a", 0),
        candidate("key-b", 0),
        candidate("key-c", 0),
    ]);
    let reversed = pick_min_inflight_group(&[
        candidate("key-c", 0),
        candidate("key-b", 0),
        candidate("key-a", 0),
    ]);
    assert_eq!(forward, reversed);
}

#[test]
fn empty_candidates_yield_empty_group() {
    assert!(pick_min_inflight_group(&[]).is_empty());
    assert_eq!(rotate_with_cursor(&[], 3), None);
}

#[test]
fn all_busy_picks_the_single_busiest_free_slot() {
    let group = pick_min_inflight_group(&[
        candidate("key-a", 9),
        candidate("key-b", 2),
        candidate("key-c", 5),
    ]);
    assert_eq!(group, vec!["key-b".to_string()]);
}

#[test]
fn rotation_visits_every_member_then_wraps() {
    let group = vec![
        "key-a".to_string(),
        "key-b".to_string(),
        "key-c".to_string(),
    ];
    let visited: Vec<String> = (0..7)
        .map(|cursor| rotate_with_cursor(&group, cursor).expect("group is not empty"))
        .collect();
    assert_eq!(
        visited,
        vec!["key-a", "key-b", "key-c", "key-a", "key-b", "key-c", "key-a",]
    );
}

#[test]
fn rotation_is_stable_for_large_cursor() {
    let group = vec!["key-a".to_string(), "key-b".to_string()];
    assert_eq!(
        rotate_with_cursor(&group, u64::MAX),
        rotate_with_cursor(&group, 1)
    );
}

#[test]
fn zero_cursor_selects_first_member() {
    let group = vec!["key-a".to_string(), "key-b".to_string()];
    assert_eq!(rotate_with_cursor(&group, 0), Some("key-a".to_string()));
}

#[test]
fn group_keeps_duplicate_key_ids() {
    let group = pick_min_inflight_group(&[
        candidate("key-b", 0),
        candidate("key-a", 0),
        candidate("key-b", 0),
    ]);
    assert_eq!(group, strings(&["key-a", "key-b", "key-b"]));
}

#[test]
fn store_keys_follow_the_documented_layout() {
    assert_eq!(cursor_key("p1"), "opencode_pool:rotation:cursor:p1");
    assert_eq!(cooldown_key("p1", "k9"), "opencode_pool:cooldown:p1:k9");
    assert_eq!(ROTATION_CURSOR_TTL_SECONDS, 24 * 60 * 60);
    assert_eq!(DEFAULT_COOLDOWN_MINUTES, 60);
}

#[test]
fn cursor_advances_from_stored_value() {
    assert_eq!(next_rotation_cursor_value(None), 1);
    assert_eq!(next_rotation_cursor_value(Some("41")), 42);
    assert_eq!(next_rotation_cursor_value(Some(" 7 \n")), 8);
    assert_eq!(next_rotation_cursor_value(Some("garbage")), 1);
    assert_eq!(next_rotation_cursor_value(Some("18446744073709551615")), 0);
    assert_eq!(peek_rotation_cursor_value(Some("12")), 12);
    assert_eq!(peek_rotation_cursor_value(Some("-1")), 0);
    assert_eq!(peek_rotation_cursor_value(None), 0);
}

#[test]
fn cooldown_ttl_has_a_one_minute_floor() {
    assert_eq!(cooldown_ttl_seconds(0), 60);
    assert_eq!(cooldown_ttl_seconds(1), 60);
    assert_eq!(cooldown_ttl_seconds(45), 2700);
}

#[test]
fn alive_keys_drop_cooling_ones_in_order() {
    let keys = strings(&["a", "b", "c", "d"]);
    let alive = alive_keys(&keys, &[false, true, false, true]);
    assert_eq!(alive, strings(&["a", "c"]));
}

#[test]
fn exit_ip_plan_covers_each_case() {
    match plan_exit_ip(&[], &[]) {
        ExitIpPick::Chosen(None) => {}
        other => panic!("unexpected {other:?}"),
    }
    let pool = strings(&["1.1.1.1", "2.2.2.2", "3.3.3.3"]);
    match plan_exit_ip(&pool, &[true, true, true]) {
        ExitIpPick::Chosen(Some(ip)) => assert_eq!(ip, "1.1.1.1"),
        other => panic!("unexpected {other:?}"),
    }
    match plan_exit_ip(&pool, &[true, false, true]) {
        ExitIpPick::Chosen(Some(ip)) => assert_eq!(ip, "2.2.2.2"),
        other => panic!("unexpected {other:?}"),
    }
    match plan_exit_ip(&pool, &[false, true, false]) {
        ExitIpPick::Rotate(usable) => assert_eq!(usable, strings(&["1.1.1.1", "3.3.3.3"])),
        other => panic!("unexpected {other:?}"),
    }
}

#[test]
fn slots_rotate_by_cursor() {
    let alive = strings(&["k1", "k2", "k3"]);
    assert_eq!(rotate_slots(&alive, 1), Some(strings(&["k2", "k3", "k1"])));
    assert_eq!(rotate_slots(&alive, 3), Some(strings(&["k1", "k2", "k3"])));
    assert_eq!(rotate_slots(&[], 5), None);
}

#[test]
fn slots_rotation_wraps_at_the_cursor_limit() {
    // u64::MAX % 3 == 0, and u64::MAX + 1 wraps to 0: slot 1 repeats k1.
    let alive = strings(&["k1", "k2", "k3"]);
    assert_eq!(
        rotate_slots(&alive, u64::MAX),
        Some(strings(&["k1", "k1", "k2"]))
    );
}

#[test]
fn cursor_reaches_eight_after_eight_requests() {
    let mut stored: Option<String> = None;
    for _ in 0..8 {
        let next = next_rotation_cursor_value(stored.as_deref());
        stored = Some(cursor_text(next));
    }
    assert_eq!(stored.as_deref(), Some("8"));
    assert_eq!(peek_rotation_cursor_value(stored.as_deref()), 8);
    assert_eq!(cursor_text(0), "0");
    assert_eq!(cursor_text(u64::MAX), "18446744073709551615");
    assert_eq!(next_rotation_cursor_value(Some(cursor_text(u64::MAX).as_str())), 0);
}

#[test]
fn slot_rotation_consumes_the_cursor_only_for_several_usable_keys() {
    assert!(matches!(plan_slot_rotation(&strings(&["k1"]), &[false]), SlotRotation::Keep));
    assert!(matches!(plan_slot_rotation(&[], &[]), SlotRotation::Keep));
    let keys = strings(&["k1", "k2", "k3"]);
    assert!(matches!(plan_slot_rotation(&keys, &[true, true, true]), SlotRotation::Keep));
    match plan_slot_rotation(&keys, &[true, false, true]) {
        SlotRotation::Fixed(v) => assert_eq!(v, strings(&["k2"])),
        other => panic!("unexpected {other:?}"),
    }
    match plan_slot_rotation(&keys, &[false, true, false]) {
        SlotRotation::Rotate(v) => assert_eq!(v, strings(&["k1", "k3"])),
        other => panic!("unexpected {other:?}"),
    }
}
