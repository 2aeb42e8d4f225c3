use dune_admin::players::{
    canonical_specialization_track, check_free_slots, check_specialization_lookup,
    clamp_specialization_level, grant_item_stats_json, is_player_online, plan_specialization_level,
    player_level_expr, player_search_params, players_sql, specialization_level_to_xp,
    specialization_summary, specialization_tracks, AdminPlayerTarget, TrackRow, PLAYERS_SQL_HEAD, PLAYERS_SQL_TAIL,
    SPECIALIZATION_LEVEL_MAX, SPECIALIZATION_XP_MAX,
};

#[test]
fn specialization_level_is_clamped_before_xp_estimate() {
    assert_eq!(clamp_specialization_level(-10), 0);
    assert_eq!(clamp_specialization_level(42), 42);
    assert_eq!(clamp_specialization_level(500), SPECIALIZATION_LEVEL_MAX);
}

#[test]
fn specialization_xp_curve_matches_reference_bounds() {
    assert_eq!(specialization_level_to_xp(0), 0);
    assert_eq!(specialization_level_to_xp(100), SPECIALIZATION_XP_MAX);
    assert_eq!(specialization_level_to_xp(500), SPECIALIZATION_XP_MAX);
    assert_eq!(specialization_level_to_xp(45), 12_191);
    assert_eq!(specialization_level_to_xp(53), 15_676);
}

#[test]
fn specialization_track_validation_is_case_insensitive() {
    assert_eq!(canonical_specialization_track("combat"), Some("Combat"));
    assert_eq!(canonical_specialization_track(" Sabotage "), Some("Sabotage"));
    assert_eq!(canonical_specialization_track("Mentat"), None);
}

#[test]
fn grant_item_stats_follow_stack_shape() {
    assert!(grant_item_stats_json(Some(500)).contains("DecayedMaxDurability"));
    assert!(grant_item_stats_json(Some(1)).contains("FCustomizationStats"));
    assert!(grant_item_stats_json(None).contains("FCustomizationStats"));
}

#[test]
fn online_status_check_is_strict() {
    assert!(is_player_online("Online"));
    assert!(is_player_online(" online "));
    assert!(!is_player_online("Offline"));
    assert!(!is_player_online(""));
}

#[test]
fn xp_curve_matches_the_rounded_formula_below_the_cap() {
    for level in 0..100 {
        let expected = (3.107 * f64::from(level * level) + 131.1 * f64::from(level)).round() as i32;
        assert_eq!(specialization_level_to_xp(level), expected, "level {level}");
    }
    let mut last = 0;
    for level in -5..120 {
        let xp = specialization_level_to_xp(level);
        assert!(xp >= last);
        last = xp;
    }
}

#[test]
fn level_plan_resolves_track_and_clamps() {
    let plan = plan_specialization_level(" gathering", 120).ok().unwrap();
    assert_eq!(plan.track_type, "Gathering");
    assert_eq!(plan.level, 100);
    assert_eq!(plan.xp, SPECIALIZATION_XP_MAX);
    let err = plan_specialization_level("Mentat", 3).err().unwrap();
    assert_eq!(err, "unknown specialization track Mentat");
}

#[test]
fn player_search_pattern_and_limit() {
    assert_eq!(player_search_params("ab", 0), ("%ab%".to_string(), 1));
    assert_eq!(player_search_params("", 50), ("%%".to_string(), 50));
    assert_eq!(player_search_params("x", 999), ("%x%".to_string(), 200));
}

#[test]
fn level_column_prefers_the_first_candidate_present() {
    let none: Vec<String> = vec!["foo".to_string()];
    assert_eq!(player_level_expr(&none), "NULL::int");
    let some = vec!["total_level".to_string(), "character_level".to_string()];
    assert_eq!(player_level_expr(&some), "ps.\"character_level\"::int");
    let sql = players_sql("NULL::int");
    assert_eq!(sql, format!("{PLAYERS_SQL_HEAD}NULL::int{PLAYERS_SQL_TAIL}"));
    assert!(sql.contains("NULL::int AS player_level"));
    assert!(sql.contains("LIMIT $2;"));
}

#[test]
fn specialization_tracks_take_the_last_row_per_track() {
    let rows = vec![
        TrackRow { track: "combat".to_string(), xp: 10 },
        TrackRow { track: "Gathering".to_string(), xp: 5 },
        TrackRow { track: "COMBAT".to_string(), xp: 20 },
    ];
    let tracks = specialization_tracks(&rows);
    let names: Vec<&str> = tracks.iter().map(|t| t.track_type.as_str()).collect();
    assert_eq!(names, vec!["Combat", "Crafting", "Exploration", "Gathering", "Sabotage"]);
    assert_eq!((tracks[0].xp, tracks[0].row), (20, Some(2)));
    assert_eq!((tracks[1].xp, tracks[1].row), (0, None));
    assert_eq!((tracks[3].xp, tracks[3].row), (5, Some(1)));
}

#[test]
fn specialization_lookup_needs_a_controller() {
    let player = AdminPlayerTarget {
        fls_id: "abc".to_string(),
        name: "Paul".to_string(),
        online: "Offline".to_string(),
        account_id: 1,
        pawn_id: 2,
        controller_id: 0,
    };
    assert_eq!(
        check_specialization_lookup(&player).err().unwrap(),
        "player abc does not have a valid controller id"
    );
    let ok = AdminPlayerTarget { controller_id: 7, ..player };
    assert!(check_specialization_lookup(&ok).is_ok());
}

#[test]
fn free_slots_must_match_the_items() {
    assert!(check_free_slots(2, 2).is_ok());
    assert_eq!(
        check_free_slots(3, 1).err().unwrap(),
        "not enough free backpack slots: needed 3, found 1"
    );
}

#[test]
fn specialization_summary_assembles_tracks_and_keystones() {
    let player = |controller_id: i64| AdminPlayerTarget {
        fls_id: "F9".to_string(),
        name: "Jessica".to_string(),
        online: "offline".to_string(),
        account_id: 1,
        pawn_id: 2,
        controller_id,
    };
    let rows = vec![
        TrackRow { track: "sabotage".to_string(), xp: 7 },
        TrackRow { track: "Combat".to_string(), xp: 30 },
    ];
    let s = specialization_summary(player(4), &rows, None).ok().unwrap();
    assert_eq!(s.player.fls_id, "F9");
    assert_eq!(s.tracks.len(), 5);
    assert_eq!((s.tracks[0].track_type.as_str(), s.tracks[0].xp), ("Combat", 30));
    assert_eq!((s.tracks[4].track_type.as_str(), s.tracks[4].xp, s.tracks[4].row), ("Sabotage", 7, Some(0)));
    assert_eq!((s.keystones_total, s.keystones_max), (0, 205));
    assert_eq!((s.xp_max, s.level_max), (SPECIALIZATION_XP_MAX, SPECIALIZATION_LEVEL_MAX));
    let s = specialization_summary(player(4), &rows, Some(12)).ok().unwrap();
    assert_eq!(s.keystones_total, 12);
    let err = specialization_summary(player(0), &rows, Some(12)).err().unwrap();
    assert_eq!(err, "player F9 does not have a valid controller id");
}
