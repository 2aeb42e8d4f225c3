use dune_admin::status::format_age_since_iso_at;
use dune_admin::status::{
    battlegroup_status_with_stats, format_age_seconds, format_age_since_iso, friendly_map_name,
    no_status_message, INCOMPLETE_HOST_METRICS,
    remote_records_from_battlegroups, serverset_log_key, BattlegroupListItem, BattlegroupResource,
    BattlegroupStatus, RemoteConnectionRequest, ServerEntry, ServerStatsItem,
};

fn s(t: &str) -> String {
    t.to_string()
}

fn bg() -> BattlegroupResource {
    BattlegroupResource {
        has_name: true,
        spec_stop: None,
        status_stop: None,
        start_timestamp: None,
        servers: None,
        database_phase_nested: None,
        database_phase: String::new(),
        director_phase_nested: None,
        director_phase: String::new(),
        uptime: String::new(),
        phase: String::new(),
        server_group_phase: String::new(),
    }
}

fn server(partition_map: Option<&str>, partition_index: Option<u64>, phase: &str, ready: &str) -> ServerEntry {
    ServerEntry {
        partition_index,
        ordinal_index: None,
        partition_map: partition_map.map(s),
        map: None,
        name: None,
        phase: s(phase),
        ready: s(ready),
        start_timestamp: None,
        dimension_index: None,
        restarts: None,
        game_port: None,
        igw_port: None,
    }
}

fn stats(partition: i64, map: &str, players: Option<i64>) -> ServerStatsItem {
    ServerStatsItem {
        name: None,
        partition: Some(partition),
        map: Some(s(map)),
        sietch: None,
        dimension: None,
        players,
        game_phase: None,
        runtime_ready: None,
        simulation_fps_bits: None,
        battlegroup_leader: None,
    }
}

fn bg_status(value: &BattlegroupResource) -> Option<BattlegroupStatus> {
    battlegroup_status_with_stats(value, &Vec::new())
}

fn rfc3339_ago(secs: i64) -> String {
    (chrono::Utc::now() - chrono::Duration::seconds(secs))
        .to_rfc3339_opts(chrono::SecondsFormat::Secs, true)
}

#[test]
fn maps_reconciling_bg_with_null_director_phase() {
    let value = BattlegroupResource {
        spec_stop: Some(false),
        phase: s("Reconciling"),
        server_group_phase: s("Running"),
        ..bg()
    };
    let dto = bg_status(&value).expect("status maps");
    assert!(!dto.stop);
    assert_eq!(dto.phase, "Reconciling");
    assert_eq!(dto.server_group_phase, "Running");
    assert_eq!(dto.director_phase, "");
    assert_eq!(dto.uptime, "");
}

#[test]
fn falls_back_to_status_stop_when_spec_missing() {
    let value = BattlegroupResource {
        status_stop: Some(true),
        phase: s("Stopped"),
        ..bg()
    };
    let dto = bg_status(&value).expect("status maps");
    assert!(dto.stop);
    assert_eq!(dto.phase, "Stopped");
}

#[test]
fn server_stats_pulled_from_status_servers_array() {
    let mut first = server(None, None, "Running", "true");
    first.map = Some(s("Survival_1"));
    let mut second = server(None, None, "Stopped", "false");
    second.name = Some(s("DeepDesert_1"));
    let value = BattlegroupResource {
        spec_stop: Some(false),
        phase: s("Running"),
        servers: Some(vec![first, second]),
        ..bg()
    };
    let dto = bg_status(&value).expect("status maps");
    assert_eq!(dto.server_stats.len(), 2);
    assert_eq!(dto.server_stats[0].map, friendly_map_name("Survival_1", "Survival_1"));
    assert_eq!(dto.server_stats[0].phase, "Running");
    assert_eq!(dto.server_stats[0].ready, "true");
    assert_eq!(dto.server_stats[0].players, "");
    assert_eq!(dto.server_stats[1].map, friendly_map_name("DeepDesert_1", "DeepDesert_1"));
    assert_eq!(dto.server_stats[1].ready, "false");
    assert_eq!(dto.server_stats[1].age, "");
}

#[test]
fn server_stats_merge_player_count_from_serverstats_crd() {
    let value = BattlegroupResource {
        spec_stop: Some(false),
        phase: s("Healthy"),
        servers: Some(vec![
            server(Some("Survival_1"), Some(1), "Running", "true"),
            server(Some("Survival_1"), Some(31), "Running", "true"),
            server(Some("Overmap"), Some(2), "Running", "true"),
        ]),
        ..bg()
    };
    let items = vec![
        stats(1, "Survival_1", Some(7)),
        stats(31, "Survival_1", Some(0)),
        stats(2, "Overmap", Some(3)),
    ];
    let dto = battlegroup_status_with_stats(&value, &items).expect("status maps");
    assert_eq!(dto.server_stats[0].players, "7");
    assert_eq!(dto.server_stats[1].players, "0");
    assert_eq!(dto.server_stats[2].players, "3");
}

#[test]
fn server_stats_merge_rich_runtime_telemetry_from_live_cr_shape() {
    let mut entry = server(Some("Survival_1"), Some(1), "Initializing", "false");
    entry.dimension_index = Some(0);
    entry.restarts = Some(2);
    entry.game_port = Some(7778);
    entry.igw_port = Some(7889);
    let value = BattlegroupResource {
        spec_stop: Some(false),
        phase: s("Reconciling"),
        servers: Some(vec![entry]),
        ..bg()
    };
    let item = ServerStatsItem {
        name: Some(s("sh-test-sg-survival-1-pod-1")),
        partition: Some(1),
        map: Some(s("Survival_1")),
        sietch: Some(s("Abbir")),
        dimension: Some(0),
        players: Some(4),
        game_phase: Some(s("PostLandscapePhysics")),
        runtime_ready: Some(s("false")),
        simulation_fps_bits: "19.48".parse::<f64>().ok().map(f64::to_bits),
        battlegroup_leader: Some(true),
    };
    let dto = battlegroup_status_with_stats(&value, &vec![item]).expect("status maps");
    let map = &dto.server_stats[0];
    assert_eq!(map.map, "Hagga Basin #1");
    assert_eq!(map.raw_map, "Survival_1");
    assert_eq!(map.sietch, "Abbir");
    assert_eq!(map.partition_index, Some(1));
    assert_eq!(map.dimension, Some(0));
    assert_eq!(map.phase, "Initializing");
    assert_eq!(map.ready, "false");
    assert_eq!(map.players, "4");
    assert_eq!(map.game_phase, "PostLandscapePhysics");
    assert_eq!(map.runtime_ready, "false");
    assert_eq!(map.simulation_fps_bits.map(f64::from_bits), Some(19.48));
    assert_eq!(map.battlegroup_leader, Some(true));
    assert_eq!(map.restarts, Some(2));
    assert_eq!(map.server_name, "sh-test-sg-survival-1-pod-1");
    assert_eq!(map.game_port, Some(7778));
    assert_eq!(map.igw_port, Some(7889));
}

#[test]
fn server_stats_ignore_malformed_optional_runtime_values() {
    let value = BattlegroupResource {
        spec_stop: Some(false),
        servers: Some(vec![server(Some("Overmap"), Some(2), "Running", "true")]),
        ..bg()
    };
    // "players": "unknown" and "sfps": "not-a-number" read as absent.
    let item = stats(2, "Overmap", None);
    let dto = battlegroup_status_with_stats(&value, &vec![item]).expect("status maps");
    assert_eq!(dto.server_stats[0].players, "");
    assert_eq!(dto.server_stats[0].simulation_fps_bits, None);
    assert_eq!(dto.server_stats[0].runtime_ready, "");
}

#[test]
fn server_stats_player_count_blank_when_partition_missing_from_stats() {
    let value = BattlegroupResource {
        spec_stop: Some(false),
        servers: Some(vec![server(Some("Survival_1"), Some(1), "Running", "true")]),
        ..bg()
    };
    let dto = battlegroup_status_with_stats(&value, &Vec::new()).expect("status maps");
    assert_eq!(dto.server_stats[0].players, "");
}

#[test]
fn server_stats_use_partition_map_and_index_from_real_cr() {
    let value = BattlegroupResource {
        spec_stop: Some(false),
        phase: s("Healthy"),
        servers: Some(vec![
            server(Some("Survival_1"), Some(1), "Running", "true"),
            server(Some("Survival_1"), Some(31), "Running", "true"),
            server(Some("Overmap"), Some(2), "Running", "true"),
        ]),
        ..bg()
    };
    let dto = bg_status(&value).expect("status maps");
    assert_eq!(dto.server_stats.len(), 3);
    assert_eq!(dto.server_stats[0].map, "Hagga Basin #1");
    assert_eq!(dto.server_stats[1].map, "Hagga Basin #31");
    assert_eq!(dto.server_stats[2].map, "Overmap #2");
    assert!(dto.server_stats.iter().all(|s| s.phase == "Running"));
    assert!(dto.server_stats.iter().all(|s| s.ready == "true"));
}

#[test]
fn returns_none_when_not_a_battlegroup_resource() {
    let value = BattlegroupResource { has_name: false, ..bg() };
    assert!(bg_status(&value).is_none());
}

#[test]
fn bg_start_timestamp_propagates_to_every_server_row_when_per_server_missing() {
    let one_min_ago = rfc3339_ago(60);
    let value = BattlegroupResource {
        spec_stop: Some(false),
        phase: s("Running"),
        start_timestamp: Some(one_min_ago),
        servers: Some(vec![
            server(Some("Survival_1"), Some(1), "Running", "true"),
            server(Some("Overmap"), Some(2), "Running", "true"),
        ]),
        ..bg()
    };
    let dto = bg_status(&value).expect("status maps");
    assert_eq!(dto.server_stats.len(), 2);
    for row in &dto.server_stats {
        assert!(row.age == "1m" || row.age == "60s", "row age was {:?}", row.age);
    }
}

#[test]
fn database_director_phases_pulled_from_nested_status() {
    let value = BattlegroupResource {
        spec_stop: Some(false),
        phase: s("Healthy"),
        server_group_phase: s("Running"),
        database_phase_nested: Some(s("Ready")),
        director_phase_nested: Some(s("Healthy")),
        ..bg()
    };
    let dto = bg_status(&value).expect("status maps");
    assert_eq!(dto.database_phase, "Ready");
    assert_eq!(dto.director_phase, "Healthy");
}

#[test]
fn uptime_derived_from_start_timestamp_when_no_literal() {
    let value = BattlegroupResource {
        spec_stop: Some(false),
        phase: s("Healthy"),
        start_timestamp: Some(rfc3339_ago(3600 + 120)),
        ..bg()
    };
    let dto = bg_status(&value).expect("status maps");
    assert_eq!(dto.uptime, "1h 2m");
}

#[test]
fn uptime_prefers_literal_string_when_older_operator_set_it() {
    let value = BattlegroupResource {
        spec_stop: Some(false),
        phase: s("Healthy"),
        uptime: s("1h2m"),
        start_timestamp: Some(s("2026-05-22T01:27:53Z")),
        ..bg()
    };
    let dto = bg_status(&value).expect("status maps");
    assert_eq!(dto.uptime, "1h2m");
}

#[test]
fn format_age_since_iso_handles_common_shapes() {
    assert_eq!(format_age_since_iso(""), "");
    assert_eq!(format_age_since_iso("not a timestamp"), "");
    let recent = rfc3339_ago(30);
    assert!(format_age_since_iso(&recent).ends_with('s'));
    let hours = rfc3339_ago(3 * 3600 + 15 * 60);
    assert_eq!(format_age_since_iso(&hours), "3h 15m");
    let days = rfc3339_ago(5 * 86400 + 7 * 3600);
    assert_eq!(format_age_since_iso(&days), "5d 7h");
}

#[test]
fn age_text_boundaries() {
    assert_eq!(format_age_seconds(-5), "0s");
    assert_eq!(format_age_seconds(59), "59s");
    assert_eq!(format_age_seconds(60), "1m");
    assert_eq!(format_age_seconds(3599), "59m");
    assert_eq!(format_age_seconds(3600), "1h 0m");
    assert_eq!(format_age_seconds(86399), "23h 59m");
    assert_eq!(format_age_seconds(86400), "1d 0h");
}

#[test]
fn server_label_falls_back_to_stats_map_and_ordinal() {
    let mut entry = server(Some(""), None, "Running", "true");
    entry.ordinal_index = Some(4);
    let value = BattlegroupResource { servers: Some(vec![entry]), ..bg() };
    let dto = battlegroup_status_with_stats(&value, &vec![stats(4, "DeepDesert_1", Some(1))]).unwrap();
    assert_eq!(dto.server_stats[0].map, "Deep Desert #4");
    assert_eq!(dto.server_stats[0].raw_map, "DeepDesert_1");
    assert_eq!(dto.server_stats[0].partition_index, Some(4));
}

#[test]
fn later_serverstats_items_win_for_a_partition() {
    let value = BattlegroupResource {
        servers: Some(vec![server(Some("Overmap"), Some(2), "Running", "true")]),
        ..bg()
    };
    let items = vec![stats(2, "Overmap", Some(1)), stats(2, "Overmap", Some(9))];
    let dto = battlegroup_status_with_stats(&value, &items).unwrap();
    assert_eq!(dto.server_stats[0].players, "9");
}

#[test]
fn map_names_and_log_keys() {
    assert_eq!(friendly_map_name("Survival_1", "x"), "Hagga Basin");
    assert_eq!(friendly_map_name("Overmap", "x"), "Overmap");
    assert_eq!(friendly_map_name("Other", "x"), "Other");
    assert_eq!(friendly_map_name("", "fallback"), "fallback");
    assert_eq!(friendly_map_name("", ""), "Game Server");
    assert_eq!(serverset_log_key("sh-set", "Survival_1"), "sh-set");
    assert_eq!(serverset_log_key("", "Survival_1"), "Survival_1");
}

#[test]
fn discovered_battlegroups_become_records() {
    let req = RemoteConnectionRequest {
        host: s(" Host.Example "),
        user: Some(s(" dune ")),
        key_path: Some(s(" /Keys/ID ")),
        port: Some(2222),
        server_type: None,
    };
    let items = vec![
        BattlegroupListItem { namespace: Some(s("ns")), name: Some(s("bg")), title: None, phase: None },
        BattlegroupListItem { namespace: None, name: Some(s("skip")), title: None, phase: None },
        BattlegroupListItem {
            namespace: Some(s("ns2")),
            name: Some(s("bg2")),
            title: Some(s("World")),
            phase: Some(s("Running")),
        },
    ];
    let records = remote_records_from_battlegroups(&req, &Some(items));
    assert_eq!(records.len(), 2);
    assert_eq!(records[0].id, "ubuntu:host.example:/keys/id");
    assert_eq!(records[0].name, "bg");
    assert_eq!(records[0].phase, "Unknown");
    assert_eq!(records[0].user, "dune");
    assert_eq!(records[0].server_type, "ubuntu");
    assert_eq!(records[0].key_path, " /Keys/ID ");
    assert_eq!(records[1].name, "World");
    assert_eq!(records[1].battlegroup_name, "bg2");
    assert!(remote_records_from_battlegroups(&req, &None).is_empty());
}

#[test]
fn status_failures_name_the_battlegroup() {
    assert_eq!(
        no_status_message("sh-bg"),
        "BattleGroup `sh-bg` returned no status object yet (likely still initialising)"
    );
    assert_eq!(INCOMPLETE_HOST_METRICS, "Remote host returned incomplete resource metrics");
}

#[test]
fn age_at_a_given_clock_reading() {
    let start = 1_704_067_200i64; // 2024-01-01T00:00:00Z
    let ts = " 2024-01-01T00:00:00Z ";
    assert_eq!(format_age_since_iso_at(ts, Some((start + 3 * 3600 + 15 * 60, 0))), "3h 15m");
    assert_eq!(format_age_since_iso_at(ts, Some((start + 42, 500))), "42s");
    assert_eq!(format_age_since_iso_at(ts, Some((start - 100, 0))), "0s");
    assert_eq!(format_age_since_iso_at(ts, None), "");
    assert_eq!(format_age_since_iso_at("yesterday", Some((start, 0))), "");
    assert_eq!(format_age_since_iso_at(ts, Some((i64::MAX, 0))), "");
}

#[test]
fn clock_text_is_rfc3339() {
    let now = dune_admin::clock::now_rfc3339().unwrap();
    assert!(chrono::DateTime::parse_from_rfc3339(&now).is_ok());
    let (secs, nanos) = dune_admin::clock::clock_timestamp().unwrap();
    assert!(secs > 1_600_000_000 && nanos < 1_000_000_000);
}
