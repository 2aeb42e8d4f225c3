use dune_admin::admin::{
    check_grant_player, check_specialization_player, grant_item, grant_output, no_live_pawn,
    player_not_found, quality_grant_item, recorded_error, require_backpack, search_terms,
    specialization_output, validate_grant_request, validate_retry_welcome_grant,
    validate_set_specialization, validate_specialization_query, validate_welcome_whisper,
    welcome_grants_limit, AdminError, GrantQualityItemRequest, HistoryQuery, PlayerLocationQuery,
    RetryWelcomeGrantRequest, SearchQuery, SearchTarget, SetSpecializationLevelRequest,
    SpecializationQuery, WelcomeWhisperRequest,
};
use dune_admin::catalog::bundled_items;
use dune_admin::players::{AccountBackpack, AdminPlayerTarget};

fn bad(e: AdminError) -> String {
    match e {
        AdminError::BadRequest(m) => m,
        AdminError::NotFound(m) => panic!("expected a bad request, got not found: {m}"),
    }
}

fn not_found(e: AdminError) -> String {
    match e {
        AdminError::NotFound(m) => m,
        AdminError::BadRequest(m) => panic!("expected not found, got bad request: {m}"),
    }
}

fn player(online: &str, controller_id: i64) -> AdminPlayerTarget {
    AdminPlayerTarget {
        fls_id: "FLS1".to_string(),
        name: "Paul".to_string(),
        online: online.to_string(),
        account_id: 11,
        pawn_id: 12,
        controller_id,
    }
}

fn grant(fls: &str, item: &str, quantity: i64, quality: i64) -> GrantQualityItemRequest {
    GrantQualityItemRequest {
        fls_id: fls.to_string(),
        item_id: item.to_string(),
        quantity,
        quality,
    }
}

#[test]
fn search_defaults_per_endpoint() {
    let empty = SearchQuery { q: None, limit: None };
    assert_eq!(search_terms(&empty, SearchTarget::Items), (String::new(), 50));
    assert_eq!(search_terms(&empty, SearchTarget::Vehicles).1, 20);
    assert_eq!(search_terms(&empty, SearchTarget::JourneyNodes).1, 80);
    let given = SearchQuery { q: Some("spice".to_string()), limit: Some(3) };
    assert_eq!(search_terms(&given, SearchTarget::Players), ("spice".to_string(), 3));
    assert_eq!(welcome_grants_limit(&HistoryQuery { limit: None }), 100);
    assert_eq!(welcome_grants_limit(&HistoryQuery { limit: Some(4) }), 4);
}

#[test]
fn lookups_report_missing_players() {
    assert_eq!(not_found(player_not_found("abc")), "player abc was not found");
    let q = PlayerLocationQuery { fls_id: "abc".to_string() };
    assert_eq!(not_found(no_live_pawn(&q)), "no live pawn for fls_id abc — player may be offline");
    let q = SpecializationQuery { fls_id: "  ".to_string() };
    assert_eq!(bad(validate_specialization_query(&q).err().unwrap()), "flsId must not be empty");
    let q = SpecializationQuery { fls_id: " x ".to_string() };
    assert_eq!(validate_specialization_query(&q).ok().unwrap(), "x");
}

#[test]
fn set_specialization_checks() {
    let req = SetSpecializationLevelRequest { fls_id: " F ".to_string(), track_type: "combat".to_string(), level: 3 };
    let (fls, track) = validate_set_specialization(&req).ok().unwrap();
    assert_eq!((fls.as_str(), track), ("F", "Combat"));
    let req = SetSpecializationLevelRequest { fls_id: "F".to_string(), track_type: " Mentat".to_string(), level: 3 };
    assert_eq!(bad(validate_set_specialization(&req).err().unwrap()), "unknown specialization track  Mentat");
    let req = SetSpecializationLevelRequest { fls_id: "".to_string(), track_type: "Mentat".to_string(), level: 3 };
    assert_eq!(bad(validate_set_specialization(&req).err().unwrap()), "flsId must not be empty");
    assert_eq!(
        bad(check_specialization_player(&player(" ONLINE", 5)).err().unwrap()),
        "Paul is currently online. Specialization edits are offline-only; have the player fully log out first."
    );
    assert_eq!(
        bad(check_specialization_player(&player("Offline", 0)).err().unwrap()),
        "Paul does not have a valid controller id"
    );
    assert!(check_specialization_player(&player("Offline", 5)).is_ok());
    assert_eq!(
        specialization_output("Combat", 45, 12191),
        "Set Combat specialization to level 45 (12191 xp). Player must fully relog before this appears in-game."
    );
}

#[test]
fn grant_request_checks_in_order() {
    assert_eq!(bad(validate_grant_request(&grant(" ", "", 1, 9)).err().unwrap()), "flsId must not be empty");
    assert_eq!(bad(validate_grant_request(&grant("F", " ", 1, 9)).err().unwrap()), "itemId must not be empty");
    assert_eq!(
        bad(validate_grant_request(&grant("F", " 123 ", 1, 9)).err().unwrap()),
        "itemId must be a template class name, not a numeric id"
    );
    assert_eq!(
        bad(validate_grant_request(&grant("F", "Knife", 1, 6)).err().unwrap()),
        "quality must be 1..=5 for custom-tier item grants"
    );
    let g = validate_grant_request(&grant(" F ", " Knife ", 0, 5)).ok().unwrap();
    assert_eq!((g.fls_id.as_str(), g.item_id.as_str(), g.quantity, g.quality), ("F", "Knife", 1, 5));
    let g = validate_grant_request(&grant("F", "Knife", 50_000, 1)).ok().unwrap();
    assert_eq!(g.quantity, 10_000);
}

#[test]
fn grant_item_must_exist_and_take_quality() {
    let items = bundled_items();
    assert_eq!(bad(grant_item(&items, "Nope").err().unwrap()), "item Nope was not found in the catalog");
    let plain = &items.iter().find(|i| !i.gradeable).unwrap().id;
    let name = &items.iter().find(|i| !i.gradeable).unwrap().name;
    assert_eq!(
        bad(grant_item(&items, plain).err().unwrap()),
        format!("{name} does not support item quality tiers")
    );
    let augment = grant_item(&items, "T6_Augment_Acuracy1").ok().unwrap();
    assert!(augment.gradeable);
    let row = quality_grant_item(&augment, 2, 4);
    assert_eq!(row.template_id, "T6_Augment_Acuracy1");
    assert_eq!((row.quantity, row.quality_level), (2, 4));
    assert!(row.stats_json.contains("FCustomizationStats"));
    assert_eq!(
        grant_output(2, "Accuracy Augment", 4, "Paul"),
        "Gave 2 x Accuracy Augment at quality 4 to Paul. Player must fully relog before this appears in-game."
    );
}

#[test]
fn grant_needs_offline_player_with_backpack() {
    assert_eq!(
        bad(check_grant_player(&player("online", 1)).err().unwrap()),
        "Paul is currently online. Custom-tier item grants are offline-only; have the player fully log out first."
    );
    assert!(check_grant_player(&player("Offline", 1)).is_ok());
    assert_eq!(
        not_found(require_backpack(&player("Offline", 1), None).err().unwrap()),
        "no backpack inventory found for Paul"
    );
    let b = require_backpack(&player("Offline", 1), Some(AccountBackpack { inventory_id: 9, character_name: None }));
    assert_eq!(b.ok().unwrap().inventory_id, 9);
}

#[test]
fn welcome_requests_are_checked() {
    let r = RetryWelcomeGrantRequest { player_id: " p ".to_string(), package_version: " v1 ".to_string(), account_id: 3 };
    assert_eq!(validate_retry_welcome_grant(&r).ok().unwrap(), ("p".to_string(), "v1".to_string()));
    let r = RetryWelcomeGrantRequest { player_id: "".to_string(), package_version: "".to_string(), account_id: 3 };
    assert_eq!(bad(validate_retry_welcome_grant(&r).err().unwrap()), "playerId must not be empty");
    let r = RetryWelcomeGrantRequest { player_id: "p".to_string(), package_version: " ".to_string(), account_id: 3 };
    assert_eq!(bad(validate_retry_welcome_grant(&r).err().unwrap()), "packageVersion must not be empty");

    let w = |rec: &str, src: &str, msg: &str| WelcomeWhisperRequest {
        recipient_player_id: rec.to_string(),
        source_player_id: src.to_string(),
        message: msg.to_string(),
    };
    assert_eq!(bad(validate_welcome_whisper(&w(" ", "s", "m")).err().unwrap()), "recipient_player_id must not be empty");
    assert_eq!(bad(validate_welcome_whisper(&w("r", "s", "  ")).err().unwrap()), "message must not be empty");
    let long = "é".repeat(501);
    assert_eq!(bad(validate_welcome_whisper(&w("r", "s", &long)).err().unwrap()), "message must be <= 1000 characters");
    let fits = "é".repeat(500);
    assert!(validate_welcome_whisper(&w("r", "s", &fits)).is_ok());
    assert_eq!(
        validate_welcome_whisper(&w(" r ", " s ", " hi ")).ok().unwrap(),
        ("s".to_string(), "r".to_string(), "hi".to_string())
    );
}

#[test]
fn recorded_errors_prefer_the_failure_text() {
    assert_eq!(recorded_error(false, "out", Some("boom".to_string())), Some("boom".to_string()));
    assert_eq!(recorded_error(false, "out", None), Some("out".to_string()));
    assert_eq!(recorded_error(true, "out", None), None);
}
