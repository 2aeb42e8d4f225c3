use dune_admin::admin::{
    AdminError, GrantQualityItemRequest, SetSpecializationLevelRequest, WelcomeWhisperRequest,
};
use dune_admin::catalog::bundled_items;
use dune_admin::handlers::{
    grant_start, grant_step, level_start, level_step, whisper_start, whisper_step, AdminAction,
    AdminEvent, GrantFlow, LevelFlow, WhisperFlow,
};
use dune_admin::players::{AccountBackpack, AdminPlayerTarget, SetSpecializationResult};

fn player(online: &str, controller_id: i64) -> AdminPlayerTarget {
    AdminPlayerTarget {
        fls_id: "FLS1".to_string(),
        name: "Paul".to_string(),
        online: online.to_string(),
        account_id: 11,
        pawn_id: 12,
        controller_id,
    }
}

fn refusal(a: &AdminAction) -> Option<String> {
    match a {
        AdminAction::Refuse(AdminError::BadRequest(m)) => Some(format!("400 {m}")),
        AdminAction::Refuse(AdminError::NotFound(m)) => Some(format!("404 {m}")),
        _ => None,
    }
}

fn grant_request(quality: i64) -> GrantQualityItemRequest {
    GrantQualityItemRequest {
        fls_id: " FLS1 ".to_string(),
        item_id: "T6_Augment_Acuracy1".to_string(),
        quantity: 3,
        quality,
    }
}

#[test]
fn grant_runs_lookup_insert_record_respond() {
    let items = bundled_items();
    let (flow, action) = grant_start(&grant_request(4), &items);
    assert!(matches!(&action, AdminAction::LookupPlayer { fls_id } if fls_id == "FLS1"));
    let (flow, action) = grant_step(flow, AdminEvent::Player(Some(player("offline", 7))));
    assert!(matches!(action, AdminAction::LookupBackpack { account_id: 11 }));
    let backpack = AccountBackpack { inventory_id: 99, character_name: None };
    let (flow, action) = grant_step(flow, AdminEvent::Backpack(Some(backpack)));
    match &action {
        AdminAction::InsertGrant { inventory_id, row, item_name } => {
            assert_eq!(*inventory_id, 99);
            assert_eq!(item_name, "Accuracy Augment");
            assert_eq!(row.template_id, "T6_Augment_Acuracy1");
            assert_eq!((row.quantity, row.quality_level), (3, 4));
        }
        _ => panic!("expected an insert"),
    }
    let (flow, action) = grant_step(flow, AdminEvent::Granted(Ok(())));
    assert!(matches!(action, AdminAction::Record { ok: true, error: None }));
    let (flow, action) = grant_step(flow, AdminEvent::Recorded);
    match action {
        AdminAction::Respond { ok, output, error } => {
            assert!(ok && error.is_none());
            assert_eq!(
                output,
                "Gave 3 x Accuracy Augment at quality 4 to Paul. Player must fully relog before this appears in-game."
            );
        }
        _ => panic!("expected the answer"),
    }
    assert!(matches!(flow, GrantFlow::Done));
    let (flow, action) = grant_step(flow, AdminEvent::Recorded);
    assert!(matches!(flow, GrantFlow::Done) && matches!(action, AdminAction::Idle));
}

#[test]
fn grant_refusals_stop_the_handler() {
    let items = bundled_items();
    let (flow, action) = grant_start(&grant_request(9), &items);
    assert_eq!(refusal(&action).unwrap(), "400 quality must be 1..=5 for custom-tier item grants");
    assert!(matches!(flow, GrantFlow::Done));
    let (flow, action) = grant_start(&grant_request(2), &items);
    let (flow2, action2) = grant_step(flow, AdminEvent::Player(None));
    assert!(matches!(action, AdminAction::LookupPlayer { .. }));
    assert_eq!(refusal(&action2).unwrap(), "404 player FLS1 was not found");
    let (_, after) = grant_step(flow2, AdminEvent::Granted(Ok(())));
    assert!(matches!(after, AdminAction::Idle));
    let (flow, _) = grant_start(&grant_request(2), &items);
    let (_, action) = grant_step(flow, AdminEvent::Player(Some(player(" Online ", 7))));
    assert_eq!(
        refusal(&action).unwrap(),
        "400 Paul is currently online. Custom-tier item grants are offline-only; have the player fully log out first."
    );
    let (flow, _) = grant_start(&grant_request(2), &items);
    let (flow, _) = grant_step(flow, AdminEvent::Player(Some(player("offline", 7))));
    let (_, action) = grant_step(flow, AdminEvent::Backpack(None));
    assert_eq!(refusal(&action).unwrap(), "404 no backpack inventory found for Paul");
}

#[test]
fn grant_failure_is_recorded_and_answered() {
    let items = bundled_items();
    let (flow, _) = grant_start(&grant_request(1), &items);
    let (flow, _) = grant_step(flow, AdminEvent::Player(Some(player("offline", 7))));
    let (flow, _) = grant_step(flow, AdminEvent::Backpack(Some(AccountBackpack { inventory_id: 5, character_name: None })));
    let (flow, unrelated) = grant_step(flow, AdminEvent::Recorded);
    assert!(matches!(unrelated, AdminAction::Idle));
    let (flow, action) = grant_step(flow, AdminEvent::Granted(Err("db down".to_string())));
    assert!(matches!(&action, AdminAction::Record { ok: false, error: Some(e) } if e == "db down"));
    let (_, action) = grant_step(flow, AdminEvent::Recorded);
    assert!(matches!(&action, AdminAction::Respond { ok: false, output, error: Some(e) } if output.is_empty() && e == "db down"));
}

#[test]
fn level_change_runs_and_refuses() {
    let req = SetSpecializationLevelRequest { fls_id: "FLS1".to_string(), track_type: " combat ".to_string(), level: 12 };
    let (flow, action) = level_start(&req);
    assert!(matches!(action, AdminAction::LookupPlayer { .. }));
    let (flow, action) = level_step(flow, AdminEvent::Player(Some(player("offline", 7))));
    assert!(matches!(&action, AdminAction::SetLevel { controller_id: 7, track_type, level: 12 } if track_type == "Combat"));
    let done = SetSpecializationResult { track_type: "Combat".to_string(), level: 12, xp: 3400 };
    let (flow, action) = level_step(flow, AdminEvent::LevelSet(Ok(done)));
    assert!(matches!(action, AdminAction::Record { ok: true, error: None }));
    let (flow, action) = level_step(flow, AdminEvent::Recorded);
    assert!(matches!(&action, AdminAction::Respond { ok: true, output, .. }
        if output == "Set Combat specialization to level 12 (3400 xp). Player must fully relog before this appears in-game."));
    assert!(matches!(flow, LevelFlow::Done));

    let (flow, _) = level_start(&req);
    let (_, action) = level_step(flow, AdminEvent::Player(Some(player("offline", 0))));
    assert_eq!(refusal(&action).unwrap(), "400 Paul does not have a valid controller id");
    let bad = SetSpecializationLevelRequest { fls_id: "FLS1".to_string(), track_type: "Piloting".to_string(), level: 1 };
    let (flow, action) = level_start(&bad);
    assert_eq!(refusal(&action).unwrap(), "400 unknown specialization track Piloting");
    assert!(matches!(flow, LevelFlow::Done));
}

#[test]
fn whisper_records_rejected_publish_with_its_output() {
    let req = WelcomeWhisperRequest {
        recipient_player_id: " R1 ".to_string(),
        source_player_id: " S1 ".to_string(),
        message: " hello ".to_string(),
    };
    let (flow, action) = whisper_start(&req);
    assert!(matches!(&action, AdminAction::SendWhisper { source_player_id, recipient_player_id, message }
        if source_player_id == "S1" && recipient_player_id == "R1" && message == "hello"));
    let (flow, action) = whisper_step(flow, AdminEvent::Whispered(Ok((false, "publish=error".to_string()))));
    assert!(matches!(&action, AdminAction::Record { ok: false, error: Some(e) } if e == "publish=error"));
    let (flow, action) = whisper_step(flow, AdminEvent::Recorded);
    assert!(matches!(&action, AdminAction::Respond { ok: false, output, error: None } if output == "publish=error"));
    assert!(matches!(flow, WhisperFlow::Done));
    let blank = WelcomeWhisperRequest { recipient_player_id: "R".to_string(), source_player_id: String::new(), message: "  ".to_string() };
    let (_, action) = whisper_start(&blank);
    assert_eq!(refusal(&action).unwrap(), "400 message must not be empty");
}
