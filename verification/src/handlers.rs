//! The admin handlers that change a player's data (custom-quality item
//! grants, specialization levels) or message a player (welcome whispers),
//! as step functions: from the handler's state and what the outside world
//! answered, the next state and what to ask for next. The caller performs
//! each action and hands back the answer; every step follows the table in
//! `flow`, so the laws proved there hold of every run.
use vstd::prelude::*;
use crate::text::{append_str, chars_of, dec_int, string_of};
use crate::catalog::{items_view, Item};
use crate::players::{
    grant_stats_text, AccountBackpack, AdminPlayerTarget, BackpackGrantItem, SetSpecializationResult,
};
use crate::admin::{
    check_grant_player, check_specialization_player, grant_item, grant_item_check, grant_output,
    grant_player_check, grant_request_check, player_not_found, quality_grant_item, recorded_error,
    set_specialization_check, specialization_output, specialization_player_check,
    validate_grant_request, validate_set_specialization, validate_welcome_whisper, whisper_check,
    AdminError, AdminErrorView, GrantQualityItemRequest, SetSpecializationLevelRequest,
    WelcomeWhisperRequest,
};
use crate::flow::{next_step, ActionKind, EventKind, Stage};

verus! {

/// What a handler asks the outside world to do next.
pub enum AdminAction {
    /// Resolve the player by FLS id.
    LookupPlayer { fls_id: String },
    /// Resolve the backpack inventory of the account.
    LookupBackpack { account_id: i64 },
    /// Insert the grant row into the inventory (the item's name is for the
    /// command history).
    InsertGrant { inventory_id: i64, row: BackpackGrantItem, item_name: String },
    /// Set the specialization track of the controller to the level.
    SetLevel { controller_id: i64, track_type: String, level: i32 },
    /// Send the whisper from the source player to the recipient.
    SendWhisper { source_player_id: String, recipient_player_id: String, message: String },
    /// Record the command's outcome in the command history.
    Record { ok: bool, error: Option<String> },
    /// Answer the request.
    Respond { ok: bool, output: String, error: Option<String> },
    /// Refuse the request with this answer.
    Refuse(AdminError),
    /// Nothing to do.
    Idle,
}

/// What the outside world answered.
pub enum AdminEvent {
    Player(Option<AdminPlayerTarget>),
    Backpack(Option<AccountBackpack>),
    /// The grant insert finished, or failed with this (redacted) message.
    Granted(Result<(), String>),
    /// The level change finished, or failed with this (redacted) message.
    LevelSet(Result<SetSpecializationResult, String>),
    /// The whisper was published (whether the broker accepted it, and its
    /// output), or failed with this (redacted) message.
    Whispered(Result<(bool, String), String>),
    Recorded,
}

pub open spec fn action_kind(a: AdminAction) -> ActionKind {
    match a {
        AdminAction::LookupPlayer { .. } => ActionKind::LookupPlayer,
        AdminAction::LookupBackpack { .. } => ActionKind::LookupBackpack,
        AdminAction::InsertGrant { .. } => ActionKind::Perform,
        AdminAction::SetLevel { .. } => ActionKind::Perform,
        AdminAction::SendWhisper { .. } => ActionKind::Perform,
        AdminAction::Record { .. } => ActionKind::Record,
        AdminAction::Respond { .. } => ActionKind::Respond,
        AdminAction::Refuse(_) => ActionKind::Refuse,
        AdminAction::Idle => ActionKind::Idle,
    }
}

pub open spec fn opt_text(o: Option<String>) -> Option<Seq<char>> {
    match o {
        Some(s) => Some(s@),
        None => None,
    }
}

fn text(s: &str) -> (r: String)
    ensures
        r@ == s@,
{
    string_of(&chars_of(s))
}

fn empty_text() -> (r: String)
    ensures
        r@ == Seq::<char>::empty(),
{
    proof {
        reveal_strlit("");
    }
    string_of(&chars_of(""))
}

// ---------------------------------------------------------------------------
// Custom-quality item grants
// ---------------------------------------------------------------------------

/// Where a grant stands, with what the later steps need.
pub enum GrantFlow {
    AwaitPlayer { fls_id: String, item: Item, quantity: i64, quality: i64 },
    AwaitBackpack { item: Item, quantity: i64, quality: i64, player_name: String },
    AwaitInsert { item_name: String, quantity: i64, quality: i64, player_name: String },
    AwaitRecord { ok: bool, output: String, error: Option<String> },
    Done,
}

pub open spec fn grant_stage(f: GrantFlow) -> Stage {
    match f {
        GrantFlow::AwaitPlayer { .. } => Stage::AwaitPlayer,
        GrantFlow::AwaitBackpack { .. } => Stage::AwaitBackpack,
        GrantFlow::AwaitInsert { .. } => Stage::AwaitEffect,
        GrantFlow::AwaitRecord { .. } => Stage::AwaitRecord,
        GrantFlow::Done => Stage::Done,
    }
}

/// An answer as the grant handler reads it: a player may receive a grant
/// when offline.
pub open spec fn grant_event_kind(e: AdminEvent) -> EventKind {
    match e {
        AdminEvent::Player(None) => EventKind::PlayerMissing,
        AdminEvent::Player(Some(p)) => EventKind::PlayerFound {
            eligible: grant_player_check(p.name@, p.online@) is Ok,
        },
        AdminEvent::Backpack(None) => EventKind::BackpackMissing,
        AdminEvent::Backpack(Some(_)) => EventKind::BackpackFound,
        AdminEvent::Granted(_) => EventKind::EffectDone,
        AdminEvent::Recorded => EventKind::Recorded,
        _ => EventKind::Other,
    }
}

/// The grant text reported on success.
pub open spec fn grant_text(quantity: i64, item_name: Seq<char>, quality: i64, player_name: Seq<char>) -> Seq<
    char,
> {
    "Gave "@ + dec_int(quantity as int) + " x "@ + item_name + " at quality "@ + dec_int(
        quality as int,
    ) + " to "@ + player_name + ". Player must fully relog before this appears in-game."@
}

/// Starts a grant: the request checks, then the catalog item; refused with
/// the first problem, else the player is looked up.
pub fn grant_start(req: &GrantQualityItemRequest, items: &Vec<Item>) -> (r: (GrantFlow, AdminAction))
    ensures
        match grant_request_check(req.fls_id@, req.item_id@, req.quantity, req.quality) {
            Err(e) => r.0 is Done && (r.1 matches AdminAction::Refuse(x) && x@ == e),
            Ok((f, i, q)) => match grant_item_check(items_view(items@), i) {
                Err(e) => r.0 is Done && (r.1 matches AdminAction::Refuse(x) && x@ == e),
                Ok(it) => (r.0 matches GrantFlow::AwaitPlayer { fls_id, item, quantity, quality }
                    && fls_id@ == f && item@ == it && quantity == q && quality == req.quality) && (
                r.1 matches AdminAction::LookupPlayer { fls_id } && fls_id@ == f),
            },
        },
{
    let g = match validate_grant_request(req) {
        Ok(g) => g,
        Err(e) => return (GrantFlow::Done, AdminAction::Refuse(e)),
    };
    let item = match grant_item(items, g.item_id.as_str()) {
        Ok(it) => it,
        Err(e) => return (GrantFlow::Done, AdminAction::Refuse(e)),
    };
    let fls = g.fls_id.clone();
    (
        GrantFlow::AwaitPlayer { fls_id: g.fls_id, item, quantity: g.quantity, quality: g.quality },
        AdminAction::LookupPlayer { fls_id: fls },
    )
}

/// One step of a grant.
pub fn grant_step(flow: GrantFlow, event: AdminEvent) -> (r: (GrantFlow, AdminAction))
    ensures
        (grant_stage(r.0), action_kind(r.1)) == next_step(
            true,
            grant_stage(flow),
            grant_event_kind(event),
        ),
        match (flow, event) {
            (GrantFlow::AwaitPlayer { fls_id, .. }, AdminEvent::Player(None)) => r.1 matches AdminAction::Refuse(
                x,
            ) && x@ == AdminErrorView::NotFound("player "@ + fls_id@ + " was not found"@),
            (GrantFlow::AwaitPlayer { item, quantity, quality, .. }, AdminEvent::Player(Some(p))) => match grant_player_check(
                p.name@,
                p.online@,
            ) {
                Err(m) => r.1 matches AdminAction::Refuse(x) && x@ == m,
                Ok(_) => (r.1 matches AdminAction::LookupBackpack { account_id } && account_id
                    == p.account_id) && (r.0 matches GrantFlow::AwaitBackpack {
                    item: i2,
                    quantity: q2,
                    quality: l2,
                    player_name,
                } && i2@ == item@ && q2 == quantity && l2 == quality && player_name@ == p.name@),
            },
            (GrantFlow::AwaitBackpack { player_name, .. }, AdminEvent::Backpack(None)) => r.1 matches AdminAction::Refuse(
                x,
            ) && x@ == AdminErrorView::NotFound("no backpack inventory found for "@ + player_name@),
            (
                GrantFlow::AwaitBackpack { item, quantity, quality, player_name },
                AdminEvent::Backpack(Some(b)),
            ) => (r.1 matches AdminAction::InsertGrant { inventory_id, row, item_name } && inventory_id
                == b.inventory_id && item_name@ == item.name@ && row.template_id@ == item.id@ && row.quantity == quantity
                && row.stats_json@ == grant_stats_text(item.stack_max) && row.quality_level
                == quality) && (r.0 matches GrantFlow::AwaitInsert {
                item_name,
                quantity: q2,
                quality: l2,
                player_name: n2,
            } && item_name@ == item.name@ && q2 == quantity && l2 == quality && n2@ == player_name@),
            (
                GrantFlow::AwaitInsert { item_name, quantity, quality, player_name },
                AdminEvent::Granted(res),
            ) => match res {
                Ok(_) => (r.1 matches AdminAction::Record { ok, error } && ok && error is None) && (
                r.0 matches GrantFlow::AwaitRecord { ok, output, error } && ok && output@
                    == grant_text(quantity, item_name@, quality, player_name@) && error is None),
                Err(m) => (r.1 matches AdminAction::Record { ok, error } && !ok && opt_text(error)
                    == Some(m@)) && (r.0 matches GrantFlow::AwaitRecord { ok, output, error } && !ok
                    && output@ == Seq::<char>::empty() && opt_text(error) == Some(m@)),
            },
            (GrantFlow::AwaitRecord { ok, output, error }, AdminEvent::Recorded) => r.1 matches AdminAction::Respond {
                ok: o,
                output: out,
                error: e,
            } && o == ok && out@ == output@ && opt_text(e) == opt_text(error),
            _ => true,
        },
{
    match flow {
        GrantFlow::AwaitPlayer { fls_id, item, quantity, quality } => match event {
            AdminEvent::Player(None) => (GrantFlow::Done, AdminAction::Refuse(player_not_found(fls_id.as_str()))),
            AdminEvent::Player(Some(p)) => match check_grant_player(&p) {
                Err(e) => (GrantFlow::Done, AdminAction::Refuse(e)),
                Ok(()) => (
                    GrantFlow::AwaitBackpack { item, quantity, quality, player_name: p.name },
                    AdminAction::LookupBackpack { account_id: p.account_id },
                ),
            },
            _ => (GrantFlow::AwaitPlayer { fls_id, item, quantity, quality }, AdminAction::Idle),
        },
        GrantFlow::AwaitBackpack { item, quantity, quality, player_name } => match event {
            AdminEvent::Backpack(None) => {
                let mut v = chars_of("no backpack inventory found for ");
                append_str(&mut v, player_name.as_str());
                (GrantFlow::Done, AdminAction::Refuse(AdminError::NotFound(string_of(&v))))
            },
            AdminEvent::Backpack(Some(b)) => {
                let row = quality_grant_item(&item, quantity, quality);
                let name = item.name.clone();
                (
                    GrantFlow::AwaitInsert { item_name: item.name, quantity, quality, player_name },
                    AdminAction::InsertGrant { inventory_id: b.inventory_id, row, item_name: name },
                )
            },
            _ => (GrantFlow::AwaitBackpack { item, quantity, quality, player_name }, AdminAction::Idle),
        },
        GrantFlow::AwaitInsert { item_name, quantity, quality, player_name } => match event {
            AdminEvent::Granted(Ok(())) => {
                let output = grant_output(quantity, item_name.as_str(), quality, player_name.as_str());
                (
                    GrantFlow::AwaitRecord { ok: true, output, error: None },
                    AdminAction::Record { ok: true, error: None },
                )
            },
            AdminEvent::Granted(Err(m)) => {
                let m2 = m.clone();
                (
                    GrantFlow::AwaitRecord { ok: false, output: empty_text(), error: Some(m) },
                    AdminAction::Record { ok: false, error: Some(m2) },
                )
            },
            _ => (GrantFlow::AwaitInsert { item_name, quantity, quality, player_name }, AdminAction::Idle),
        },
        GrantFlow::AwaitRecord { ok, output, error } => match event {
            AdminEvent::Recorded => (GrantFlow::Done, AdminAction::Respond { ok, output, error }),
            _ => (GrantFlow::AwaitRecord { ok, output, error }, AdminAction::Idle),
        },
        GrantFlow::Done => (GrantFlow::Done, AdminAction::Idle),
    }
}


// ---------------------------------------------------------------------------
// Specialization levels
// ---------------------------------------------------------------------------

/// Where a level change stands.
pub enum LevelFlow {
    AwaitPlayer { fls_id: String, track_type: String, level: i32 },
    AwaitSet,
    AwaitRecord { ok: bool, output: String, error: Option<String> },
    Done,
}

pub open spec fn level_stage(f: LevelFlow) -> Stage {
    match f {
        LevelFlow::AwaitPlayer { .. } => Stage::AwaitPlayer,
        LevelFlow::AwaitSet => Stage::AwaitEffect,
        LevelFlow::AwaitRecord { .. } => Stage::AwaitRecord,
        LevelFlow::Done => Stage::Done,
    }
}

/// An answer as the level handler reads it: a player may be edited when
/// offline and with a controller.
pub open spec fn level_event_kind(e: AdminEvent) -> EventKind {
    match e {
        AdminEvent::Player(None) => EventKind::PlayerMissing,
        AdminEvent::Player(Some(p)) => EventKind::PlayerFound {
            eligible: specialization_player_check(p.name@, p.online@, p.controller_id) is Ok,
        },
        AdminEvent::LevelSet(_) => EventKind::EffectDone,
        AdminEvent::Recorded => EventKind::Recorded,
        _ => EventKind::Other,
    }
}

/// The level text reported on success.
pub open spec fn level_text(track_type: Seq<char>, level: i32, xp: i32) -> Seq<char> {
    "Set "@ + track_type + " specialization to level "@ + dec_int(level as int) + " ("@ + dec_int(
        xp as int,
    ) + " xp). Player must fully relog before this appears in-game."@
}

/// Starts a level change: refused when the id is blank or the track
/// unknown, else the player is looked up.
pub fn level_start(req: &SetSpecializationLevelRequest) -> (r: (LevelFlow, AdminAction))
    ensures
        match set_specialization_check(req.fls_id@, req.track_type@) {
            Err(e) => r.0 is Done && (r.1 matches AdminAction::Refuse(x) && x@ == e),
            Ok((f, t)) => (r.0 matches LevelFlow::AwaitPlayer { fls_id, track_type, level }
                && fls_id@ == f && track_type@ == t && level == req.level) && (
            r.1 matches AdminAction::LookupPlayer { fls_id } && fls_id@ == f),
        },
{
    match validate_set_specialization(req) {
        Err(e) => (LevelFlow::Done, AdminAction::Refuse(e)),
        Ok((fls, track)) => {
            let f2 = fls.clone();
            (
                LevelFlow::AwaitPlayer { fls_id: fls, track_type: text(track), level: req.level },
                AdminAction::LookupPlayer { fls_id: f2 },
            )
        },
    }
}

/// One step of a level change.
pub fn level_step(flow: LevelFlow, event: AdminEvent) -> (r: (LevelFlow, AdminAction))
    ensures
        (level_stage(r.0), action_kind(r.1)) == next_step(
            false,
            level_stage(flow),
            level_event_kind(event),
        ),
        match (flow, event) {
            (LevelFlow::AwaitPlayer { fls_id, .. }, AdminEvent::Player(None)) => r.1 matches AdminAction::Refuse(
                x,
            ) && x@ == AdminErrorView::NotFound("player "@ + fls_id@ + " was not found"@),
            (LevelFlow::AwaitPlayer { track_type, level, .. }, AdminEvent::Player(Some(p))) => match specialization_player_check(
                p.name@,
                p.online@,
                p.controller_id,
            ) {
                Err(m) => r.1 matches AdminAction::Refuse(x) && x@ == m,
                Ok(_) => r.1 matches AdminAction::SetLevel { controller_id, track_type: t, level: l }
                    && controller_id == p.controller_id && t@ == track_type@ && l == level,
            },
            (LevelFlow::AwaitSet, AdminEvent::LevelSet(res)) => match res {
                Ok(done) => (r.1 matches AdminAction::Record { ok, error } && ok && error is None) && (
                r.0 matches LevelFlow::AwaitRecord { ok, output, error } && ok && output@ == level_text(
                    done.track_type@,
                    done.level,
                    done.xp,
                ) && error is None),
                Err(m) => (r.1 matches AdminAction::Record { ok, error } && !ok && opt_text(error)
                    == Some(m@)) && (r.0 matches LevelFlow::AwaitRecord { ok, output, error } && !ok
                    && output@ == Seq::<char>::empty() && opt_text(error) == Some(m@)),
            },
            (LevelFlow::AwaitRecord { ok, output, error }, AdminEvent::Recorded) => r.1 matches AdminAction::Respond {
                ok: o,
                output: out,
                error: e,
            } && o == ok && out@ == output@ && opt_text(e) == opt_text(error),
            _ => true,
        },
{
    match flow {
        LevelFlow::AwaitPlayer { fls_id, track_type, level } => match event {
            AdminEvent::Player(None) => (LevelFlow::Done, AdminAction::Refuse(player_not_found(fls_id.as_str()))),
            AdminEvent::Player(Some(p)) => match check_specialization_player(&p) {
                Err(e) => (LevelFlow::Done, AdminAction::Refuse(e)),
                Ok(()) => (
                    LevelFlow::AwaitSet,
                    AdminAction::SetLevel { controller_id: p.controller_id, track_type, level },
                ),
            },
            _ => (LevelFlow::AwaitPlayer { fls_id, track_type, level }, AdminAction::Idle),
        },
        LevelFlow::AwaitSet => match event {
            AdminEvent::LevelSet(Ok(done)) => {
                let output = specialization_output(done.track_type.as_str(), done.level, done.xp);
                (
                    LevelFlow::AwaitRecord { ok: true, output, error: None },
                    AdminAction::Record { ok: true, error: None },
                )
            },
            AdminEvent::LevelSet(Err(m)) => {
                let m2 = m.clone();
                (
                    LevelFlow::AwaitRecord { ok: false, output: empty_text(), error: Some(m) },
                    AdminAction::Record { ok: false, error: Some(m2) },
                )
            },
            _ => (LevelFlow::AwaitSet, AdminAction::Idle),
        },
        LevelFlow::AwaitRecord { ok, output, error } => match event {
            AdminEvent::Recorded => (LevelFlow::Done, AdminAction::Respond { ok, output, error }),
            _ => (LevelFlow::AwaitRecord { ok, output, error }, AdminAction::Idle),
        },
        LevelFlow::Done => (LevelFlow::Done, AdminAction::Idle),
    }
}

// ---------------------------------------------------------------------------
// Welcome whispers
// ---------------------------------------------------------------------------

/// Where a manual welcome whisper stands.
pub enum WhisperFlow {
    AwaitSend,
    AwaitRecord { ok: bool, output: String, error: Option<String> },
    Done,
}

pub open spec fn whisper_stage(f: WhisperFlow) -> Stage {
    match f {
        WhisperFlow::AwaitSend => Stage::AwaitEffect,
        WhisperFlow::AwaitRecord { .. } => Stage::AwaitRecord,
        WhisperFlow::Done => Stage::Done,
    }
}

pub open spec fn whisper_event_kind(e: AdminEvent) -> EventKind {
    match e {
        AdminEvent::Whispered(_) => EventKind::EffectDone,
        AdminEvent::Recorded => EventKind::Recorded,
        _ => EventKind::Other,
    }
}

/// Starts a manual welcome whisper: refused when the recipient or the
/// message is blank or the message is over 1000 bytes, else it is sent.
pub fn whisper_start(req: &WelcomeWhisperRequest) -> (r: (WhisperFlow, AdminAction))
    ensures
        match whisper_check(req.recipient_player_id@, req.source_player_id@, req.message@) {
            Err(e) => r.0 is Done && (r.1 matches AdminAction::Refuse(x) && x@ == e),
            Ok((s, p, m)) => r.0 is AwaitSend && (r.1 matches AdminAction::SendWhisper {
                source_player_id,
                recipient_player_id,
                message,
            } && source_player_id@ == s && recipient_player_id@ == p && message@ == m),
        },
{
    match validate_welcome_whisper(req) {
        Err(e) => (WhisperFlow::Done, AdminAction::Refuse(e)),
        Ok((source, recipient, message)) => (
            WhisperFlow::AwaitSend,
            AdminAction::SendWhisper { source_player_id: source, recipient_player_id: recipient, message },
        ),
    }
}

/// One step of a manual welcome whisper. A publish that ran but was not
/// accepted is recorded with its output as the error.
pub fn whisper_step(flow: WhisperFlow, event: AdminEvent) -> (r: (WhisperFlow, AdminAction))
    ensures
        (whisper_stage(r.0), action_kind(r.1)) == next_step(
            false,
            whisper_stage(flow),
            whisper_event_kind(event),
        ),
        match (flow, event) {
            (WhisperFlow::AwaitSend, AdminEvent::Whispered(res)) => match res {
                Ok((accepted, out)) => (r.1 matches AdminAction::Record { ok, error } && ok == accepted
                    && opt_text(error) == (if accepted {
                    None
                } else {
                    Some(out@)
                })) && (r.0 matches WhisperFlow::AwaitRecord { ok, output, error } && ok == accepted
                    && output@ == out@ && error is None),
                Err(m) => (r.1 matches AdminAction::Record { ok, error } && !ok && opt_text(error)
                    == Some(m@)) && (r.0 matches WhisperFlow::AwaitRecord { ok, output, error } && !ok
                    && output@ == Seq::<char>::empty() && opt_text(error) == Some(m@)),
            },
            (WhisperFlow::AwaitRecord { ok, output, error }, AdminEvent::Recorded) => r.1 matches AdminAction::Respond {
                ok: o,
                output: out,
                error: e,
            } && o == ok && out@ == output@ && opt_text(e) == opt_text(error),
            _ => true,
        },
{
    match flow {
        WhisperFlow::AwaitSend => match event {
            AdminEvent::Whispered(Ok((accepted, out))) => {
                let recorded = recorded_error(accepted, out.as_str(), None);
                (
                    WhisperFlow::AwaitRecord { ok: accepted, output: out, error: None },
                    AdminAction::Record { ok: accepted, error: recorded },
                )
            },
            AdminEvent::Whispered(Err(m)) => {
                let recorded = recorded_error(false, "", Some(m.clone()));
                (
                    WhisperFlow::AwaitRecord { ok: false, output: empty_text(), error: Some(m) },
                    AdminAction::Record { ok: false, error: recorded },
                )
            },
            _ => (WhisperFlow::AwaitSend, AdminAction::Idle),
        },
        WhisperFlow::AwaitRecord { ok, output, error } => match event {
            AdminEvent::Recorded => (WhisperFlow::Done, AdminAction::Respond { ok, output, error }),
            _ => (WhisperFlow::AwaitRecord { ok, output, error }, AdminAction::Idle),
        },
        WhisperFlow::Done => (WhisperFlow::Done, AdminAction::Idle),
    }
}

} // verus!
