//! The admin API's request shapes and the checks each handler makes before
//! it touches the database or the message queue, with the messages it
//! answers.
use vstd::prelude::*;
use crate::text::{
    all_digits, append, append_str, chars_of, dec, dec_int, fmt_i64, fmt_u64, is_ascii_digit,
    string_of, trim, trim_str,
};
use crate::catalog::{find_item, find_item_in, items_view, Item, ItemView};
use crate::players::{
    canonical_specialization_track, canonical_track, grant_item_stats_json, grant_stats_text,
    is_player_online, online_status, AccountBackpack, AdminPlayerTarget, BackpackGrantItem,
    MAX_QUALITY_GRANT_QUANTITY,
};

verus! {

/// Query of the search endpoints.
pub struct SearchQuery {
    pub q: Option<String>,
    pub limit: Option<u32>,
}

/// Query of the player-location endpoint.
pub struct PlayerLocationQuery {
    pub fls_id: String,
}

/// Query of the specialization endpoint.
pub struct SpecializationQuery {
    pub fls_id: String,
}

/// Body of the set-specialization-level endpoint.
pub struct SetSpecializationLevelRequest {
    pub fls_id: String,
    pub track_type: String,
    pub level: i32,
}

/// Body of the custom-quality item grant endpoint.
pub struct GrantQualityItemRequest {
    pub fls_id: String,
    pub item_id: String,
    pub quantity: i64,
    pub quality: i64,
}

/// Query of the history and welcome-grant listings.
pub struct HistoryQuery {
    pub limit: Option<u32>,
}

/// Body of the welcome-grant retry endpoint.
pub struct RetryWelcomeGrantRequest {
    pub player_id: String,
    pub package_version: String,
    pub account_id: i64,
}

/// Body of the manual welcome-whisper endpoint.
pub struct WelcomeWhisperRequest {
    pub recipient_player_id: String,
    pub source_player_id: String,
    pub message: String,
}

/// How a handler refuses a request.
pub enum AdminError {
    BadRequest(String),
    NotFound(String),
}

pub enum AdminErrorView {
    BadRequest(Seq<char>),
    NotFound(Seq<char>),
}

impl View for AdminError {
    type V = AdminErrorView;

    open spec fn view(&self) -> AdminErrorView {
        match self {
            AdminError::BadRequest(m) => AdminErrorView::BadRequest(m@),
            AdminError::NotFound(m) => AdminErrorView::NotFound(m@),
        }
    }
}

fn bad_request(msg: &str) -> (r: AdminError)
    ensures
        r@ == AdminErrorView::BadRequest(msg@),
{
    AdminError::BadRequest(string_of(&chars_of(msg)))
}

fn bad_request_chars(msg: &Vec<char>) -> (r: AdminError)
    ensures
        r@ == AdminErrorView::BadRequest(msg@),
{
    AdminError::BadRequest(string_of(msg))
}

// ---------------------------------------------------------------------------
// Searches and listings
// ---------------------------------------------------------------------------

/// What a search endpoint looks through.
#[derive(PartialEq, Eq, Structural, Clone, Copy, Debug)]
pub enum SearchTarget {
    Items,
    Vehicles,
    SkillModules,
    JourneyNodes,
    XpEventTags,
    Players,
}

/// The result count a search returns when the query names none.
pub open spec fn default_search_limit(t: SearchTarget) -> u32 {
    match t {
        SearchTarget::Items => 50,
        SearchTarget::Vehicles => 20,
        SearchTarget::SkillModules => 50,
        SearchTarget::JourneyNodes => 80,
        SearchTarget::XpEventTags => 50,
        SearchTarget::Players => 50,
    }
}

/// The search text (empty when absent) and the limit (the endpoint's
/// default when absent).
pub fn search_terms(q: &SearchQuery, target: SearchTarget) -> (r: (String, u32))
    ensures
        r.0@ == match q.q {
            Some(s) => s@,
            None => Seq::<char>::empty(),
        },
        r.1 == match q.limit {
            Some(l) => l,
            None => default_search_limit(target),
        },
{
    let text = match &q.q {
        Some(s) => string_of(&chars_of(s.as_str())),
        None => String::new(),
    };
    let dflt: u32 = match target {
        SearchTarget::Items => 50,
        SearchTarget::Vehicles => 20,
        SearchTarget::SkillModules => 50,
        SearchTarget::JourneyNodes => 80,
        SearchTarget::XpEventTags => 50,
        SearchTarget::Players => 50,
    };
    let limit = match q.limit {
        Some(l) => l,
        None => dflt,
    };
    (text, limit)
}

/// The number of welcome-grant rows listed: 100 unless the query says.
pub fn welcome_grants_limit(q: &HistoryQuery) -> (r: u32)
    ensures
        r == match q.limit {
            Some(l) => l,
            None => 100u32,
        },
{
    match q.limit {
        Some(l) => l,
        None => 100,
    }
}

// ---------------------------------------------------------------------------
// Player lookups
// ---------------------------------------------------------------------------

/// The answer when no player matches an id.
pub fn player_not_found(fls_id: &str) -> (r: AdminError)
    ensures
        r@ == AdminErrorView::NotFound("player "@ + fls_id@ + " was not found"@),
{
    let mut v = chars_of("player ");
    append_str(&mut v, fls_id);
    append_str(&mut v, " was not found");
    AdminError::NotFound(string_of(&v))
}

/// The answer when a player has no live pawn.
pub fn no_live_pawn(q: &PlayerLocationQuery) -> (r: AdminError)
    ensures
        r@ == AdminErrorView::NotFound(
            "no live pawn for fls_id "@ + q.fls_id@ + " — player may be offline"@,
        ),
{
    let mut v = chars_of("no live pawn for fls_id ");
    append_str(&mut v, q.fls_id.as_str());
    append_str(&mut v, " — player may be offline");
    AdminError::NotFound(string_of(&v))
}

pub open spec fn fls_check(fls_id: Seq<char>) -> Result<Seq<char>, AdminErrorView> {
    if trim(fls_id).len() == 0 {
        Err(AdminErrorView::BadRequest("flsId must not be empty"@))
    } else {
        Ok(trim(fls_id))
    }
}

fn checked_fls(fls_id: &str) -> (r: Result<String, AdminError>)
    ensures
        match fls_check(fls_id@) {
            Ok(t) => r matches Ok(s) && s@ == t,
            Err(e) => r matches Err(x) && x@ == e,
        },
{
    let t = trim_str(fls_id);
    if t.len() == 0 {
        return Err(bad_request("flsId must not be empty"));
    }
    Ok(string_of(&t))
}

/// The trimmed player id a specialization lookup uses.
pub fn validate_specialization_query(q: &SpecializationQuery) -> (r: Result<String, AdminError>)
    ensures
        match fls_check(q.fls_id@) {
            Ok(t) => r matches Ok(s) && s@ == t,
            Err(e) => r matches Err(x) && x@ == e,
        },
{
    checked_fls(q.fls_id.as_str())
}

// ---------------------------------------------------------------------------
// Specialization edits
// ---------------------------------------------------------------------------

/// A level change's player id and canonical track, or why it is refused.
pub open spec fn set_specialization_check(
    fls_id: Seq<char>,
    track_type: Seq<char>,
) -> Result<(Seq<char>, Seq<char>), AdminErrorView> {
    match fls_check(fls_id) {
        Err(e) => Err(e),
        Ok(f) => match canonical_track(track_type) {
            None => Err(
                AdminErrorView::BadRequest("unknown specialization track "@ + track_type),
            ),
            Some(t) => Ok((f, t)),
        },
    }
}

/// Checks a level change request before any lookup.
pub fn validate_set_specialization(req: &SetSpecializationLevelRequest) -> (r: Result<
    (String, &'static str),
    AdminError,
>)
    ensures
        match set_specialization_check(req.fls_id@, req.track_type@) {
            Ok((f, t)) => r matches Ok(p) && p.0@ == f && p.1@ == t,
            Err(e) => r matches Err(x) && x@ == e,
        },
{
    let fls = match checked_fls(req.fls_id.as_str()) {
        Ok(f) => f,
        Err(e) => return Err(e),
    };
    match canonical_specialization_track(req.track_type.as_str()) {
        None => {
            let mut v = chars_of("unknown specialization track ");
            append_str(&mut v, req.track_type.as_str());
            Err(bad_request_chars(&v))
        },
        Some(t) => Ok((fls, t)),
    }
}

/// Specialization edits need an offline player with a controller.
pub open spec fn specialization_player_check(
    name: Seq<char>,
    online: Seq<char>,
    controller_id: i64,
) -> Result<(), AdminErrorView> {
    if online_status(online) {
        Err(
            AdminErrorView::BadRequest(
                name
                    + " is currently online. Specialization edits are offline-only; have the player fully log out first."@,
            ),
        )
    } else if controller_id <= 0 {
        Err(AdminErrorView::BadRequest(name + " does not have a valid controller id"@))
    } else {
        Ok(())
    }
}

/// Whether a resolved player may have their specialization edited.
pub fn check_specialization_player(player: &AdminPlayerTarget) -> (r: Result<(), AdminError>)
    ensures
        match specialization_player_check(player.name@, player.online@, player.controller_id) {
            Ok(()) => r is Ok,
            Err(e) => r matches Err(x) && x@ == e,
        },
{
    if is_player_online(player.online.as_str()) {
        let mut v = chars_of(player.name.as_str());
        append_str(
            &mut v,
            " is currently online. Specialization edits are offline-only; have the player fully log out first.",
        );
        return Err(bad_request_chars(&v));
    }
    if player.controller_id <= 0 {
        let mut v = chars_of(player.name.as_str());
        append_str(&mut v, " does not have a valid controller id");
        return Err(bad_request_chars(&v));
    }
    Ok(())
}

/// The text reported after a level change.
pub fn specialization_output(track_type: &str, level: i32, xp: i32) -> (r: String)
    ensures
        r@ == "Set "@ + track_type@ + " specialization to level "@ + dec_int(level as int) + " ("@
            + dec_int(xp as int)
            + " xp). Player must fully relog before this appears in-game."@,
{
    let mut v = chars_of("Set ");
    append_str(&mut v, track_type);
    append_str(&mut v, " specialization to level ");
    append(&mut v, &fmt_i64(level as i64));
    append_str(&mut v, " (");
    append(&mut v, &fmt_i64(xp as i64));
    append_str(&mut v, " xp). Player must fully relog before this appears in-game.");
    string_of(&v)
}

// ---------------------------------------------------------------------------
// Custom-quality item grants
// ---------------------------------------------------------------------------

/// A grant request that passed the request checks: trimmed ids, the
/// quantity clamped to 1..=10000, and the quality.
pub struct QualityGrant {
    pub fls_id: String,
    pub item_id: String,
    pub quantity: i64,
    pub quality: i64,
}

pub open spec fn clamp_quantity(q: int) -> int {
    if q < 1 {
        1
    } else if q > MAX_QUALITY_GRANT_QUANTITY {
        MAX_QUALITY_GRANT_QUANTITY as int
    } else {
        q
    }
}

/// The request checks of a custom-quality grant, in the order they run.
pub open spec fn grant_request_check(
    fls_id: Seq<char>,
    item_id: Seq<char>,
    quantity: i64,
    quality: i64,
) -> Result<(Seq<char>, Seq<char>, int), AdminErrorView> {
    if trim(fls_id).len() == 0 {
        Err(AdminErrorView::BadRequest("flsId must not be empty"@))
    } else if trim(item_id).len() == 0 {
        Err(AdminErrorView::BadRequest("itemId must not be empty"@))
    } else if all_digits(trim(item_id)) {
        Err(AdminErrorView::BadRequest("itemId must be a template class name, not a numeric id"@))
    } else if !(1 <= quality <= 5) {
        Err(AdminErrorView::BadRequest("quality must be 1..=5 for custom-tier item grants"@))
    } else {
        Ok((trim(fls_id), trim(item_id), clamp_quantity(quantity as int)))
    }
}

fn all_ascii_digits(v: &Vec<char>) -> (r: bool)
    ensures
        r == all_digits(v@),
{
    let mut i: usize = 0;
    while i < v.len()
        invariant
            i <= v.len(),
            forall|j: int| 0 <= j < i ==> is_ascii_digit(#[trigger] v@[j]),
        decreases v.len() - i,
    {
        if !('0' <= v[i] && v[i] <= '9') {
            assert(!is_ascii_digit(v@[i as int]));
            return false;
        }
        i += 1;
    }
    true
}

/// Checks a custom-quality grant request before any lookup.
pub fn validate_grant_request(req: &GrantQualityItemRequest) -> (r: Result<QualityGrant, AdminError>)
    ensures
        match grant_request_check(req.fls_id@, req.item_id@, req.quantity, req.quality) {
            Ok((f, i, q)) => r matches Ok(g) && g.fls_id@ == f && g.item_id@ == i && g.quantity
                == q && g.quality == req.quality,
            Err(e) => r matches Err(x) && x@ == e,
        },
{
    let fls = trim_str(req.fls_id.as_str());
    if fls.len() == 0 {
        return Err(bad_request("flsId must not be empty"));
    }
    let item = trim_str(req.item_id.as_str());
    if item.len() == 0 {
        return Err(bad_request("itemId must not be empty"));
    }
    if all_ascii_digits(&item) {
        return Err(bad_request("itemId must be a template class name, not a numeric id"));
    }
    let quantity = if req.quantity < 1 {
        1
    } else if req.quantity > MAX_QUALITY_GRANT_QUANTITY {
        MAX_QUALITY_GRANT_QUANTITY
    } else {
        req.quantity
    };
    if !(1 <= req.quality && req.quality <= 5) {
        return Err(bad_request("quality must be 1..=5 for custom-tier item grants"));
    }
    Ok(
        QualityGrant {
            fls_id: string_of(&fls),
            item_id: string_of(&item),
            quantity,
            quality: req.quality,
        },
    )
}

/// The catalog item a grant names, when it exists and takes quality tiers.
pub open spec fn grant_item_check(items: Seq<ItemView>, item_id: Seq<char>) -> Result<
    ItemView,
    AdminErrorView,
> {
    match find_item_in(items, item_id) {
        None => Err(
            AdminErrorView::BadRequest("item "@ + item_id + " was not found in the catalog"@),
        ),
        Some(it) => if !it.gradeable {
            Err(AdminErrorView::BadRequest(it.name + " does not support item quality tiers"@))
        } else {
            Ok(it)
        },
    }
}

/// Looks up the granted item in the catalog.
pub fn grant_item(items: &Vec<Item>, item_id: &str) -> (r: Result<Item, AdminError>)
    ensures
        match grant_item_check(items_view(items@), item_id@) {
            Ok(it) => r matches Ok(x) && x@ == it,
            Err(e) => r matches Err(x) && x@ == e,
        },
{
    match find_item(items, item_id) {
        None => {
            let mut v = chars_of("item ");
            append_str(&mut v, item_id);
            append_str(&mut v, " was not found in the catalog");
            Err(bad_request_chars(&v))
        },
        Some(p) => {
            let it = &items[p];
            if !it.gradeable {
                let mut v = chars_of(it.name.as_str());
                append_str(&mut v, " does not support item quality tiers");
                Err(bad_request_chars(&v))
            } else {
                Ok(it.duplicate())
            }
        },
    }
}

/// Quality grants need an offline player.
pub open spec fn grant_player_check(name: Seq<char>, online: Seq<char>) -> Result<(), AdminErrorView> {
    if online_status(online) {
        Err(
            AdminErrorView::BadRequest(
                name
                    + " is currently online. Custom-tier item grants are offline-only; have the player fully log out first."@,
            ),
        )
    } else {
        Ok(())
    }
}

/// Whether a resolved player may receive a quality grant.
pub fn check_grant_player(player: &AdminPlayerTarget) -> (r: Result<(), AdminError>)
    ensures
        match grant_player_check(player.name@, player.online@) {
            Ok(()) => r is Ok,
            Err(e) => r matches Err(x) && x@ == e,
        },
{
    if is_player_online(player.online.as_str()) {
        let mut v = chars_of(player.name.as_str());
        append_str(
            &mut v,
            " is currently online. Custom-tier item grants are offline-only; have the player fully log out first.",
        );
        return Err(bad_request_chars(&v));
    }
    Ok(())
}

/// The backpack a grant goes to, or the not-found answer.
pub fn require_backpack(player: &AdminPlayerTarget, backpack: Option<AccountBackpack>) -> (r: Result<
    AccountBackpack,
    AdminError,
>)
    ensures
        match backpack {
            Some(b) => r == Ok::<AccountBackpack, AdminError>(b),
            None => r matches Err(x) && x@ == AdminErrorView::NotFound(
                "no backpack inventory found for "@ + player.name@,
            ),
        },
{
    match backpack {
        Some(b) => Ok(b),
        None => {
            let mut v = chars_of("no backpack inventory found for ");
            append_str(&mut v, player.name.as_str());
            Err(AdminError::NotFound(string_of(&v)))
        },
    }
}

/// The row inserted for a quality grant.
pub fn quality_grant_item(item: &Item, quantity: i64, quality: i64) -> (r: BackpackGrantItem)
    ensures
        r.template_id@ == item.id@,
        r.quantity == quantity,
        r.stats_json@ == grant_stats_text(item.stack_max),
        r.quality_level == quality,
{
    BackpackGrantItem {
        template_id: string_of(&chars_of(item.id.as_str())),
        quantity,
        stats_json: string_of(&chars_of(grant_item_stats_json(item.stack_max))),
        quality_level: quality,
    }
}

/// The text reported after a quality grant.
pub fn grant_output(quantity: i64, item_name: &str, quality: i64, player_name: &str) -> (r: String)
    ensures
        r@ == "Gave "@ + dec_int(quantity as int) + " x "@ + item_name@ + " at quality "@ + dec_int(
            quality as int,
        ) + " to "@ + player_name@ + ". Player must fully relog before this appears in-game."@,
{
    let mut v = chars_of("Gave ");
    append(&mut v, &fmt_i64(quantity));
    append_str(&mut v, " x ");
    append_str(&mut v, item_name);
    append_str(&mut v, " at quality ");
    append(&mut v, &fmt_i64(quality));
    append_str(&mut v, " to ");
    append_str(&mut v, player_name);
    append_str(&mut v, ". Player must fully relog before this appears in-game.");
    string_of(&v)
}

// ---------------------------------------------------------------------------
// Welcome package
// ---------------------------------------------------------------------------

/// A retry's trimmed player id and package version, or why it is refused.
pub open spec fn retry_check(player_id: Seq<char>, package_version: Seq<char>) -> Result<
    (Seq<char>, Seq<char>),
    AdminErrorView,
> {
    if trim(player_id).len() == 0 {
        Err(AdminErrorView::BadRequest("playerId must not be empty"@))
    } else if trim(package_version).len() == 0 {
        Err(AdminErrorView::BadRequest("packageVersion must not be empty"@))
    } else {
        Ok((trim(player_id), trim(package_version)))
    }
}

/// Checks a welcome-grant retry request.
pub fn validate_retry_welcome_grant(req: &RetryWelcomeGrantRequest) -> (r: Result<
    (String, String),
    AdminError,
>)
    ensures
        match retry_check(req.player_id@, req.package_version@) {
            Ok((p, v)) => r matches Ok(x) && x.0@ == p && x.1@ == v,
            Err(e) => r matches Err(x) && x@ == e,
        },
{
    let p = trim_str(req.player_id.as_str());
    if p.len() == 0 {
        return Err(bad_request("playerId must not be empty"));
    }
    let v = trim_str(req.package_version.as_str());
    if v.len() == 0 {
        return Err(bad_request("packageVersion must not be empty"));
    }
    Ok((string_of(&p), string_of(&v)))
}

/// The byte length of text as UTF-8.
pub open spec fn utf8_len(s: Seq<char>) -> nat {
    vstd::utf8::encode_utf8(s).len()
}

/// A manual whisper's trimmed source, recipient and message, or why it is
/// refused; the message may hold at most 1000 bytes.
pub open spec fn whisper_check(recipient: Seq<char>, source: Seq<char>, message: Seq<char>) -> Result<
    (Seq<char>, Seq<char>, Seq<char>),
    AdminErrorView,
> {
    if trim(recipient).len() == 0 {
        Err(AdminErrorView::BadRequest("recipient_player_id must not be empty"@))
    } else if trim(message).len() == 0 {
        Err(AdminErrorView::BadRequest("message must not be empty"@))
    } else if utf8_len(trim(message)) > 1000 {
        Err(AdminErrorView::BadRequest("message must be <= 1000 characters"@))
    } else {
        Ok((trim(source), trim(recipient), trim(message)))
    }
}

/// Checks a manual welcome whisper.
pub fn validate_welcome_whisper(req: &WelcomeWhisperRequest) -> (r: Result<
    (String, String, String),
    AdminError,
>)
    ensures
        match whisper_check(req.recipient_player_id@, req.source_player_id@, req.message@) {
            Ok((s, p, m)) => r matches Ok(x) && x.0@ == s && x.1@ == p && x.2@ == m,
            Err(e) => r matches Err(x) && x@ == e,
        },
{
    let recipient = trim_str(req.recipient_player_id.as_str());
    if recipient.len() == 0 {
        return Err(bad_request("recipient_player_id must not be empty"));
    }
    let message = trim_str(req.message.as_str());
    if message.len() == 0 {
        return Err(bad_request("message must not be empty"));
    }
    let m = string_of(&message);
    if m.as_str().as_bytes().len() > 1000 {
        return Err(bad_request("message must be <= 1000 characters"));
    }
    let source = string_of(&trim_str(req.source_player_id.as_str()));
    Ok((source, string_of(&recipient), m))
}

/// The error recorded for a command: the failure's text, or the output
/// when the command ran but reported failure.
pub fn recorded_error(ok: bool, output: &str, error: Option<String>) -> (r: Option<String>)
    ensures
        match error {
            Some(e) => r matches Some(x) && x@ == e@,
            None => if ok {
                r is None
            } else {
                r matches Some(x) && x@ == output@
            },
        },
{
    match error {
        Some(e) => Some(e),
        None => if ok {
            None
        } else {
            Some(string_of(&chars_of(output)))
        },
    }
}

} // verus!
