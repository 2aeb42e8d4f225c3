//! Player records and the rules applied to them: online status,
//! specialization tracks, levels and stored rows, grant stats, backpack
//! slots, and the player search query.
use vstd::prelude::*;
use crate::text::{
    append, append_str, ascii_lower, chars_of, dec, eq_chars, eq_ignore_ascii_case,
    eq_ignore_case, fmt_u64, is_ws, lemma_trim_plain, lowercase_text, string_of, to_lowercase,
    trim, trim_str,
};
use crate::catalog::strings_view;

verus! {

/// A player row from the search query.
pub struct Player {
    pub fls_id: String,
    pub name: String,
    pub online: String,
    pub last_seen: String,
    pub level: Option<i32>,
    pub partition_id: Option<i64>,
    pub account_id: i64,
    pub pawn_id: i64,
    pub controller_id: i64,
}

/// The player an admin action targets.
pub struct AdminPlayerTarget {
    pub fls_id: String,
    pub name: String,
    pub online: String,
    pub account_id: i64,
    pub pawn_id: i64,
    pub controller_id: i64,
}

/// The outcome of setting a specialization level.
pub struct SetSpecializationResult {
    pub track_type: String,
    pub level: i32,
    pub xp: i32,
}

/// An account considered for the welcome package.
pub struct WelcomeAccount {
    pub account_id: i64,
    pub fls_id: String,
}

/// The backpack inventory of an account's character.
pub struct AccountBackpack {
    pub inventory_id: i64,
    pub character_name: Option<String>,
}

/// A player resolved for chat.
pub struct ChatPlayer {
    pub account_id: i64,
    pub fls_id: String,
    pub funcom_id: String,
    pub character_name: String,
}

/// One item to insert into a backpack.
pub struct BackpackGrantItem {
    pub template_id: String,
    pub quantity: i64,
    pub stats_json: String,
    pub quality_level: i64,
}

pub const SPECIALIZATION_XP_MAX: i32 = 44182;

pub const SPECIALIZATION_LEVEL_MAX: i32 = 100;

pub const SPECIALIZATION_KEYSTONE_MAX: i32 = 205;

pub const MAX_QUALITY_GRANT_QUANTITY: i64 = 10000;

/// A status counts as online when, trimmed, it equals `online` ignoring
/// ASCII case.
pub open spec fn online_status(status: Seq<char>) -> bool {
    eq_ignore_ascii_case(trim(status), "online"@)
}

/// Whether a player's stored online status means online.
pub fn is_player_online(status: &str) -> (r: bool)
    ensures
        r == online_status(status@),
{
    let t = trim_str(status);
    let o = chars_of("online");
    eq_ignore_case(&t, &o)
}

/// The specialization tracks in display order.
pub open spec fn track_names() -> Seq<Seq<char>> {
    seq!["Combat"@, "Crafting"@, "Exploration"@, "Gathering"@, "Sabotage"@]
}

/// The position of the first track whose name matches, ignoring ASCII case.
pub open spec fn track_index_from(name: Seq<char>, from: nat) -> Option<nat>
    decreases 5 - from,
{
    if from >= 5 {
        None
    } else if eq_ignore_ascii_case(track_names()[from as int], name) {
        Some(from)
    } else {
        track_index_from(name, from + 1)
    }
}

/// The canonical name of the track a user-supplied name (trimmed, ASCII
/// case ignored) designates.
pub open spec fn canonical_track(track: Seq<char>) -> Option<Seq<char>> {
    match track_index_from(trim(track), 0) {
        Some(i) => Some(track_names()[i as int]),
        None => None,
    }
}

fn track_name(i: usize) -> (r: &'static str)
    requires
        i < 5,
    ensures
        r@ == track_names()[i as int],
{
    if i == 0 {
        "Combat"
    } else if i == 1 {
        "Crafting"
    } else if i == 2 {
        "Exploration"
    } else if i == 3 {
        "Gathering"
    } else {
        "Sabotage"
    }
}

/// The canonical name of a specialization track.
pub fn canonical_specialization_track(track: &str) -> (r: Option<&'static str>)
    ensures
        match canonical_track(track@) {
            Some(t) => r matches Some(s) && s@ == t,
            None => r is None,
        },
{
    let t = trim_str(track);
    let mut i: usize = 0;
    while i < 5
        invariant
            i <= 5,
            t@ == trim(track@),
            track_index_from(t@, 0) == track_index_from(t@, i as nat),
        decreases 5 - i,
    {
        let name = track_name(i);
        if eq_ignore_case(&chars_of(name), &t) {
            return Some(name);
        }
        i += 1;
    }
    None
}

/// A level held to 0..=100.
pub open spec fn clamp_level(level: int) -> int {
    if level < 0 {
        0
    } else if level > SPECIALIZATION_LEVEL_MAX {
        SPECIALIZATION_LEVEL_MAX as int
    } else {
        level
    }
}

/// Clamps a specialization level to 0..=100.
pub fn clamp_specialization_level(level: i32) -> (r: i32)
    ensures
        r == clamp_level(level as int),
{
    if level < 0 {
        0
    } else if level > SPECIALIZATION_LEVEL_MAX {
        SPECIALIZATION_LEVEL_MAX
    } else {
        level
    }
}

/// The xp stored for a level: the maximum at level 100, otherwise
/// 3.107 l² + 131.1 l rounded to the nearest integer, within 0..=44182.
pub open spec fn level_xp(level: int) -> int {
    let l = clamp_level(level);
    if l >= SPECIALIZATION_LEVEL_MAX {
        SPECIALIZATION_XP_MAX as int
    } else {
        let e = (3107 * l * l + 131100 * l + 500) / 1000;
        if e > SPECIALIZATION_XP_MAX {
            SPECIALIZATION_XP_MAX as int
        } else {
            e
        }
    }
}

/// The xp for a specialization level, after clamping the level.
pub fn specialization_level_to_xp(level: i32) -> (r: i32)
    ensures
        r == level_xp(level as int),
        0 <= r <= SPECIALIZATION_XP_MAX,
{
    let l = clamp_specialization_level(level);
    if l >= SPECIALIZATION_LEVEL_MAX {
        return SPECIALIZATION_XP_MAX;
    }
    let w = l as i64;
    assert(0 <= w * w <= 9801) by (nonlinear_arith)
        requires
            0 <= w <= 99,
    ;
    let e = (3107 * (w * w) + 131100 * w + 500) / 1000;
    assert(3107 * (w * w) == 3107 * w * w) by (nonlinear_arith);
    if e > SPECIALIZATION_XP_MAX as i64 {
        SPECIALIZATION_XP_MAX
    } else {
        e as i32
    }
}

/// The stats JSON a granted item is stored with: stackable items carry a
/// durability entry, others the customization and stack entries.
pub open spec fn grant_stats_text(stack_max: Option<u32>) -> Seq<char> {
    let n: u32 = match stack_max {
        Some(v) => v,
        None => 0,
    };
    if n > 1 {
        "{\"FItemStackAndDurabilityStats\":[[],{\"DecayedMaxDurability\":0.0}]}"@
    } else {
        "{\"FCustomizationStats\":[[],{}],\"FItemStackAndDurabilityStats\":[[],{}]}"@
    }
}

/// The stats JSON for a granted item.
pub fn grant_item_stats_json(stack_max: Option<u32>) -> (r: &'static str)
    ensures
        r@ == grant_stats_text(stack_max),
{
    let n: u32 = match stack_max {
        Some(v) => v,
        None => 0,
    };
    if n > 1 {
        return "{\"FItemStackAndDurabilityStats\":[[],{\"DecayedMaxDurability\":0.0}]}";
    }
    "{\"FCustomizationStats\":[[],{}],\"FItemStackAndDurabilityStats\":[[],{}]}"
}

/// The outcome of a level change before it is written: the canonical track,
/// the clamped level and its xp, or the unknown-track error.
pub open spec fn specialization_plan(track: Seq<char>, level: int) -> Result<
    (Seq<char>, int, int),
    Seq<char>,
> {
    match canonical_track(track) {
        None => Err("unknown specialization track "@ + track),
        Some(t) => Ok((t, clamp_level(level), level_xp(level))),
    }
}

/// Resolves the track and computes the level and xp to store.
pub fn plan_specialization_level(track_type: &str, level: i32) -> (r: Result<
    SetSpecializationResult,
    String,
>)
    ensures
        match specialization_plan(track_type@, level as int) {
            Ok((t, l, x)) => r matches Ok(s) && s.track_type@ == t && s.level == l && s.xp == x,
            Err(e) => r matches Err(m) && m@ == e,
        },
{
    let track = match canonical_specialization_track(track_type) {
        None => {
            let mut v = chars_of("unknown specialization track ");
            append_str(&mut v, track_type);
            return Err(string_of(&v));
        },
        Some(t) => t,
    };
    let l = clamp_specialization_level(level);
    let xp = specialization_level_to_xp(l);
    assert(clamp_level(l as int) == l);
    Ok(SetSpecializationResult { track_type: string_of(&chars_of(track)), level: l, xp })
}

// ---------------------------------------------------------------------------
// Player search
// ---------------------------------------------------------------------------

/// The player-search query text before the level column.
pub const PLAYERS_SQL_HEAD: &'static str = "\nWITH matches AS (\n    SELECT DISTINCT\n        COALESCE(enc.\"user\"::text, '') AS fls_id,\n        COALESCE(ps.character_name, '')   AS character_name,\n        COALESCE(ps.online_status::text, '') AS online_status,\n        COALESCE(\n            to_char(ps.last_avatar_activity AT TIME ZONE 'UTC', 'YYYY-MM-DD HH24:MI:SS'),\n            ''\n        ) AS last_seen,\n        ";

/// The player-search query text after the level column.
pub const PLAYERS_SQL_TAIL: &'static str = " AS player_level,\n        a.partition_id,\n        ps.account_id::int8 AS account_id,\n        COALESCE(ps.player_pawn_id, 0)::int8 AS pawn_id,\n        COALESCE(ps.player_controller_id, 0)::int8 AS controller_id\n    FROM dune.player_state ps\n    LEFT JOIN dune.accounts acct           ON acct.id = ps.account_id\n    LEFT JOIN dune.encrypted_accounts enc  ON enc.id  = ps.account_id\n    LEFT JOIN dune.actors a                ON a.id     = ps.player_pawn_id\n    WHERE lower(ps.character_name) LIKE lower($1)\n       OR lower(COALESCE(enc.\"user\"::text, '')) LIKE lower($1)\n       OR lower(COALESCE(acct.funcom_id::text, '')) LIKE lower($1)\n)\nSELECT fls_id, character_name, online_status, last_seen, player_level, partition_id,\n       account_id, pawn_id, controller_id\nFROM matches\nWHERE fls_id <> ''\nORDER BY\n    CASE WHEN lower(online_status) = 'online' THEN 0 ELSE 1 END,\n    last_seen DESC,\n    character_name ASC\nLIMIT $2;\n";

/// The player-search query around the level expression.
pub fn players_sql(level_expr: &str) -> (r: String)
    ensures
        r@ == PLAYERS_SQL_HEAD@ + level_expr@ + PLAYERS_SQL_TAIL@,
{
    let mut v = chars_of(PLAYERS_SQL_HEAD);
    append_str(&mut v, level_expr);
    append_str(&mut v, PLAYERS_SQL_TAIL);
    string_of(&v)
}

/// The `LIKE` pattern and the row limit (clamped to 1..=200) of a player
/// search.
pub fn player_search_params(query: &str, limit: u32) -> (r: (String, i64))
    ensures
        r.0@ == "%"@ + query@ + "%"@,
        r.1 == if limit < 1 {
            1
        } else if limit > 200 {
            200
        } else {
            limit as int
        },
{
    let mut v = chars_of("%");
    append_str(&mut v, query);
    append_str(&mut v, "%");
    let l: i64 = if limit < 1 {
        1
    } else if limit > 200 {
        200
    } else {
        limit as i64
    };
    (string_of(&v), l)
}

/// Column names that may hold a player's level, most specific first.
pub open spec fn level_column_candidates() -> Seq<Seq<char>> {
    seq![
        "level"@,
        "character_level"@,
        "player_level"@,
        "experience_level"@,
        "current_level"@,
        "total_level"@,
    ]
}

/// The first candidate (from position `from`) that the table has.
pub open spec fn first_available_from(avail: Seq<Seq<char>>, from: nat) -> Option<Seq<char>>
    decreases level_column_candidates().len() - from,
{
    if from >= level_column_candidates().len() {
        None
    } else if avail.contains(level_column_candidates()[from as int]) {
        Some(level_column_candidates()[from as int])
    } else {
        first_available_from(avail, from + 1)
    }
}

/// The level expression of the player search: the first candidate column
/// the table has, cast to int, or a NULL int.
pub open spec fn level_expr_of(avail: Seq<Seq<char>>) -> Seq<char> {
    match first_available_from(avail, 0) {
        Some(c) => "ps.\""@ + c + "\"::int"@,
        None => "NULL::int"@,
    }
}

fn level_candidate(i: usize) -> (r: &'static str)
    requires
        i < 6,
    ensures
        r@ == level_column_candidates()[i as int],
{
    if i == 0 {
        "level"
    } else if i == 1 {
        "character_level"
    } else if i == 2 {
        "player_level"
    } else if i == 3 {
        "experience_level"
    } else if i == 4 {
        "current_level"
    } else {
        "total_level"
    }
}

fn contains_text(avail: &Vec<String>, c: &str) -> (r: bool)
    ensures
        r == strings_view(avail@).contains(c@),
{
    let target = chars_of(c);
    let ghost vs = strings_view(avail@);
    let mut i: usize = 0;
    while i < avail.len()
        invariant
            i <= avail.len(),
            vs == strings_view(avail@),
            target@ == c@,
            forall|j: int| 0 <= j < i ==> vs[j] != c@,
        decreases avail.len() - i,
    {
        if eq_chars(&chars_of(avail[i].as_str()), &target) {
            assert(vs[i as int] == c@);
            return true;
        }
        i += 1;
    }
    false
}

/// The level expression for the columns the player table has.
pub fn player_level_expr(available: &Vec<String>) -> (r: String)
    ensures
        r@ == level_expr_of(strings_view(available@)),
{
    let ghost avail = strings_view(available@);
    let mut i: usize = 0;
    while i < 6
        invariant
            i <= 6,
            avail == strings_view(available@),
            first_available_from(avail, 0) == first_available_from(avail, i as nat),
        decreases 6 - i,
    {
        let c = level_candidate(i);
        if contains_text(available, c) {
            let mut v = chars_of("ps.\"");
            append_str(&mut v, c);
            append_str(&mut v, "\"::int");
            return string_of(&v);
        }
        i += 1;
    }
    string_of(&chars_of("NULL::int"))
}

// ---------------------------------------------------------------------------
// Specialization lookups
// ---------------------------------------------------------------------------

/// A specialization lookup needs the player's controller.
pub open spec fn lookup_check(fls_id: Seq<char>, controller_id: i64) -> Result<(), Seq<char>> {
    if controller_id <= 0 {
        Err("player "@ + fls_id + " does not have a valid controller id"@)
    } else {
        Ok(())
    }
}

/// Whether a player's specialization can be read.
pub fn check_specialization_lookup(player: &AdminPlayerTarget) -> (r: Result<(), String>)
    ensures
        match lookup_check(player.fls_id@, player.controller_id) {
            Ok(()) => r is Ok,
            Err(e) => r matches Err(m) && m@ == e,
        },
{
    if player.controller_id <= 0 {
        let mut v = chars_of("player ");
        append_str(&mut v, player.fls_id.as_str());
        append_str(&mut v, " does not have a valid controller id");
        return Err(string_of(&v));
    }
    Ok(())
}

/// A stored specialization row: its track name and xp (its level stays
/// with the caller, found by the row's position).
pub struct TrackRow {
    pub track: String,
    pub xp: i64,
}

/// One track of a player's specialization: its canonical name, its xp and
/// the stored row it came from, if any.
pub struct TrackXp {
    pub track_type: String,
    pub xp: i64,
    pub row: Option<usize>,
}

/// The last row whose track, lowercased, equals the given key.
pub open spec fn last_row_for(rows: Seq<TrackRow>, key: Seq<char>) -> Option<int>
    decreases rows.len(),
{
    if rows.len() == 0 {
        None
    } else if lowercase_text(rows.last().track@) == key {
        Some(rows.len() - 1)
    } else {
        last_row_for(rows.drop_last(), key)
    }
}

/// Every track in display order, with the xp of the last stored row of
/// that track (names compared lowercased), or 0 and no row.
pub open spec fn tracks_ok(r: Seq<TrackXp>, rows: Seq<TrackRow>) -> bool {
    &&& r.len() == track_names().len()
    &&& forall|i: int| 0 <= i < r.len() ==> track_ok(#[trigger] r[i], rows, i)
}

/// The track at display position `i`, from the last stored row of it.
pub open spec fn track_ok(t: TrackXp, rows: Seq<TrackRow>, i: int) -> bool {
    &&& t.track_type@ == track_names()[i]
    &&& match t.row {
        Some(p) => last_row_for(rows, lowercase_text(track_names()[i])) == Some(p as int)
            && t.xp == rows[p as int].xp,
        None => last_row_for(rows, lowercase_text(track_names()[i])) is None && t.xp == 0,
    }
}

fn find_track_row(rows: &Vec<TrackRow>, key: &Vec<char>) -> (r: Option<usize>)
    ensures
        match r {
            Some(p) => last_row_for(rows@, key@) == Some(p as int) && p < rows@.len(),
            None => last_row_for(rows@, key@) is None,
        },
{
    let mut j: usize = rows.len();
    assert(rows@.take(j as int) =~= rows@);
    while j > 0
        invariant
            j <= rows.len(),
            last_row_for(rows@, key@) == last_row_for(rows@.take(j as int), key@),
        decreases j,
    {
        assert(rows@.take(j as int).drop_last() =~= rows@.take(j - 1));
        let l = to_lowercase(rows[j - 1].track.as_str());
        if eq_chars(&chars_of(l.as_str()), key) {
            return Some(j - 1);
        }
        j -= 1;
    }
    None
}

/// The specialization tracks of a player from the stored rows.
pub fn specialization_tracks(rows: &Vec<TrackRow>) -> (r: Vec<TrackXp>)
    ensures
        tracks_ok(r@, rows@),
{
    let mut out: Vec<TrackXp> = Vec::new();
    let mut i: usize = 0;
    while i < 5
        invariant
            i <= 5,
            out@.len() == i,
            forall|m: int| 0 <= m < i ==> track_ok(#[trigger] out@[m], rows@, m),
        decreases 5 - i,
    {
        let name = track_name(i);
        let key = to_lowercase(name);
        let kv = chars_of(key.as_str());
        let found = find_track_row(rows, &kv);
        let xp: i64 = match found {
            Some(k) => rows[k].xp,
            None => 0,
        };
        let t = TrackXp { track_type: string_of(&chars_of(name)), xp, row: found };
        assert(t.track_type@ == track_names()[i as int]);
        assert(track_ok(t, rows@, i as int));
        out.push(t);
        i += 1;
    }
    out
}

/// A player's specialization as the service answers it (each track's
/// level, a decimal reading, is added by the caller from the row it names).
pub struct SpecializationSummary {
    pub player: AdminPlayerTarget,
    pub tracks: Vec<TrackXp>,
    pub xp_max: i32,
    pub level_max: i32,
    pub keystones_total: i64,
    pub keystones_max: i32,
}

/// Assembles a player's specialization from the stored track rows and the
/// keystone count (none counts as zero); refused when the player has no
/// controller.
pub fn specialization_summary(
    player: AdminPlayerTarget,
    rows: &Vec<TrackRow>,
    keystone_count: Option<i64>,
) -> (r: Result<SpecializationSummary, String>)
    ensures
        match lookup_check(player.fls_id@, player.controller_id) {
            Err(e) => r matches Err(m) && m@ == e,
            Ok(()) => r matches Ok(s) && s.player == player && tracks_ok(s.tracks@, rows@)
                && s.xp_max == SPECIALIZATION_XP_MAX && s.level_max == SPECIALIZATION_LEVEL_MAX
                && s.keystones_total == (match keystone_count {
                Some(k) => k,
                None => 0,
            }) && s.keystones_max == SPECIALIZATION_KEYSTONE_MAX,
        },
{
    match check_specialization_lookup(&player) {
        Err(e) => Err(e),
        Ok(()) => {
            let tracks = specialization_tracks(rows);
            let keystones_total = match keystone_count {
                Some(k) => k,
                None => 0,
            };
            Ok(
                SpecializationSummary {
                    player,
                    tracks,
                    xp_max: SPECIALIZATION_XP_MAX,
                    level_max: SPECIALIZATION_LEVEL_MAX,
                    keystones_total,
                    keystones_max: SPECIALIZATION_KEYSTONE_MAX,
                },
            )
        },
    }
}

// ---------------------------------------------------------------------------
// Backpack grants
// ---------------------------------------------------------------------------

/// A grant needs one free slot per item.
pub open spec fn slots_check(needed: nat, found: nat) -> Result<(), Seq<char>> {
    if needed != found {
        Err(
            "not enough free backpack slots: needed "@ + dec(needed) + ", found "@ + dec(found),
        )
    } else {
        Ok(())
    }
}

/// Whether the free slots found cover the items to insert.
pub fn check_free_slots(needed: usize, found: usize) -> (r: Result<(), String>)
    ensures
        match slots_check(needed as nat, found as nat) {
            Ok(()) => r is Ok,
            Err(e) => r matches Err(m) && m@ == e,
        },
{
    if needed != found {
        let mut v = chars_of("not enough free backpack slots: needed ");
        append(&mut v, &fmt_u64(needed as u64));
        append_str(&mut v, ", found ");
        append(&mut v, &fmt_u64(found as u64));
        return Err(string_of(&v));
    }
    Ok(())
}

// ---------------------------------------------------------------------------
// Laws of the level curve and the track names
// ---------------------------------------------------------------------------

/// The xp of a level is the xp of the clamped level; clamping is
/// idempotent.
pub proof fn lemma_level_clamped_before_xp(level: int)
    ensures
        level_xp(level) == level_xp(clamp_level(level)),
        clamp_level(clamp_level(level)) == clamp_level(level),
        0 <= clamp_level(level) <= SPECIALIZATION_LEVEL_MAX,
{
}

/// The level curve never decreases and stays within 0..=44182.
pub proof fn lemma_level_xp_monotone(a: int, b: int)
    requires
        a <= b,
    ensures
        0 <= level_xp(a) <= level_xp(b) <= SPECIALIZATION_XP_MAX,
{
    let x = clamp_level(a);
    let y = clamp_level(b);
    assert(x <= y);
    if y < SPECIALIZATION_LEVEL_MAX {
        assert(0 <= 3107 * x * x + 131100 * x + 500) by (nonlinear_arith)
            requires
                0 <= x,
        ;
        assert(3107 * x * x + 131100 * x <= 3107 * y * y + 131100 * y) by (nonlinear_arith)
            requires
                0 <= x <= y,
        ;
        assert((3107 * x * x + 131100 * x + 500) / 1000 <= (3107 * y * y + 131100 * y + 500)
            / 1000) by (nonlinear_arith)
            requires
                0 <= 3107 * x * x + 131100 * x + 500 <= 3107 * y * y + 131100 * y + 500,
        ;
    } else if x < SPECIALIZATION_LEVEL_MAX {
        assert(0 <= 3107 * x * x + 131100 * x + 500) by (nonlinear_arith)
            requires
                0 <= x,
        ;
    }
}

/// A canonical track name is its own canonical form, whatever its ASCII
/// case and surrounding whitespace.
pub proof fn lemma_track_names_canonical(i: int)
    requires
        0 <= i < 5,
    ensures
        canonical_track(track_names()[i]) == Some(track_names()[i]),
        canonical_track(ascii_lower(track_names()[i])) == Some(track_names()[i]),
{
    reveal_strlit("Combat");
    reveal_strlit("Crafting");
    reveal_strlit("Exploration");
    reveal_strlit("Gathering");
    reveal_strlit("Sabotage");
    let names = track_names();
    let t = names[i];
    assert(trim(t) == t) by {
        assert(!is_ws(t[0]) && !is_ws(t[t.len() - 1]));
        lemma_trim_plain(t);
    }
    assert(trim(ascii_lower(t)) == ascii_lower(t)) by {
        assert(!is_ws(ascii_lower(t)[0]) && !is_ws(ascii_lower(t)[t.len() - 1]));
        lemma_trim_plain(ascii_lower(t));
    }
    assert(ascii_lower(ascii_lower(t)) =~= ascii_lower(t));
    assert forall|j: int| 0 <= j < i implies !eq_ignore_ascii_case(names[j], t) by {
        if ascii_lower(names[j]) == ascii_lower(t) {
            assert(ascii_lower(names[j])[0] == ascii_lower(t)[0]);
            assert(ascii_lower(names[j])[1] == ascii_lower(t)[1]);
            assert(ascii_lower(names[j])[2] == ascii_lower(t)[2]);
        }
    }
    lemma_track_index_at(t, i);
    lemma_track_index_at(ascii_lower(t), i);
}

proof fn lemma_track_index_at(name: Seq<char>, i: int)
    requires
        0 <= i < 5,
        eq_ignore_ascii_case(track_names()[i], name),
        forall|j: int| 0 <= j < i ==> !eq_ignore_ascii_case(#[trigger] track_names()[j], name),
    ensures
        track_index_from(name, 0) == Some(i as nat),
{
    lemma_track_index_from(name, 0, i);
}

proof fn lemma_track_index_from(name: Seq<char>, from: nat, i: int)
    requires
        from <= i < 5,
        eq_ignore_ascii_case(track_names()[i], name),
        forall|j: int| from <= j < i ==> !eq_ignore_ascii_case(#[trigger] track_names()[j], name),
    ensures
        track_index_from(name, from) == Some(i as nat),
    decreases i - from,
{
    if from < i {
        assert(!eq_ignore_ascii_case(track_names()[from as int], name));
        lemma_track_index_from(name, from + 1, i);
    }
}


proof fn lemma_track_names_distinct()
    ensures
        forall|i: int, j: int|
            0 <= i < 5 && 0 <= j < 5 && i != j ==> ascii_lower(#[trigger] track_names()[i])
                != ascii_lower(#[trigger] track_names()[j]),
{
    reveal_strlit("Combat");
    reveal_strlit("Crafting");
    reveal_strlit("Exploration");
    reveal_strlit("Gathering");
    reveal_strlit("Sabotage");
    let names = track_names();
    assert forall|i: int, j: int| 0 <= i < 5 && 0 <= j < 5 && i != j implies ascii_lower(
        #[trigger] names[i],
    ) != ascii_lower(#[trigger] names[j]) by {
        if ascii_lower(names[i]) == ascii_lower(names[j]) {
            assert(ascii_lower(names[i])[0] == ascii_lower(names[j])[0]);
            assert(ascii_lower(names[i])[1] == ascii_lower(names[j])[1]);
        }
    }
}

proof fn lemma_track_index_none(name: Seq<char>, from: nat)
    requires
        forall|j: int| from <= j < 5 ==> !eq_ignore_ascii_case(#[trigger] track_names()[j], name),
    ensures
        track_index_from(name, from) is None,
    decreases 5 - from,
{
    if from < 5 {
        assert(!eq_ignore_ascii_case(track_names()[from as int], name));
        lemma_track_index_none(name, from + 1);
    }
}

/// Track names are matched one to one: a name (trimmed, ignoring ASCII
/// case) that matches a track gives that track's canonical name, one that
/// matches none gives nothing, and a canonical name maps to itself.
pub proof fn lemma_canonical_track_unique(track: Seq<char>)
    ensures
        forall|i: int|
            0 <= i < 5 && eq_ignore_ascii_case(#[trigger] track_names()[i], trim(track))
                ==> canonical_track(track) == Some(track_names()[i]),
        (canonical_track(track) is None) <==> (forall|i: int|
            0 <= i < 5 ==> !eq_ignore_ascii_case(#[trigger] track_names()[i], trim(track))),
        canonical_track(track) is Some ==> canonical_track(canonical_track(track)->0)
            == canonical_track(track),
{
    let names = track_names();
    let t = trim(track);
    lemma_track_names_distinct();
    assert forall|i: int|
        0 <= i < 5 && eq_ignore_ascii_case(#[trigger] names[i], t) implies canonical_track(track)
        == Some(names[i]) by {
        assert forall|j: int| 0 <= j < i implies !eq_ignore_ascii_case(#[trigger] names[j], t) by {
            assert(ascii_lower(names[j]) != ascii_lower(names[i]));
        }
        lemma_track_index_at(t, i);
    }
    if forall|i: int| 0 <= i < 5 ==> !eq_ignore_ascii_case(#[trigger] names[i], t) {
        lemma_track_index_none(t, 0);
    }
    if canonical_track(track) is Some {
        let i = track_index_from(t, 0)->0;
        lemma_track_index_found(t, 0);
        lemma_track_names_canonical(i as int);
    }
}

proof fn lemma_track_index_found(name: Seq<char>, from: nat)
    ensures
        track_index_from(name, from) is Some ==> track_index_from(name, from)->0 < 5,
    decreases 5 - from,
{
    if from < 5 {
        lemma_track_index_found(name, from + 1);
    }
}


proof fn lemma_first_available_at(avail: Seq<Seq<char>>, from: nat, i: int)
    requires
        from <= i < 6,
        avail.contains(level_column_candidates()[i]),
        forall|j: int| from <= j < i ==> !avail.contains(#[trigger] level_column_candidates()[j]),
    ensures
        first_available_from(avail, from) == Some(level_column_candidates()[i]),
    decreases i - from,
{
    if from < i {
        assert(!avail.contains(level_column_candidates()[from as int]));
        lemma_first_available_at(avail, from + 1, i);
    }
}

proof fn lemma_first_available_none(avail: Seq<Seq<char>>, from: nat)
    requires
        forall|j: int| from <= j < 6 ==> !avail.contains(#[trigger] level_column_candidates()[j]),
    ensures
        first_available_from(avail, from) is None,
    decreases 6 - from,
{
    if from < 6 {
        assert(!avail.contains(level_column_candidates()[from as int]));
        lemma_first_available_none(avail, from + 1);
    }
}

/// The player level in a search is read from the first of the columns
/// `level`, `character_level`, `player_level`, `experience_level`,
/// `current_level`, `total_level` (in that order) that the table has, as
/// `ps."<column>"::int`; only a table with none of them gives `NULL::int`.
pub proof fn lemma_level_expr_first_column(avail: Seq<Seq<char>>)
    ensures
        ({
            let cands = seq![
                "level"@,
                "character_level"@,
                "player_level"@,
                "experience_level"@,
                "current_level"@,
                "total_level"@,
            ];
            &&& forall|i: int|
                0 <= i < 6 && avail.contains(#[trigger] cands[i]) && (forall|j: int|
                    0 <= j < i ==> !avail.contains(#[trigger] cands[j])) ==> level_expr_of(avail)
                    == "ps.\""@ + cands[i] + "\"::int"@
            &&& (forall|j: int| 0 <= j < 6 ==> !avail.contains(#[trigger] cands[j])) ==> level_expr_of(
                avail,
            ) == "NULL::int"@
        }),
{
    let cands = seq![
        "level"@,
        "character_level"@,
        "player_level"@,
        "experience_level"@,
        "current_level"@,
        "total_level"@,
    ];
    assert(cands =~= level_column_candidates());
    assert forall|i: int|
        0 <= i < 6 && avail.contains(#[trigger] cands[i]) && (forall|j: int|
            0 <= j < i ==> !avail.contains(#[trigger] cands[j])) implies level_expr_of(avail)
        == "ps.\""@ + cands[i] + "\"::int"@ by {
        lemma_first_available_at(avail, 0, i);
    }
    if forall|j: int| 0 <= j < 6 ==> !avail.contains(#[trigger] cands[j]) {
        lemma_first_available_none(avail, 0);
    }
}

} // verus!
