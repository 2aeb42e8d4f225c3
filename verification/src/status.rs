//! Battlegroup status as the desktop shows it: the BattleGroup resource's
//! `status` merged with per-partition ServerStats, ages, host metrics and
//! package versions read from remote scripts, and discovered server records.
use vstd::prelude::*;
use crate::text::{
    append, append_str, chars_of, dec, dec_int, eq_str, fmt_i64, fmt_u64, parse_u64,
    parse_u64_chars, pieces_view, split_on, split_chars, string_of, trim, trim_chars, trim_str,
};

use crate::clock::{clock_timestamp, timestamp_in_range};

verus! {

// ---------------------------------------------------------------------------
// Ages
// ---------------------------------------------------------------------------

/// Whether `chrono::DateTime::parse_from_rfc3339` accepts the text.
pub uninterp spec fn rfc3339_parses(text: Seq<char>) -> bool;

/// The whole seconds (`TimeDelta::num_seconds`) from an RFC 3339 timestamp
/// to the Unix time `now_secs`/`now_nanos`.
pub uninterp spec fn rfc3339_seconds_until(text: Seq<char>, now_secs: i64, now_nanos: u32) -> i64;

/// Parses `text` with `DateTime::parse_from_rfc3339` and the given time with
/// `DateTime::from_timestamp`, and returns the whole seconds from the first
/// to the second (`signed_duration_since`, then `num_seconds`); `None`
/// exactly when either one is refused.
#[verifier::external_body]
fn seconds_between(text: &str, now_secs: i64, now_nanos: u32) -> (r: Option<i64>)
    ensures
        (r is Some) == (rfc3339_parses(text@) && timestamp_in_range(now_secs, now_nanos)),
        r is Some ==> r == Some(rfc3339_seconds_until(text@, now_secs, now_nanos)),
{
    match chrono::DateTime::from_timestamp(now_secs, now_nanos) {
        None => None,
        Some(now) => chrono::DateTime::parse_from_rfc3339(text).ok().map(
            |start| now.signed_duration_since(start.with_timezone(&chrono::Utc)).num_seconds(),
        ),
    }
}

/// A compact elapsed time: `Ns`, `Nm`, `Nh Mm` or `Nd Hh`.
pub open spec fn age_text(secs: nat) -> Seq<char> {
    if secs < 60 {
        dec(secs) + "s"@
    } else if secs / 60 < 60 {
        dec(secs / 60) + "m"@
    } else if secs / 3600 < 24 {
        dec(secs / 3600) + "h "@ + dec((secs / 60) % 60) + "m"@
    } else {
        dec(secs / 86400) + "d "@ + dec((secs / 3600) % 24) + "h"@
    }
}

/// Elapsed seconds, negative counting as zero.
pub open spec fn clamp_secs(secs: i64) -> nat {
    if secs < 0 {
        0nat
    } else {
        secs as nat
    }
}

/// Formats elapsed seconds (negative counts as zero).
pub fn format_age_seconds(secs: i64) -> (r: String)
    ensures
        r@ == age_text(clamp_secs(secs)),
{
    let s: u64 = if secs < 0 {
        0
    } else {
        secs as u64
    };
    let mut v: Vec<char>;
    if s < 60 {
        v = fmt_u64(s);
        append_str(&mut v, "s");
    } else {
        let minutes = s / 60;
        if minutes < 60 {
            v = fmt_u64(minutes);
            append_str(&mut v, "m");
        } else {
            let hours = minutes / 60;
            assert(hours == s / 3600);
            if hours < 24 {
                v = fmt_u64(hours);
                append_str(&mut v, "h ");
                append(&mut v, &fmt_u64(minutes % 60));
                append_str(&mut v, "m");
            } else {
                let days = hours / 24;
                assert(days == s / 86400);
                v = fmt_u64(days);
                append_str(&mut v, "d ");
                append(&mut v, &fmt_u64(hours % 24));
                append_str(&mut v, "h");
            }
        }
    }
    string_of(&v)
}

/// The age of an RFC 3339 timestamp at the given clock reading: the
/// compact elapsed time (negative ages count as zero), or empty text when
/// the timestamp does not parse or there is no representable reading.
pub fn format_age_since_iso_at(iso_ts: &str, now: Option<(i64, u32)>) -> (r: String)
    ensures
        match now {
            Some((s, n)) => if rfc3339_parses(trim(iso_ts@)) && timestamp_in_range(s, n) {
                r@ == age_text(clamp_secs(rfc3339_seconds_until(trim(iso_ts@), s, n)))
            } else {
                r@.len() == 0
            },
            None => r@.len() == 0,
        },
{
    let t = string_of(&trim_str(iso_ts));
    match now {
        None => String::new(),
        Some((s, n)) => match seconds_between(t.as_str(), s, n) {
            None => String::new(),
            Some(secs) => format_age_seconds(secs),
        },
    }
}

/// Whether an age shown for a timestamp is as it should be whatever the
/// clock reads: empty when the timestamp does not parse, and otherwise
/// empty (no clock) or a compact elapsed time.
pub open spec fn age_since_ok(ts: Seq<char>, age: Seq<char>) -> bool {
    &&& !rfc3339_parses(trim(ts)) ==> age.len() == 0
    &&& age.len() == 0 || exists|secs: nat| age == age_text(secs)
}

/// The age of an RFC 3339 timestamp now, or empty text when it does not
/// parse or the clock cannot be read.
pub fn format_age_since_iso(iso_ts: &str) -> (r: String)
    ensures
        age_since_ok(iso_ts@, r@),
{
    let now = clock_timestamp();
    format_age_since_iso_at(iso_ts, now)
}

// ---------------------------------------------------------------------------
// Map names
// ---------------------------------------------------------------------------

/// The display name of a map: known maps by their in-game names, other
/// maps by their id, then the fallback, then `Game Server`.
pub open spec fn friendly_map(map: Seq<char>, fallback: Seq<char>) -> Seq<char> {
    if map == "Survival_1"@ {
        "Hagga Basin"@
    } else if map == "DeepDesert_1"@ {
        "Deep Desert"@
    } else if map == "Overmap"@ {
        "Overmap"@
    } else if map.len() > 0 {
        map
    } else if fallback.len() > 0 {
        fallback
    } else {
        "Game Server"@
    }
}

/// The display name of a map.
pub fn friendly_map_name(map: &str, fallback: &str) -> (r: String)
    ensures
        r@ == friendly_map(map@, fallback@),
{
    let m = chars_of(map);
    if eq_str(&m, "Survival_1") {
        string_of(&chars_of("Hagga Basin"))
    } else if eq_str(&m, "DeepDesert_1") {
        string_of(&chars_of("Deep Desert"))
    } else if eq_str(&m, "Overmap") {
        string_of(&chars_of("Overmap"))
    } else if m.len() > 0 {
        string_of(&m)
    } else {
        let f = chars_of(fallback);
        if f.len() > 0 {
            string_of(&f)
        } else {
            string_of(&chars_of("Game Server"))
        }
    }
}

/// The log stream of a server set: its resource name, else its map.
pub open spec fn serverset_key(name: Seq<char>, map: Seq<char>) -> Seq<char> {
    if name.len() > 0 {
        name
    } else {
        map
    }
}

/// The log stream key of a server set.
pub fn serverset_log_key(name: &str, map: &str) -> (r: String)
    ensures
        r@ == serverset_key(name@, map@),
{
    let n = chars_of(name);
    if n.len() > 0 {
        string_of(&n)
    } else {
        string_of(&chars_of(map))
    }
}

// ---------------------------------------------------------------------------
// Battlegroup status
// ---------------------------------------------------------------------------

/// One ServerStats resource: `spec.area`, `status.runtime` and
/// `status.leadership`, as read from JSON (`runtime_ready` already rendered
/// as text; the simulation rate as the bits of its `f64`).
pub struct ServerStatsItem {
    pub name: Option<String>,
    pub partition: Option<i64>,
    pub map: Option<String>,
    pub sietch: Option<String>,
    pub dimension: Option<i64>,
    pub players: Option<i64>,
    pub game_phase: Option<String>,
    pub runtime_ready: Option<String>,
    pub simulation_fps_bits: Option<u64>,
    pub battlegroup_leader: Option<bool>,
}

/// One entry of the BattleGroup's `status.servers`, as read from JSON
/// (`phase` and `ready` rendered as text, empty when absent).
pub struct ServerEntry {
    pub partition_index: Option<u64>,
    pub ordinal_index: Option<u64>,
    pub partition_map: Option<String>,
    pub map: Option<String>,
    pub name: Option<String>,
    pub phase: String,
    pub ready: String,
    pub start_timestamp: Option<String>,
    pub dimension_index: Option<i64>,
    pub restarts: Option<u64>,
    pub game_port: Option<u64>,
    pub igw_port: Option<u64>,
}

/// The parts of a BattleGroup resource the status reads (text fields
/// already rendered, empty when absent).
pub struct BattlegroupResource {
    pub has_name: bool,
    pub spec_stop: Option<bool>,
    pub status_stop: Option<bool>,
    pub start_timestamp: Option<String>,
    pub servers: Option<Vec<ServerEntry>>,
    pub database_phase_nested: Option<String>,
    pub database_phase: String,
    pub director_phase_nested: Option<String>,
    pub director_phase: String,
    pub uptime: String,
    pub phase: String,
    pub server_group_phase: String,
}

/// One row of the per-partition server table.
pub struct ServerStat {
    pub map: String,
    pub raw_map: String,
    pub sietch: String,
    pub partition_index: Option<u64>,
    pub dimension: Option<i64>,
    pub phase: String,
    pub ready: String,
    pub players: String,
    pub age: String,
    pub game_phase: String,
    pub runtime_ready: String,
    pub simulation_fps_bits: Option<u64>,
    pub battlegroup_leader: Option<bool>,
    pub restarts: Option<u64>,
    pub server_name: String,
    pub game_port: Option<u64>,
    pub igw_port: Option<u64>,
}

/// The battlegroup status shown by the desktop.
pub struct BattlegroupStatus {
    pub stop: bool,
    pub phase: String,
    pub database_phase: String,
    pub server_group_phase: String,
    pub director_phase: String,
    pub uptime: String,
    pub server_stats: Vec<ServerStat>,
}

pub open spec fn text_or_empty(o: Option<String>) -> Seq<char> {
    match o {
        Some(s) => s@,
        None => seq![],
    }
}

/// The ServerStats for a partition: the last item naming it.
pub open spec fn stats_for(items: Seq<ServerStatsItem>, partition: i64) -> Option<ServerStatsItem>
    decreases items.len(),
{
    if items.len() == 0 {
        None
    } else if items.last().partition == Some(partition) {
        Some(items.last())
    } else {
        stats_for(items.drop_last(), partition)
    }
}

/// A server's partition: `partitionIndex`, else `ordinalIndex`.
pub open spec fn partition_of(s: ServerEntry) -> Option<u64> {
    match s.partition_index {
        Some(p) => Some(p),
        None => s.ordinal_index,
    }
}

pub open spec fn stats_of_entry(s: ServerEntry, stats: Seq<ServerStatsItem>) -> Option<ServerStatsItem> {
    match partition_of(s) {
        Some(p) => stats_for(stats, p as i64),
        None => None,
    }
}

/// The server's raw map: `partitionMap`, `map` or `name` (the first that is
/// present), when not empty; else the partition stats' map.
pub open spec fn raw_map_of(s: ServerEntry, st: Option<ServerStatsItem>) -> Seq<char> {
    let direct: Option<Seq<char>> = match s.partition_map {
        Some(m) => Some(m@),
        None => match s.map {
            Some(m) => Some(m@),
            None => match s.name {
                Some(m) => Some(m@),
                None => None,
            },
        },
    };
    match direct {
        Some(m) => if m.len() > 0 {
            m
        } else {
            match st {
                Some(x) => text_or_empty(x.map),
                None => seq![],
            }
        },
        None => match st {
            Some(x) => text_or_empty(x.map),
            None => seq![],
        },
    }
}

/// The row label: the friendly map name, with `#<partition>` when known.
pub open spec fn server_label(raw_map: Seq<char>, partition: Option<u64>) -> Seq<char> {
    match partition {
        Some(i) => friendly_map(raw_map, raw_map) + " #"@ + dec(i as nat),
        None => friendly_map(raw_map, raw_map),
    }
}

/// The row for one server; `age_of(start)` stands for the age rendered for
/// the server's own start timestamp.
pub open spec fn server_row_ok(
    row: ServerStat,
    s: ServerEntry,
    bg_age: Seq<char>,
    stats: Seq<ServerStatsItem>,
) -> bool {
    let st = stats_of_entry(s, stats);
    let raw = raw_map_of(s, st);
    &&& row.map@ == server_label(raw, partition_of(s))
    &&& row.raw_map@ == raw
    &&& row.sietch@ == (match st {
        Some(x) => text_or_empty(x.sietch),
        None => seq![],
    })
    &&& row.partition_index == partition_of(s)
    &&& row.dimension == (match s.dimension_index {
        Some(d) => Some(d),
        None => match st {
            Some(x) => x.dimension,
            None => None,
        },
    })
    &&& row.phase@ == s.phase@
    &&& row.ready@ == s.ready@
    &&& row.players@ == (match st {
        Some(x) => match x.players {
            Some(n) => dec_int(n as int),
            None => seq![],
        },
        None => seq![],
    })
    &&& (match s.start_timestamp {
        Some(ts) => age_since_ok(ts@, row.age@),
        None => row.age@ == bg_age,
    })
    &&& row.game_phase@ == (match st {
        Some(x) => text_or_empty(x.game_phase),
        None => seq![],
    })
    &&& row.runtime_ready@ == (match st {
        Some(x) => text_or_empty(x.runtime_ready),
        None => seq![],
    })
    &&& row.simulation_fps_bits == (match st {
        Some(x) => x.simulation_fps_bits,
        None => None,
    })
    &&& row.battlegroup_leader == (match st {
        Some(x) => x.battlegroup_leader,
        None => None,
    })
    &&& row.restarts == s.restarts
    &&& row.server_name@ == (match st {
        Some(x) => text_or_empty(x.name),
        None => seq![],
    })
    &&& row.game_port == s.game_port
    &&& row.igw_port == s.igw_port
}

fn text_or_empty_exec(o: &Option<String>) -> (r: String)
    ensures
        r@ == text_or_empty(*o),
{
    match o {
        Some(s) => s.clone(),
        None => String::new(),
    }
}

/// The ServerStats item for a partition.
fn find_stats(items: &Vec<ServerStatsItem>, partition: i64) -> (r: Option<usize>)
    ensures
        match stats_for(items@, partition) {
            Some(x) => r matches Some(k) && k < items@.len() && items@[k as int] == x,
            None => r is None,
        },
{
    let mut i = items.len();
    assert(items@.take(i as int) == items@);
    while i > 0
        invariant
            i <= items.len(),
            stats_for(items@, partition) == stats_for(items@.take(i as int), partition),
        decreases i,
    {
        let ghost t = items@.take(i as int);
        assert(t.last() == items@[i - 1]);
        assert(t.drop_last() == items@.take(i - 1));
        if items[i - 1].partition == Some(partition) {
            return Some(i - 1);
        }
        i -= 1;
    }
    assert(items@.take(0) =~= Seq::<ServerStatsItem>::empty());
    None
}

fn clone_text(s: &String) -> (r: String)
    ensures
        r@ == s@,
{
    s.clone()
}

/// One row of the server table (see `server_row_ok`).
fn server_stat_from(s: &ServerEntry, bg_age: &String, stats: &Vec<ServerStatsItem>) -> (r: ServerStat)
    ensures
        server_row_ok(r, *s, bg_age@, stats@),
{
    let partition_index: Option<u64> = match s.partition_index {
        Some(p) => Some(p),
        None => s.ordinal_index,
    };
    let st: Option<&ServerStatsItem> = match partition_index {
        Some(p) => match find_stats(stats, p as i64) {
            Some(k) => Some(&stats[k]),
            None => None,
        },
        None => None,
    };
    assert(match st {
        Some(x) => stats_of_entry(*s, stats@) == Some(*x),
        None => stats_of_entry(*s, stats@) is None,
    });
    let direct: Option<&String> = match &s.partition_map {
        Some(m) => Some(m),
        None => match &s.map {
            Some(m) => Some(m),
            None => match &s.name {
                Some(m) => Some(m),
                None => None,
            },
        },
    };
    let from_stats = match st {
        Some(x) => text_or_empty_exec(&x.map),
        None => String::new(),
    };
    let raw_map: String = match direct {
        Some(m) => if chars_of(m.as_str()).len() > 0 {
            clone_text(m)
        } else {
            from_stats
        },
        None => from_stats,
    };
    assert(raw_map@ == raw_map_of(*s, stats_of_entry(*s, stats@)));
    let friendly = friendly_map_name(raw_map.as_str(), raw_map.as_str());
    let map = match partition_index {
        Some(i) => {
            let mut v = chars_of(friendly.as_str());
            append_str(&mut v, " #");
            append(&mut v, &fmt_u64(i));
            string_of(&v)
        },
        None => friendly,
    };
    let age = match &s.start_timestamp {
        Some(ts) => format_age_since_iso(ts.as_str()),
        None => bg_age.clone(),
    };
    let players = match st {
        Some(x) => match x.players {
            Some(n) => string_of(&fmt_i64(n)),
            None => String::new(),
        },
        None => String::new(),
    };
    ServerStat {
        map,
        raw_map,
        sietch: match st {
            Some(x) => text_or_empty_exec(&x.sietch),
            None => String::new(),
        },
        partition_index,
        dimension: match s.dimension_index {
            Some(d) => Some(d),
            None => match st {
                Some(x) => x.dimension,
                None => None,
            },
        },
        phase: s.phase.clone(),
        ready: s.ready.clone(),
        players,
        age,
        game_phase: match st {
            Some(x) => text_or_empty_exec(&x.game_phase),
            None => String::new(),
        },
        runtime_ready: match st {
            Some(x) => text_or_empty_exec(&x.runtime_ready),
            None => String::new(),
        },
        simulation_fps_bits: match st {
            Some(x) => x.simulation_fps_bits,
            None => None,
        },
        battlegroup_leader: match st {
            Some(x) => x.battlegroup_leader,
            None => None,
        },
        restarts: s.restarts,
        server_name: match st {
            Some(x) => text_or_empty_exec(&x.name),
            None => String::new(),
        },
        game_port: s.game_port,
        igw_port: s.igw_port,
    }
}

/// The age of the battlegroup itself: from `status.startTimestamp`, empty
/// when absent.
pub open spec fn bg_age_ok(age: Seq<char>, start: Option<String>) -> bool {
    match start {
        Some(ts) => age_since_ok(ts@, age),
        None => age.len() == 0,
    }
}

pub open spec fn servers_of(bg: BattlegroupResource) -> Seq<ServerEntry> {
    match bg.servers {
        Some(v) => v@,
        None => seq![],
    }
}

/// The status of a BattleGroup resource merged with ServerStats; `None`
/// when the resource has no name (it is not a BattleGroup).
pub open spec fn status_ok(
    r: Option<BattlegroupStatus>,
    bg: BattlegroupResource,
    stats: Seq<ServerStatsItem>,
) -> bool {
    if !bg.has_name {
        r is None
    } else {
        match r {
            None => false,
            Some(out) => {
                let servers = servers_of(bg);
                &&& out.stop == (match bg.spec_stop {
                    Some(b) => b,
                    None => match bg.status_stop {
                        Some(b) => b,
                        None => false,
                    },
                })
                &&& out.phase@ == bg.phase@
                &&& out.server_group_phase@ == bg.server_group_phase@
                &&& out.database_phase@ == (match bg.database_phase_nested {
                    Some(p) => p@,
                    None => bg.database_phase@,
                })
                &&& out.director_phase@ == (match bg.director_phase_nested {
                    Some(p) => p@,
                    None => bg.director_phase@,
                })
                &&& exists|bg_age: Seq<char>|
                    {
                        &&& bg_age_ok(bg_age, bg.start_timestamp)
                        &&& out.uptime@ == (if bg.uptime@.len() == 0 {
                            bg_age
                        } else {
                            bg.uptime@
                        })
                        &&& out.server_stats@.len() == servers.len()
                        &&& forall|i: int|
                            0 <= i < servers.len() ==> server_row_ok(
                                #[trigger] out.server_stats@[i],
                                servers[i],
                                bg_age,
                                stats,
                            )
                    }
            },
        }
    }
}

/// The failure reported when a BattleGroup has no status to show yet.
pub fn no_status_message(battlegroup_name: &str) -> (r: String)
    ensures
        r@ == "BattleGroup `"@ + battlegroup_name@
            + "` returned no status object yet (likely still initialising)"@,
{
    let mut v = chars_of("BattleGroup `");
    append_str(&mut v, battlegroup_name);
    append_str(&mut v, "` returned no status object yet (likely still initialising)");
    string_of(&v)
}

/// The failure reported when the host metrics script's output is missing a
/// required value.
pub const INCOMPLETE_HOST_METRICS: &'static str = "Remote host returned incomplete resource metrics";

/// Maps a BattleGroup resource and the namespace's ServerStats items to
/// the desktop's battlegroup status.
pub fn battlegroup_status_with_stats(bg: &BattlegroupResource, serverstats: &Vec<ServerStatsItem>) -> (r:
    Option<BattlegroupStatus>)
    ensures
        status_ok(r, *bg, serverstats@),
{
    if !bg.has_name {
        return None;
    }
    let stop = match bg.spec_stop {
        Some(b) => b,
        None => match bg.status_stop {
            Some(b) => b,
            None => false,
        },
    };
    let bg_age = match &bg.start_timestamp {
        Some(ts) => format_age_since_iso(ts.as_str()),
        None => String::new(),
    };
    let empty: Vec<ServerEntry> = Vec::new();
    let servers: &Vec<ServerEntry> = match &bg.servers {
        Some(v) => v,
        None => &empty,
    };
    assert(servers@ == servers_of(*bg));
    let mut rows: Vec<ServerStat> = Vec::new();
    let mut i: usize = 0;
    while i < servers.len()
        invariant
            i <= servers.len(),
            rows@.len() == i,
            forall|k: int|
                0 <= k < i ==> server_row_ok(#[trigger] rows@[k], servers@[k], bg_age@, serverstats@),
        decreases servers.len() - i,
    {
        let row = server_stat_from(&servers[i], &bg_age, serverstats);
        rows.push(row);
        i += 1;
    }
    let database_phase = match &bg.database_phase_nested {
        Some(p) => p.clone(),
        None => bg.database_phase.clone(),
    };
    let director_phase = match &bg.director_phase_nested {
        Some(p) => p.clone(),
        None => bg.director_phase.clone(),
    };
    let uptime = if chars_of(bg.uptime.as_str()).len() == 0 {
        bg_age.clone()
    } else {
        bg.uptime.clone()
    };
    let out = BattlegroupStatus {
        stop,
        phase: bg.phase.clone(),
        database_phase,
        server_group_phase: bg.server_group_phase.clone(),
        director_phase,
        uptime,
        server_stats: rows,
    };
    assert(bg_age_ok(bg_age@, bg.start_timestamp));
    Some(out)
}

} // verus!

verus! {

// ---------------------------------------------------------------------------
// Script output: `key=value` lines
// ---------------------------------------------------------------------------

pub open spec fn strip_cr(l: Seq<char>) -> Seq<char> {
    if l.len() > 0 && l.last() == '\r' {
        l.drop_last()
    } else {
        l
    }
}

/// `str::lines`: pieces between `\n`, a `\r` before the `\n` removed, and
/// no final empty piece.
pub open spec fn text_lines(s: Seq<char>) -> Seq<Seq<char>> {
    let parts = split_on(s, '\n');
    let n = parts.len();
    let body = parts.take(n - 1).map_values(|l: Seq<char>| strip_cr(l));
    if parts[n - 1].len() == 0 {
        body
    } else {
        body.push(parts[n - 1])
    }
}

/// The position of the first `=`.
pub open spec fn first_eq(l: Seq<char>) -> Option<nat>
    decreases l.len(),
{
    if l.len() == 0 {
        None
    } else {
        match first_eq(l.drop_last()) {
            Some(i) => Some(i),
            None => if l.last() == '=' {
                Some((l.len() - 1) as nat)
            } else {
                None
            },
        }
    }
}

/// `split_once('=')`: the text before and after the first `=`.
pub open spec fn split_eq(l: Seq<char>) -> Option<(Seq<char>, Seq<char>)> {
    match first_eq(l) {
        Some(i) => Some((l.take(i as int), l.skip(i as int + 1))),
        None => None,
    }
}

/// The value of the last (trimmed) line whose key is `key`, as the
/// `HashMap` collected from the lines keeps it.
pub open spec fn metric_raw(lines: Seq<Seq<char>>, key: Seq<char>) -> Option<Seq<char>>
    decreases lines.len(),
{
    if lines.len() == 0 {
        None
    } else {
        match split_eq(trim(lines.last())) {
            Some((k, v)) => if k == key {
                Some(v)
            } else {
                metric_raw(lines.drop_last(), key)
            },
            None => metric_raw(lines.drop_last(), key),
        }
    }
}

pub open spec fn metric_int(lines: Seq<Seq<char>>, key: Seq<char>) -> Option<u64> {
    match metric_raw(lines, key) {
        Some(v) => parse_u64(trim(v)),
        None => None,
    }
}

pub open spec fn metric_text(lines: Seq<Seq<char>>, key: Seq<char>) -> Option<Seq<char>> {
    match metric_raw(lines, key) {
        Some(v) => Some(trim(v)),
        None => None,
    }
}

pub open spec fn sat_sub(a: u64, b: u64) -> u64 {
    if a >= b {
        (a - b) as u64
    } else {
        0
    }
}

pub open spec fn sat_kib(a: u64) -> u64 {
    if a as nat * 1024 > u64::MAX {
        u64::MAX
    } else {
        (a * 1024) as u64
    }
}

pub open spec fn or_zero(o: Option<u64>) -> u64 {
    match o {
        Some(v) => v,
        None => 0,
    }
}

/// Resource usage of the remote host; the two decimal readings are kept as
/// their text.
pub struct HostMetrics {
    pub memory_used_bytes: u64,
    pub memory_total_bytes: u64,
    pub swap_used_bytes: u64,
    pub swap_total_bytes: u64,
    pub cpu_usage_percent_text: Option<String>,
    pub load_average_one_text: Option<String>,
    pub disk_used_bytes: u64,
    pub disk_total_bytes: u64,
    pub uptime_seconds: u64,
}

pub open spec fn opt_text(o: Option<String>) -> Option<Seq<char>> {
    match o {
        Some(s) => Some(s@),
        None => None,
    }
}

/// The host metrics a script's output yields: memory and disk totals and
/// used values are required (totals not zero); swap and uptime default to
/// zero; kibibyte readings become bytes, saturating.
pub open spec fn host_metrics_ok(r: Option<HostMetrics>, output: Seq<char>) -> bool {
    let ls = text_lines(output);
    let mt = metric_int(ls, "memTotalKb"@);
    let ma = metric_int(ls, "memAvailableKb"@);
    let dt = metric_int(ls, "diskTotalKb"@);
    let du = metric_int(ls, "diskUsedKb"@);
    if mt is None || ma is None || dt is None || du is None || mt == Some(0u64) || dt == Some(
        0u64,
    ) {
        r is None
    } else {
        let st = or_zero(metric_int(ls, "swapTotalKb"@));
        let sf = or_zero(metric_int(ls, "swapFreeKb"@));
        match r {
            None => false,
            Some(m) => {
                &&& m.memory_used_bytes == sat_kib(sat_sub(mt->0, ma->0))
                &&& m.memory_total_bytes == sat_kib(mt->0)
                &&& m.swap_used_bytes == sat_kib(sat_sub(st, sf))
                &&& m.swap_total_bytes == sat_kib(st)
                &&& opt_text(m.cpu_usage_percent_text) == metric_text(ls, "cpuUsagePercent"@)
                &&& opt_text(m.load_average_one_text) == metric_text(ls, "loadAverageOne"@)
                &&& m.disk_used_bytes == sat_kib(du->0)
                &&& m.disk_total_bytes == sat_kib(dt->0)
                &&& m.uptime_seconds == or_zero(metric_int(ls, "uptimeSeconds"@))
            },
        }
    }
}

/// `str::lines`.
pub fn lines_of(s: &str) -> (r: Vec<Vec<char>>)
    ensures
        pieces_view(r@) == text_lines(s@),
{
    let text = chars_of(s);
    let parts = split_chars(&text, '\n');
    proof {
        crate::text::lemma_split_on_nonempty(s@, '\n');
    }
    let n = parts.len();
    let ghost pv = pieces_view(parts@);
    let mut out: Vec<Vec<char>> = Vec::new();
    let mut i: usize = 0;
    assert(pieces_view(out@) =~= pv.take(0).map_values(|l: Seq<char>| strip_cr(l)));
    while i + 1 < n
        invariant
            n == parts.len(),
            n >= 1,
            i + 1 <= n,
            pv == pieces_view(parts@),
            pv == split_on(s@, '\n'),
            pieces_view(out@) == pv.take(i as int).map_values(|l: Seq<char>| strip_cr(l)),
        decreases n - i,
    {
        let p = &parts[i];
        let ghost before = pieces_view(out@);
        let line = if p.len() > 0 && p[p.len() - 1] == '\r' {
            crate::text::subrange_chars(p, 0, p.len() - 1)
        } else {
            crate::text::subrange_chars(p, 0, p.len())
        };
        assert(pv[i as int] == p@);
        assert(line@ == strip_cr(pv[i as int]));
        let ghost lv = line@;
        out.push(line);
        assert(pieces_view(out@) =~= before.push(lv));
        assert(pv.take(i + 1).map_values(|l: Seq<char>| strip_cr(l)) =~= pv.take(i as int).map_values(
            |l: Seq<char>| strip_cr(l),
        ).push(strip_cr(pv[i as int])));
        i += 1;
    }
    let last = &parts[n - 1];
    if last.len() > 0 {
        let ghost before = pieces_view(out@);
        let c = crate::text::subrange_chars(last, 0, last.len());
        assert(c@ =~= pv[n - 1]);
        let ghost cv = c@;
        out.push(c);
        assert(pieces_view(out@) =~= before.push(cv));
    }
    out
}

fn split_eq_exec(l: &Vec<char>) -> (r: Option<(Vec<char>, Vec<char>)>)
    ensures
        match split_eq(l@) {
            Some((k, v)) => r matches Some((a, b)) && a@ == k && b@ == v,
            None => r is None,
        },
{
    let mut i: usize = 0;
    assert(l@.take(0) =~= Seq::<char>::empty());
    while i < l.len()
        invariant
            i <= l.len(),
            first_eq(l@.take(i as int)) is None,
        decreases l.len() - i,
    {
        assert(l@.take(i + 1).drop_last() == l@.take(i as int));
        if l[i] == '=' {
            proof {
                lemma_first_eq_extends(l@, (i + 1) as int);
            }
            let k = crate::text::subrange_chars(l, 0, i);
            let v = crate::text::subrange_chars(l, i + 1, l.len());
            assert(v@ =~= l@.skip(i + 1));
            return Some((k, v));
        }
        i += 1;
    }
    assert(l@.take(l.len() as int) == l@);
    None
}

proof fn lemma_first_eq_extends(l: Seq<char>, k: int)
    requires
        0 <= k <= l.len(),
        first_eq(l.take(k)) is Some,
    ensures
        first_eq(l) == first_eq(l.take(k)),
    decreases l.len() - k,
{
    if k < l.len() {
        assert(l.take(k + 1).drop_last() == l.take(k));
        lemma_first_eq_extends(l, k + 1);
    } else {
        assert(l.take(k) == l);
    }
}

fn metric_raw_exec(lines: &Vec<Vec<char>>, key: &str) -> (r: Option<Vec<char>>)
    ensures
        match metric_raw(pieces_view(lines@), key@) {
            Some(v) => r matches Some(x) && x@ == v,
            None => r is None,
        },
{
    let ghost lv = pieces_view(lines@);
    let kv = chars_of(key);
    let mut i = lines.len();
    assert(lv.take(i as int) == lv);
    while i > 0
        invariant
            i <= lines.len(),
            lv == pieces_view(lines@),
            kv@ == key@,
            metric_raw(lv, key@) == metric_raw(lv.take(i as int), key@),
        decreases i,
    {
        let ghost t = lv.take(i as int);
        assert(t.last() == lines@[i - 1]@);
        assert(t.drop_last() == lv.take(i - 1));
        let tl = trim_chars(&lines[i - 1]);
        match split_eq_exec(&tl) {
            Some((k, v)) => {
                if crate::text::eq_chars(&k, &kv) {
                    return Some(v);
                }
            },
            None => {},
        }
        i -= 1;
    }
    assert(lv.take(0) =~= Seq::<Seq<char>>::empty());
    None
}

fn metric_int_exec(lines: &Vec<Vec<char>>, key: &str) -> (r: Option<u64>)
    ensures
        r == metric_int(pieces_view(lines@), key@),
{
    match metric_raw_exec(lines, key) {
        Some(v) => {
            let t = trim_chars(&v);
            parse_u64_chars(&t)
        },
        None => None,
    }
}

fn metric_text_exec(lines: &Vec<Vec<char>>, key: &str) -> (r: Option<String>)
    ensures
        opt_text(r) == metric_text(pieces_view(lines@), key@),
{
    match metric_raw_exec(lines, key) {
        Some(v) => Some(string_of(&trim_chars(&v))),
        None => None,
    }
}

fn kib_to_bytes(a: u64) -> (r: u64)
    ensures
        r == sat_kib(a),
{
    if a > u64::MAX / 1024 {
        u64::MAX
    } else {
        a * 1024
    }
}

fn sat_sub_exec(a: u64, b: u64) -> (r: u64)
    ensures
        r == sat_sub(a, b),
{
    if a >= b {
        a - b
    } else {
        0
    }
}

/// Reads the metrics script's `key=value` output (see `host_metrics_ok`).
pub fn parse_host_metrics(output: &str) -> (r: Option<HostMetrics>)
    ensures
        host_metrics_ok(r, output@),
{
    let ls = lines_of(output);
    let mt = match metric_int_exec(&ls, "memTotalKb") {
        Some(v) => v,
        None => return None,
    };
    let ma = match metric_int_exec(&ls, "memAvailableKb") {
        Some(v) => v,
        None => return None,
    };
    let st = match metric_int_exec(&ls, "swapTotalKb") {
        Some(v) => v,
        None => 0,
    };
    let sf = match metric_int_exec(&ls, "swapFreeKb") {
        Some(v) => v,
        None => 0,
    };
    let dt = match metric_int_exec(&ls, "diskTotalKb") {
        Some(v) => v,
        None => return None,
    };
    let du = match metric_int_exec(&ls, "diskUsedKb") {
        Some(v) => v,
        None => return None,
    };
    if mt == 0 || dt == 0 {
        return None;
    }
    let uptime = match metric_int_exec(&ls, "uptimeSeconds") {
        Some(v) => v,
        None => 0,
    };
    Some(
        HostMetrics {
            memory_used_bytes: kib_to_bytes(sat_sub_exec(mt, ma)),
            memory_total_bytes: kib_to_bytes(mt),
            swap_used_bytes: kib_to_bytes(sat_sub_exec(st, sf)),
            swap_total_bytes: kib_to_bytes(st),
            cpu_usage_percent_text: metric_text_exec(&ls, "cpuUsagePercent"),
            load_average_one_text: metric_text_exec(&ls, "loadAverageOne"),
            disk_used_bytes: kib_to_bytes(du),
            disk_total_bytes: kib_to_bytes(dt),
            uptime_seconds: uptime,
        },
    )
}

/// Installed and running package versions of the server.
pub struct PackageStatus {
    pub installed_build_id: Option<String>,
    pub battlegroup_version: Option<String>,
    pub live_battlegroup_version: Option<String>,
    pub operator_version: Option<String>,
}

/// The trimmed value of the first line `key=value` whose value is not
/// blank.
pub open spec fn package_value(lines: Seq<Seq<char>>, key: Seq<char>) -> Option<Seq<char>>
    decreases lines.len(),
{
    if lines.len() == 0 {
        None
    } else {
        match split_eq(lines[0]) {
            Some((k, v)) => if k == key && trim(v).len() > 0 {
                Some(trim(v))
            } else {
                package_value(lines.drop_first(), key)
            },
            None => package_value(lines.drop_first(), key),
        }
    }
}

fn package_value_exec(lines: &Vec<Vec<char>>, key: &str) -> (r: Option<String>)
    ensures
        opt_text(r) == package_value(pieces_view(lines@), key@),
{
    let ghost lv = pieces_view(lines@);
    let kv = chars_of(key);
    let mut i: usize = 0;
    assert(lv.skip(0) == lv);
    while i < lines.len()
        invariant
            i <= lines.len(),
            lv == pieces_view(lines@),
            kv@ == key@,
            package_value(lv, key@) == package_value(lv.skip(i as int), key@),
        decreases lines.len() - i,
    {
        assert(lv.skip(i as int)[0] == lines@[i as int]@);
        assert(lv.skip(i as int).drop_first() == lv.skip(i + 1));
        match split_eq_exec(&lines[i]) {
            Some((k, v)) => {
                let t = trim_chars(&v);
                if crate::text::eq_chars(&k, &kv) && t.len() > 0 {
                    return Some(string_of(&t));
                }
            },
            None => {},
        }
        i += 1;
    }
    None
}

/// The package versions the version script prints.
pub fn package_status_from_output(output: &str) -> (r: PackageStatus)
    ensures
        opt_text(r.installed_build_id) == package_value(text_lines(output@), "installedBuildId"@),
        opt_text(r.battlegroup_version) == package_value(text_lines(output@), "battlegroupVersion"@),
        opt_text(r.live_battlegroup_version) == package_value(
            text_lines(output@),
            "liveBattlegroupVersion"@,
        ),
        opt_text(r.operator_version) == package_value(text_lines(output@), "operatorVersion"@),
{
    let ls = lines_of(output);
    PackageStatus {
        installed_build_id: package_value_exec(&ls, "installedBuildId"),
        battlegroup_version: package_value_exec(&ls, "battlegroupVersion"),
        live_battlegroup_version: package_value_exec(&ls, "liveBattlegroupVersion"),
        operator_version: package_value_exec(&ls, "operatorVersion"),
    }
}

} // verus!

verus! {

// ---------------------------------------------------------------------------
// Discovered servers
// ---------------------------------------------------------------------------

/// How the desktop connects to a remote host.
pub struct RemoteConnectionRequest {
    pub host: String,
    pub user: Option<String>,
    pub key_path: Option<String>,
    pub port: Option<u16>,
    pub server_type: Option<String>,
}

/// One item of `kubectl get battlegroup -A -o json`, as far as discovery
/// reads it.
pub struct BattlegroupListItem {
    pub namespace: Option<String>,
    pub name: Option<String>,
    pub title: Option<String>,
    pub phase: Option<String>,
}

/// A server the desktop can manage.
pub struct RemoteServerRecord {
    pub id: String,
    pub name: String,
    pub host: String,
    pub user: String,
    pub key_path: String,
    pub port: Option<u16>,
    pub server_type: String,
    pub namespace: String,
    pub battlegroup_name: String,
    pub world_unique_name: String,
    pub phase: String,
}

/// The record for a listed battlegroup: needs its namespace and name; the
/// title defaults to the name and the phase to `Unknown`; connection
/// details come from the request (server type defaulting to `ubuntu`,
/// trimmed; user trimmed).
pub open spec fn record_ok(r: Option<RemoteServerRecord>, req: RemoteConnectionRequest, item: BattlegroupListItem) -> bool {
    match (item.namespace, item.name) {
        (Some(ns), Some(name)) => match r {
            None => false,
            Some(rec) => {
                &&& rec.id@ == crate::remote::record_id(req.host@, opt_text(req.key_path))
                &&& rec.name@ == (match item.title {
                    Some(t) => t@,
                    None => name@,
                })
                &&& rec.host@ == req.host@
                &&& rec.user@ == trim(text_or_empty(req.user))
                &&& rec.key_path@ == text_or_empty(req.key_path)
                &&& rec.port == req.port
                &&& rec.server_type@ == trim(
                    match req.server_type {
                        Some(t) => t@,
                        None => "ubuntu"@,
                    },
                )
                &&& rec.namespace@ == ns@
                &&& rec.battlegroup_name@ == name@
                &&& rec.world_unique_name@ == name@
                &&& rec.phase@ == (match item.phase {
                    Some(p) => p@,
                    None => "Unknown"@,
                })
            },
        },
        _ => r is None,
    }
}

/// The record for one listed battlegroup.
pub fn remote_record_from_battlegroup(req: &RemoteConnectionRequest, item: &BattlegroupListItem) -> (r:
    Option<RemoteServerRecord>)
    ensures
        record_ok(r, *req, *item),
{
    let namespace = match &item.namespace {
        Some(n) => n.clone(),
        None => return None,
    };
    let battlegroup_name = match &item.name {
        Some(n) => n.clone(),
        None => return None,
    };
    let title = match &item.title {
        Some(t) => t.clone(),
        None => battlegroup_name.clone(),
    };
    let phase = match &item.phase {
        Some(p) => p.clone(),
        None => string_of(&chars_of("Unknown")),
    };
    let server_type = match &req.server_type {
        Some(t) => string_of(&trim_str(t.as_str())),
        None => string_of(&trim_str("ubuntu")),
    };
    let user = match &req.user {
        Some(u) => string_of(&trim_str(u.as_str())),
        None => string_of(&trim_str("")),
    };
    assert(trim(text_or_empty(req.user)) == user@) by {
        if req.user is None {
            assert(""@ =~= Seq::<char>::empty()) by {
                reveal_strlit("");
            }
        }
    }
    let key_ref: Option<&str> = match &req.key_path {
        Some(k) => Some(k.as_str()),
        None => None,
    };
    let id = crate::remote::remote_record_id(server_type.as_str(), req.host.as_str(), key_ref);
    Some(
        RemoteServerRecord {
            id,
            name: title,
            host: req.host.clone(),
            user,
            key_path: text_or_empty_exec(&req.key_path),
            port: req.port,
            server_type,
            namespace,
            battlegroup_name: battlegroup_name.clone(),
            world_unique_name: battlegroup_name,
            phase,
        },
    )
}

/// `records` are the records of the items at the increasing positions
/// `picked`, and every item left out lacks a namespace or a name.
pub open spec fn records_pick(
    picked: Seq<int>,
    records: Seq<RemoteServerRecord>,
    req: RemoteConnectionRequest,
    items: Seq<BattlegroupListItem>,
) -> bool {
    &&& picked.len() == records.len()
    &&& forall|a: int, b: int| 0 <= a < b < picked.len() ==> picked[a] < picked[b]
    &&& forall|k: int|
        0 <= k < picked.len() ==> 0 <= #[trigger] picked[k] < items.len() && record_ok(
            Some(records[k]),
            req,
            items[picked[k]],
        )
    &&& forall|j: int|
        0 <= j < items.len() && !picked.contains(j) ==> (#[trigger] items[j]).namespace is None
            || items[j].name is None
}

/// The records of all listed battlegroups that have a namespace and name,
/// in list order.
pub fn remote_records_from_battlegroups(req: &RemoteConnectionRequest, items: &Option<Vec<BattlegroupListItem>>) -> (r: Vec<RemoteServerRecord>)
    ensures
        items is None ==> r@.len() == 0,
        items matches Some(v) ==> exists|picked: Seq<int>| #[trigger] records_pick(picked, r@, *req, v@),
{
    let mut out: Vec<RemoteServerRecord> = Vec::new();
    match items {
        None => out,
        Some(v) => {
            let ghost mut picked: Seq<int> = seq![];
            let mut i: usize = 0;
            while i < v.len()
                invariant
                    i <= v.len(),
                    picked.len() == out@.len(),
                    forall|a: int, b: int| 0 <= a < b < picked.len() ==> picked[a] < picked[b],
                    forall|k: int| 0 <= k < picked.len() ==> 0 <= #[trigger] picked[k] < i,
                    forall|k: int|
                        0 <= k < picked.len() ==> record_ok(Some(out@[k]), *req, v@[picked[k]]),
                    forall|j: int|
                        0 <= j < i && !picked.contains(j) ==> (#[trigger] v@[j]).namespace is None
                            || v@[j].name is None,
                decreases v.len() - i,
            {
                let ghost old_picked = picked;
                match remote_record_from_battlegroup(req, &v[i]) {
                    Some(rec) => {
                        out.push(rec);
                        proof {
                            picked = picked.push(i as int);
                            assert forall|j: int| 0 <= j < i + 1 && !picked.contains(j) implies (
                            #[trigger] v@[j]).namespace is None || v@[j].name is None by {
                                assert(picked[picked.len() - 1] == i);
                                if old_picked.contains(j) {
                                    let k = choose|k: int| 0 <= k < old_picked.len() && old_picked[k] == j;
                                    assert(picked[k] == j);
                                }
                            }
                        }
                    },
                    None => {
                        proof {
                            assert forall|j: int| 0 <= j < i + 1 && !picked.contains(j) implies (
                            #[trigger] v@[j]).namespace is None || v@[j].name is None by {}
                        }
                    },
                }
                i += 1;
            }
            assert(records_pick(picked, out@, *req, v@));
            out
        },
    }
}


/// The metrics are missing exactly when a required reading (memory or disk
/// total and available/used) is absent or a total is zero; when present,
/// used memory and used swap never exceed their totals.
pub proof fn lemma_host_metrics_presence(r: Option<HostMetrics>, output: Seq<char>)
    requires
        host_metrics_ok(r, output),
    ensures
        ({
            let ls = text_lines(output);
            let mt = metric_int(ls, "memTotalKb"@);
            let ma = metric_int(ls, "memAvailableKb"@);
            let dt = metric_int(ls, "diskTotalKb"@);
            let du = metric_int(ls, "diskUsedKb"@);
            (r is None) <==> (mt is None || ma is None || dt is None || du is None || mt == Some(0u64)
                || dt == Some(0u64))
        }),
        r is Some ==> r->0.memory_used_bytes <= r->0.memory_total_bytes,
        r is Some ==> r->0.swap_used_bytes <= r->0.swap_total_bytes,
{
    let ls = text_lines(output);
    if r is Some {
        let mt = metric_int(ls, "memTotalKb"@)->0;
        let ma = metric_int(ls, "memAvailableKb"@)->0;
        let st = or_zero(metric_int(ls, "swapTotalKb"@));
        let sf = or_zero(metric_int(ls, "swapFreeKb"@));
        lemma_sat_kib_monotone(sat_sub(mt, ma), mt);
        lemma_sat_kib_monotone(sat_sub(st, sf), st);
    }
}

proof fn lemma_sat_kib_monotone(a: u64, b: u64)
    requires
        a <= b,
    ensures
        sat_kib(a) <= sat_kib(b),
{
    assert(a as nat * 1024 <= b as nat * 1024) by (nonlinear_arith)
        requires
            a <= b,
    ;
}

} // verus!
