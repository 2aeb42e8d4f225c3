//! Battlegroup lifecycle checks: which phases count as started, the
//! readiness summary, and the server-pod count read from `kubectl`.
use vstd::prelude::*;
use crate::text::{
    append_str, ascii_lower, chars_of, contains_str, ends_with, eq_chars, eq_str, has_substring,
    pieces_view, split_chars, split_on, split_ws, string_of, to_ascii_lower, trim, trim_chars,
    trim_str, ws_tokens,
};

verus! {

/// Phases that mean the battlegroup is started and serving (`Reconciling`
/// included: servers are reachable while the controller settles).
pub open spec fn started_phase(phase: Seq<char>) -> bool {
    let p = ascii_lower(trim(phase));
    ||| p == "running"@
    ||| p == "ready"@
    ||| p == "healthy"@
    ||| p == "available"@
    ||| p == "reconciling"@
}

/// Whether a phase counts as started.
pub fn is_started_phase(phase: &str) -> (r: bool)
    ensures
        r == started_phase(phase@),
{
    let t = trim_str(phase);
    let p = to_ascii_lower(&t);
    eq_str(&p, "running") || eq_str(&p, "ready") || eq_str(&p, "healthy") || eq_str(
        &p,
        "available",
    ) || eq_str(&p, "reconciling")
}

/// The battlegroup's readiness as the restart workflow polls it.
pub struct ReadySummary {
    pub phase: String,
    pub server_group_phase: String,
    pub ready: u32,
    pub size: u32,
}

impl ReadySummary {
    /// Up once both the overall phase and the server-group phase are
    /// started; `ready`/`size` are informational.
    pub fn is_running(&self) -> (r: bool)
        ensures
            r == (started_phase(self.phase@) && started_phase(self.server_group_phase@)),
    {
        is_started_phase(self.phase.as_str()) && is_started_phase(
            self.server_group_phase.as_str(),
        )
    }
}

/// One entry of `status.servers` as far as readiness needs it.
pub struct ServerReadiness {
    pub ready: Option<bool>,
    pub phase: Option<String>,
}

/// The parts of a battlegroup's `status` object that readiness reads.
pub struct BattlegroupReadyStatus {
    pub phase: Option<String>,
    pub server_group_phase: Option<String>,
    pub servers: Option<Vec<ServerReadiness>>,
    pub size: Option<u64>,
}

pub open spec fn text_or_empty(o: Option<String>) -> Seq<char> {
    match o {
        Some(s) => s@,
        None => seq![],
    }
}

pub open spec fn server_is_ready(s: ServerReadiness) -> bool {
    s.ready == Some(true) && match s.phase {
        Some(p) => p@ == "Running"@,
        None => false,
    }
}

pub open spec fn count_ready(servers: Seq<ServerReadiness>) -> nat
    decreases servers.len(),
{
    if servers.len() == 0 {
        0
    } else {
        count_ready(servers.drop_last()) + if server_is_ready(servers.last()) {
            1nat
        } else {
            0nat
        }
    }
}

pub open spec fn servers_of(st: BattlegroupReadyStatus) -> Seq<ServerReadiness> {
    match st.servers {
        Some(v) => v@,
        None => seq![],
    }
}

fn text_or_empty_exec(o: &Option<String>) -> (r: String)
    ensures
        r@ == text_or_empty(*o),
{
    match o {
        Some(s) => s.clone(),
        None => String::new(),
    }
}

/// The readiness summary of a battlegroup status: phases (empty when
/// absent), servers ready with phase `Running`, and the declared size
/// (truncated to 32 bits) or else the number of servers.
pub fn ready_summary_from(status: &BattlegroupReadyStatus) -> (r: ReadySummary)
    ensures
        r.phase@ == text_or_empty(status.phase),
        r.server_group_phase@ == text_or_empty(status.server_group_phase),
        r.ready == count_ready(servers_of(*status)) as u32,
        r.size == match status.size {
            Some(n) => n as u32,
            None => servers_of(*status).len() as u32,
        },
{
    let phase = text_or_empty_exec(&status.phase);
    let server_group_phase = text_or_empty_exec(&status.server_group_phase);
    let empty: Vec<ServerReadiness> = Vec::new();
    let servers: &Vec<ServerReadiness> = match &status.servers {
        Some(v) => v,
        None => &empty,
    };
    assert(servers@ == servers_of(*status));
    let mut ready: u64 = 0;
    let mut i: usize = 0;
    assert(servers@.take(0) =~= Seq::<ServerReadiness>::empty());
    while i < servers.len()
        invariant
            i <= servers.len(),
            ready == count_ready(servers@.take(i as int)),
            ready <= i,
        decreases servers.len() - i,
    {
        assert(servers@.take(i + 1).drop_last() == servers@.take(i as int));
        assert(servers@.take(i + 1).last() == servers@[i as int]);
        let s = &servers[i];
        let running = match &s.phase {
            Some(p) => {
                let pv = chars_of(p.as_str());
                eq_str(&pv, "Running")
            },
            None => false,
        };
        if s.ready == Some(true) && running {
            ready += 1;
        }
        i += 1;
    }
    assert(servers@.take(servers.len() as int) == servers@);
    let size: u32 = match status.size {
        Some(n) => n as u32,
        None => servers.len() as u32,
    };
    ReadySummary { phase, server_group_phase, ready: ready as u32, size }
}

/// A battlegroup is fully stopped once `spec.stop` reads `true` and no
/// server pod remains.
pub fn battlegroup_stopped(stop_value: &str, pod_count: usize) -> (r: bool)
    ensures
        r == (stop_value@ == "true"@ && pod_count == 0),
{
    let v = chars_of(stop_value);
    eq_str(&v, "true") && pod_count == 0
}

/// A line of `kubectl get pods --no-headers -o custom-columns=NAME,DEL`
/// names a live server pod: the name contains `-sg-` and `-pod-`, and the
/// deletion column is absent or `<none>`.
pub open spec fn is_live_server_pod_line(line: Seq<char>) -> bool {
    let t = trim(line);
    let toks = ws_tokens(t);
    let name = if toks.len() >= 1 { toks[0] } else { seq![] };
    let deletion = if toks.len() >= 2 { toks[1] } else { seq![] };
    t.len() > 0 && has_substring(name, "-sg-"@) && has_substring(name, "-pod-"@) && (deletion.len()
        == 0 || deletion == "<none>"@)
}

pub open spec fn count_live_pod_lines(lines: Seq<Seq<char>>) -> nat
    decreases lines.len(),
{
    if lines.len() == 0 {
        0
    } else {
        count_live_pod_lines(lines.drop_last()) + if is_live_server_pod_line(lines.last()) {
            1nat
        } else {
            0nat
        }
    }
}

fn live_server_pod_line(line: &Vec<char>) -> (r: bool)
    ensures
        r == is_live_server_pod_line(line@),
{
    let t = trim_chars(line);
    if t.len() == 0 {
        return false;
    }
    let toks = split_ws(&t);
    let empty: Vec<char> = Vec::new();
    let name: &Vec<char> = if toks.len() >= 1 {
        &toks[0]
    } else {
        &empty
    };
    let deletion: &Vec<char> = if toks.len() >= 2 {
        &toks[1]
    } else {
        &empty
    };
    assert(name@ == (if ws_tokens(t@).len() >= 1 {
        ws_tokens(t@)[0]
    } else {
        Seq::<char>::empty()
    }));
    assert(deletion@ == (if ws_tokens(t@).len() >= 2 {
        ws_tokens(t@)[1]
    } else {
        Seq::<char>::empty()
    }));
    contains_str(name, "-sg-") && contains_str(name, "-pod-") && (deletion.len() == 0 || eq_str(
        deletion,
        "<none>",
    ))
}

/// The number of live server pods in the listing's output.
pub fn count_server_pods_in(stdout: &str) -> (r: usize)
    ensures
        r == count_live_pod_lines(split_on(stdout@, '\n')),
{
    let text = chars_of(stdout);
    let lines = split_chars(&text, '\n');
    let ghost lv = pieces_view(lines@);
    let mut count: usize = 0;
    let mut i: usize = 0;
    assert(lv.take(0) =~= Seq::<Seq<char>>::empty());
    while i < lines.len()
        invariant
            i <= lines.len(),
            lv == pieces_view(lines@),
            lv == split_on(stdout@, '\n'),
            count == count_live_pod_lines(lv.take(i as int)),
            count <= i,
        decreases lines.len() - i,
    {
        assert(lv.take(i + 1).drop_last() == lv.take(i as int));
        assert(lv.take(i + 1).last() == lines@[i as int]@);
        if live_server_pod_line(&lines[i]) {
            count += 1;
        }
        i += 1;
    }
    assert(lv.take(lines.len() as int) == lv);
    count
}

/// `Path::join` of a directory with a single relative component, with
/// `/` as the separator.
pub open spec fn join_dir(dir: Seq<char>, name: Seq<char>) -> Seq<char> {
    if dir.len() == 0 {
        name
    } else if ends_with(dir, "/"@) {
        dir + name
    } else {
        dir + "/"@ + name
    }
}

/// The vendor `battlegroup` helper in the service's binary directory.
pub struct BattlegroupCli {
    bin: String,
}

impl BattlegroupCli {
    pub closed spec fn bin_path(&self) -> Seq<char> {
        self.bin@
    }

    /// The helper at `<bin_dir>/battlegroup`.
    pub fn new(bin_dir: &str) -> (r: Self)
        ensures
            r.bin_path() == join_dir(bin_dir@, "battlegroup"@),
    {
        let mut v = chars_of(bin_dir);
        proof {
            reveal_strlit("/");
        }
        if v.len() > 0 && !crate::text::ends_with_str(&v, "/") {
            v.push('/');
        }
        append_str(&mut v, "battlegroup");
        proof {
            if bin_dir@.len() > 0 && !ends_with(bin_dir@, "/"@) {
                assert(v@ =~= bin_dir@ + "/"@ + "battlegroup"@);
            }
        }
        BattlegroupCli { bin: string_of(&v) }
    }

    /// The helper's path.
    pub fn bin_str(&self) -> (r: String)
        ensures
            r@ == self.bin_path(),
    {
        self.bin.clone()
    }
}

} // verus!
