//! Health of the server's runtime components: pod groups classified from
//! their pods' readiness, restarts and waiting/termination reasons, and the
//! operator resources (server group, gateway, server sets) by phase.
use vstd::prelude::*;
use crate::text::{
    append, append_str, ascii_lower, chars_of, contains_str, dec, eq_chars, eq_str, fmt_u64,
    has_substring, join, join_chars, lt_chars, pieces_view, string_of, text_lt, to_ascii_lower,
    trim, trim_str, lemma_trim_plain,
};
use crate::status::{friendly_map, friendly_map_name, serverset_key, serverset_log_key};
use crate::catalog::strings_view;

verus! {

/// One container's status within a pod.
pub struct ContainerStatus {
    pub ready: bool,
    pub restart_count: u64,
    pub waiting_reason: Option<String>,
    pub terminated_reason: Option<String>,
}

/// A pod as far as health reads it (text fields empty when absent).
pub struct PodInfo {
    pub name: String,
    pub role: String,
    pub phase: String,
    pub container_statuses: Vec<ContainerStatus>,
}

/// Memory use reported for a pod by the metrics API (CPU use stays with
/// the caller, which sums it over `cpu_usage_entries`).
pub struct PodUsage {
    pub name: String,
    pub memory_bytes: u64,
}

/// A row of the component health table.
pub struct ServerComponent {
    pub name: String,
    pub log_key: String,
    pub category: String,
    pub component_kind: String,
    pub state: String,
    pub tone: String,
    pub summary: String,
    pub details: Vec<String>,
    pub ready_pods: Option<u64>,
    pub total_pods: Option<u64>,
    pub restart_count: u64,
    pub memory_bytes: Option<u64>,
    /// Positions, in the usage list, of the entries whose CPU use adds up to
    /// this group's; `None` when no usage was reported.
    pub cpu_usage_entries: Option<Vec<usize>>,
}

pub struct ComponentView {
    pub name: Seq<char>,
    pub log_key: Seq<char>,
    pub category: Seq<char>,
    pub component_kind: Seq<char>,
    pub state: Seq<char>,
    pub tone: Seq<char>,
    pub summary: Seq<char>,
    pub details: Seq<Seq<char>>,
    pub ready_pods: Option<u64>,
    pub total_pods: Option<u64>,
    pub restart_count: u64,
    pub memory_bytes: Option<u64>,
    pub cpu_usage_entries: Option<Seq<usize>>,
}

impl View for ServerComponent {
    type V = ComponentView;

    open spec fn view(&self) -> ComponentView {
        ComponentView {
            name: self.name@,
            log_key: self.log_key@,
            category: self.category@,
            component_kind: self.component_kind@,
            state: self.state@,
            tone: self.tone@,
            summary: self.summary@,
            details: strings_view(self.details@),
            ready_pods: self.ready_pods,
            total_pods: self.total_pods,
            restart_count: self.restart_count,
            memory_bytes: self.memory_bytes,
            cpu_usage_entries: match self.cpu_usage_entries {
                Some(v) => Some(v@),
                None => None,
            },
        }
    }
}

impl ServerComponent {
    /// A copy with the same contents.
    pub fn duplicate(&self) -> (r: ServerComponent)
        ensures
            r@ == self@,
    {
        let entries = match &self.cpu_usage_entries {
            Some(v) => Some(v.clone()),
            None => None,
        };
        let mut details: Vec<String> = Vec::new();
        let mut i: usize = 0;
        while i < self.details.len()
            invariant
                i <= self.details@.len(),
                strings_view(details@) == strings_view(self.details@.take(i as int)),
            decreases self.details@.len() - i,
        {
            details.push(self.details[i].clone());
            assert(strings_view(self.details@.take(i + 1)) =~= strings_view(
                self.details@.take(i as int),
            ).push(self.details@[i as int]@));
            assert(strings_view(details@) =~= strings_view(self.details@.take(i + 1)));
            i += 1;
        }
        assert(self.details@.take(self.details@.len() as int) =~= self.details@);
        ServerComponent {
            name: self.name.clone(),
            log_key: self.log_key.clone(),
            category: self.category.clone(),
            component_kind: self.component_kind.clone(),
            state: self.state.clone(),
            tone: self.tone.clone(),
            summary: self.summary.clone(),
            details,
            ready_pods: self.ready_pods,
            total_pods: self.total_pods,
            restart_count: self.restart_count,
            memory_bytes: self.memory_bytes,
            cpu_usage_entries: entries,
        }
    }
}

pub open spec fn components_view(v: Seq<ServerComponent>) -> Seq<ComponentView> {
    v.map_values(|c: ServerComponent| c@)
}

// ---------------------------------------------------------------------------
// Building blocks
// ---------------------------------------------------------------------------

/// An operator-resource row with no pod data.
pub open spec fn component_of(
    name: Seq<char>,
    log_key: Seq<char>,
    category: Seq<char>,
    state: Seq<char>,
    tone: Seq<char>,
    summary: Seq<char>,
    details: Seq<Seq<char>>,
) -> ComponentView {
    ComponentView {
        name,
        log_key,
        category,
        component_kind: "operator-resource"@,
        state,
        tone,
        summary,
        details,
        ready_pods: None,
        total_pods: None,
        restart_count: 0,
        memory_bytes: None,
        cpu_usage_entries: None,
    }
}

fn text(s: &str) -> (r: String)
    ensures
        r@ == s@,
{
    string_of(&chars_of(s))
}

/// An operator-resource row.
fn component(
    name: &str,
    log_key: &str,
    category: &str,
    state: &str,
    tone: &str,
    summary: String,
    details: Vec<String>,
) -> (r: ServerComponent)
    ensures
        r@ == component_of(name@, log_key@, category@, state@, tone@, summary@, strings_view(details@)),
{
    ServerComponent {
        name: text(name),
        log_key: text(log_key),
        category: text(category),
        component_kind: text("operator-resource"),
        state: text(state),
        tone: text(tone),
        summary,
        details,
        ready_pods: None,
        total_pods: None,
        restart_count: 0,
        memory_bytes: None,
        cpu_usage_entries: None,
    }
}

/// Entries that hold more than whitespace, in order.
pub open spec fn compact(values: Seq<Seq<char>>) -> Seq<Seq<char>>
    decreases values.len(),
{
    if values.len() == 0 {
        seq![]
    } else if trim(values.last()).len() > 0 {
        compact(values.drop_last()).push(values.last())
    } else {
        compact(values.drop_last())
    }
}

/// Drops blank detail lines.
pub fn compact_details(values: Vec<String>) -> (r: Vec<String>)
    ensures
        strings_view(r@) == compact(strings_view(values@)),
{
    let ghost vs = strings_view(values@);
    let mut out: Vec<String> = Vec::new();
    let mut i: usize = 0;
    assert(vs.take(0) =~= Seq::<Seq<char>>::empty());
    assert(strings_view(out@) =~= Seq::<Seq<char>>::empty());
    while i < values.len()
        invariant
            i <= values.len(),
            vs == strings_view(values@),
            strings_view(out@) == compact(vs.take(i as int)),
        decreases values.len() - i,
    {
        assert(vs.take(i + 1).drop_last() == vs.take(i as int));
        assert(vs.take(i + 1).last() == values@[i as int]@);
        let t = trim_str(values[i].as_str());
        if t.len() > 0 {
            let ghost before = out@;
            let s = values[i].clone();
            out.push(s);
            assert(strings_view(out@) =~= strings_view(before).push(values@[i as int]@));
        }
        i += 1;
    }
    assert(vs.take(values.len() as int) == vs);
    out
}

/// The (state, tone) a phase maps to, ASCII case ignored.
pub open spec fn phase_state(phase: Seq<char>) -> (Seq<char>, Seq<char>) {
    let n = ascii_lower(phase);
    if n == "healthy"@ || n == "running"@ || n == "ready"@ || n == "available"@ {
        ("Ready"@, "green"@)
    } else if n == "stopped"@ || n == "suspended"@ {
        ("Stopped"@, "gray"@)
    } else if n == "initializing"@ || n == "reconciling"@ || n == "pending"@ || n == "starting"@ {
        ("Starting"@, "amber"@)
    } else if n == "failed"@ || n == "error"@ || n == "degraded"@ {
        ("Problem"@, "red"@)
    } else {
        ("Unknown"@, "amber"@)
    }
}

pub open spec fn phase_component_of(
    label: Seq<char>,
    log_key: Seq<char>,
    category: Seq<char>,
    phase: Seq<char>,
    summary: Seq<char>,
    details: Seq<Seq<char>>,
) -> ComponentView {
    component_of(label, log_key, category, phase_state(phase).0, phase_state(phase).1, summary, details)
}

/// A row whose state follows an operator phase.
fn phase_component(
    label: &str,
    log_key: &str,
    category: &str,
    phase: &str,
    summary: String,
    details: Vec<String>,
) -> (r: ServerComponent)
    ensures
        r@ == phase_component_of(label@, log_key@, category@, phase@, summary@, strings_view(details@)),
{
    let n = to_ascii_lower(&chars_of(phase));
    if eq_str(&n, "healthy") || eq_str(&n, "running") || eq_str(&n, "ready") || eq_str(
        &n,
        "available",
    ) {
        component(label, log_key, category, "Ready", "green", summary, details)
    } else if eq_str(&n, "stopped") || eq_str(&n, "suspended") {
        component(label, log_key, category, "Stopped", "gray", summary, details)
    } else if eq_str(&n, "initializing") || eq_str(&n, "reconciling") || eq_str(&n, "pending")
        || eq_str(&n, "starting") {
        component(label, log_key, category, "Starting", "amber", summary, details)
    } else if eq_str(&n, "failed") || eq_str(&n, "error") || eq_str(&n, "degraded") {
        component(label, log_key, category, "Problem", "red", summary, details)
    } else {
        component(label, log_key, category, "Unknown", "amber", summary, details)
    }
}

/// Waiting/termination reasons that mean a pod is failing.
pub open spec fn bad_reason(reason: Seq<char>) -> bool {
    ||| reason == "CrashLoopBackOff"@
    ||| reason == "ImagePullBackOff"@
    ||| reason == "ErrImagePull"@
    ||| reason == "CreateContainerConfigError"@
    ||| reason == "CreateContainerError"@
    ||| reason == "RunContainerError"@
    ||| reason == "OOMKilled"@
    ||| reason == "Error"@
}

/// Whether a reason means a pod is failing.
pub fn is_bad_reason(reason: &str) -> (r: bool)
    ensures
        r == bad_reason(reason@),
{
    is_bad_reason_chars(&chars_of(reason))
}

fn is_bad_reason_chars(v: &Vec<char>) -> (r: bool)
    ensures
        r == bad_reason(v@),
{
    eq_str(v, "CrashLoopBackOff") || eq_str(v, "ImagePullBackOff") || eq_str(v, "ErrImagePull")
        || eq_str(v, "CreateContainerConfigError") || eq_str(v, "CreateContainerError") || eq_str(
        v,
        "RunContainerError",
    ) || eq_str(v, "OOMKilled") || eq_str(v, "Error")
}

/// Database utility pods that count: monitor and pghero always, utility
/// jobs only while not finished.
pub open spec fn current_database_utility_pod(role: Seq<char>, phase: Seq<char>) -> bool {
    ||| has_substring(role, "database-monitor"@)
    ||| has_substring(role, "database-pghero"@)
    ||| (has_substring(role, "database-utility"@) && !(phase == "Succeeded"@ || phase == "Failed"@))
}

/// Whether a pod belongs to the current database utilities.
pub fn is_current_database_utility_pod(role: &str, phase: &str) -> (r: bool)
    ensures
        r == current_database_utility_pod(role@, phase@),
{
    let rv = chars_of(role);
    let pv = chars_of(phase);
    contains_str(&rv, "database-monitor") || contains_str(&rv, "database-pghero") || (contains_str(
        &rv,
        "database-utility",
    ) && !(eq_str(&pv, "Succeeded") || eq_str(&pv, "Failed")))
}


// ---------------------------------------------------------------------------
// Pod groups
// ---------------------------------------------------------------------------

pub open spec fn statuses_all_ready(st: Seq<ContainerStatus>) -> bool {
    forall|i: int| 0 <= i < st.len() ==> (#[trigger] st[i]).ready
}

/// A pod counts as ready when all of its (at least one) containers are
/// ready, or when it completed (`Succeeded`).
pub open spec fn pod_counts_ready(p: PodInfo) -> bool {
    (p.container_statuses@.len() > 0 && statuses_all_ready(p.container_statuses@)) || p.phase@
        == "Succeeded"@
}

pub open spec fn status_reasons(s: ContainerStatus) -> Seq<Seq<char>> {
    let w: Seq<Seq<char>> = match s.waiting_reason {
        Some(r) => seq![r@],
        None => seq![],
    };
    match s.terminated_reason {
        Some(r) => if r@ != "Completed"@ {
            w.push(r@)
        } else {
            w
        },
        None => w,
    }
}

/// Waiting reasons and (non-`Completed`) termination reasons, container by
/// container.
pub open spec fn pod_reasons(st: Seq<ContainerStatus>) -> Seq<Seq<char>>
    decreases st.len(),
{
    if st.len() == 0 {
        seq![]
    } else {
        pod_reasons(st.drop_last()) + status_reasons(st.last())
    }
}

pub open spec fn pod_restarts(st: Seq<ContainerStatus>) -> nat
    decreases st.len(),
{
    if st.len() == 0 {
        0
    } else {
        pod_restarts(st.drop_last()) + st.last().restart_count as nat
    }
}

/// The usage entry for a pod: the last one with its name.
pub open spec fn usage_index(usage: Seq<PodUsage>, name: Seq<char>) -> Option<int>
    decreases usage.len(),
{
    if usage.len() == 0 {
        None
    } else if usage.last().name@ == name {
        Some(usage.len() - 1)
    } else {
        usage_index(usage.drop_last(), name)
    }
}

#[verifier::ext_equal]
pub struct PodTally {
    pub total: nat,
    pub ready: nat,
    pub restarts: nat,
    pub reasons: Seq<Seq<char>>,
    pub phases: Seq<Seq<char>>,
    pub memory: nat,
    pub has_usage: bool,
    pub usage_entries: Seq<usize>,
}

pub open spec fn empty_tally() -> PodTally {
    PodTally {
        total: 0,
        ready: 0,
        restarts: 0,
        reasons: seq![],
        phases: seq![],
        memory: 0,
        has_usage: false,
        usage_entries: seq![],
    }
}

/// The totals after one more matched pod; memory adds up saturating at the
/// 64-bit maximum.
pub open spec fn tally_step(t: PodTally, p: PodInfo, usage: Seq<PodUsage>) -> PodTally {
    let u = usage_index(usage, p.name@);
    PodTally {
        total: t.total + 1,
        ready: t.ready + if pod_counts_ready(p) {
            1nat
        } else {
            0nat
        },
        restarts: t.restarts + pod_restarts(p.container_statuses@),
        reasons: t.reasons + pod_reasons(p.container_statuses@),
        phases: if p.phase@.len() > 0 {
            t.phases.push(p.phase@)
        } else {
            t.phases
        },
        memory: match u {
            Some(k) => if t.memory + usage[k].memory_bytes > u64::MAX {
                u64::MAX as nat
            } else {
                t.memory + usage[k].memory_bytes as nat
            },
            None => t.memory,
        },
        has_usage: t.has_usage || u is Some,
        usage_entries: match u {
            Some(k) => t.usage_entries.push(k as usize),
            None => t.usage_entries,
        },
    }
}

/// Totals over the matched pods, in pod order.
pub open spec fn tally(pods: Seq<PodInfo>, matched: Seq<bool>, usage: Seq<PodUsage>) -> PodTally
    decreases pods.len(),
{
    if pods.len() == 0 {
        empty_tally()
    } else {
        let t = tally(pods.drop_last(), matched.take(pods.len() - 1), usage);
        if matched[pods.len() - 1] {
            tally_step(t, pods.last(), usage)
        } else {
            t
        }
    }
}

pub open spec fn any_bad_reason(reasons: Seq<Seq<char>>) -> bool {
    exists|i: int| 0 <= i < reasons.len() && bad_reason(#[trigger] reasons[i])
}

pub open spec fn any_failed_phase(phases: Seq<Seq<char>>) -> bool {
    exists|i: int| 0 <= i < phases.len() && #[trigger] phases[i] == "Failed"@
}

/// A row turned into a pod-group row with its counts.
pub open spec fn with_pod_status(
    c: ComponentView,
    ready: u64,
    total: u64,
    restarts: u64,
    memory: Option<u64>,
    entries: Option<Seq<usize>>,
) -> ComponentView {
    ComponentView {
        name: c.name,
        log_key: c.log_key,
        category: c.category,
        component_kind: "pod-group"@,
        state: c.state,
        tone: c.tone,
        summary: c.summary,
        details: c.details,
        ready_pods: Some(ready),
        total_pods: Some(total),
        restart_count: restarts,
        memory_bytes: memory,
        cpu_usage_entries: entries,
    }
}

pub open spec fn pod_details(t: PodTally) -> Seq<Seq<char>> {
    compact(
        seq![
            dec(t.ready) + "/"@ + dec(t.total) + " pods ready"@,
            if t.restarts > 0 {
                dec(t.restarts) + " container restarts"@
            } else {
                seq![]
            },
            if t.reasons.len() == 0 {
                seq![]
            } else {
                "Reason: "@ + join(t.reasons, ", "@)
            },
        ],
    )
}

/// The health row for the pods a selector matched.
pub open spec fn pod_group_of(
    label: Seq<char>,
    log_key: Seq<char>,
    pods: Seq<PodInfo>,
    matched: Seq<bool>,
    usage: Seq<PodUsage>,
) -> ComponentView {
    let t = tally(pods, matched, usage);
    if t.total == 0 {
        with_pod_status(
            component_of(
                label,
                log_key,
                "system"@,
                "Not present"@,
                "gray"@,
                "No matching runtime component was found."@,
                seq![],
            ),
            0,
            0,
            0,
            None,
            None,
        )
    } else {
        let details = pod_details(t);
        let base = if t.ready == t.total && t.reasons.len() == 0 {
            component_of(label, log_key, "system"@, "Ready"@, "green"@, "All pods are ready."@, details)
        } else if any_bad_reason(t.reasons) || any_failed_phase(t.phases) {
            component_of(
                label,
                log_key,
                "system"@,
                "Problem"@,
                "red"@,
                "One or more pods are failing."@,
                details,
            )
        } else {
            component_of(
                label,
                log_key,
                "system"@,
                "Starting"@,
                "amber"@,
                "Waiting for pods to become ready."@,
                details,
            )
        };
        with_pod_status(
            base,
            t.ready as u64,
            t.total as u64,
            t.restarts as u64,
            if t.has_usage {
                Some(t.memory as u64)
            } else {
                None
            },
            if t.has_usage {
                Some(t.usage_entries)
            } else {
                None
            },
        )
    }
}

proof fn lemma_pod_restarts_prefix(st: Seq<ContainerStatus>, j: int)
    requires
        0 <= j <= st.len(),
    ensures
        pod_restarts(st.take(j)) <= pod_restarts(st),
    decreases st.len(),
{
    if j < st.len() {
        lemma_pod_restarts_prefix(st.drop_last(), j);
        assert(st.drop_last().take(j) =~= st.take(j));
    } else {
        assert(st.take(j) =~= st);
    }
}

proof fn lemma_tally_prefix(pods: Seq<PodInfo>, matched: Seq<bool>, usage: Seq<PodUsage>, i: int)
    requires
        0 <= i <= pods.len(),
        matched.len() == pods.len(),
    ensures
        tally(pods.take(i), matched.take(i), usage).restarts <= tally(pods, matched, usage).restarts,
    decreases pods.len(),
{
    if i < pods.len() {
        let n = pods.len() - 1;
        lemma_tally_prefix(pods.drop_last(), matched.take(n), usage, i);
        assert(pods.drop_last().take(i) =~= pods.take(i));
        assert(matched.take(n).take(i) =~= matched.take(i));
    } else {
        assert(pods.take(i) =~= pods);
        assert(matched.take(i) =~= matched);
    }
}

proof fn lemma_tally_bounds(pods: Seq<PodInfo>, matched: Seq<bool>, usage: Seq<PodUsage>)
    requires
        matched.len() == pods.len(),
    ensures
        tally(pods, matched, usage).ready <= tally(pods, matched, usage).total <= pods.len(),
        tally(pods, matched, usage).memory <= u64::MAX,
    decreases pods.len(),
{
    if pods.len() > 0 {
        lemma_tally_bounds(pods.drop_last(), matched.take(pods.len() - 1), usage);
    }
}

/// Running totals while the pods are walked.
struct TallyAcc {
    total: u64,
    ready: u64,
    restarts: u64,
    memory: u64,
    has_usage: bool,
    entries: Vec<usize>,
    reasons: Vec<Vec<char>>,
    phases: Vec<Vec<char>>,
}

spec fn acc_view(a: TallyAcc) -> PodTally {
    PodTally {
        total: a.total as nat,
        ready: a.ready as nat,
        restarts: a.restarts as nat,
        reasons: pieces_view(a.reasons@),
        phases: pieces_view(a.phases@),
        memory: a.memory as nat,
        has_usage: a.has_usage,
        usage_entries: a.entries@,
    }
}

/// Position of the last usage entry with the given name.
fn find_usage(usage: &Vec<PodUsage>, name: &Vec<char>) -> (r: Option<usize>)
    ensures
        match r {
            Some(k) => k < usage@.len() && usage_index(usage@, name@) == Some(k as int),
            None => usage_index(usage@, name@) is None,
        },
{
    let mut j: usize = usage.len();
    assert(usage@.take(j as int) =~= usage@);
    while j > 0
        invariant
            j <= usage.len(),
            usage_index(usage@, name@) == usage_index(usage@.take(j as int), name@),
        decreases j,
    {
        let ghost pre = usage@.take(j as int);
        assert(pre.drop_last() =~= usage@.take(j - 1));
        let un = chars_of(usage[j - 1].name.as_str());
        if eq_chars(&un, name) {
            return Some(j - 1);
        }
        j -= 1;
    }
    None
}

fn all_containers_ready(st: &Vec<ContainerStatus>) -> (r: bool)
    ensures
        r == statuses_all_ready(st@),
{
    let mut k: usize = 0;
    while k < st.len()
        invariant
            k <= st.len(),
            forall|m: int| 0 <= m < k ==> (#[trigger] st@[m]).ready,
        decreases st.len() - k,
    {
        if !st[k].ready {
            return false;
        }
        k += 1;
    }
    true
}

/// Adds a pod's container restarts to a running total.
fn add_restarts(total: u64, st: &Vec<ContainerStatus>) -> (r: u64)
    requires
        total + pod_restarts(st@) <= u64::MAX,
    ensures
        r == total + pod_restarts(st@),
{
    let mut acc = total;
    let mut k: usize = 0;
    assert(st@.take(0) =~= Seq::<ContainerStatus>::empty());
    while k < st.len()
        invariant
            k <= st.len(),
            total + pod_restarts(st@) <= u64::MAX,
            acc == total + pod_restarts(st@.take(k as int)),
        decreases st.len() - k,
    {
        assert(st@.take(k + 1).drop_last() =~= st@.take(k as int));
        proof {
            lemma_pod_restarts_prefix(st@, k + 1);
        }
        acc = acc + st[k].restart_count;
        k += 1;
    }
    assert(st@.take(st.len() as int) =~= st@);
    acc
}

/// Appends a pod's failure reasons.
fn add_reasons(reasons: &mut Vec<Vec<char>>, st: &Vec<ContainerStatus>)
    ensures
        pieces_view(final(reasons)@) == pieces_view(old(reasons)@) + pod_reasons(st@),
{
    let ghost start = pieces_view(reasons@);
    let mut k: usize = 0;
    assert(st@.take(0) =~= Seq::<ContainerStatus>::empty());
    assert(start + pod_reasons(st@.take(0)) =~= start);
    while k < st.len()
        invariant
            k <= st.len(),
            pieces_view(reasons@) == start + pod_reasons(st@.take(k as int)),
        decreases st.len() - k,
    {
        assert(st@.take(k + 1).drop_last() =~= st@.take(k as int));
        let ghost before = pieces_view(reasons@);
        let s = &st[k];
        match &s.waiting_reason {
            Some(w) => {
                reasons.push(chars_of(w.as_str()));
            },
            None => {},
        }
        match &s.terminated_reason {
            Some(t) => {
                let tv = chars_of(t.as_str());
                if !eq_str(&tv, "Completed") {
                    reasons.push(tv);
                }
            },
            None => {},
        }
        assert(pieces_view(reasons@) =~= before + status_reasons(st@[k as int]));
        k += 1;
    }
    assert(st@.take(st.len() as int) =~= st@);
}

/// Folds one matched pod into the running totals.
fn add_pod(acc: &mut TallyAcc, p: &PodInfo, usage: &Vec<PodUsage>)
    requires
        tally_step(acc_view(*old(acc)), *p, usage@).restarts <= u64::MAX,
        old(acc).total < u64::MAX,
        old(acc).ready <= old(acc).total,
    ensures
        acc_view(*final(acc)) =~= tally_step(acc_view(*old(acc)), *p, usage@),
{
    let ghost t0 = acc_view(*acc);
    acc.total = acc.total + 1;
    let name = chars_of(p.name.as_str());
    match find_usage(usage, &name) {
        Some(k) => {
            acc.has_usage = true;
            let m = usage[k].memory_bytes;
            acc.memory = if acc.memory > u64::MAX - m {
                u64::MAX
            } else {
                acc.memory + m
            };
            acc.entries.push(k);
        },
        None => {},
    }
    let phase = chars_of(p.phase.as_str());
    if phase.len() > 0 {
        acc.phases.push(phase.clone());
    }
    let ready = (p.container_statuses.len() > 0 && all_containers_ready(&p.container_statuses))
        || eq_str(&phase, "Succeeded");
    if ready {
        acc.ready = acc.ready + 1;
    }
    acc.restarts = add_restarts(acc.restarts, &p.container_statuses);
    add_reasons(&mut acc.reasons, &p.container_statuses);
    proof {
        let t1 = tally_step(t0, *p, usage@);
        assert(pieces_view(acc.phases@) =~= t1.phases);
        assert(acc.entries@ =~= t1.usage_entries);
    }
}

fn tally_pods(pods: &Vec<PodInfo>, matched: &Vec<bool>, usage: &Vec<PodUsage>) -> (r: TallyAcc)
    requires
        matched@.len() == pods@.len(),
        tally(pods@, matched@, usage@).restarts <= u64::MAX,
    ensures
        acc_view(r) =~= tally(pods@, matched@, usage@),
{
    let mut acc = TallyAcc {
        total: 0,
        ready: 0,
        restarts: 0,
        memory: 0,
        has_usage: false,
        entries: Vec::new(),
        reasons: Vec::new(),
        phases: Vec::new(),
    };
    let mut i: usize = 0;
    assert(pods@.take(0) =~= Seq::<PodInfo>::empty());
    assert(acc_view(acc) =~= tally(pods@.take(0), matched@.take(0), usage@));
    while i < pods.len()
        invariant
            i <= pods.len(),
            matched@.len() == pods@.len(),
            tally(pods@, matched@, usage@).restarts <= u64::MAX,
            acc_view(acc) =~= tally(pods@.take(i as int), matched@.take(i as int), usage@),
        decreases pods.len() - i,
    {
        let ghost pre = pods@.take(i + 1);
        let ghost mpre = matched@.take(i + 1);
        assert(pre.drop_last() =~= pods@.take(i as int));
        assert(mpre.take(i as int) =~= matched@.take(i as int));
        assert(pre.last() == pods@[i as int]);
        proof {
            lemma_tally_prefix(pods@, matched@, usage@, i + 1);
            lemma_tally_bounds(pods@.take(i as int), matched@.take(i as int), usage@);
        }
        if matched[i] {
            add_pod(&mut acc, &pods[i], usage);
        }
        i += 1;
    }
    assert(pods@.take(pods.len() as int) =~= pods@);
    assert(matched@.take(pods.len() as int) =~= matched@);
    acc
}

fn any_bad_reason_exec(reasons: &Vec<Vec<char>>) -> (r: bool)
    ensures
        r == any_bad_reason(pieces_view(reasons@)),
{
    let ghost v = pieces_view(reasons@);
    let mut k: usize = 0;
    while k < reasons.len()
        invariant
            k <= reasons.len(),
            v == pieces_view(reasons@),
            forall|m: int| 0 <= m < k ==> !bad_reason(#[trigger] v[m]),
        decreases reasons.len() - k,
    {
        if is_bad_reason_chars(&reasons[k]) {
            assert(bad_reason(v[k as int]));
            return true;
        }
        k += 1;
    }
    false
}

fn any_failed_phase_exec(phases: &Vec<Vec<char>>) -> (r: bool)
    ensures
        r == any_failed_phase(pieces_view(phases@)),
{
    let ghost v = pieces_view(phases@);
    let mut k: usize = 0;
    while k < phases.len()
        invariant
            k <= phases.len(),
            v == pieces_view(phases@),
            forall|m: int| 0 <= m < k ==> #[trigger] v[m] != "Failed"@,
        decreases phases.len() - k,
    {
        if eq_str(&phases[k], "Failed") {
            assert(v[k as int] == "Failed"@);
            return true;
        }
        k += 1;
    }
    false
}

fn with_pod_status_exec(
    c: ServerComponent,
    ready: u64,
    total: u64,
    restarts: u64,
    memory: Option<u64>,
    entries: Option<Vec<usize>>,
) -> (r: ServerComponent)
    ensures
        r@ == with_pod_status(
            c@,
            ready,
            total,
            restarts,
            memory,
            match entries {
                Some(v) => Some(v@),
                None => None,
            },
        ),
{
    let mut c = c;
    c.component_kind = text("pod-group");
    c.ready_pods = Some(ready);
    c.total_pods = Some(total);
    c.restart_count = restarts;
    c.memory_bytes = memory;
    c.cpu_usage_entries = entries;
    c
}

/// The health row for the pods that `matched` marks (one mark per pod, in
/// pod order, as `select_pods` computes them), with their usage.
pub fn pod_component(
    label: &str,
    log_key: &str,
    pods: &Vec<PodInfo>,
    matched: &Vec<bool>,
    usage: &Vec<PodUsage>,
) -> (r: ServerComponent)
    requires
        matched@.len() == pods@.len(),
        tally(pods@, matched@, usage@).restarts <= u64::MAX,
    ensures
        r@ == pod_group_of(label@, log_key@, pods@, matched@, usage@),
{
    let acc = tally_pods(pods, matched, usage);
    let ghost t = tally(pods@, matched@, usage@);
    proof {
        lemma_tally_bounds(pods@, matched@, usage@);
    }
    if acc.total == 0 {
        let none: Vec<String> = Vec::new();
        assert(strings_view(none@) =~= Seq::<Seq<char>>::empty());
        let c = component(
            label,
            log_key,
            "system",
            "Not present",
            "gray",
            text("No matching runtime component was found."),
            none,
        );
        return with_pod_status_exec(c, 0, 0, 0, None, None);
    }
    let mut line1 = fmt_u64(acc.ready);
    append_str(&mut line1, "/");
    append(&mut line1, &fmt_u64(acc.total));
    append_str(&mut line1, " pods ready");
    let mut line2: Vec<char> = Vec::new();
    if acc.restarts > 0 {
        line2 = fmt_u64(acc.restarts);
        append_str(&mut line2, " container restarts");
    }
    let mut line3: Vec<char> = Vec::new();
    if acc.reasons.len() > 0 {
        line3 = chars_of("Reason: ");
        let sep = chars_of(", ");
        append(&mut line3, &join_chars(&acc.reasons, &sep));
    }
    let lines = vec![string_of(&line1), string_of(&line2), string_of(&line3)];
    assert(strings_view(lines@) =~= seq![line1@, line2@, line3@]);
    let details = compact_details(lines);
    assert(strings_view(details@) == pod_details(t));
    let base = if acc.ready == acc.total && acc.reasons.len() == 0 {
        component(label, log_key, "system", "Ready", "green", text("All pods are ready."), details)
    } else if any_bad_reason_exec(&acc.reasons) || any_failed_phase_exec(&acc.phases) {
        component(
            label,
            log_key,
            "system",
            "Problem",
            "red",
            text("One or more pods are failing."),
            details,
        )
    } else {
        component(
            label,
            log_key,
            "system",
            "Starting",
            "amber",
            text("Waiting for pods to become ready."),
            details,
        )
    };
    let memory = if acc.has_usage {
        Some(acc.memory)
    } else {
        None
    };
    let has_usage = acc.has_usage;
    let entries = if has_usage {
        Some(acc.entries)
    } else {
        None
    };
    with_pod_status_exec(base, acc.ready, acc.total, acc.restarts, memory, entries)
}

// ---------------------------------------------------------------------------
// Selectors
// ---------------------------------------------------------------------------

/// The pod groups the health view reports on.
#[derive(PartialEq, Eq, Structural, Clone, Copy, Debug)]
pub enum PodSelector {
    Database,
    DatabaseUtilities,
    MessageQueue,
    Director,
    Gateway,
    TextRouter,
    FileBrowser,
}

/// Whether a pod (by role label, name and phase) belongs to a group.
pub open spec fn selector_matches(
    sel: PodSelector,
    role: Seq<char>,
    name: Seq<char>,
    phase: Seq<char>,
) -> bool {
    match sel {
        PodSelector::Database => has_substring(role, "database"@) && !has_substring(name, "-util-"@),
        PodSelector::DatabaseUtilities => current_database_utility_pod(role, phase),
        PodSelector::MessageQueue => has_substring(role, "message-queue"@) || has_substring(
            name,
            "-mq-"@,
        ),
        PodSelector::Director => has_substring(role, "battlegroup-director"@) || has_substring(
            name,
            "-bgd-"@,
        ),
        PodSelector::Gateway => has_substring(role, "server-gateway"@) || has_substring(
            name,
            "-sgw-"@,
        ),
        PodSelector::TextRouter => has_substring(role, "text-router"@) || has_substring(
            name,
            "-tr-"@,
        ),
        PodSelector::FileBrowser => has_substring(role, "filebrowser"@) || has_substring(
            name,
            "-fb-"@,
        ),
    }
}

/// Which pods a group takes, pod by pod.
pub open spec fn selection(sel: PodSelector, pods: Seq<PodInfo>) -> Seq<bool> {
    Seq::new(
        pods.len(),
        |i: int| selector_matches(sel, pods[i].role@, pods[i].name@, pods[i].phase@),
    )
}

/// Whether a pod belongs to a group.
pub fn pod_matches(sel: PodSelector, role: &str, name: &str, phase: &str) -> (r: bool)
    ensures
        r == selector_matches(sel, role@, name@, phase@),
{
    let rv = chars_of(role);
    let nv = chars_of(name);
    match sel {
        PodSelector::Database => contains_str(&rv, "database") && !contains_str(&nv, "-util-"),
        PodSelector::DatabaseUtilities => is_current_database_utility_pod(role, phase),
        PodSelector::MessageQueue => contains_str(&rv, "message-queue") || contains_str(&nv, "-mq-"),
        PodSelector::Director => contains_str(&rv, "battlegroup-director") || contains_str(
            &nv,
            "-bgd-",
        ),
        PodSelector::Gateway => contains_str(&rv, "server-gateway") || contains_str(&nv, "-sgw-"),
        PodSelector::TextRouter => contains_str(&rv, "text-router") || contains_str(&nv, "-tr-"),
        PodSelector::FileBrowser => contains_str(&rv, "filebrowser") || contains_str(&nv, "-fb-"),
    }
}

/// The pods a group takes, pod by pod.
pub fn select_pods(sel: PodSelector, pods: &Vec<PodInfo>) -> (r: Vec<bool>)
    ensures
        r@ == selection(sel, pods@),
{
    let mut out: Vec<bool> = Vec::new();
    let mut i: usize = 0;
    while i < pods.len()
        invariant
            i <= pods.len(),
            out@.len() == i,
            forall|j: int|
                0 <= j < i ==> #[trigger] out@[j] == selector_matches(
                    sel,
                    pods@[j].role@,
                    pods@[j].name@,
                    pods@[j].phase@,
                ),
        decreases pods.len() - i,
    {
        let p = &pods[i];
        out.push(pod_matches(sel, p.role.as_str(), p.name.as_str(), p.phase.as_str()));
        i += 1;
    }
    assert(out@ =~= selection(sel, pods@));
    out
}

// ---------------------------------------------------------------------------
// Operator resources
// ---------------------------------------------------------------------------

/// An operator resource (server group, gateway or server set) as far as the
/// health view reads it; counts are 0 and text empty where absent.
pub struct ResourceItem {
    pub kind: String,
    pub name: String,
    pub phase: Option<String>,
    pub map: String,
    pub target_replicas: u64,
    pub ready_replicas: u64,
    pub completed_replicas: u64,
    /// The `ready` flag of each game-server pod the set reports.
    pub pods_ready: Vec<bool>,
}

pub open spec fn phase_or(it: ResourceItem, fallback: Seq<char>) -> Seq<char> {
    match it.phase {
        Some(p) => p@,
        None => fallback,
    }
}

pub open spec fn count_true(v: Seq<bool>) -> nat
    decreases v.len(),
{
    if v.len() == 0 {
        0
    } else {
        count_true(v.drop_last()) + if v.last() {
            1nat
        } else {
            0nat
        }
    }
}

pub open spec fn server_group_row(it: ResourceItem) -> ComponentView {
    let ph = phase_or(it, "Unknown"@);
    phase_component_of(
        "Server Group"@,
        "server-group"@,
        "system"@,
        ph,
        "Server Group"@ + " reports "@ + ph + "."@,
        seq![],
    )
}

pub open spec fn gateway_row(it: ResourceItem) -> ComponentView {
    let ph = phase_or(it, "Unknown"@);
    phase_component_of(
        "Gateway Resource"@,
        "gateway-resource"@,
        "system"@,
        ph,
        "Gateway Resource"@ + " reports "@ + ph + "."@,
        seq![],
    )
}

/// Stopped server sets stay hidden unless they have replicas or run one of
/// the main maps.
pub open spec fn show_serverset(it: ResourceItem) -> bool {
    ||| phase_or(it, seq![]) != "Stopped"@
    ||| it.target_replicas > 0
    ||| it.map@ == "Survival_1"@
    ||| it.map@ == "Overmap"@
    ||| it.map@ == "DeepDesert_1"@
}

pub open spec fn serverset_row(it: ResourceItem) -> ComponentView {
    let label = friendly_map(it.map@, it.name@);
    let ph = phase_or(it, "Unknown"@);
    let target = dec(it.target_replicas as nat);
    let game_ready = count_true(it.pods_ready@);
    let details = compact(
        seq![
            dec(it.ready_replicas as nat) + "/"@ + target + " Kubernetes-ready replicas"@,
            dec(it.completed_replicas as nat) + "/"@ + target + " completed game replicas"@,
            dec(game_ready) + "/"@ + target + " game-ready servers"@,
        ],
    );
    let summary = if ph == "Initializing"@ && it.ready_replicas >= it.target_replicas
        && it.target_replicas > 0 && game_ready < it.target_replicas {
        "Game process is running, but game readiness has not completed."@
    } else {
        label + " reports "@ + ph + "."@
    };
    phase_component_of(label, serverset_key(it.name@, it.map@), "map"@, ph, summary, details)
}

/// The rows one resource contributes (none for other kinds and hidden sets).
pub open spec fn resource_row(it: ResourceItem) -> Seq<ComponentView> {
    if it.kind@ == "ServerGroup"@ {
        seq![server_group_row(it)]
    } else if it.kind@ == "ServerGateway"@ {
        seq![gateway_row(it)]
    } else if it.kind@ == "ServerSet"@ && show_serverset(it) {
        seq![serverset_row(it)]
    } else {
        seq![]
    }
}

/// Inserts index `e` after every index whose key is not greater.
pub open spec fn insert_index(s: Seq<int>, e: int, keys: Seq<Seq<char>>) -> Seq<int>
    decreases s.len(),
{
    if s.len() == 0 {
        seq![e]
    } else if text_lt(keys[e], keys[s[0]]) {
        seq![e] + s
    } else {
        seq![s[0]] + insert_index(s.drop_first(), e, keys)
    }
}

/// The first `n` positions ordered by key, stably.
pub open spec fn stable_order(keys: Seq<Seq<char>>, n: nat) -> Seq<int>
    decreases n,
{
    if n == 0 {
        seq![]
    } else {
        insert_index(stable_order(keys, (n - 1) as nat), n - 1, keys)
    }
}

pub open spec fn resource_names(items: Seq<ResourceItem>) -> Seq<Seq<char>> {
    items.map_values(|it: ResourceItem| it.name@)
}

pub open spec fn rows_in_order(items: Seq<ResourceItem>, order: Seq<int>) -> Seq<ComponentView>
    decreases order.len(),
{
    if order.len() == 0 {
        seq![]
    } else {
        rows_in_order(items, order.drop_last()) + resource_row(items[order.last()])
    }
}

/// The resources' rows, in name order (equal names keep their order).
pub open spec fn resource_rows(items: Seq<ResourceItem>) -> Seq<ComponentView> {
    rows_in_order(items, stable_order(resource_names(items), items.len()))
}

proof fn lemma_insert_index_at(s: Seq<int>, e: int, keys: Seq<Seq<char>>, p: int)
    requires
        0 <= p <= s.len(),
        forall|j: int| 0 <= j < p ==> !text_lt(keys[e], #[trigger] keys[s[j]]),
        p < s.len() ==> text_lt(keys[e], keys[s[p]]),
    ensures
        insert_index(s, e, keys) == s.insert(p, e),
    decreases s.len(),
{
    if s.len() == 0 {
        assert(s.insert(p, e) =~= seq![e]);
    } else if p == 0 {
        assert(s.insert(0, e) =~= seq![e] + s);
    } else {
        assert(!text_lt(keys[e], keys[s[0]]));
        let t = s.drop_first();
        assert forall|j: int| 0 <= j < p - 1 implies !text_lt(keys[e], #[trigger] keys[t[j]]) by {
            assert(t[j] == s[j + 1]);
        }
        lemma_insert_index_at(t, e, keys, p - 1);
        assert(s.insert(p, e) =~= seq![s[0]] + t.insert(p - 1, e));
    }
}

pub open spec fn index_view(v: Seq<usize>) -> Seq<int> {
    v.map_values(|i: usize| i as int)
}

/// Positions of the resources in stable name order.
fn name_order(items: &Vec<ResourceItem>) -> (r: Vec<usize>)
    ensures
        index_view(r@) == stable_order(resource_names(items@), items@.len()),
        forall|k: int| 0 <= k < r@.len() ==> #[trigger] r@[k] < items@.len(),
{
    let ghost names = resource_names(items@);
    let mut keys: Vec<Vec<char>> = Vec::new();
    let mut i: usize = 0;
    while i < items.len()
        invariant
            i <= items.len(),
            names == resource_names(items@),
            keys@.len() == i,
            forall|j: int| 0 <= j < i ==> (#[trigger] keys@[j])@ == names[j],
        decreases items.len() - i,
    {
        keys.push(chars_of(items[i].name.as_str()));
        i += 1;
    }
    let mut out: Vec<usize> = Vec::new();
    i = 0;
    assert(index_view(out@) =~= Seq::<int>::empty());
    while i < items.len()
        invariant
            i <= items.len(),
            names == resource_names(items@),
            keys@.len() == items@.len(),
            forall|j: int| 0 <= j < keys@.len() ==> (#[trigger] keys@[j])@ == names[j],
            index_view(out@) == stable_order(names, i as nat),
            forall|k: int| 0 <= k < out@.len() ==> #[trigger] out@[k] < i,
        decreases items.len() - i,
    {
        let ghost cur = index_view(out@);
        let mut p: usize = 0;
        while p < out.len() && !lt_chars(&keys[i], &keys[out[p]])
            invariant
                i < items.len(),
                p <= out@.len(),
                keys@.len() == items@.len(),
                cur == index_view(out@),
                forall|j: int| 0 <= j < keys@.len() ==> (#[trigger] keys@[j])@ == names[j],
                forall|k: int| 0 <= k < out@.len() ==> #[trigger] out@[k] < i,
                forall|j: int| 0 <= j < p ==> !text_lt(names[i as int], #[trigger] names[cur[j]]),
            decreases out@.len() - p,
        {
            assert(cur[p as int] == out@[p as int] as int);
            p += 1;
        }
        proof {
            if p < out@.len() {
                assert(cur[p as int] == out@[p as int] as int);
            }
            lemma_insert_index_at(cur, i as int, names, p as int);
        }
        out.insert(p, i);
        assert(index_view(out@) =~= cur.insert(p as int, i as int));
        i += 1;
    }
    out
}

fn phase_text(it: &ResourceItem, fallback: &str) -> (r: String)
    ensures
        r@ == phase_or(*it, fallback@),
{
    match &it.phase {
        Some(p) => string_of(&chars_of(p.as_str())),
        None => text(fallback),
    }
}

fn reports(label: &str, phase: &str) -> (r: String)
    ensures
        r@ == label@ + " reports "@ + phase@ + "."@,
{
    let mut v = chars_of(label);
    append_str(&mut v, " reports ");
    append_str(&mut v, phase);
    append_str(&mut v, ".");
    string_of(&v)
}

fn count_ready(v: &Vec<bool>) -> (r: u64)
    ensures
        r == count_true(v@),
{
    let mut n: u64 = 0;
    let mut i: usize = 0;
    assert(v@.take(0) =~= Seq::<bool>::empty());
    while i < v.len()
        invariant
            i <= v.len(),
            n == count_true(v@.take(i as int)),
            n <= i,
        decreases v.len() - i,
    {
        assert(v@.take(i + 1).drop_last() =~= v@.take(i as int));
        if v[i] {
            n = n + 1;
        }
        i += 1;
    }
    assert(v@.take(v.len() as int) =~= v@);
    n
}

fn ratio_line(a: u64, b: u64, tail: &str) -> (r: String)
    ensures
        r@ == dec(a as nat) + "/"@ + dec(b as nat) + tail@,
{
    let mut v = fmt_u64(a);
    append_str(&mut v, "/");
    append(&mut v, &fmt_u64(b));
    append_str(&mut v, tail);
    string_of(&v)
}

fn server_group_component(it: &ResourceItem) -> (r: ServerComponent)
    ensures
        r@ == server_group_row(*it),
{
    let ph = phase_text(it, "Unknown");
    let summary = reports("Server Group", ph.as_str());
    let none: Vec<String> = Vec::new();
    assert(strings_view(none@) =~= Seq::<Seq<char>>::empty());
    phase_component("Server Group", "server-group", "system", ph.as_str(), summary, none)
}

fn gateway_component(it: &ResourceItem) -> (r: ServerComponent)
    ensures
        r@ == gateway_row(*it),
{
    let ph = phase_text(it, "Unknown");
    let summary = reports("Gateway Resource", ph.as_str());
    let none: Vec<String> = Vec::new();
    assert(strings_view(none@) =~= Seq::<Seq<char>>::empty());
    phase_component("Gateway Resource", "gateway-resource", "system", ph.as_str(), summary, none)
}

fn should_show_serverset(it: &ResourceItem) -> (r: bool)
    ensures
        r == show_serverset(*it),
{
    let stopped = match &it.phase {
        Some(p) => eq_str(&chars_of(p.as_str()), "Stopped"),
        None => {
            proof {
                reveal_strlit("Stopped");
                assert(phase_or(*it, seq![]).len() == 0);
            }
            false
        },
    };
    let m = chars_of(it.map.as_str());
    !stopped || it.target_replicas > 0 || eq_str(&m, "Survival_1")
        || eq_str(&m, "Overmap") || eq_str(&m, "DeepDesert_1")
}

fn serverset_component(it: &ResourceItem) -> (r: ServerComponent)
    ensures
        r@ == serverset_row(*it),
{
    let label = friendly_map_name(it.map.as_str(), it.name.as_str());
    let ph = phase_text(it, "Unknown");
    let game_ready = count_ready(&it.pods_ready);
    let lines = vec![
        ratio_line(it.ready_replicas, it.target_replicas, " Kubernetes-ready replicas"),
        ratio_line(it.completed_replicas, it.target_replicas, " completed game replicas"),
        ratio_line(game_ready, it.target_replicas, " game-ready servers"),
    ];
    assert(strings_view(lines@) =~= seq![lines@[0]@, lines@[1]@, lines@[2]@]);
    let details = compact_details(lines);
    let summary = if eq_str(&chars_of(ph.as_str()), "Initializing") && it.ready_replicas
        >= it.target_replicas && it.target_replicas > 0 && game_ready < it.target_replicas {
        text("Game process is running, but game readiness has not completed.")
    } else {
        reports(label.as_str(), ph.as_str())
    };
    let key = serverset_log_key(it.name.as_str(), it.map.as_str());
    phase_component(label.as_str(), key.as_str(), "map", ph.as_str(), summary, details)
}

/// The rows for the operator resources, in name order: server groups and
/// gateways always, server sets unless hidden, other kinds never.
pub fn server_resource_components(items: &Vec<ResourceItem>) -> (r: Vec<ServerComponent>)
    ensures
        components_view(r@) == resource_rows(items@),
{
    let order = name_order(items);
    let ghost ord = index_view(order@);
    let mut out: Vec<ServerComponent> = Vec::new();
    let mut k: usize = 0;
    assert(ord.take(0) =~= Seq::<int>::empty());
    assert(components_view(out@) =~= Seq::<ComponentView>::empty());
    while k < order.len()
        invariant
            k <= order@.len(),
            ord == index_view(order@),
            forall|m: int| 0 <= m < order@.len() ==> #[trigger] order@[m] < items@.len(),
            components_view(out@) == rows_in_order(items@, ord.take(k as int)),
        decreases order@.len() - k,
    {
        assert(ord.take(k + 1).drop_last() =~= ord.take(k as int));
        assert(ord.take(k + 1).last() == order@[k as int] as int);
        let it = &items[order[k]];
        let ghost before = components_view(out@);
        let kind = chars_of(it.kind.as_str());
        if eq_str(&kind, "ServerGroup") {
            out.push(server_group_component(it));
        } else if eq_str(&kind, "ServerGateway") {
            out.push(gateway_component(it));
        } else if eq_str(&kind, "ServerSet") && should_show_serverset(it) {
            out.push(serverset_component(it));
        }
        assert(components_view(out@) =~= before + resource_row(*it));
        k += 1;
    }
    assert(ord.take(order@.len() as int) =~= ord);
    out
}

// ---------------------------------------------------------------------------
// The whole component table
// ---------------------------------------------------------------------------

/// Rows other than those whose state is "Not present", in order.
pub open spec fn present_only(cs: Seq<ComponentView>) -> Seq<ComponentView>
    decreases cs.len(),
{
    if cs.len() == 0 {
        seq![]
    } else if cs.last().state == "Not present"@ {
        present_only(cs.drop_last())
    } else {
        present_only(cs.drop_last()).push(cs.last())
    }
}

pub open spec fn group_row(
    label: Seq<char>,
    log_key: Seq<char>,
    sel: PodSelector,
    pods: Seq<PodInfo>,
    usage: Seq<PodUsage>,
) -> ComponentView {
    pod_group_of(label, log_key, pods, selection(sel, pods), usage)
}

/// The seven pod groups, in their fixed order.
pub open spec fn pod_groups(pods: Seq<PodInfo>, usage: Seq<PodUsage>) -> Seq<ComponentView> {
    seq![
        group_row("Database"@, "database"@, PodSelector::Database, pods, usage),
        group_row(
            "Database utilities"@,
            "database-utilities"@,
            PodSelector::DatabaseUtilities,
            pods,
            usage,
        ),
        group_row("Message Queue"@, "message-queue"@, PodSelector::MessageQueue, pods, usage),
        group_row("Director"@, "director"@, PodSelector::Director, pods, usage),
        group_row("Gateway"@, "gateway"@, PodSelector::Gateway, pods, usage),
        group_row("Text Router"@, "text-router"@, PodSelector::TextRouter, pods, usage),
        group_row("File Browser"@, "file-browser"@, PodSelector::FileBrowser, pods, usage),
    ]
}

/// The component table: pod groups then operator resources, without the
/// groups that found no pods.
pub open spec fn remote_components(
    pods: Seq<PodInfo>,
    usage: Seq<PodUsage>,
    resources: Seq<ResourceItem>,
) -> Seq<ComponentView> {
    present_only(pod_groups(pods, usage) + resource_rows(resources))
}

/// A group's restarts fit in 64 bits.
pub open spec fn restarts_fit(pods: Seq<PodInfo>, usage: Seq<PodUsage>) -> bool {
    forall|sel: PodSelector|
        #[trigger] tally(pods, selection(sel, pods), usage).restarts <= u64::MAX
}

fn group_component(
    label: &str,
    log_key: &str,
    sel: PodSelector,
    pods: &Vec<PodInfo>,
    usage: &Vec<PodUsage>,
) -> (r: ServerComponent)
    requires
        restarts_fit(pods@, usage@),
    ensures
        r@ == group_row(label@, log_key@, sel, pods@, usage@),
{
    let matched = select_pods(sel, pods);
    assert(tally(pods@, selection(sel, pods@), usage@).restarts <= u64::MAX);
    pod_component(label, log_key, pods, &matched, usage)
}

/// The component health table for a server: the pod groups and the
/// operator resources, leaving out groups with no pods.
pub fn remote_server_components(
    pods: &Vec<PodInfo>,
    usage: &Vec<PodUsage>,
    resources: &Vec<ResourceItem>,
) -> (r: Vec<ServerComponent>)
    requires
        restarts_fit(pods@, usage@),
    ensures
        components_view(r@) == remote_components(pods@, usage@, resources@),
{
    let mut all: Vec<ServerComponent> = Vec::new();
    all.push(group_component("Database", "database", PodSelector::Database, pods, usage));
    all.push(
        group_component(
            "Database utilities",
            "database-utilities",
            PodSelector::DatabaseUtilities,
            pods,
            usage,
        ),
    );
    all.push(
        group_component("Message Queue", "message-queue", PodSelector::MessageQueue, pods, usage),
    );
    all.push(group_component("Director", "director", PodSelector::Director, pods, usage));
    all.push(group_component("Gateway", "gateway", PodSelector::Gateway, pods, usage));
    all.push(group_component("Text Router", "text-router", PodSelector::TextRouter, pods, usage));
    all.push(
        group_component("File Browser", "file-browser", PodSelector::FileBrowser, pods, usage),
    );
    assert(components_view(all@) =~= pod_groups(pods@, usage@));
    let mut rest = server_resource_components(resources);
    let ghost groups = components_view(all@);
    let ghost res = components_view(rest@);
    all.append(&mut rest);
    let ghost cat = components_view(all@);
    assert(cat =~= groups + res);
    let mut out: Vec<ServerComponent> = Vec::new();
    let mut i: usize = 0;
    assert(cat.take(0) =~= Seq::<ComponentView>::empty());
    assert(components_view(out@) =~= Seq::<ComponentView>::empty());
    while i < all.len()
        invariant
            i <= all@.len(),
            cat == components_view(all@),
            components_view(out@) == present_only(cat.take(i as int)),
        decreases all@.len() - i,
    {
        assert(cat.take(i + 1).drop_last() =~= cat.take(i as int));
        assert(cat.take(i + 1).last() == all@[i as int]@);
        let st = chars_of(all[i].state.as_str());
        if !eq_str(&st, "Not present") {
            let ghost before = components_view(out@);
            out.push(all[i].duplicate());
            assert(components_view(out@) =~= before.push(all@[i as int]@));
        }
        i += 1;
    }
    assert(cat.take(all@.len() as int) =~= cat);
    out
}

// ---------------------------------------------------------------------------
// Laws of the pod groups
// ---------------------------------------------------------------------------

proof fn lemma_tally_total(pods: Seq<PodInfo>, matched: Seq<bool>, usage: Seq<PodUsage>)
    requires
        matched.len() == pods.len(),
    ensures
        tally(pods, matched, usage).total == count_true(matched),
    decreases pods.len(),
{
    if pods.len() > 0 {
        lemma_tally_total(pods.drop_last(), matched.take(pods.len() - 1), usage);
        assert(matched.take(pods.len() - 1) =~= matched.drop_last());
    }
}

/// A pod group counts exactly the pods it matched, never more of them
/// ready than in total, and is "Not present" exactly when it matched none.
pub proof fn lemma_pod_group_counts(
    label: Seq<char>,
    log_key: Seq<char>,
    pods: Seq<PodInfo>,
    matched: Seq<bool>,
    usage: Seq<PodUsage>,
)
    requires
        matched.len() == pods.len(),
        pods.len() <= u64::MAX,
    ensures
        pod_group_of(label, log_key, pods, matched, usage).total_pods == Some(
            count_true(matched) as u64,
        ),
        pod_group_of(label, log_key, pods, matched, usage).ready_pods->0
            <= pod_group_of(label, log_key, pods, matched, usage).total_pods->0,
        pod_group_of(label, log_key, pods, matched, usage).component_kind == "pod-group"@,
        (pod_group_of(label, log_key, pods, matched, usage).state == "Not present"@) <==> (
        count_true(matched) == 0),
{
    lemma_tally_total(pods, matched, usage);
    lemma_tally_bounds(pods, matched, usage);
    reveal_strlit("Not present");
    reveal_strlit("Ready");
    reveal_strlit("Problem");
    reveal_strlit("Starting");
    assert("Not present"@.len() == 11);
    assert("Ready"@ != "Not present"@);
    assert("Problem"@ != "Not present"@);
    assert("Starting"@ != "Not present"@);
}


/// Every matched pod counts as ready.
pub open spec fn all_matched_ready(pods: Seq<PodInfo>, matched: Seq<bool>) -> bool {
    forall|i: int| 0 <= i < pods.len() && #[trigger] matched[i] ==> pod_counts_ready(pods[i])
}

/// Some matched pod has a container waiting, or terminated other than
/// `Completed`.
pub open spec fn some_matched_reason(pods: Seq<PodInfo>, matched: Seq<bool>) -> bool {
    exists|i: int|
        0 <= i < pods.len() && #[trigger] matched[i] && pod_reasons(pods[i].container_statuses@).len()
            > 0
}

/// Some matched pod has a container reason that marks a failure.
pub open spec fn some_matched_bad_reason(pods: Seq<PodInfo>, matched: Seq<bool>) -> bool {
    exists|i: int, j: int|
        0 <= i < pods.len() && #[trigger] matched[i] && 0 <= j < pod_reasons(
            pods[i].container_statuses@,
        ).len() && bad_reason(#[trigger] pod_reasons(pods[i].container_statuses@)[j])
}

/// Some matched pod is in phase `Failed`.
pub open spec fn some_matched_failed(pods: Seq<PodInfo>, matched: Seq<bool>) -> bool {
    exists|i: int| 0 <= i < pods.len() && #[trigger] matched[i] && pods[i].phase@ == "Failed"@
}

proof fn lemma_tally_state_facts(pods: Seq<PodInfo>, matched: Seq<bool>, usage: Seq<PodUsage>)
    requires
        matched.len() == pods.len(),
    ensures
        (tally(pods, matched, usage).ready == tally(pods, matched, usage).total)
            <==> all_matched_ready(pods, matched),
        (tally(pods, matched, usage).reasons.len() == 0) <==> !some_matched_reason(pods, matched),
        any_bad_reason(tally(pods, matched, usage).reasons) <==> some_matched_bad_reason(
            pods,
            matched,
        ),
        any_failed_phase(tally(pods, matched, usage).phases) <==> some_matched_failed(pods, matched),
    decreases pods.len(),
{
    reveal_strlit("Failed");
    if pods.len() > 0 {
        let n = pods.len() - 1;
        let pp = pods.drop_last();
        let mm = matched.take(n);
        lemma_tally_state_facts(pp, mm, usage);
        lemma_tally_bounds(pp, mm, usage);
        let t = tally(pp, mm, usage);
        let tt = tally(pods, matched, usage);
        let p = pods[n];
        let pr = pod_reasons(p.container_statuses@);
        assert forall|i: int| 0 <= i < n implies pp[i] == pods[i] && #[trigger] mm[i] == matched[i] by {}
        assert(pods.last() == p);
        // readiness
        if all_matched_ready(pods, matched) {
            assert forall|i: int| 0 <= i < pp.len() && #[trigger] mm[i] implies pod_counts_ready(pp[i]) by {
                assert(matched[i]);
            }
        }
        if matched[n] && all_matched_ready(pp, mm) && pod_counts_ready(p) {
            assert forall|i: int| 0 <= i < pods.len() && #[trigger] matched[i] implies pod_counts_ready(
                pods[i],
            ) by {
                if i < n {
                    assert(mm[i]);
                }
            }
        }
        if !matched[n] && all_matched_ready(pp, mm) {
            assert forall|i: int| 0 <= i < pods.len() && #[trigger] matched[i] implies pod_counts_ready(
                pods[i],
            ) by {
                if i < n {
                    assert(mm[i]);
                }
            }
        }
        // reasons
        if some_matched_reason(pp, mm) {
            let i = choose|i: int|
                0 <= i < pp.len() && #[trigger] mm[i] && pod_reasons(pp[i].container_statuses@).len() > 0;
            assert(matched[i] && pods[i] == pp[i]);
        }
        if some_matched_reason(pods, matched) {
            let i = choose|i: int|
                0 <= i < pods.len() && #[trigger] matched[i] && pod_reasons(
                    pods[i].container_statuses@,
                ).len() > 0;
            if i < n {
                assert(mm[i] && pp[i] == pods[i]);
            }
        }
        if matched[n] && pr.len() > 0 {
            assert(matched[n] && pod_reasons(pods[n].container_statuses@).len() > 0);
        }
        // failure reasons
        if some_matched_bad_reason(pp, mm) {
            let (i, j) = choose|i: int, j: int|
                0 <= i < pp.len() && #[trigger] mm[i] && 0 <= j < pod_reasons(
                    pp[i].container_statuses@,
                ).len() && bad_reason(#[trigger] pod_reasons(pp[i].container_statuses@)[j]);
            assert(matched[i] && pods[i] == pp[i]);
            assert(bad_reason(pod_reasons(pods[i].container_statuses@)[j]));
        }
        if some_matched_bad_reason(pods, matched) {
            let (i, j) = choose|i: int, j: int|
                0 <= i < pods.len() && #[trigger] matched[i] && 0 <= j < pod_reasons(
                    pods[i].container_statuses@,
                ).len() && bad_reason(#[trigger] pod_reasons(pods[i].container_statuses@)[j]);
            if i < n {
                assert(mm[i] && pp[i] == pods[i]);
                assert(bad_reason(pod_reasons(pp[i].container_statuses@)[j]));
                assert(some_matched_bad_reason(pp, mm));
            } else {
                assert(bad_reason(pr[j]));
            }
        }
        if matched[n] {
            assert(tt.reasons == t.reasons + pr);
            if any_bad_reason(t.reasons) {
                let k = choose|k: int| 0 <= k < t.reasons.len() && bad_reason(#[trigger] t.reasons[k]);
                assert(tt.reasons[k] == t.reasons[k]);
            }
            if exists|j: int| 0 <= j < pr.len() && bad_reason(#[trigger] pr[j]) {
                let j = choose|j: int| 0 <= j < pr.len() && bad_reason(#[trigger] pr[j]);
                assert(tt.reasons[t.reasons.len() + j] == pr[j]);
                assert(bad_reason(pod_reasons(pods[n].container_statuses@)[j]));
            }
            if any_bad_reason(tt.reasons) {
                let k = choose|k: int| 0 <= k < tt.reasons.len() && bad_reason(#[trigger] tt.reasons[k]);
                if k < t.reasons.len() {
                    assert(t.reasons[k] == tt.reasons[k]);
                } else {
                    assert(pr[k - t.reasons.len()] == tt.reasons[k]);
                    assert(bad_reason(pod_reasons(pods[n].container_statuses@)[k - t.reasons.len()]));
                }
            }
            // phases
            if any_failed_phase(t.phases) {
                let k = choose|k: int| 0 <= k < t.phases.len() && #[trigger] t.phases[k] == "Failed"@;
                assert(tt.phases[k] == t.phases[k]);
            }
            if p.phase@ == "Failed"@ {
                assert(p.phase@.len() > 0);
                assert(tt.phases[t.phases.len() as int] == p.phase@);
            }
            if any_failed_phase(tt.phases) {
                let k = choose|k: int| 0 <= k < tt.phases.len() && #[trigger] tt.phases[k] == "Failed"@;
                if k < t.phases.len() {
                    assert(t.phases[k] == tt.phases[k]);
                }
            }
        }
        if some_matched_failed(pp, mm) {
            let i = choose|i: int| 0 <= i < pp.len() && #[trigger] mm[i] && pp[i].phase@ == "Failed"@;
            assert(matched[i] && pods[i] == pp[i]);
        }
        if some_matched_failed(pods, matched) {
            let i = choose|i: int| 0 <= i < pods.len() && #[trigger] matched[i] && pods[i].phase@ == "Failed"@;
            if i < n {
                assert(mm[i] && pp[i] == pods[i]);
            }
        }
    }
}

proof fn lemma_dec_starts_with_digit(n: nat)
    ensures
        dec(n).len() > 0,
        '0' <= dec(n)[0] <= '9',
    decreases n,
{
    if n >= 10 {
        lemma_dec_starts_with_digit(n / 10);
    }
}

/// The state of a pod group that matched at least one pod: `Ready`/green
/// exactly when every matched pod counts as ready and none has a container
/// reason; otherwise `Problem`/red exactly when some matched pod has a
/// failing container reason or is in phase `Failed`; otherwise
/// `Starting`/amber. Its first detail line is `{ready}/{total} pods ready`.
pub proof fn lemma_pod_group_state(
    label: Seq<char>,
    log_key: Seq<char>,
    pods: Seq<PodInfo>,
    matched: Seq<bool>,
    usage: Seq<PodUsage>,
)
    requires
        matched.len() == pods.len(),
        count_true(matched) > 0,
    ensures
        ({
            let c = pod_group_of(label, log_key, pods, matched, usage);
            let all_ready = all_matched_ready(pods, matched) && !some_matched_reason(pods, matched);
            let failing = some_matched_bad_reason(pods, matched) || some_matched_failed(pods, matched);
            &&& (c.state == "Ready"@ && c.tone == "green"@) <==> all_ready
            &&& !all_ready ==> ((c.state == "Problem"@ && c.tone == "red"@) <==> failing)
            &&& (!all_ready && !failing) ==> (c.state == "Starting"@ && c.tone == "amber"@)
            &&& c.details.len() > 0
            &&& c.details[0] == dec(tally(pods, matched, usage).ready) + "/"@ + dec(count_true(matched))
                + " pods ready"@
        }),
{
    lemma_tally_state_facts(pods, matched, usage);
    lemma_tally_total(pods, matched, usage);
    let t = tally(pods, matched, usage);
    reveal_strlit("Ready");
    reveal_strlit("Problem");
    reveal_strlit("Starting");
    reveal_strlit("green");
    reveal_strlit("red");
    reveal_strlit("amber");
    reveal_strlit("/");
    reveal_strlit(" pods ready");
    let first = dec(t.ready) + "/"@ + dec(t.total) + " pods ready"@;
    lemma_dec_starts_with_digit(t.ready);
    assert(first[0] == dec(t.ready)[0]);
    assert(first[first.len() - 1] == 'y');
    lemma_trim_plain(first);
    let l0 = seq![
        first,
        if t.restarts > 0 { dec(t.restarts) + " container restarts"@ } else { seq![] },
        if t.reasons.len() == 0 { seq![] } else { "Reason: "@ + join(t.reasons, ", "@) },
    ];
    lemma_compact_keeps_first(l0);
    assert(pod_details(t) == compact(l0));
    let c = pod_group_of(label, log_key, pods, matched, usage);
    assert(t.total > 0);
    assert(c.details == pod_details(t));
    assert("Ready"@.len() == 5 && "Problem"@.len() == 7 && "Starting"@.len() == 8);
}

proof fn lemma_compact_keeps_first(v: Seq<Seq<char>>)
    requires
        v.len() > 0,
        trim(v[0]).len() > 0,
    ensures
        compact(v).len() > 0,
        compact(v)[0] == v[0],
    decreases v.len(),
{
    if v.len() > 1 {
        lemma_compact_keeps_first(v.drop_last());
        assert(v.drop_last()[0] == v[0]);
        let c = compact(v.drop_last());
        if trim(v.last()).len() > 0 {
            assert(compact(v) == c.push(v.last()));
            assert(compact(v)[0] == c[0]);
        }
    } else {
        assert(v.drop_last() =~= Seq::<Seq<char>>::empty());
        assert(v.last() == v[0]);
        assert(compact(v) == compact(v.drop_last()).push(v.last()));
    }
}


/// How an operator phase is reported, ASCII case ignored: `Healthy`,
/// `Running`, `Ready` and `Available` are Ready (green); `Stopped` and
/// `Suspended` Stopped (gray); `Initializing`, `Reconciling`, `Pending` and
/// `Starting` Starting (amber); `Failed`, `Error` and `Degraded` Problem
/// (red); any other phase is Unknown (amber).
pub proof fn lemma_phase_state_table(phase: Seq<char>)
    ensures
        ({
            let n = ascii_lower(phase);
            let c = phase_component_of("l"@, "k"@, "c"@, phase, seq![], seq![]);
            let ready = n == "healthy"@ || n == "running"@ || n == "ready"@ || n == "available"@;
            let stopped = n == "stopped"@ || n == "suspended"@;
            let starting = n == "initializing"@ || n == "reconciling"@ || n == "pending"@ || n
                == "starting"@;
            let problem = n == "failed"@ || n == "error"@ || n == "degraded"@;
            &&& ready ==> c.state == "Ready"@ && c.tone == "green"@
            &&& stopped ==> c.state == "Stopped"@ && c.tone == "gray"@
            &&& starting ==> c.state == "Starting"@ && c.tone == "amber"@
            &&& problem ==> c.state == "Problem"@ && c.tone == "red"@
            &&& (c.state == "Unknown"@) <==> !(ready || stopped || starting || problem)
            &&& c.state == "Unknown"@ ==> c.tone == "amber"@
        }),
{
    reveal_strlit("healthy");
    reveal_strlit("running");
    reveal_strlit("ready");
    reveal_strlit("available");
    reveal_strlit("stopped");
    reveal_strlit("suspended");
    reveal_strlit("initializing");
    reveal_strlit("reconciling");
    reveal_strlit("pending");
    reveal_strlit("starting");
    reveal_strlit("failed");
    reveal_strlit("error");
    reveal_strlit("degraded");
    reveal_strlit("Unknown");
    reveal_strlit("Ready");
    reveal_strlit("Stopped");
    reveal_strlit("Starting");
    reveal_strlit("Problem");
    assert("Unknown"@ != "Ready"@ && "Unknown"@ != "Stopped"@ && "Unknown"@ != "Starting"@
        && "Unknown"@ != "Problem"@) by {
        assert("Unknown"@[0] != "Ready"@[0]);
        assert("Unknown"@[0] != "Stopped"@[0]);
        assert("Unknown"@[0] != "Starting"@[0]);
        assert("Unknown"@[0] != "Problem"@[0]);
    }
    let n = ascii_lower(phase);
    if n == "healthy"@ {
        assert(n[0] == 'h' && n[1] == 'e' && n[2] == 'a');
    }
    if n == "running"@ {
        assert(n[0] == 'r' && n[1] == 'u' && n[2] == 'n');
    }
    if n == "ready"@ {
        assert(n[0] == 'r' && n[1] == 'e' && n[2] == 'a');
    }
    if n == "available"@ {
        assert(n[0] == 'a' && n[1] == 'v' && n[2] == 'a');
    }
    if n == "stopped"@ {
        assert(n[0] == 's' && n[1] == 't' && n[2] == 'o');
    }
    if n == "suspended"@ {
        assert(n[0] == 's' && n[1] == 'u' && n[2] == 's');
    }
    if n == "initializing"@ {
        assert(n[0] == 'i' && n[1] == 'n' && n[2] == 'i');
    }
    if n == "reconciling"@ {
        assert(n[0] == 'r' && n[1] == 'e' && n[2] == 'c');
    }
    if n == "pending"@ {
        assert(n[0] == 'p' && n[1] == 'e' && n[2] == 'n');
    }
    if n == "starting"@ {
        assert(n[0] == 's' && n[1] == 't' && n[2] == 'a');
    }
    if n == "failed"@ {
        assert(n[0] == 'f' && n[1] == 'a' && n[2] == 'i');
    }
    if n == "error"@ {
        assert(n[0] == 'e' && n[1] == 'r' && n[2] == 'r');
    }
    if n == "degraded"@ {
        assert(n[0] == 'd' && n[1] == 'e' && n[2] == 'g');
    }
}

/// A matched pod counts as ready when its phase is `Succeeded`, whatever
/// its containers say, or when it has containers and all are ready. The
/// group's ready count is the number of matched pods that count as ready,
/// and a group whose matched pods all succeeded, with no container reason,
/// is Ready (green) with every pod ready.
pub proof fn lemma_pod_group_ready_count(
    label: Seq<char>,
    log_key: Seq<char>,
    pods: Seq<PodInfo>,
    matched: Seq<bool>,
    usage: Seq<PodUsage>,
)
    requires
        matched.len() == pods.len(),
        pods.len() <= u64::MAX,
        count_true(matched) > 0,
    ensures
        pod_group_of(label, log_key, pods, matched, usage).ready_pods == Some(
            count_matched_where(
                pods,
                matched,
                |p: PodInfo|
                    p.phase@ == "Succeeded"@ || (p.container_statuses@.len() > 0 && forall|k: int|
                        0 <= k < p.container_statuses@.len() ==> (
                        #[trigger] p.container_statuses@[k]).ready),
            ) as u64,
        ),
        (forall|i: int| 0 <= i < pods.len() && #[trigger] matched[i] ==> pods[i].phase@ == "Succeeded"@)
            && !some_matched_reason(pods, matched) ==> pod_group_of(
            label,
            log_key,
            pods,
            matched,
            usage,
        ).state == "Ready"@ && pod_group_of(label, log_key, pods, matched, usage).tone == "green"@
            && pod_group_of(label, log_key, pods, matched, usage).ready_pods == pod_group_of(
            label,
            log_key,
            pods,
            matched,
            usage,
        ).total_pods,
{
    let f = |p: PodInfo|
        p.phase@ == "Succeeded"@ || (p.container_statuses@.len() > 0 && forall|k: int|
            0 <= k < p.container_statuses@.len() ==> (#[trigger] p.container_statuses@[k]).ready);
    lemma_tally_ready_count(pods, matched, usage, f);
    lemma_tally_bounds(pods, matched, usage);
    lemma_tally_total(pods, matched, usage);
    lemma_pod_group_state(label, log_key, pods, matched, usage);
    lemma_tally_state_facts(pods, matched, usage);
    if (forall|i: int| 0 <= i < pods.len() && #[trigger] matched[i] ==> pods[i].phase@ == "Succeeded"@) {
        assert forall|i: int| 0 <= i < pods.len() && #[trigger] matched[i] implies pod_counts_ready(
            pods[i],
        ) by {
            assert(f(pods[i]));
        }
        assert(all_matched_ready(pods, matched));
    }
}

/// How many matched pods satisfy a predicate.
pub open spec fn count_matched_where(
    pods: Seq<PodInfo>,
    matched: Seq<bool>,
    f: spec_fn(PodInfo) -> bool,
) -> nat
    decreases pods.len(),
{
    if pods.len() == 0 {
        0
    } else {
        count_matched_where(pods.drop_last(), matched.take(pods.len() - 1), f) + if matched[pods.len()
            - 1] && f(pods.last()) {
            1nat
        } else {
            0nat
        }
    }
}

proof fn lemma_tally_ready_count(
    pods: Seq<PodInfo>,
    matched: Seq<bool>,
    usage: Seq<PodUsage>,
    f: spec_fn(PodInfo) -> bool,
)
    requires
        matched.len() == pods.len(),
        forall|p: PodInfo| #[trigger] f(p) == pod_counts_ready(p),
    ensures
        tally(pods, matched, usage).ready == count_matched_where(pods, matched, f),
    decreases pods.len(),
{
    if pods.len() > 0 {
        lemma_tally_ready_count(pods.drop_last(), matched.take(pods.len() - 1), usage, f);
        assert(f(pods.last()) == pod_counts_ready(pods.last()));
    }
}

} // verus!
