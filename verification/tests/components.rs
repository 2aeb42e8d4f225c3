use dune_admin::components::{
    compact_details, is_bad_reason, is_current_database_utility_pod, pod_component, pod_matches,
    remote_server_components, select_pods, server_resource_components, ContainerStatus, PodInfo,
    PodSelector, PodUsage, ResourceItem,
};

fn s(t: &str) -> String {
    t.to_string()
}

fn container(ready: bool, restarts: u64, waiting: Option<&str>, terminated: Option<&str>) -> ContainerStatus {
    ContainerStatus {
        ready,
        restart_count: restarts,
        waiting_reason: waiting.map(s),
        terminated_reason: terminated.map(s),
    }
}

fn pod(name: &str, role: &str, phase: &str, statuses: Vec<ContainerStatus>) -> PodInfo {
    PodInfo { name: s(name), role: s(role), phase: s(phase), container_statuses: statuses }
}

fn matching(pods: &[PodInfo], f: impl Fn(&PodInfo) -> bool) -> Vec<bool> {
    pods.iter().map(f).collect()
}

fn resource(kind: &str, name: &str, phase: Option<&str>, map: &str, target: u64, ready: u64, completed: u64, pods_ready: Vec<bool>) -> ResourceItem {
    ResourceItem {
        kind: s(kind),
        name: s(name),
        phase: phase.map(s),
        map: s(map),
        target_replicas: target,
        ready_replicas: ready,
        completed_replicas: completed,
        pods_ready,
    }
}

#[test]
fn pod_component_aggregates_readiness_restarts_and_usage() {
    let pods = vec![
        pod("bg-db-0", "database", "Running", vec![container(true, 1, None, None)]),
        pod("bg-db-1", "database", "Pending", vec![container(false, 2, Some("ContainerCreating"), None)]),
    ];
    // cpu 250m and 100m; memory 512Mi and 256Mi
    let cpu_millicores = [250.0, 100.0];
    let usage = vec![
        PodUsage { name: s("bg-db-0"), memory_bytes: 512 * 1024 * 1024 },
        PodUsage { name: s("bg-db-1"), memory_bytes: 256 * 1024 * 1024 },
    ];
    let matched = matching(&pods, |p| p.role == "database");
    let component = pod_component("Database", "database", &pods, &matched, &usage);
    assert_eq!(component.component_kind, "pod-group");
    assert_eq!(component.ready_pods, Some(1));
    assert_eq!(component.total_pods, Some(2));
    assert_eq!(component.restart_count, 3);
    let cpu: Option<f64> = component
        .cpu_usage_entries
        .as_ref()
        .map(|entries| entries.iter().map(|k| cpu_millicores[*k]).sum());
    assert_eq!(cpu, Some(350.0));
    assert_eq!(component.memory_bytes, Some(768 * 1024 * 1024));
    assert_eq!(component.state, "Starting");
}

#[test]
fn unavailable_metrics_do_not_hide_pod_health() {
    let pods = vec![pod(
        "bg-director-0",
        "battlegroup-director",
        "Running",
        vec![container(true, 0, None, None)],
    )];
    let matched = matching(&pods, |p| p.role == "battlegroup-director");
    let component = pod_component("Director", "director", &pods, &matched, &Vec::new());
    assert_eq!(component.state, "Ready");
    assert_eq!(component.ready_pods, Some(1));
    assert_eq!(component.total_pods, Some(1));
    assert_eq!(component.cpu_usage_entries, None);
    assert_eq!(component.memory_bytes, None);
}

#[test]
fn terminal_database_setup_pods_do_not_degrade_utility_health() {
    let pods = vec![
        pod("db-util-completed", "igw-database-utility", "Succeeded", vec![container(false, 0, None, Some("Completed"))]),
        pod("db-util-failed", "igw-database-utility", "Failed", vec![container(false, 0, None, Some("Error"))]),
        pod("db-monitor", "igw-database-monitor", "Running", vec![container(true, 0, None, None)]),
        pod("db-pghero", "igw-database-pghero", "Running", vec![container(true, 0, None, None)]),
    ];
    let matched = select_pods(PodSelector::DatabaseUtilities, &pods);
    let component = pod_component("Database utilities", "database-utilities", &pods, &matched, &Vec::new());
    assert_eq!(component.state, "Ready");
    assert_eq!(component.ready_pods, Some(2));
    assert_eq!(component.total_pods, Some(2));
    assert_eq!(component.details, vec!["2/2 pods ready"]);
    assert!(is_current_database_utility_pod("igw-database-utility", "Pending"));
}

#[test]
fn failing_reasons_and_phases_mark_a_problem() {
    let pods = vec![
        pod("mq-0", "message-queue", "Running", vec![container(false, 4, Some("CrashLoopBackOff"), None)]),
        pod("mq-1", "message-queue", "Running", vec![container(true, 0, None, Some("OOMKilled"))]),
    ];
    let matched = select_pods(PodSelector::MessageQueue, &pods);
    let c = pod_component("Message Queue", "message-queue", &pods, &matched, &Vec::new());
    assert_eq!(c.state, "Problem");
    assert_eq!(c.tone, "red");
    assert_eq!(c.summary, "One or more pods are failing.");
    assert_eq!(
        c.details,
        vec!["1/2 pods ready", "4 container restarts", "Reason: CrashLoopBackOff, OOMKilled"]
    );
    let failed = vec![pod("x-tr-0", "", "Failed", vec![])];
    let matched = select_pods(PodSelector::TextRouter, &failed);
    let c = pod_component("Text Router", "text-router", &failed, &matched, &Vec::new());
    assert_eq!(c.state, "Problem");
}

#[test]
fn groups_without_pods_are_not_present() {
    let pods: Vec<PodInfo> = vec![];
    let c = pod_component("Gateway", "gateway", &pods, &vec![], &Vec::new());
    assert_eq!(c.state, "Not present");
    assert_eq!(c.tone, "gray");
    assert_eq!(c.ready_pods, Some(0));
    assert_eq!(c.total_pods, Some(0));
    assert!(c.details.is_empty());
}

#[test]
fn memory_adds_up_saturating_and_last_usage_entry_wins() {
    let pods = vec![
        pod("a-fb-0", "", "Running", vec![container(true, 0, None, None)]),
        pod("a-fb-1", "", "Running", vec![container(true, 0, None, None)]),
    ];
    let usage = vec![
        PodUsage { name: s("a-fb-0"), memory_bytes: 1 },
        PodUsage { name: s("a-fb-0"), memory_bytes: u64::MAX - 5 },
        PodUsage { name: s("a-fb-1"), memory_bytes: 100 },
    ];
    let matched = select_pods(PodSelector::FileBrowser, &pods);
    let c = pod_component("File Browser", "file-browser", &pods, &matched, &usage);
    assert_eq!(c.memory_bytes, Some(u64::MAX));
    assert_eq!(c.cpu_usage_entries, Some(vec![1, 2]));
}

#[test]
fn selectors_follow_roles_and_names() {
    assert!(pod_matches(PodSelector::Database, "igw-database", "sh-db-0", "Running"));
    assert!(!pod_matches(PodSelector::Database, "igw-database", "sh-db-util-0", "Running"));
    assert!(pod_matches(PodSelector::Director, "", "sh-bgd-0", ""));
    assert!(pod_matches(PodSelector::Gateway, "server-gateway", "x", ""));
    assert!(pod_matches(PodSelector::Gateway, "", "a-sgw-1", ""));
    assert!(!pod_matches(PodSelector::DatabaseUtilities, "igw-database-utility", "x", "Succeeded"));
    assert!(pod_matches(PodSelector::DatabaseUtilities, "igw-database-pghero", "x", "Failed"));
}

#[test]
fn reasons_that_mean_failure() {
    for r in ["CrashLoopBackOff", "ImagePullBackOff", "ErrImagePull", "CreateContainerConfigError", "CreateContainerError", "RunContainerError", "OOMKilled", "Error"] {
        assert!(is_bad_reason(r), "{r}");
    }
    assert!(!is_bad_reason("ContainerCreating"));
    assert!(!is_bad_reason("Completed"));
}

#[test]
fn blank_details_are_dropped() {
    let out = compact_details(vec![s("a"), s("  "), s(""), s("b ")]);
    assert_eq!(out, vec!["a", "b "]);
}

#[test]
fn resources_sorted_by_name_and_filtered() {
    let items = vec![
        resource("ServerSet", "z-set", Some("Stopped"), "Custom", 0, 0, 0, vec![]),
        resource("ServerGateway", "m-gw", Some("Available"), "", 0, 0, 0, vec![]),
        resource("ServerSet", "b-set", Some("Initializing"), "Survival_1", 2, 2, 1, vec![true, false]),
        resource("ServerGroup", "a-group", None, "", 0, 0, 0, vec![]),
        resource("Other", "0-other", Some("Running"), "", 0, 0, 0, vec![]),
    ];
    let rows = server_resource_components(&items);
    let names: Vec<&str> = rows.iter().map(|r| r.name.as_str()).collect();
    assert_eq!(names, vec!["Server Group", "Hagga Basin", "Gateway Resource"]);
    assert_eq!(rows[0].state, "Unknown");
    assert_eq!(rows[0].summary, "Server Group reports Unknown.");
    assert_eq!(rows[1].summary, "Game process is running, but game readiness has not completed.");
    assert_eq!(rows[1].log_key, "b-set");
    assert_eq!(rows[1].category, "map");
    assert_eq!(rows[1].state, "Starting");
    assert_eq!(
        rows[1].details,
        vec!["2/2 Kubernetes-ready replicas", "1/2 completed game replicas", "1/2 game-ready servers"]
    );
    assert_eq!(rows[2].state, "Ready");
    assert_eq!(rows[2].log_key, "gateway-resource");
}

#[test]
fn stopped_main_map_sets_stay_visible() {
    let items = vec![resource("ServerSet", "dd", Some("Stopped"), "DeepDesert_1", 0, 0, 0, vec![])];
    let rows = server_resource_components(&items);
    assert_eq!(rows.len(), 1);
    assert_eq!(rows[0].state, "Stopped");
    assert_eq!(rows[0].tone, "gray");
}

#[test]
fn component_table_drops_absent_groups() {
    let pods = vec![
        pod("sh-db-0", "igw-database", "Running", vec![container(true, 0, None, None)]),
        pod("sh-mq-0", "x", "Pending", vec![]),
    ];
    let resources = vec![resource("ServerGroup", "g", Some("Healthy"), "", 0, 0, 0, vec![])];
    let rows = remote_server_components(&pods, &Vec::new(), &resources);
    let names: Vec<&str> = rows.iter().map(|r| r.name.as_str()).collect();
    assert_eq!(names, vec!["Database", "Message Queue", "Server Group"]);
    assert_eq!(rows[1].state, "Starting");
    assert_eq!(rows[2].state, "Ready");
}
