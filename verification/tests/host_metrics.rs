use dune_admin::status::{package_status_from_output, parse_host_metrics};

fn decimal(text: &Option<String>) -> Option<f64> {
    text.as_deref().and_then(|t| t.trim().parse::<f64>().ok())
}

#[test]
fn parses_complete_linux_host_metrics() {
    let metrics = parse_host_metrics(
        "memTotalKb=16777216\n\
         memAvailableKb=6291456\n\
         swapTotalKb=2097152\n\
         swapFreeKb=1572864\n\
         cpuUsagePercent=87.5\n\
         loadAverageOne=2.75\n\
         diskTotalKb=524288000\n\
         diskUsedKb=314572800\n\
         uptimeSeconds=86461\n",
    )
    .expect("metrics parse");
    assert_eq!(metrics.memory_total_bytes, 16 * 1024 * 1024 * 1024);
    assert_eq!(metrics.memory_used_bytes, 10 * 1024 * 1024 * 1024);
    assert_eq!(metrics.swap_used_bytes, 512 * 1024 * 1024);
    assert_eq!(
        decimal(&metrics.cpu_usage_percent_text).map(|v| v.clamp(0.0, 100.0)),
        Some(87.5)
    );
    assert_eq!(decimal(&metrics.load_average_one_text), Some(2.75));
    assert_eq!(metrics.disk_total_bytes, 500 * 1024 * 1024 * 1024);
    assert_eq!(metrics.disk_used_bytes, 300 * 1024 * 1024 * 1024);
    assert_eq!(metrics.uptime_seconds, 86461);
}

#[test]
fn host_metrics_allow_missing_optional_values() {
    let metrics = parse_host_metrics(
        "memTotalKb=1024\n\
         memAvailableKb=256\n\
         diskTotalKb=4096\n\
         diskUsedKb=1024\n",
    )
    .expect("partial metrics parse");
    assert_eq!(metrics.memory_used_bytes, 768 * 1024);
    assert_eq!(metrics.swap_total_bytes, 0);
    assert_eq!(decimal(&metrics.cpu_usage_percent_text), None);
    assert_eq!(decimal(&metrics.load_average_one_text), None);
    assert_eq!(metrics.uptime_seconds, 0);
}

#[test]
fn host_metrics_reject_missing_or_malformed_required_values() {
    assert!(parse_host_metrics("memTotalKb=bad\ndiskTotalKb=10\n").is_none());
    assert!(parse_host_metrics(
        "memTotalKb=1024\nmemAvailableKb=512\ndiskTotalKb=0\ndiskUsedKb=0\n"
    )
    .is_none());
}

#[test]
fn host_metrics_trim_lines_and_saturate_used_values() {
    let metrics = parse_host_metrics(
        "  memTotalKb=100 \r\nmemAvailableKb=400\nswapTotalKb=10\nswapFreeKb=20\ndiskTotalKb=8\ndiskUsedKb=2\n",
    )
    .expect("metrics parse");
    assert_eq!(metrics.memory_total_bytes, 100 * 1024);
    assert_eq!(metrics.memory_used_bytes, 0);
    assert_eq!(metrics.swap_used_bytes, 0);
    assert_eq!(metrics.swap_total_bytes, 10 * 1024);
    assert_eq!(metrics.disk_used_bytes, 2 * 1024);
}

#[test]
fn host_metrics_take_the_last_value_of_a_key() {
    let metrics = parse_host_metrics(
        "memTotalKb=2048\nmemTotalKb=1\nmemAvailableKb=0\ndiskTotalKb=1\ndiskUsedKb=1\n",
    )
    .expect("metrics parse");
    assert_eq!(metrics.memory_total_bytes, 1024);
}

#[test]
fn host_metrics_ignore_keys_with_spaces_before_the_sign() {
    assert!(parse_host_metrics("memTotalKb =1\nmemAvailableKb=0\ndiskTotalKb=1\ndiskUsedKb=1\n").is_none());
}

#[test]
fn package_status_reads_non_blank_values() {
    let status = package_status_from_output(
        "installedBuildId= 123 \nbattlegroupVersion=\nbattlegroupVersion=v2\noperatorVersion=op\n",
    );
    assert_eq!(status.installed_build_id.as_deref(), Some("123"));
    assert_eq!(status.battlegroup_version.as_deref(), Some("v2"));
    assert_eq!(status.live_battlegroup_version, None);
    assert_eq!(status.operator_version.as_deref(), Some("op"));
}
