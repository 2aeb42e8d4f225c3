use dune_admin::paths::{
    catalog_source_url, decode_failure, export_path, history_path, local_url, logs_path,
    player_path, request_failure, runs_path, search_path, status_failure, tunnel_local_port,
    urlencoding, welcome_grants_path, TunnelEntry, DEFAULT_ITEM_CATALOG_URL,
};
use dune_admin::remote::{
    command_error_message, command_timeout_failure, command_timeout_seconds, is_command_timeout,
    is_remote_command_error, remote_key_path, remote_record_id, sh_single_quoted, CommandFailure,
    DEFAULT_COMMAND_TIMEOUT_SECONDS,
};

fn failure(message: &str, stdout: &str, stderr: &str, code: Option<i32>) -> CommandFailure {
    CommandFailure {
        message: message.to_string(),
        stdout: stdout.to_string(),
        stderr: stderr.to_string(),
        code,
    }
}

#[test]
fn url_encoding_keeps_unreserved_and_escapes_utf8_bytes() {
    assert_eq!(urlencoding("Az09-_.~"), "Az09-_.~");
    assert_eq!(urlencoding("a b&c"), "a%20b%26c");
    assert_eq!(urlencoding("é"), "%C3%A9");
    assert_eq!(urlencoding("💧"), "%F0%9F%92%A7");
    for text in ["x y", "ä/?#", "plain"] {
        assert!(urlencoding(text).chars().all(|c| c.is_ascii_alphanumeric() || "-_.~%".contains(c)));
    }
}

#[test]
fn request_paths() {
    assert_eq!(search_path("/api/admin/items", Some("a b"), Some(5)), "/api/admin/items?q=a%20b&limit=5");
    assert_eq!(search_path("/api/admin/items", None, Some(5)), "/api/admin/items?limit=5");
    assert_eq!(search_path("/api/admin/items", None, None), "/api/admin/items");
    assert_eq!(runs_path(Some(3), Some("restart".to_string())), "/api/runs?limit=3&task=restart");
    assert_eq!(runs_path(None, Some("x y".to_string())), "/api/runs?task=x y");
    assert_eq!(logs_path(None, Some(-4)), "/api/logs?runId=-4");
    assert_eq!(logs_path(Some(1), Some(2)), "/api/logs?limit=1&runId=2");
    assert_eq!(history_path(Some(10)), "/api/admin/history?limit=10");
    assert_eq!(history_path(None), "/api/admin/history");
    assert_eq!(welcome_grants_path(Some(7)), "/api/admin/welcome-grants?limit=7");
    assert_eq!(player_path("/api/admin/specialization", "a+b"), "/api/admin/specialization?flsId=a%2Bb");
}

#[test]
fn catalog_source_and_export_path() {
    assert_eq!(catalog_source_url(Some("  https://x/y  ")), "https://x/y");
    assert_eq!(catalog_source_url(Some("   ")), DEFAULT_ITEM_CATALOG_URL);
    assert_eq!(catalog_source_url(None), DEFAULT_ITEM_CATALOG_URL);
    assert_eq!(export_path(" /tmp/out.json ").unwrap(), "/tmp/out.json");
    assert_eq!(export_path("  ").unwrap_err(), "export path must not be empty");
}

#[test]
fn tunnels_are_found_by_trimmed_id() {
    let tunnels = vec![
        TunnelEntry { id: "a".to_string(), local_port: 1000 },
        TunnelEntry { id: "b".to_string(), local_port: 2000 },
    ];
    assert_eq!(tunnel_local_port(&tunnels, " b "), Ok(2000));
    assert_eq!(tunnel_local_port(&tunnels, "c").unwrap_err(), "no active tunnel id=c");
}

#[test]
fn single_quoting_survives_embedded_quotes() {
    assert_eq!(sh_single_quoted("abc"), "'abc'");
    assert_eq!(sh_single_quoted("it's"), "'it'\"'\"'s'");
    assert_eq!(sh_single_quoted(""), "''");
}

#[test]
fn failure_messages_list_output_streams() {
    assert_eq!(command_error_message(failure("failed", "out", "err", Some(1))), "failed\nerr\nout");
    assert_eq!(command_error_message(failure("failed", "  ", "\n", None)), "failed");
}

#[test]
fn key_path_is_required_and_trimmed() {
    assert_eq!(remote_key_path(Some(" /k ".to_string())).unwrap(), "/k");
    assert_eq!(
        remote_key_path(Some("  ".to_string())).unwrap_err(),
        "SSH private key is required for remote Ubuntu servers."
    );
    assert!(remote_key_path(None).is_err());
    assert_eq!(command_timeout_seconds(0), 1);
    assert_eq!(command_timeout_seconds(15), 15);
    assert_eq!(remote_record_id("ubuntu", " HOST ", None), "ubuntu:host:");
}

#[test]
fn runner_retry_and_deadline_decisions() {
    assert!(is_remote_command_error(&failure("x", "", "", Some(2))));
    assert!(is_remote_command_error(&failure("x", "o", "", None)));
    assert!(!is_remote_command_error(&failure("connection reset", "", "", None)));
    let t = command_timeout_failure("dune@host", 15);
    assert_eq!(t.message, "ssh command timed out on dune@host after 15s");
    assert!(is_command_timeout(&t));
    assert!(!is_remote_command_error(&t));
    assert!(!is_command_timeout(&failure("other", "", "", None)));
    assert_eq!(DEFAULT_COMMAND_TIMEOUT_SECONDS, 15 * 60);
}

#[test]
fn tunnel_request_urls_and_failures() {
    assert_eq!(local_url(8123, "/api/health"), "http://127.0.0.1:8123/api/health");
    assert_eq!(request_failure("GET", "/api/health", "refused"), "GET /api/health: refused");
    assert_eq!(
        status_failure("POST", "/api/config", "500 Internal Server Error", "boom"),
        "POST /api/config -> 500 Internal Server Error: boom"
    );
    assert_eq!(decode_failure("/api/runs", "eof"), "decoding /api/runs: eof");
}
