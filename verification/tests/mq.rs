use base64::Engine;
use dune_admin::mq::{
    build_erlang_publish, build_erlang_whisper_publish, combine_output, command_publish_expression,
    envelope_for_command, erlang_publish_for_label, publish_outcome,
    server_shutdown_command, server_shutdown_command_at, service_broadcast_command,
    whisper_publish_expression, ShutdownType, RABBITMQ_EVAL_SHELL, SHUTDOWN_CANCEL_COMMAND,
};
use serde_json::Value;

#[test]
fn envelope_round_trips() {
    let mut map = serde_json::Map::new();
    map.insert("ServerCommand".to_string(), Value::String("Foo".to_string()));
    map.insert("X".to_string(), Value::from(1));
    let inner = Value::Object(map);
    let inner_json = serde_json::to_string(&inner).unwrap();
    let b64 = envelope_for_command(&inner_json, "TOKEN123");
    let bytes = base64::engine::general_purpose::STANDARD.decode(b64).unwrap();
    let outer: Value = serde_json::from_slice(&bytes).unwrap();
    assert_eq!(outer["Version"], 2);
    assert_eq!(outer["AuthToken"], "TOKEN123");
    let inner_str = outer["MessageContent"].as_str().unwrap();
    let recovered: Value = serde_json::from_str(inner_str).unwrap();
    assert_eq!(recovered, inner);
}

#[test]
fn erlang_uses_safe_label() {
    let snippet = build_erlang_publish("PAYLOAD", "test-label");
    assert!(snippet.contains("smgmt-test-label-"));
    let snippet = build_erlang_publish("PAYLOAD", "weird; rm -rf /");
    assert!(snippet.contains("smgmt-smgmt-"));
}

#[test]
fn erlang_contains_envelope_constants() {
    let s = build_erlang_publish("PAYLOAD", "x");
    assert!(s.contains("<<\"heartbeats\">>"));
    assert!(s.contains("<<\"notifications\">>"));
    assert!(s.contains("<<\"fls\">>"));
    assert!(s.contains("<<\"fls_backend\">>"));
    assert!(s.contains("<<\"Content\">>"));
}

#[test]
fn whisper_erlang_uses_chat_whispers_and_sender() {
    let routing = base64::engine::general_purpose::STANDARD.encode("recipient-chat-id");
    let sender = base64::engine::general_purpose::STANDARD.encode("sender-fls-id");
    let s = build_erlang_whisper_publish("PAYLOAD", &routing, &sender, "whisper");
    assert!(s.contains("chat.whispers"));
    assert!(s.contains("<<\"text_chat\">>"));
    assert!(s.contains("Sender"));
    assert!(s.contains("RoutingKey"));
}

#[test]
fn rabbitmq_eval_reads_stdin_without_shared_temp_files() {
    assert!(RABBITMQ_EVAL_SHELL.contains("expr=$(cat)"));
    assert!(!RABBITMQ_EVAL_SHELL.contains("/tmp/"));
}

#[test]
fn whisper_exchange_is_base64_of_chat_whispers() {
    let s = build_erlang_whisper_publish("P", "R", "S", "lbl");
    let exchange = base64::engine::general_purpose::STANDARD.encode("chat.whispers");
    assert!(s.contains(&format!("Exchange = base64:decode(<<\"{exchange}\">>)")));
    assert!(s.contains("RoutingKey = base64:decode(<<\"R\">>)"));
    assert!(s.contains("Sender = base64:decode(<<\"S\">>)"));
    assert!(s.contains("smgmt-lbl-"));
}

#[test]
fn labels_over_sixty_four_characters_are_replaced() {
    let long = format!("a{}", "b".repeat(64));
    assert!(build_erlang_publish("P", &long).contains("smgmt-smgmt-"));
    let max = format!("a{}", "b".repeat(63));
    assert!(build_erlang_publish("P", &max).contains(&format!("smgmt-{max}-")));
    assert!(build_erlang_publish("P", "1abc").contains("smgmt-smgmt-"));
}

#[test]
fn publish_text_embeds_payload() {
    let s = erlang_publish_for_label("QUJD", "lbl", true);
    assert!(s.starts_with("Outer = base64:decode(<<\"QUJD\">>),\n"));
    assert!(s.ends_with("label=lbl~n\", [Result]).\n"));
    let s = erlang_publish_for_label("QUJD", "bad label", false);
    assert!(s.contains("smgmt-smgmt-"));
}

#[test]
fn envelope_of_serialized_text_has_sorted_keys() {
    let b64 = envelope_for_command("{\"a\":1}", "T\"k");
    let bytes = base64::engine::general_purpose::STANDARD.decode(b64).unwrap();
    let text = String::from_utf8(bytes).unwrap();
    assert_eq!(text, "{\"AuthToken\":\"T\\\"k\",\"MessageContent\":\"{\\\"a\\\":1}\",\"Version\":2}");
}

#[test]
fn envelope_escapes_control_characters_as_serde_json_does() {
    let token = "t\u{1}\n\\/\u{7f}é";
    let inner = "{\"Text\":\"tab\there\"}";
    let b64 = envelope_for_command(inner, token);
    let bytes = base64::engine::general_purpose::STANDARD.decode(b64).unwrap();
    let text = String::from_utf8(bytes).unwrap();
    let expected = format!(
        "{{\"AuthToken\":{},\"MessageContent\":{},\"Version\":2}}",
        serde_json::to_string(token).unwrap(),
        serde_json::to_string(inner).unwrap()
    );
    assert_eq!(text, expected);
    assert!(text.starts_with("{\"AuthToken\":\"t\\u0001\\n\\\\/\u{7f}é\""));
}

#[test]
fn outputs_combine_and_outcomes_map() {
    assert_eq!(combine_output("out", "  "), "out");
    assert_eq!(combine_output("out", "err"), "out\nerr");
    let failed = publish_outcome(false, 3, "publish=ok", "scrubbed");
    assert_eq!(failed.err().unwrap(), "rabbitmqctl eval exited 3: scrubbed");
    let ok = publish_outcome(true, 0, "x publish=ok y", "clean").ok().unwrap();
    assert!(ok.ok);
    assert_eq!(ok.output, "clean");
    let not_ok = publish_outcome(true, 0, "publish=error", "clean").ok().unwrap();
    assert!(!not_ok.ok);
}

#[test]
fn shutdown_types_have_server_names() {
    assert_eq!(ShutdownType::Restart.as_str(), "Restart");
    assert_eq!(ShutdownType::Maintenance.as_str(), "Maintenance");
    assert_eq!(ShutdownType::Update.as_str(), "Update");
}

fn obj(pairs: Vec<(&str, Value)>) -> Value {
    let mut map = serde_json::Map::new();
    for (k, v) in pairs {
        map.insert(k.to_string(), v);
    }
    Value::Object(map)
}

#[test]
fn service_broadcast_command_matches_serialized_json() {
    let title = "Restart \"soon\"";
    let body = "Back in 5 — ok";
    let entry = |key: &str| {
        obj(vec![
            ("Key", Value::from(key)),
            ("Title", Value::from(title)),
            ("Body", Value::from(body)),
        ])
    };
    let expected = obj(vec![
        ("ServerCommand", Value::from("ServiceBroadcast")),
        ("BroadcastType", Value::from("Generic")),
        (
            "BroadcastPayload",
            obj(vec![
                ("BroadcastDuration", Value::from(30u64)),
                ("LocalizedText", Value::Array(vec![entry("en"), entry("en-US")])),
            ]),
        ),
    ]);
    let text = service_broadcast_command(title, body, 30);
    assert_eq!(text, serde_json::to_string(&expected).unwrap());
}

#[test]
fn server_shutdown_command_matches_serialized_json() {
    let expected = obj(vec![
        ("ServerCommand", Value::from("ServiceBroadcast")),
        ("BroadcastType", Value::from("ServerShutdown")),
        (
            "BroadcastPayload",
            obj(vec![
                ("ShutdownType", Value::from("Maintenance")),
                ("DateTimestamp", Value::from(1_700_000_000i64)),
                ("ShutdownDuration", Value::from(600u64)),
                ("ShutdownTimestamp", Value::from(-5i64)),
                ("BroadcastFrequency", Value::from(60u64)),
                ("BroadcastDuration", Value::from(30u64)),
            ]),
        ),
    ]);
    let text = server_shutdown_command_at(ShutdownType::Maintenance, 1_700_000_000, -5, 60, 600, 30);
    assert_eq!(text, serde_json::to_string(&expected).unwrap());
    let now = server_shutdown_command(ShutdownType::Restart, 0, 1, 2, 3).unwrap();
    let parsed: Value = serde_json::from_str(&now).unwrap();
    assert_eq!(parsed["BroadcastPayload"]["ShutdownType"], "Restart");
    assert!(parsed["BroadcastPayload"]["DateTimestamp"].as_i64().unwrap() > 1_600_000_000);
}

#[test]
fn shutdown_cancel_command_matches_serialized_json() {
    let expected = obj(vec![
        ("ServerCommand", Value::from("ServiceBroadcast")),
        ("BroadcastType", Value::from("ServerShutdown")),
        ("BroadcastPayload", obj(vec![("ShouldCancel", Value::Bool(true))])),
    ]);
    assert_eq!(SHUTDOWN_CANCEL_COMMAND, serde_json::to_string(&expected).unwrap());
}

#[test]
fn publish_expressions_carry_the_encoded_payloads() {
    let e = command_publish_expression("{\"A\":1}", "tok", "lbl");
    let payload = envelope_for_command("{\"A\":1}", "tok");
    assert!(e.starts_with(&format!("Outer = base64:decode(<<\"{payload}\">>)")));
    assert!(e.contains("smgmt-lbl-"));
    let w = whisper_publish_expression("{\"Text\":\"hi\"}", "route", "sender", "bad label");
    let b64 = |t: &str| base64::engine::general_purpose::STANDARD.encode(t);
    assert!(w.starts_with(&format!("Body = base64:decode(<<\"{}\">>)", b64("{\"Text\":\"hi\"}"))));
    assert!(w.contains(&format!("RoutingKey = base64:decode(<<\"{}\">>)", b64("route"))));
    assert!(w.contains(&format!("Sender = base64:decode(<<\"{}\">>)", b64("sender"))));
    assert!(w.contains("smgmt-smgmt-"));
}

#[test]
fn base64_of_each_remainder_length() {
    let b64 = |t: &str| base64::engine::general_purpose::STANDARD.encode(t);
    let w = whisper_publish_expression("Ma", "Man", "M", "x");
    assert!(w.starts_with("Body = base64:decode(<<\"TWE=\">>)"));
    assert!(w.contains("RoutingKey = base64:decode(<<\"TWFu\">>)"));
    assert!(w.contains("Sender = base64:decode(<<\"TQ==\">>)"));
    assert_eq!(b64("Ma"), "TWE=");
}
