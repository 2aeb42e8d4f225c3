//! Message-queue payloads: the base64 command envelope, the Erlang
//! expressions `rabbitmqctl eval` runs, and the publish outcome.
use vstd::prelude::*;
use vstd::utf8::encode_utf8;
use crate::text::{
    append, append_str, chars_of, contains_str, dec, dec_int, fmt_i64, fmt_u64, has_substring,
    occurs_at, starts_with, string_of, trim, trim_str,
};
use crate::json::{json_quote, json_quoted};
use crate::clock::clock_timestamp;

verus! {

/// The shell run inside the MQ pod: reads the Erlang expression from stdin
/// and evaluates it, with no temporary files.
pub const RABBITMQ_EVAL_SHELL: &'static str = "set -eu; export PATH=/opt/rabbitmq/sbin:/opt/erlang/lib/erlang/bin:/bin:/usr/bin:/usr/local/bin:$PATH; expr=$(cat); /opt/rabbitmq/sbin/rabbitmqctl eval \"$expr\"";

/// Labels allowed into message ids.
pub const SAFE_LABEL_PATTERN: &'static str = "^[A-Za-z][A-Za-z0-9_-]{0,63}$";

/// The kind of a server-shutdown broadcast.
#[derive(Debug, Clone, Copy)]
pub enum ShutdownType {
    Restart,
    Maintenance,
    Update,
}

impl ShutdownType {
    pub open spec fn name(self) -> Seq<char> {
        match self {
            ShutdownType::Restart => "Restart"@,
            ShutdownType::Maintenance => "Maintenance"@,
            ShutdownType::Update => "Update"@,
        }
    }

    /// The name the server expects.
    pub fn as_str(self) -> (r: &'static str)
        ensures
            r@ == self.name(),
    {
        match self {
            ShutdownType::Restart => "Restart",
            ShutdownType::Maintenance => "Maintenance",
            ShutdownType::Update => "Update",
        }
    }
}

/// The result of one publish.
pub struct PublishResult {
    pub ok: bool,
    pub output: String,
}

/// A character allowed after a label's first letter: an ASCII letter or
/// digit, `_` or `-`.
pub open spec fn label_char(c: char) -> bool {
    ('A' <= c && c <= 'Z') || ('a' <= c && c <= 'z') || ('0' <= c && c <= '9') || c == '_' || c
        == '-'
}

/// What `SAFE_LABEL_PATTERN` accepts: an ASCII letter, then at most 63
/// label characters, and nothing else (both ends anchored).
pub open spec fn safe_label_text(l: Seq<char>) -> bool {
    &&& 1 <= l.len() <= 64
    &&& (('A' <= l[0] && l[0] <= 'Z') || ('a' <= l[0] && l[0] <= 'z'))
    &&& forall|i: int| 1 <= i < l.len() ==> label_char(#[trigger] l[i])
}

/// Compiles the safe-label pattern with `regex::Regex::new` and matches
/// `text` with `is_match`. The pattern compiles; by the `regex` crate's
/// syntax (character classes of ASCII ranges, a bounded repetition, `^`
/// and `$` anchoring the whole text) it matches exactly the texts
/// described by `safe_label_text`.
#[verifier::external_body]
fn regex_is_match(pattern: &str, text: &str) -> (r: bool)
    requires
        pattern@ == SAFE_LABEL_PATTERN@,
    ensures
        r == safe_label_text(text@),
{
    match regex::Regex::new(pattern) {
        Ok(re) => re.is_match(text),
        Err(_) => false,
    }
}

/// A digit of the standard base64 alphabet (`A-Z`, `a-z`, `0-9`, `+`, `/`).
pub open spec fn base64_digit(n: int) -> char {
    if n < 26 {
        (n + 65) as char
    } else if n < 52 {
        (n - 26 + 97) as char
    } else if n < 62 {
        (n - 52 + 48) as char
    } else if n == 62 {
        '+'
    } else {
        '/'
    }
}

/// Standard padded base64 (RFC 4648): each group of three bytes becomes
/// four digits of six bits each, most significant first; a final group of
/// one or two bytes is zero-filled and padded with `=` to four characters.
pub open spec fn base64_text(bytes: Seq<u8>) -> Seq<char>
    decreases bytes.len(),
{
    if bytes.len() == 0 {
        seq![]
    } else if bytes.len() == 1 {
        let a = bytes[0] as int;
        seq![base64_digit(a / 4), base64_digit((a % 4) * 16), '=', '=']
    } else if bytes.len() == 2 {
        let a = bytes[0] as int;
        let b = bytes[1] as int;
        seq![base64_digit(a / 4), base64_digit((a % 4) * 16 + b / 16), base64_digit((b % 16) * 4), '=']
    } else {
        let a = bytes[0] as int;
        let b = bytes[1] as int;
        let c = bytes[2] as int;
        seq![
            base64_digit(a / 4),
            base64_digit((a % 4) * 16 + b / 16),
            base64_digit((b % 16) * 4 + c / 64),
            base64_digit(c % 64),
        ] + base64_text(bytes.subrange(3, bytes.len() as int))
    }
}

/// Calls the standard padded base64 engine
/// (`base64::engine::general_purpose::STANDARD`), which encodes the bytes
/// as `base64_text` describes. A slice holds at most `isize::MAX` bytes, so
/// the encoded length always fits in `usize` and the call does not panic.
#[verifier::external_body]
fn base64_encode(bytes: &[u8]) -> (r: String)
    ensures
        r@ == base64_text(bytes@),
{
    base64::Engine::encode(&base64::engine::general_purpose::STANDARD, bytes)
}

/// The label used in message ids: the caller's when the safe-label pattern
/// matches it, `smgmt` otherwise.
pub open spec fn chosen_label(label: Seq<char>) -> Seq<char> {
    if safe_label_text(label) {
        label
    } else {
        "smgmt"@
    }
}

/// The fixed text of the publish expression: after the payload, up to the
/// message id's label part.
pub const PUBLISH_HEAD: &'static str = "\">>),\nXName = rabbit_misc:r(<<\"/\">>, exchange, <<\"heartbeats\">>),\nX = rabbit_exchange:lookup_or_die(XName),\nMsgId = list_to_binary(\"";

/// The fixed text between the message id's label part and the log line's.
pub const PUBLISH_MIDDLE: &'static str = "\" ++ integer_to_list(erlang:system_time(millisecond))),\nP = {list_to_atom(\"P_basic\"), <<\"Content\">>, undefined, [], undefined, undefined, undefined, undefined, undefined, MsgId, undefined, undefined, <<\"fls\">>, <<\"fls_backend\">>, undefined},\nContent = rabbit_basic:build_content(P, Outer),\n{ok, Msg} = rabbit_basic:message(XName, <<\"notifications\">>, Content),\nResult = rabbit_queue_type:publish_at_most_once(X, Msg),\nio:format(\"publish=~p exchange=heartbeats routing=notifications app_id=fls_backend user_id=fls ";

/// The fixed text after the log line's label part.
pub const PUBLISH_TAIL: &'static str = "\", [Result]).\n";

/// The Erlang expression publishing a command envelope to the
/// `heartbeats` exchange with routing key `notifications`, as user `fls`
/// and app `fls_backend`.
pub open spec fn erlang_publish_text(payload_b64: Seq<char>, label: Seq<char>) -> Seq<char> {
    "Outer = base64:decode(<<\""@ + payload_b64
        + PUBLISH_HEAD@
        + ("smgmt-"@ + label + "-"@)
        + PUBLISH_MIDDLE@
        + ("label="@ + label + "~n"@) + PUBLISH_TAIL@
}

/// The Erlang expression publishing a whisper body to the
/// `chat.whispers` exchange (all parts base64), with content type
/// `text_chat` and the sender as user id.
pub open spec fn erlang_whisper_text(
    payload_b64: Seq<char>,
    exchange_b64: Seq<char>,
    routing_key_b64: Seq<char>,
    sender_b64: Seq<char>,
    label: Seq<char>,
) -> Seq<char> {
    "Body = base64:decode(<<\""@ + payload_b64 + "\">>),\nExchange = base64:decode(<<\""@
        + exchange_b64 + "\">>),\nRoutingKey = base64:decode(<<\""@ + routing_key_b64
        + "\">>),\nSender = base64:decode(<<\""@ + sender_b64
        + "\">>),\nXName = rabbit_misc:r(<<\"/\">>, exchange, Exchange),\nX = rabbit_exchange:lookup_or_die(XName),\nMsgId = list_to_binary(\"smgmt-"@
        + label
        + "-\" ++ integer_to_list(erlang:system_time(millisecond))),\nP = {list_to_atom(\"P_basic\"), <<\"Content\">>, undefined, [], undefined, undefined, undefined, undefined, undefined, MsgId, undefined, <<\"text_chat\">>, Sender, <<\"fls_backend\">>, undefined},\nContent = rabbit_basic:build_content(P, Body),\n{ok, Msg} = rabbit_basic:message(XName, RoutingKey, Content),\nResult = rabbit_queue_type:publish_at_most_once(X, Msg),\nio:format(\"publish=~p exchange=chat.whispers routing=~s app_id=fls_backend user_id=~s label="@
        + label + "~n\", [Result, RoutingKey, Sender]).\n"@
}

/// Whether a label may appear in message ids.
fn safe_label(label: &str) -> (r: bool)
    ensures
        r == safe_label_text(label@),
{
    regex_is_match(SAFE_LABEL_PATTERN, label)
}

/// The publish expression for a label already checked against the
/// safe-label pattern (`label_is_safe`).
pub fn erlang_publish_for_label(payload_b64: &str, label: &str, label_is_safe: bool) -> (r: String)
    ensures
        r@ == erlang_publish_text(payload_b64@, if label_is_safe { label@ } else { "smgmt"@ }),
{
    let l = if label_is_safe {
        label
    } else {
        "smgmt"
    };
    let mut v = chars_of("Outer = base64:decode(<<\"");
    append_str(&mut v, payload_b64);
    append_str(&mut v, PUBLISH_HEAD);
    append_str(&mut v, "smgmt-");
    append_str(&mut v, l);
    append_str(&mut v, "-");
    append_str(&mut v, PUBLISH_MIDDLE);
    append_str(&mut v, "label=");
    append_str(&mut v, l);
    append_str(&mut v, "~n");
    append_str(&mut v, PUBLISH_TAIL);
    string_of(&v)
}

/// The Erlang expression that publishes a command envelope.
pub fn build_erlang_publish(payload_b64: &str, label: &str) -> (r: String)
    ensures
        r@ == erlang_publish_text(payload_b64@, chosen_label(label@)),
{
    let safe = safe_label(label);
    erlang_publish_for_label(payload_b64, label, safe)
}

/// The whisper expression for a label already checked against the
/// safe-label pattern.
pub fn erlang_whisper_for_label(
    payload_b64: &str,
    exchange_b64: &str,
    routing_key_b64: &str,
    sender_fls_id_b64: &str,
    label: &str,
    label_is_safe: bool,
) -> (r: String)
    ensures
        r@ == erlang_whisper_text(
            payload_b64@,
            exchange_b64@,
            routing_key_b64@,
            sender_fls_id_b64@,
            if label_is_safe { label@ } else { "smgmt"@ },
        ),
{
    let l = if label_is_safe {
        label
    } else {
        "smgmt"
    };
    let mut v = chars_of("Body = base64:decode(<<\"");
    append_str(&mut v, payload_b64);
    append_str(&mut v, "\">>),\nExchange = base64:decode(<<\"");
    append_str(&mut v, exchange_b64);
    append_str(&mut v, "\">>),\nRoutingKey = base64:decode(<<\"");
    append_str(&mut v, routing_key_b64);
    append_str(&mut v, "\">>),\nSender = base64:decode(<<\"");
    append_str(&mut v, sender_fls_id_b64);
    append_str(&mut v, "\">>),\nXName = rabbit_misc:r(<<\"/\">>, exchange, Exchange),\nX = rabbit_exchange:lookup_or_die(XName),\nMsgId = list_to_binary(\"smgmt-");
    append_str(&mut v, l);
    append_str(&mut v, "-\" ++ integer_to_list(erlang:system_time(millisecond))),\nP = {list_to_atom(\"P_basic\"), <<\"Content\">>, undefined, [], undefined, undefined, undefined, undefined, undefined, MsgId, undefined, <<\"text_chat\">>, Sender, <<\"fls_backend\">>, undefined},\nContent = rabbit_basic:build_content(P, Body),\n{ok, Msg} = rabbit_basic:message(XName, RoutingKey, Content),\nResult = rabbit_queue_type:publish_at_most_once(X, Msg),\nio:format(\"publish=~p exchange=chat.whispers routing=~s app_id=fls_backend user_id=~s label=");
    append_str(&mut v, l);
    append_str(&mut v, "~n\", [Result, RoutingKey, Sender]).\n");
    string_of(&v)
}

/// The Erlang expression that publishes a whisper.
pub fn build_erlang_whisper_publish(
    payload_b64: &str,
    routing_key_b64: &str,
    sender_fls_id_b64: &str,
    label: &str,
) -> (r: String)
    ensures
        r@ == erlang_whisper_text(
            payload_b64@,
            base64_text(encode_utf8("chat.whispers"@)),
            routing_key_b64@,
            sender_fls_id_b64@,
            chosen_label(label@),
        ),
{
    let safe = safe_label(label);
    let exchange_b64 = base64_encode("chat.whispers".as_bytes());
    erlang_whisper_for_label(
        payload_b64,
        exchange_b64.as_str(),
        routing_key_b64,
        sender_fls_id_b64,
        label,
        safe,
    )
}

/// The outer envelope's JSON text: the token, the serialized inner command
/// as a JSON string, and version 2, keys in sorted order.
pub open spec fn envelope_json(token: Seq<char>, inner_text: Seq<char>) -> Seq<char> {
    "{\"AuthToken\":"@ + json_quoted(token) + ",\"MessageContent\":"@ + json_quoted(inner_text)
        + ",\"Version\":2}"@
}

/// The base64 of the envelope's UTF-8 bytes.
pub open spec fn envelope_b64(inner_text: Seq<char>, token: Seq<char>) -> Seq<char> {
    base64_text(encode_utf8(envelope_json(token, inner_text)))
}

/// The base64 envelope the server-command handler expects, for a command
/// given as its serialized JSON text.
pub fn envelope_for_command(inner_json: &str, token: &str) -> (r: String)
    ensures
        r@ == envelope_b64(inner_json@, token@),
{
    let t = json_quote(token).unwrap();
    let i = json_quote(inner_json).unwrap();
    let mut v = chars_of("{\"AuthToken\":");
    append_str(&mut v, t.as_str());
    append_str(&mut v, ",\"MessageContent\":");
    append_str(&mut v, i.as_str());
    append_str(&mut v, ",\"Version\":2}");
    let text = string_of(&v);
    base64_encode(text.as_str().as_bytes())
}

/// The command output shown to the operator: stdout, then stderr on its
/// own line when stderr holds more than whitespace.
pub open spec fn combined_output(stdout: Seq<char>, stderr: Seq<char>) -> Seq<char> {
    if trim(stderr).len() == 0 {
        stdout
    } else {
        stdout + "\n"@ + stderr
    }
}

/// Combines a command's stdout and stderr for display.
pub fn combine_output(stdout: &str, stderr: &str) -> (r: String)
    ensures
        r@ == combined_output(stdout@, stderr@),
{
    let e = trim_str(stderr);
    if e.len() == 0 {
        string_of(&chars_of(stdout))
    } else {
        let mut v = chars_of(stdout);
        append_str(&mut v, "\n");
        append_str(&mut v, stderr);
        string_of(&v)
    }
}

/// The outcome of `rabbitmqctl eval`: an error carrying the exit code and
/// the (redacted) output when the command failed, else whether stdout
/// reports `publish=ok`, with the redacted output.
pub fn publish_outcome(succeeded: bool, exit_code: i32, stdout: &str, scrubbed: &str) -> (r: Result<
    PublishResult,
    String,
>)
    ensures
        !succeeded ==> (r matches Err(e) && e@ == "rabbitmqctl eval exited "@ + dec_int(
            exit_code as int,
        ) + ": "@ + scrubbed@),
        succeeded ==> (r matches Ok(p) && p.ok == has_substring(stdout@, "publish=ok"@)
            && p.output@ == scrubbed@),
{
    if !succeeded {
        let mut v = chars_of("rabbitmqctl eval exited ");
        crate::text::append(&mut v, &fmt_i64(exit_code as i64));
        append_str(&mut v, ": ");
        append_str(&mut v, scrubbed);
        return Err(string_of(&v));
    }
    let out = chars_of(stdout);
    let ok = contains_str(&out, "publish=ok");
    Ok(PublishResult { ok, output: string_of(&chars_of(scrubbed)) })
}

// ---------------------------------------------------------------------------
// Command payloads
// ---------------------------------------------------------------------------

/// The compact JSON of a generic service broadcast (keys in sorted order,
/// as `serde_json` prints a map): the title and body in `en` and `en-US`,
/// shown for `duration_secs`.
pub open spec fn service_broadcast_json(title: Seq<char>, body: Seq<char>, duration_secs: u64) -> Seq<
    char,
> {
    let t = json_quoted(title);
    let b = json_quoted(body);
    "{\"BroadcastPayload\":{\"BroadcastDuration\":"@ + dec(duration_secs as nat)
        + ",\"LocalizedText\":[{\"Body\":"@ + b + ",\"Key\":\"en\",\"Title\":"@ + t
        + "},{\"Body\":"@ + b + ",\"Key\":\"en-US\",\"Title\":"@ + t
        + "}]},\"BroadcastType\":\"Generic\",\"ServerCommand\":\"ServiceBroadcast\"}"@
}

/// The command text of a generic service broadcast.
pub fn service_broadcast_command(title: &str, body: &str, duration_secs: u64) -> (r: String)
    ensures
        r@ == service_broadcast_json(title@, body@, duration_secs),
{
    let t = json_quote(title).unwrap();
    let b = json_quote(body).unwrap();
    let mut v = chars_of("{\"BroadcastPayload\":{\"BroadcastDuration\":");
    append(&mut v, &fmt_u64(duration_secs));
    append_str(&mut v, ",\"LocalizedText\":[{\"Body\":");
    append_str(&mut v, b.as_str());
    append_str(&mut v, ",\"Key\":\"en\",\"Title\":");
    append_str(&mut v, t.as_str());
    append_str(&mut v, "},{\"Body\":");
    append_str(&mut v, b.as_str());
    append_str(&mut v, ",\"Key\":\"en-US\",\"Title\":");
    append_str(&mut v, t.as_str());
    append_str(&mut v, "}]},\"BroadcastType\":\"Generic\",\"ServerCommand\":\"ServiceBroadcast\"}");
    string_of(&v)
}

/// The compact JSON of a server-shutdown broadcast sent at `now` (seconds
/// since the epoch), keys in sorted order.
pub open spec fn server_shutdown_json(
    shutdown_type: ShutdownType,
    now: i64,
    shutdown_timestamp: i64,
    frequency_secs: u64,
    duration_secs: u64,
    broadcast_duration_secs: u64,
) -> Seq<char> {
    "{\"BroadcastPayload\":{\"BroadcastDuration\":"@ + dec(broadcast_duration_secs as nat)
        + ",\"BroadcastFrequency\":"@ + dec(frequency_secs as nat) + ",\"DateTimestamp\":"@
        + dec_int(now as int) + ",\"ShutdownDuration\":"@ + dec(duration_secs as nat)
        + ",\"ShutdownTimestamp\":"@ + dec_int(shutdown_timestamp as int)
        + ",\"ShutdownType\":\""@ + shutdown_type.name()
        + "\"},\"BroadcastType\":\"ServerShutdown\",\"ServerCommand\":\"ServiceBroadcast\"}"@
}

/// The command text of a server-shutdown broadcast sent at `now`.
pub fn server_shutdown_command_at(
    shutdown_type: ShutdownType,
    now: i64,
    shutdown_timestamp: i64,
    frequency_secs: u64,
    duration_secs: u64,
    broadcast_duration_secs: u64,
) -> (r: String)
    ensures
        r@ == server_shutdown_json(
            shutdown_type,
            now,
            shutdown_timestamp,
            frequency_secs,
            duration_secs,
            broadcast_duration_secs,
        ),
{
    let mut v = chars_of("{\"BroadcastPayload\":{\"BroadcastDuration\":");
    append(&mut v, &fmt_u64(broadcast_duration_secs));
    append_str(&mut v, ",\"BroadcastFrequency\":");
    append(&mut v, &fmt_u64(frequency_secs));
    append_str(&mut v, ",\"DateTimestamp\":");
    append(&mut v, &fmt_i64(now));
    append_str(&mut v, ",\"ShutdownDuration\":");
    append(&mut v, &fmt_u64(duration_secs));
    append_str(&mut v, ",\"ShutdownTimestamp\":");
    append(&mut v, &fmt_i64(shutdown_timestamp));
    append_str(&mut v, ",\"ShutdownType\":\"");
    append_str(&mut v, shutdown_type.as_str());
    append_str(&mut v, "\"},\"BroadcastType\":\"ServerShutdown\",\"ServerCommand\":\"ServiceBroadcast\"}");
    string_of(&v)
}

/// The command text of a server-shutdown broadcast sent now (the clock's
/// Unix seconds), or `None` when the clock cannot be read.
pub fn server_shutdown_command(
    shutdown_type: ShutdownType,
    shutdown_timestamp: i64,
    frequency_secs: u64,
    duration_secs: u64,
    broadcast_duration_secs: u64,
) -> (r: Option<String>)
    ensures
        r matches Some(t) ==> exists|now: i64|
            now >= 0 && t@ == server_shutdown_json(
                shutdown_type,
                now,
                shutdown_timestamp,
                frequency_secs,
                duration_secs,
                broadcast_duration_secs,
            ),
{
    match clock_timestamp() {
        Some((now, _)) => Some(
            server_shutdown_command_at(
                shutdown_type,
                now,
                shutdown_timestamp,
                frequency_secs,
                duration_secs,
                broadcast_duration_secs,
            ),
        ),
        None => None,
    }
}

/// The command text that cancels a shutdown countdown.
pub const SHUTDOWN_CANCEL_COMMAND: &'static str = "{\"BroadcastPayload\":{\"ShouldCancel\":true},\"BroadcastType\":\"ServerShutdown\",\"ServerCommand\":\"ServiceBroadcast\"}";

/// The Erlang expression that publishes a command (already serialized)
/// in its envelope.
pub fn command_publish_expression(inner_text: &str, token: &str, label: &str) -> (r: String)
    ensures
        r@ == erlang_publish_text(envelope_b64(inner_text@, token@), chosen_label(label@)),
{
    let payload = envelope_for_command(inner_text, token);
    build_erlang_publish(payload.as_str(), label)
}

/// The Erlang expression that publishes a whisper whose body serialized to
/// `body_json`: body, routing key and sender travel base64-encoded.
pub fn whisper_publish_expression(body_json: &str, routing_key: &str, sender_fls_id: &str, label: &str) -> (r:
    String)
    ensures
        r@ == erlang_whisper_text(
            base64_text(encode_utf8(body_json@)),
            base64_text(encode_utf8("chat.whispers"@)),
            base64_text(encode_utf8(routing_key@)),
            base64_text(encode_utf8(sender_fls_id@)),
            chosen_label(label@),
        ),
{
    let body_b64 = base64_encode(body_json.as_bytes());
    let routing_b64 = base64_encode(routing_key.as_bytes());
    let sender_b64 = base64_encode(sender_fls_id.as_bytes());
    build_erlang_whisper_publish(body_b64.as_str(), routing_b64.as_str(), sender_b64.as_str(), label)
}


proof fn lemma_occurs_in_concat(x: Seq<char>, p: Seq<char>, y: Seq<char>)
    ensures
        occurs_at(x + p + y, p, x.len() as int),
        has_substring(x + p + y, p),
{
    assert((x + p + y).subrange(x.len() as int, (x.len() + p.len()) as int) =~= p);
}

/// The publish expression starts by decoding the payload it was given;
/// the label it embeds in the message id (`smgmt-{label}-`) and in the log
/// line (`label={label}~n`) always matches the safe-label pattern: a safe
/// label is kept, any other becomes `smgmt`. Choosing is idempotent, so a
/// label and the label chosen for it give the same expression: only the
/// chosen label ever reaches it.
pub proof fn lemma_erlang_publish_shape(payload_b64: Seq<char>, label: Seq<char>)
    ensures
        starts_with(
            erlang_publish_text(payload_b64, chosen_label(label)),
            "Outer = base64:decode(<<\""@ + payload_b64,
        ),
        has_substring(
            erlang_publish_text(payload_b64, chosen_label(label)),
            "smgmt-"@ + chosen_label(label) + "-"@,
        ),
        has_substring(
            erlang_publish_text(payload_b64, chosen_label(label)),
            "label="@ + chosen_label(label) + "~n"@,
        ),
        safe_label_text(chosen_label(label)),
        safe_label_text(label) ==> chosen_label(label) == label,
        !safe_label_text(label) ==> chosen_label(label) == "smgmt"@,
        chosen_label(chosen_label(label)) == chosen_label(label),
        erlang_publish_text(payload_b64, chosen_label(chosen_label(label))) == erlang_publish_text(
            payload_b64,
            chosen_label(label),
        ),
{
    reveal_strlit("smgmt");
    reveal_strlit("smgmt-");
    reveal_strlit("label=");
    let l = chosen_label(label);
    let pre = "Outer = base64:decode(<<\""@ + payload_b64;
    let t = erlang_publish_text(payload_b64, l);
    assert(t.take(pre.len() as int) =~= pre);
    assert(safe_label_text("smgmt"@)) by {
        let s = "smgmt"@;
        assert forall|i: int| 1 <= i < s.len() implies label_char(#[trigger] s[i]) by {}
    }
    let id_pat = "smgmt-"@ + l + "-"@;
    let log_pat = "label="@ + l + "~n"@;
    let x1 = "Outer = base64:decode(<<\""@ + payload_b64 + PUBLISH_HEAD@;
    let y1 = PUBLISH_MIDDLE@ + log_pat + PUBLISH_TAIL@;
    assert(t =~= x1 + id_pat + y1);
    lemma_occurs_in_concat(x1, id_pat, y1);
    let x2 = x1 + id_pat + PUBLISH_MIDDLE@;
    assert(t =~= x2 + log_pat + PUBLISH_TAIL@);
    lemma_occurs_in_concat(x2, log_pat, PUBLISH_TAIL@);
}

} // verus!
