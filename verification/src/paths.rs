//! Request paths of the management API and URL component encoding.
use vstd::prelude::*;
use vstd::utf8::encode_utf8;
use crate::text::{
    append, append_str, chars_of, dec, dec_int, eq_chars, fmt_i64, fmt_u64, push_char, string_of,
    trim, trim_str,
};

verus! {

/// Where the item catalog is fetched from when no source is given.
pub const DEFAULT_ITEM_CATALOG_URL: &'static str =
    "https://github.com/maurerk1993/dune-dedicated-server-manager/releases/latest/download/item-catalog.json";

/// Characters left as they are: ASCII letters, digits and `-_.~`.
pub open spec fn unreserved(c: char) -> bool {
    ('A' <= c && c <= 'Z') || ('a' <= c && c <= 'z') || ('0' <= c && c <= '9') || c == '-' || c
        == '_' || c == '.' || c == '~'
}

pub open spec fn hex_upper(d: nat) -> char {
    if d < 10 {
        (d + 48) as char
    } else {
        (d - 10 + 65) as char
    }
}

/// `%XX` for each byte, with uppercase hex digits.
pub open spec fn percent_bytes(bytes: Seq<u8>) -> Seq<char>
    decreases bytes.len(),
{
    if bytes.len() == 0 {
        seq![]
    } else {
        percent_bytes(bytes.drop_last()) + seq![
            '%',
            hex_upper((bytes.last() / 16) as nat),
            hex_upper((bytes.last() % 16) as nat),
        ]
    }
}

/// Percent-encoding of a URL component: unreserved characters stay, every
/// other character becomes its UTF-8 bytes as `%XX`.
pub open spec fn url_encoded(s: Seq<char>) -> Seq<char>
    decreases s.len(),
{
    if s.len() == 0 {
        seq![]
    } else {
        let c = s.last();
        url_encoded(s.drop_last()) + if unreserved(c) {
            seq![c]
        } else {
            percent_bytes(encode_utf8(seq![c]))
        }
    }
}

fn hex_upper_exec(d: u8) -> (r: char)
    requires
        d < 16,
    ensures
        r == hex_upper(d as nat),
{
    if d < 10 {
        (d + 48) as char
    } else {
        (d - 10 + 65) as char
    }
}

/// Percent-encodes a URL component.
pub fn urlencoding(input: &str) -> (r: String)
    ensures
        r@ == url_encoded(input@),
{
    let s = chars_of(input);
    let mut out: Vec<char> = Vec::new();
    let mut i: usize = 0;
    assert(s@.take(0) =~= Seq::<char>::empty());
    while i < s.len()
        invariant
            i <= s.len(),
            out@ == url_encoded(s@.take(i as int)),
        decreases s.len() - i,
    {
        let c = s[i];
        assert(s@.take(i + 1).drop_last() == s@.take(i as int));
        assert(s@.take(i + 1).last() == c);
        if ('A' <= c && c <= 'Z') || ('a' <= c && c <= 'z') || ('0' <= c && c <= '9') || c == '-'
            || c == '_' || c == '.' || c == '~' {
            out.push(c);
            assert(out@ =~= url_encoded(s@.take(i + 1)));
        } else {
            let mut one = String::new();
            push_char(&mut one, c);
            assert(one@ =~= seq![c]);
            let bytes = one.as_str().as_bytes();
            let ghost base = out@;
            let mut k: usize = 0;
            assert(bytes@.take(0) =~= Seq::<u8>::empty());
            assert(out@ =~= base + percent_bytes(bytes@.take(0)));
            while k < bytes.len()
                invariant
                    k <= bytes.len(),
                    out@ == base + percent_bytes(bytes@.take(k as int)),
                decreases bytes.len() - k,
            {
                assert(bytes@.take(k + 1).drop_last() == bytes@.take(k as int));
                assert(bytes@.take(k + 1).last() == bytes@[k as int]);
                let b = bytes[k];
                out.push('%');
                out.push(hex_upper_exec(b / 16));
                out.push(hex_upper_exec(b % 16));
                assert(out@ =~= base + percent_bytes(bytes@.take(k + 1)));
                k += 1;
            }
            assert(bytes@.take(bytes@.len() as int) == bytes@);
            assert(out@ =~= url_encoded(s@.take(i + 1)));
        }
        i += 1;
    }
    assert(s@.take(s.len() as int) == s@);
    string_of(&out)
}

/// A query parameter appended with `?` first, `&` after.
pub open spec fn with_param(path: Seq<char>, first: bool, param: Seq<char>) -> Seq<char> {
    path + (if first { "?"@ } else { "&"@ }) + param
}

/// `base`, then `q=<encoded q>` and `limit=<limit>` when given.
pub open spec fn search_path_of(base: Seq<char>, q: Option<Seq<char>>, limit: Option<u32>) -> Seq<char> {
    let p1 = match q {
        Some(t) => with_param(base, true, "q="@ + url_encoded(t)),
        None => base,
    };
    match limit {
        Some(l) => with_param(p1, q is None, "limit="@ + dec(l as nat)),
        None => p1,
    }
}

fn push_sep(out: &mut Vec<char>, first: bool)
    ensures
        final(out)@ == old(out)@ + (if first { "?"@ } else { "&"@ }),
{
    if first {
        append_str(out, "?");
    } else {
        append_str(out, "&");
    }
}

/// A search request path.
pub fn search_path(base: &str, q: Option<&str>, limit: Option<u32>) -> (r: String)
    ensures
        r@ == search_path_of(
            base@,
            match q {
                Some(t) => Some(t@),
                None => None,
            },
            limit,
        ),
{
    let mut out = chars_of(base);
    let mut first = true;
    match q {
        Some(qq) => {
            push_sep(&mut out, true);
            append_str(&mut out, "q=");
            let e = urlencoding(qq);
            append_str(&mut out, e.as_str());
            first = false;
        },
        None => {},
    }
    match limit {
        Some(l) => {
            push_sep(&mut out, first);
            append_str(&mut out, "limit=");
            append(&mut out, &fmt_u64(l as u64));
        },
        None => {},
    }
    string_of(&out)
}

/// `/api/runs` with optional `limit` and `task` (not encoded).
pub open spec fn runs_path_of(limit: Option<u32>, task: Option<Seq<char>>) -> Seq<char> {
    let p1 = match limit {
        Some(l) => with_param("/api/runs"@, true, "limit="@ + dec(l as nat)),
        None => "/api/runs"@,
    };
    match task {
        Some(t) => with_param(p1, limit is None, "task="@ + t),
        None => p1,
    }
}

/// The run-list request path.
pub fn runs_path(limit: Option<u32>, task: Option<String>) -> (r: String)
    ensures
        r@ == runs_path_of(
            limit,
            match task {
                Some(t) => Some(t@),
                None => None,
            },
        ),
{
    let mut out = chars_of("/api/runs");
    let mut first = true;
    match limit {
        Some(l) => {
            push_sep(&mut out, true);
            append_str(&mut out, "limit=");
            append(&mut out, &fmt_u64(l as u64));
            first = false;
        },
        None => {},
    }
    match task {
        Some(t) => {
            push_sep(&mut out, first);
            append_str(&mut out, "task=");
            append_str(&mut out, t.as_str());
        },
        None => {},
    }
    string_of(&out)
}

/// `/api/logs` with optional `limit` and `runId`.
pub open spec fn logs_path_of(limit: Option<u32>, run_id: Option<i64>) -> Seq<char> {
    let p1 = match limit {
        Some(l) => with_param("/api/logs"@, true, "limit="@ + dec(l as nat)),
        None => "/api/logs"@,
    };
    match run_id {
        Some(r) => with_param(p1, limit is None, "runId="@ + dec_int(r as int)),
        None => p1,
    }
}

/// The log-list request path.
pub fn logs_path(limit: Option<u32>, run_id: Option<i64>) -> (r: String)
    ensures
        r@ == logs_path_of(limit, run_id),
{
    let mut out = chars_of("/api/logs");
    let mut first = true;
    match limit {
        Some(l) => {
            push_sep(&mut out, true);
            append_str(&mut out, "limit=");
            append(&mut out, &fmt_u64(l as u64));
            first = false;
        },
        None => {},
    }
    match run_id {
        Some(r) => {
            push_sep(&mut out, first);
            append_str(&mut out, "runId=");
            append(&mut out, &fmt_i64(r));
        },
        None => {},
    }
    string_of(&out)
}

/// A path with an optional `?limit=`.
pub open spec fn limited_path_of(base: Seq<char>, limit: Option<u32>) -> Seq<char> {
    match limit {
        Some(l) => base + "?limit="@ + dec(l as nat),
        None => base,
    }
}

/// The admin history path.
pub fn history_path(limit: Option<u32>) -> (r: String)
    ensures
        r@ == limited_path_of("/api/admin/history"@, limit),
{
    let mut out = chars_of("/api/admin/history");
    match limit {
        Some(l) => {
            append_str(&mut out, "?limit=");
            append(&mut out, &fmt_u64(l as u64));
        },
        None => {},
    }
    string_of(&out)
}

/// The welcome-grant list path.
pub fn welcome_grants_path(limit: Option<u32>) -> (r: String)
    ensures
        r@ == limited_path_of("/api/admin/welcome-grants"@, limit),
{
    let mut out = chars_of("/api/admin/welcome-grants");
    match limit {
        Some(l) => {
            append_str(&mut out, "?limit=");
            append(&mut out, &fmt_u64(l as u64));
        },
        None => {},
    }
    string_of(&out)
}

/// A per-player path: `base?flsId=<encoded id>`.
pub fn player_path(base: &str, fls_id: &str) -> (r: String)
    ensures
        r@ == base@ + "?flsId="@ + url_encoded(fls_id@),
{
    let mut out = chars_of(base);
    append_str(&mut out, "?flsId=");
    let e = urlencoding(fls_id);
    append_str(&mut out, e.as_str());
    string_of(&out)
}

/// The catalog source: the given URL trimmed when not empty, else the
/// default release asset.
pub open spec fn catalog_source_of(source_url: Option<Seq<char>>) -> Seq<char> {
    match source_url {
        Some(u) => if trim(u).len() > 0 {
            trim(u)
        } else {
            DEFAULT_ITEM_CATALOG_URL@
        },
        None => DEFAULT_ITEM_CATALOG_URL@,
    }
}

/// The URL the catalog check fetches.
pub fn catalog_source_url(source_url: Option<&str>) -> (r: String)
    ensures
        r@ == catalog_source_of(
            match source_url {
                Some(u) => Some(u@),
                None => None,
            },
        ),
{
    match source_url {
        Some(u) => {
            let t = trim_str(u);
            if t.len() > 0 {
                string_of(&t)
            } else {
                string_of(&chars_of(DEFAULT_ITEM_CATALOG_URL))
            }
        },
        None => string_of(&chars_of(DEFAULT_ITEM_CATALOG_URL)),
    }
}

/// The trimmed export path, which must not be empty.
pub fn export_path(path: &str) -> (r: Result<String, String>)
    ensures
        trim(path@).len() > 0 ==> (r matches Ok(p) && p@ == trim(path@)),
        trim(path@).len() == 0 ==> (r matches Err(e) && e@ == "export path must not be empty"@),
{
    let t = trim_str(path);
    if t.len() == 0 {
        Err(string_of(&chars_of("export path must not be empty")))
    } else {
        Ok(string_of(&t))
    }
}

/// An open SSH tunnel and the local port it listens on.
pub struct TunnelEntry {
    pub id: String,
    pub local_port: u16,
}

pub open spec fn tunnel_port_of(tunnels: Seq<TunnelEntry>, id: Seq<char>) -> Option<u16>
    decreases tunnels.len(),
{
    if tunnels.len() == 0 {
        None
    } else if tunnels[0].id@ == id {
        Some(tunnels[0].local_port)
    } else {
        tunnel_port_of(tunnels.drop_first(), id)
    }
}

/// The tunnel registry holds each id once, as the map from ids to tunnels
/// that it stands for does.
pub open spec fn tunnel_ids_unique(tunnels: Seq<TunnelEntry>) -> bool {
    forall|i: int, j: int|
        0 <= i < j < tunnels.len() ==> (#[trigger] tunnels[i]).id@ != (#[trigger] tunnels[j]).id@
}

/// Looking a tunnel up by id in a registry that holds each id once finds
/// the one entry with that id, wherever it stands: the registry behaves as
/// a map from ids to local ports.
pub proof fn lemma_tunnel_lookup_is_map(tunnels: Seq<TunnelEntry>, id: Seq<char>)
    requires
        tunnel_ids_unique(tunnels),
    ensures
        (tunnel_port_of(tunnels, id) is None) <==> (forall|i: int|
            0 <= i < tunnels.len() ==> (#[trigger] tunnels[i]).id@ != id),
        forall|i: int|
            0 <= i < tunnels.len() && (#[trigger] tunnels[i]).id@ == id ==> tunnel_port_of(tunnels, id)
                == Some(tunnels[i].local_port),
    decreases tunnels.len(),
{
    if tunnels.len() > 0 {
        let t = tunnels.drop_first();
        assert(tunnel_ids_unique(t)) by {
            assert forall|i: int, j: int| 0 <= i < j < t.len() implies (#[trigger] t[i]).id@ != (
            #[trigger] t[j]).id@ by {
                assert(t[i] == tunnels[i + 1] && t[j] == tunnels[j + 1]);
            }
        }
        lemma_tunnel_lookup_is_map(t, id);
        assert forall|i: int| 0 < i < tunnels.len() implies tunnels[i] == t[i - 1] by {}
        if tunnels[0].id@ == id {
            assert forall|i: int| 0 <= i < tunnels.len() && (#[trigger] tunnels[i]).id@ == id implies i == 0 by {
                if i > 0 {
                    assert(tunnels[0].id@ != tunnels[i].id@);
                }
            }
        }
    }
}

/// The local port of the tunnel with the given (trimmed) id.
pub fn tunnel_local_port(tunnels: &Vec<TunnelEntry>, tunnel_id: &str) -> (r: Result<u16, String>)
    ensures
        match tunnel_port_of(tunnels@, trim(tunnel_id@)) {
            Some(p) => r == Ok::<u16, String>(p),
            None => r matches Err(e) && e@ == "no active tunnel id="@ + tunnel_id@,
        },
{
    let key = trim_str(tunnel_id);
    let mut i: usize = 0;
    assert(tunnels@.skip(0) == tunnels@);
    while i < tunnels.len()
        invariant
            i <= tunnels.len(),
            key@ == trim(tunnel_id@),
            tunnel_port_of(tunnels@, key@) == tunnel_port_of(tunnels@.skip(i as int), key@),
        decreases tunnels.len() - i,
    {
        assert(tunnels@.skip(i as int)[0] == tunnels@[i as int]);
        assert(tunnels@.skip(i as int).drop_first() == tunnels@.skip(i + 1));
        let id = chars_of(tunnels[i].id.as_str());
        if eq_chars(&id, &key) {
            return Ok(tunnels[i].local_port);
        }
        i += 1;
    }
    let mut v = chars_of("no active tunnel id=");
    append_str(&mut v, tunnel_id);
    Err(string_of(&v))
}

// ---------------------------------------------------------------------------
// Management API requests through a tunnel
// ---------------------------------------------------------------------------

/// The URL of a management API path behind a local tunnel port.
pub fn local_url(port: u16, path: &str) -> (r: String)
    ensures
        r@ == "http://127.0.0.1:"@ + dec(port as nat) + path@,
{
    let mut v = chars_of("http://127.0.0.1:");
    append(&mut v, &fmt_u64(port as u64));
    append_str(&mut v, path);
    string_of(&v)
}

/// The error of a request that could not be sent: `GET /path: <error>`.
pub fn request_failure(method: &str, path: &str, err: &str) -> (r: String)
    ensures
        r@ == method@ + " "@ + path@ + ": "@ + err@,
{
    let mut v = chars_of(method);
    append_str(&mut v, " ");
    append_str(&mut v, path);
    append_str(&mut v, ": ");
    append_str(&mut v, err);
    string_of(&v)
}

/// The error of a request answered with a failure status:
/// `GET /path -> <status>: <body>`.
pub fn status_failure(method: &str, path: &str, status: &str, body: &str) -> (r: String)
    ensures
        r@ == method@ + " "@ + path@ + " -> "@ + status@ + ": "@ + body@,
{
    let mut v = chars_of(method);
    append_str(&mut v, " ");
    append_str(&mut v, path);
    append_str(&mut v, " -> ");
    append_str(&mut v, status);
    append_str(&mut v, ": ");
    append_str(&mut v, body);
    string_of(&v)
}

/// The error of an answer whose body is not JSON: `decoding /path: <error>`.
pub fn decode_failure(path: &str, err: &str) -> (r: String)
    ensures
        r@ == "decoding "@ + path@ + ": "@ + err@,
{
    let mut v = chars_of("decoding ");
    append_str(&mut v, path);
    append_str(&mut v, ": ");
    append_str(&mut v, err);
    string_of(&v)
}

// ---------------------------------------------------------------------------
// Laws of the encoding
// ---------------------------------------------------------------------------

proof fn lemma_hex_upper_unreserved(d: nat)
    requires
        d < 16,
    ensures
        unreserved(hex_upper(d)),
{
    if d < 10 {
        assert(('0' as nat) == 48);
        assert((d + 48) as char as nat == d + 48);
    } else {
        assert(('A' as nat) == 65);
        assert((d - 10 + 65) as char as nat == d + 55);
    }
}

proof fn lemma_percent_bytes_safe(bytes: Seq<u8>)
    ensures
        forall|i: int|
            0 <= i < percent_bytes(bytes).len() ==> unreserved(#[trigger] percent_bytes(bytes)[i])
                || percent_bytes(bytes)[i] == '%',
    decreases bytes.len(),
{
    if bytes.len() > 0 {
        lemma_percent_bytes_safe(bytes.drop_last());
        lemma_hex_upper_unreserved((bytes.last() / 16) as nat);
        lemma_hex_upper_unreserved((bytes.last() % 16) as nat);
        let prev = percent_bytes(bytes.drop_last());
        let all = percent_bytes(bytes);
        assert forall|i: int| 0 <= i < all.len() implies unreserved(#[trigger] all[i]) || all[i]
            == '%' by {
            if i < prev.len() {
                assert(all[i] == prev[i]);
            }
        }
    }
}

/// Encoded text holds only unreserved characters and `%` signs.
pub proof fn lemma_url_encoded_is_safe(s: Seq<char>)
    ensures
        forall|i: int|
            0 <= i < url_encoded(s).len() ==> unreserved(#[trigger] url_encoded(s)[i])
                || url_encoded(s)[i] == '%',
    decreases s.len(),
{
    if s.len() > 0 {
        lemma_url_encoded_is_safe(s.drop_last());
        let c = s.last();
        let prev = url_encoded(s.drop_last());
        let all = url_encoded(s);
        if !unreserved(c) {
            lemma_percent_bytes_safe(encode_utf8(seq![c]));
        }
        assert forall|i: int| 0 <= i < all.len() implies unreserved(#[trigger] all[i]) || all[i]
            == '%' by {
            if i < prev.len() {
                assert(all[i] == prev[i]);
            }
        }
    }
}

/// Text made only of unreserved characters encodes to itself.
pub proof fn lemma_url_encoded_keeps_unreserved(s: Seq<char>)
    requires
        forall|i: int| 0 <= i < s.len() ==> unreserved(#[trigger] s[i]),
    ensures
        url_encoded(s) == s,
    decreases s.len(),
{
    if s.len() > 0 {
        let t = s.drop_last();
        assert forall|i: int| 0 <= i < t.len() implies unreserved(#[trigger] t[i]) by {
            assert(t[i] == s[i]);
        }
        lemma_url_encoded_keeps_unreserved(t);
        assert(unreserved(s[s.len() - 1]));
        assert(t + seq![s.last()] =~= s);
    }
}

} // verus!
