//! Remote command helpers: shell quoting, command-failure messages, the
//! SSH key requirement, record identifiers and the command runner's retry
//! and deadline decisions.
use vstd::prelude::*;
use crate::text::{
    append, append_str, chars_of, dec, fmt_u64, fmt_i64, dec_int, is_ws, join, join_chars,
    lowercase_text, pieces_view, push_char, starts_with, starts_with_str, string_of, to_lowercase,
    trim, trim_chars, trim_str,
};

verus! {

/// Per-command deadline for quick status reads, in seconds.
pub const REMOTE_READ_COMMAND_TIMEOUT_SECONDS: u64 = 15;

/// Per-command deadline for lifecycle actions, in seconds.
pub const REMOTE_ACTION_COMMAND_TIMEOUT_SECONDS: u64 = 60;

/// Each `'` becomes `'"'"'` (close, quoted quote, reopen).
pub open spec fn shell_escape(s: Seq<char>) -> Seq<char>
    decreases s.len(),
{
    if s.len() == 0 {
        seq![]
    } else if s.last() == '\'' {
        shell_escape(s.drop_last()) + "'\"'\"'"@
    } else {
        shell_escape(s.drop_last()).push(s.last())
    }
}

/// The value as one single-quoted shell word.
pub open spec fn single_quoted(s: Seq<char>) -> Seq<char> {
    "'"@ + shell_escape(s) + "'"@
}

/// Quotes a value as a single POSIX shell word.
pub fn sh_single_quoted(value: &str) -> (r: String)
    ensures
        r@ == single_quoted(value@),
{
    let s = chars_of(value);
    let mut out = chars_of("'");
    let ghost start = out@;
    let mut i: usize = 0;
    assert(s@.take(0) =~= Seq::<char>::empty());
    assert(out@ =~= start + shell_escape(s@.take(0)));
    while i < s.len()
        invariant
            i <= s.len(),
            out@ == start + shell_escape(s@.take(i as int)),
        decreases s.len() - i,
    {
        assert(s@.take(i + 1).drop_last() == s@.take(i as int));
        assert(s@.take(i + 1).last() == s@[i as int]);
        let ghost before = out@;
        if s[i] == '\'' {
            append_str(&mut out, "'\"'\"'");
            assert(out@ =~= start + shell_escape(s@.take(i + 1)));
        } else {
            out.push(s[i]);
            assert(out@ =~= start + shell_escape(s@.take(i + 1)));
        }
        i += 1;
    }
    assert(s@.take(s.len() as int) == s@);
    append_str(&mut out, "'");
    assert(out@ =~= single_quoted(value@));
    string_of(&out)
}

/// A failed command: its message, captured output and exit code.
pub struct CommandFailure {
    pub message: String,
    pub stdout: String,
    pub stderr: String,
    pub code: Option<i32>,
}

/// The message, then stderr and stdout when they hold more than
/// whitespace, one per line.
pub open spec fn failure_message(message: Seq<char>, stdout: Seq<char>, stderr: Seq<char>) -> Seq<char> {
    let p0: Seq<Seq<char>> = seq![message];
    let p1 = if trim(stderr).len() > 0 { p0.push(stderr) } else { p0 };
    let p2 = if trim(stdout).len() > 0 { p1.push(stdout) } else { p1 };
    join(p2, "\n"@)
}

/// The text shown for a failed command.
pub fn command_error_message(err: CommandFailure) -> (r: String)
    ensures
        r@ == failure_message(err.message@, err.stdout@, err.stderr@),
{
    let mut parts: Vec<Vec<char>> = Vec::new();
    parts.push(chars_of(err.message.as_str()));
    let ghost p0 = pieces_view(parts@);
    assert(p0 =~= seq![err.message@]);
    let se = trim_str(err.stderr.as_str());
    if se.len() > 0 {
        parts.push(chars_of(err.stderr.as_str()));
    }
    let ghost p1 = pieces_view(parts@);
    assert(p1 =~= (if trim(err.stderr@).len() > 0 { p0.push(err.stderr@) } else { p0 }));
    let so = trim_str(err.stdout.as_str());
    if so.len() > 0 {
        parts.push(chars_of(err.stdout.as_str()));
    }
    assert(pieces_view(parts@) =~= (if trim(err.stdout@).len() > 0 {
        p1.push(err.stdout@)
    } else {
        p1
    }));
    let r = join_chars(&parts, &chars_of("\n"));
    string_of(&r)
}

/// Remote servers need an SSH key: the trimmed path, when not empty.
pub open spec fn key_path_choice(key_path: Option<Seq<char>>) -> Result<Seq<char>, Seq<char>> {
    match key_path {
        Some(k) => if trim(k).len() > 0 {
            Ok(trim(k))
        } else {
            Err("SSH private key is required for remote Ubuntu servers."@)
        },
        None => Err("SSH private key is required for remote Ubuntu servers."@),
    }
}

pub open spec fn opt_text(o: Option<String>) -> Option<Seq<char>> {
    match o {
        Some(s) => Some(s@),
        None => None,
    }
}

/// The SSH key path a remote runner is built with.
pub fn remote_key_path(key_path: Option<String>) -> (r: Result<String, String>)
    ensures
        match key_path_choice(opt_text(key_path)) {
            Ok(k) => r matches Ok(s) && s@ == k,
            Err(e) => r matches Err(s) && s@ == e,
        },
{
    let missing = "SSH private key is required for remote Ubuntu servers.";
    match key_path {
        Some(k) => {
            let t = trim_str(k.as_str());
            if t.len() > 0 {
                Ok(string_of(&t))
            } else {
                Err(string_of(&chars_of(missing)))
            }
        },
        None => Err(string_of(&chars_of(missing))),
    }
}

/// A runner's deadline in seconds: at least one.
pub fn command_timeout_seconds(seconds: u64) -> (r: u64)
    ensures
        r == if seconds < 1 { 1 } else { seconds },
{
    if seconds < 1 {
        1
    } else {
        seconds
    }
}

/// The identifier of a remote server record: `ubuntu:<host>:<key path>`,
/// both trimmed and lowercased.
pub open spec fn record_id(host: Seq<char>, key_path: Option<Seq<char>>) -> Seq<char> {
    let k = match key_path {
        Some(p) => p,
        None => seq![],
    };
    "ubuntu:"@ + lowercase_text(trim(host)) + ":"@ + lowercase_text(trim(k))
}

/// The record identifier for a host and key.
pub fn remote_record_id(server_type: &str, host: &str, key_path: Option<&str>) -> (r: String)
    ensures
        r@ == record_id(
            host@,
            match key_path {
                Some(k) => Some(k@),
                None => None,
            },
        ),
{
    let h = string_of(&trim_str(host));
    let k = match key_path {
        Some(p) => string_of(&trim_str(p)),
        None => String::new(),
    };
    let hl = to_lowercase(h.as_str());
    let kl = to_lowercase(k.as_str());
    let mut v = chars_of("ubuntu:");
    append_str(&mut v, hl.as_str());
    append_str(&mut v, ":");
    append_str(&mut v, kl.as_str());
    proof {
        let kp = match key_path {
            Some(p) => p@,
            None => Seq::<char>::empty(),
        };
        assert(trim(Seq::<char>::empty()) =~= Seq::<char>::empty());
        assert(k@ == trim(kp));
    }
    string_of(&v)
}

// ---------------------------------------------------------------------------
// Command runner decisions
// ---------------------------------------------------------------------------

/// A runner's deadline when none is set: fifteen minutes.
pub const DEFAULT_COMMAND_TIMEOUT_SECONDS: u64 = 900;

/// How a deadline failure's message begins.
pub const COMMAND_TIMEOUT_PREFIX: &'static str = "ssh command timed out";

/// A failure the remote command itself reported (an exit code or some
/// output), as opposed to a broken connection.
pub open spec fn remote_failure(code: Option<i32>, stdout: Seq<char>, stderr: Seq<char>) -> bool {
    code is Some || stdout.len() > 0 || stderr.len() > 0
}

/// Whether a failure came from the remote command; such a failure is
/// returned as it is, any other one reconnects and runs the command again.
pub fn is_remote_command_error(err: &CommandFailure) -> (r: bool)
    ensures
        r == remote_failure(err.code, err.stdout@, err.stderr@),
{
    err.code.is_some() || chars_of(err.stdout.as_str()).len() > 0 || chars_of(
        err.stderr.as_str(),
    ).len() > 0
}

/// The failure message of a command that ran past its deadline.
pub open spec fn timeout_message(destination: Seq<char>, seconds: u64) -> Seq<char> {
    COMMAND_TIMEOUT_PREFIX@ + " on "@ + destination + " after "@ + dec(seconds as nat) + "s"@
}

/// The failure of a command that ran past its deadline.
pub fn command_timeout_failure(destination: &str, seconds: u64) -> (r: CommandFailure)
    ensures
        r.message@ == timeout_message(destination@, seconds),
        r.stdout@ == Seq::<char>::empty(),
        r.stderr@ == Seq::<char>::empty(),
        r.code is None,
{
    let mut v = chars_of(COMMAND_TIMEOUT_PREFIX);
    append_str(&mut v, " on ");
    append_str(&mut v, destination);
    append_str(&mut v, " after ");
    append(&mut v, &fmt_u64(seconds));
    append_str(&mut v, "s");
    let empty: Vec<char> = Vec::new();
    CommandFailure {
        message: string_of(&v),
        stdout: string_of(&empty),
        stderr: string_of(&empty),
        code: None,
    }
}

/// Whether a failure was a deadline; the cached session is then dropped.
pub fn is_command_timeout(err: &CommandFailure) -> (r: bool)
    ensures
        r == starts_with(err.message@, COMMAND_TIMEOUT_PREFIX@),
{
    starts_with_str(&chars_of(err.message.as_str()), COMMAND_TIMEOUT_PREFIX)
}

// ---------------------------------------------------------------------------
// Reading a quoted word back
// ---------------------------------------------------------------------------

/// The position of the first `'` at or after `i`.
pub open spec fn quote_end(w: Seq<char>, i: int) -> Option<int>
    decreases w.len() - i,
{
    if i < 0 || i >= w.len() {
        None
    } else if w[i] == '\'' {
        Some(i)
    } else {
        quote_end(w, i + 1)
    }
}

/// What a POSIX shell reads from a word made of single-quoted runs (taken
/// literally) and double-quoted single quotes (`"'"`); `None` for a word of
/// any other shape.
pub open spec fn read_quoted_word(w: Seq<char>) -> Option<Seq<char>>
    decreases w.len(),
{
    if w.len() == 0 {
        Some(seq![])
    } else if w[0] == '\'' {
        match quote_end(w, 1) {
            Some(j) => if 1 <= j < w.len() {
                match read_quoted_word(w.skip(j + 1)) {
                    Some(rest) => Some(w.subrange(1, j) + rest),
                    None => None,
                }
            } else {
                None
            },
            None => None,
        }
    } else if w.len() >= 3 && w[0] == '"' && w[1] == '\'' && w[2] == '"' {
        match read_quoted_word(w.skip(3)) {
            Some(rest) => Some(seq!['\''] + rest),
            None => None,
        }
    } else {
        None
    }
}

pub open spec fn quote_free(p: Seq<char>) -> bool {
    forall|k: int| 0 <= k < p.len() ==> p[k] != '\''
}

proof fn lemma_shell_escape_concat(a: Seq<char>, b: Seq<char>)
    ensures
        shell_escape(a + b) == shell_escape(a) + shell_escape(b),
    decreases b.len(),
{
    if b.len() == 0 {
        assert(a + b =~= a);
        assert(shell_escape(b) =~= Seq::<char>::empty());
        assert(shell_escape(a) + shell_escape(b) =~= shell_escape(a));
    } else {
        lemma_shell_escape_concat(a, b.drop_last());
        assert((a + b).drop_last() =~= a + b.drop_last());
        assert((a + b).last() == b.last());
        if b.last() == '\'' {
            assert(shell_escape(a) + shell_escape(b) =~= shell_escape(a) + shell_escape(
                b.drop_last(),
            ) + "'\"'\"'"@);
        } else {
            assert(shell_escape(a) + shell_escape(b) =~= (shell_escape(a) + shell_escape(
                b.drop_last(),
            )).push(b.last()));
        }
    }
}

proof fn lemma_quote_end_after(w: Seq<char>, i: int, j: int)
    requires
        0 <= i <= j < w.len(),
        forall|k: int| i <= k < j ==> w[k] != '\'',
        w[j] == '\'',
    ensures
        quote_end(w, i) == Some(j),
    decreases j - i,
{
    if i < j {
        lemma_quote_end_after(w, i + 1, j);
    }
}

proof fn lemma_read_escaped(p: Seq<char>, s: Seq<char>)
    requires
        quote_free(p),
    ensures
        read_quoted_word("'"@ + p + shell_escape(s) + "'"@) == Some(p + s),
    decreases s.len(),
{
    reveal_strlit("'");
    reveal_strlit("'\"'\"'");
    let q: Seq<char> = "'"@;
    if s.len() == 0 {
        assert(shell_escape(s) =~= Seq::<char>::empty());
        let w = q + p + shell_escape(s) + q;
        let n: int = p.len() as int;
        assert(w =~= seq!['\''] + p + seq!['\'']);
        assert forall|k: int| 1 <= k < n + 1 implies w[k] != '\'' by {
            assert(w[k] == p[k - 1]);
        }
        lemma_quote_end_after(w, 1, n + 1);
        assert(w.subrange(1, n + 1) =~= p);
        assert(w.skip(n + 2) =~= Seq::<char>::empty());
        assert(read_quoted_word(w.skip(n + 2)) == Some(Seq::<char>::empty()));
        assert(read_quoted_word(w) == Some(p + Seq::<char>::empty()));
        assert(p + s =~= p);
        assert(p + Seq::<char>::empty() =~= p);
    } else {
        let c = s[0];
        let t = s.drop_first();
        assert(s =~= seq![c] + t);
        lemma_shell_escape_concat(seq![c], t);
        assert(seq![c].drop_last() =~= Seq::<char>::empty());
        assert(shell_escape(Seq::<char>::empty()) =~= Seq::<char>::empty());
        if c != '\'' {
            assert(shell_escape(seq![c]) =~= seq![c]);
            let p2 = p.push(c);
            assert(quote_free(p2));
            lemma_read_escaped(p2, t);
            assert(q + p + shell_escape(s) + q =~= q + p2 + shell_escape(t) + q);
            assert(p2 + t =~= p + s);
        } else {
            assert(shell_escape(seq![c]) =~= "'\"'\"'"@);
            let w = q + p + shell_escape(s) + q;
            let n: int = p.len() as int;
            assert(w =~= seq!['\''] + p + seq!['\'', '"', '\'', '"', '\''] + shell_escape(t) + seq![
                '\'',
            ]);
            assert forall|k: int| 1 <= k < n + 1 implies w[k] != '\'' by {
                assert(w[k] == p[k - 1]);
            }
            lemma_quote_end_after(w, 1, n + 1);
            assert(w.subrange(1, n + 1) =~= p);
            let after = w.skip(n + 2);
            assert(after =~= seq!['"', '\'', '"'] + (q + shell_escape(t) + q));
            lemma_read_escaped(Seq::<char>::empty(), t);
            assert(q + Seq::<char>::empty() + shell_escape(t) + q =~= q + shell_escape(t) + q);
            assert(after.skip(3) =~= q + shell_escape(t) + q);
            assert(Seq::<char>::empty() + t =~= t);
            assert(read_quoted_word(after.skip(3)) == Some(t));
            assert(after.len() >= 3 && after[0] == '"' && after[1] == '\'' && after[2] == '"');
            assert(read_quoted_word(after) == Some(seq!['\''] + t));
            assert(read_quoted_word(w) == Some(p + (seq!['\''] + t)));
            assert(p + (seq!['\''] + t) =~= p + s);
        }
    }
}

/// A single-quoted word reads back, in the shell, as exactly the value
/// that was quoted.
pub proof fn lemma_single_quoted_reads_back(s: Seq<char>)
    ensures
        read_quoted_word(single_quoted(s)) == Some(s),
{
    lemma_read_escaped(Seq::<char>::empty(), s);
    assert("'"@ + Seq::<char>::empty() + shell_escape(s) + "'"@ =~= single_quoted(s));
    assert(Seq::<char>::empty() + s =~= s);
}

} // verus!
