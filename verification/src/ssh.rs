//! The shared SSH layer of the SFTP, SCP and rsync backends: host-key
//! trust on first use, shell quoting, the remote commands the exec-based
//! backends run, and how their output and exit codes are read.

use vstd::prelude::*;

use crate::error::{string_from, FpError, FpErrorView};
use crate::text::{
    chars_between, same_chars, chars_of, contains_exec, contains_seq, first_index_of, has_prefix, lemma_first_index_of,
    parse_u64_range, parse_u64_spec, push_char, push_range, push_str, text_of_bytes, trim_ws,
    trim_ws_bounds, utf8_lossy,
};

verus! {

pub enum SshAuth {
    Password(String),
    KeyFile {
        path: String,
        passphrase: Option<String>,
    },
}

pub struct SshConfig {
    pub host: String,
    pub port: u16,
    pub user: String,
    pub auth: SshAuth,
    /// The host key (OpenSSH format) stored from an earlier connection;
    /// `None` means trust on first use: the key is accepted and reported
    /// back so the application can store it.
    pub expected_host_key: Option<String>,
}

// ---------------------------------------------------------------------
// Shell quoting
// ---------------------------------------------------------------------

/// How one char appears inside single quotes: a quote closes the quoted
/// part, is escaped, and reopens it.
pub open spec fn quote_piece(c: char) -> Seq<char> {
    if c == '\'' {
        seq!['\'', '\\', '\'', '\'']
    } else {
        seq![c]
    }
}

pub open spec fn escape_quotes(s: Seq<char>) -> Seq<char>
    decreases s.len(),
{
    if s.len() == 0 {
        Seq::empty()
    } else {
        escape_quotes(s.drop_last()) + quote_piece(s.last())
    }
}

/// `'...'` around `s`, with each `'` written as `'\''`.
pub open spec fn shell_quote_spec(s: Seq<char>) -> Seq<char> {
    seq!['\''] + escape_quotes(s) + seq!['\'']
}

/// Quotes `s` for a POSIX shell: `'a'\''b'`.
pub fn shell_quote(s: &str) -> (r: String)
    ensures
        r@ == shell_quote_spec(s@),
{
    let v = chars_of(s);
    let mut out = String::new();
    push_char(&mut out, '\'');
    let mut i: usize = 0;
    while i < v.len()
        invariant
            i <= v@.len(),
            v@ == s@,
            out@ == seq!['\''] + escape_quotes(v@.take(i as int)),
        decreases v@.len() - i,
    {
        let c = v[i];
        if c == '\'' {
            push_char(&mut out, '\'');
            push_char(&mut out, '\\');
            push_char(&mut out, '\'');
            push_char(&mut out, '\'');
        } else {
            push_char(&mut out, c);
        }
        proof {
            let t = v@.take(i + 1);
            assert(t.drop_last() =~= v@.take(i as int));
            assert(t.last() == c);
            assert(out@ =~= seq!['\''] + escape_quotes(t));
        }
        i = i + 1;
    }
    push_char(&mut out, '\'');
    proof {
        assert(v@.take(v@.len() as int) =~= s@);
        assert(out@ =~= shell_quote_spec(s@));
    }
    out
}

/// How a POSIX shell reads a word made of single-quoted parts and
/// backslash-escaped chars (`None` for anything else).
pub open spec fn shell_read(s: Seq<char>) -> Option<Seq<char>>
    decreases s.len(),
{
    if s.len() == 0 {
        Some(Seq::empty())
    } else if s[0] == '\'' {
        match first_index_of(s.drop_first(), '\'') {
            Some(j) => if 0 <= j && j + 2 <= s.len() {
                match shell_read(s.skip(j + 2)) {
                    Some(rest) => Some(s.subrange(1, j + 1) + rest),
                    None => None,
                }
            } else {
                None
            },
            None => None,
        }
    } else if s[0] == '\\' && s.len() >= 2 {
        match shell_read(s.skip(2)) {
            Some(rest) => Some(seq![s[1]] + rest),
            None => None,
        }
    } else {
        None
    }
}

pub proof fn lemma_escape_concat(a: Seq<char>, b: Seq<char>)
    ensures
        escape_quotes(a + b) == escape_quotes(a) + escape_quotes(b),
    decreases b.len(),
{
    if b.len() == 0 {
        assert(a + b =~= a);
        assert(escape_quotes(a) + escape_quotes(b) =~= escape_quotes(a));
    } else {
        lemma_escape_concat(a, b.drop_last());
        assert((a + b).drop_last() =~= a + b.drop_last());
        assert((a + b).last() == b.last());
        assert(escape_quotes(a + b) =~= escape_quotes(a) + escape_quotes(b));
    }
}

proof fn lemma_escape_front(x: Seq<char>)
    requires
        x.len() > 0,
    ensures
        escape_quotes(x) == quote_piece(x[0]) + escape_quotes(x.drop_first()),
{
    let one = seq![x[0]];
    assert(one + x.drop_first() =~= x);
    lemma_escape_concat(one, x.drop_first());
    assert(one.drop_last() =~= Seq::<char>::empty());
    assert(one.last() == x[0]);
    assert(escape_quotes(Seq::<char>::empty()) == Seq::<char>::empty());
    assert(escape_quotes(one) == escape_quotes(one.drop_last()) + quote_piece(one.last()));
    assert(escape_quotes(one) =~= quote_piece(x[0]));
}

proof fn lemma_first_quote(a: Seq<char>, rest: Seq<char>)
    requires
        forall|i: int| 0 <= i < a.len() ==> a[i] != '\'',
    ensures
        first_index_of(a + seq!['\''] + rest, '\'') == Some(a.len() as int),
{
    let s = a + seq!['\''] + rest;
    lemma_first_index_of(s, '\'');
    assert(s[a.len() as int] == '\'');
    match first_index_of(s, '\'') {
        Some(i) => {
            if i < a.len() {
                assert(s[i] == a[i]);
            }
        },
        None => {},
    }
}

proof fn lemma_read_quoted(a: Seq<char>, x: Seq<char>)
    requires
        forall|i: int| 0 <= i < a.len() ==> a[i] != '\'',
    ensures
        shell_read(seq!['\''] + a + escape_quotes(x) + seq!['\'']) == Some(a + x),
    decreases x.len(),
{
    let s = seq!['\''] + a + escape_quotes(x) + seq!['\''];
    if x.len() == 0 {
        assert(escape_quotes(x) =~= Seq::<char>::empty());
        assert(s.drop_first() =~= a + seq!['\''] + Seq::<char>::empty());
        lemma_first_quote(a, Seq::<char>::empty());
        assert(s.skip(a.len() as int + 2) =~= Seq::<char>::empty());
        assert(s.subrange(1, a.len() as int + 1) =~= a);
        assert(a + x =~= a);
        assert(shell_read(Seq::<char>::empty()) == Some(Seq::<char>::empty()));
        assert(s[0] == '\'');
        assert(first_index_of(s.drop_first(), '\'') == Some(a.len() as int));
        assert(s.subrange(1, a.len() as int + 1) + Seq::<char>::empty() =~= a);
        assert(shell_read(s) == Some(a + x));
    } else {
        lemma_escape_front(x);
        let x0 = x[0];
        let xr = x.drop_first();
        if x0 != '\'' {
            let a2 = a.push(x0);
            assert forall|i: int| 0 <= i < a2.len() implies a2[i] != '\'' by {
                if i < a.len() {
                    assert(a2[i] == a[i]);
                }
            }
            lemma_read_quoted(a2, xr);
            assert(s =~= seq!['\''] + a2 + escape_quotes(xr) + seq!['\'']);
            assert(a2 + xr =~= a + x);
            assert(shell_read(s) == Some(a + x));
        } else {
            let tail = seq!['\\', '\'', '\''] + escape_quotes(xr) + seq!['\''];
            assert(s.drop_first() =~= a + seq!['\''] + tail);
            lemma_first_quote(a, tail);
            let j = a.len() as int;
            assert(s.subrange(1, j + 1) =~= a);
            let rest = s.skip(j + 2);
            assert(rest =~= seq!['\\', '\''] + (seq!['\''] + Seq::<char>::empty() + escape_quotes(xr) + seq!['\'']));
            lemma_read_quoted(Seq::<char>::empty(), xr);
            assert(rest.skip(2) =~= seq!['\''] + Seq::<char>::empty() + escape_quotes(xr) + seq!['\'']);
            assert(Seq::<char>::empty() + xr =~= xr);
            assert(shell_read(rest) == Some(seq!['\''] + xr));
            assert(x =~= seq!['\''] + xr);
            assert(a + (seq!['\''] + xr) =~= a + x);
            assert(s[0] == '\'');
            assert(s.skip(j + 2) == rest);
            assert(shell_read(s) == Some(s.subrange(1, j + 1) + (seq!['\''] + xr)));
            assert(shell_read(s) == Some(a + x));
        }
    }
}

/// Quoting is exact: a POSIX shell reads the quoted word back as exactly
/// the string that was quoted, whatever it contains.
pub proof fn law_shell_quote_roundtrip(s: Seq<char>)
    ensures
        shell_read(shell_quote_spec(s)) == Some(s),
{
    lemma_read_quoted(Seq::empty(), s);
    assert(seq!['\''] + Seq::<char>::empty() + escape_quotes(s) + seq!['\''] =~= shell_quote_spec(s));
    assert(Seq::<char>::empty() + s =~= s);
}

// ---------------------------------------------------------------------
// Remote commands
// ---------------------------------------------------------------------

pub open spec fn list_command_spec(path: Seq<char>) -> Seq<char> {
    "LC_ALL=C ls -la "@ + shell_quote_spec(path)
}

pub open spec fn mkdir_command_spec(path: Seq<char>) -> Seq<char> {
    "mkdir "@ + shell_quote_spec(path)
}

pub open spec fn remove_command_spec(path: Seq<char>, is_dir: bool) -> Seq<char> {
    if is_dir {
        "rm -r "@ + shell_quote_spec(path)
    } else {
        "rm "@ + shell_quote_spec(path)
    }
}

pub open spec fn rename_command_spec(from: Seq<char>, to: Seq<char>) -> Seq<char> {
    "mv "@ + shell_quote_spec(from) + seq![' '] + shell_quote_spec(to)
}

pub open spec fn size_command_spec(path: Seq<char>) -> Seq<char> {
    "wc -c < "@ + shell_quote_spec(path)
}

/// `prefix` followed by the quoted `path`.
fn command_with(prefix: &str, path: &str) -> (r: String)
    ensures
        r@ == prefix@ + shell_quote_spec(path@),
{
    let mut cmd = string_from(prefix);
    let q = shell_quote(path);
    push_str(&mut cmd, q.as_str());
    cmd
}

/// The listing command for `path` (`ls -la` in the C locale).
pub fn list_command(path: &str) -> (r: String)
    ensures
        r@ == list_command_spec(path@),
{
    command_with("LC_ALL=C ls -la ", path)
}

pub fn mkdir_command(path: &str) -> (r: String)
    ensures
        r@ == mkdir_command_spec(path@),
{
    command_with("mkdir ", path)
}

/// Removal of a file, or of a directory with its contents.
pub fn remove_command(path: &str, is_dir: bool) -> (r: String)
    ensures
        r@ == remove_command_spec(path@, is_dir),
{
    if is_dir {
        command_with("rm -r ", path)
    } else {
        command_with("rm ", path)
    }
}

pub fn rename_command(from: &str, to: &str) -> (r: String)
    ensures
        r@ == rename_command_spec(from@, to@),
{
    let mut cmd = command_with("mv ", from);
    push_char(&mut cmd, ' ');
    let q = shell_quote(to);
    push_str(&mut cmd, q.as_str());
    cmd
}

/// The size query for a remote file (`wc -c`).
pub fn size_command(path: &str) -> (r: String)
    ensures
        r@ == size_command_spec(path@),
{
    command_with("wc -c < ", path)
}

// ---------------------------------------------------------------------
// Reading command results
// ---------------------------------------------------------------------

/// The error a failed command on `path` reports, by its stderr.
pub open spec fn exec_error(path: Seq<char>, stderr: Seq<char>) -> FpErrorView {
    let msg = trim_ws(stderr);
    if contains_seq(msg, "No such file or directory"@) {
        FpErrorView::NotFound(path)
    } else if contains_seq(msg, "Permission denied"@) || contains_seq(msg, "Operation not permitted"@) {
        FpErrorView::Denied(path)
    } else {
        FpErrorView::Protocol(path + ": "@ + msg)
    }
}

/// Maps typical shell error messages onto the error kinds.
pub fn map_exec(path: &str, stderr: &str) -> (r: FpError)
    ensures
        r@ == exec_error(path@, stderr@),
{
    let v = chars_of(stderr);
    let (a, b) = trim_ws_bounds(&v, 0, v.len());
    assert(v@.subrange(0, v@.len() as int) =~= stderr@);
    let mut msg: Vec<char> = Vec::new();
    let mut i = a;
    while i < b
        invariant
            a <= i <= b <= v@.len(),
            msg@ == v@.subrange(a as int, i as int),
        decreases b - i,
    {
        msg.push(v[i]);
        assert(v@.subrange(a as int, i + 1) =~= v@.subrange(a as int, i as int).push(v@[i as int]));
        i = i + 1;
    }
    let missing = chars_of("No such file or directory");
    let denied = chars_of("Permission denied");
    let not_permitted = chars_of("Operation not permitted");
    if contains_exec(&msg, &missing) {
        FpError::NotFound(string_from(path))
    } else if contains_exec(&msg, &denied) || contains_exec(&msg, &not_permitted) {
        FpError::Denied(string_from(path))
    } else {
        let mut text = string_from(path);
        push_str(&mut text, ": ");
        push_range(&mut text, &v, a, b);
        FpError::Protocol(text)
    }
}

/// The result of a command that must succeed: its stdout for exit code 0,
/// the mapped stderr otherwise.
pub fn check_exit(stdout: Vec<u8>, stderr: &str, exit: u32, path: &str) -> (r: Result<Vec<u8>, FpError>)
    ensures
        match r {
            Ok(out) => exit == 0 && out@ == stdout@,
            Err(e) => exit != 0 && e@ == exec_error(path@, stderr@),
        },
{
    if exit != 0 {
        Err(map_exec(path, stderr))
    } else {
        Ok(stdout)
    }
}

/// The start directory from the output of `pwd`: the trimmed path when it is
/// absolute, the root otherwise.
pub open spec fn home_dir_spec(out: Seq<u8>) -> Seq<char> {
    let dir = trim_ws(utf8_lossy(out));
    if dir.len() > 0 && dir[0] == '/' {
        dir
    } else {
        seq!['/']
    }
}

pub fn home_dir(out: &[u8]) -> (r: String)
    ensures
        r@ == home_dir_spec(out@),
{
    let text = text_of_bytes(out);
    let v = chars_of(text.as_str());
    let (a, b) = trim_ws_bounds(&v, 0, v.len());
    assert(v@.subrange(0, v@.len() as int) =~= text@);
    let mut dir = String::new();
    if a < b && v[a] == '/' {
        push_range(&mut dir, &v, a, b);
    } else {
        push_char(&mut dir, '/');
        assert(dir@ =~= seq!['/']);
    }
    dir
}

/// The size printed by `wc -c`, or a protocol error for unreadable output.
pub open spec fn file_size_spec(out: Seq<u8>, path: Seq<char>) -> Result<u64, FpErrorView> {
    match parse_u64_spec(trim_ws(utf8_lossy(out))) {
        Some(n) => Ok(n),
        None => Err(FpErrorView::Protocol(path + ": unlesbare Dateigröße"@)),
    }
}

pub fn parse_file_size(out: &[u8], path: &str) -> (r: Result<u64, FpError>)
    ensures
        match r {
            Ok(n) => file_size_spec(out@, path@) == Ok::<u64, FpErrorView>(n),
            Err(e) => file_size_spec(out@, path@) == Err::<u64, FpErrorView>(e@),
        },
{
    let text = text_of_bytes(out);
    let v = chars_of(text.as_str());
    let (a, b) = trim_ws_bounds(&v, 0, v.len());
    assert(v@.subrange(0, v@.len() as int) =~= text@);
    match parse_u64_range(&v, a, b) {
        Some(n) => Ok(n),
        None => {
            let mut text = string_from(path);
            push_str(&mut text, ": unlesbare Dateigröße");
            Err(FpError::Protocol(text))
        },
    }
}

/// Collects what a remote command sends back: stdout, stderr (extended
/// data of type 1) and the exit status (0 until one arrives).
pub struct ExecOutput {
    pub stdout: Vec<u8>,
    pub stderr: Vec<u8>,
    pub exit: u32,
}

impl ExecOutput {
    pub fn new() -> (r: ExecOutput)
        ensures
            r.stdout@ == Seq::<u8>::empty(),
            r.stderr@ == Seq::<u8>::empty(),
            r.exit == 0,
    {
        ExecOutput { stdout: Vec::new(), stderr: Vec::new(), exit: 0 }
    }

    /// Data on the channel itself is stdout.
    pub fn data(&mut self, data: &[u8])
        ensures
            final(self).stdout@ == old(self).stdout@ + data@,
            final(self).stderr@ == old(self).stderr@,
            final(self).exit == old(self).exit,
    {
        self.stdout.extend_from_slice(data);
    }

    /// Extended data of type 1 is stderr; other types are dropped.
    pub fn extended(&mut self, ext: u32, data: &[u8])
        ensures
            final(self).stdout@ == old(self).stdout@,
            final(self).stderr@ == (if ext == 1 { old(self).stderr@ + data@ } else { old(self).stderr@ }),
            final(self).exit == old(self).exit,
    {
        if ext == 1 {
            self.stderr.extend_from_slice(data);
        }
    }

    pub fn exit_status(&mut self, code: u32)
        ensures
            final(self).stdout@ == old(self).stdout@,
            final(self).stderr@ == old(self).stderr@,
            final(self).exit == code,
    {
        self.exit = code;
    }

    /// stdout, stderr as text, and the exit status.
    pub fn finish(self) -> (r: (Vec<u8>, String, u32))
        ensures
            r.0@ == self.stdout@,
            r.1@ == utf8_lossy(self.stderr@),
            r.2 == self.exit,
    {
        let text = text_of_bytes(self.stderr.as_slice());
        (self.stdout, text, self.exit)
    }
}

// ---------------------------------------------------------------------
// Host keys and connection errors
// ---------------------------------------------------------------------

/// Trust on first use: without a stored key any server key is accepted (and
/// remembered by the caller); with one, only the same key (whitespace at
/// the ends aside).
pub open spec fn host_key_accepted_spec(expected: Option<Seq<char>>, seen: Seq<char>) -> bool {
    match expected {
        Some(k) => trim_ws(k) == trim_ws(seen),
        None => true,
    }
}

pub fn host_key_accepted(expected: Option<&str>, seen: &str) -> (r: bool)
    ensures
        r == host_key_accepted_spec(
            match expected {
                Some(k) => Some(k@),
                None => None,
            },
            seen@,
        ),
{
    match expected {
        Some(k) => {
            let a = chars_of(k);
            let b = chars_of(seen);
            let (a0, a1) = trim_ws_bounds(&a, 0, a.len());
            let (b0, b1) = trim_ws_bounds(&b, 0, b.len());
            assert(a@.subrange(0, a@.len() as int) =~= k@);
            assert(b@.subrange(0, b@.len() as int) =~= seen@);
            let ta = chars_between(&a, a0, a1);
            let tb = chars_between(&b, b0, b1);
            same_chars(&ta, &tb)
        },
        None => true,
    }
}

/// Reconnecting with the key remembered on first use is accepted, and a
/// stored key accepts no server key that differs from it.
pub proof fn law_trust_on_first_use(seen: Seq<char>, other: Seq<char>)
    ensures
        host_key_accepted_spec(None, seen),
        host_key_accepted_spec(Some(seen), seen),
        trim_ws(other) != trim_ws(seen) ==> !host_key_accepted_spec(Some(seen), other),
{
}

/// The error for a server whose host key differs from the stored one.
pub fn host_key_mismatch(host: &str) -> (r: FpError)
    ensures
        r@ == FpErrorView::Connect("Host-Key von "@ + host@ + " stimmt nicht mit dem gespeicherten überein"@),
{
    let mut text = string_from("Host-Key von ");
    push_str(&mut text, host);
    push_str(&mut text, " stimmt nicht mit dem gespeicherten überein");
    FpError::Connect(text)
}

/// The error for a login the server refused.
pub fn login_refused(user: &str) -> (r: FpError)
    ensures
        r@ == FpErrorView::Auth("Server hat die Anmeldung als "@ + user@ + " abgelehnt"@),
{
    let mut text = string_from("Server hat die Anmeldung als ");
    push_str(&mut text, user);
    push_str(&mut text, " abgelehnt");
    FpError::Auth(text)
}

/// The error for a key file that could not be loaded.
pub fn key_file_error(detail: &str) -> (r: FpError)
    ensures
        r@ == FpErrorView::Auth("Schlüsseldatei: "@ + detail@),
{
    let mut text = string_from("Schlüsseldatei: ");
    push_str(&mut text, detail);
    FpError::Auth(text)
}

} // verus!
