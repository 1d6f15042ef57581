//! rsync over SSH: directory operations run as shell commands over the
//! shared SSH session; transfers are made by the local `rsync` program with
//! OpenSSH as transport. This needs a key file (no password prompts in
//! batch mode), and progress is read from rsync's `--progress` output.

use vstd::prelude::*;

use crate::error::{string_from, FpError, FpErrorView};
use crate::ssh::{shell_quote, shell_quote_spec, SshAuth};
use crate::text::{
    chars_of, contains_exec, contains_seq, decimal, is_digit, nth_word, nth_word_bounds,
    parse_u64_range, parse_u64_spec, push_char, push_decimal, push_range, push_str, text_of_bytes,
    trim_ws, trim_ws_bounds, utf8_lossy,
};

verus! {

/// The key file the transfers use; a password login cannot drive rsync.
pub fn rsync_key_file(auth: &SshAuth) -> (r: Result<String, FpError>)
    ensures
        match auth {
            SshAuth::KeyFile { path, .. } => r matches Ok(p) && p@ == path@,
            SshAuth::Password(_) => r matches Err(e) && e@ == FpErrorView::Auth(
                "rsync-Transfers laufen über das System-SSH und brauchen eine SSH-Schlüsseldatei — Passwort-Anmeldung wird hier nicht unterstützt"@,
            ),
        },
{
    match auth {
        SshAuth::KeyFile { path, .. } => Ok(string_from(path.as_str())),
        SshAuth::Password(_) => Err(
            FpError::Auth(
                string_from(
                    "rsync-Transfers laufen über das System-SSH und brauchen eine SSH-Schlüsseldatei — Passwort-Anmeldung wird hier nicht unterstützt",
                ),
            ),
        ),
    }
}

pub open spec fn ssh_transport_spec(port: u16, key_file: Seq<char>) -> Seq<char> {
    "ssh -o BatchMode=yes -o StrictHostKeyChecking=accept-new -p "@ + decimal(port as nat) + " -i "@
        + shell_quote_spec(key_file)
}

/// The transport rsync spawns: batch mode (no prompts), new host keys
/// accepted, port and key file from the profile.
pub fn ssh_transport(port: u16, key_file: &str) -> (r: String)
    ensures
        r@ == ssh_transport_spec(port, key_file@),
{
    let mut s = string_from("ssh -o BatchMode=yes -o StrictHostKeyChecking=accept-new -p ");
    push_decimal(&mut s, port as u128);
    push_str(&mut s, " -i ");
    let q = shell_quote(key_file);
    push_str(&mut s, q.as_str());
    s
}

/// `user@host:'path'` — the path goes through the remote shell, so it is
/// quoted.
pub fn remote_arg(user: &str, host: &str, remote: &str) -> (r: String)
    ensures
        r@ == user@ + seq!['@'] + host@ + seq![':'] + shell_quote_spec(remote@),
{
    let mut s = string_from(user);
    push_char(&mut s, '@');
    push_str(&mut s, host);
    push_char(&mut s, ':');
    let q = shell_quote(remote);
    push_str(&mut s, q.as_str());
    s
}

pub fn rsync_label(user: &str, host: &str) -> (r: String)
    ensures
        r@ == "rsync://"@ + user@ + seq!['@'] + host@,
{
    let mut s = string_from("rsync://");
    push_str(&mut s, user);
    push_char(&mut s, '@');
    push_str(&mut s, host);
    s
}

/// The ASCII digits of `s`, in order.
pub open spec fn ascii_digits(s: Seq<char>) -> Seq<char>
    decreases s.len(),
{
    if s.len() == 0 {
        Seq::empty()
    } else {
        let before = ascii_digits(s.drop_last());
        if is_digit(s.last()) {
            before.push(s.last())
        } else {
            before
        }
    }
}

/// The byte count on a progress line: a line with a `%` sign starts with
/// the number of bytes moved (the digits of its first word).
pub open spec fn progress_value(line: Seq<u8>) -> Option<u64> {
    let text = utf8_lossy(line);
    if contains_seq(text, seq!['%']) {
        parse_u64_spec(
            ascii_digits(
                match nth_word(text, 0) {
                    Some(w) => w,
                    None => Seq::empty(),
                },
            ),
        )
    } else {
        None
    }
}

fn progress_value_exec(line: &[u8]) -> (r: Option<u64>)
    ensures
        r == progress_value(line@),
{
    let text = text_of_bytes(line);
    let v = chars_of(text.as_str());
    let pct = vec!['%'];
    assert(pct@ =~= seq!['%']);
    if !contains_exec(&v, &pct) {
        return None;
    }
    assert(v@.skip(0) =~= v@);
    let (a, b) = match nth_word_bounds(&v, 0, 0) {
        Some((a, b)) => (a, b),
        None => (0, 0),
    };
    let mut digits: Vec<char> = Vec::new();
    let mut i = a;
    while i < b
        invariant
            a <= i <= b <= v@.len(),
            digits@ == ascii_digits(v@.subrange(a as int, i as int)),
        decreases b - i,
    {
        proof {
            let t = v@.subrange(a as int, i + 1);
            assert(t.drop_last() =~= v@.subrange(a as int, i as int));
            assert(t.last() == v@[i as int]);
        }
        if '0' <= v[i] && v[i] <= '9' {
            digits.push(v[i]);
        }
        i = i + 1;
    }
    proof {
        if a == 0 && b == 0 {
            assert(v@.subrange(0, 0) =~= Seq::<char>::empty());
        }
        assert(digits@.subrange(0, digits@.len() as int) =~= digits@);
    }
    parse_u64_range(&digits, 0, digits.len())
}

/// Splits rsync's output into lines at `\r` or `\n` and reads the progress
/// of each.
pub struct ProgressLines {
    line: Vec<u8>,
}

impl View for ProgressLines {
    type V = Seq<u8>;

    closed spec fn view(&self) -> Seq<u8> {
        self.line@
    }
}

impl ProgressLines {
    pub fn new() -> (r: ProgressLines)
        ensures
            r@ == Seq::<u8>::empty(),
    {
        ProgressLines { line: Vec::new() }
    }

    /// Takes the next output byte; at the end of a line, its byte count
    /// (if it is a progress line).
    pub fn feed(&mut self, byte: u8) -> (r: Option<u64>)
        ensures
            (byte == 13 || byte == 10) ==> r == progress_value(old(self)@) && final(self)@ == Seq::<u8>::empty(),
            !(byte == 13 || byte == 10) ==> r is None && final(self)@ == old(self)@.push(byte),
    {
        if byte == 13 || byte == 10 {
            let r = progress_value_exec(self.line.as_slice());
            self.line.clear();
            r
        } else {
            self.line.push(byte);
            None
        }
    }
}

/// Whether a byte ends an output line of rsync.
pub open spec fn ends_line(b: u8) -> bool {
    b == 13 || b == 10
}

/// The byte counts reported while `bytes` are fed to a splitter holding
/// `line` (one per completed progress line, in order).
pub open spec fn progress_reports(line: Seq<u8>, bytes: Seq<u8>) -> Seq<u64>
    decreases bytes.len(),
{
    if bytes.len() == 0 {
        Seq::empty()
    } else if ends_line(bytes[0]) {
        let here = match progress_value(line) {
            Some(n) => seq![n],
            None => Seq::empty(),
        };
        here + progress_reports(Seq::empty(), bytes.drop_first())
    } else {
        progress_reports(line.push(bytes[0]), bytes.drop_first())
    }
}

proof fn lemma_progress_line(line: Seq<u8>, bytes: Seq<u8>, end: u8, rest: Seq<u8>)
    requires
        forall|i: int| 0 <= i < bytes.len() ==> !ends_line(bytes[i]),
        ends_line(end),
    ensures
        progress_reports(line, bytes + seq![end] + rest) == (match progress_value(line + bytes) {
            Some(n) => seq![n],
            None => Seq::empty(),
        }) + progress_reports(Seq::empty(), rest),
    decreases bytes.len(),
{
    if bytes.len() == 0 {
        assert(bytes + seq![end] + rest =~= seq![end] + rest);
        assert((seq![end] + rest).drop_first() =~= rest);
        assert(line + bytes =~= line);
    } else {
        let all = bytes + seq![end] + rest;
        assert(all[0] == bytes[0]);
        assert(all.drop_first() =~= bytes.drop_first() + seq![end] + rest);
        assert(line.push(bytes[0]) + bytes.drop_first() =~= line + bytes);
        lemma_progress_line(line.push(bytes[0]), bytes.drop_first(), end, rest);
    }
}

/// Progress is reported line by line (as [`ProgressLines::feed`] does one
/// byte at a time): each output line, ended by `\r` or `\n`, reports the
/// byte count read from it, if it is a progress line, and then the
/// splitter starts afresh.
pub proof fn law_progress_per_line(line: Seq<u8>, end: u8, rest: Seq<u8>)
    requires
        forall|i: int| 0 <= i < line.len() ==> !ends_line(line[i]),
        ends_line(end),
    ensures
        progress_reports(Seq::empty(), line + seq![end] + rest) == (match progress_value(line) {
            Some(n) => seq![n],
            None => Seq::empty(),
        }) + progress_reports(Seq::empty(), rest),
{
    lemma_progress_line(Seq::empty(), line, end, rest);
    assert(Seq::<u8>::empty() + line =~= line);
}

/// The error of a failed rsync run, read from its stderr.
pub open spec fn rsync_error(stderr: Seq<char>, from: Seq<char>) -> FpErrorView {
    let msg = trim_ws(stderr);
    if contains_seq(msg, "No such file or directory"@) {
        FpErrorView::NotFound(from)
    } else if contains_seq(msg, "Permission denied"@) || contains_seq(msg, "permission denied"@) {
        FpErrorView::Auth(
            "rsync/SSH: "@ + msg + " — funktioniert die Schlüsseldatei ohne Passphrase-Abfrage?"@,
        )
    } else {
        FpErrorView::Protocol("rsync: "@ + msg)
    }
}

pub fn rsync_failure(stderr: &str, from: &str) -> (r: FpError)
    ensures
        r@ == rsync_error(stderr@, from@),
{
    let v = chars_of(stderr);
    let (a, b) = trim_ws_bounds(&v, 0, v.len());
    assert(v@.subrange(0, v@.len() as int) =~= stderr@);
    let msg = crate::text::chars_between(&v, a, b);
    let missing = chars_of("No such file or directory");
    let denied = chars_of("Permission denied");
    let denied_lower = chars_of("permission denied");
    if contains_exec(&msg, &missing) {
        FpError::NotFound(string_from(from))
    } else if contains_exec(&msg, &denied) || contains_exec(&msg, &denied_lower) {
        let mut text = string_from("rsync/SSH: ");
        push_range(&mut text, &v, a, b);
        push_str(&mut text, " — funktioniert die Schlüsseldatei ohne Passphrase-Abfrage?");
        FpError::Auth(text)
    } else {
        let mut text = string_from("rsync: ");
        push_range(&mut text, &v, a, b);
        FpError::Protocol(text)
    }
}

/// The error when no local rsync program can be run.
pub fn rsync_missing() -> (r: FpError)
    ensures
        r@ == FpErrorView::Connect("Kein rsync-Programm gefunden — bitte rsync lokal installieren"@),
{
    FpError::Connect(string_from("Kein rsync-Programm gefunden — bitte rsync lokal installieren"))
}

/// The error when rsync could not be started.
pub fn rsync_spawn_error(detail: &str) -> (r: FpError)
    ensures
        r@ == FpErrorView::Connect("rsync ließ sich nicht starten: "@ + detail@),
{
    let mut text = string_from("rsync ließ sich nicht starten: ");
    push_str(&mut text, detail);
    FpError::Connect(text)
}

} // verus!
