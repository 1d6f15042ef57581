//! SCP over SSH: the classic SCP protocol (`scp -f` / `scp -t` on the
//! remote side) — commands, protocol lines, acknowledgements and file
//! headers. Directory operations run as shell commands over the shared
//! SSH session.

use vstd::prelude::*;

use crate::error::{io_error_kind, io_error_text, string_from, FpError, FpErrorView, IoKind};
use crate::rpath::{file_name, file_name_spec};
use crate::ssh::{shell_quote, shell_quote_spec};
use crate::text::{
    chars_of, decimal, is_space, lemma_decimal_digits, lemma_word_len, nth_word, nth_word_bounds,
    parse_u64_range, parse_u64_spec, push_char, push_decimal, push_range, push_str, text_of_bytes,
    trim_start_ws, trim_ws, trim_ws_bounds, utf8_lossy, word_len,
};

verus! {

/// The longest protocol line accepted.
pub const MAX_LINE: usize = 4096;

pub open spec fn fetch_command_spec(remote: Seq<char>) -> Seq<char> {
    "scp -f "@ + shell_quote_spec(remote)
}

pub open spec fn store_command_spec(remote: Seq<char>) -> Seq<char> {
    "scp -t "@ + shell_quote_spec(remote)
}

/// The remote command that sends `remote` to us.
pub fn fetch_command(remote: &str) -> (r: String)
    ensures
        r@ == fetch_command_spec(remote@),
{
    let mut cmd = string_from("scp -f ");
    let q = shell_quote(remote);
    push_str(&mut cmd, q.as_str());
    cmd
}

/// The remote command that receives `remote` from us.
pub fn store_command(remote: &str) -> (r: String)
    ensures
        r@ == store_command_spec(remote@),
{
    let mut cmd = string_from("scp -t ");
    let q = shell_quote(remote);
    push_str(&mut cmd, q.as_str());
    cmd
}

pub fn scp_label(user: &str, host: &str) -> (r: String)
    ensures
        r@ == "scp://"@ + user@ + seq!['@'] + host@,
{
    let mut s = string_from("scp://");
    push_str(&mut s, user);
    push_char(&mut s, '@');
    push_str(&mut s, host);
    s
}

/// Reads a `\n`-terminated protocol line byte by byte.
pub struct LineReader {
    line: Vec<u8>,
}

impl View for LineReader {
    type V = Seq<u8>;

    closed spec fn view(&self) -> Seq<u8> {
        self.line@
    }
}

pub open spec fn overlong_line() -> FpErrorView {
    FpErrorView::Protocol("SCP: überlange Protokollzeile"@)
}

impl LineReader {
    pub fn new() -> (r: LineReader)
        ensures
            r@ == Seq::<u8>::empty(),
    {
        LineReader { line: Vec::new() }
    }

    /// Takes the next byte: a newline completes the line (returned as text);
    /// a line longer than [`MAX_LINE`] bytes is an error.
    pub fn feed(&mut self, byte: u8) -> (r: Result<Option<String>, FpError>)
        ensures
            match r {
                Ok(Some(line)) => read_line_from(old(self)@, seq![byte]) == Some(Ok::<Seq<char>, FpErrorView>(line@)),
                Err(e) => read_line_from(old(self)@, seq![byte]) == Some(Err::<Seq<char>, FpErrorView>(e@)),
                Ok(None) => read_line_from(old(self)@, seq![byte]) is None,
            },
            byte == 10 ==> (r matches Ok(Some(line)) && line@ == utf8_lossy(old(self)@) && final(self)@
                == Seq::<u8>::empty()),
            byte != 10 ==> final(self)@ == old(self)@.push(byte) && match r {
                Ok(None) => final(self)@.len() <= MAX_LINE,
                Err(e) => final(self)@.len() > MAX_LINE && e@ == overlong_line(),
                Ok(Some(_)) => false,
            },
    {
        if byte == 10 {
            proof {
                assert(seq![byte][0] == byte);
            }
            let text = text_of_bytes(self.line.as_slice());
            self.line = Vec::new();
            return Ok(Some(text));
        }
        let ghost before = self.line@;
        self.line.push(byte);
        proof {
            assert(seq![byte][0] == byte);
            assert(seq![byte].drop_first() =~= Seq::<u8>::empty());
            assert(read_line_from(before.push(byte), Seq::<u8>::empty()) is None);
        }
        if self.line.len() > MAX_LINE {
            Err(FpError::Protocol(string_from("SCP: überlange Protokollzeile")))
        } else {
            Ok(None)
        }
    }
}

/// What feeding `bytes` to a reader that holds `line` comes to: the first
/// complete line or error, or `None` while the line is still open.
pub open spec fn read_line_from(line: Seq<u8>, bytes: Seq<u8>) -> Option<Result<Seq<char>, FpErrorView>>
    decreases bytes.len(),
{
    if bytes.len() == 0 {
        None
    } else if bytes[0] == 10 {
        Some(Ok(utf8_lossy(line)))
    } else if line.len() + 1 > MAX_LINE {
        Some(Err(overlong_line()))
    } else {
        read_line_from(line.push(bytes[0]), bytes.drop_first())
    }
}

proof fn lemma_read_line_from(line: Seq<u8>, bytes: Seq<u8>)
    requires
        forall|i: int| 0 <= i < bytes.len() ==> bytes[i] != 10,
        line.len() + bytes.len() <= MAX_LINE,
    ensures
        read_line_from(line, bytes.push(10)) == Some(Ok::<Seq<char>, FpErrorView>(utf8_lossy(line + bytes))),
    decreases bytes.len(),
{
    if bytes.len() == 0 {
        assert(line + bytes =~= line);
    } else {
        assert(bytes.push(10).drop_first() =~= bytes.drop_first().push(10));
        assert(line.push(bytes[0]) + bytes.drop_first() =~= line + bytes);
        lemma_read_line_from(line.push(bytes[0]), bytes.drop_first());
    }
}

proof fn lemma_read_line_overlong(line: Seq<u8>, bytes: Seq<u8>)
    requires
        forall|i: int| 0 <= i < bytes.len() ==> bytes[i] != 10,
        line.len() <= MAX_LINE,
        line.len() + bytes.len() > MAX_LINE,
    ensures
        read_line_from(line, bytes) == Some(Err::<Seq<char>, FpErrorView>(overlong_line())),
    decreases bytes.len(),
{
    if line.len() + 1 <= MAX_LINE {
        lemma_read_line_overlong(line.push(bytes[0]), bytes.drop_first());
    }
}

/// Reading a protocol line byte by byte from an empty [`LineReader`] (as
/// [`LineReader::feed`] does one byte at a time): up to the first newline,
/// a line of at most [`MAX_LINE`] bytes comes back whole (as lossy UTF-8),
/// and a longer one is refused before its end arrives.
pub proof fn law_protocol_lines(bytes: Seq<u8>, rest: Seq<u8>)
    requires
        forall|i: int| 0 <= i < bytes.len() ==> bytes[i] != 10,
    ensures
        bytes.len() <= MAX_LINE ==> read_line_from(Seq::empty(), bytes.push(10) + rest) == Some(
            Ok::<Seq<char>, FpErrorView>(utf8_lossy(bytes)),
        ),
        bytes.len() > MAX_LINE ==> read_line_from(Seq::empty(), bytes + rest) == Some(
            Err::<Seq<char>, FpErrorView>(overlong_line()),
        ),
{
    if bytes.len() <= MAX_LINE {
        lemma_read_line_from(Seq::empty(), bytes);
        lemma_prefix_decides(Seq::empty(), bytes.push(10), rest);
        assert(Seq::<u8>::empty() + bytes =~= bytes);
    } else {
        lemma_read_line_overlong(Seq::empty(), bytes);
        lemma_prefix_decides(Seq::empty(), bytes, rest);
    }
}

/// Once a prefix of the input decides the line, what follows it is not read.
proof fn lemma_prefix_decides(line: Seq<u8>, bytes: Seq<u8>, rest: Seq<u8>)
    requires
        read_line_from(line, bytes) is Some,
    ensures
        read_line_from(line, bytes + rest) == read_line_from(line, bytes),
    decreases bytes.len(),
{
    if bytes.len() > 0 {
        assert((bytes + rest)[0] == bytes[0]);
        if bytes[0] != 10 && line.len() + 1 <= MAX_LINE {
            assert((bytes + rest).drop_first() =~= bytes.drop_first() + rest);
            lemma_prefix_decides(line.push(bytes[0]), bytes.drop_first(), rest);
        }
    }
}

/// What an acknowledgement byte means.
pub enum AckStep {
    /// `0`: accepted.
    Done,
    /// `1` or `2`: an error whose message line follows.
    ReadMessage,
    /// Anything else.
    Failed(FpError),
}

pub open spec fn hex_lower(d: u8) -> char {
    if d < 10 {
        (d + 0x30) as char
    } else {
        (d - 10 + 0x61) as char
    }
}

/// `format!("{byte:#04x}")`: `0x` and two lowercase hex digits.
pub open spec fn hex_byte(b: u8) -> Seq<char> {
    seq!['0', 'x', hex_lower(b / 16), hex_lower(b % 16)]
}

fn hex_lower_exec(d: u8) -> (c: char)
    requires
        d < 16,
    ensures
        c == hex_lower(d),
{
    if d < 10 {
        (d + 0x30) as char
    } else {
        (d - 10 + 0x61) as char
    }
}

/// The meaning of an acknowledgement byte.
pub fn ack_step(byte: u8) -> (r: AckStep)
    ensures
        byte == 0 ==> r is Done,
        (byte == 1 || byte == 2) ==> r is ReadMessage,
        byte > 2 ==> (r matches AckStep::Failed(e) && e@ == FpErrorView::Protocol(
            "SCP: unerwartete Antwort ("@ + hex_byte(byte) + seq![')'],
        )),
{
    if byte == 0 {
        AckStep::Done
    } else if byte == 1 || byte == 2 {
        AckStep::ReadMessage
    } else {
        let mut msg = string_from("SCP: unerwartete Antwort (");
        push_char(&mut msg, '0');
        push_char(&mut msg, 'x');
        push_char(&mut msg, hex_lower_exec(byte / 16));
        push_char(&mut msg, hex_lower_exec(byte % 16));
        push_char(&mut msg, ')');
        proof {
            assert(msg@ =~= "SCP: unerwartete Antwort ("@ + hex_byte(byte) + seq![')']);
        }
        AckStep::Failed(FpError::Protocol(msg))
    }
}

/// The error an error acknowledgement carries (its message trimmed).
pub fn ack_error(message: &str) -> (r: FpError)
    ensures
        r@ == FpErrorView::Protocol("SCP: "@ + trim_ws(message@)),
{
    let v = chars_of(message);
    let (a, b) = trim_ws_bounds(&v, 0, v.len());
    assert(v@.subrange(0, v@.len() as int) =~= message@);
    let mut msg = string_from("SCP: ");
    push_range(&mut msg, &v, a, b);
    FpError::Protocol(msg)
}

/// The error for a failed read on the SCP channel, by whether the stream
/// ended early (`is_eof`) and the read error's text: an early end means the
/// server closed the session (typically because `scp` is missing there).
pub fn eof_error(is_eof: bool, text: &str) -> (r: FpError)
    ensures
        is_eof ==> r@ == FpErrorView::Protocol(
            "SCP: Server hat die Sitzung beendet — ist scp auf dem Server installiert?"@,
        ),
        !is_eof ==> r@ == FpErrorView::Protocol(text@),
{
    if is_eof {
        FpError::Protocol(string_from("SCP: Server hat die Sitzung beendet — ist scp auf dem Server installiert?"))
    } else {
        FpError::Protocol(string_from(text))
    }
}

/// The error for a failed read on the SCP channel. Its kind and text are
/// read from the I/O error (see [`eof_error`]); whatever they are, the
/// result is a protocol error.
pub fn scp_eof(e: std::io::Error) -> (r: FpError)
    ensures
        r@ is Protocol,
{
    let kind = io_error_kind(&e);
    let text = io_error_text(&e);
    eof_error(kind == IoKind::UnexpectedEof, text.as_str())
}

/// The file size announced by a download header `C<mode> <size> <name>`,
/// or the error the header reports or is.
pub open spec fn header_size_spec(header: Seq<char>) -> Result<u64, FpErrorView> {
    if header.len() > 0 && header[0] == 'C' {
        match nth_word(header.skip(1), 1) {
            Some(w) => match parse_u64_spec(w) {
                Some(n) => Ok(n),
                None => Err(FpErrorView::Protocol("SCP: unlesbarer Header „"@ + header + "“"@)),
            },
            None => Err(FpErrorView::Protocol("SCP: unlesbarer Header „"@ + header + "“"@)),
        }
    } else if header.len() > 0 && (header[0] == '\u{1}' || header[0] == '\u{2}') {
        Err(FpErrorView::Protocol("SCP: "@ + trim_ws(header.skip(1))))
    } else {
        Err(FpErrorView::Protocol("SCP: unerwarteter Header „"@ + header + "“"@))
    }
}

pub fn header_size(header: &str) -> (r: Result<u64, FpError>)
    ensures
        match r {
            Ok(n) => header_size_spec(header@) == Ok::<u64, FpErrorView>(n),
            Err(e) => header_size_spec(header@) == Err::<u64, FpErrorView>(e@),
        },
{
    let v = chars_of(header);
    if v.len() > 0 && v[0] == 'C' {
        let w = nth_word_bounds(&v, 1, 1);
        match w {
            Some((a, b)) => {
                match parse_u64_range(&v, a, b) {
                    Some(n) => {
                        return Ok(n);
                    },
                    None => {},
                }
            },
            None => {},
        }
        let mut msg = string_from("SCP: unlesbarer Header „");
        push_str(&mut msg, header);
        push_str(&mut msg, "“");
        Err(FpError::Protocol(msg))
    } else if v.len() > 0 && (v[0] == '\u{1}' || v[0] == '\u{2}') {
        let (a, b) = trim_ws_bounds(&v, 1, v.len());
        assert(v@.subrange(1, v@.len() as int) =~= header@.skip(1));
        let mut msg = string_from("SCP: ");
        push_range(&mut msg, &v, a, b);
        Err(FpError::Protocol(msg))
    } else {
        let mut msg = string_from("SCP: unerwarteter Header „");
        push_str(&mut msg, header);
        push_str(&mut msg, "“");
        Err(FpError::Protocol(msg))
    }
}

/// The header that announces an upload: mode 0644, the size and the
/// file name of the remote path.
pub open spec fn upload_header_spec(size: u64, remote: Seq<char>) -> Seq<char> {
    "C0644 "@ + decimal(size as nat) + seq![' '] + file_name_spec(remote) + seq!['\n']
}

pub fn upload_header(size: u64, remote: &str) -> (r: String)
    ensures
        r@ == upload_header_spec(size, remote@),
{
    let mut h = string_from("C0644 ");
    push_decimal(&mut h, size as u128);
    push_char(&mut h, ' ');
    push_str(&mut h, file_name(remote));
    push_char(&mut h, '\n');
    h
}

/// The word at the start of `w + seq![' '] + rest`, for a word `w` without
/// whitespace, is `w`; what follows it starts at the space.
proof fn lemma_first_word(w: Seq<char>, rest: Seq<char>)
    requires
        w.len() > 0,
        forall|i: int| 0 <= i < w.len() ==> !is_space(w[i]),
    ensures
        trim_start_ws(w + seq![' '] + rest) == w + seq![' '] + rest,
        word_len(w + seq![' '] + rest) == w.len(),
        (w + seq![' '] + rest).take(w.len() as int) == w,
        (w + seq![' '] + rest).skip(w.len() as int) == seq![' '] + rest,
{
    let s = w + seq![' '] + rest;
    assert(s[0] == w[0]);
    assert forall|i: int| 0 <= i < w.len() implies !is_space(s[i]) by {
        assert(s[i] == w[i]);
    }
    assert(s[w.len() as int] == ' ');
    lemma_word_len(s, w.len() as int);
    assert(s.take(w.len() as int) =~= w);
    assert(s.skip(w.len() as int) =~= seq![' '] + rest);
}

/// What an upload announces comes back: the header [`upload_header`] sends
/// for `size` bytes, read as a download header (without its newline, as a
/// protocol line is read), gives `size` again, whatever the file's name.
pub proof fn law_header_roundtrip(size: u64, remote: Seq<char>)
    ensures
        header_size_spec(upload_header_spec(size, remote).drop_last()) == Ok::<u64, FpErrorView>(size),
{
    reveal_strlit("C0644 ");
    let dec = decimal(size as nat);
    let name = file_name_spec(remote);
    let h = upload_header_spec(size, remote).drop_last();
    assert(h =~= seq!['C'] + (seq!['0', '6', '4', '4'] + seq![' '] + (dec + seq![' '] + name)));
    lemma_decimal_digits(size as nat);
    assert forall|i: int| 0 <= i < dec.len() implies !is_space(dec[i]) by {
        assert(crate::text::is_digit(dec[i]));
    }
    let four = seq!['0', '6', '4', '4'];
    let t = four + seq![' '] + (dec + seq![' '] + name);
    assert(h.skip(1) =~= t);
    lemma_first_word(four, dec + seq![' '] + name);
    let u = seq![' '] + (dec + seq![' '] + name);
    assert(u.drop_first() =~= dec + seq![' '] + name);
    assert(is_space(u[0]));
    assert(trim_start_ws(u) == trim_start_ws(dec + seq![' '] + name));
    lemma_first_word(dec, name);
    assert(nth_word(u, 0) == Some(dec));
    assert(nth_word(t, 1) == Some(dec));
    assert(dec[0] != '+') by {
        assert(crate::text::is_digit(dec[0]));
    }
    assert(parse_u64_spec(dec) == Some(size));
}

/// The error when the server allows no shell commands.
pub fn no_shell_error(backend: &str, cause: &FpError) -> (r: FpError)
    ensures
        r@ matches FpErrorView::Connect(m) && crate::text::has_prefix(
            m,
            "Server erlaubt keine Shell-Kommandos (für "@ + backend@ + " nötig): "@,
        ),
{
    let mut msg = string_from("Server erlaubt keine Shell-Kommandos (für ");
    push_str(&mut msg, backend);
    push_str(&mut msg, " nötig): ");
    let ghost head = msg@;
    let detail = cause.message();
    push_str(&mut msg, detail.as_str());
    assert(msg@.take(head.len() as int) =~= head);
    FpError::Connect(msg)
}

} // verus!
