//! The engine's error kinds: protocol details are mapped onto plain,
//! UI-ready variants instead of raw library errors.

use vstd::prelude::*;

use crate::text::push_str;

verus! {

/// `std::io::Error`, carried through unchanged.
#[verifier::external_type_specification]
#[verifier::external_body]
pub struct ExIoError(std::io::Error);

#[derive(Debug)]
pub enum FpError {
    Connect(String),
    Auth(String),
    NotFound(String),
    Denied(String),
    Cancelled,
    Io(std::io::Error),
    Protocol(String),
}

/// The mathematical value of an [`FpError`]; an I/O error is seen only as such.
pub enum FpErrorView {
    Connect(Seq<char>),
    Auth(Seq<char>),
    NotFound(Seq<char>),
    Denied(Seq<char>),
    Cancelled,
    Io,
    Protocol(Seq<char>),
}

impl View for FpError {
    type V = FpErrorView;

    open spec fn view(&self) -> FpErrorView {
        match self {
            FpError::Connect(s) => FpErrorView::Connect(s@),
            FpError::Auth(s) => FpErrorView::Auth(s@),
            FpError::NotFound(s) => FpErrorView::NotFound(s@),
            FpError::Denied(s) => FpErrorView::Denied(s@),
            FpError::Cancelled => FpErrorView::Cancelled,
            FpError::Io(_) => FpErrorView::Io,
            FpError::Protocol(s) => FpErrorView::Protocol(s@),
        }
    }
}

/// What an I/O error is, as far as the engine distinguishes.
#[derive(Debug, Clone, Copy, PartialEq, Eq, Structural)]
pub enum IoKind {
    NotFound,
    PermissionDenied,
    UnexpectedEof,
    Other,
}

/// `std::io::Error::kind`, reduced to the kinds the engine tells apart.
/// Nothing is stated of the result: the kind lives inside the opaque error.
#[verifier::external_body]
pub(crate) fn io_error_kind(e: &std::io::Error) -> IoKind {
    match e.kind() {
        std::io::ErrorKind::NotFound => IoKind::NotFound,
        std::io::ErrorKind::PermissionDenied => IoKind::PermissionDenied,
        std::io::ErrorKind::UnexpectedEof => IoKind::UnexpectedEof,
        _ => IoKind::Other,
    }
}

/// The `Display` text of an I/O error (`ToString::to_string`); it comes from
/// the operating system, so nothing is stated of it.
#[verifier::external_body]
pub(crate) fn io_error_text(e: &std::io::Error) -> String {
    e.to_string()
}

impl FpError {
    /// Shorthand for a protocol error carrying a message.
    pub fn proto(text: String) -> (r: FpError)
        ensures
            r@ == FpErrorView::Protocol(text@),
    {
        FpError::Protocol(text)
    }

    /// The message shown for this error (the `Display` text).
    pub fn message(&self) -> (r: String)
        ensures
            match self {
                FpError::Io(_) => crate::text::has_prefix(r@, "E/A-Fehler: "@),
                _ => r@ == error_message(self@),
            },
    {
        let mut out = String::new();
        match self {
            FpError::Connect(s) => {
                push_str(&mut out, "Verbindung fehlgeschlagen: ");
                push_str(&mut out, s.as_str());
            },
            FpError::Auth(s) => {
                push_str(&mut out, "Anmeldung fehlgeschlagen: ");
                push_str(&mut out, s.as_str());
            },
            FpError::NotFound(s) => {
                push_str(&mut out, "Nicht gefunden: ");
                push_str(&mut out, s.as_str());
            },
            FpError::Denied(s) => {
                push_str(&mut out, "Zugriff verweigert: ");
                push_str(&mut out, s.as_str());
            },
            FpError::Cancelled => {
                push_str(&mut out, "Übertragung abgebrochen");
            },
            FpError::Io(e) => {
                push_str(&mut out, "E/A-Fehler: ");
                let ghost head = out@;
                let t = io_error_text(e);
                push_str(&mut out, t.as_str());
                proof {
                    assert(out@.take(head.len() as int) =~= head);
                }
            },
            FpError::Protocol(s) => {
                push_str(&mut out, s.as_str());
            },
        }
        proof {
            if !(self is Io) {
                assert(out@ =~= error_message(self@));
            }
        }
        out
    }

    /// Whether this is the cancellation error.
    pub fn is_cancelled(&self) -> (b: bool)
        ensures
            b == (self is Cancelled),
    {
        match self {
            FpError::Cancelled => true,
            _ => false,
        }
    }
}

/// The message of every error but an I/O error.
pub open spec fn error_message(e: FpErrorView) -> Seq<char> {
    match e {
        FpErrorView::Connect(s) => "Verbindung fehlgeschlagen: "@ + s,
        FpErrorView::Auth(s) => "Anmeldung fehlgeschlagen: "@ + s,
        FpErrorView::NotFound(s) => "Nicht gefunden: "@ + s,
        FpErrorView::Denied(s) => "Zugriff verweigert: "@ + s,
        FpErrorView::Cancelled => "Übertragung abgebrochen"@,
        FpErrorView::Io => "E/A-Fehler: "@,
        FpErrorView::Protocol(s) => s,
    }
}

/// The error for an I/O failure at `path`, by its kind.
pub open spec fn io_error_for(path: Seq<char>, kind: IoKind) -> Option<FpErrorView> {
    match kind {
        IoKind::NotFound => Some(FpErrorView::NotFound(path)),
        IoKind::PermissionDenied => Some(FpErrorView::Denied(path)),
        _ => None,
    }
}

/// Maps an I/O error of the given kind at `path`: missing and forbidden
/// paths get their own variants, everything else stays an I/O error.
pub fn map_io_kind(path: &str, kind: IoKind, e: std::io::Error) -> (r: FpError)
    ensures
        match io_error_for(path@, kind) {
            Some(v) => r@ == v,
            None => r == FpError::Io(e),
        },
{
    match kind {
        IoKind::NotFound => FpError::NotFound(string_from(path)),
        IoKind::PermissionDenied => FpError::Denied(string_from(path)),
        _ => FpError::Io(e),
    }
}

/// Maps an I/O error at `path` (its kind is read from the error itself).
pub fn map_io(path: &str, e: std::io::Error) -> (r: FpError)
    ensures
        r@ == FpErrorView::NotFound(path@) || r@ == FpErrorView::Denied(path@) || r == FpError::Io(e),
{
    let kind = io_error_kind(&e);
    map_io_kind(path, kind, e)
}

/// An owned copy of `s`.
pub fn string_from(s: &str) -> (r: String)
    ensures
        r@ == s@,
{
    let mut out = String::new();
    push_str(&mut out, s);
    out
}

} // verus!
