//! SMB 2/3 shares: share-relative paths, account and address settings,
//! listings and error mapping. UI paths (`/a/b`) become share-relative
//! paths (`a/b`); the SMB client uses `/` as its only separator.

use vstd::prelude::*;

use crate::error::{string_from, FpError, FpErrorView};
use crate::text::{chars_of, decimal, first_index_of, find_char, push_char, push_decimal, push_range, push_str, trim_char, trim_matches_char};

verus! {

pub struct SmbConfig {
    pub host: String,
    /// 0 means the standard port 445.
    pub port: u16,
    pub share: String,
    /// `DOMAIN\user` for domain accounts.
    pub user: String,
    pub password: String,
}

/// The block size of ranged reads.
pub const SMB_CHUNK: u64 = 262144;

/// The share-relative path of a UI path.
pub fn smb_path(path: &str) -> (r: String)
    ensures
        r@ == trim_char(path@, '/'),
{
    trim_matches_char(path, '/')
}

/// The port to connect to (0 stands for 445).
pub fn smb_port(port: u16) -> (r: u16)
    ensures
        r == (if port == 0 { 445 } else { port }),
{
    if port == 0 {
        445
    } else {
        port
    }
}

/// The address of the server.
pub fn smb_addr(host: &str, port: u16) -> (r: String)
    ensures
        r@ == host@ + seq![':'] + decimal((if port == 0 { 445 } else { port }) as nat),
{
    let mut s = string_from(host);
    push_char(&mut s, ':');
    push_decimal(&mut s, smb_port(port) as u128);
    s
}

/// `DOMAIN\user` split at its first backslash into domain and account; an
/// account without one has an empty domain.
pub open spec fn split_account_spec(user: Seq<char>) -> (Seq<char>, Seq<char>) {
    match first_index_of(user, '\\') {
        Some(i) => (user.take(i), user.skip(i + 1)),
        None => (Seq::empty(), user),
    }
}

pub fn split_account(user: &str) -> (r: (String, String))
    ensures
        (r.0@, r.1@) == split_account_spec(user@),
{
    let v = chars_of(user);
    let n = v.len();
    assert(v@.skip(0) =~= v@);
    match find_char(&v, 0, '\\') {
        Some(i) => {
            let mut domain = String::new();
            push_range(&mut domain, &v, 0, i);
            let mut account = String::new();
            push_range(&mut account, &v, i + 1, v.len());
            assert(v@.subrange(0, i as int) =~= v@.take(i as int));
            assert(v@.subrange(i + 1, v@.len() as int) =~= v@.skip(i + 1));
            (domain, account)
        },
        None => (String::new(), string_from(user)),
    }
}

pub fn smb_label(host: &str, share: &str) -> (r: String)
    ensures
        r@ == "smb://"@ + host@ + seq!['/'] + share@,
{
    let mut s = string_from("smb://");
    push_str(&mut s, host);
    push_char(&mut s, '/');
    push_str(&mut s, share);
    s
}

/// How an SMB error is told apart.
#[derive(Debug, Clone, Copy, PartialEq, Eq, Structural)]
pub enum SmbErrorKind {
    NotFound,
    AccessDenied,
    AuthRequired,
    Other,
}

pub open spec fn smb_error(path: Seq<char>, kind: SmbErrorKind, text: Seq<char>) -> FpErrorView {
    match kind {
        SmbErrorKind::NotFound => FpErrorView::NotFound(path),
        SmbErrorKind::AccessDenied => FpErrorView::Denied(path),
        SmbErrorKind::AuthRequired => FpErrorView::Auth(text),
        SmbErrorKind::Other => FpErrorView::Protocol(path + ": "@ + text),
    }
}

/// Maps an SMB error (its kind and display text) at `path`.
pub fn map_smb(path: &str, kind: SmbErrorKind, text: &str) -> (r: FpError)
    ensures
        r@ == smb_error(path@, kind, text@),
{
    match kind {
        SmbErrorKind::NotFound => FpError::NotFound(string_from(path)),
        SmbErrorKind::AccessDenied => FpError::Denied(string_from(path)),
        SmbErrorKind::AuthRequired => FpError::Auth(string_from(text)),
        SmbErrorKind::Other => {
            let mut msg = string_from(path);
            push_str(&mut msg, ": ");
            push_str(&mut msg, text);
            FpError::Protocol(msg)
        },
    }
}

/// Maps a failed login: refused credentials name the account, anything
/// else is a connection error.
pub fn smb_connect_error(kind: SmbErrorKind, user: &str, text: &str) -> (r: FpError)
    ensures
        r@ == (match kind {
            SmbErrorKind::AuthRequired | SmbErrorKind::AccessDenied => FpErrorView::Auth(
                "Server hat die Anmeldung als "@ + user@ + " abgelehnt"@,
            ),
            _ => FpErrorView::Connect(text@),
        }),
{
    match kind {
        SmbErrorKind::AuthRequired | SmbErrorKind::AccessDenied => crate::ssh::login_refused(user),
        _ => FpError::Connect(string_from(text)),
    }
}

/// The error for a share that could not be opened.
pub fn share_error(share: &str, text: &str) -> (r: FpError)
    ensures
        r@ == FpErrorView::Connect("Freigabe "@ + share@ + ": "@ + text@),
{
    let mut msg = string_from("Freigabe ");
    push_str(&mut msg, share);
    push_str(&mut msg, ": ");
    push_str(&mut msg, text);
    FpError::Connect(msg)
}

} // verus!
