//! FTPS: connection settings, reply-code mapping and listings. Plain FTP
//! is not offered; every connection is TLS-encrypted.

use vstd::prelude::*;

use crate::error::{string_from, FpError, FpErrorView};
use crate::text::{decimal, push_char, push_decimal, push_str};

verus! {

#[derive(Debug, Clone, Copy, PartialEq, Eq, Structural)]
pub enum FtpSecurity {
    /// Explicit FTPS (AUTH TLS on the standard port 21).
    ExplicitTls,
    /// Implicit FTPS (TLS from the first byte, standard port 990).
    ImplicitTls,
}

pub struct FtpConfig {
    pub host: String,
    pub port: u16,
    pub user: String,
    pub password: String,
    pub security: FtpSecurity,
    /// Accept self-signed certificates (a deliberate choice in the profile).
    pub accept_invalid_certs: bool,
}

/// The label of an FTPS connection.
pub fn ftp_label(user: &str, host: &str) -> (r: String)
    ensures
        r@ == "ftps://"@ + user@ + seq!['@'] + host@,
{
    let mut s = string_from("ftps://");
    push_str(&mut s, user);
    push_char(&mut s, '@');
    push_str(&mut s, host);
    s
}

/// `host:port`, the address the control connection goes to.
pub fn socket_addr(host: &str, port: u16) -> (r: String)
    ensures
        r@ == host@ + seq![':'] + decimal(port as nat),
{
    let mut s = string_from(host);
    push_char(&mut s, ':');
    push_decimal(&mut s, port as u128);
    s
}

/// An FTP error as the engine sees it: a reply the server sent (its code
/// and display text), or another failure (its display text).
pub enum FtpFailure {
    Reply(u32, String),
    Other(String),
}

pub open spec fn ftp_error(path: Seq<char>, code: u32, text: Seq<char>) -> FpErrorView {
    if code == 550 {
        FpErrorView::NotFound(path)
    } else if code == 530 {
        FpErrorView::Auth(text)
    } else if code == 532 || code == 533 {
        FpErrorView::Denied(path)
    } else {
        FpErrorView::Protocol(path + ": "@ + text)
    }
}

/// Maps an FTP failure at `path`: missing files, refused logins and
/// missing permissions get their own kinds.
pub fn map_ftp(path: &str, failure: FtpFailure) -> (r: FpError)
    ensures
        match failure {
            FtpFailure::Reply(code, text) => r@ == ftp_error(path@, code, text@),
            FtpFailure::Other(text) => r@ == FpErrorView::Protocol(text@),
        },
{
    match failure {
        FtpFailure::Reply(code, text) => {
            if code == 550 {
                FpError::NotFound(string_from(path))
            } else if code == 530 {
                FpError::Auth(text)
            } else if code == 532 || code == 533 {
                FpError::Denied(string_from(path))
            } else {
                let mut msg = string_from(path);
                push_str(&mut msg, ": ");
                push_str(&mut msg, text.as_str());
                FpError::Protocol(msg)
            }
        },
        FtpFailure::Other(text) => FpError::Protocol(text),
    }
}

/// The error when a TLS setup fails.
pub fn tls_error(detail: &str) -> (r: FpError)
    ensures
        r@ == FpErrorView::Connect("TLS: "@ + detail@),
{
    let mut msg = string_from("TLS: ");
    push_str(&mut msg, detail);
    FpError::Connect(msg)
}

/// The error when the connection is already gone.
pub fn connection_closed() -> (r: FpError)
    ensures
        r@ == FpErrorView::Connect("FTP-Verbindung ist geschlossen"@),
{
    FpError::Connect(string_from("FTP-Verbindung ist geschlossen"))
}

} // verus!
