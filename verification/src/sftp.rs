//! SFTP: status mapping, listed files and connection labels.

use vstd::prelude::*;

use crate::error::{string_from, FpError, FpErrorView};
use crate::listing::{ListedFile, ListedFileView};
use crate::text::{push_char, push_str};

verus! {

/// How an SFTP error is told apart: a status the server sent (with its
/// message for the other codes), or another failure (its display text).
pub enum SftpFailure {
    NoSuchFile,
    PermissionDenied,
    Status(String),
    Other(String),
}

/// Maps an SFTP error at `path`.
pub fn map_sftp(path: &str, f: SftpFailure) -> (r: FpError)
    ensures
        match f {
            SftpFailure::NoSuchFile => r@ == FpErrorView::NotFound(path@),
            SftpFailure::PermissionDenied => r@ == FpErrorView::Denied(path@),
            SftpFailure::Status(msg) => r@ == FpErrorView::Protocol(path@ + ": "@ + msg@),
            SftpFailure::Other(text) => r@ == FpErrorView::Protocol(text@),
        },
{
    match f {
        SftpFailure::NoSuchFile => FpError::NotFound(string_from(path)),
        SftpFailure::PermissionDenied => FpError::Denied(string_from(path)),
        SftpFailure::Status(msg) => {
            let mut text = string_from(path);
            push_str(&mut text, ": ");
            push_str(&mut text, msg.as_str());
            FpError::Protocol(text)
        },
        SftpFailure::Other(text) => FpError::Protocol(text),
    }
}

/// A directory item as the SFTP server describes it: an unknown size
/// counts as 0, the modification time is in Unix seconds.
pub fn sftp_file(name: String, is_dir: bool, is_symlink: bool, size: Option<u64>, mtime: Option<u32>) -> (r: ListedFile)
    ensures
        r@ == (ListedFileView {
            name: name@,
            is_dir,
            is_symlink,
            size: match size {
                Some(n) => n,
                None => 0,
            },
            modified: match mtime {
                Some(t) => Some(t as i64),
                None => None,
            },
        }),
{
    ListedFile {
        name,
        is_dir,
        is_symlink,
        size: match size {
            Some(n) => n,
            None => 0,
        },
        modified: match mtime {
            Some(t) => Some(t as i64),
            None => None,
        },
    }
}

pub fn sftp_label(user: &str, host: &str) -> (r: String)
    ensures
        r@ == "sftp://"@ + user@ + seq!['@'] + host@,
{
    let mut s = string_from("sftp://");
    push_str(&mut s, user);
    push_char(&mut s, '@');
    push_str(&mut s, host);
    s
}

pub fn subsystem_error(detail: &str) -> (r: FpError)
    ensures
        r@ == FpErrorView::Connect("SFTP-Subsystem: "@ + detail@),
{
    let mut msg = string_from("SFTP-Subsystem: ");
    push_str(&mut msg, detail);
    FpError::Connect(msg)
}

pub fn handshake_error(detail: &str) -> (r: FpError)
    ensures
        r@ == FpErrorView::Connect("SFTP-Handshake: "@ + detail@),
{
    let mut msg = string_from("SFTP-Handshake: ");
    push_str(&mut msg, detail);
    FpError::Connect(msg)
}

} // verus!
