//! The local file system: the reference backend every protocol backend is
//! measured against.

use vstd::prelude::*;

use crate::backend::{entry_view, Entry, EntryKind};
use crate::error::string_from;
use crate::text::push_char;

verus! {

/// The local file system.
pub struct LocalBackend;

/// The kind of a local file: links are reported as links, not followed.
pub open spec fn local_kind(is_symlink: bool, is_dir: bool) -> EntryKind {
    if is_symlink {
        EntryKind::Symlink
    } else if is_dir {
        EntryKind::Dir
    } else {
        EntryKind::File
    }
}

impl LocalBackend {
    pub fn label(&self) -> (r: String)
        ensures
            r@ == "local"@,
    {
        string_from("local")
    }

    /// The entry for a local path from its metadata (read without following
    /// links): `path` as displayed, its last component as the name (`/`
    /// where it has none).
    pub fn entry_for(
        path: String,
        file_name: Option<String>,
        is_symlink: bool,
        is_dir: bool,
        len: u64,
        modified: Option<i64>,
    ) -> (r: Entry)
        ensures
            r@ == entry_view(
                match file_name {
                    Some(n) => n@,
                    None => seq!['/'],
                },
                path@,
                local_kind(is_symlink, is_dir),
                len,
                modified,
            ),
    {
        let name = match file_name {
            Some(n) => n,
            None => {
                let mut s = String::new();
                push_char(&mut s, '/');
                assert(s@ =~= seq!['/']);
                s
            },
        };
        let kind = if is_symlink {
            EntryKind::Symlink
        } else if is_dir {
            EntryKind::Dir
        } else {
            EntryKind::File
        };
        Entry { name, path, kind, size: len, modified }
    }
}

} // verus!
