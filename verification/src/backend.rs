//! Directory entries as every backend reports them.

use vstd::prelude::*;

verus! {

#[derive(Debug, Clone, Copy, PartialEq, Eq, Structural)]
pub enum EntryKind {
    Dir,
    File,
    Symlink,
}

/// One directory entry.
#[derive(Debug, Clone)]
pub struct Entry {
    pub name: String,
    /// Full path on the remote side (Unix notation, `/`-separated).
    pub path: String,
    pub kind: EntryKind,
    pub size: u64,
    /// Modification time as Unix seconds, where the protocol reports one.
    pub modified: Option<i64>,
}

/// The mathematical value of an [`Entry`].
pub struct EntryView {
    pub name: Seq<char>,
    pub path: Seq<char>,
    pub kind: EntryKind,
    pub size: u64,
    pub modified: Option<i64>,
}

impl View for Entry {
    type V = EntryView;

    open spec fn view(&self) -> EntryView {
        EntryView {
            name: self.name@,
            path: self.path@,
            kind: self.kind,
            size: self.size,
            modified: self.modified,
        }
    }
}

/// The views of a list of entries.
pub open spec fn entries_view(v: Seq<Entry>) -> Seq<EntryView> {
    v.map_values(|e: Entry| e@)
}

pub open spec fn entry_view(
    name: Seq<char>,
    path: Seq<char>,
    kind: EntryKind,
    size: u64,
    modified: Option<i64>,
) -> EntryView {
    EntryView { name, path, kind, size, modified }
}

/// Appends `e` to `v`, keeping the view of the list in step.
pub fn push_entry(v: &mut Vec<Entry>, e: Entry)
    ensures
        entries_view(final(v)@) == entries_view(old(v)@).push(e@),
{
    let ghost before = v@;
    v.push(e);
    proof {
        assert(entries_view(v@) =~= entries_view(before).push(e@));
    }
}

} // verus!
