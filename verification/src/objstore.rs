//! Object stores (S3-compatible services, Azure Blob Storage, Google Cloud
//! Storage): object keys for remote paths, the folder marker, listings and
//! error mapping. Object stores know no directories; a folder shows up as a
//! common key prefix, and an empty marker object makes a new one visible.

use vstd::prelude::*;

use crate::backend::{entries_view, entry_view, push_entry, Entry, EntryKind, EntryView};
use crate::error::{string_from, FpError, FpErrorView};
use crate::text::{
    has_prefix, is_word, push_char, push_str, starts_with_str, trim_char, trim_end_char,
    trim_end_matches_char, trim_matches_char,
};

verus! {

/// The name of the invisible folder marker object.
pub const DIR_MARKER: &'static str = ".fileport-dir";

pub struct S3Config {
    /// Empty for AWS; otherwise e.g. a Backblaze B2 or Hetzner endpoint.
    pub endpoint: Option<String>,
    pub region: String,
    pub bucket: String,
    pub access_key: String,
    pub secret_key: String,
    /// Force path-style addressing (MinIO and others without wildcard DNS).
    pub path_style: bool,
    /// Accept self-signed certificates (self-hosted endpoints).
    pub accept_invalid_certs: bool,
}

pub struct AzureConfig {
    /// The storage account (`https://<account>.blob.core.windows.net`).
    pub account: String,
    pub container: String,
    pub access_key: String,
}

pub struct GcsConfig {
    pub bucket: String,
    /// Path of the service-account key file (JSON).
    pub key_file: String,
}

/// The object key of a remote path (`/a/b` → `a/b`).
pub fn object_key(path: &str) -> (r: String)
    ensures
        r@ == trim_char(path@, '/'),
{
    trim_matches_char(path, '/')
}

/// The prefix a listing of `path` asks for; the root asks for none.
pub fn list_prefix(path: &str) -> (r: Option<String>)
    ensures
        match r {
            Some(p) => p@ == trim_char(path@, '/') && p@.len() > 0,
            None => trim_char(path@, '/').len() == 0,
        },
{
    let p = object_key(path);
    if p.as_str().is_empty() {
        None
    } else {
        Some(p)
    }
}

/// The key of the folder marker inside `path`.
pub fn dir_marker_key(path: &str) -> (r: String)
    ensures
        r@ == trim_char(path@, '/') + seq!['/'] + DIR_MARKER@,
{
    let mut k = trim_matches_char(path, '/');
    push_char(&mut k, '/');
    push_str(&mut k, DIR_MARKER);
    k
}

/// An object as a listing reports it.
pub struct ListedObject {
    /// The full key.
    pub location: String,
    /// The last part of the key.
    pub name: String,
    pub size: u64,
    /// Last modification, Unix seconds.
    pub modified: i64,
}

pub struct ListedObjectView {
    pub location: Seq<char>,
    pub name: Seq<char>,
    pub size: u64,
    pub modified: i64,
}

impl View for ListedObject {
    type V = ListedObjectView;

    open spec fn view(&self) -> ListedObjectView {
        ListedObjectView { location: self.location@, name: self.name@, size: self.size, modified: self.modified }
    }
}

/// A common prefix of a listing: its key and its last part.
pub struct ListedPrefix {
    pub key: String,
    pub name: String,
}

pub open spec fn prefix_entries(prefixes: Seq<(Seq<char>, Seq<char>)>) -> Seq<EntryView>
    decreases prefixes.len(),
{
    if prefixes.len() == 0 {
        Seq::empty()
    } else {
        let (key, name) = prefixes.last();
        prefix_entries(prefixes.drop_last()).push(
            entry_view(name, seq!['/'] + key, EntryKind::Dir, 0, None),
        )
    }
}

/// Objects that are not shown: nameless ones, folder markers, and the
/// listed prefix itself.
pub open spec fn hidden_object(o: ListedObjectView, prefix: Seq<char>) -> bool {
    o.name.len() == 0 || o.name == DIR_MARKER@ || o.location == prefix
}

pub open spec fn object_entries_spec(objects: Seq<ListedObjectView>, prefix: Seq<char>) -> Seq<EntryView>
    decreases objects.len(),
{
    if objects.len() == 0 {
        Seq::empty()
    } else {
        let before = object_entries_spec(objects.drop_last(), prefix);
        let o = objects.last();
        if hidden_object(o, prefix) {
            before
        } else {
            before.push(entry_view(o.name, seq!['/'] + o.location, EntryKind::File, o.size, Some(o.modified)))
        }
    }
}

pub open spec fn prefixes_view(v: Seq<ListedPrefix>) -> Seq<(Seq<char>, Seq<char>)> {
    v.map_values(|p: ListedPrefix| (p.key@, p.name@))
}

pub open spec fn objects_view(v: Seq<ListedObject>) -> Seq<ListedObjectView> {
    v.map_values(|o: ListedObject| o@)
}

/// The entries of a listing below `prefix` (the trimmed path listed):
/// first the folders, then the objects that are not hidden, each in the
/// order the store reported them.
pub fn object_entries(prefix: &str, prefixes: Vec<ListedPrefix>, objects: Vec<ListedObject>) -> (r: Vec<
    Entry,
>)
    ensures
        entries_view(r@) == prefix_entries(prefixes_view(prefixes@)) + object_entries_spec(
            objects_view(objects@),
            prefix@,
        ),
{
    let mut out: Vec<Entry> = Vec::new();
    let ghost pv = prefixes_view(prefixes@);
    let ghost orig_p = prefixes@;
    let total_p = prefixes.len();
    let mut prefixes = prefixes;
    let mut i: usize = 0;
    while prefixes.len() > 0
        invariant
            i + prefixes@.len() == orig_p.len(),
            orig_p.len() == total_p,
            prefixes@ == orig_p.subrange(i as int, orig_p.len() as int),
            pv == prefixes_view(orig_p),
            entries_view(out@) == prefix_entries(pv.take(i as int)),
        decreases prefixes@.len(),
    {
        let p = prefixes.remove(0);
        proof {
            assert(p == orig_p[i as int]);
            assert(prefixes@ =~= orig_p.subrange(i + 1, orig_p.len() as int));
            assert(pv.take(i + 1).drop_last() =~= pv.take(i as int));
            assert(pv.take(i + 1).last() == (p.key@, p.name@));
        }
        let mut path = String::new();
        push_char(&mut path, '/');
        push_str(&mut path, p.key.as_str());
        let e = Entry { name: p.name, path, kind: EntryKind::Dir, size: 0, modified: None };
        push_entry(&mut out, e);
        i = i + 1;
    }
    proof {
        assert(pv.take(i as int) =~= pv);
    }
    let ghost head = entries_view(out@);
    let ghost ov = objects_view(objects@);
    let ghost orig_o = objects@;
    let total_o = objects.len();
    let mut objects = objects;
    let mut k: usize = 0;
    assert(head + object_entries_spec(ov.take(0), prefix@) =~= head);
    while objects.len() > 0
        invariant
            k + objects@.len() == orig_o.len(),
            orig_o.len() == total_o,
            objects@ == orig_o.subrange(k as int, orig_o.len() as int),
            ov == objects_view(orig_o),
            entries_view(out@) == head + object_entries_spec(ov.take(k as int), prefix@),
        decreases objects@.len(),
    {
        let o = objects.remove(0);
        proof {
            assert(o == orig_o[k as int]);
            assert(objects@ =~= orig_o.subrange(k + 1, orig_o.len() as int));
            assert(ov.take(k + 1).drop_last() =~= ov.take(k as int));
            assert(ov.take(k + 1).last() == o@);
        }
        let ghost before = entries_view(out@);
        let hidden = o.name.as_str().is_empty() || is_word(o.name.as_str(), DIR_MARKER) || is_word(
            o.location.as_str(),
            prefix,
        );
        if !hidden {
            let mut path = String::new();
            push_char(&mut path, '/');
            push_str(&mut path, o.location.as_str());
            let e = Entry {
                name: o.name,
                path,
                kind: EntryKind::File,
                size: o.size,
                modified: Some(o.modified),
            };
            push_entry(&mut out, e);
            proof {
                assert(entries_view(out@) =~= head + object_entries_spec(ov.take(k + 1), prefix@));
            }
        }
        k = k + 1;
    }
    proof {
        assert(ov.take(k as int) =~= ov);
    }
    out
}

/// Folder markers (as [`dir_marker_key`] names them for a new folder),
/// nameless objects and the listed prefix itself never show up as files:
/// every file a listing of `prefix` reports has a name, is no marker, and
/// is not the prefix.
pub proof fn law_marker_never_listed(objects: Seq<ListedObjectView>, prefix: Seq<char>)
    ensures
        forall|i: int|
            #![trigger object_entries_spec(objects, prefix)[i]]
            0 <= i < object_entries_spec(objects, prefix).len() ==> {
                let e = object_entries_spec(objects, prefix)[i];
                &&& e.name != DIR_MARKER@
                &&& e.name.len() > 0
                &&& e.path != seq!['/'] + prefix
                &&& e.kind == EntryKind::File
            },
    decreases objects.len(),
{
    if objects.len() > 0 {
        law_marker_never_listed(objects.drop_last(), prefix);
        let before = object_entries_spec(objects.drop_last(), prefix);
        let o = objects.last();
        if !hidden_object(o, prefix) {
            assert forall|i: int| 0 <= i < before.len() implies #[trigger] object_entries_spec(objects, prefix)[i]
                == before[i] by {}
            assert(o.location != prefix);
            assert(seq!['/'] + o.location != seq!['/'] + prefix) by {
                assert((seq!['/'] + o.location).drop_first() =~= o.location);
                assert((seq!['/'] + prefix).drop_first() =~= prefix);
            }
        }
    }
}

/// The file entry an object becomes in a listing of `prefix`: every object
/// is shown, whatever its size, except one without a name, a folder marker
/// and the listed prefix itself.
pub open spec fn shown_object(prefix: Seq<char>, o: ListedObjectView) -> Option<EntryView> {
    if o.name.len() == 0 || o.name == DIR_MARKER@ || o.location == prefix {
        None
    } else {
        Some(
            EntryView {
                name: o.name,
                path: seq!['/'] + o.location,
                kind: EntryKind::File,
                size: o.size,
                modified: Some(o.modified),
            },
        )
    }
}

/// The folder entry a common prefix becomes: its last part as the name,
/// its key below `/` as the path, no size and no time.
pub open spec fn shown_prefix(p: (Seq<char>, Seq<char>)) -> EntryView {
    EntryView { name: p.1, path: seq!['/'] + p.0, kind: EntryKind::Dir, size: 0, modified: None }
}

/// A listing shows every object, in the order the store reported them,
/// except nameless ones, folder markers and the prefix itself — empty
/// objects included.
pub proof fn law_objects_listed(objects: Seq<ListedObjectView>, prefix: Seq<char>)
    ensures
        object_entries_spec(objects, prefix) == objects.filter_map(|o: ListedObjectView| shown_object(prefix, o)),
    decreases objects.len(),
{
    if objects.len() > 0 {
        law_objects_listed(objects.drop_last(), prefix);
        let before = object_entries_spec(objects.drop_last(), prefix);
        match shown_object(prefix, objects.last()) {
            Some(e) => {
                assert(before.push(e) =~= before + seq![e]);
            },
            None => {},
        }
    }
}

/// Every common prefix is shown as a folder, in order.
pub proof fn law_prefixes_listed(prefixes: Seq<(Seq<char>, Seq<char>)>)
    ensures
        prefix_entries(prefixes) == prefixes.map_values(|p: (Seq<char>, Seq<char>)| shown_prefix(p)),
    decreases prefixes.len(),
{
    if prefixes.len() > 0 {
        law_prefixes_listed(prefixes.drop_last());
        assert(prefix_entries(prefixes) =~= prefixes.map_values(|p: (Seq<char>, Seq<char>)| shown_prefix(p)));
    } else {
        assert(prefix_entries(prefixes) =~= prefixes.map_values(|p: (Seq<char>, Seq<char>)| shown_prefix(p)));
    }
}

/// How an object-store error is told apart.
pub enum ObjFailure {
    NotFound,
    PermissionDenied,
    Unauthenticated,
    Other(String),
}

/// Maps an object-store error at `path`.
pub fn map_obj(path: &str, f: ObjFailure) -> (r: FpError)
    ensures
        match f {
            ObjFailure::NotFound => r@ == FpErrorView::NotFound(path@),
            ObjFailure::PermissionDenied => r@ == FpErrorView::Auth(path@ + ": Zugriff abgelehnt"@),
            ObjFailure::Unauthenticated => r@ == FpErrorView::Auth(path@ + ": Zugriff abgelehnt"@),
            ObjFailure::Other(text) => r@ == FpErrorView::Protocol(text@),
        },
{
    match f {
        ObjFailure::NotFound => FpError::NotFound(string_from(path)),
        ObjFailure::PermissionDenied | ObjFailure::Unauthenticated => {
            let mut msg = string_from(path);
            push_str(&mut msg, ": Zugriff abgelehnt");
            FpError::Auth(msg)
        },
        ObjFailure::Other(text) => FpError::Protocol(text),
    }
}

/// A custom S3 endpoint without trailing slashes, and whether plain HTTP
/// must be allowed for it (only `http://` endpoints, as local test servers
/// use).
pub fn s3_endpoint(endpoint: &str) -> (r: (String, bool))
    ensures
        r.0@ == trim_end_char(endpoint@, '/'),
        r.1 == has_prefix(endpoint@, "http://"@),
{
    (trim_end_matches_char(endpoint, '/'), starts_with_str(endpoint, "http://"))
}

pub fn s3_label(bucket: &str) -> (r: String)
    ensures
        r@ == "s3://"@ + bucket@,
{
    let mut s = string_from("s3://");
    push_str(&mut s, bucket);
    s
}

pub fn azure_label(account: &str, container: &str) -> (r: String)
    ensures
        r@ == "az://"@ + account@ + seq!['/'] + container@,
{
    let mut s = string_from("az://");
    push_str(&mut s, account);
    push_char(&mut s, '/');
    push_str(&mut s, container);
    s
}

pub fn gcs_label(bucket: &str) -> (r: String)
    ensures
        r@ == "gs://"@ + bucket@,
{
    let mut s = string_from("gs://");
    push_str(&mut s, bucket);
    s
}

} // verus!
