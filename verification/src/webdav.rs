//! WebDAV: the PROPFIND `multistatus` reader, URL building, status mapping
//! and the connection settings derived from a base URL.

use quick_xml::events::Event;
use vstd::prelude::*;
use vstd::utf8::encode_utf8;

use crate::backend::{entries_view, entry_view, push_entry, Entry, EntryKind, EntryView};
use crate::error::{string_from, FpError, FpErrorView};
use crate::rpath::{file_name, file_name_spec};
use crate::text::{
    decimal, push_decimal, all_digits, chars_of, is_word, same_chars, contains_exec, contains_seq, find_char, first_index_of, has_prefix,
    parse_u64_range, parse_u64_spec, push_char, push_range, push_str, starts_with_exec,
    trim_end_char, trim_end_len, trim_ws, trim_ws_bounds,
};

verus! {

// ---------------------------------------------------------------------
// The XML reader of `quick_xml`
// ---------------------------------------------------------------------

/// `quick_xml::Reader`, a pull parser over a byte source.
#[verifier::external_type_specification]
#[verifier::external_body]
#[verifier::reject_recursive_types(R)]
pub struct ExXmlReader<R>(quick_xml::Reader<R>);

/// `std::io::Cursor`, the in-memory byte source the reader pulls from.
#[verifier::external_type_specification]
#[verifier::external_body]
#[verifier::reject_recursive_types(T)]
pub struct ExCursor<T>(std::io::Cursor<T>);

/// One XML event, reduced to what the PROPFIND reader looks at: the local
/// names of tags, the text of character data, the end of the document and
/// read errors (with their message).
#[derive(Debug)]
pub enum XmlEvent {
    Start(String),
    Empty(String),
    End(String),
    Text(String),
    Eof,
    Failed(String),
    Other,
}

pub enum XmlEventView {
    Start(Seq<char>),
    Empty(Seq<char>),
    End(Seq<char>),
    Text(Seq<char>),
    Eof,
    Failed(Seq<char>),
    Other,
}

impl View for XmlEvent {
    type V = XmlEventView;

    open spec fn view(&self) -> XmlEventView {
        match self {
            XmlEvent::Start(s) => XmlEventView::Start(s@),
            XmlEvent::Empty(s) => XmlEventView::Empty(s@),
            XmlEvent::End(s) => XmlEventView::End(s@),
            XmlEvent::Text(s) => XmlEventView::Text(s@),
            XmlEvent::Eof => XmlEventView::Eof,
            XmlEvent::Failed(s) => XmlEventView::Failed(s@),
            XmlEvent::Other => XmlEventView::Other,
        }
    }
}

pub open spec fn events_view(v: Seq<XmlEvent>) -> Seq<XmlEventView> {
    v.map_values(|e: XmlEvent| e@)
}

pub open spec fn is_terminal(e: XmlEventView) -> bool {
    e is Eof || e is Failed
}

/// A run of events that ends at its first end-of-document or error.
pub open spec fn well_terminated(s: Seq<XmlEventView>) -> bool {
    &&& s.len() > 0
    &&& is_terminal(s.last())
    &&& forall|i: int| 0 <= i < s.len() - 1 ==> !is_terminal(#[trigger] s[i])
}

/// The events `quick_xml` reads from the document `xml` with text trimming
/// switched on, up to and including the first end-of-document or error.
pub uninterp spec fn xml_events(xml: Seq<char>) -> Seq<XmlEventView>;

/// The events a reader has still to deliver.
pub uninterp spec fn xml_pending(
    reader: quick_xml::Reader<std::io::Cursor<Vec<u8>>>,
) -> Seq<XmlEventView>;

/// `quick_xml::Reader::from_reader` over the bytes of `xml`, with
/// `trim_text(true)`: the reader delivers the events of the document in
/// order; reading stops being meaningful at the first end or error, and one
/// of them always comes (every read consumes input or reports the end).
#[verifier::external_body]
fn xml_reader(xml: &str) -> (r: quick_xml::Reader<std::io::Cursor<Vec<u8>>>)
    ensures
        xml_pending(r) == xml_events(xml@),
        well_terminated(xml_pending(r)),
{
    let mut reader = quick_xml::Reader::from_reader(std::io::Cursor::new(xml.as_bytes().to_vec()));
    reader.config_mut().trim_text(true);
    reader
}

/// `quick_xml::Reader::read_event_into`: the next event of the document.
#[verifier::external_body]
fn xml_next(reader: &mut quick_xml::Reader<std::io::Cursor<Vec<u8>>>) -> (e: XmlEvent)
    requires
        xml_pending(*old(reader)).len() > 0,
    ensures
        e@ == xml_pending(*old(reader))[0],
        xml_pending(*final(reader)) == xml_pending(*old(reader)).drop_first(),
{
    let mut buf = Vec::new();
    match reader.read_event_into(&mut buf) {
        Ok(Event::Start(t)) => XmlEvent::Start(t.local_name().as_ref().to_string()),
        Ok(Event::Empty(t)) => XmlEvent::Empty(t.local_name().as_ref().to_string()),
        Ok(Event::End(t)) => XmlEvent::End(t.local_name().as_ref().to_string()),
        Ok(Event::Text(t)) => XmlEvent::Text(t.to_string()),
        Ok(Event::Eof) => XmlEvent::Eof,
        Ok(_) => XmlEvent::Other,
        Err(e) => XmlEvent::Failed(e.to_string()),
    }
}

impl XmlEvent {
    pub fn is_terminal(&self) -> (b: bool)
        ensures
            b == is_terminal(self@),
    {
        match self {
            XmlEvent::Eof => true,
            XmlEvent::Failed(_) => true,
            _ => false,
        }
    }
}

/// All events of the document `xml`, through the first end or error.
pub fn read_xml_events(xml: &str) -> (v: Vec<XmlEvent>)
    ensures
        events_view(v@) == xml_events(xml@),
{
    let mut reader = xml_reader(xml);
    let ghost all = xml_events(xml@);
    assert(well_terminated(all));
    let mut events: Vec<XmlEvent> = Vec::new();
    loop
        invariant
            all == xml_events(xml@),
            well_terminated(all),
            events_view(events@) + xml_pending(reader) == all,
            forall|i: int| 0 <= i < events@.len() ==> !is_terminal(#[trigger] events_view(events@)[i]),
        decreases xml_pending(reader).len(),
    {
        proof {
            if xml_pending(reader).len() == 0 {
                assert(events_view(events@) =~= all);
                assert(is_terminal(all.last()));
                assert(all.last() == events_view(events@)[events@.len() - 1]);
            }
        }
        let ghost before = events@;
        let ghost pending = xml_pending(reader);
        let ghost n = events@.len();
        assert(all[n as int] == pending[0]) by {
            assert((events_view(before) + pending)[n as int] == pending[0]);
        }
        let e = xml_next(&mut reader);
        let term = e.is_terminal();
        events.push(e);
        proof {
            assert(events_view(events@) =~= events_view(before).push(pending[0]));
            assert(events_view(events@) + xml_pending(reader) =~= all);
        }
        if term {
            proof {
                if n < all.len() - 1 {
                    assert(!is_terminal(all[n as int]));
                }
                assert(xml_pending(reader).len() == 0);
                assert(events_view(events@) =~= all);
            }
            return events;
        }
    }
}

// ---------------------------------------------------------------------
// Named results of the other outside calls the reader makes
// ---------------------------------------------------------------------

/// What `str::to_lowercase` makes of `s` (full Unicode case mapping).
pub uninterp spec fn lowercased(s: Seq<char>) -> Seq<char>;

/// What `percent_decode_str(s).decode_utf8_lossy()` makes of `s`.
pub uninterp spec fn percent_decoded(s: Seq<char>) -> Seq<char>;

/// What `httpdate::parse_http_date` makes of `s`, as Unix seconds
/// (`None` where it rejects `s`, or for a time before 1970).
pub uninterp spec fn http_date_value(s: Seq<char>) -> Option<i64>;

/// `str::to_lowercase`.
#[verifier::external_body]
fn lowercase(s: &str) -> (r: String)
    ensures
        r@ == lowercased(s@),
{
    s.to_lowercase()
}

/// `percent_encoding::percent_decode_str` followed by `decode_utf8_lossy`.
#[verifier::external_body]
fn percent_decode(s: &str) -> (r: String)
    ensures
        r@ == percent_decoded(s@),
{
    percent_encoding::percent_decode_str(s).decode_utf8_lossy().into_owned()
}

/// `httpdate::parse_http_date`, converted to Unix seconds.
#[verifier::external_body]
fn parse_http_date(s: &str) -> (r: Option<i64>)
    ensures
        r == http_date_value(s@),
{
    match httpdate::parse_http_date(s) {
        Ok(t) => match t.duration_since(std::time::UNIX_EPOCH) {
            Ok(d) => Some(d.as_secs() as i64),
            Err(_) => None,
        },
        Err(_) => None,
    }
}

// ---------------------------------------------------------------------
// The PROPFIND reader: specification
// ---------------------------------------------------------------------

/// Which property the next character data belongs to.
#[derive(Debug, Clone, Copy, PartialEq, Eq, Structural)]
pub enum TextTarget {
    Href,
    Size,
    Modified,
}

/// The `response` element being read.
pub struct CurView {
    pub href: Seq<char>,
    pub is_dir: bool,
    pub size: u64,
    pub modified: Option<i64>,
}

pub struct PropfindState {
    pub entries: Seq<EntryView>,
    pub cur: Option<CurView>,
    pub target: Option<TextTarget>,
}

pub open spec fn propfind_start() -> PropfindState {
    PropfindState { entries: Seq::empty(), cur: None, target: None }
}

pub open spec fn scheme_sep() -> Seq<char> {
    seq![':', '/', '/']
}

/// Start of the last occurrence of `pat` in `s`.
pub open spec fn last_occurrence(s: Seq<char>, pat: Seq<char>) -> Option<int>
    decreases s.len(),
{
    if s.len() < pat.len() {
        None
    } else if s.skip(s.len() - pat.len()) == pat {
        Some(s.len() - pat.len())
    } else if s.len() == 0 {
        None
    } else {
        last_occurrence(s.drop_last(), pat)
    }
}

/// The path part of an `href`: after the last `://` (the pieces of
/// `split("://")` never overlap, so the last piece starts there), and from
/// its first `/` on when the href carried a scheme.
pub open spec fn href_path(href: Seq<char>) -> Seq<char> {
    let after = match last_occurrence(href, scheme_sep()) {
        Some(i) => href.skip(i + 3),
        None => href,
    };
    if contains_seq(href, scheme_sep()) {
        match first_index_of(after, '/') {
            Some(i) => after.skip(i),
            None => after,
        }
    } else {
        after
    }
}

/// The path of an `href` relative to the DAV root `base` (which has no
/// trailing slash): decoded, rooted at `/`, without trailing slashes.
pub open spec fn rel_path_spec(href: Seq<char>, base: Seq<char>) -> Seq<char> {
    let decoded = percent_decoded(href_path(href));
    let rel = if has_prefix(decoded, base.push('/')) {
        seq!['/'] + decoded.skip(base.len() as int + 1)
    } else if trim_end_char(decoded, '/') == base {
        seq!['/']
    } else {
        decoded
    };
    if rel.len() > 1 {
        trim_end_char(rel, '/')
    } else {
        rel
    }
}

/// The directory a listing is for; the empty path (the root with its
/// trailing slash trimmed off) stands for `/`.
pub open spec fn listed_dir(dir: Seq<char>) -> Seq<char> {
    if dir.len() == 0 {
        seq!['/']
    } else {
        dir
    }
}

/// Whether a response at `rel` is listed: the requested directory itself
/// (which the server reports too) is left out, the root included.
pub open spec fn listed(rel: Seq<char>, dir: Seq<char>) -> bool {
    let d = listed_dir(dir);
    &&& (rel != d && rel != seq!['/']) || (d != seq!['/'] && rel == seq!['/'])
    &&& rel != d
}

pub open spec fn ascii_lower(c: char) -> char {
    if 'A' <= c && c <= 'Z' {
        (c as u32 + 32) as char
    } else {
        c
    }
}

/// `eq_ignore_ascii_case`.
pub open spec fn ascii_eq_ignore_case(a: Seq<char>, b: Seq<char>) -> bool {
    a.len() == b.len() && forall|i: int| 0 <= i < a.len() ==> ascii_lower(#[trigger] a[i]) == ascii_lower(b[i])
}

pub open spec fn open_tag(st: PropfindState, tag: Seq<char>) -> PropfindState {
    if tag == "response"@ {
        PropfindState {
            cur: Some(CurView { href: Seq::empty(), is_dir: false, size: 0, modified: None }),
            ..st
        }
    } else if tag == "collection"@ {
        match st.cur {
            Some(c) => PropfindState { cur: Some(CurView { is_dir: true, ..c }), ..st },
            None => st,
        }
    } else if tag == "href"@ {
        PropfindState { target: Some(TextTarget::Href), ..st }
    } else if tag == "getcontentlength"@ {
        PropfindState { target: Some(TextTarget::Size), ..st }
    } else if tag == "getlastmodified"@ {
        PropfindState { target: Some(TextTarget::Modified), ..st }
    } else {
        st
    }
}

pub open spec fn size_of_text(text: Seq<char>) -> u64 {
    match parse_u64_spec(trim_ws(text)) {
        Some(n) => n,
        None => 0,
    }
}

pub open spec fn take_text(st: PropfindState, text: Seq<char>) -> PropfindState {
    let cur = match (st.target, st.cur) {
        (Some(TextTarget::Href), Some(c)) => Some(CurView { href: text, ..c }),
        (Some(TextTarget::Size), Some(c)) => Some(CurView { size: size_of_text(text), ..c }),
        (Some(TextTarget::Modified), Some(c)) => Some(
            CurView { modified: http_date_value(trim_ws(text)), ..c },
        ),
        _ => st.cur,
    };
    PropfindState { cur, target: None, ..st }
}

pub open spec fn close_response(st: PropfindState, base: Seq<char>, dir: Seq<char>) -> PropfindState {
    match st.cur {
        Some(c) => {
            let rel = rel_path_spec(c.href, base);
            let entries = if listed(rel, dir) {
                st.entries.push(
                    entry_view(
                        file_name_spec(rel),
                        rel,
                        if c.is_dir { EntryKind::Dir } else { EntryKind::File },
                        c.size,
                        c.modified,
                    ),
                )
            } else {
                st.entries
            };
            PropfindState { entries, cur: None, ..st }
        },
        None => st,
    }
}

/// One event of the multistatus document.
pub open spec fn propfind_step(
    st: PropfindState,
    e: XmlEventView,
    base: Seq<char>,
    dir: Seq<char>,
) -> PropfindState {
    match e {
        XmlEventView::Start(name) => open_tag(st, lowercased(name)),
        XmlEventView::Empty(name) => open_tag(st, lowercased(name)),
        XmlEventView::Text(t) => take_text(st, t),
        XmlEventView::End(name) => if ascii_eq_ignore_case(name, "response"@) {
            close_response(st, base, dir)
        } else {
            st
        },
        _ => st,
    }
}

/// The entries below `dir` listed by the events, or the read error.
pub open spec fn propfind_run(
    events: Seq<XmlEventView>,
    st: PropfindState,
    base: Seq<char>,
    dir: Seq<char>,
) -> Result<Seq<EntryView>, FpErrorView>
    decreases events.len(),
{
    if events.len() == 0 {
        Ok(st.entries)
    } else {
        match events[0] {
            XmlEventView::Eof => Ok(st.entries),
            XmlEventView::Failed(msg) => Err(FpErrorView::Protocol("PROPFIND-Antwort: "@ + msg)),
            _ => propfind_run(events.drop_first(), propfind_step(st, events[0], base, dir), base, dir),
        }
    }
}

pub open spec fn entries_result_view(r: Result<Vec<Entry>, FpError>) -> Result<Seq<EntryView>, FpErrorView> {
    match r {
        Ok(v) => Ok(entries_view(v@)),
        Err(e) => Err(e@),
    }
}

// ---------------------------------------------------------------------
// The PROPFIND reader: implementation
// ---------------------------------------------------------------------

struct Cur {
    href: String,
    is_dir: bool,
    size: u64,
    modified: Option<i64>,
}

impl View for Cur {
    type V = CurView;

    closed spec fn view(&self) -> CurView {
        CurView { href: self.href@, is_dir: self.is_dir, size: self.size, modified: self.modified }
    }
}

struct Propfind {
    entries: Vec<Entry>,
    cur: Option<Cur>,
    target: Option<TextTarget>,
}

impl View for Propfind {
    type V = PropfindState;

    closed spec fn view(&self) -> PropfindState {
        PropfindState {
            entries: entries_view(self.entries@),
            cur: match self.cur {
                Some(c) => Some(c@),
                None => None,
            },
            target: self.target,
        }
    }
}

fn ascii_lower_exec(c: char) -> (r: char)
    ensures
        r == ascii_lower(c),
{
    if 'A' <= c && c <= 'Z' {
        ((c as u8) + 32) as char
    } else {
        c
    }
}

fn eq_ignore_ascii_case(s: &str, lit: &str) -> (r: bool)
    ensures
        r == ascii_eq_ignore_case(s@, lit@),
{
    let a = chars_of(s);
    let b = chars_of(lit);
    if a.len() != b.len() {
        return false;
    }
    let mut i: usize = 0;
    while i < a.len()
        invariant
            a@ == s@,
            b@ == lit@,
            a@.len() == b@.len(),
            i <= a@.len(),
            forall|j: int| 0 <= j < i ==> ascii_lower(#[trigger] a@[j]) == ascii_lower(b@[j]),
        decreases a@.len() - i,
    {
        if ascii_lower_exec(a[i]) != ascii_lower_exec(b[i]) {
            assert(ascii_lower(a@[i as int]) != ascii_lower(b@[i as int]));
            return false;
        }
        i = i + 1;
    }
    true
}

/// Start of the last `://` in `v`.
fn last_scheme_sep(v: &[char]) -> (r: Option<usize>)
    ensures
        match r {
            Some(i) => last_occurrence(v@, scheme_sep()) == Some(i as int) && i + 3 <= v.len(),
            None => last_occurrence(v@, scheme_sep()) is None,
        },
{
    let ghost pat = scheme_sep();
    let mut k = v.len();
    assert(v@.take(k as int) =~= v@);
    while k >= 3 && !(v[k - 3] == ':' && v[k - 2] == '/' && v[k - 1] == '/')
        invariant
            k <= v@.len(),
            k <= v.len(),
            pat == scheme_sep(),
            last_occurrence(v@, pat) == last_occurrence(v@.take(k as int), pat),
        decreases k,
    {
        proof {
            let t = v@.take(k as int);
            assert(t.len() == k);
            assert(pat[0] == ':' && pat[1] == '/' && pat[2] == '/');
            assert(t.skip(t.len() - 3) != pat) by {
                if t.skip(t.len() - 3) == pat {
                    assert(t.skip(t.len() - 3)[0] == v@[k - 3]);
                    assert(t.skip(t.len() - 3)[1] == v@[k - 2]);
                    assert(t.skip(t.len() - 3)[2] == v@[k - 1]);
                }
            }
            assert(t.drop_last() =~= v@.take(k - 1));
        }
        k = k - 1;
    }
    if k >= 3 {
        proof {
            let t = v@.take(k as int);
            assert(t.skip(t.len() - 3) =~= pat);
        }
        Some(k - 3)
    } else {
        proof {
            assert(v@.take(k as int).len() < pat.len());
        }
        None
    }
}

/// The path of `href` relative to the DAV root `base_path`.
pub fn rel_path(href: &str, base_path: &str) -> (r: String)
    ensures
        r@ == rel_path_spec(href@, base_path@),
{
    let h = chars_of(href);
    let sep = vec![':', '/', '/'];
    assert(sep@ =~= scheme_sep());
    let start = match last_scheme_sep(&h) {
        Some(i) => i + 3,
        None => 0,
    };
    let ghost after = match last_occurrence(href@, scheme_sep()) {
        Some(i) => href@.skip(i + 3),
        None => href@,
    };
    assert(h@.skip(start as int) =~= after) by {
        if start == 0 {
            assert(h@.skip(0) =~= h@);
        }
    }
    let has_scheme = contains_exec(&h, &sep);
    let mut from = start;
    if has_scheme {
        match find_char(&h, start, '/') {
            Some(i) => {
                from = i;
                assert(h@.skip(i as int) =~= after.skip(i - start));
            },
            None => {},
        }
    }
    let mut raw = String::new();
    push_range(&mut raw, &h, from, h.len());
    assert(raw@ =~= href_path(href@)) by {
        assert(h@.subrange(from as int, h@.len() as int) =~= h@.skip(from as int));
    }
    let decoded = percent_decode(raw.as_str());
    let d = chars_of(decoded.as_str());
    let b = chars_of(base_path);
    let ghost dv = d@;
    let ghost bv = b@;
    // rel as the chars rel_chars[lo..] with an optional leading '/'
    let mut rel: Vec<char> = Vec::new();
    let prefixed = d.len() > b.len() && starts_with_exec(&d, &b) && d[b.len()] == '/';
    assert(prefixed == has_prefix(dv, bv.push('/'))) by {
        let bl = bv.len() as int;
        if prefixed {
            assert(dv.take(bl + 1) =~= dv.take(bl).push(dv[bl]));
            assert(dv.take(bl) == bv);
        }
        if has_prefix(dv, bv.push('/')) {
            assert(bv.push('/').drop_last() =~= bv);
            assert(dv.take(bl) =~= dv.take(bl + 1).drop_last());
            assert(dv.take(bl + 1)[bl] == dv[bl]);
            assert(bv.push('/')[bl] == '/');
            assert(has_prefix(dv, bv));
        }
    }
    if prefixed {
        rel.push('/');
        let mut i = b.len() + 1;
        while i < d.len()
            invariant
                b@.len() as int + 1 <= i <= d@.len(),
                rel@ == seq!['/'] + d@.subrange(b@.len() as int + 1, i as int),
            decreases d@.len() - i,
        {
            rel.push(d[i]);
            assert(d@.subrange(b@.len() as int + 1, i + 1) =~= d@.subrange(b@.len() as int + 1, i as int).push(d@[i as int]));
            i = i + 1;
        }
        assert(d@.subrange(b@.len() as int + 1, d@.len() as int) =~= dv.skip(bv.len() as int + 1));
    } else {
        let n = trim_end_len(&d, d.len(), '/');
        assert(d@.take(d@.len() as int) =~= dv);
        let mut same = n == b.len();
        if same {
            let mut i: usize = 0;
            while i < n
                invariant
                    n == b@.len(),
                    n <= d@.len(),
                    i <= n,
                    same == forall|j: int| 0 <= j < i ==> d@[j] == b@[j],
                decreases n - i,
            {
                if d[i] != b[i] {
                    same = false;
                }
                i = i + 1;
            }
        }
        assert(same == (trim_end_char(dv, '/') == bv)) by {
            if same {
                assert(d@.take(n as int) =~= bv);
            }
            if trim_end_char(dv, '/') == bv {
                assert(n == b@.len());
                assert forall|j: int| 0 <= j < n implies d@[j] == b@[j] by {
                    assert(d@.take(n as int)[j] == d@[j]);
                }
            }
        }
        if same {
            rel.push('/');
        } else {
            let mut i: usize = 0;
            while i < d.len()
                invariant
                    i <= d@.len(),
                    rel@ == d@.take(i as int),
                decreases d@.len() - i,
            {
                rel.push(d[i]);
                assert(d@.take(i + 1) =~= d@.take(i as int).push(d@[i as int]));
                i = i + 1;
            }
            assert(d@.take(d@.len() as int) =~= dv);
        }
    }
    let ghost relv = rel@;
    let n = if rel.len() > 1 {
        trim_end_len(&rel, rel.len(), '/')
    } else {
        rel.len()
    };
    let mut out = String::new();
    push_range(&mut out, &rel, 0, n);
    proof {
        assert(rel@.take(rel@.len() as int) =~= relv);
        assert(rel@.subrange(0, n as int) =~= rel@.take(n as int));
        assert(out@ =~= rel_path_spec(href@, base_path@));
    }
    out
}

impl Propfind {
    fn new() -> (p: Propfind)
        ensures
            p@ == propfind_start(),
    {
        let p = Propfind { entries: Vec::new(), cur: None, target: None };
        assert(entries_view(p.entries@) =~= Seq::<EntryView>::empty());
        p
    }

    fn open_tag(&mut self, name: &str)
        ensures
            final(self)@ == open_tag(old(self)@, lowercased(name@)),
    {
        let tag = lowercase(name);
        if is_word(tag.as_str(), "response") {
            self.cur = Some(Cur { href: String::new(), is_dir: false, size: 0, modified: None });
        } else if is_word(tag.as_str(), "collection") {
            match &mut self.cur {
                Some(c) => {
                    c.is_dir = true;
                },
                None => {},
            }
        } else if is_word(tag.as_str(), "href") {
            self.target = Some(TextTarget::Href);
        } else if is_word(tag.as_str(), "getcontentlength") {
            self.target = Some(TextTarget::Size);
        } else if is_word(tag.as_str(), "getlastmodified") {
            self.target = Some(TextTarget::Modified);
        }
    }

    fn take_text(&mut self, text: &str)
        ensures
            final(self)@ == take_text(old(self)@, text@),
    {
        match self.target {
            Some(target) => match &mut self.cur {
                Some(c) => {
                    match target {
                        TextTarget::Href => {
                            c.href = string_from(text);
                        },
                        TextTarget::Size => {
                            let t = chars_of(text);
                            let (a, b) = trim_ws_bounds(&t, 0, t.len());
                            assert(t@.subrange(0, t@.len() as int) =~= text@);
                            c.size = match parse_u64_range(&t, a, b) {
                                Some(n) => n,
                                None => 0,
                            };
                        },
                        TextTarget::Modified => {
                            let t = chars_of(text);
                            let (a, b) = trim_ws_bounds(&t, 0, t.len());
                            assert(t@.subrange(0, t@.len() as int) =~= text@);
                            let mut trimmed = String::new();
                            push_range(&mut trimmed, &t, a, b);
                            c.modified = parse_http_date(trimmed.as_str());
                        },
                    }
                },
                None => {},
            },
            None => {},
        }
        self.target = None;
    }

    fn close_response(&mut self, base_path: &str, dir: &str)
        ensures
            final(self)@ == close_response(old(self)@, base_path@, dir@),
    {
        let cur = self.cur.take();
        match cur {
            Some(c) => {
                let rel = rel_path(c.href.as_str(), base_path);
                let r = chars_of(rel.as_str());
                let root = vec!['/'];
                assert(root@ =~= seq!['/']);
                let given = chars_of(dir);
                let dv = if given.len() == 0 {
                    root.clone()
                } else {
                    given
                };
                assert(dv@ =~= listed_dir(dir@));
                let is_dir_itself = same_chars(&r, &dv);
                let rel_is_root = same_chars(&r, &root);
                let dir_is_root = same_chars(&dv, &root);
                let keep = ((!is_dir_itself && !rel_is_root) || (!dir_is_root && rel_is_root))
                    && !is_dir_itself;
                if keep {
                    let name = string_from(file_name(rel.as_str()));
                    let e = Entry {
                        name,
                        path: rel,
                        kind: if c.is_dir { EntryKind::Dir } else { EntryKind::File },
                        size: c.size,
                        modified: c.modified,
                    };
                    push_entry(&mut self.entries, e);
                }
            },
            None => {},
        }
    }

    fn step(&mut self, e: &XmlEvent, base_path: &str, dir: &str)
        ensures
            final(self)@ == propfind_step(old(self)@, e@, base_path@, dir@),
    {
        match e {
            XmlEvent::Start(name) => self.open_tag(name.as_str()),
            XmlEvent::Empty(name) => self.open_tag(name.as_str()),
            XmlEvent::Text(t) => self.take_text(t.as_str()),
            XmlEvent::End(name) => {
                if eq_ignore_ascii_case(name.as_str(), "response") {
                    self.close_response(base_path, dir);
                }
            },
            _ => {},
        }
    }
}

/// The entries below `dir` that a PROPFIND `multistatus` reply lists, read
/// from its events; `base_path` is the path of the DAV root (no trailing
/// slash). The directory itself is left out; a read error ends the reply.
pub fn entries_from_events(events: &Vec<XmlEvent>, base_path: &str, dir: &str) -> (r: Result<
    Vec<Entry>,
    FpError,
>)
    ensures
        entries_result_view(r) == propfind_run(events_view(events@), propfind_start(), base_path@, dir@),
{
    let mut p = Propfind::new();
    let mut i: usize = 0;
    assert(events_view(events@).skip(0) =~= events_view(events@));
    while i < events.len()
        invariant
            i <= events@.len(),
            propfind_run(events_view(events@), propfind_start(), base_path@, dir@) == propfind_run(
                events_view(events@).skip(i as int),
                p@,
                base_path@,
                dir@,
            ),
        decreases events@.len() - i,
    {
        let ghost rest = events_view(events@).skip(i as int);
        assert(rest[0] == events[i as int]@);
        assert(rest.drop_first() =~= events_view(events@).skip(i + 1));
        match &events[i] {
            XmlEvent::Eof => {
                return Ok(p.entries);
            },
            XmlEvent::Failed(msg) => {
                let mut text = string_from("PROPFIND-Antwort: ");
                push_str(&mut text, msg.as_str());
                return Err(FpError::Protocol(text));
            },
            _ => {},
        }
        p.step(&events[i], base_path, dir);
        i = i + 1;
    }
    assert(events_view(events@).skip(i as int).len() == 0);
    Ok(p.entries)
}

/// The entries below `dir` listed by the PROPFIND reply `xml`.
pub fn parse_propfind(xml: &str, base_path: &str, dir: &str) -> (r: Result<Vec<Entry>, FpError>)
    ensures
        entries_result_view(r) == propfind_run(xml_events(xml@), propfind_start(), base_path@, dir@),
{
    let events = read_xml_events(xml);
    entries_from_events(&events, base_path, dir)
}

/// What holds of every entry of a listing of `dir`: it is not `dir`
/// itself (nor `/` when the root is listed, as `/` or as the empty path),
/// and its name is the last component of its path.
pub open spec fn listed_below(entries: Seq<EntryView>, dir: Seq<char>) -> bool {
    forall|i: int|
        #![trigger entries[i]]
        0 <= i < entries.len() ==> entries[i].path != listed_dir(dir) && entries[i].name == file_name_spec(
            entries[i].path,
        )
}

proof fn lemma_step_keeps_listed(st: PropfindState, e: XmlEventView, base: Seq<char>, dir: Seq<char>)
    requires
        listed_below(st.entries, dir),
    ensures
        listed_below(propfind_step(st, e, base, dir).entries, dir),
{
    let next = propfind_step(st, e, base, dir);
    assert forall|i: int| 0 <= i < next.entries.len() implies next.entries[i].path != listed_dir(dir)
        && next.entries[i].name == file_name_spec(next.entries[i].path) by {
        if i < st.entries.len() {
            assert(next.entries[i] == st.entries[i]);
        }
    }
}

proof fn lemma_run_keeps_listed(events: Seq<XmlEventView>, st: PropfindState, base: Seq<char>, dir: Seq<char>)
    requires
        listed_below(st.entries, dir),
    ensures
        propfind_run(events, st, base, dir) matches Ok(es) ==> listed_below(es, dir),
    decreases events.len(),
{
    if events.len() > 0 {
        match events[0] {
            XmlEventView::Eof => {},
            XmlEventView::Failed(_) => {},
            _ => {
                lemma_step_keeps_listed(st, events[0], base, dir);
                lemma_run_keeps_listed(events.drop_first(), propfind_step(st, events[0], base, dir), base, dir);
            },
        }
    }
}

/// A PROPFIND listing of `dir` (as [`parse_propfind`] and
/// [`entries_from_events`] return it) never contains `dir` itself — a
/// listing of the root never contains `/` — and each entry is named after
/// the last component of its path.
pub proof fn law_listing_leaves_out_dir(events: Seq<XmlEventView>, base: Seq<char>, dir: Seq<char>)
    ensures
        propfind_run(events, propfind_start(), base, dir) matches Ok(es) ==> listed_below(es, dir),
{
    lemma_run_keeps_listed(events, propfind_start(), base, dir);
}

/// Closing a `response` element: unless its path is the listed directory
/// itself (the root, where the empty path is asked for), it becomes one
/// more entry, named after the path's last component, a directory exactly
/// when the response said `collection`, with the size and the modification
/// time read from the response, whatever its kind.
pub proof fn law_response_becomes_entry(st: PropfindState, base: Seq<char>, dir: Seq<char>)
    requires
        st.cur is Some,
    ensures
        ({
            let c = st.cur.unwrap();
            let rel = rel_path_spec(c.href, base);
            let after = close_response(st, base, dir);
            &&& after.cur is None
            &&& after.target == st.target
            &&& rel != (if dir.len() == 0 { seq!['/'] } else { dir }) ==> after.entries == st.entries.push(
                EntryView {
                    name: file_name_spec(rel),
                    path: rel,
                    kind: if c.is_dir {
                        EntryKind::Dir
                    } else {
                        EntryKind::File
                    },
                    size: c.size,
                    modified: c.modified,
                },
            )
            &&& rel == (if dir.len() == 0 { seq!['/'] } else { dir }) ==> after.entries == st.entries
        }),
{
}

proof fn lemma_run_first(e: XmlEventView, rest: Seq<XmlEventView>, st: PropfindState, base: Seq<char>, dir: Seq<char>)
    requires
        !(e is Eof),
        !(e is Failed),
    ensures
        propfind_run(seq![e] + rest, st, base, dir) == propfind_run(rest, propfind_step(st, e, base, dir), base, dir),
{
    let all = seq![e] + rest;
    assert(all[0] == e);
    assert(all.drop_first() =~= rest);
}

/// A whole `response` read from its events: its `href`, optionally the
/// `collection` marker, its `getcontentlength` and its `getlastmodified`
/// become one entry whose kind, size and modification time are the ones
/// the response carries — the date parsed from its text for directories
/// and files alike. Tag names count as the parser reads them (lowercased);
/// the closing tag in any ASCII case.
pub proof fn law_response_read_whole(
    response: Seq<char>,
    href_tag: Seq<char>,
    href: Seq<char>,
    collection: Option<Seq<char>>,
    length_tag: Seq<char>,
    length: Seq<char>,
    date_tag: Seq<char>,
    date: Seq<char>,
    end: Seq<char>,
    base: Seq<char>,
    dir: Seq<char>,
)
    requires
        lowercased(response) == "response"@,
        lowercased(href_tag) == "href"@,
        collection matches Some(c) ==> lowercased(c) == "collection"@,
        lowercased(length_tag) == "getcontentlength"@,
        lowercased(date_tag) == "getlastmodified"@,
        ascii_eq_ignore_case(end, "response"@),
        rel_path_spec(href, base) != (if dir.len() == 0 { seq!['/'] } else { dir }),
    ensures
        propfind_run(
            seq![XmlEventView::Start(response), XmlEventView::Start(href_tag), XmlEventView::Text(href)] + (
            match collection {
                Some(c) => seq![XmlEventView::Empty(c)],
                None => Seq::empty(),
            }) + seq![
                XmlEventView::Start(length_tag),
                XmlEventView::Text(length),
                XmlEventView::Start(date_tag),
                XmlEventView::Text(date),
                XmlEventView::End(end),
                XmlEventView::Eof,
            ],
            propfind_start(),
            base,
            dir,
        ) == Ok::<Seq<EntryView>, FpErrorView>(
            seq![
                EntryView {
                    name: file_name_spec(rel_path_spec(href, base)),
                    path: rel_path_spec(href, base),
                    kind: if collection is Some {
                        EntryKind::Dir
                    } else {
                        EntryKind::File
                    },
                    size: match parse_u64_spec(trim_ws(length)) {
                        Some(n) => n,
                        None => 0,
                    },
                    modified: http_date_value(trim_ws(date)),
                },
            ],
        ),
{
    reveal_strlit("response");
    reveal_strlit("href");
    reveal_strlit("collection");
    reveal_strlit("getcontentlength");
    reveal_strlit("getlastmodified");
    let middle = match collection {
        Some(c) => seq![XmlEventView::Empty(c)],
        None => Seq::<XmlEventView>::empty(),
    };
    let tail = seq![
        XmlEventView::Start(length_tag),
        XmlEventView::Text(length),
        XmlEventView::Start(date_tag),
        XmlEventView::Text(date),
        XmlEventView::End(end),
        XmlEventView::Eof,
    ];
    let head = seq![XmlEventView::Start(response), XmlEventView::Start(href_tag), XmlEventView::Text(href)];
    let all = head + middle + tail;
    let s0 = propfind_start();
    let r1 = seq![XmlEventView::Start(href_tag), XmlEventView::Text(href)] + middle + tail;
    assert(all =~= seq![XmlEventView::Start(response)] + r1);
    lemma_run_first(XmlEventView::Start(response), r1, s0, base, dir);
    let s1 = propfind_step(s0, XmlEventView::Start(response), base, dir);
    let r2 = seq![XmlEventView::Text(href)] + middle + tail;
    assert(r1 =~= seq![XmlEventView::Start(href_tag)] + r2);
    lemma_run_first(XmlEventView::Start(href_tag), r2, s1, base, dir);
    let s2 = propfind_step(s1, XmlEventView::Start(href_tag), base, dir);
    let r3 = middle + tail;
    assert(r2 =~= seq![XmlEventView::Text(href)] + r3);
    lemma_run_first(XmlEventView::Text(href), r3, s2, base, dir);
    assert("href"@ != "response"@);
    assert(s1.cur == Some(CurView { href: Seq::empty(), is_dir: false, size: 0, modified: None }));
    assert(s1.target is None);
    assert(s1.entries.len() == 0);
    assert("href"@.len() == 4);
    assert("response"@.len() == 8);
    assert("collection"@.len() == 10);
    assert("getcontentlength"@.len() == 16);
    assert("getlastmodified"@.len() == 15);
    assert("href"@ != "collection"@);
    assert(lowercased(href_tag) == "href"@);
    assert(s2 == open_tag(s1, "href"@));
    assert(s2 == PropfindState { target: Some(TextTarget::Href), ..s1 });
    assert(s2.cur == s1.cur);
    assert(s2.target == Some(TextTarget::Href));
    assert(s2.entries.len() == 0);
    let s3 = propfind_step(s2, XmlEventView::Text(href), base, dir);
    assert(s3 == take_text(s2, href));
    assert(s3.cur == Some(CurView { href, is_dir: false, size: 0, modified: None }));
    let s4 = match collection {
        Some(c) => {
            assert(r3 =~= seq![XmlEventView::Empty(c)] + tail);
            lemma_run_first(XmlEventView::Empty(c), tail, s3, base, dir);
            propfind_step(s3, XmlEventView::Empty(c), base, dir)
        },
        None => {
            assert(r3 =~= tail);
            s3
        },
    };
    assert(propfind_run(all, s0, base, dir) == propfind_run(tail, s4, base, dir));
    assert(s4.cur == Some(CurView { href, is_dir: collection is Some, size: 0, modified: None }));
    assert(s4.entries == Seq::<EntryView>::empty());
    let t1 = seq![XmlEventView::Text(length), XmlEventView::Start(date_tag), XmlEventView::Text(date), XmlEventView::End(end), XmlEventView::Eof];
    assert(tail =~= seq![XmlEventView::Start(length_tag)] + t1);
    lemma_run_first(XmlEventView::Start(length_tag), t1, s4, base, dir);
    let s5 = propfind_step(s4, XmlEventView::Start(length_tag), base, dir);
    let t2 = seq![XmlEventView::Start(date_tag), XmlEventView::Text(date), XmlEventView::End(end), XmlEventView::Eof];
    assert(t1 =~= seq![XmlEventView::Text(length)] + t2);
    lemma_run_first(XmlEventView::Text(length), t2, s5, base, dir);
    let s6 = propfind_step(s5, XmlEventView::Text(length), base, dir);
    let t3 = seq![XmlEventView::Text(date), XmlEventView::End(end), XmlEventView::Eof];
    assert(t2 =~= seq![XmlEventView::Start(date_tag)] + t3);
    lemma_run_first(XmlEventView::Start(date_tag), t3, s6, base, dir);
    let s7 = propfind_step(s6, XmlEventView::Start(date_tag), base, dir);
    let t4 = seq![XmlEventView::End(end), XmlEventView::Eof];
    assert(t3 =~= seq![XmlEventView::Text(date)] + t4);
    lemma_run_first(XmlEventView::Text(date), t4, s7, base, dir);
    let s8 = propfind_step(s7, XmlEventView::Text(date), base, dir);
    let t5 = seq![XmlEventView::Eof];
    assert(t4 =~= seq![XmlEventView::End(end)] + t5);
    lemma_run_first(XmlEventView::End(end), t5, s8, base, dir);
    let s9 = propfind_step(s8, XmlEventView::End(end), base, dir);
    assert(t5[0] is Eof);
    assert(propfind_run(t5, s9, base, dir) == Ok::<Seq<EntryView>, FpErrorView>(s9.entries));
    assert(s9.entries =~= seq![
        EntryView {
            name: file_name_spec(rel_path_spec(href, base)),
            path: rel_path_spec(href, base),
            kind: if collection is Some {
                EntryKind::Dir
            } else {
                EntryKind::File
            },
            size: match parse_u64_spec(trim_ws(length)) {
                Some(n) => n,
                None => 0,
            },
            modified: http_date_value(trim_ws(date)),
        },
    ]);
}

// ---------------------------------------------------------------------
// Request URLs
// ---------------------------------------------------------------------

/// The bytes a path segment encodes: the C0 controls and DEL, plus the
/// characters that would end or confuse a URL path.
pub open spec fn encoded_in_path(b: u8) -> bool {
    ||| b < 0x20
    ||| b == 0x7f
    ||| b == 0x20 /* space */
    ||| b == 0x22 /* " */
    ||| b == 0x23 /* # */
    ||| b == 0x3c /* < */
    ||| b == 0x3e /* > */
    ||| b == 0x3f /* ? */
    ||| b == 0x60 /* ` */
    ||| b == 0x7b /* { */
    ||| b == 0x7d /* } */
    ||| b == 0x25 /* % */
    ||| b == 0x5b /* [ */
    ||| b == 0x5d /* ] */
    ||| b == 0x7c /* | */
    ||| b == 0x5c /* \ */
    ||| b == 0x5e /* ^ */
}

pub open spec fn hex_digit(d: u8) -> char {
    if d < 10 {
        (d + 0x30) as char
    } else {
        (d - 10 + 0x41) as char
    }
}

/// One byte, percent-encoded where it is not plain ASCII or lies in the set.
pub open spec fn encode_byte(b: u8) -> Seq<char> {
    if b >= 0x80 || encoded_in_path(b) {
        seq!['%', hex_digit(b / 16), hex_digit(b % 16)]
    } else {
        seq![b as char]
    }
}

/// `utf8_percent_encode` with the path set above, on the UTF-8 bytes `bytes`.
pub open spec fn percent_encoded(bytes: Seq<u8>) -> Seq<char>
    decreases bytes.len(),
{
    if bytes.len() == 0 {
        Seq::empty()
    } else {
        percent_encoded(bytes.drop_last()) + encode_byte(bytes.last())
    }
}

/// `bytes` without its leading `/` bytes.
pub open spec fn skip_slashes(bytes: Seq<u8>) -> Seq<u8>
    decreases bytes.len(),
{
    if bytes.len() > 0 && bytes[0] == 0x2f {
        skip_slashes(bytes.drop_first())
    } else {
        bytes
    }
}

/// The URL of `path` below the DAV root `base`.
pub open spec fn dav_url_spec(base: Seq<char>, path: Seq<char>) -> Seq<char> {
    base + seq!['/'] + percent_encoded(skip_slashes(encode_utf8(path)))
}

fn hex_digit_exec(d: u8) -> (c: char)
    requires
        d < 16,
    ensures
        c == hex_digit(d),
{
    if d < 10 {
        (d + 0x30) as char
    } else {
        (d - 10 + 0x41) as char
    }
}

proof fn lemma_skip_slashes(bytes: Seq<u8>, n: int)
    requires
        0 <= n <= bytes.len(),
        forall|i: int| 0 <= i < n ==> bytes[i] == 0x2f,
    ensures
        skip_slashes(bytes) == skip_slashes(bytes.skip(n)),
    decreases n,
{
    if n > 0 {
        assert(bytes.drop_first().skip(n - 1) =~= bytes.skip(n));
        lemma_skip_slashes(bytes.drop_first(), n - 1);
    } else {
        assert(bytes.skip(0) =~= bytes);
    }
}

/// The URL of the remote `path` below the DAV root `base`: the path loses
/// its leading slashes and is percent-encoded.
pub fn dav_url(base: &str, path: &str) -> (r: String)
    ensures
        r@ == dav_url_spec(base@, path@),
{
    let bytes = path.as_bytes();
    let mut i: usize = 0;
    while i < bytes.len() && bytes[i] == 0x2f
        invariant
            i <= bytes@.len(),
            bytes@ == encode_utf8(path@),
            forall|j: int| 0 <= j < i ==> bytes@[j] == 0x2f,
        decreases bytes@.len() - i,
    {
        i = i + 1;
    }
    proof {
        lemma_skip_slashes(bytes@, i as int);
        let rest = bytes@.skip(i as int);
        if rest.len() > 0 {
            assert(rest[0] == bytes@[i as int]);
        }
    }
    let ghost start = i;
    let mut out = string_from(base);
    push_char(&mut out, '/');
    let ghost head = out@;
    assert(bytes@.subrange(start as int, i as int) =~= Seq::<u8>::empty());
    while i < bytes.len()
        invariant
            start <= i <= bytes@.len(),
            out@ == head + percent_encoded(bytes@.subrange(start as int, i as int)),
        decreases bytes@.len() - i,
    {
        let b = bytes[i];
        let ghost before = out@;
        if b >= 0x80 || b < 0x20 || b == 0x7f || b == 0x20 || b == 0x22 || b == 0x23 || b == 0x3c
            || b == 0x3e || b == 0x3f || b == 0x60 || b == 0x7b || b == 0x7d || b == 0x25
            || b == 0x5b || b == 0x5d || b == 0x7c || b == 0x5c || b == 0x5e {
            push_char(&mut out, '%');
            push_char(&mut out, hex_digit_exec(b / 16));
            push_char(&mut out, hex_digit_exec(b % 16));
            assert(out@ =~= before + encode_byte(b));
        } else {
            push_char(&mut out, b as char);
            assert(out@ =~= before + encode_byte(b));
        }
        proof {
            let s = bytes@.subrange(start as int, i + 1);
            assert(s.drop_last() =~= bytes@.subrange(start as int, i as int));
            assert(s.last() == b);
        }
        i = i + 1;
    }
    proof {
        assert(bytes@.subrange(start as int, bytes@.len() as int) =~= bytes@.skip(start as int));
    }
    out
}

// ---------------------------------------------------------------------
// HTTP status
// ---------------------------------------------------------------------

/// The canonical reason phrase `http` knows for a status code.
pub uninterp spec fn status_reason(code: u16) -> Option<Seq<char>>;

/// `StatusCode::from_u16(code)` and `canonical_reason`.
#[verifier::external_body]
fn canonical_reason(code: u16) -> (r: Option<String>)
    requires
        100 <= code <= 999,
    ensures
        match r {
            Some(s) => status_reason(code) == Some(s@),
            None => status_reason(code) is None,
        },
{
    match reqwest::StatusCode::from_u16(code) {
        Ok(status) => match status.canonical_reason() {
            Some(reason) => Some(reason.to_string()),
            None => None,
        },
        Err(_) => None,
    }
}

/// How a status is displayed: its number and its reason phrase.
pub open spec fn status_text(code: u16) -> Seq<char> {
    decimal(code as nat) + seq![' '] + match status_reason(code) {
        Some(r) => r,
        None => "<unknown status code>"@,
    }
}

/// The error for a failed request on `path`.
pub open spec fn status_error(path: Seq<char>, code: u16) -> FpErrorView {
    if code == 404 {
        FpErrorView::NotFound(path)
    } else if code == 401 {
        FpErrorView::Auth("Zugangsdaten abgelehnt (401)"@)
    } else if code == 403 {
        FpErrorView::Denied(path)
    } else {
        FpErrorView::Protocol(path + ": HTTP "@ + status_text(code))
    }
}

/// Maps a failed HTTP status on `path` to an error.
pub fn map_status(path: &str, code: u16) -> (r: FpError)
    requires
        100 <= code <= 999,
    ensures
        r@ == status_error(path@, code),
{
    if code == 404 {
        FpError::NotFound(string_from(path))
    } else if code == 401 {
        FpError::Auth(string_from("Zugangsdaten abgelehnt (401)"))
    } else if code == 403 {
        FpError::Denied(string_from(path))
    } else {
        let mut text = string_from(path);
        push_str(&mut text, ": HTTP ");
        push_decimal(&mut text, code as u128);
        push_char(&mut text, ' ');
        match canonical_reason(code) {
            Some(reason) => push_str(&mut text, reason.as_str()),
            None => push_str(&mut text, "<unknown status code>"),
        }
        proof {
            assert(text@ =~= path@ + ": HTTP "@ + status_text(code));
        }
        FpError::Protocol(text)
    }
}

/// Whether a status means success (`2xx`).
pub open spec fn is_success(code: u16) -> bool {
    200 <= code < 300
}

/// Success for a `2xx` status, the mapped error otherwise.
pub fn check_status(path: &str, code: u16) -> (r: Result<(), FpError>)
    requires
        100 <= code <= 999,
    ensures
        match r {
            Ok(()) => is_success(code),
            Err(e) => !is_success(code) && e@ == status_error(path@, code),
        },
{
    if 200 <= code && code < 300 {
        Ok(())
    } else {
        Err(map_status(path, code))
    }
}

/// The byte count reported after an upload: the local size where known.
pub fn uploaded_bytes(total: Option<u64>) -> (r: u64)
    ensures
        r == match total {
            Some(n) => n,
            None => 0,
        },
{
    match total {
        Some(n) => n,
        None => 0,
    }
}

// ---------------------------------------------------------------------
// Connection settings
// ---------------------------------------------------------------------

pub struct WebdavConfig {
    /// Base URL of the DAV root, e.g.
    /// `https://cloud.example.com/remote.php/dav/files/anna`.
    pub base_url: String,
    pub user: String,
    pub password: String,
    pub accept_invalid_certs: bool,
}

/// What the URL parser of `reqwest` (the `url` crate) makes of `s`: the host
/// (where there is one) and the path, or the parser's error message.
pub uninterp spec fn parsed_url(s: Seq<char>) -> Result<(Option<Seq<char>>, Seq<char>), Seq<char>>;

/// `reqwest::Url::parse`, then `host_str` and `path`.
#[verifier::external_body]
fn parse_url(s: &str) -> (r: Result<(Option<String>, String), String>)
    ensures
        match r {
            Ok((host, path)) => parsed_url(s@) == Ok::<(Option<Seq<char>>, Seq<char>), Seq<char>>((
                match host {
                    Some(h) => Some(h@),
                    None => None,
                },
                path@,
            )),
            Err(e) => parsed_url(s@) == Err::<(Option<Seq<char>>, Seq<char>), Seq<char>>(e@),
        },
{
    match reqwest::Url::parse(s) {
        Ok(url) => Ok((url.host_str().map(str::to_string), url.path().to_string())),
        Err(e) => Err(e.to_string()),
    }
}

/// Where a WebDAV connection points, derived from its configuration.
pub struct WebdavSettings {
    /// The base URL without trailing slashes.
    pub base: String,
    /// The decoded path of the base URL, cut from returned hrefs.
    pub base_path: String,
    pub label: String,
}

pub struct WebdavSettingsView {
    pub base: Seq<char>,
    pub base_path: Seq<char>,
    pub label: Seq<char>,
}

impl View for WebdavSettings {
    type V = WebdavSettingsView;

    open spec fn view(&self) -> WebdavSettingsView {
        WebdavSettingsView { base: self.base@, base_path: self.base_path@, label: self.label@ }
    }
}

pub open spec fn webdav_settings_spec(base_url: Seq<char>, user: Seq<char>) -> Result<
    WebdavSettingsView,
    FpErrorView,
> {
    let base = trim_end_char(base_url, '/');
    match parsed_url(base) {
        Ok((host, path)) => Ok(
            WebdavSettingsView {
                base,
                base_path: trim_end_char(percent_decoded(path), '/'),
                label: "dav://"@ + user + seq!['@'] + match host {
                    Some(h) => h,
                    None => Seq::empty(),
                },
            },
        ),
        Err(msg) => Err(FpErrorView::Connect("Ungültige URL: "@ + msg)),
    }
}

/// The base URL, root path and label of a WebDAV connection.
pub fn webdav_settings(base_url: &str, user: &str) -> (r: Result<WebdavSettings, FpError>)
    ensures
        match r {
            Ok(s) => webdav_settings_spec(base_url@, user@) == Ok::<WebdavSettingsView, FpErrorView>(s@),
            Err(e) => webdav_settings_spec(base_url@, user@) == Err::<WebdavSettingsView, FpErrorView>(e@),
        },
{
    let u = chars_of(base_url);
    let n = trim_end_len(&u, u.len(), '/');
    assert(u@.take(u@.len() as int) =~= base_url@);
    let mut base = String::new();
    push_range(&mut base, &u, 0, n);
    assert(u@.subrange(0, n as int) =~= u@.take(n as int));
    match parse_url(base.as_str()) {
        Ok((host, path)) => {
            let decoded = percent_decode(path.as_str());
            let d = chars_of(decoded.as_str());
            let m = trim_end_len(&d, d.len(), '/');
            assert(d@.take(d@.len() as int) =~= decoded@);
            let mut base_path = String::new();
            push_range(&mut base_path, &d, 0, m);
            assert(d@.subrange(0, m as int) =~= d@.take(m as int));
            let mut label = string_from("dav://");
            push_str(&mut label, user);
            push_char(&mut label, '@');
            match host {
                Some(h) => push_str(&mut label, h.as_str()),
                None => {},
            }
            let s = WebdavSettings { base, base_path, label };
            proof {
                assert(s@.label =~= webdav_settings_spec(base_url@, user@)->Ok_0.label);
            }
            Ok(s)
        },
        Err(msg) => {
            let mut text = string_from("Ungültige URL: ");
            push_str(&mut text, msg.as_str());
            Err(FpError::Connect(text))
        },
    }
}

} // verus!
