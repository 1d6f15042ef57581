//! Directory listings in the Unix `ls -l` / FTP `LIST` format: lines are
//! read by suppaftp's LIST parser, and the engine turns what it recognises
//! into entries below the listed directory.

use vstd::prelude::*;

use crate::backend::{entries_view, entry_view, push_entry, Entry, EntryKind, EntryView};
use crate::rpath::{join, join_spec};
use crate::text::{
    chars_of, contains_exec, contains_seq, has_prefix, lines_of, parse_u64_range, parse_u64_spec, split_lines, starts_with_exec,
    is_space, strings_view, trim_ws, trim_ws_bounds,
};

verus! {

/// One line of a listing as the LIST parser understood it.
pub struct ListedFile {
    pub name: String,
    pub is_dir: bool,
    pub is_symlink: bool,
    pub size: u64,
    pub modified: Option<i64>,
}

pub struct ListedFileView {
    pub name: Seq<char>,
    pub is_dir: bool,
    pub is_symlink: bool,
    pub size: u64,
    pub modified: Option<i64>,
}

impl View for ListedFile {
    type V = ListedFileView;

    open spec fn view(&self) -> ListedFileView {
        ListedFileView {
            name: self.name@,
            is_dir: self.is_dir,
            is_symlink: self.is_symlink,
            size: self.size,
            modified: self.modified,
        }
    }
}

pub open spec fn parsed_view(v: Seq<Option<ListedFile>>) -> Seq<Option<ListedFileView>> {
    v.map_values(|o: Option<ListedFile>| match o {
        Some(f) => Some(f@),
        None => None,
    })
}

/// A line without whitespace, `=` or `;`: neither the POSIX nor the DOS
/// form of a LIST line (both need whitespace between their fields), and an
/// MLST entry without facts.
pub open spec fn bare_word(line: Seq<char>) -> bool {
    forall|i: int| 0 <= i < line.len() ==> !is_space(#[trigger] line[i]) && line[i] != '=' && line[i] != ';'
}

/// How the LIST parser reads a bare word: a plain file of that name, of
/// size 0, dated at the Unix epoch.
pub open spec fn bare_file(line: Seq<char>) -> ListedFileView {
    ListedFileView { name: line, is_dir: false, is_symlink: false, size: 0, modified: Some(0) }
}

/// The name, whether it is a directory, whether it is a link, and the
/// size that the LIST parser reads from `line`, or `None` where it reads
/// nothing. These do not depend on the clock for a line that cannot carry
/// the date February 29 (see [`may_be_leap_day`]).
pub uninterp spec fn list_fields(line: Seq<char>) -> Option<(Seq<char>, bool, bool, u64)>;

/// `c` is `lower` or its ASCII capital.
pub open spec fn ascii_either(c: char, lower: char) -> bool {
    c == lower || c as int == lower as int - 32
}

/// Whether `line` holds the letters `feb` in any ASCII case, as the month
/// names `Feb` and `February` start (the date parser compares the first
/// three bytes of a month name with their case bit cleared).
pub open spec fn has_feb(line: Seq<char>) -> bool {
    exists|i: int|
        0 <= i && i + 2 < line.len() && ascii_either(#[trigger] line[i], 'f') && ascii_either(line[i + 1], 'e')
            && ascii_either(line[i + 2], 'b')
}

/// Whether `line` may carry the date February 29 — the one date whose
/// validity depends on the year, which the parser takes from the clock for
/// a POSIX line that shows a time of day instead of a year
/// (`Feb 29 12:00`). The day is written with the digits `29` (one or two
/// digits are read, so it cannot be padded).
pub open spec fn may_be_leap_day(line: Seq<char>) -> bool {
    has_feb(line) && contains_seq(line, seq!['2', '9'])
}

/// Whether `line` may carry an MLST `modify` time of 1969-12-31 23:59:60
/// (a leap second one second before the epoch), the one value on which the
/// parser's conversion to a system time overflows and panics. Every
/// writing of it holds the digits `1969`, `12`, `31`, `23`, `59` and `60`:
/// each field is a run of at most two digits (the year of four, or more
/// after a sign), with only blanks allowed between them.
pub open spec fn may_overflow_parser(line: Seq<char>) -> bool {
    &&& contains_seq(line, seq!['1', '9', '6', '9'])
    &&& contains_seq(line, seq!['1', '2'])
    &&& contains_seq(line, seq!['3', '1'])
    &&& contains_seq(line, seq!['2', '3'])
    &&& contains_seq(line, seq!['5', '9'])
    &&& contains_seq(line, seq!['6', '0'])
}

/// Whether the LIST parser can be handed `line` (see
/// [`may_overflow_parser`]).
pub fn parses_safely(line: &str) -> (b: bool)
    ensures
        b == !may_overflow_parser(line@),
{
    let v = chars_of(line);
    let year = vec!['1', '9', '6', '9'];
    let month = vec!['1', '2'];
    let day = vec!['3', '1'];
    let hour = vec!['2', '3'];
    let minute = vec!['5', '9'];
    let second = vec!['6', '0'];
    proof {
        assert(year@ =~= seq!['1', '9', '6', '9']);
        assert(month@ =~= seq!['1', '2']);
        assert(day@ =~= seq!['3', '1']);
        assert(hour@ =~= seq!['2', '3']);
        assert(minute@ =~= seq!['5', '9']);
        assert(second@ =~= seq!['6', '0']);
    }
    !(contains_exec(&v, &year) && contains_exec(&v, &month) && contains_exec(&v, &day) && contains_exec(
        &v,
        &hour,
    ) && contains_exec(&v, &minute) && contains_exec(&v, &second))
}

/// Whether every line of `lines` can be handed to the LIST parser.
pub open spec fn all_parse_safely(lines: Seq<Seq<char>>) -> bool {
    forall|i: int| 0 <= i < lines.len() ==> !may_overflow_parser(#[trigger] lines[i])
}

/// Whether every line of `lines` can be handed to the LIST parser.
pub fn lines_parse_safely(lines: &Vec<String>) -> (b: bool)
    ensures
        b == all_parse_safely(strings_view(lines@)),
{
    let mut i: usize = 0;
    while i < lines.len()
        invariant
            i <= lines@.len(),
            forall|j: int| 0 <= j < i ==> !may_overflow_parser(#[trigger] strings_view(lines@)[j]),
        decreases lines@.len() - i,
    {
        if !parses_safely(lines[i].as_str()) {
            assert(may_overflow_parser(strings_view(lines@)[i as int]));
            return false;
        }
        i = i + 1;
    }
    true
}

/// The clock-independent part of a parse result.
pub open spec fn fields_of(f: Option<ListedFileView>) -> Option<(Seq<char>, bool, bool, u64)> {
    match f {
        Some(v) => Some((v.name, v.is_dir, v.is_symlink, v.size)),
        None => None,
    }
}

pub open spec fn parsed_fields(r: Option<ListedFile>) -> Option<(Seq<char>, bool, bool, u64)> {
    fields_of(
        match r {
            Some(f) => Some(f@),
            None => None,
        },
    )
}

/// `suppaftp::list::File::try_from`, the LIST-line parser (it tries the
/// POSIX, then the DOS, then the MLST form), with the modification time as
/// Unix seconds.
/// - Whether the line parses, and the name, kind and size read from it, are
///   named [`list_fields`] for every line that cannot carry a leap day: the
///   clock enters only through the year of a year-less POSIX date, which
///   decides only whether `Feb 29` exists (and, through the year, the time).
/// - A bare word is neither POSIX nor DOS (both need whitespace between
///   their fields), so the MLST reader takes it, finds no facts and keeps
///   the whole line as the name of a plain file dated at the epoch.
/// Nothing is stated of the modification time of other lines, nor of lines
/// that may carry February 29. The parser panics on one MLST time, which
/// the `requires` leaves out.
#[verifier::external_body]
pub(crate) fn parse_list_line(line: &str) -> (r: Option<ListedFile>)
    requires
        !may_overflow_parser(line@),
    ensures
        bare_word(line@) ==> r.is_some() && r.unwrap()@ == bare_file(line@),
        !may_be_leap_day(line@) ==> parsed_fields(r) == list_fields(line@),
{
    match suppaftp::list::File::try_from(line) {
        Ok(f) => Some(ListedFile {
            name: f.name().to_string(),
            is_dir: f.is_directory(),
            is_symlink: f.is_symlink(),
            size: f.size() as u64,
            modified: match f.modified().duration_since(std::time::UNIX_EPOCH) {
                Ok(d) => Some(d.as_secs() as i64),
                Err(_) => None,
            },
        }),
        Err(_) => None,
    }
}

/// The kind of a listed file: directories first, then links.
pub open spec fn listed_kind(is_dir: bool, is_symlink: bool) -> EntryKind {
    if is_dir {
        EntryKind::Dir
    } else if is_symlink {
        EntryKind::Symlink
    } else {
        EntryKind::File
    }
}

/// `.` and `..` are not entries.
pub open spec fn is_dot_name(name: Seq<char>) -> bool {
    name == seq!['.'] || name == seq!['.', '.']
}

pub open spec fn listed_entry(dir: Seq<char>, f: ListedFileView) -> EntryView {
    entry_view(f.name, join_spec(dir, f.name), listed_kind(f.is_dir, f.is_symlink), f.size, f.modified)
}

/// The entries below `dir` for the parsed lines of a listing.
pub open spec fn listing_entries(dir: Seq<char>, parsed: Seq<Option<ListedFileView>>) -> Seq<EntryView>
    decreases parsed.len(),
{
    if parsed.len() == 0 {
        Seq::empty()
    } else {
        let before = listing_entries(dir, parsed.drop_last());
        match parsed.last() {
            Some(f) => if is_dot_name(f.name) {
                before
            } else {
                before.push(listed_entry(dir, f))
            },
            None => before,
        }
    }
}

fn is_dot_name_exec(name: &str) -> (b: bool)
    ensures
        b == is_dot_name(name@),
{
    let v = chars_of(name);
    let r = (v.len() == 1 && v[0] == '.') || (v.len() == 2 && v[0] == '.' && v[1] == '.');
    proof {
        if v@.len() == 1 && v@[0] == '.' {
            assert(name@ =~= seq!['.']);
        }
        if v@.len() == 2 && v@[0] == '.' && v@[1] == '.' {
            assert(name@ =~= seq!['.', '.']);
        }
    }
    r
}

/// The entries below `dir` for the parsed lines of a listing: every line
/// the parser understood, except `.` and `..`, in listing order.
pub fn entries_from_parsed(dir: &str, parsed: Vec<Option<ListedFile>>) -> (r: Vec<Entry>)
    ensures
        entries_view(r@) == listing_entries(dir@, parsed_view(parsed@)),
{
    let mut out: Vec<Entry> = Vec::new();
    let ghost all = parsed_view(parsed@);
    let mut i: usize = 0;
    let mut parsed = parsed;
    let ghost orig = parsed@;
    let total = parsed.len();
    // walk the lines front to back, moving each parsed file out
    while parsed.len() > 0
        invariant
            i + parsed@.len() == orig.len(),
            orig.len() == total,
            parsed@ == orig.subrange(i as int, orig.len() as int),
            all == parsed_view(orig),
            entries_view(out@) == listing_entries(dir@, all.take(i as int)),
        decreases parsed@.len(),
    {
        let ghost before = out@;
        let item = parsed.remove(0);
        proof {
            assert(item == orig[i as int]);
            assert(parsed@ =~= orig.subrange(i + 1, orig.len() as int));
            let t = all.take(i + 1);
            assert(t.drop_last() =~= all.take(i as int));
            assert(t.last() == all[i as int]);
        }
        match item {
            Some(f) => {
                if !is_dot_name_exec(f.name.as_str()) {
                    let path = join(dir, f.name.as_str());
                    let kind = if f.is_dir {
                        EntryKind::Dir
                    } else if f.is_symlink {
                        EntryKind::Symlink
                    } else {
                        EntryKind::File
                    };
                    let e = Entry { name: f.name, path, kind, size: f.size, modified: f.modified };
                    push_entry(&mut out, e);
                }
            },
            None => {},
        }
        i = i + 1;
    }
    proof {
        assert(all.take(i as int) =~= all);
    }
    out
}

/// What is known of how the LIST parser read `lines` into `parsed`: one
/// result per line; for a line that cannot carry a leap day, whether it
/// parsed and the name, kind and size read ([`list_fields`]); and a bare
/// word read as a plain file of that name.
pub open spec fn read_as_listed(lines: Seq<Seq<char>>, parsed: Seq<Option<ListedFileView>>) -> bool {
    &&& parsed.len() == lines.len()
    &&& forall|i: int| 0 <= i < lines.len() && bare_word(#[trigger] lines[i]) ==> parsed[i] == Some(
        bare_file(lines[i]),
    )
    &&& forall|i: int| 0 <= i < lines.len() && !may_be_leap_day(#[trigger] lines[i]) ==> fields_of(parsed[i])
        == list_fields(lines[i])
}

/// Each line of a listing, as the LIST parser reads it.
pub fn parse_lines(lines: &Vec<String>) -> (r: Vec<Option<ListedFile>>)
    requires
        all_parse_safely(strings_view(lines@)),
    ensures
        read_as_listed(strings_view(lines@), parsed_view(r@)),
{
    let mut out: Vec<Option<ListedFile>> = Vec::new();
    let mut i: usize = 0;
    while i < lines.len()
        invariant
            i <= lines@.len(),
            all_parse_safely(strings_view(lines@)),
            read_as_listed(strings_view(lines@).take(i as int), parsed_view(out@)),
        decreases lines@.len() - i,
    {
        let ghost before = out@;
        assert(!may_overflow_parser(strings_view(lines@)[i as int]));
        let f = parse_list_line(lines[i].as_str());
        out.push(f);
        proof {
            let lv = strings_view(lines@);
            assert(parsed_view(out@) =~= parsed_view(before).push(
                match f {
                    Some(g) => Some(g@),
                    None => None,
                },
            ));
            assert(lv.take(i + 1) =~= lv.take(i as int).push(lines@[i as int]@));
        }
        i = i + 1;
    }
    proof {
        assert(strings_view(lines@).take(i as int) =~= strings_view(lines@));
    }
    out
}

/// What holds of every entry built for the listing of `dir`: it carries a
/// parsed name other than `.` and `..`, and its path is that name joined
/// onto `dir`.
pub open spec fn well_listed(dir: Seq<char>, entries: Seq<EntryView>, n: nat) -> bool {
    &&& entries.len() <= n
    &&& forall|k: int| 0 <= k < entries.len() ==> {
        &&& !is_dot_name(#[trigger] entries[k].name)
        &&& entries[k].path == join_spec(dir, entries[k].name)
    }
}

pub proof fn lemma_listing_entries_well_listed(dir: Seq<char>, parsed: Seq<Option<ListedFileView>>)
    ensures
        well_listed(dir, listing_entries(dir, parsed), parsed.len()),
    decreases parsed.len(),
{
    if parsed.len() > 0 {
        lemma_listing_entries_well_listed(dir, parsed.drop_last());
    }
}

/// The entry a parsed line becomes below `dir`: every file except the
/// names `.` and `..`, under its own name, at `dir` joined with it, a
/// directory or else a link or else a plain file, with its size and time.
pub open spec fn shown_entry(dir: Seq<char>, line: Option<ListedFileView>) -> Option<EntryView> {
    match line {
        Some(f) => if f.name == seq!['.'] || f.name == seq!['.', '.'] {
            None
        } else {
            Some(
                EntryView {
                    name: f.name,
                    path: join_spec(dir, f.name),
                    kind: if f.is_dir {
                        EntryKind::Dir
                    } else if f.is_symlink {
                        EntryKind::Symlink
                    } else {
                        EntryKind::File
                    },
                    size: f.size,
                    modified: f.modified,
                },
            )
        },
        None => None,
    }
}

/// Only `.` and `..` are skipped: every other name, hidden files like
/// `.bashrc` included, counts as a file name.
pub proof fn law_only_dot_and_dotdot_skipped(name: Seq<char>)
    ensures
        is_dot_name(name) <==> (name == seq!['.'] || name == seq!['.', '.']),
{
}

/// A listing keeps, in order, one entry for every line the parser read,
/// except the names `.` and `..`; each entry carries the line's name, its
/// path below `dir`, its kind, size and time (see [`shown_entry`]).
pub proof fn law_listing_keeps_every_file(dir: Seq<char>, parsed: Seq<Option<ListedFileView>>)
    ensures
        listing_entries(dir, parsed) == parsed.filter_map(|o: Option<ListedFileView>| shown_entry(dir, o)),
    decreases parsed.len(),
{
    if parsed.len() > 0 {
        law_listing_keeps_every_file(dir, parsed.drop_last());
        let before = listing_entries(dir, parsed.drop_last());
        match shown_entry(dir, parsed.last()) {
            Some(e) => {
                assert(before.push(e) =~= before + seq![e]);
            },
            None => {},
        }
    }
}

/// The entries of an FTP `LIST` reply for `dir`, line by line.
pub fn ftp_entries(dir: &str, lines: &Vec<String>) -> (r: Vec<Entry>)
    requires
        all_parse_safely(strings_view(lines@)),
    ensures
        well_listed(dir@, entries_view(r@), lines@.len()),
        exists|parsed: Seq<Option<ListedFileView>>|
            #![trigger listing_entries(dir@, parsed)]
            read_as_listed(strings_view(lines@), parsed) && entries_view(r@) == listing_entries(dir@, parsed),
{
    let parsed = parse_lines(lines);
    let ghost pv = parsed_view(parsed@);
    let r = entries_from_parsed(dir, parsed);
    proof {
        lemma_listing_entries_well_listed(dir@, pv);
        assert(read_as_listed(strings_view(lines@), pv) && entries_view(r@) == listing_entries(dir@, pv));
    }
    r
}

/// The `total <n>` header line of `ls -l`.
pub open spec fn is_total_line(line: Seq<char>) -> bool {
    has_prefix(line, "total "@) && parse_u64_spec(trim_ws(line.skip(6))) is Some
}

/// The lines of `ls -la` output that can describe files.
pub open spec fn ls_lines(lines: Seq<Seq<char>>) -> Seq<Seq<char>>
    decreases lines.len(),
{
    if lines.len() == 0 {
        Seq::empty()
    } else {
        let before = ls_lines(lines.drop_last());
        if is_total_line(lines.last()) {
            before
        } else {
            before.push(lines.last())
        }
    }
}

fn is_total_line_exec(line: &str) -> (b: bool)
    ensures
        b == is_total_line(line@),
{
    let v = chars_of(line);
    let p = chars_of("total ");
    proof {
        reveal_strlit("total ");
    }
    if !starts_with_exec(&v, &p) {
        return false;
    }
    let (a, b) = trim_ws_bounds(&v, 6, v.len());
    assert(v@.subrange(6, v@.len() as int) =~= line@.skip(6));
    parse_u64_range(&v, a, b).is_some()
}

/// Drops the `total <n>` header lines, keeping the rest in order.
pub fn without_total_lines(lines: Vec<String>) -> (r: Vec<String>)
    ensures
        strings_view(r@) == ls_lines(strings_view(lines@)),
{
    let ghost orig = strings_view(lines@);
    let mut lines = lines;
    let ghost all = lines@;
    let total = lines.len();
    let mut out: Vec<String> = Vec::new();
    let mut i: usize = 0;
    while lines.len() > 0
        invariant
            i + lines@.len() == all.len(),
            all.len() == total,
            lines@ == all.subrange(i as int, all.len() as int),
            orig == strings_view(all),
            strings_view(out@) == ls_lines(orig.take(i as int)),
        decreases lines@.len(),
    {
        let line = lines.remove(0);
        proof {
            assert(line == all[i as int]);
            assert(lines@ =~= all.subrange(i + 1, all.len() as int));
            let t = orig.take(i + 1);
            assert(t.drop_last() =~= orig.take(i as int));
            assert(t.last() == line@);
        }
        let ghost before = out@;
        if !is_total_line_exec(line.as_str()) {
            out.push(line);
            proof {
                assert(strings_view(out@) =~= strings_view(before).push(all[i as int]@));
            }
        }
        i = i + 1;
    }
    proof {
        assert(orig.take(i as int) =~= orig);
    }
    out
}

/// The entries of `ls -la` output `text` for `dir`: the header line is
/// skipped, and every line the LIST parser understands becomes an entry.
pub fn ls_entries(dir: &str, text: &str) -> (r: Vec<Entry>)
    requires
        all_parse_safely(ls_lines(split_lines(text@))),
    ensures
        well_listed(dir@, entries_view(r@), ls_lines(split_lines(text@)).len()),
        exists|parsed: Seq<Option<ListedFileView>>|
            #![trigger listing_entries(dir@, parsed)]
            read_as_listed(ls_lines(split_lines(text@)), parsed) && entries_view(r@) == listing_entries(
                dir@,
                parsed,
            ),
{
    let all = lines_of(text);
    let lines = without_total_lines(all);
    let r = ftp_entries(dir, &lines);
    r
}

/// Whether every line of `ls -la` output `text` that [`ls_entries`] hands
/// to the LIST parser can be handed to it.
pub fn ls_parses_safely(text: &str) -> (b: bool)
    ensures
        b == all_parse_safely(ls_lines(split_lines(text@))),
{
    let all = lines_of(text);
    let lines = without_total_lines(all);
    lines_parse_safely(&lines)
}

/// Every file of `v`, as a parsed line.
pub open spec fn files_as_parsed(v: Seq<ListedFile>) -> Seq<Option<ListedFileView>> {
    v.map_values(|f: ListedFile| Some(f@))
}

/// The entries below `dir` for files a protocol reported directly:
/// all but `.` and `..`, in order.
pub fn entries_below(dir: &str, files: Vec<ListedFile>) -> (r: Vec<Entry>)
    ensures
        entries_view(r@) == listing_entries(dir@, files_as_parsed(files@)),
{
    let ghost orig = files@;
    let total = files.len();
    let mut files = files;
    let mut parsed: Vec<Option<ListedFile>> = Vec::new();
    let mut i: usize = 0;
    while files.len() > 0
        invariant
            i + files@.len() == orig.len(),
            orig.len() == total,
            files@ == orig.subrange(i as int, orig.len() as int),
            parsed_view(parsed@) == files_as_parsed(orig.take(i as int)),
        decreases files@.len(),
    {
        let f = files.remove(0);
        proof {
            assert(f == orig[i as int]);
            assert(files@ =~= orig.subrange(i + 1, orig.len() as int));
        }
        let ghost before = parsed@;
        parsed.push(Some(f));
        proof {
            assert(orig.take(i + 1) =~= orig.take(i as int).push(f));
            assert(parsed@ =~= before.push(Some(f)));
            assert(parsed_view(parsed@) =~= parsed_view(before).push(Some(f@)));
            assert(files_as_parsed(orig.take(i + 1)) =~= files_as_parsed(orig.take(i as int)).push(Some(f@)));
        }
        i = i + 1;
    }
    proof {
        assert(orig.take(i as int) =~= orig);
    }
    entries_from_parsed(dir, parsed)
}

} // verus!
