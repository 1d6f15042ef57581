//! Remote paths in Unix notation (`/`-separated).

use vstd::prelude::*;

use crate::text::{
    chars_of, last_index_of, lemma_last_index_of, lemma_trim_end_char_prefix, push_char, push_range,
    push_str, rfind_char, trim_end_char, trim_end_len,
};

verus! {

/// `dir` joined with `name`, without doubled slashes.
pub open spec fn join_spec(dir: Seq<char>, name: Seq<char>) -> Seq<char> {
    if dir.len() == 0 || dir == seq!['/'] {
        seq!['/'] + name
    } else {
        trim_end_char(dir, '/') + seq!['/'] + name
    }
}

/// The parent directory of `path`; the root stays the root.
pub open spec fn parent_spec(path: Seq<char>) -> Seq<char> {
    let trimmed = trim_end_char(path, '/');
    match last_index_of(trimmed, '/') {
        Some(i) => if i == 0 { seq!['/'] } else { trimmed.take(i) },
        None => seq!['/'],
    }
}

/// The last component of `path` (trailing slashes ignored).
pub open spec fn file_name_spec(path: Seq<char>) -> Seq<char> {
    let trimmed = trim_end_char(path, '/');
    match last_index_of(trimmed, '/') {
        Some(i) => trimmed.skip(i + 1),
        None => trimmed,
    }
}

/// A single path component: non-empty and without `/`.
pub open spec fn is_component(name: Seq<char>) -> bool {
    name.len() > 0 && forall|i: int| 0 <= i < name.len() ==> name[i] != '/'
}

/// Appends `name` to `dir` without producing a doubled slash.
pub fn join(dir: &str, name: &str) -> (r: String)
    ensures
        r@ == join_spec(dir@, name@),
{
    let d = chars_of(dir);
    let mut out = String::new();
    if d.len() == 0 || (d.len() == 1 && d[0] == '/') {
        proof {
            if d@.len() == 1 {
                assert(dir@ =~= seq!['/']);
            }
        }
        push_char(&mut out, '/');
    } else {
        proof {
            if dir@ == seq!['/'] {
                assert(d@.len() == 1 && d@[0] == '/');
            }
        }
        let n = trim_end_len(&d, d.len(), '/');
        push_range(&mut out, &d, 0, n);
        push_char(&mut out, '/');
        proof {
            assert(d@.take(d@.len() as int) =~= dir@);
            assert(d@.subrange(0, n as int) =~= d@.take(n as int));
        }
    }
    push_str(&mut out, name);
    proof {
        assert(out@ =~= join_spec(dir@, name@));
    }
    out
}

/// The parent directory; `/` stays `/`.
pub fn parent(path: &str) -> (r: String)
    ensures
        r@ == parent_spec(path@),
{
    let p = chars_of(path);
    let n = trim_end_len(&p, p.len(), '/');
    proof {
        assert(p@.take(p@.len() as int) =~= path@);
    }
    let idx = rfind_char(&p, n, '/');
    proof {
        lemma_last_index_of(p@.take(n as int), '/');
    }
    let mut out = String::new();
    match idx {
        Some(i) => {
            if i == 0 {
                push_char(&mut out, '/');
                assert(out@ =~= seq!['/']);
            } else {
                push_range(&mut out, &p, 0, i);
                proof {
                    assert(p@.take(n as int).take(i as int) =~= p@.subrange(0, i as int));
                }
            }
        },
        None => {
            push_char(&mut out, '/');
            assert(out@ =~= seq!['/']);
        },
    }
    out
}

/// The last path component (file name).
pub fn file_name(path: &str) -> (r: &str)
    ensures
        r@ == file_name_spec(path@),
{
    let p = chars_of(path);
    let n = trim_end_len(&p, p.len(), '/');
    proof {
        assert(p@.take(p@.len() as int) =~= path@);
        lemma_last_index_of(p@.take(n as int), '/');
    }
    let start = match rfind_char(&p, n, '/') {
        Some(i) => i + 1,
        None => 0,
    };
    proof {
        assert(p@.take(n as int).skip(start as int) =~= path@.subrange(start as int, n as int));
        assert(p@.take(n as int).skip(0) =~= p@.take(n as int));
    }
    path.substring_char(start, n)
}

// ---------------------------------------------------------------------
// Laws
// ---------------------------------------------------------------------

/// Joining a component onto a directory and taking the file name gives the
/// component back.
pub proof fn law_file_name_of_join(dir: Seq<char>, name: Seq<char>)
    requires
        is_component(name),
    ensures
        file_name_spec(join_spec(dir, name)) == name,
{
    let j = join_spec(dir, name);
    let pre = if dir.len() == 0 || dir == seq!['/'] {
        seq!['/']
    } else {
        trim_end_char(dir, '/') + seq!['/']
    };
    assert(j == pre + name);
    assert(name.last() != '/');
    assert(trim_end_char(j, '/') == j);
    lemma_last_index_of(j, '/');
    assert(j[pre.len() - 1] == '/');
    let i = last_index_of(j, '/').unwrap();
    assert(i == pre.len() - 1) by {
        if i > pre.len() - 1 {
            assert(j[i] == name[i - pre.len()]);
        }
    }
    assert(j.skip(i + 1) =~= name);
}

/// Joining a component onto a directory and taking the parent gives the
/// directory back, written without trailing slashes (the root as `/`).
pub proof fn law_parent_of_join(dir: Seq<char>, name: Seq<char>)
    requires
        is_component(name),
    ensures
        parent_spec(join_spec(dir, name)) == (if trim_end_char(dir, '/').len() == 0 {
            seq!['/']
        } else {
            trim_end_char(dir, '/')
        }),
{
    let j = join_spec(dir, name);
    let t = trim_end_char(dir, '/');
    lemma_trim_end_char_prefix(dir, '/');
    let pre = if dir.len() == 0 || dir == seq!['/'] {
        seq!['/']
    } else {
        t + seq!['/']
    };
    assert(j == pre + name);
    assert(name.last() != '/');
    assert(trim_end_char(j, '/') == j);
    lemma_last_index_of(j, '/');
    assert(j[pre.len() - 1] == '/');
    let i = last_index_of(j, '/').unwrap();
    assert(i == pre.len() - 1) by {
        if i > pre.len() - 1 {
            assert(j[i] == name[i - pre.len()]);
        }
    }
    if dir.len() == 0 || dir == seq!['/'] {
        if dir.len() > 0 {
            assert(dir.drop_last() =~= Seq::<char>::empty());
            assert(t.len() == 0);
        }
    } else if t.len() > 0 {
        assert(j.take(i) =~= t);
    }
}

/// `/` stays `/`: the parent of the root (written with any number of
/// slashes, or as the empty path) is the root.
pub proof fn law_parent_of_root(path: Seq<char>)
    requires
        forall|i: int| 0 <= i < path.len() ==> path[i] == '/',
    ensures
        parent_spec(path) == seq!['/'],
{
    lemma_trim_end_char_prefix(path, '/');
    let t = trim_end_char(path, '/');
    if t.len() > 0 {
        assert(t.last() == path[t.len() - 1]);
    }
    assert(t.len() == 0);
    lemma_last_index_of(t, '/');
}

} // verus!
