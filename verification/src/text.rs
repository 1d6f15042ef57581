//! Character-level helpers: the mathematical meaning of the handful of
//! `str` operations the engine relies on (trimming, searching, splitting,
//! decimal numbers), together with verified executable versions.

use vstd::prelude::*;
use vstd::std_specs::iter::IteratorSpec;

verus! {

// ---------------------------------------------------------------------
// Specifications
// ---------------------------------------------------------------------

/// `s` with every trailing `c` removed (`str::trim_end_matches(c)`).
pub open spec fn trim_end_char(s: Seq<char>, c: char) -> Seq<char>
    decreases s.len(),
{
    if s.len() > 0 && s.last() == c {
        trim_end_char(s.drop_last(), c)
    } else {
        s
    }
}

/// `s` with every leading `c` removed (`str::trim_start_matches(c)`).
pub open spec fn trim_start_char(s: Seq<char>, c: char) -> Seq<char>
    decreases s.len(),
{
    if s.len() > 0 && s[0] == c {
        trim_start_char(s.drop_first(), c)
    } else {
        s
    }
}

/// `s` with `c` removed at both ends (`str::trim_matches(c)`).
pub open spec fn trim_char(s: Seq<char>, c: char) -> Seq<char> {
    trim_end_char(trim_start_char(s, c), c)
}

/// Index of the last occurrence of `c` in `s` (`str::rfind(c)`, counted in chars).
pub open spec fn last_index_of(s: Seq<char>, c: char) -> Option<int>
    decreases s.len(),
{
    if s.len() == 0 {
        None
    } else if s.last() == c {
        Some(s.len() - 1)
    } else {
        last_index_of(s.drop_last(), c)
    }
}

/// Index of the first occurrence of `c` in `s` (`str::find(c)`, counted in chars).
pub open spec fn first_index_of(s: Seq<char>, c: char) -> Option<int>
    decreases s.len(),
{
    if s.len() == 0 {
        None
    } else if s[0] == c {
        Some(0)
    } else {
        match first_index_of(s.drop_first(), c) {
            Some(i) => Some(i + 1),
            None => None,
        }
    }
}

/// `needle` occurs in `hay` at position `i`.
pub open spec fn occurs_at(hay: Seq<char>, needle: Seq<char>, i: int) -> bool {
    0 <= i && i + needle.len() <= hay.len() && hay.subrange(i, i + needle.len()) == needle
}

/// `hay` contains `needle` as a contiguous part (`str::contains`).
pub open spec fn contains_seq(hay: Seq<char>, needle: Seq<char>) -> bool {
    exists|i: int| occurs_at(hay, needle, i)
}

/// `s` starts with `prefix` (`str::starts_with`).
pub open spec fn has_prefix(s: Seq<char>, prefix: Seq<char>) -> bool {
    prefix.len() <= s.len() && s.take(prefix.len() as int) == prefix
}

/// `char::is_whitespace`: the Unicode `White_Space` property.
pub open spec fn is_space(c: char) -> bool {
    ||| ('\t' <= c && c <= '\r')
    ||| c == ' '
    ||| c == '\u{85}'
    ||| c == '\u{a0}'
    ||| c == '\u{1680}'
    ||| ('\u{2000}' <= c && c <= '\u{200a}')
    ||| c == '\u{2028}'
    ||| c == '\u{2029}'
    ||| c == '\u{202f}'
    ||| c == '\u{205f}'
    ||| c == '\u{3000}'
}

/// `s` without leading whitespace (`str::trim_start`).
pub open spec fn trim_start_ws(s: Seq<char>) -> Seq<char>
    decreases s.len(),
{
    if s.len() > 0 && is_space(s[0]) {
        trim_start_ws(s.drop_first())
    } else {
        s
    }
}

/// `s` without trailing whitespace (`str::trim_end`).
pub open spec fn trim_end_ws(s: Seq<char>) -> Seq<char>
    decreases s.len(),
{
    if s.len() > 0 && is_space(s.last()) {
        trim_end_ws(s.drop_last())
    } else {
        s
    }
}

/// `s` without whitespace at either end (`str::trim`).
pub open spec fn trim_ws(s: Seq<char>) -> Seq<char> {
    trim_end_ws(trim_start_ws(s))
}

pub open spec fn is_digit(c: char) -> bool {
    '0' <= c && c <= '9'
}

pub open spec fn all_digits(s: Seq<char>) -> bool {
    forall|i: int| 0 <= i < s.len() ==> is_digit(#[trigger] s[i])
}

pub open spec fn digit_value(c: char) -> nat {
    (c as int - '0' as int) as nat
}

/// The number written by the decimal digits `s` (most significant first).
pub open spec fn digits_value(s: Seq<char>) -> nat
    decreases s.len(),
{
    if s.len() == 0 {
        0
    } else {
        digits_value(s.drop_last()) * 10 + digit_value(s.last())
    }
}

/// `str::parse::<u64>()`: an optional `+`, then at least one decimal digit,
/// and a value that fits in 64 bits.
pub open spec fn parse_u64_spec(s: Seq<char>) -> Option<u64> {
    let body = if s.len() > 0 && s[0] == '+' { s.drop_first() } else { s };
    if body.len() > 0 && all_digits(body) && digits_value(body) <= u64::MAX {
        Some(digits_value(body) as u64)
    } else {
        None
    }
}

pub open spec fn digit_char(d: nat) -> char {
    if d == 0 { '0' }
    else if d == 1 { '1' }
    else if d == 2 { '2' }
    else if d == 3 { '3' }
    else if d == 4 { '4' }
    else if d == 5 { '5' }
    else if d == 6 { '6' }
    else if d == 7 { '7' }
    else if d == 8 { '8' }
    else { '9' }
}

/// Decimal notation of `n` without leading zeros (`u64`'s `Display`).
pub open spec fn decimal(n: nat) -> Seq<char>
    decreases n,
{
    if n < 10 {
        seq![digit_char(n)]
    } else {
        decimal(n / 10).push(digit_char(n % 10))
    }
}

// ---------------------------------------------------------------------
// Lemmas
// ---------------------------------------------------------------------

pub proof fn lemma_trim_end_char_prefix(s: Seq<char>, c: char)
    ensures
        trim_end_char(s, c).len() <= s.len(),
        trim_end_char(s, c) == s.take(trim_end_char(s, c).len() as int),
        trim_end_char(s, c).len() > 0 ==> trim_end_char(s, c).last() != c,
        forall|i: int| trim_end_char(s, c).len() <= i < s.len() ==> s[i] == c,
    decreases s.len(),
{
    if s.len() > 0 && s.last() == c {
        lemma_trim_end_char_prefix(s.drop_last(), c);
        let t = trim_end_char(s.drop_last(), c);
        assert(s.drop_last().take(t.len() as int) =~= s.take(t.len() as int));
        assert forall|i: int| t.len() <= i < s.len() implies s[i] == c by {
            if i < s.len() - 1 {
                assert(s.drop_last()[i] == s[i]);
            }
        }
    } else {
        assert(s.take(s.len() as int) =~= s);
    }
}

/// Trimming is determined by where the last non-`c` char stands.
pub proof fn lemma_trim_end_char_of_take(s: Seq<char>, c: char, n: int)
    requires
        0 <= n <= s.len(),
        forall|i: int| n <= i < s.len() ==> s[i] == c,
    ensures
        trim_end_char(s, c) == trim_end_char(s.take(n), c),
    decreases s.len() - n,
{
    if n < s.len() {
        assert(s.last() == c);
        assert(s.drop_last().take(n) =~= s.take(n));
        lemma_trim_end_char_of_take(s.drop_last(), c, n);
    } else {
        assert(s.take(n) =~= s);
    }
}

pub proof fn lemma_trim_start_char_suffix(s: Seq<char>, c: char)
    ensures
        trim_start_char(s, c).len() <= s.len(),
        trim_start_char(s, c) == s.skip(s.len() - trim_start_char(s, c).len()),
        trim_start_char(s, c).len() > 0 ==> trim_start_char(s, c)[0] != c,
        forall|i: int| 0 <= i < s.len() - trim_start_char(s, c).len() ==> s[i] == c,
    decreases s.len(),
{
    if s.len() > 0 && s[0] == c {
        lemma_trim_start_char_suffix(s.drop_first(), c);
        let t = trim_start_char(s.drop_first(), c);
        assert(s.drop_first().skip(s.len() - 1 - t.len()) =~= s.skip(s.len() - t.len()));
        assert forall|i: int| 0 <= i < s.len() - t.len() implies s[i] == c by {
            if i > 0 {
                assert(s.drop_first()[i - 1] == s[i]);
            }
        }
    } else {
        assert(s.skip(0) =~= s);
    }
}

pub proof fn lemma_trim_start_char_of_skip(s: Seq<char>, c: char, n: int)
    requires
        0 <= n <= s.len(),
        forall|i: int| 0 <= i < n ==> s[i] == c,
    ensures
        trim_start_char(s, c) == trim_start_char(s.skip(n), c),
    decreases n,
{
    if n > 0 {
        assert(s[0] == c);
        assert(s.drop_first().skip(n - 1) =~= s.skip(n));
        lemma_trim_start_char_of_skip(s.drop_first(), c, n - 1);
    } else {
        assert(s.skip(0) =~= s);
    }
}

pub proof fn lemma_last_index_of(s: Seq<char>, c: char)
    ensures
        match last_index_of(s, c) {
            Some(i) => 0 <= i < s.len() && s[i] == c && forall|j: int| i < j < s.len() ==> s[j] != c,
            None => forall|j: int| 0 <= j < s.len() ==> s[j] != c,
        },
    decreases s.len(),
{
    if s.len() > 0 && s.last() != c {
        lemma_last_index_of(s.drop_last(), c);
        assert forall|j: int| 0 <= j < s.len() - 1 implies s.drop_last()[j] == s[j] by {}
    }
}

pub proof fn lemma_last_index_of_take(s: Seq<char>, c: char, n: int)
    requires
        0 <= n <= s.len(),
        forall|j: int| n <= j < s.len() ==> s[j] != c,
    ensures
        last_index_of(s, c) == last_index_of(s.take(n), c),
    decreases s.len() - n,
{
    if n < s.len() {
        assert(s.drop_last().take(n) =~= s.take(n));
        lemma_last_index_of_take(s.drop_last(), c, n);
    } else {
        assert(s.take(n) =~= s);
    }
}

pub proof fn lemma_first_index_of(s: Seq<char>, c: char)
    ensures
        match first_index_of(s, c) {
            Some(i) => 0 <= i < s.len() && s[i] == c && forall|j: int| 0 <= j < i ==> s[j] != c,
            None => forall|j: int| 0 <= j < s.len() ==> s[j] != c,
        },
    decreases s.len(),
{
    if s.len() > 0 && s[0] != c {
        lemma_first_index_of(s.drop_first(), c);
        assert forall|j: int| 1 <= j < s.len() implies s[j] == s.drop_first()[j - 1] by {}
    }
}

pub proof fn lemma_first_index_of_skip(s: Seq<char>, c: char, n: int)
    requires
        0 <= n <= s.len(),
        forall|j: int| 0 <= j < n ==> s[j] != c,
    ensures
        first_index_of(s, c) == (match first_index_of(s.skip(n), c) {
            Some(i) => Some(i + n),
            None => None::<int>,
        }),
    decreases n,
{
    if n > 0 {
        assert(s.drop_first().skip(n - 1) =~= s.skip(n));
        lemma_first_index_of_skip(s.drop_first(), c, n - 1);
    } else {
        assert(s.skip(0) =~= s);
        match first_index_of(s, c) {
            Some(i) => {},
            None => {},
        }
    }
}

pub proof fn lemma_digits_value_push(s: Seq<char>, c: char)
    ensures
        digits_value(s.push(c)) == digits_value(s) * 10 + digit_value(c),
{
    assert(s.push(c).drop_last() =~= s);
}

/// A longer run of digits never has a smaller value than its prefix.
pub proof fn lemma_digits_value_monotone(s: Seq<char>, n: int)
    requires
        0 <= n <= s.len(),
    ensures
        digits_value(s.take(n)) <= digits_value(s),
    decreases s.len() - n,
{
    if n < s.len() {
        lemma_digits_value_monotone(s.drop_last(), n);
        assert(s.drop_last().take(n) =~= s.take(n));
    } else {
        assert(s.take(n) =~= s);
    }
}

pub proof fn lemma_digit_char(d: nat)
    requires
        d < 10,
    ensures
        is_digit(digit_char(d)),
        digit_value(digit_char(d)) == d,
{
}

pub proof fn lemma_decimal_digits(n: nat)
    ensures
        decimal(n).len() > 0,
        all_digits(decimal(n)),
        digits_value(decimal(n)) == n,
    decreases n,
{
    lemma_digit_char(n % 10);
    if n >= 10 {
        lemma_decimal_digits(n / 10);
        lemma_digits_value_push(decimal(n / 10), digit_char(n % 10));
        assert(decimal(n) == decimal(n / 10).push(digit_char(n % 10)));
        assert(n == (n / 10) * 10 + n % 10);
        assert forall|i: int| 0 <= i < decimal(n).len() implies is_digit(#[trigger] decimal(n)[i]) by {
            if i < decimal(n / 10).len() {
                assert(decimal(n)[i] == decimal(n / 10)[i]);
            }
        }
    } else {
        assert(n % 10 == n);
        let one = seq![digit_char(n)];
        assert(one.drop_last() =~= Seq::<char>::empty());
        assert(digits_value(Seq::<char>::empty()) == 0);
        assert(one.last() == digit_char(n));
        assert(digits_value(one) == digits_value(one.drop_last()) * 10 + digit_value(one.last()));
    }
}

// ---------------------------------------------------------------------
// Executable helpers
// ---------------------------------------------------------------------

/// `String::push`.
#[verifier::external_body]
pub(crate) fn push_char(s: &mut String, c: char)
    ensures
        final(s)@ == old(s)@.push(c),
{
    s.push(c)
}

/// The characters of `s`, in order.
pub fn chars_of(s: &str) -> (v: Vec<char>)
    ensures
        v@ == s@,
{
    broadcast use vstd::string::group_string_axioms;
    let mut it = s.chars();
    let mut v: Vec<char> = Vec::new();
    loop
        invariant
            v@ + it.remaining() == s@,
            it.obeys_prophetic_iter_laws(),
            it.decrease() is Some,
        decreases it.decrease()->0,
    {
        let ghost before = it.remaining();
        match it.next() {
            Some(c) => {
                v.push(c);
                assert(v@ + it.remaining() =~= s@);
            },
            None => {
                assert(v@ =~= s@);
                return v;
            },
        }
    }
}

/// Appends the characters `v[from..to]` to `s`.
pub fn push_range(s: &mut String, v: &[char], from: usize, to: usize)
    requires
        from <= to <= v@.len(),
    ensures
        final(s)@ == old(s)@ + v@.subrange(from as int, to as int),
{
    let mut i = from;
    while i < to
        invariant
            from <= i <= to <= v@.len(),
            s@ == old(s)@ + v@.subrange(from as int, i as int),
        decreases to - i,
    {
        push_char(s, v[i]);
        assert(v@.subrange(from as int, i + 1) =~= v@.subrange(from as int, i as int).push(v@[i as int]));
        i = i + 1;
    }
}

/// Appends all characters of `t` to `s`.
pub fn push_str(s: &mut String, t: &str)
    ensures
        final(s)@ == old(s)@ + t@,
{
    let v = chars_of(t);
    push_range(s, &v, 0, v.len());
    assert(v@.subrange(0, v@.len() as int) =~= t@);
}

/// Number of chars left in `v[..to]` after dropping the trailing `c`s.
pub fn trim_end_len(v: &[char], to: usize, c: char) -> (n: usize)
    requires
        to <= v@.len(),
    ensures
        n <= to,
        v@.take(n as int) == trim_end_char(v@.take(to as int), c),
{
    let mut n = to;
    while n > 0 && v[n - 1] == c
        invariant
            n <= to <= v@.len(),
            forall|i: int| n <= i < to ==> v@[i] == c,
        decreases n,
    {
        n = n - 1;
    }
    proof {
        let s = v@.take(to as int);
        assert(s.take(n as int) =~= v@.take(n as int));
        lemma_trim_end_char_of_take(s, c, n as int);
        let t = s.take(n as int);
        if t.len() > 0 {
            assert(t.last() != c);
        }
    }
    n
}

/// Index of the first char of `v[from..]` that is not `c`.
pub fn trim_start_pos(v: &[char], from: usize, c: char) -> (n: usize)
    requires
        from <= v@.len(),
    ensures
        from <= n <= v@.len(),
        v@.skip(n as int) == trim_start_char(v@.skip(from as int), c),
{
    let mut n = from;
    while n < v.len() && v[n] == c
        invariant
            from <= n <= v@.len(),
            forall|i: int| from <= i < n ==> v@[i] == c,
        decreases v@.len() - n,
    {
        n = n + 1;
    }
    proof {
        let s = v@.skip(from as int);
        assert(s.skip(n - from) =~= v@.skip(n as int));
        lemma_trim_start_char_of_skip(s, c, n - from);
        let t = v@.skip(n as int);
        if t.len() > 0 {
            assert(t[0] == v@[n as int]);
        }
    }
    n
}

/// Position of the last `c` in `v[..to]`.
pub fn rfind_char(v: &[char], to: usize, c: char) -> (r: Option<usize>)
    requires
        to <= v@.len(),
    ensures
        match r {
            Some(i) => last_index_of(v@.take(to as int), c) == Some(i as int),
            None => last_index_of(v@.take(to as int), c) is None,
        },
{
    let mut n = to;
    while n > 0 && v[n - 1] != c
        invariant
            n <= to <= v@.len(),
            forall|i: int| n <= i < to ==> v@[i] != c,
        decreases n,
    {
        n = n - 1;
    }
    proof {
        let s = v@.take(to as int);
        lemma_last_index_of_take(s, c, n as int);
        assert(s.take(n as int) =~= v@.take(n as int));
    }
    if n == 0 {
        None
    } else {
        Some(n - 1)
    }
}

/// Position of the first `c` in `v[from..]`, counted from the start of `v`.
pub fn find_char(v: &[char], from: usize, c: char) -> (r: Option<usize>)
    requires
        from <= v@.len(),
    ensures
        match r {
            Some(i) => from <= i < v@.len() && first_index_of(v@.skip(from as int), c) == Some(i - from),
            None => first_index_of(v@.skip(from as int), c) is None,
        },
{
    let mut n = from;
    while n < v.len() && v[n] != c
        invariant
            from <= n <= v@.len(),
            forall|i: int| from <= i < n ==> v@[i] != c,
        decreases v@.len() - n,
    {
        n = n + 1;
    }
    proof {
        let s = v@.skip(from as int);
        lemma_first_index_of_skip(s, c, n - from);
        assert(s.skip(n - from) =~= v@.skip(n as int));
        if n < v@.len() {
            assert(v@.skip(n as int)[0] == c);
        }
    }
    if n == v.len() {
        None
    } else {
        Some(n)
    }
}

/// Whether `needle` occurs in `hay` at position `i`.
pub fn occurs_at_exec(hay: &[char], needle: &[char], i: usize) -> (b: bool)
    ensures
        b == occurs_at(hay@, needle@, i as int),
{
    if i > hay.len() || needle.len() > hay.len() - i {
        return false;
    }
    let mut k: usize = 0;
    while k < needle.len()
        invariant
            hay.len() == hay@.len(),
            needle.len() == needle@.len(),
            i + needle@.len() <= hay@.len(),
            k <= needle@.len(),
            forall|j: int| 0 <= j < k ==> hay@[i + j] == needle@[j],
        decreases needle@.len() - k,
    {
        if hay[i + k] != needle[k] {
            proof {
                assert(hay@.subrange(i as int, i + needle@.len())[k as int] != needle@[k as int]);
            }
            return false;
        }
        k = k + 1;
    }
    assert(hay@.subrange(i as int, i + needle@.len()) =~= needle@);
    true
}

/// Whether `hay` contains `needle`.
pub fn contains_exec(hay: &[char], needle: &[char]) -> (b: bool)
    ensures
        b == contains_seq(hay@, needle@),
{
    if needle.len() > hay.len() {
        assert forall|i: int| !occurs_at(hay@, needle@, i) by {}
        return false;
    }
    if needle.len() == 0 {
        assert(occurs_at(hay@, needle@, 0)) by {
            assert(hay@.subrange(0, 0) =~= needle@);
        }
        return true;
    }
    let mut i: usize = 0;
    while i <= hay.len() - needle.len()
        invariant
            hay.len() == hay@.len(),
            needle.len() == needle@.len(),
            1 <= needle@.len() <= hay@.len(),
            i <= hay@.len() - needle@.len() + 1,
            forall|j: int| 0 <= j < i ==> !occurs_at(hay@, needle@, j),
        decreases hay@.len() - needle@.len() + 1 - i,
    {
        if occurs_at_exec(hay, needle, i) {
            return true;
        }
        i = i + 1;
    }
    assert forall|j: int| !occurs_at(hay@, needle@, j) by {
        if 0 <= j < i {
        }
    }
    false
}

/// Whether `s` starts with `prefix`.
pub fn starts_with_exec(s: &[char], prefix: &[char]) -> (b: bool)
    ensures
        b == has_prefix(s@, prefix@),
{
    let r = occurs_at_exec(s, prefix, 0);
    proof {
        if prefix@.len() <= s@.len() {
            assert(s@.subrange(0, prefix@.len() as int) =~= s@.take(prefix@.len() as int));
        }
    }
    r
}

pub fn is_space_exec(c: char) -> (b: bool)
    ensures
        b == is_space(c),
{
    ('\t' <= c && c <= '\r') || c == ' ' || c == '\u{85}' || c == '\u{a0}' || c == '\u{1680}'
        || ('\u{2000}' <= c && c <= '\u{200a}') || c == '\u{2028}' || c == '\u{2029}'
        || c == '\u{202f}' || c == '\u{205f}' || c == '\u{3000}'
}

pub proof fn lemma_trim_start_ws_of_skip(s: Seq<char>, n: int)
    requires
        0 <= n <= s.len(),
        forall|i: int| 0 <= i < n ==> is_space(s[i]),
    ensures
        trim_start_ws(s) == trim_start_ws(s.skip(n)),
    decreases n,
{
    if n > 0 {
        assert(s.drop_first().skip(n - 1) =~= s.skip(n));
        lemma_trim_start_ws_of_skip(s.drop_first(), n - 1);
    } else {
        assert(s.skip(0) =~= s);
    }
}

pub proof fn lemma_trim_end_ws_of_take(s: Seq<char>, n: int)
    requires
        0 <= n <= s.len(),
        forall|i: int| n <= i < s.len() ==> is_space(s[i]),
    ensures
        trim_end_ws(s) == trim_end_ws(s.take(n)),
    decreases s.len() - n,
{
    if n < s.len() {
        assert(s.drop_last().take(n) =~= s.take(n));
        lemma_trim_end_ws_of_take(s.drop_last(), n);
    } else {
        assert(s.take(n) =~= s);
    }
}

/// Bounds `(a, b)` with `v[a..b]` equal to the whitespace-trimmed `v[from..to]`.
pub fn trim_ws_bounds(v: &[char], from: usize, to: usize) -> (r: (usize, usize))
    requires
        from <= to <= v@.len(),
    ensures
        from <= r.0 <= r.1 <= to,
        v@.subrange(r.0 as int, r.1 as int) == trim_ws(v@.subrange(from as int, to as int)),
{
    let ghost s = v@.subrange(from as int, to as int);
    let mut a = from;
    while a < to && is_space_exec(v[a])
        invariant
            from <= a <= to <= v@.len(),
            forall|i: int| from <= i < a ==> is_space(v@[i]),
        decreases to - a,
    {
        a = a + 1;
    }
    proof {
        lemma_trim_start_ws_of_skip(s, a - from);
        assert(s.skip(a - from) =~= v@.subrange(a as int, to as int));
        let t = v@.subrange(a as int, to as int);
        if t.len() > 0 {
            assert(t[0] == v@[a as int]);
        }
    }
    let mut b = to;
    while b > a && is_space_exec(v[b - 1])
        invariant
            a <= b <= to <= v@.len(),
            forall|i: int| b <= i < to ==> is_space(v@[i]),
        decreases b,
    {
        b = b - 1;
    }
    proof {
        let t = v@.subrange(a as int, to as int);
        lemma_trim_end_ws_of_take(t, b - a);
        assert(t.take(b - a) =~= v@.subrange(a as int, b as int));
        let u = v@.subrange(a as int, b as int);
        if u.len() > 0 {
            assert(u.last() == v@[b - 1]);
        }
    }
    (a, b)
}

/// `str::parse::<u64>()` on the chars `v[from..to]`.
pub fn parse_u64_range(v: &[char], from: usize, to: usize) -> (r: Option<u64>)
    requires
        from <= to <= v@.len(),
    ensures
        r == parse_u64_spec(v@.subrange(from as int, to as int)),
{
    let ghost s = v@.subrange(from as int, to as int);
    let mut i = from;
    if i < to && v[i] == '+' {
        i = i + 1;
    }
    let ghost body = v@.subrange(i as int, to as int);
    proof {
        if s.len() > 0 && s[0] == '+' {
            assert(body =~= s.drop_first());
        } else {
            assert(body =~= s);
        }
    }
    if i == to {
        return None;
    }
    let start = i;
    let mut value: u64 = 0;
    while i < to
        invariant
            from <= start <= i <= to <= v@.len(),
            body == v@.subrange(start as int, to as int),
            s == v@.subrange(from as int, to as int),
            body == (if s.len() > 0 && s[0] == '+' { s.drop_first() } else { s }),
            body.len() > 0,
            all_digits(v@.subrange(start as int, i as int)),
            value == digits_value(v@.subrange(start as int, i as int)),
        decreases to - i,
    {
        let c = v[i];
        proof {
            assert(v@.subrange(start as int, i + 1) =~= v@.subrange(start as int, i as int).push(c));
            lemma_digits_value_push(v@.subrange(start as int, i as int), c);
        }
        if !('0' <= c && c <= '9') {
            proof {
                assert(body[i - start] == c);
                assert(!all_digits(body));
            }
            return None;
        }
        let d = (c as u32 - '0' as u32) as u64;
        assert(d as nat == digit_value(c));
        if value > (u64::MAX - d) / 10 {
            proof {
                assert(value * 10 + d > u64::MAX) by (nonlinear_arith)
                    requires value > (u64::MAX - d) / 10, d <= 9;
                assert(v@.subrange(start as int, i + 1) =~= body.take(i + 1 - start));
                lemma_digits_value_monotone(body, i + 1 - start);
                assert(digits_value(body) > u64::MAX);
            }
            return None;
        }
        proof {
            assert(value * 10 + d <= u64::MAX) by (nonlinear_arith)
                requires value <= (u64::MAX - d) / 10, d <= 9;
        }
        value = value * 10 + d;
        i = i + 1;
    }
    assert(v@.subrange(start as int, i as int) =~= body);
    Some(value)
}

/// `u64`'s decimal notation appended to `out`.
pub fn push_decimal(out: &mut String, n: u128)
    ensures
        final(out)@ == old(out)@ + decimal(n as nat),
    decreases n,
{
    if n >= 10 {
        push_decimal(out, n / 10);
    }
    let d = n % 10;
    let c = if d == 0 { '0' }
        else if d == 1 { '1' }
        else if d == 2 { '2' }
        else if d == 3 { '3' }
        else if d == 4 { '4' }
        else if d == 5 { '5' }
        else if d == 6 { '6' }
        else if d == 7 { '7' }
        else if d == 8 { '8' }
        else { '9' };
    push_char(out, c);
    proof {
        if n >= 10 {
            assert(decimal(n as nat) == decimal((n / 10) as nat).push(digit_char((n % 10) as nat)));
        }
    }
}

// ---------------------------------------------------------------------
// Lines (`str::lines`)
// ---------------------------------------------------------------------

/// A line without the `\r` of a `\r\n` ending.
pub open spec fn strip_cr(l: Seq<char>) -> Seq<char> {
    if l.len() > 0 && l.last() == '\r' {
        l.drop_last()
    } else {
        l
    }
}

/// `str::lines`: the pieces between `\n`s (a `\r` before a `\n` dropped),
/// without an empty piece after a final `\n`.
pub open spec fn split_lines(s: Seq<char>) -> Seq<Seq<char>>
    decreases s.len(),
{
    match first_index_of(s, '\n') {
        Some(i) => {
            if 0 <= i < s.len() {
                seq![strip_cr(s.take(i))] + split_lines(s.skip(i + 1))
            } else {
                Seq::empty()
            }
        },
        None => if s.len() == 0 {
            Seq::empty()
        } else {
            seq![s]
        },
    }
}

pub open spec fn strings_view(v: Seq<String>) -> Seq<Seq<char>> {
    v.map_values(|s: String| s@)
}

/// The lines of `s`.
pub fn lines_of(s: &str) -> (r: Vec<String>)
    ensures
        strings_view(r@) == split_lines(s@),
{
    let v = chars_of(s);
    let mut out: Vec<String> = Vec::new();
    let mut pos: usize = 0;
    assert(v@.skip(0) =~= v@);
    while pos < v.len()
        invariant
            pos <= v@.len(),
            v@ == s@,
            strings_view(out@) + split_lines(v@.skip(pos as int)) == split_lines(s@),
        decreases v@.len() - pos,
    {
        let ghost rest = v@.skip(pos as int);
        let found = find_char(&v, pos, '\n');
        proof {
            lemma_first_index_of(rest, '\n');
        }
        match found {
            Some(i) => {
                let end = if i > pos && v[i - 1] == '\r' { i - 1 } else { i };
                let mut line = String::new();
                push_range(&mut line, &v, pos, end);
                let ghost before = out@;
                out.push(line);
                proof {
                    let k = i - pos;
                    assert(rest.take(k) =~= v@.subrange(pos as int, i as int));
                    assert(line@ =~= strip_cr(rest.take(k)));
                    assert(rest.skip(k + 1) =~= v@.skip(i + 1));
                    assert(strings_view(out@) =~= strings_view(before).push(line@));
                    assert(split_lines(rest) == seq![strip_cr(rest.take(k))] + split_lines(rest.skip(k + 1)));
                    assert(strings_view(out@) + split_lines(v@.skip(i + 1)) =~= strings_view(before)
                        + split_lines(rest));
                }
                pos = i + 1;
            },
            None => {
                let mut line = String::new();
                push_range(&mut line, &v, pos, v.len());
                let ghost before = out@;
                out.push(line);
                proof {
                    assert(line@ =~= rest);
                    assert(strings_view(out@) =~= strings_view(before).push(line@));
                    assert(split_lines(rest) == seq![rest]);
                    assert(strings_view(out@) =~= strings_view(before) + split_lines(rest));
                }
                return out;
            },
        }
    }
    proof {
        assert(v@.skip(pos as int).len() == 0);
        assert(first_index_of(v@.skip(pos as int), '\n') is None);
        assert(strings_view(out@) =~= strings_view(out@) + split_lines(v@.skip(pos as int)));
    }
    out
}

// ---------------------------------------------------------------------
// Bytes as text
// ---------------------------------------------------------------------

/// What `String::from_utf8_lossy` makes of `bytes`.
pub uninterp spec fn utf8_lossy(bytes: Seq<u8>) -> Seq<char>;

/// `String::from_utf8_lossy`: well-formed UTF-8 is decoded as it stands
/// (invalid sequences would become U+FFFD).
#[verifier::external_body]
pub(crate) fn text_of_bytes(bytes: &[u8]) -> (r: String)
    ensures
        r@ == utf8_lossy(bytes@),
        vstd::utf8::valid_utf8(bytes@) ==> r@ == vstd::utf8::decode_utf8(bytes@),
{
    String::from_utf8_lossy(bytes).into_owned()
}

// ---------------------------------------------------------------------
// Comparing
// ---------------------------------------------------------------------

/// Whether the chars of `a` are exactly those of `b`.
pub fn same_chars(a: &[char], b: &[char]) -> (r: bool)
    ensures
        r == (a@ == b@),
{
    if a.len() != b.len() {
        return false;
    }
    let mut i: usize = 0;
    while i < a.len()
        invariant
            a@.len() == b@.len(),
            i <= a@.len(),
            forall|j: int| 0 <= j < i ==> a@[j] == b@[j],
        decreases a@.len() - i,
    {
        if a[i] != b[i] {
            return false;
        }
        i = i + 1;
    }
    assert(a@ =~= b@);
    true
}

/// The chars `v[from..to]` as a vector of their own.
pub fn chars_between(v: &[char], from: usize, to: usize) -> (r: Vec<char>)
    requires
        from <= to <= v@.len(),
    ensures
        r@ == v@.subrange(from as int, to as int),
{
    let mut out: Vec<char> = Vec::new();
    let mut i = from;
    while i < to
        invariant
            from <= i <= to <= v@.len(),
            out@ == v@.subrange(from as int, i as int),
        decreases to - i,
    {
        out.push(v[i]);
        assert(v@.subrange(from as int, i + 1) =~= v@.subrange(from as int, i as int).push(v@[i as int]));
        i = i + 1;
    }
    out
}

/// Whether the string `s` reads exactly `lit`.
pub fn is_word(s: &str, lit: &str) -> (r: bool)
    ensures
        r == (s@ == lit@),
{
    let a = chars_of(s);
    let b = chars_of(lit);
    same_chars(&a, &b)
}

// ---------------------------------------------------------------------
// Trimming strings
// ---------------------------------------------------------------------

/// `str::trim_matches(c)`: `s` without `c` at either end.
pub fn trim_matches_char(s: &str, c: char) -> (r: String)
    ensures
        r@ == trim_char(s@, c),
{
    let v = chars_of(s);
    let a = trim_start_pos(&v, 0, c);
    assert(v@.skip(0) =~= v@);
    let t = chars_between(&v, a, v.len());
    assert(t@ =~= v@.skip(a as int));
    let n = trim_end_len(&t, t.len(), c);
    assert(t@.take(t@.len() as int) =~= t@);
    let mut out = String::new();
    push_range(&mut out, &t, 0, n);
    assert(t@.subrange(0, n as int) =~= t@.take(n as int));
    out
}

/// `str::trim_end_matches(c)`.
pub fn trim_end_matches_char(s: &str, c: char) -> (r: String)
    ensures
        r@ == trim_end_char(s@, c),
{
    let v = chars_of(s);
    let n = trim_end_len(&v, v.len(), c);
    assert(v@.take(v@.len() as int) =~= v@);
    let mut out = String::new();
    push_range(&mut out, &v, 0, n);
    assert(v@.subrange(0, n as int) =~= v@.take(n as int));
    out
}

/// Whether `s` starts with `prefix`.
pub fn starts_with_str(s: &str, prefix: &str) -> (r: bool)
    ensures
        r == has_prefix(s@, prefix@),
{
    let a = chars_of(s);
    let b = chars_of(prefix);
    starts_with_exec(&a, &b)
}

// ---------------------------------------------------------------------
// Words (`str::split_whitespace`)
// ---------------------------------------------------------------------

/// Length of the run of non-whitespace chars at the start of `s`.
pub open spec fn word_len(s: Seq<char>) -> nat
    decreases s.len(),
{
    if s.len() == 0 || is_space(s[0]) {
        0
    } else {
        1 + word_len(s.drop_first())
    }
}

/// The `n`-th whitespace-separated word of `s` (`split_whitespace().nth(n)`).
pub open spec fn nth_word(s: Seq<char>, n: nat) -> Option<Seq<char>>
    decreases n,
{
    let t = trim_start_ws(s);
    if t.len() == 0 {
        None
    } else {
        let k = word_len(t) as int;
        if n == 0 {
            Some(t.take(k))
        } else {
            nth_word(t.skip(k), (n - 1) as nat)
        }
    }
}

pub proof fn lemma_word_len(s: Seq<char>, k: int)
    requires
        0 <= k <= s.len(),
        forall|i: int| 0 <= i < k ==> !is_space(s[i]),
        k == s.len() || is_space(s[k]),
    ensures
        word_len(s) == k,
    decreases k,
{
    if k > 0 {
        assert forall|i: int| 0 <= i < k - 1 implies !is_space(s.drop_first()[i]) by {
            assert(s.drop_first()[i] == s[i + 1]);
        }
        if k < s.len() {
            assert(s.drop_first()[k - 1] == s[k]);
        }
        lemma_word_len(s.drop_first(), k - 1);
    }
}

/// Bounds of the `n`-th word of `v[from..]`.
pub fn nth_word_bounds(v: &[char], from: usize, n: u32) -> (r: Option<(usize, usize)>)
    requires
        from <= v@.len(),
    ensures
        match r {
            Some((a, b)) => from <= a <= b <= v@.len() && nth_word(v@.skip(from as int), n as nat)
                == Some(v@.subrange(a as int, b as int)),
            None => nth_word(v@.skip(from as int), n as nat) is None,
        },
    decreases n,
{
    let ghost s = v@.skip(from as int);
    let mut a = from;
    while a < v.len() && is_space_exec(v[a])
        invariant
            from <= a <= v@.len(),
            forall|i: int| from <= i < a ==> is_space(v@[i]),
        decreases v@.len() - a,
    {
        a = a + 1;
    }
    proof {
        assert forall|i: int| 0 <= i < a - from implies is_space(s[i]) by {
            assert(s[i] == v@[from + i]);
        }
        lemma_trim_start_ws_of_skip(s, a - from);
        assert(s.skip(a - from) =~= v@.skip(a as int));
        let t = v@.skip(a as int);
        if t.len() > 0 {
            assert(t[0] == v@[a as int]);
        }
    }
    if a == v.len() {
        return None;
    }
    let mut b = a;
    while b < v.len() && !is_space_exec(v[b])
        invariant
            a <= b <= v@.len(),
            forall|i: int| a <= i < b ==> !is_space(v@[i]),
        decreases v@.len() - b,
    {
        b = b + 1;
    }
    proof {
        let t = v@.skip(a as int);
        assert forall|i: int| 0 <= i < b - a implies !is_space(t[i]) by {
            assert(t[i] == v@[a + i]);
        }
        if b < v@.len() {
            assert(t[b - a] == v@[b as int]);
        }
        lemma_word_len(t, b - a);
        assert(t.take(b - a) =~= v@.subrange(a as int, b as int));
        assert(t.skip(b - a) =~= v@.skip(b as int));
    }
    if n == 0 {
        Some((a, b))
    } else {
        nth_word_bounds(v, b, n - 1)
    }
}

} // verus!
