//! Title sanitization: the sole key-normalization point of the pipeline.
//! Every title and every link target passes through `sanitize_string`
//! exactly once before it is used as a persisted key or a lookup key, so
//! resolution is case-insensitive and underscore-insensitive by
//! construction.

use vstd::prelude::*;

verus! {

use vstd::string::StrSliceExecFns;

/// Whether a character has the Unicode `White_Space` property; a function
/// of the character alone.
pub uninterp spec fn is_unicode_space(c: char) -> bool;

/// The Unicode lowercase mapping of a character sequence; a function of
/// the characters alone.
pub uninterp spec fn lower_of(s: Seq<char>) -> Seq<char>;

/// Relies on char::is_whitespace: true exactly when the character has the
/// Unicode `White_Space` property.
#[verifier::external_body]
fn is_space_char(c: char) -> (r: bool)
    ensures
        r == is_unicode_space(c),
{
    c.is_whitespace()
}

/// Relies on str::to_lowercase: the result depends on the input characters
/// alone.
#[verifier::external_body]
fn lowercase_chars(v: &Vec<char>) -> (r: Vec<char>)
    ensures
        r@ == lower_of(v@),
{
    let s: String = v.iter().collect();
    s.to_lowercase().chars().collect()
}

/// Relies on str::chars: yields exactly the characters of the string, in
/// order (the view of a `str` is that character sequence).
#[verifier::external_body]
pub(crate) fn chars_of(s: &str) -> (v: Vec<char>)
    ensures
        v@ == s@,
{
    s.chars().collect()
}

/// Relies on String's FromIterator impl: collecting characters builds the
/// string of exactly those characters, in order.
#[verifier::external_body]
pub(crate) fn string_from_chars(v: &Vec<char>) -> (s: String)
    ensures
        s@ == v@,
{
    v.iter().collect()
}

/// The input without its leading whitespace.
pub open spec fn trim_front_spec(s: Seq<char>) -> Seq<char>
    decreases s.len(),
{
    if s.len() > 0 && is_unicode_space(s[0]) {
        trim_front_spec(s.drop_first())
    } else {
        s
    }
}

/// The input without its trailing whitespace.
pub open spec fn trim_back_spec(s: Seq<char>) -> Seq<char>
    decreases s.len(),
{
    if s.len() > 0 && is_unicode_space(s.last()) {
        trim_back_spec(s.drop_last())
    } else {
        s
    }
}

/// The input without leading and trailing whitespace.
pub open spec fn trim_spec(s: Seq<char>) -> Seq<char> {
    trim_back_spec(trim_front_spec(s))
}

/// Underscores become spaces, and every newline sequence (`\r\n` or a bare
/// `\n`) becomes a single space.
pub open spec fn normalize_ws_spec(s: Seq<char>) -> Seq<char>
    decreases s.len(),
{
    if s.len() == 0 {
        s
    } else if s.len() >= 2 && s[0] == '\r' && s[1] == '\n' {
        seq![' '] + normalize_ws_spec(s.skip(2))
    } else if s[0] == '\n' || s[0] == '_' {
        seq![' '] + normalize_ws_spec(s.skip(1))
    } else {
        seq![s[0]] + normalize_ws_spec(s.skip(1))
    }
}

/// If the input begins with a colon, the input without exactly that one
/// colon; otherwise the input.
pub open spec fn strip_colon_spec(s: Seq<char>) -> Seq<char> {
    if s.len() > 0 && s[0] == ':' {
        s.drop_first()
    } else {
        s
    }
}

/// The canonical lookup key of a raw title or link target: trim, replace
/// underscores and newlines with spaces, lowercase, then strip one leading
/// colon.
pub open spec fn sanitize_spec(s: Seq<char>) -> Seq<char> {
    strip_colon_spec(lower_of(normalize_ws_spec(trim_spec(s))))
}

/// A copy of `v[lo..hi]`.
pub(crate) fn copy_range(v: &Vec<char>, lo: usize, hi: usize) -> (r: Vec<char>)
    requires
        lo <= hi <= v.len(),
    ensures
        r@ == v@.subrange(lo as int, hi as int),
{
    let mut r: Vec<char> = Vec::new();
    let mut i: usize = lo;
    while i < hi
        invariant
            lo <= i <= hi <= v.len(),
            r@ == v@.subrange(lo as int, i as int),
        decreases hi - i,
    {
        r.push(v[i]);
        proof {
            assert(v@.subrange(lo as int, i as int + 1) =~= v@.subrange(lo as int, i as int).push(
                v@[i as int],
            ));
        }
        i = i + 1;
    }
    r
}

proof fn lemma_trim_front_at(s: Seq<char>, lo: int)
    requires
        0 <= lo <= s.len(),
        forall|j: int| 0 <= j < lo ==> is_unicode_space(s[j]),
        lo == s.len() || !is_unicode_space(s[lo]),
    ensures
        trim_front_spec(s) == s.subrange(lo, s.len() as int),
    decreases lo,
{
    if lo == 0 {
        assert(s.subrange(0, s.len() as int) =~= s);
    } else {
        lemma_trim_front_at(s.drop_first(), lo - 1);
        assert(s.drop_first().subrange(lo - 1, s.drop_first().len() as int) =~= s.subrange(
            lo,
            s.len() as int,
        ));
    }
}

proof fn lemma_trim_back_at(s: Seq<char>, hi: int)
    requires
        0 <= hi <= s.len(),
        forall|j: int| hi <= j < s.len() ==> is_unicode_space(s[j]),
        hi == 0 || !is_unicode_space(s[hi - 1]),
    ensures
        trim_back_spec(s) == s.subrange(0, hi),
    decreases s.len() - hi,
{
    if hi == s.len() {
        assert(s.subrange(0, s.len() as int) =~= s);
    } else {
        lemma_trim_back_at(s.drop_last(), hi);
        assert(s.drop_last().subrange(0, hi) =~= s.subrange(0, hi));
    }
}

/// The input without leading and trailing whitespace.
fn trim_chars(v: &Vec<char>) -> (r: Vec<char>)
    ensures
        r@ == trim_spec(v@),
{
    let n = v.len();
    let mut lo: usize = 0;
    while lo < n && is_space_char(v[lo])
        invariant
            lo <= n == v.len(),
            forall|j: int| 0 <= j < lo ==> is_unicode_space(v@[j]),
        decreases n - lo,
    {
        lo = lo + 1;
    }
    let mut hi: usize = n;
    while hi > lo && is_space_char(v[hi - 1])
        invariant
            lo <= hi <= n == v.len(),
            forall|j: int| 0 <= j < lo ==> is_unicode_space(v@[j]),
            forall|j: int| hi <= j < n ==> is_unicode_space(v@[j]),
        decreases hi,
    {
        hi = hi - 1;
    }
    proof {
        lemma_trim_front_at(v@, lo as int);
        let t = v@.subrange(lo as int, v@.len() as int);
        lemma_trim_back_at(t, hi - lo);
        assert(t.subrange(0, hi - lo) =~= v@.subrange(lo as int, hi as int));
    }
    copy_range(v, lo, hi)
}

/// Underscores and newline sequences replaced by single spaces.
fn normalize_ws_chars(v: &Vec<char>) -> (r: Vec<char>)
    ensures
        r@ == normalize_ws_spec(v@),
{
    let n = v.len();
    let mut r: Vec<char> = Vec::new();
    let mut i: usize = 0;
    proof {
        assert(v@.subrange(0, n as int) =~= v@);
        assert(r@ + normalize_ws_spec(v@) =~= normalize_ws_spec(v@));
    }
    while i < n
        invariant
            i <= n == v.len(),
            normalize_ws_spec(v@) == r@ + normalize_ws_spec(v@.subrange(i as int, n as int)),
        decreases n - i,
    {
        let ghost t = v@.subrange(i as int, n as int);
        let ghost r0 = r@;
        let c = v[i];
        if c == '\r' && i + 1 < n && v[i + 1] == '\n' {
            r.push(' ');
            proof {
                assert(t.skip(2) =~= v@.subrange(i as int + 2, n as int));
                assert(r@ + normalize_ws_spec(v@.subrange(i as int + 2, n as int)) =~= r0
                    + normalize_ws_spec(t));
            }
            i = i + 2;
        } else {
            if c == '\n' || c == '_' {
                r.push(' ');
            } else {
                r.push(c);
            }
            proof {
                assert(t.skip(1) =~= v@.subrange(i as int + 1, n as int));
                assert(r@ + normalize_ws_spec(v@.subrange(i as int + 1, n as int)) =~= r0
                    + normalize_ws_spec(t));
            }
            i = i + 1;
        }
    }
    proof {
        assert(v@.subrange(n as int, n as int) =~= Seq::<char>::empty());
        assert(r@ + normalize_ws_spec(Seq::<char>::empty()) =~= r@);
    }
    r
}

/// The canonical lookup key of a raw title or link target, over character
/// vectors.
pub fn sanitize_chars(v: &Vec<char>) -> (r: Vec<char>)
    ensures
        r@ == sanitize_spec(v@),
{
    let trimmed = trim_chars(v);
    let norm = normalize_ws_chars(&trimmed);
    let low = lowercase_chars(&norm);
    if low.len() > 0 && low[0] == ':' {
        let r = copy_range(&low, 1, low.len());
        proof {
            assert(low@.drop_first() =~= low@.subrange(1, low@.len() as int));
        }
        r
    } else {
        low
    }
}

/// The prefix of the input that precedes the first occurrence of `c`, or
/// the whole input if `c` does not occur.
pub open spec fn cut_at_char(s: Seq<char>, c: char) -> Seq<char>
    decreases s.len(),
{
    if s.len() == 0 {
        s
    } else if s[0] == c {
        Seq::empty()
    } else {
        seq![s[0]] + cut_at_char(s.drop_first(), c)
    }
}

pub(crate) proof fn lemma_cut_at_char(s: Seq<char>, c: char, i: int)
    requires
        0 <= i <= s.len(),
        forall|j: int| 0 <= j < i ==> s[j] != c,
        i == s.len() || s[i] == c,
    ensures
        cut_at_char(s, c) == s.subrange(0, i),
    decreases i,
{
    if s.len() == 0 {
        assert(s.subrange(0, 0) =~= s);
    } else if i == 0 {
        if s[0] == c {
            assert(s.subrange(0, 0) =~= Seq::<char>::empty());
        } else {
            assert(s.subrange(0, s.len() as int) =~= s);
        }
    } else {
        lemma_cut_at_char(s.drop_first(), c, i - 1);
        assert(s.drop_first().subrange(0, i - 1) =~= s.subrange(1, i));
        assert(seq![s[0]] + s.subrange(1, i) =~= s.subrange(0, i));
    }
}

/// The index of the first occurrence of `c` in `v`, if any.
pub(crate) fn find_char(v: &Vec<char>, c: char) -> (r: Option<usize>)
    ensures
        match r {
            Some(i) => i < v.len() && v@[i as int] == c && forall|j: int|
                0 <= j < i ==> v@[j] != c,
            None => forall|j: int| 0 <= j < v.len() ==> v@[j] != c,
        },
{
    let mut i: usize = 0;
    while i < v.len()
        invariant
            i <= v.len(),
            forall|j: int| 0 <= j < i ==> v@[j] != c,
        decreases v.len() - i,
    {
        if v[i] == c {
            return Some(i);
        }
        i = i + 1;
    }
    None
}

/// The prefix of `v` that precedes the first occurrence of `c`.
pub(crate) fn cut_at_char_exec(v: &Vec<char>, c: char) -> (r: Vec<char>)
    ensures
        r@ == cut_at_char(v@, c),
{
    let end: usize = match find_char(v, c) {
        Some(i) => i,
        None => v.len(),
    };
    proof {
        lemma_cut_at_char(v@, c, end as int);
    }
    copy_range(v, 0, end)
}

/// Whether `needle` occurs contiguously anywhere in `hay`.
pub open spec fn contains_seq(hay: Seq<char>, needle: Seq<char>) -> bool {
    exists|i: int|
        0 <= i <= hay.len() - needle.len() && #[trigger] hay.subrange(i, i + needle.len() as int)
            == needle
}

/// Whether `needle` occurs contiguously anywhere in `hay`.
pub(crate) fn contains_chars(hay: &Vec<char>, needle: &Vec<char>) -> (r: bool)
    ensures
        r == contains_seq(hay@, needle@),
{
    let nl = needle.len();
    if nl > hay.len() {
        return false;
    }
    if nl == 0 {
        proof {
            assert(hay@.subrange(0, 0 + needle@.len() as int) =~= needle@);
        }
        return true;
    }
    let last = hay.len() - nl;
    let mut i: usize = 0;
    while i <= last
        invariant
            1 <= nl == needle.len() <= hay.len(),
            last == hay.len() - nl,
            i <= last + 1,
            forall|k: int|
                0 <= k < i ==> #[trigger] hay@.subrange(k, k + needle@.len() as int) != needle@,
        decreases last + 1 - i,
    {
        let mut j: usize = 0;
        let mut matched = true;
        while j < nl
            invariant
                nl == needle.len(),
                i <= last == hay.len() - nl,
                j <= nl,
                matched ==> forall|t: int| 0 <= t < j ==> hay@[i + t] == needle@[t],
                !matched ==> hay@.subrange(i as int, i + nl as int) != needle@,
            decreases nl - j,
        {
            if hay[i + j] != needle[j] {
                proof {
                    assert(hay@.subrange(i as int, i + nl as int)[j as int] == hay@[i + j]);
                }
                matched = false;
                j = nl;
            } else {
                j = j + 1;
            }
        }
        if matched {
            proof {
                assert(hay@.subrange(i as int, i + nl as int) =~= needle@);
            }
            return true;
        }
        i = i + 1;
    }
    false
}

/// Whether the character vector spells exactly the given string.
pub(crate) fn chars_eq_str(v: &Vec<char>, s: &str) -> (r: bool)
    ensures
        r == (v@ == s@),
{
    let n = s.unicode_len();
    if v.len() != n {
        return false;
    }
    let mut i: usize = 0;
    while i < n
        invariant
            n == s@.len() == v@.len(),
            i <= n,
            forall|j: int| 0 <= j < i ==> v@[j] == s@[j],
        decreases n - i,
    {
        if v[i] != s.get_char(i) {
            return false;
        }
        i = i + 1;
    }
    proof {
        assert(v@ =~= s@);
    }
    true
}

/// Whether the given string occurs contiguously anywhere in the vector.
pub(crate) fn contains_lit(v: &Vec<char>, s: &str) -> (r: bool)
    ensures
        r == contains_seq(v@, s@),
{
    let pat = chars_of(s);
    contains_chars(v, &pat)
}

/// Whether two strings spell the same character sequence.
pub(crate) fn str_eq(a: &str, b: &str) -> (r: bool)
    ensures
        r == (a@ == b@),
{
    let v = chars_of(a);
    chars_eq_str(&v, b)
}

/// Normalizes a raw title or link string into its canonical lookup key:
/// trim whitespace, replace underscores and newline sequences with spaces,
/// lowercase, and strip one leading colon.
pub fn sanitize_string(input: &str) -> (r: String)
    ensures
        r@ == sanitize_spec(input@),
{
    let v = chars_of(input);
    let s = sanitize_chars(&v);
    string_from_chars(&s)
}

} // verus!
