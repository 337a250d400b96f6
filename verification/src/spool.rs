//! The adjacency spool: one text line per accepted article, bridging
//! Pass 1 and Pass 2. A line is pipe-delimited with no trailing pipe:
//! the planned byte offset, the link count, then the ordered raw link
//! targets.

use vstd::prelude::*;

use crate::models::{SpoolModel, SpoolRecord};
use crate::utils::{chars_of, copy_range, cut_at_char, lemma_cut_at_char, string_from_chars};

verus! {

/// The value of a decimal digit character, or 10 for any other character.
pub open spec fn digit_val(c: char) -> nat {
    if c == '0' {
        0
    } else if c == '1' {
        1
    } else if c == '2' {
        2
    } else if c == '3' {
        3
    } else if c == '4' {
        4
    } else if c == '5' {
        5
    } else if c == '6' {
        6
    } else if c == '7' {
        7
    } else if c == '8' {
        8
    } else if c == '9' {
        9
    } else {
        10
    }
}

/// Whether the character is a decimal digit.
pub open spec fn is_digit(c: char) -> bool {
    digit_val(c) < 10
}

/// The digit character of a value below ten.
pub open spec fn digit_char(d: nat) -> char {
    if d == 0 {
        '0'
    } else if d == 1 {
        '1'
    } else if d == 2 {
        '2'
    } else if d == 3 {
        '3'
    } else if d == 4 {
        '4'
    } else if d == 5 {
        '5'
    } else if d == 6 {
        '6'
    } else if d == 7 {
        '7'
    } else if d == 8 {
        '8'
    } else {
        '9'
    }
}

/// The decimal representation of a number, most significant digit first,
/// without leading zeros (a sole zero for 0).
pub open spec fn dec_rep(n: nat) -> Seq<char>
    decreases n,
{
    if n < 10 {
        seq![digit_char(n)]
    } else {
        dec_rep(n / 10).push(digit_char(n % 10))
    }
}

/// Whether every character of the sequence is a decimal digit.
pub open spec fn all_digits(s: Seq<char>) -> bool {
    forall|i: int| 0 <= i < s.len() ==> is_digit(#[trigger] s[i])
}

/// The value of a sequence of decimal digits, most significant first.
pub open spec fn dec_val(s: Seq<char>) -> nat
    decreases s.len(),
{
    if s.len() == 0 {
        0
    } else {
        dec_val(s.drop_last()) * 10 + digit_val(s.last())
    }
}

proof fn lemma_dec_rep_digits(n: nat)
    ensures
        dec_rep(n).len() >= 1,
        all_digits(dec_rep(n)),
    decreases n,
{
    if n < 10 {
        assert(is_digit(dec_rep(n)[0]));
    } else {
        lemma_dec_rep_digits(n / 10);
        assert(forall|i: int|
            0 <= i < dec_rep(n).len() ==> is_digit(#[trigger] dec_rep(n)[i]));
    }
}

proof fn lemma_dec_rep_val(n: nat)
    ensures
        dec_val(dec_rep(n)) == n,
    decreases n,
{
    if n < 10 {
        assert(dec_rep(n).drop_last() =~= Seq::<char>::empty());
        assert(dec_val(Seq::<char>::empty()) == 0);
        assert(dec_rep(n).last() == digit_char(n));
        assert(digit_val(digit_char(n)) == n);
    } else {
        lemma_dec_rep_val(n / 10);
        assert(dec_rep(n).drop_last() =~= dec_rep(n / 10));
        assert(n / 10 * 10 + n % 10 == n) by {
            vstd::arithmetic::div_mod::lemma_fundamental_div_mod(n as int, 10);
        }
    }
}

proof fn lemma_dec_val_prefix(s: Seq<char>, i: int)
    requires
        0 <= i <= s.len(),
    ensures
        dec_val(s.subrange(0, i)) <= dec_val(s),
    decreases s.len() - i,
{
    if i == s.len() {
        assert(s.subrange(0, i) =~= s);
    } else {
        lemma_dec_val_prefix(s, i + 1);
        assert(s.subrange(0, i + 1).drop_last() =~= s.subrange(0, i));
        assert(dec_val(s.subrange(0, i)) <= dec_val(s.subrange(0, i + 1)));
    }
}

/// The number a nonempty, all-digit sequence denotes, when it fits in a
/// `u64`.
pub open spec fn parse_u64_spec(s: Seq<char>) -> Option<u64> {
    if s.len() >= 1 && all_digits(s) && dec_val(s) <= u64::MAX {
        Some(dec_val(s) as u64)
    } else {
        None
    }
}

fn digit_to_char(d: u64) -> (c: char)
    requires
        d < 10,
    ensures
        c == digit_char(d as nat),
{
    match d {
        0 => '0',
        1 => '1',
        2 => '2',
        3 => '3',
        4 => '4',
        5 => '5',
        6 => '6',
        7 => '7',
        8 => '8',
        _ => '9',
    }
}

fn char_to_digit(c: char) -> (r: Option<u64>)
    ensures
        match r {
            Some(d) => is_digit(c) && d == digit_val(c),
            None => !is_digit(c),
        },
{
    match c {
        '0' => Some(0),
        '1' => Some(1),
        '2' => Some(2),
        '3' => Some(3),
        '4' => Some(4),
        '5' => Some(5),
        '6' => Some(6),
        '7' => Some(7),
        '8' => Some(8),
        '9' => Some(9),
        _ => None,
    }
}

/// The decimal representation of a number, most significant digit first.
pub(crate) fn u64_to_dec(x: u64) -> (v: Vec<char>)
    ensures
        v@ == dec_rep(x as nat),
    decreases x,
{
    if x < 10 {
        let mut v: Vec<char> = Vec::new();
        v.push(digit_to_char(x));
        proof {
            assert(v@ =~= seq![digit_char(x as nat)]);
        }
        v
    } else {
        let mut v = u64_to_dec(x / 10);
        v.push(digit_to_char(x % 10));
        v
    }
}

/// The value of a nonempty all-digit character vector, when it fits.
pub(crate) fn parse_dec(v: &Vec<char>) -> (r: Option<u64>)
    ensures
        r == parse_u64_spec(v@),
{
    let n = v.len();
    if n == 0 {
        return None;
    }
    let mut acc: u64 = 0;
    let mut i: usize = 0;
    proof {
        assert(v@.subrange(0, 0) =~= Seq::<char>::empty());
    }
    while i < n
        invariant
            n == v@.len(),
            i <= n,
            acc == dec_val(v@.subrange(0, i as int)),
            acc <= u64::MAX,
            forall|j: int| 0 <= j < i ==> is_digit(#[trigger] v@[j]),
        decreases n - i,
    {
        let ghost pre = v@.subrange(0, i as int);
        let d = match char_to_digit(v[i]) {
            Some(d) => d,
            None => {
                return None;
            },
        };
        proof {
            assert(v@.subrange(0, i as int + 1).drop_last() =~= pre);
            assert(dec_val(v@.subrange(0, i as int + 1)) == dec_val(pre) * 10 + digit_val(
                v@[i as int],
            ));
        }
        if acc > (u64::MAX - d) / 10 {
            proof {
                assert(dec_val(v@.subrange(0, i as int + 1)) > u64::MAX);
                lemma_dec_val_prefix(v@, i as int + 1);
            }
            return None;
        }
        acc = acc * 10 + d;
        i = i + 1;
    }
    proof {
        assert(v@.subrange(0, n as int) =~= v@);
    }
    Some(acc)
}

/// The fields of the sequence, split on the separator; a separator at the
/// end yields a final empty field.
pub open spec fn split_spec(s: Seq<char>, c: char) -> Seq<Seq<char>>
    decreases s.len(),
{
    let pre = cut_at_char(s, c);
    if pre.len() >= s.len() {
        seq![s]
    } else {
        seq![pre] + split_spec(s.skip(pre.len() as int + 1), c)
    }
}

/// The index of the first occurrence of `c` in `v` at or after `start`.
fn find_char_from(v: &Vec<char>, c: char, start: usize) -> (r: Option<usize>)
    requires
        start <= v.len(),
    ensures
        match r {
            Some(i) => start <= i < v.len() && v@[i as int] == c && forall|j: int|
                start <= j < i ==> v@[j] != c,
            None => forall|j: int| start <= j < v.len() ==> v@[j] != c,
        },
{
    let mut i: usize = start;
    while i < v.len()
        invariant
            start <= i <= v.len(),
            forall|j: int| start <= j < i ==> v@[j] != c,
        decreases v.len() - i,
    {
        if v[i] == c {
            return Some(i);
        }
        i = i + 1;
    }
    None
}

/// The fields of the vector, split on the separator.
pub(crate) fn split_chars(v: &Vec<char>, c: char) -> (r: Vec<Vec<char>>)
    ensures
        r.deep_view() == split_spec(v@, c),
{
    let n = v.len();
    let mut r: Vec<Vec<char>> = Vec::new();
    let mut start: usize = 0;
    proof {
        assert(r.deep_view() =~= Seq::<Seq<char>>::empty());
        assert(r.deep_view() + split_spec(v@.skip(0), c) =~= split_spec(v@.skip(0), c));
        assert(v@.skip(0) =~= v@);
    }
    loop
        invariant
            start <= n == v.len(),
            split_spec(v@, c) == r.deep_view() + split_spec(v@.skip(start as int), c),
        decreases n - start,
    {
        let ghost r0 = r.deep_view();
        let ghost t = v@.skip(start as int);
        match find_char_from(v, c, start) {
            Some(idx) => {
                let piece = copy_range(v, start, idx);
                r.push(piece);
                proof {
                    lemma_cut_at_char(t, c, idx - start);
                    assert(t.subrange(0, idx - start) =~= v@.subrange(start as int, idx as int));
                    assert(cut_at_char(t, c) == v@.subrange(
                        start as int,
                        idx as int,
                    ));
                    assert(t.skip((idx - start) + 1) =~= v@.skip(idx as int + 1));
                    assert(split_spec(t, c) == seq![v@.subrange(start as int, idx as int)]
                        + split_spec(v@.skip(idx as int + 1), c));
                    assert(r.deep_view() =~~= r0 + seq![v@.subrange(start as int, idx as int)]);
                    assert(r0 + (seq![v@.subrange(start as int, idx as int)] + split_spec(
                        v@.skip(idx as int + 1),
                        c,
                    )) =~= (r0 + seq![v@.subrange(start as int, idx as int)]) + split_spec(
                        v@.skip(idx as int + 1),
                        c,
                    ));
                }
                start = idx + 1;
            },
            None => {
                let piece = copy_range(v, start, n);
                r.push(piece);
                proof {
                    lemma_cut_at_char(t, c, t.len() as int);
                    assert(cut_at_char(t, c) == t.subrange(0, t.len() as int));
                    assert(t.subrange(0, t.len() as int) =~= t);
                    assert(split_spec(t, c) == seq![t]);
                    assert(v@.subrange(start as int, n as int) =~= t);
                    assert(r.deep_view() =~~= r0 + seq![t]);
                }
                return r;
            },
        }
    }
}

/// The tail of a spool line: a pipe before each target, in order.
pub open spec fn join_targets(ts: Seq<Seq<char>>) -> Seq<char>
    decreases ts.len(),
{
    if ts.len() == 0 {
        Seq::empty()
    } else {
        seq!['|'] + ts[0] + join_targets(ts.drop_first())
    }
}

/// The text of one spool line (without the line terminator): planned byte
/// offset, link count, then the targets, pipe-delimited with no trailing
/// pipe.
pub open spec fn spool_line_spec(m: SpoolModel) -> Seq<char> {
    dec_rep(m.offset as nat) + seq!['|'] + dec_rep(m.targets.len() as nat) + join_targets(m.targets)
}

/// The record a spool line denotes, if it is well-formed: at least two
/// fields, a decimal offset that fits in 32 bits, a decimal link count
/// equal to the number of target fields, and no empty target.
pub open spec fn parse_spool_spec(s: Seq<char>) -> Option<SpoolModel> {
    let fields = split_spec(s, '|');
    if fields.len() < 2 {
        None
    } else {
        match parse_u64_spec(fields[0]) {
            None => None,
            Some(off) => {
                if off > u32::MAX as u64 {
                    None
                } else {
                    match parse_u64_spec(fields[1]) {
                        None => None,
                        Some(cnt) => {
                            let ts = fields.skip(2);
                            if cnt as int == ts.len() && (forall|i: int|
                                0 <= i < ts.len() ==> (#[trigger] ts[i]).len() >= 1) {
                                Some(SpoolModel { offset: off as u32, targets: ts })
                            } else {
                                None
                            }
                        },
                    }
                }
            },
        }
    }
}

proof fn lemma_join_push(ts: Seq<Seq<char>>, t: Seq<char>)
    ensures
        join_targets(ts.push(t)) == join_targets(ts) + seq!['|'] + t,
    decreases ts.len(),
{
    if ts.len() == 0 {
        assert(ts =~= Seq::<Seq<char>>::empty());
        assert(ts.push(t).drop_first() =~= ts);
        assert(ts.push(t)[0] == t);
        assert(join_targets(ts.push(t)) == seq!['|'] + t + join_targets(ts));
        assert(seq!['|'] + t + join_targets(ts) =~= join_targets(ts) + seq!['|'] + t);
    } else {
        lemma_join_push(ts.drop_first(), t);
        assert(ts.push(t).drop_first() =~= ts.drop_first().push(t));
        assert(ts.push(t)[0] == ts[0]);
        assert(seq!['|'] + ts[0] + (join_targets(ts.drop_first()) + seq!['|'] + t) =~= (seq!['|']
            + ts[0] + join_targets(ts.drop_first())) + seq!['|'] + t);
    }
}

/// Appends the characters of `src` to `dst`.
fn append_chars(dst: &mut Vec<char>, src: &Vec<char>)
    ensures
        final(dst)@ == old(dst)@ + src@,
{
    let n = src.len();
    let mut i: usize = 0;
    proof {
        assert(old(dst)@ + src@.subrange(0, 0) =~= old(dst)@);
    }
    while i < n
        invariant
            i <= n == src@.len(),
            dst@ == old(dst)@ + src@.subrange(0, i as int),
        decreases n - i,
    {
        dst.push(src[i]);
        proof {
            assert(old(dst)@ + src@.subrange(0, i as int + 1) =~= (old(dst)@ + src@.subrange(
                0,
                i as int,
            )).push(src@[i as int]));
        }
        i = i + 1;
    }
    proof {
        assert(src@.subrange(0, n as int) =~= src@);
    }
}

/// The text of one spool line for this record, without the terminator.
pub fn encode_spool_line(rec: &SpoolRecord) -> (r: String)
    ensures
        r@ == spool_line_spec(rec@),
{
    let mut out: Vec<char> = u64_to_dec(rec.offset as u64);
    out.push('|');
    let cnt = u64_to_dec(rec.targets.len() as u64);
    append_chars(&mut out, &cnt);
    proof {
        assert(out@ =~= dec_rep(rec.offset as nat) + seq!['|'] + dec_rep(rec@.targets.len() as nat));
        assert(out@ + join_targets(rec@.targets.subrange(0, 0)) =~= out@);
    }
    let ghost head = out@;
    let n = rec.targets.len();
    let mut i: usize = 0;
    while i < n
        invariant
            i <= n == rec.targets@.len(),
            rec@.targets.len() == n,
            out@ == head + join_targets(rec@.targets.subrange(0, i as int)),
        decreases n - i,
    {
        let ghost out0 = out@;
        out.push('|');
        let tv = chars_of(rec.targets[i].as_str());
        append_chars(&mut out, &tv);
        proof {
            assert(rec@.targets.subrange(0, i as int + 1) =~= rec@.targets.subrange(
                0,
                i as int,
            ).push(rec@.targets[i as int]));
            lemma_join_push(rec@.targets.subrange(0, i as int), rec@.targets[i as int]);
            assert(rec@.targets[i as int] == rec.targets@[i as int]@);
            assert(out@ =~= head + join_targets(rec@.targets.subrange(0, i as int + 1)));
        }
        i = i + 1;
    }
    proof {
        assert(rec@.targets.subrange(0, n as int) =~= rec@.targets);
        assert(out@ =~= spool_line_spec(rec@));
    }
    string_from_chars(&out)
}

/// The spool record a line denotes, per `parse_spool_spec`; `None` is a
/// malformed line, which aborts Pass 2.
pub fn parse_spool_line(line: &str) -> (r: Option<SpoolRecord>)
    ensures
        match r {
            Some(rec) => parse_spool_spec(line@) == Some(rec@),
            None => parse_spool_spec(line@) is None,
        },
{
    let v = chars_of(line);
    let fields = split_chars(&v, '|');
    let nf = fields.len();
    proof {
        assert(fields.deep_view().len() == nf);
    }
    if nf < 2 {
        return None;
    }
    proof {
        assert(fields@[0].deep_view() =~= fields@[0]@);
        assert(fields@[1].deep_view() =~= fields@[1]@);
        assert(fields.deep_view()[0] == fields@[0]@);
        assert(fields.deep_view()[1] == fields@[1]@);
    }
    let off64 = match parse_dec(&fields[0]) {
        Some(x) => x,
        None => {
            return None;
        },
    };
    if off64 > 0xffff_ffff_u64 {
        return None;
    }
    let cnt = match parse_dec(&fields[1]) {
        Some(x) => x,
        None => {
            return None;
        },
    };
    let ghost ts = split_spec(line@, '|').skip(2);
    let mut targets: Vec<String> = Vec::new();
    let mut i: usize = 2;
    proof {
        assert(targets.deep_view() =~= ts.subrange(0, 0));
    }
    while i < nf
        invariant
            2 <= i <= nf == fields@.len(),
            fields.deep_view() == split_spec(line@, '|'),
            ts == split_spec(line@, '|').skip(2),
            targets.deep_view() == ts.subrange(0, i - 2),
            forall|j: int| 0 <= j < i - 2 ==> (#[trigger] ts[j]).len() >= 1,
        decreases nf - i,
    {
        let f = &fields[i];
        proof {
            assert(fields@[i as int].deep_view() =~= fields@[i as int]@);
            assert(ts[i - 2] == fields.deep_view()[i as int]);
        }
        if f.len() == 0 {
            proof {
                assert(ts[i - 2].len() == 0);
            }
            return None;
        }
        let s = string_from_chars(f);
        targets.push(s);
        proof {
            assert(targets.deep_view() =~= ts.subrange(0, i - 2).push(ts[i - 2]));
            assert(ts.subrange(0, i - 2).push(ts[i - 2]) =~= ts.subrange(0, i - 1));
        }
        i = i + 1;
    }
    if cnt != (nf - 2) as u64 {
        return None;
    }
    let rec = SpoolRecord { offset: off64 as u32, targets };
    proof {
        assert(ts.subrange(0, nf - 2) =~= ts);
        assert(rec@.targets == ts);
        assert(parse_spool_spec(line@) == Some(rec@));
    }
    Some(rec)
}

proof fn lemma_digits_no_sep(s: Seq<char>)
    requires
        all_digits(s),
    ensures
        forall|j: int| 0 <= j < s.len() ==> s[j] != '|',
{
    assert forall|j: int| 0 <= j < s.len() implies s[j] != '|' by {
        assert(is_digit(s[j]));
    }
}

proof fn lemma_split_prepend(pre: Seq<char>, rest: Seq<char>)
    requires
        forall|j: int| 0 <= j < pre.len() ==> pre[j] != '|',
    ensures
        split_spec(pre + seq!['|'] + rest, '|') == seq![pre] + split_spec(rest, '|'),
{
    let x = pre + seq!['|'] + rest;
    assert(forall|j: int| 0 <= j < pre.len() ==> x[j] == pre[j]);
    assert(x[pre.len() as int] == '|');
    lemma_cut_at_char(x, '|', pre.len() as int);
    assert(x.subrange(0, pre.len() as int) =~= pre);
    assert(cut_at_char(x, '|') == pre);
    assert(x.skip(pre.len() as int + 1) =~= rest);
}

proof fn lemma_split_of_joined(h: Seq<char>, ts: Seq<Seq<char>>)
    requires
        forall|j: int| 0 <= j < h.len() ==> h[j] != '|',
        forall|i: int, j: int|
            0 <= i < ts.len() && 0 <= j < ts[i].len() ==> #[trigger] ts[i][j] != '|',
    ensures
        split_spec(h + join_targets(ts), '|') == seq![h] + ts,
    decreases ts.len(),
{
    if ts.len() == 0 {
        assert(h + join_targets(ts) =~= h);
        lemma_cut_at_char(h, '|', h.len() as int);
        assert(h.subrange(0, h.len() as int) =~= h);
        assert(cut_at_char(h, '|') == h);
        assert(split_spec(h, '|') == seq![h]);
        assert(seq![h] + ts =~= seq![h]);
    } else {
        let rest = ts[0] + join_targets(ts.drop_first());
        assert(h + join_targets(ts) =~= h + seq!['|'] + rest);
        lemma_split_prepend(h, rest);
        assert(forall|i: int, j: int|
            0 <= i < ts.drop_first().len() && 0 <= j < ts.drop_first()[i].len()
                ==> #[trigger] ts.drop_first()[i][j] != '|');
        assert(forall|j: int| 0 <= j < ts[0].len() ==> ts[0][j] != '|');
        lemma_split_of_joined(ts[0], ts.drop_first());
        assert(seq![h] + (seq![ts[0]] + ts.drop_first()) =~= seq![h] + ts);
    }
}

/// The spool line format round-trips: parsing the encoded line of a
/// record yields the record back, provided every target is nonempty and
/// free of the pipe separator — which holds of every record Pass 1
/// writes, since an empty sanitized target is never emitted and targets
/// carry no pipe.
pub proof fn lemma_spool_line_round_trip(m: SpoolModel)
    requires
        m.targets.len() <= u64::MAX,
        forall|i: int| 0 <= i < m.targets.len() ==> (#[trigger] m.targets[i]).len() >= 1,
        forall|i: int, j: int|
            0 <= i < m.targets.len() && 0 <= j < m.targets[i].len() ==> #[trigger] m.targets[i][j]
                != '|',
    ensures
        parse_spool_spec(spool_line_spec(m)) == Some(m),
{
    let line = spool_line_spec(m);
    let d_off = dec_rep(m.offset as nat);
    let d_cnt = dec_rep(m.targets.len() as nat);
    lemma_dec_rep_digits(m.offset as nat);
    lemma_dec_rep_digits(m.targets.len() as nat);
    lemma_dec_rep_val(m.offset as nat);
    lemma_dec_rep_val(m.targets.len() as nat);
    lemma_digits_no_sep(d_off);
    lemma_digits_no_sep(d_cnt);
    let tail = d_cnt + join_targets(m.targets);
    assert(line =~= d_off + seq!['|'] + tail);
    lemma_split_prepend(d_off, tail);
    lemma_split_of_joined(d_cnt, m.targets);
    let fields = split_spec(line, '|');
    assert(fields == seq![d_off] + (seq![d_cnt] + m.targets));
    assert(fields.len() == 2 + m.targets.len());
    assert(fields[0] == d_off);
    assert(fields[1] == d_cnt);
    assert(fields.skip(2) =~= m.targets);
    assert(dec_val(d_off) == m.offset as nat);
    assert(dec_val(d_cnt) == m.targets.len() as nat);
    assert(parse_u64_spec(d_off) == Some(m.offset as u64));
    assert(parse_u64_spec(d_cnt) == Some(m.targets.len() as u64));
    assert(parse_spool_spec(line) == Some(SpoolModel { offset: m.offset, targets: m.targets }));
    assert(SpoolModel { offset: m.offset, targets: m.targets } == m);
}

} // verus!
