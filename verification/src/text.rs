//! The textual VM-map input: integers, lines, the embedded CSV region and
//! the inferred-trace line.

use vstd::prelude::*;

verus! {

/// ASCII `0`, `9`, `\n`, `\r`.
pub const ZERO: u8 = 48;

pub const NINE: u8 = 57;

pub const NEWLINE: u8 = 10;

pub const CARRIAGE: u8 = 13;

pub open spec fn is_digit(b: u8) -> bool {
    ZERO <= b <= NINE
}

pub open spec fn is_hex(b: u8) -> bool {
    ZERO <= b <= NINE || 97 <= b <= 102 || 65 <= b <= 70
}

pub open spec fn hex_digit_val(b: u8) -> int {
    if ZERO <= b <= NINE {
        b - ZERO
    } else if 97 <= b <= 102 {
        b - 87
    } else {
        b - 55
    }
}

/// Every position of `s` holds a decimal digit, and there is at least one.
pub open spec fn all_digits(s: Seq<u8>) -> bool {
    s.len() > 0 && forall|i: int| 0 <= i < s.len() ==> is_digit(#[trigger] s[i])
}

/// Every position of `s` holds a hexadecimal digit, and there is at least
/// one.
pub open spec fn all_hex(s: Seq<u8>) -> bool {
    s.len() > 0 && forall|i: int| 0 <= i < s.len() ==> is_hex(#[trigger] s[i])
}

/// The value of a decimal digit string.
pub open spec fn dec_val(s: Seq<u8>) -> int
    decreases s.len(),
{
    if s.len() == 0 {
        0
    } else {
        dec_val(s.drop_last()) * 10 + (s.last() - ZERO)
    }
}

/// The value of a hexadecimal digit string.
pub open spec fn hex_val(s: Seq<u8>) -> int
    decreases s.len(),
{
    if s.len() == 0 {
        0
    } else {
        hex_val(s.drop_last()) * 16 + hex_digit_val(s.last())
    }
}

pub proof fn lemma_dec_val_nonneg(s: Seq<u8>)
    requires
        forall|i: int| 0 <= i < s.len() ==> is_digit(#[trigger] s[i]),
    ensures
        dec_val(s) >= 0,
    decreases s.len(),
{
    if s.len() > 0 {
        assert(forall|i: int| 0 <= i < s.drop_last().len() ==> s.drop_last()[i] == s[i]);
        lemma_dec_val_nonneg(s.drop_last());
    }
}

pub proof fn lemma_dec_val_prefix(s: Seq<u8>, k: int)
    requires
        0 <= k <= s.len(),
        forall|i: int| 0 <= i < s.len() ==> is_digit(#[trigger] s[i]),
    ensures
        dec_val(s.take(k)) <= dec_val(s),
    decreases s.len() - k,
{
    if k < s.len() {
        assert(s.take(k + 1).drop_last() =~= s.take(k));
        assert(forall|i: int| 0 <= i < s.take(k).len() ==> s.take(k)[i] == s[i]);
        lemma_dec_val_nonneg(s.take(k));
        assert(dec_val(s.take(k + 1)) == dec_val(s.take(k)) * 10 + (s[k] - ZERO));
        lemma_dec_val_prefix(s, k + 1);
    } else {
        assert(s.take(k) =~= s);
    }
}

pub proof fn lemma_hex_val_nonneg(s: Seq<u8>)
    requires
        forall|i: int| 0 <= i < s.len() ==> is_hex(#[trigger] s[i]),
    ensures
        hex_val(s) >= 0,
    decreases s.len(),
{
    if s.len() > 0 {
        assert(forall|i: int| 0 <= i < s.drop_last().len() ==> s.drop_last()[i] == s[i]);
        lemma_hex_val_nonneg(s.drop_last());
    }
}

pub proof fn lemma_hex_val_prefix(s: Seq<u8>, k: int)
    requires
        0 <= k <= s.len(),
        forall|i: int| 0 <= i < s.len() ==> is_hex(#[trigger] s[i]),
    ensures
        hex_val(s.take(k)) <= hex_val(s),
    decreases s.len() - k,
{
    if k < s.len() {
        assert(s.take(k + 1).drop_last() =~= s.take(k));
        assert(forall|i: int| 0 <= i < s.take(k).len() ==> s.take(k)[i] == s[i]);
        lemma_hex_val_nonneg(s.take(k));
        assert(hex_val(s.take(k + 1)) == hex_val(s.take(k)) * 16 + hex_digit_val(s[k]));
        lemma_hex_val_prefix(s, k + 1);
    } else {
        assert(s.take(k) =~= s);
    }
}

/// Parses an unsigned decimal number; `None` on a non-digit, an empty
/// string, or a value that does not fit 64 bits.
#[verifier::loop_isolation(false)]
pub fn parse_u64_dec(s: &[u8]) -> (r: Option<u64>)
    ensures
        match r {
            Some(v) => all_digits(s@) && v == dec_val(s@) && dec_val(s@) <= u64::MAX,
            None => !all_digits(s@) || dec_val(s@) > u64::MAX,
        },
{
    if s.len() == 0 {
        return None;
    }
    let mut acc: u64 = 0;
    let mut i: usize = 0;
    while i < s.len()
        invariant
            i <= s@.len(),
            forall|j: int| 0 <= j < i ==> is_digit(#[trigger] s@[j]),
            acc == dec_val(s@.take(i as int)),
        decreases s@.len() - i,
    {
        let b = s[i];
        if b < ZERO || b > NINE {
            return None;
        }
        let wide: u128 = acc as u128 * 10 + (b - ZERO) as u128;
        proof {
            assert(s@.take(i + 1).drop_last() =~= s@.take(i as int));
            assert(s@.take(i + 1).last() == s@[i as int]);
        }
        if wide > u64::MAX as u128 {
            proof {
                assert(dec_val(s@.take(i + 1)) > u64::MAX);
                if all_digits(s@) {
                    lemma_dec_val_prefix(s@, i + 1);
                }
            }
            return None;
        }
        acc = wide as u64;
        i = i + 1;
    }
    proof {
        assert(s@.take(i as int) =~= s@);
    }
    Some(acc)
}

/// Parses an unsigned hexadecimal number; `None` on a non-digit, an empty
/// string, or a value that does not fit 64 bits.
#[verifier::loop_isolation(false)]
pub fn parse_u64_hex(s: &[u8]) -> (r: Option<u64>)
    ensures
        match r {
            Some(v) => all_hex(s@) && v == hex_val(s@) && hex_val(s@) <= u64::MAX,
            None => !all_hex(s@) || hex_val(s@) > u64::MAX,
        },
{
    if s.len() == 0 {
        return None;
    }
    let mut acc: u64 = 0;
    let mut i: usize = 0;
    while i < s.len()
        invariant
            i <= s@.len(),
            forall|j: int| 0 <= j < i ==> is_hex(#[trigger] s@[j]),
            acc == hex_val(s@.take(i as int)),
        decreases s@.len() - i,
    {
        let b = s[i];
        let d: u64 = if b >= ZERO && b <= NINE {
            (b - ZERO) as u64
        } else if b >= 97 && b <= 102 {
            (b - 87) as u64
        } else if b >= 65 && b <= 70 {
            (b - 55) as u64
        } else {
            return None;
        };
        let wide: u128 = acc as u128 * 16 + d as u128;
        proof {
            assert(s@.take(i + 1).drop_last() =~= s@.take(i as int));
            assert(s@.take(i + 1).last() == s@[i as int]);
        }
        if wide > u64::MAX as u128 {
            proof {
                assert(hex_val(s@.take(i + 1)) > u64::MAX);
                if all_hex(s@) {
                    lemma_hex_val_prefix(s@, i + 1);
                }
            }
            return None;
        }
        acc = wide as u64;
        i = i + 1;
    }
    proof {
        assert(s@.take(i as int) =~= s@);
    }
    Some(acc)
}

/// The value of an integer field: with a `0x` or `0X` prefix the digits
/// are hexadecimal, otherwise decimal.
pub open spec fn spec_parse_int(s: Seq<u8>) -> Option<int> {
    if s.len() > 2 && s[0] == ZERO && (s[1] == 120 || s[1] == 88) {
        if all_hex(s.skip(2)) {
            Some(hex_val(s.skip(2)))
        } else {
            None
        }
    } else {
        if all_digits(s) {
            Some(dec_val(s))
        } else {
            None
        }
    }
}

/// Parses an integer field as `spec_parse_int` says; `None` also covers a
/// value that does not fit 64 bits.
pub fn parse_u64_int(s: &[u8]) -> (r: Option<u64>)
    ensures
        match r {
            Some(v) => spec_parse_int(s@) == Some(v as int),
            None => spec_parse_int(s@) is None || spec_parse_int(s@)->Some_0 > u64::MAX,
        },
{
    if s.len() > 2 && s[0] == ZERO && (s[1] == 120 || s[1] == 88) {
        let rest = crate::bytes::tail_from(s, 2);
        parse_u64_hex(rest.as_slice())
    } else {
        parse_u64_dec(s)
    }
}

pub open spec fn is_space(b: u8) -> bool {
    b == 32 || b == 9 || b == 10 || b == 13 || b == 11 || b == 12
}

fn space(b: u8) -> (r: bool)
    ensures
        r == is_space(b),
{
    b == 32 || b == 9 || b == 10 || b == 13 || b == 11 || b == 12
}

pub open spec fn lstrip_sp(s: Seq<u8>) -> Seq<u8>
    decreases s.len(),
{
    if s.len() > 0 && is_space(s[0]) {
        lstrip_sp(s.skip(1))
    } else {
        s
    }
}

pub open spec fn rstrip_sp(s: Seq<u8>) -> Seq<u8>
    decreases s.len(),
{
    if s.len() > 0 && is_space(s.last()) {
        rstrip_sp(s.drop_last())
    } else {
        s
    }
}

/// `s` without leading and trailing whitespace.
pub open spec fn trim_sp(s: Seq<u8>) -> Seq<u8> {
    rstrip_sp(lstrip_sp(s))
}

/// Trims leading and trailing whitespace, as `trim_sp` says.
#[verifier::loop_isolation(false)]
pub fn trim(s: &[u8]) -> (r: Vec<u8>)
    ensures
        r@ == trim_sp(s@),
{
    let mut a: usize = 0;
    proof {
        assert(s@.skip(0) =~= s@);
    }
    while a < s.len() && space(s[a])
        invariant
            a <= s@.len(),
            lstrip_sp(s@) == lstrip_sp(s@.skip(a as int)),
        decreases s@.len() - a,
    {
        proof {
            assert(s@.skip(a as int)[0] == s@[a as int]);
            assert(s@.skip(a as int).skip(1) =~= s@.skip(a + 1));
        }
        a = a + 1;
    }
    proof {
        if a < s@.len() {
            assert(s@.skip(a as int)[0] == s@[a as int]);
        }
        assert(lstrip_sp(s@) == s@.skip(a as int));
    }
    let mut b: usize = s.len();
    proof {
        assert(s@.subrange(a as int, b as int) =~= s@.skip(a as int));
    }
    while b > a && space(s[b - 1])
        invariant
            a <= b <= s@.len(),
            rstrip_sp(s@.skip(a as int)) == rstrip_sp(s@.subrange(a as int, b as int)),
        decreases b,
    {
        proof {
            assert(s@.subrange(a as int, b as int).last() == s@[b - 1]);
            assert(s@.subrange(a as int, b as int).drop_last() =~= s@.subrange(a as int, b - 1));
        }
        b = b - 1;
    }
    proof {
        if b > a {
            assert(s@.subrange(a as int, b as int).last() == s@[b - 1]);
        }
        assert(rstrip_sp(s@.subrange(a as int, b as int)) == s@.subrange(a as int, b as int));
    }
    crate::bytes::sub_bytes(s, a, b)
}

/// The position of the first newline of `s` at or after the start, or the
/// length when there is none.
pub open spec fn first_nl(s: Seq<u8>) -> int
    decreases s.len(),
{
    if s.len() == 0 {
        0
    } else if s[0] == NEWLINE {
        0
    } else {
        1 + first_nl(s.skip(1))
    }
}

pub proof fn lemma_first_nl_char(s: Seq<u8>)
    ensures
        0 <= first_nl(s) <= s.len(),
        forall|m: int| 0 <= m < first_nl(s) ==> s[m] != NEWLINE,
        first_nl(s) < s.len() ==> s[first_nl(s)] == NEWLINE,
    decreases s.len(),
{
    if s.len() == 0 {
    } else if s[0] == NEWLINE {
    } else {
        lemma_first_nl_char(s.skip(1));
        assert(forall|m: int| 0 <= m < s.skip(1).len() ==> s.skip(1)[m] == s[m + 1]);
        assert forall|m: int| 0 <= m < first_nl(s) implies s[m] != NEWLINE by {
            if m > 0 {
                assert(s.skip(1)[m - 1] == s[m]);
            }
        }
    }
}

/// A line with a trailing carriage return loses it.
pub open spec fn line_rstrip(s: Seq<u8>) -> Seq<u8> {
    if s.len() > 0 && s.last() == CARRIAGE {
        s.drop_last()
    } else {
        s
    }
}

/// The lines of `s`: split at each newline, a trailing carriage return
/// stripped from each line, and no final empty line after a final newline.
pub open spec fn split_lines(s: Seq<u8>) -> Seq<Seq<u8>>
    decreases s.len(),
{
    if s.len() == 0 {
        Seq::empty()
    } else {
        let k = first_nl(s);
        if 0 <= k < s.len() {
            seq![line_rstrip(s.take(k))] + split_lines(s.skip(k + 1))
        } else {
            seq![line_rstrip(s)]
        }
    }
}

/// Splits into lines, as `split_lines` says.
#[verifier::loop_isolation(false)]
pub fn lines_of(s: &[u8]) -> (r: Vec<Vec<u8>>)
    ensures
        r.deep_view() == split_lines(s@),
{
    let mut out: Vec<Vec<u8>> = Vec::new();
    let mut cur: usize = 0;
    proof {
        assert(s@.skip(0) =~= s@);
        assert(out.deep_view() =~= Seq::<Seq<u8>>::empty());
    }
    while cur < s.len()
        invariant
            cur <= s@.len(),
            split_lines(s@) == out.deep_view() + split_lines(s@.skip(cur as int)),
        decreases s@.len() - cur,
    {
        let ghost rest = s@.skip(cur as int);
        let mut p: usize = cur;
        while p < s.len() && s[p] != NEWLINE
            invariant
                cur <= p <= s@.len(),
                forall|m: int| cur <= m < p ==> s@[m] != NEWLINE,
            decreases s@.len() - p,
        {
            p = p + 1;
        }
        proof {
            lemma_first_nl_char(rest);
            assert(forall|m: int| 0 <= m < rest.len() ==> rest[m] == s@[cur + m]);
            if first_nl(rest) < p - cur {
                assert(s@[cur + first_nl(rest)] == rest[first_nl(rest)]);
                assert(false);
            }
            if first_nl(rest) > p - cur {
                assert(p < s@.len());
                assert(rest[p - cur] == s@[p as int]);
                assert(false);
            }
            assert(first_nl(rest) == p - cur);
        }
        let mut line_end = p;
        if p > cur && s[p - 1] == CARRIAGE {
            line_end = p - 1;
        }
        let line = crate::bytes::sub_bytes(s, cur, line_end);
        proof {
            if p < s@.len() {
                assert(rest.take(p - cur) =~= s@.subrange(cur as int, p as int));
            } else {
                assert(rest =~= s@.subrange(cur as int, p as int));
            }
            assert(line@ =~= line_rstrip(if first_nl(rest) == rest.len() {
                rest
            } else {
                rest.take(first_nl(rest))
            })) by {
                if line_end < p {
                    assert(s@.subrange(cur as int, p as int).last() == s@[p - 1]);
                    assert(s@.subrange(cur as int, p as int).drop_last() =~= s@.subrange(
                        cur as int,
                        p - 1,
                    ));
                }
            }
        }
        let ghost linev = line@;
        let ghost out0 = out.deep_view();
        out.push(line);
        proof {
            assert(out.deep_view() =~~= out0.push(linev));
        }
        if p < s.len() {
            proof {
                assert(split_lines(rest) == seq![linev] + split_lines(rest.skip(p - cur + 1)));
                assert(rest.skip(p - cur + 1) =~= s@.skip(p + 1));
                assert(out0.push(linev) + split_lines(s@.skip(p + 1)) =~= out0 + (seq![linev]
                    + split_lines(s@.skip(p + 1))));
            }
            cur = p + 1;
        } else {
            proof {
                assert(split_lines(rest) == seq![linev]);
                assert(out0.push(linev) + split_lines(s@.skip(s@.len() as int)) =~= out0 + seq![
                    linev,
                ]) by {
                    assert(s@.skip(s@.len() as int) =~= Seq::<u8>::empty());
                    assert(split_lines(s@.skip(s@.len() as int)) =~= Seq::<Seq<u8>>::empty());
                }
            }
            cur = s.len();
        }
    }
    proof {
        assert(s@.skip(cur as int) =~= Seq::<u8>::empty());
        assert(split_lines(s@) =~= out.deep_view() + Seq::<Seq<u8>>::empty());
        assert(out.deep_view() + Seq::<Seq<u8>>::empty() =~= out.deep_view());
    }
    out
}

/// Lines joined by a newline, in the given order.
pub open spec fn join_nl(ls: Seq<Seq<u8>>) -> Seq<u8>
    decreases ls.len(),
{
    if ls.len() == 0 {
        Seq::empty()
    } else if ls.len() == 1 {
        ls[0]
    } else {
        join_nl(ls.drop_last()) + seq![NEWLINE] + ls.last()
    }
}

/// Joins lines with newlines, as `join_nl` says.
#[verifier::loop_isolation(false)]
pub fn join_lines(ls: &Vec<Vec<u8>>, from: usize, to: usize) -> (r: Vec<u8>)
    requires
        from <= to <= ls@.len(),
    ensures
        r@ == join_nl(ls.deep_view().subrange(from as int, to as int)),
{
    let ghost lv = ls.deep_view().subrange(from as int, to as int);
    let mut out: Vec<u8> = Vec::new();
    let mut i: usize = from;
    proof {
        assert(lv.take(0) =~= Seq::<Seq<u8>>::empty());
        assert(out@ =~= join_nl(lv.take(0)));
    }
    while i < to
        invariant
            from <= i <= to,
            out@ == join_nl(lv.take(i - from)),
        decreases to - i,
    {
        if i > from {
            out.push(NEWLINE);
        }
        let mut k: usize = 0;
        let n = ls[i].len();
        while k < n
            invariant
                k <= n,
                n == ls@[i as int]@.len(),
                out@ == join_nl(lv.take(i - from)) + (if i > from {
                    seq![NEWLINE]
                } else {
                    Seq::<u8>::empty()
                }) + ls@[i as int]@.take(k as int),
            decreases n - k,
        {
            let b = ls[i][k];
            out.push(b);
            proof {
                assert(ls@[i as int]@.take(k + 1) =~= ls@[i as int]@.take(k as int).push(b));
                assert(out@ =~= join_nl(lv.take(i - from)) + (if i > from {
                    seq![NEWLINE]
                } else {
                    Seq::<u8>::empty()
                }) + ls@[i as int]@.take(k + 1));
            }
            k = k + 1;
        }
        proof {
            assert(ls@[i as int]@.take(n as int) =~= ls@[i as int]@);
            assert(lv[i - from] == ls.deep_view()[i as int]);
            assert(ls.deep_view()[i as int] == ls@[i as int].deep_view());
            assert(ls@[i as int].deep_view() =~= ls@[i as int]@);
            assert(lv.take(i - from + 1).drop_last() =~= lv.take(i - from));
            assert(lv.take(i - from + 1).last() == lv[i - from]);
            if i > from {
                assert(join_nl(lv.take(i - from + 1)) == join_nl(lv.take(i - from)) + seq![NEWLINE]
                    + lv[i - from]);
                assert(out@ =~= join_nl(lv.take(i - from + 1)));
            } else {
                assert(lv.take(1) =~= seq![lv[0]]);
                assert(join_nl(lv.take(1)) == lv[0]);
                assert(out@ =~= join_nl(lv.take(1)));
            }
        }
        i = i + 1;
    }
    proof {
        assert(lv.take(to - from) =~= lv);
    }
    out
}

/// The literal `lit` occurs in `s` at position `i`.
pub open spec fn has_at(s: Seq<u8>, i: int, lit: Seq<u8>) -> bool {
    0 <= i && i + lit.len() <= s.len() && s.subrange(i, i + lit.len()) == lit
}

/// Tests a literal at a position, as `has_at` says.
#[verifier::loop_isolation(false)]
pub fn match_at(s: &[u8], i: usize, lit: &[u8]) -> (r: bool)
    ensures
        r == has_at(s@, i as int, lit@),
{
    if i > s.len() || lit.len() > s.len() - i {
        assert(!has_at(s@, i as int, lit@));
        return false;
    }
    let mut k: usize = 0;
    while k < lit.len()
        invariant
            k <= lit@.len(),
            i + lit@.len() <= s@.len(),
            forall|m: int| 0 <= m < k ==> s@[i + m] == lit@[m],
        decreases lit@.len() - k,
    {
        if s[i + k] != lit[k] {
            assert(s@.subrange(i as int, i + lit@.len())[k as int] == s@[i + k]);
            return false;
        }
        k = k + 1;
    }
    assert(s@.subrange(i as int, i + lit@.len()) =~= lit@);
    true
}

/// The end of the run of decimal digits starting at `i`.
pub open spec fn scan_digits(s: Seq<u8>, i: int) -> int
    decreases s.len() - i,
{
    if i < 0 || i >= s.len() {
        i
    } else if is_digit(s[i]) {
        scan_digits(s, i + 1)
    } else {
        i
    }
}

/// The end of the run of whitespace starting at `i`.
pub open spec fn scan_spaces(s: Seq<u8>, i: int) -> int
    decreases s.len() - i,
{
    if i < 0 || i >= s.len() {
        i
    } else if is_space(s[i]) {
        scan_spaces(s, i + 1)
    } else {
        i
    }
}

/// The end of the run of hexadecimal digits starting at `i`.
pub open spec fn scan_hex(s: Seq<u8>, i: int) -> int
    decreases s.len() - i,
{
    if i < 0 || i >= s.len() {
        i
    } else if is_hex(s[i]) {
        scan_hex(s, i + 1)
    } else {
        i
    }
}

/// The end of the run of non-whitespace starting at `i`.
pub open spec fn scan_nonspace(s: Seq<u8>, i: int) -> int
    decreases s.len() - i,
{
    if i < 0 || i >= s.len() {
        i
    } else if !is_space(s[i]) {
        scan_nonspace(s, i + 1)
    } else {
        i
    }
}

/// Scans past decimal digits, as `scan_digits` says.
#[verifier::loop_isolation(false)]
pub fn scan_digits_at(s: &[u8], i: usize) -> (r: usize)
    requires
        i <= s@.len(),
    ensures
        r == scan_digits(s@, i as int),
        i <= r <= s@.len(),
{
    let mut p: usize = i;
    while p < s.len() && s[p] >= ZERO && s[p] <= NINE
        invariant
            i <= p <= s@.len(),
            scan_digits(s@, i as int) == scan_digits(s@, p as int),
        decreases s@.len() - p,
    {
        p = p + 1;
    }
    p
}

/// Scans past whitespace, as `scan_spaces` says.
#[verifier::loop_isolation(false)]
pub fn scan_spaces_at(s: &[u8], i: usize) -> (r: usize)
    requires
        i <= s@.len(),
    ensures
        r == scan_spaces(s@, i as int),
        i <= r <= s@.len(),
{
    let mut p: usize = i;
    while p < s.len() && space(s[p])
        invariant
            i <= p <= s@.len(),
            scan_spaces(s@, i as int) == scan_spaces(s@, p as int),
        decreases s@.len() - p,
    {
        p = p + 1;
    }
    p
}

/// Scans past hexadecimal digits, as `scan_hex` says.
#[verifier::loop_isolation(false)]
pub fn scan_hex_at(s: &[u8], i: usize) -> (r: usize)
    requires
        i <= s@.len(),
    ensures
        r == scan_hex(s@, i as int),
        i <= r <= s@.len(),
{
    let mut p: usize = i;
    while p < s.len() && (s[p] >= ZERO && s[p] <= NINE || s[p] >= 97 && s[p] <= 102 || s[p] >= 65
        && s[p] <= 70)
        invariant
            i <= p <= s@.len(),
            scan_hex(s@, i as int) == scan_hex(s@, p as int),
        decreases s@.len() - p,
    {
        p = p + 1;
    }
    p
}

/// Scans past non-whitespace, as `scan_nonspace` says.
#[verifier::loop_isolation(false)]
pub fn scan_nonspace_at(s: &[u8], i: usize) -> (r: usize)
    requires
        i <= s@.len(),
    ensures
        r == scan_nonspace(s@, i as int),
        i <= r <= s@.len(),
{
    let mut p: usize = i;
    while p < s.len() && !space(s[p])
        invariant
            i <= p <= s@.len(),
            scan_nonspace(s@, i as int) == scan_nonspace(s@, p as int),
        decreases s@.len() - p,
    {
        p = p + 1;
    }
    p
}

/// The line that opens an embedded VM-map region.
pub open spec fn begin_marker_bytes() -> Seq<u8> {
    seq![45u8, 45u8, 45u8, 45u8, 32u8, 66u8, 69u8, 71u8, 73u8, 78u8, 32u8, 86u8, 77u8, 32u8, 77u8, 65u8, 80u8, 32u8, 45u8, 45u8, 45u8, 45u8]
}

fn begin_marker() -> (r: Vec<u8>)
    ensures
        r@ == begin_marker_bytes(),
{
    let mut v: Vec<u8> = Vec::new();
    v.push(45);
    v.push(45);
    v.push(45);
    v.push(45);
    v.push(32);
    v.push(66);
    v.push(69);
    v.push(71);
    v.push(73);
    v.push(78);
    v.push(32);
    v.push(86);
    v.push(77);
    v.push(32);
    v.push(77);
    v.push(65);
    v.push(80);
    v.push(32);
    v.push(45);
    v.push(45);
    v.push(45);
    v.push(45);
    assert(v@ =~= begin_marker_bytes());
    v
}

/// The line that closes an embedded VM-map region.
pub open spec fn end_marker_bytes() -> Seq<u8> {
    seq![45u8, 45u8, 45u8, 45u8, 32u8, 69u8, 78u8, 68u8, 32u8, 86u8, 77u8, 32u8, 77u8, 65u8, 80u8, 32u8, 45u8, 45u8, 45u8, 45u8]
}

fn end_marker() -> (r: Vec<u8>)
    ensures
        r@ == end_marker_bytes(),
{
    let mut v: Vec<u8> = Vec::new();
    v.push(45);
    v.push(45);
    v.push(45);
    v.push(45);
    v.push(32);
    v.push(69);
    v.push(78);
    v.push(68);
    v.push(32);
    v.push(86);
    v.push(77);
    v.push(32);
    v.push(77);
    v.push(65);
    v.push(80);
    v.push(32);
    v.push(45);
    v.push(45);
    v.push(45);
    v.push(45);
    assert(v@ =~= end_marker_bytes());
    v
}

/// The opening of the inferred-trace line.
pub open spec fn gen_prefix_bytes() -> Seq<u8> {
    seq![71u8, 101u8, 110u8, 101u8, 114u8, 97u8, 116u8, 101u8, 100u8, 32u8]
}

fn gen_prefix() -> (r: Vec<u8>)
    ensures
        r@ == gen_prefix_bytes(),
{
    let mut v: Vec<u8> = Vec::new();
    v.push(71);
    v.push(101);
    v.push(110);
    v.push(101);
    v.push(114);
    v.push(97);
    v.push(116);
    v.push(101);
    v.push(100);
    v.push(32);
    assert(v@ =~= gen_prefix_bytes());
    v
}

/// The middle of the inferred-trace line.
pub open spec fn bytes_in_bytes() -> Seq<u8> {
    seq![32u8, 98u8, 121u8, 116u8, 101u8, 115u8, 32u8, 105u8, 110u8, 32u8]
}

fn bytes_in() -> (r: Vec<u8>)
    ensures
        r@ == bytes_in_bytes(),
{
    let mut v: Vec<u8> = Vec::new();
    v.push(32);
    v.push(98);
    v.push(121);
    v.push(116);
    v.push(101);
    v.push(115);
    v.push(32);
    v.push(105);
    v.push(110);
    v.push(32);
    assert(v@ =~= bytes_in_bytes());
    v
}

/// The opening of the byte range of the inferred-trace line.
pub open spec fn bracket_open_bytes() -> Seq<u8> {
    seq![32u8, 91u8]
}

fn bracket_open() -> (r: Vec<u8>)
    ensures
        r@ == bracket_open_bytes(),
{
    let mut v: Vec<u8> = Vec::new();
    v.push(32);
    v.push(91);
    assert(v@ =~= bracket_open_bytes());
    v
}

/// The closing of the inferred-trace line.
pub open spec fn range_close_bytes() -> Seq<u8> {
    seq![41u8, 46u8, 46u8, 46u8]
}

fn range_close() -> (r: Vec<u8>)
    ensures
        r@ == range_close_bytes(),
{
    let mut v: Vec<u8> = Vec::new();
    v.push(41);
    v.push(46);
    v.push(46);
    v.push(46);
    assert(v@ =~= range_close_bytes());
    v
}

/// The VM-map column of the inclusive start address.
pub open spec fn col_start_bytes() -> Seq<u8> {
    seq![83u8, 116u8, 97u8, 114u8, 116u8]
}

fn col_start() -> (r: Vec<u8>)
    ensures
        r@ == col_start_bytes(),
{
    let mut v: Vec<u8> = Vec::new();
    v.push(83);
    v.push(116);
    v.push(97);
    v.push(114);
    v.push(116);
    assert(v@ =~= col_start_bytes());
    v
}

/// The VM-map column of the exclusive end address.
pub open spec fn col_end_bytes() -> Seq<u8> {
    seq![69u8, 110u8, 100u8]
}

fn col_end() -> (r: Vec<u8>)
    ensures
        r@ == col_end_bytes(),
{
    let mut v: Vec<u8> = Vec::new();
    v.push(69);
    v.push(110);
    v.push(100);
    assert(v@ =~= col_end_bytes());
    v
}

/// The VM-map column of the permission string.
pub open spec fn col_permissions_bytes() -> Seq<u8> {
    seq![80u8, 101u8, 114u8, 109u8, 105u8, 115u8, 115u8, 105u8, 111u8, 110u8, 115u8]
}

fn col_permissions() -> (r: Vec<u8>)
    ensures
        r@ == col_permissions_bytes(),
{
    let mut v: Vec<u8> = Vec::new();
    v.push(80);
    v.push(101);
    v.push(114);
    v.push(109);
    v.push(105);
    v.push(115);
    v.push(115);
    v.push(105);
    v.push(111);
    v.push(110);
    v.push(115);
    assert(v@ =~= col_permissions_bytes());
    v
}

/// The VM-map column of the file offset.
pub open spec fn col_offset_bytes() -> Seq<u8> {
    seq![79u8, 102u8, 102u8, 115u8, 101u8, 116u8]
}

fn col_offset() -> (r: Vec<u8>)
    ensures
        r@ == col_offset_bytes(),
{
    let mut v: Vec<u8> = Vec::new();
    v.push(79);
    v.push(102);
    v.push(102);
    v.push(115);
    v.push(101);
    v.push(116);
    assert(v@ =~= col_offset_bytes());
    v
}

/// The VM-map column of the backing path.
pub open spec fn col_path_bytes() -> Seq<u8> {
    seq![80u8, 97u8, 116u8, 104u8]
}

fn col_path() -> (r: Vec<u8>)
    ensures
        r@ == col_path_bytes(),
{
    let mut v: Vec<u8> = Vec::new();
    v.push(80);
    v.push(97);
    v.push(116);
    v.push(104);
    assert(v@ =~= col_path_bytes());
    v
}

/// The header record and the data records a CSV input parses to, fields
/// as byte strings; `None` when the `csv` crate reports any read fault.
pub uninterp spec fn csv_table_of(data: Seq<u8>) -> Option<(Seq<Seq<u8>>, Seq<Seq<Seq<u8>>>)>;

/// Relies on `csv::Reader::from_reader`, `byte_headers` and
/// `byte_records`: the header and data records are a function of the input
/// bytes alone; any read fault (for instance a record of the wrong width)
/// yields `None`.
#[verifier::external_body]
fn csv_parse(data: &[u8]) -> (r: Option<(Vec<Vec<u8>>, Vec<Vec<Vec<u8>>>)>)
    ensures
        match r {
            Some(t) => csv_table_of(data@) == Some((t.0.deep_view(), t.1.deep_view())),
            None => csv_table_of(data@) is None,
        },
{
    let mut rdr = csv::Reader::from_reader(data);
    let headers: Vec<Vec<u8>> = rdr.byte_headers().ok()?.iter().map(|f| f.to_vec()).collect();
    let mut rows: Vec<Vec<Vec<u8>>> = Vec::new();
    for rec in rdr.byte_records() {
        rows.push(rec.ok()?.iter().map(|f| f.to_vec()).collect());
    }
    Some((headers, rows))
}

/// Why the textual VM map was rejected.
#[derive(Clone, Copy, Debug, PartialEq, Eq, Structural)]
pub enum ParseError {
    /// The CSV reader reported a fault.
    Csv,
    /// A required column is missing from the header.
    MissingColumn,
    /// A row is narrower than the columns require.
    MalformedRow,
    /// An address or offset field is not a 64-bit integer.
    BadInteger,
    /// A `BEGIN VM MAP` marker with no matching `END VM MAP`.
    UnterminatedVmMap,
}

/// The first column with the given name, if any.
pub open spec fn spec_col_index(headers: Seq<Seq<u8>>, name: Seq<u8>) -> Option<int>
    decreases headers.len(),
{
    if headers.len() == 0 {
        None
    } else if headers[0] == name {
        Some(0)
    } else {
        match spec_col_index(headers.skip(1), name) {
            None => None,
            Some(i) => Some(i + 1),
        }
    }
}

/// `Some(u + k)` when `o` is `Some(u)`.
pub open spec fn shift_index(o: Option<int>, k: int) -> Option<int> {
    match o {
        None => None,
        Some(u) => Some(u + k),
    }
}

/// Finds a column by name, as `spec_col_index` says.
#[verifier::loop_isolation(false)]
fn col_index(headers: &Vec<Vec<u8>>, name: &[u8]) -> (r: Option<usize>)
    ensures
        match r {
            Some(u) => spec_col_index(headers.deep_view(), name@) == Some(u as int),
            None => spec_col_index(headers.deep_view(), name@) is None,
        },
{
    let ghost hv = headers.deep_view();
    let mut i: usize = 0;
    proof {
        assert(hv.skip(0) =~= hv);
    }
    while i < headers.len()
        invariant
            i <= headers@.len(),
            spec_col_index(hv, name@) == shift_index(
                spec_col_index(hv.skip(i as int), name@),
                i as int,
            ),
        decreases headers@.len() - i,
    {
        proof {
            assert(hv[i as int] == headers@[i as int].deep_view());
            assert(hv.skip(i as int)[0] == hv[i as int]);
            assert(hv[i as int] =~= headers@[i as int]@);
        }
        if crate::bytes::bytes_eq(headers[i].as_slice(), name) {
            return Some(i);
        }
        proof {
            assert(hv.skip(i as int).skip(1) =~= hv.skip(i + 1));
        }
        i = i + 1;
    }
    proof {
        assert(hv.skip(i as int) =~= Seq::<Seq<u8>>::empty());
    }
    None
}

/// One CSV row read as a VM-map record: integer fields parsed, an empty or
/// absent path meaning anonymous memory.
pub open spec fn spec_row_record(
    row: Seq<Seq<u8>>,
    si: int,
    ei: int,
    pi: int,
    oi: int,
    pathi: Option<int>,
) -> Result<crate::mapping::VmMapRecordV, ParseError> {
    if !(0 <= si < row.len() && 0 <= ei < row.len() && 0 <= pi < row.len() && 0 <= oi < row.len()
        && (pathi matches Some(x) ==> 0 <= x < row.len())) {
        Err(ParseError::MalformedRow)
    } else {
        match (spec_parse_int(row[si]), spec_parse_int(row[ei]), spec_parse_int(row[oi])) {
            (Some(sv), Some(ev), Some(ov)) => {
                if sv > u64::MAX || ev > u64::MAX || ov > u64::MAX {
                    Err(ParseError::BadInteger)
                } else {
                    Ok(
                        crate::mapping::VmMapRecordV {
                            start: sv as u64,
                            end: ev as u64,
                            perms: row[pi],
                            offset: ov as u64,
                            path: match pathi {
                                None => None,
                                Some(x) => if row[x].len() == 0 {
                                    None
                                } else {
                                    Some(row[x])
                                },
                            },
                        },
                    )
                }
            },
            _ => Err(ParseError::BadInteger),
        }
    }
}

/// Every row read in order; the first faulty row decides the error.
pub open spec fn spec_rows_records(
    rows: Seq<Seq<Seq<u8>>>,
    si: int,
    ei: int,
    pi: int,
    oi: int,
    pathi: Option<int>,
) -> Result<Seq<crate::mapping::VmMapRecordV>, ParseError>
    decreases rows.len(),
{
    if rows.len() == 0 {
        Ok(Seq::empty())
    } else {
        match spec_rows_records(rows.drop_last(), si, ei, pi, oi, pathi) {
            Err(e) => Err(e),
            Ok(rs) => match spec_row_record(rows.last(), si, ei, pi, oi, pathi) {
                Err(e) => Err(e),
                Ok(r) => Ok(rs.push(r)),
            },
        }
    }
}

pub proof fn lemma_rows_records_err(
    rows: Seq<Seq<Seq<u8>>>,
    si: int,
    ei: int,
    pi: int,
    oi: int,
    pathi: Option<int>,
    k: int,
)
    requires
        0 <= k <= rows.len(),
        spec_rows_records(rows.take(k), si, ei, pi, oi, pathi) is Err,
    ensures
        spec_rows_records(rows, si, ei, pi, oi, pathi) == spec_rows_records(
            rows.take(k),
            si,
            ei,
            pi,
            oi,
            pathi,
        ),
    decreases rows.len() - k,
{
    if k < rows.len() {
        assert(rows.take(k + 1).drop_last() =~= rows.take(k));
        lemma_rows_records_err(rows, si, ei, pi, oi, pathi, k + 1);
    } else {
        assert(rows.take(k) =~= rows);
    }
}

/// The records of a parsed CSV table: the four required columns located by
/// name, the optional path column honoured when present.
pub open spec fn spec_table_records(headers: Seq<Seq<u8>>, rows: Seq<Seq<Seq<u8>>>) -> Result<
    Seq<crate::mapping::VmMapRecordV>,
    ParseError,
> {
    match (
        spec_col_index(headers, col_start_bytes()),
        spec_col_index(headers, col_end_bytes()),
        spec_col_index(headers, col_permissions_bytes()),
        spec_col_index(headers, col_offset_bytes()),
    ) {
        (Some(si), Some(ei), Some(pi), Some(oi)) => spec_rows_records(
            rows,
            si,
            ei,
            pi,
            oi,
            spec_col_index(headers, col_path_bytes()),
        ),
        _ => Err(ParseError::MissingColumn),
    }
}

/// The VM-map records a CSV input holds.
pub open spec fn spec_vm_records(data: Seq<u8>) -> Result<
    Seq<crate::mapping::VmMapRecordV>,
    ParseError,
> {
    match csv_table_of(data) {
        None => Err(ParseError::Csv),
        Some(t) => spec_table_records(t.0, t.1),
    }
}

/// Reads the VM-map records out of CSV text, as `spec_vm_records` says.
#[verifier::loop_isolation(false)]
pub fn parse_vm_map_records(data: &[u8]) -> (r: Result<
    Vec<crate::mapping::VmMapRecord>,
    ParseError,
>)
    ensures
        match r {
            Ok(recs) => spec_vm_records(data@) == Ok::<
                Seq<crate::mapping::VmMapRecordV>,
                ParseError,
            >(recs.deep_view()),
            Err(e) => spec_vm_records(data@) == Err::<
                Seq<crate::mapping::VmMapRecordV>,
                ParseError,
            >(e),
        },
{
    let (headers, rows) = match csv_parse(data) {
        Some(t) => t,
        None => {
            return Err(ParseError::Csv);
        },
    };
    let ghost hv = headers.deep_view();
    let ghost rv = rows.deep_view();
    let start_name = col_start();
    let end_name = col_end();
    let perms_name = col_permissions();
    let offset_name = col_offset();
    let path_name = col_path();
    let si = col_index(&headers, start_name.as_slice());
    let ei = col_index(&headers, end_name.as_slice());
    let pi = col_index(&headers, perms_name.as_slice());
    let oi = col_index(&headers, offset_name.as_slice());
    let pathi = col_index(&headers, path_name.as_slice());
    let (si, ei, pi, oi) = match (si, ei, pi, oi) {
        (Some(a), Some(b), Some(c), Some(d)) => (a, b, c, d),
        _ => {
            return Err(ParseError::MissingColumn);
        },
    };
    let ghost pathiv: Option<int> = spec_col_index(hv, col_path_bytes());
    let mut out: Vec<crate::mapping::VmMapRecord> = Vec::new();
    proof {
        assert(rv.take(0) =~= Seq::<Seq<Seq<u8>>>::empty());
        assert(out.deep_view() =~= Seq::<crate::mapping::VmMapRecordV>::empty());
    }
    let n = rows.len();
    let mut i: usize = 0;
    while i < n
        invariant
            i <= n,
            spec_rows_records(rv.take(i as int), si as int, ei as int, pi as int, oi as int, pathiv)
                == Ok::<Seq<crate::mapping::VmMapRecordV>, ParseError>(out.deep_view()),
        decreases n - i,
    {
        let row = &rows[i];
        proof {
            assert(rv[i as int] == rows@[i as int].deep_view());
            assert(rv.take(i + 1).drop_last() =~= rv.take(i as int));
            assert(rv.take(i + 1).last() == rv[i as int]);
        }
        let wide_enough = si < row.len() && ei < row.len() && pi < row.len() && oi < row.len()
            && (match pathi {
            Some(x) => x < row.len(),
            None => true,
        });
        if !wide_enough {
            proof {
                lemma_rows_records_err(rv, si as int, ei as int, pi as int, oi as int, pathiv, i + 1);
            }
            return Err(ParseError::MalformedRow);
        }
        proof {
            assert(rv[i as int][si as int] =~= row@[si as int]@);
            assert(rv[i as int][ei as int] =~= row@[ei as int]@);
            assert(rv[i as int][oi as int] =~= row@[oi as int]@);
            assert(rv[i as int][pi as int] =~= row@[pi as int]@);
            if pathiv is Some {
                assert(rv[i as int][pathiv->Some_0] =~= row@[pathiv->Some_0]@);
            }
        }
        let sv = parse_u64_int(row[si].as_slice());
        let ev = parse_u64_int(row[ei].as_slice());
        let ov = parse_u64_int(row[oi].as_slice());
        let (sv, ev, ov) = match (sv, ev, ov) {
            (Some(a), Some(b), Some(c)) => (a, b, c),
            _ => {
                proof {
                    lemma_rows_records_err(
                        rv,
                        si as int,
                        ei as int,
                        pi as int,
                        oi as int,
                        pathiv,
                        i + 1,
                    );
                }
                return Err(ParseError::BadInteger);
            },
        };
        let path: Option<Vec<u8>> = match pathi {
            None => None,
            Some(x) => {
                if row[x].len() == 0 {
                    None
                } else {
                    Some(vstd::slice::slice_to_vec(row[x].as_slice()))
                }
            },
        };
        let rec = crate::mapping::VmMapRecord {
            start: sv,
            end: ev,
            perms: vstd::slice::slice_to_vec(row[pi].as_slice()),
            offset: ov,
            path,
        };
        let ghost out0 = out.deep_view();
        let ghost recv = rec.deep_view();
        out.push(rec);
        proof {
            assert(out.deep_view() =~= out0.push(recv));
            assert(recv == spec_row_record(
                rv[i as int],
                si as int,
                ei as int,
                pi as int,
                oi as int,
                pathiv,
            )->Ok_0);
        }
        i = i + 1;
    }
    proof {
        assert(rv.take(n as int) =~= rv);
    }
    Ok(out)
}

/// The trace file and byte range inferred from the VM-map log.
#[derive(Clone, Debug)]
pub struct InferredTarmac {
    pub start: u64,
    pub end: u64,
    pub file: Vec<u8>,
}

/// The mathematical value of an `InferredTarmac`.
pub struct InferredTarmacV {
    pub start: u64,
    pub end: u64,
    pub file: Seq<u8>,
}

impl DeepView for InferredTarmac {
    type V = InferredTarmacV;

    open spec fn deep_view(&self) -> InferredTarmacV {
        InferredTarmacV { start: self.start, end: self.end, file: self.file@ }
    }
}

/// The byte range read at split position `k` of an inferred-trace line:
/// ` [`, a decimal start, `,`, a decimal end, and `)...` closing the line.
pub open spec fn spec_tail_range(line: Seq<u8>, k: int) -> Option<(int, int)> {
    if !has_at(line, k, bracket_open_bytes()) {
        None
    } else {
        let i = k + 2;
        let j = scan_digits(line, i);
        if j <= i {
            None
        } else if !(j < line.len() && line[j] == 44) {
            None
        } else {
            let j2 = scan_digits(line, j + 1);
            if j2 <= j + 1 {
                None
            } else if !(has_at(line, j2, range_close_bytes()) && j2 + 4 == line.len()) {
                None
            } else {
                let d1 = dec_val(line.subrange(i, j));
                let d2 = dec_val(line.subrange(j + 1, j2));
                if d1 <= u64::MAX && d2 <= u64::MAX {
                    Some((d1, d2))
                } else {
                    None
                }
            }
        }
    }
}

/// The rightmost split position at or before `k` whose tail parses: the
/// path of the inferred-trace line is read greedily.
pub open spec fn spec_best_split(line: Seq<u8>, fmin: int, k: int) -> Option<int>
    decreases k - fmin + 1,
{
    if k < fmin {
        None
    } else if spec_tail_range(line, k) is Some {
        Some(k)
    } else {
        spec_best_split(line, fmin, k - 1)
    }
}

/// What an inferred-trace line carries: `Generated <N> bytes in <path>
/// [<start>,<end>)...`, the path read greedily, or nothing.
pub open spec fn spec_generated(line: Seq<u8>) -> Option<InferredTarmacV> {
    if !has_at(line, 0, gen_prefix_bytes()) {
        None
    } else {
        let i1 = scan_digits(line, 10);
        if i1 <= 10 {
            None
        } else if !has_at(line, i1, bytes_in_bytes()) {
            None
        } else {
            let f0 = i1 + 10;
            match spec_best_split(line, f0, line.len() as int) {
                None => None,
                Some(k) => {
                    let d = spec_tail_range(line, k)->Some_0;
                    Some(
                        InferredTarmacV {
                            start: d.0 as u64,
                            end: d.1 as u64,
                            file: line.subrange(f0, k),
                        },
                    )
                },
            }
        }
    }
}

/// Reads the byte range at one split position, as `spec_tail_range` says.
#[verifier::loop_isolation(false)]
fn tail_range(line: &[u8], k: usize) -> (r: Option<(u64, u64)>)
    ensures
        match r {
            Some(d) => spec_tail_range(line@, k as int) == Some((d.0 as int, d.1 as int)),
            None => spec_tail_range(line@, k as int) is None,
        },
{
    let nl = line.len();
    let open_lit = bracket_open();
    if !match_at(line, k, open_lit.as_slice()) {
        return None;
    }
    let i = k + 2;
    let j = scan_digits_at(line, i);
    if j <= i {
        return None;
    }
    if !(j < line.len() && line[j] == 44) {
        return None;
    }
    let j2 = scan_digits_at(line, j + 1);
    if j2 <= j + 1 {
        return None;
    }
    let close_lit = range_close();
    if !(match_at(line, j2, close_lit.as_slice()) && j2 + 4 == line.len()) {
        return None;
    }
    let d1s = crate::bytes::sub_bytes(line, i, j);
    let d2s = crate::bytes::sub_bytes(line, j + 1, j2);
    proof {
        assert(forall|m: int| i <= m < j ==> is_digit(#[trigger] line@[m])) by {
            lemma_scan_digits_char(line@, i as int);
        }
        assert(forall|m: int| j + 1 <= m < j2 ==> is_digit(#[trigger] line@[m])) by {
            lemma_scan_digits_char(line@, j + 1);
        }
        assert(all_digits(d1s@));
        assert(all_digits(d2s@));
    }
    let d1 = match parse_u64_dec(d1s.as_slice()) {
        Some(v) => v,
        None => {
            return None;
        },
    };
    let d2 = match parse_u64_dec(d2s.as_slice()) {
        Some(v) => v,
        None => {
            return None;
        },
    };
    Some((d1, d2))
}

pub proof fn lemma_scan_digits_char(s: Seq<u8>, i: int)
    requires
        0 <= i <= s.len(),
    ensures
        forall|m: int| i <= m < scan_digits(s, i) ==> is_digit(#[trigger] s[m]),
        scan_digits(s, i) <= s.len(),
        scan_digits(s, i) < s.len() ==> !is_digit(s[scan_digits(s, i)]),
        i <= scan_digits(s, i),
    decreases s.len() - i,
{
    if i < s.len() && is_digit(s[i]) {
        lemma_scan_digits_char(s, i + 1);
    }
}

/// Reads an inferred-trace line, as `spec_generated` says.
#[verifier::loop_isolation(false)]
fn generated_line(line: &[u8]) -> (r: Option<InferredTarmac>)
    ensures
        match r {
            Some(t) => spec_generated(line@) == Some(t.deep_view()),
            None => spec_generated(line@) is None,
        },
{
    let nl = line.len();
    let gen_lit = gen_prefix();
    if !match_at(line, 0, gen_lit.as_slice()) {
        return None;
    }
    let i1 = scan_digits_at(line, 10);
    if i1 <= 10 {
        return None;
    }
    let in_lit = bytes_in();
    if !match_at(line, i1, in_lit.as_slice()) {
        return None;
    }
    let f0 = i1 + 10;
    let mut k: usize = line.len();
    let mut found = tail_range(line, k).is_some();
    while !found && k > f0
        invariant
            f0 <= k <= line@.len(),
            found == (spec_tail_range(line@, k as int) is Some),
            spec_best_split(line@, f0 as int, line@.len() as int) == spec_best_split(
                line@,
                f0 as int,
                k as int,
            ),
        decreases k,
    {
        k = k - 1;
        found = tail_range(line, k).is_some();
    }
    proof {
        if found {
            assert(spec_best_split(line@, f0 as int, k as int) == Some(k as int));
        } else {
            assert(k == f0);
            assert(spec_best_split(line@, f0 as int, f0 - 1) is None);
            assert(spec_best_split(line@, f0 as int, k as int) is None);
        }
    }
    match tail_range(line, k) {
        None => None,
        Some(d) => {
            let file = crate::bytes::sub_bytes(line, f0, k);
            proof {
                assert(f0 <= k <= line@.len()) by {
                    if k > line@.len() {
                        assert(spec_tail_range(line@, k as int) is None);
                    }
                }
            }
            Some(InferredTarmac { start: d.0, end: d.1, file })
        },
    }
}

/// The first line at or after `from` whose trimmed text is `marker`.
pub open spec fn spec_find_marker(lines: Seq<Seq<u8>>, from: int, marker: Seq<u8>) -> Option<int>
    decreases lines.len() - from,
{
    if from < 0 || from >= lines.len() {
        None
    } else if trim_sp(lines[from]) == marker {
        Some(from)
    } else {
        spec_find_marker(lines, from + 1, marker)
    }
}

/// Finds a marker line, as `spec_find_marker` says.
#[verifier::loop_isolation(false)]
fn find_marker(lines: &Vec<Vec<u8>>, from: usize, marker: &[u8]) -> (r: Option<usize>)
    ensures
        match r {
            Some(u) => spec_find_marker(lines.deep_view(), from as int, marker@) == Some(u as int),
            None => spec_find_marker(lines.deep_view(), from as int, marker@) is None,
        },
{
    let ghost lv = lines.deep_view();
    let mut i: usize = from;
    while i < lines.len()
        invariant
            from <= i,
            spec_find_marker(lv, from as int, marker@) == spec_find_marker(lv, i as int, marker@),
        decreases lines@.len() - i,
    {
        proof {
            assert(lv[i as int] == lines@[i as int].deep_view());
            assert(lv[i as int] =~= lines@[i as int]@);
        }
        let trimmed = trim(lines[i].as_slice());
        if crate::bytes::bytes_eq(trimmed.as_slice(), marker) {
            return Some(i);
        }
        i = i + 1;
    }
    None
}

/// The first inferred-trace line at or after `from`.
pub open spec fn spec_find_generated(lines: Seq<Seq<u8>>, from: int) -> Option<InferredTarmacV>
    decreases lines.len() - from,
{
    if from < 0 || from >= lines.len() {
        None
    } else {
        match spec_generated(lines[from]) {
            Some(t) => Some(t),
            None => spec_find_generated(lines, from + 1),
        }
    }
}

/// Finds the first inferred-trace line, as `spec_find_generated` says.
#[verifier::loop_isolation(false)]
fn find_generated(lines: &Vec<Vec<u8>>, from: usize) -> (r: Option<InferredTarmac>)
    ensures
        match r {
            Some(t) => spec_find_generated(lines.deep_view(), from as int) == Some(t.deep_view()),
            None => spec_find_generated(lines.deep_view(), from as int) is None,
        },
{
    let ghost lv = lines.deep_view();
    let mut i: usize = from;
    while i < lines.len()
        invariant
            from <= i,
            spec_find_generated(lv, from as int) == spec_find_generated(lv, i as int),
        decreases lines@.len() - i,
    {
        proof {
            assert(lv[i as int] == lines@[i as int].deep_view());
            assert(lv[i as int] =~= lines@[i as int]@);
        }
        match generated_line(lines[i].as_slice()) {
            Some(t) => {
                return Some(t);
            },
            None => {},
        }
        i = i + 1;
    }
    None
}

/// Why a VM map could not be read from its textual form.
#[derive(Clone, Copy, Debug, PartialEq, Eq, Structural)]
pub enum VmMapTextError {
    /// The text could not be parsed into records.
    Parse(ParseError),
    /// The records could not be built into a map.
    Construct(crate::vmmap::VmMapError),
}

/// The mappings a CSV input constructs, against the local-ELF index.
pub open spec fn spec_from_csv(
    data: Seq<u8>,
    entries: Seq<crate::vmmap::ElfCacheEntryV>,
) -> Result<Seq<crate::mapping::VmMappingV>, VmMapTextError> {
    match spec_vm_records(data) {
        Err(pe) => Err(VmMapTextError::Parse(pe)),
        Ok(recs) => match crate::vmmap::spec_construct(recs, entries) {
            Err(e) => Err(VmMapTextError::Construct(e)),
            Ok(ms) => Ok(ms),
        },
    }
}

/// What a whole VM-map log yields: the mappings of its CSV body (the
/// region between the `BEGIN`/`END` markers when present, else the whole
/// text), and the trace file and byte range inferred from any trailing
/// `Generated` line after the region.
pub open spec fn spec_from_stdout(
    text: Seq<u8>,
    entries: Seq<crate::vmmap::ElfCacheEntryV>,
) -> Result<(Seq<crate::mapping::VmMappingV>, Option<InferredTarmacV>), VmMapTextError> {
    let lines = split_lines(text);
    match spec_find_marker(lines, 0, begin_marker_bytes()) {
        None => match spec_from_csv(text, entries) {
            Err(e) => Err(e),
            Ok(ms) => Ok((ms, None)),
        },
        Some(b) => match spec_find_marker(lines, b + 1, end_marker_bytes()) {
            None => Err(VmMapTextError::Parse(ParseError::UnterminatedVmMap)),
            Some(e) => {
                let body = join_nl(lines.subrange(b + 1, e));
                match spec_from_csv(body, entries) {
                    Err(er) => Err(er),
                    Ok(ms) => Ok((ms, spec_find_generated(lines, e + 1))),
                }
            },
        },
    }
}

impl crate::vmmap::VmMap {
    /// Builds the whole VM map from CSV text and the local-ELF index, as
    /// `spec_from_csv` says. The result is sorted and non-overlapping.
    pub fn from_csv(source: &[u8], elfs: &Vec<crate::vmmap::ElfCacheEntry>) -> (r: Result<
        crate::vmmap::VmMap,
        VmMapTextError,
    >)
        ensures
            match r {
                Ok(m) => spec_from_csv(source@, elfs.deep_view()) == Ok::<
                    Seq<crate::mapping::VmMappingV>,
                    VmMapTextError,
                >(m.mappings.deep_view()) && m.wf(),
                Err(e) => spec_from_csv(source@, elfs.deep_view()) == Err::<
                    Seq<crate::mapping::VmMappingV>,
                    VmMapTextError,
                >(e),
            },
    {
        let records = match parse_vm_map_records(source) {
            Ok(recs) => recs,
            Err(pe) => {
                return Err(VmMapTextError::Parse(pe));
            },
        };
        match crate::vmmap::VmMap::construct(&records, elfs) {
            Ok(m) => Ok(m),
            Err(e) => Err(VmMapTextError::Construct(e)),
        }
    }

    /// Builds the VM map from a whole log's text, as `spec_from_stdout`
    /// says: the CSV body may be embedded between marker lines, and a
    /// trailing `Generated` line supplies an inferred trace file and byte
    /// range.
    pub fn from_stdout(text: &[u8], elfs: &Vec<crate::vmmap::ElfCacheEntry>) -> (r: Result<
        (crate::vmmap::VmMap, Option<InferredTarmac>),
        VmMapTextError,
    >)
        ensures
            match r {
                Ok(p) => {
                    &&& spec_from_stdout(text@, elfs.deep_view()) matches Ok(sp)
                    &&& sp.0 == p.0.mappings.deep_view()
                    &&& sp.1 == (match p.1 {
                        Some(ref t) => Some(t.deep_view()),
                        None => None::<InferredTarmacV>,
                    })
                    &&& p.0.wf()
                },
                Err(e) => spec_from_stdout(text@, elfs.deep_view()) == Err::<
                    (Seq<crate::mapping::VmMappingV>, Option<InferredTarmacV>),
                    VmMapTextError,
                >(e),
            },
    {
        let lines = lines_of(text);
        let begin_lit = begin_marker();
        let end_lit = end_marker();
        let b = match find_marker(&lines, 0, begin_lit.as_slice()) {
            None => {
                let m = match crate::vmmap::VmMap::from_csv(text, elfs) {
                    Ok(m) => m,
                    Err(e) => {
                        return Err(e);
                    },
                };
                return Ok((m, None));
            },
            Some(b) => b,
        };
        let nlines = lines.len();
        proof {
            lemma_find_marker_bounds(lines.deep_view(), 0, begin_marker_bytes());
        }
        let e = match find_marker(&lines, b + 1, end_lit.as_slice()) {
            None => {
                return Err(VmMapTextError::Parse(ParseError::UnterminatedVmMap));
            },
            Some(e) => e,
        };
        proof {
            lemma_find_marker_bounds(lines.deep_view(), b + 1, end_marker_bytes());
        }
        let body = join_lines(&lines, b + 1, e);
        let m = match crate::vmmap::VmMap::from_csv(body.as_slice(), elfs) {
            Ok(m) => m,
            Err(er) => {
                return Err(er);
            },
        };
        let inferred = find_generated(&lines, e + 1);
        proof {
            assert(match inferred {
                Some(ref t) => spec_find_generated(lines.deep_view(), e + 1) == Some(t.deep_view()),
                None => spec_find_generated(lines.deep_view(), e + 1) is None,
            });
        }
        Ok((m, inferred))
    }
}

pub proof fn lemma_find_marker_bounds(lines: Seq<Seq<u8>>, from: int, marker: Seq<u8>)
    ensures
        spec_find_marker(lines, from, marker) matches Some(u) ==> from <= u < lines.len(),
    decreases lines.len() - from,
{
    if from < 0 || from >= lines.len() {
    } else if trim_sp(lines[from]) == marker {
    } else {
        lemma_find_marker_bounds(lines, from + 1, marker);
    }
}

} // verus!
