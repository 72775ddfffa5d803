//! Inclusive virtual-address ranges and their ordering.

use vstd::prelude::*;
use core::cmp::Ordering;

verus! {

/// An inclusive `[start, end]` range of 64-bit virtual addresses.
#[derive(Clone, Copy, Debug, PartialEq, Eq, Structural)]
pub struct VaRange {
    pub start: u64,
    pub end: u64,
}

impl VaRange {
    /// A range is well formed when it is non-empty.
    pub open spec fn wf(self) -> bool {
        self.start <= self.end
    }

    pub open spec fn spec_contains(self, va: u64) -> bool {
        self.start <= va <= self.end
    }

    pub open spec fn spec_overlaps(self, other: VaRange) -> bool {
        self.start <= other.end && other.start <= self.end
    }

    pub fn contains(&self, va: u64) -> (r: bool)
        ensures
            r == self.spec_contains(va),
    {
        self.start <= va && va <= self.end
    }
}

pub open spec fn hex_digit_char(d: int) -> char {
    if d == 0 { '0' }
    else if d == 1 { '1' }
    else if d == 2 { '2' }
    else if d == 3 { '3' }
    else if d == 4 { '4' }
    else if d == 5 { '5' }
    else if d == 6 { '6' }
    else if d == 7 { '7' }
    else if d == 8 { '8' }
    else if d == 9 { '9' }
    else if d == 10 { 'a' }
    else if d == 11 { 'b' }
    else if d == 12 { 'c' }
    else if d == 13 { 'd' }
    else if d == 14 { 'e' }
    else { 'f' }
}

/// The lower-case hexadecimal digits of `v`, most significant first,
/// without leading zeroes (a single `'0'` for zero).
pub open spec fn hex_chars(v: nat) -> Seq<char>
    decreases v,
{
    if v < 16 {
        seq![hex_digit_char(v as int)]
    } else {
        hex_chars(v / 16).push(hex_digit_char((v % 16) as int))
    }
}

fn hex_digit_str(d: u128) -> (r: &'static str)
    requires
        d < 16,
    ensures
        r@ == seq![hex_digit_char(d as int)],
{
    proof {
        reveal_strlit("0");
        reveal_strlit("1");
        reveal_strlit("2");
        reveal_strlit("3");
        reveal_strlit("4");
        reveal_strlit("5");
        reveal_strlit("6");
        reveal_strlit("7");
        reveal_strlit("8");
        reveal_strlit("9");
        reveal_strlit("a");
        reveal_strlit("b");
        reveal_strlit("c");
        reveal_strlit("d");
        reveal_strlit("e");
        reveal_strlit("f");
    }
    match d {
        0 => "0",
        1 => "1",
        2 => "2",
        3 => "3",
        4 => "4",
        5 => "5",
        6 => "6",
        7 => "7",
        8 => "8",
        9 => "9",
        10 => "a",
        11 => "b",
        12 => "c",
        13 => "d",
        14 => "e",
        _ => "f",
    }
}

/// The hexadecimal rendering of `v`, without a `0x` prefix.
pub fn hex_string(v: u128) -> (r: String)
    ensures
        r@ == hex_chars(v as nat),
    decreases v,
{
    if v < 16 {
        String::from_str(hex_digit_str(v))
    } else {
        let mut s = hex_string(v / 16);
        s.append(hex_digit_str(v % 16));
        s
    }
}

/// The rendering of an inclusive range as a half-open interval,
/// `[0x<start>,0x<end + 1>)`.
pub open spec fn range_display_chars(start: u64, end: u64) -> Seq<char> {
    seq!['[', '0', 'x'] + hex_chars(start as nat) + seq![',', '0', 'x']
        + hex_chars(end as nat + 1) + seq![')']
}

/// An inclusive address range: how it renders and when it overlaps another.
pub trait AddrRange {
    spec fn start_val(&self) -> u64;

    spec fn end_val(&self) -> u64;

    fn display(&self) -> (r: String)
        ensures
            r@ == range_display_chars(self.start_val(), self.end_val()),
    ;

    fn overlaps(&self, other: &Self) -> (r: bool)
        ensures
            r == (self.start_val() <= other.end_val() && other.start_val() <= self.end_val()),
    ;
}

impl AddrRange for VaRange {
    open spec fn start_val(&self) -> u64 {
        self.start
    }

    open spec fn end_val(&self) -> u64 {
        self.end
    }

    fn display(&self) -> (r: String)
        ensures
            r@ == range_display_chars(self.start, self.end),
    {
        proof {
            reveal_strlit("[0x");
            reveal_strlit(",0x");
            reveal_strlit(")");
        }
        let mut s = String::from_str("[0x");
        let start_hex = hex_string(self.start as u128);
        s.append(start_hex.as_str());
        s.append(",0x");
        let end_hex = hex_string(self.end as u128 + 1);
        s.append(end_hex.as_str());
        s.append(")");
        assert(s@ =~= range_display_chars(self.start, self.end));
        s
    }

    fn overlaps(&self, other: &Self) -> (r: bool)
        ensures
            r == self.spec_overlaps(*other),
    {
        self.start <= other.end && other.start <= self.end
    }
}

/// Ranges are ordered when they are equal or non-overlapping.
pub open spec fn spec_cmp_mappings(a: VaRange, b: VaRange) -> Option<Ordering> {
    if a == b {
        Some(Ordering::Equal)
    } else if a.spec_overlaps(b) {
        None
    } else if a.start < b.start {
        Some(Ordering::Less)
    } else if a.start == b.start {
        Some(Ordering::Equal)
    } else {
        Some(Ordering::Greater)
    }
}

/// Compares two ranges: equal ranges are `Equal`, overlapping but unequal
/// ranges are unordered, and disjoint ranges are ordered by start address.
pub fn cmp_mappings(a: &VaRange, b: &VaRange) -> (r: Option<Ordering>)
    ensures
        r == spec_cmp_mappings(*a, *b),
{
    if a.start == b.start && a.end == b.end {
        Some(Ordering::Equal)
    } else if a.start <= b.end && b.start <= a.end {
        None
    } else if a.start < b.start {
        Some(Ordering::Less)
    } else if a.start == b.start {
        Some(Ordering::Equal)
    } else {
        Some(Ordering::Greater)
    }
}

pub open spec fn spec_cmp_mappings_with_eq_check(a: VaRange, b: VaRange, eq: bool) -> Option<
    Ordering,
> {
    if spec_cmp_mappings(a, b) == Some(Ordering::Equal) {
        if eq {
            Some(Ordering::Equal)
        } else {
            None
        }
    } else {
        spec_cmp_mappings(a, b)
    }
}

/// As `cmp_mappings`, but ranges that compare equal are only `Equal` when the
/// caller's own equality check `eq` holds of the values the ranges belong to.
pub fn cmp_mappings_with_eq_check(a: &VaRange, b: &VaRange, eq: bool) -> (r: Option<Ordering>)
    ensures
        r == spec_cmp_mappings_with_eq_check(*a, *b, eq),
{
    match cmp_mappings(a, b) {
        Some(Ordering::Equal) => if eq {
            Some(Ordering::Equal)
        } else {
            None
        },
        ord => ord,
    }
}

} // verus!
