//! Address resolution: from a virtual address to the mapping, section and
//! symbol containing it, by binary search at each tier.

use vstd::prelude::*;
use crate::mapping::{
    VmMapping, VmMappingV, VmSectionMapping, VmSectionMappingV, VmSymbolMapping, VmSymbolMappingV,
    secs_sorted, syms_ordered,
};
use crate::vmmap::{VmMap, mappings_wf};

verus! {

/// The first mapping whose range contains `va`, by position.
pub open spec fn spec_find_mapping(ms: Seq<VmMappingV>, va: u64) -> Option<int>
    decreases ms.len(),
{
    if ms.len() == 0 {
        None
    } else if ms[0].va.spec_contains(va) {
        Some(0)
    } else {
        match spec_find_mapping(ms.skip(1), va) {
            None => None,
            Some(i) => Some(i + 1),
        }
    }
}

/// The first section whose range contains `va`, by position.
pub open spec fn spec_find_section(ss: Seq<VmSectionMappingV>, va: u64) -> Option<int>
    decreases ss.len(),
{
    if ss.len() == 0 {
        None
    } else if ss[0].va.spec_contains(va) {
        Some(0)
    } else {
        match spec_find_section(ss.skip(1), va) {
            None => None,
            Some(i) => Some(i + 1),
        }
    }
}

/// The first symbol whose range contains `va`, by position.
pub open spec fn spec_find_symbol(ss: Seq<VmSymbolMappingV>, va: u64) -> Option<int>
    decreases ss.len(),
{
    if ss.len() == 0 {
        None
    } else if ss[0].va.spec_contains(va) {
        Some(0)
    } else {
        match spec_find_symbol(ss.skip(1), va) {
            None => None,
            Some(i) => Some(i + 1),
        }
    }
}

pub proof fn lemma_find_mapping_char(ms: Seq<VmMappingV>, va: u64)
    ensures
        match spec_find_mapping(ms, va) {
            Some(i) => 0 <= i < ms.len() && ms[i].va.spec_contains(va),
            None => forall|j: int|
                0 <= j < ms.len() ==> !(#[trigger] ms[j]).va.spec_contains(va),
        },
    decreases ms.len(),
{
    if ms.len() == 0 {
    } else if ms[0].va.spec_contains(va) {
    } else {
        lemma_find_mapping_char(ms.skip(1), va);
        match spec_find_mapping(ms.skip(1), va) {
            None => {
                assert forall|j: int| 0 <= j < ms.len() implies !(#[trigger] ms[j]).va.spec_contains(
                    va,
                ) by {
                    if j > 0 {
                        assert(ms.skip(1)[j - 1] == ms[j]);
                    }
                }
            },
            Some(i) => {
                assert(ms.skip(1)[i] == ms[i + 1]);
            },
        }
    }
}

pub proof fn lemma_find_section_char(ss: Seq<VmSectionMappingV>, va: u64)
    ensures
        match spec_find_section(ss, va) {
            Some(i) => 0 <= i < ss.len() && ss[i].va.spec_contains(va),
            None => forall|j: int|
                0 <= j < ss.len() ==> !(#[trigger] ss[j]).va.spec_contains(va),
        },
    decreases ss.len(),
{
    if ss.len() == 0 {
    } else if ss[0].va.spec_contains(va) {
    } else {
        lemma_find_section_char(ss.skip(1), va);
        match spec_find_section(ss.skip(1), va) {
            None => {
                assert forall|j: int| 0 <= j < ss.len() implies !(#[trigger] ss[j]).va.spec_contains(
                    va,
                ) by {
                    if j > 0 {
                        assert(ss.skip(1)[j - 1] == ss[j]);
                    }
                }
            },
            Some(i) => {
                assert(ss.skip(1)[i] == ss[i + 1]);
            },
        }
    }
}

pub proof fn lemma_find_symbol_char(ss: Seq<VmSymbolMappingV>, va: u64)
    ensures
        match spec_find_symbol(ss, va) {
            Some(i) => 0 <= i < ss.len() && ss[i].va.spec_contains(va),
            None => forall|j: int|
                0 <= j < ss.len() ==> !(#[trigger] ss[j]).va.spec_contains(va),
        },
    decreases ss.len(),
{
    if ss.len() == 0 {
    } else if ss[0].va.spec_contains(va) {
    } else {
        lemma_find_symbol_char(ss.skip(1), va);
        match spec_find_symbol(ss.skip(1), va) {
            None => {
                assert forall|j: int| 0 <= j < ss.len() implies !(#[trigger] ss[j]).va.spec_contains(
                    va,
                ) by {
                    if j > 0 {
                        assert(ss.skip(1)[j - 1] == ss[j]);
                    }
                }
            },
            Some(i) => {
                assert(ss.skip(1)[i] == ss[i + 1]);
            },
        }
    }
}

pub proof fn lemma_find_mapping_unique(ms: Seq<VmMappingV>, va: u64, j: int)
    requires
        forall|x: int, y: int|
            0 <= x < y < ms.len() ==> (#[trigger] ms[x]).va.end < (#[trigger] ms[y]).va.start,
        0 <= j < ms.len(),
        ms[j].va.spec_contains(va),
    ensures
        spec_find_mapping(ms, va) == Some(j),
    decreases ms.len(),
{
    if j == 0 {
    } else {
        assert(ms[0].va.end < ms[j].va.start);
        assert(!ms[0].va.spec_contains(va));
        assert(forall|x: int, y: int|
            0 <= x < y < ms.skip(1).len() ==> (#[trigger] ms.skip(1)[x]).va.end < (
            #[trigger] ms.skip(1)[y]).va.start) by {
            assert(forall|x: int|
                0 <= x < ms.skip(1).len() ==> (#[trigger] ms.skip(1)[x]) == ms[x + 1]);
        }
        assert(ms.skip(1)[j - 1] == ms[j]);
        lemma_find_mapping_unique(ms.skip(1), va, j - 1);
    }
}

pub proof fn lemma_find_section_unique(ss: Seq<VmSectionMappingV>, va: u64, j: int)
    requires
        secs_sorted(ss),
        0 <= j < ss.len(),
        ss[j].va.spec_contains(va),
    ensures
        spec_find_section(ss, va) == Some(j),
    decreases ss.len(),
{
    if j == 0 {
    } else {
        assert(ss[0].va.end < ss[j].va.start);
        assert(!ss[0].va.spec_contains(va));
        assert(secs_sorted(ss.skip(1))) by {
            assert(forall|x: int|
                0 <= x < ss.skip(1).len() ==> (#[trigger] ss.skip(1)[x]) == ss[x + 1]);
        }
        assert(ss.skip(1)[j - 1] == ss[j]);
        lemma_find_section_unique(ss.skip(1), va, j - 1);
    }
}

pub proof fn lemma_find_symbol_unique(ss: Seq<VmSymbolMappingV>, va: u64, j: int)
    requires
        syms_ordered(ss),
        0 <= j < ss.len(),
        ss[j].va.spec_contains(va),
    ensures
        spec_find_symbol(ss, va) == Some(j),
    decreases ss.len(),
{
    if j == 0 {
    } else {
        assert(ss[0].va.end < ss[j].va.start);
        assert(!ss[0].va.spec_contains(va));
        assert(syms_ordered(ss.skip(1))) by {
            assert(forall|x: int|
                0 <= x < ss.skip(1).len() ==> (#[trigger] ss.skip(1)[x]) == ss[x + 1]);
        }
        assert(ss.skip(1)[j - 1] == ss[j]);
        lemma_find_symbol_unique(ss.skip(1), va, j - 1);
    }
}

/// One resolved address: the mapping containing it, and, when present, the
/// section and the symbol, each named by its position in the owning list.
#[derive(Clone, Copy, Debug, PartialEq, Eq)]
pub struct VmAddrInfo {
    pub va: u64,
    pub mapping: usize,
    pub section: Option<usize>,
    pub symbol: Option<usize>,
}

/// The identity key of a resolved address: the same symbol queried at two
/// different addresses yields the same key.
#[derive(Clone, Copy, Debug, PartialEq, Eq, Hash)]
pub struct InsnCountKey {
    pub mapping: usize,
    pub section: Option<usize>,
    pub symbol: Option<usize>,
}

impl VmAddrInfo {
    /// The identity key: the resolved positions without the address.
    pub open spec fn spec_count_key(self) -> InsnCountKey {
        InsnCountKey { mapping: self.mapping, section: self.section, symbol: self.symbol }
    }

    /// The identity key: the resolved positions without the address.
    pub fn count_key(&self) -> (k: InsnCountKey)
        ensures
            k == self.spec_count_key(),
    {
        InsnCountKey { mapping: self.mapping, section: self.section, symbol: self.symbol }
    }
}

/// The indexes of a resolved address name entries that exist in the map.
pub open spec fn info_in_map(info: VmAddrInfo, ms: Seq<VmMappingV>) -> bool {
    &&& (info.mapping as int) < ms.len()
    &&& (info.section matches Some(j) ==> (j as int) < ms[info.mapping as int].sections.len())
    &&& (info.symbol matches Some(l) ==> info.section matches Some(j) && (l as int) < ms[
    info.mapping as int].sections[j as int].symbols.len())
    &&& (info.symbol is Some ==> info.section is Some)
}

/// What resolving an address yields: nothing when no mapping contains it;
/// otherwise the containing mapping, and within it the containing section
/// and symbol as far as they exist.
pub open spec fn spec_resolve(ms: Seq<VmMappingV>, va: u64) -> Option<VmAddrInfo> {
    match spec_find_mapping(ms, va) {
        None => None,
        Some(i) => Some(
            match spec_find_section(ms[i].sections, va) {
                None => VmAddrInfo { va, mapping: i as usize, section: None, symbol: None },
                Some(j) => match spec_find_symbol(ms[i].sections[j].symbols, va) {
                    None => VmAddrInfo {
                        va,
                        mapping: i as usize,
                        section: Some(j as usize),
                        symbol: None,
                    },
                    Some(l) => VmAddrInfo {
                        va,
                        mapping: i as usize,
                        section: Some(j as usize),
                        symbol: Some(l as usize),
                    },
                },
            },
        ),
    }
}

/// Binary search for the mapping containing `va`.
#[verifier::loop_isolation(false)]
fn bsearch_mapping(ms: &Vec<VmMapping>, va: u64) -> (r: Option<usize>)
    requires
        forall|x: int| 0 <= x < ms.deep_view().len() ==> (#[trigger] ms.deep_view()[x]).va.wf(),
        forall|x: int, y: int|
            0 <= x < y < ms.deep_view().len() ==> (#[trigger] ms.deep_view()[x]).va.end < (
            #[trigger] ms.deep_view()[y]).va.start,
    ensures
        match r {
            Some(u) => spec_find_mapping(ms.deep_view(), va) == Some(u as int),
            None => spec_find_mapping(ms.deep_view(), va) is None,
        },
{
    let ghost mv = ms.deep_view();
    let mut lo: usize = 0;
    let mut hi: usize = ms.len();
    while lo < hi
        invariant
            lo <= hi <= ms@.len(),
            forall|j: int| 0 <= j < lo ==> !(#[trigger] mv[j]).va.spec_contains(va),
            forall|j: int| hi <= j < mv.len() ==> !(#[trigger] mv[j]).va.spec_contains(va),
        decreases hi - lo,
    {
        let mid = lo + (hi - lo) / 2;
        proof {
            assert(mv[mid as int] == ms@[mid as int].deep_view());
        }
        if ms[mid].va.end < va {
            proof {
                assert forall|j: int| 0 <= j < mid + 1 implies !(#[trigger] mv[j]).va.spec_contains(
                    va,
                ) by {
                    if j < mid {
                        assert(mv[j].va.end < mv[mid as int].va.start);
                    }
                }
            }
            lo = mid + 1;
        } else if ms[mid].va.start > va {
            proof {
                assert forall|j: int|
                    mid <= j < mv.len() implies !(#[trigger] mv[j]).va.spec_contains(va) by {
                    if j > mid {
                        assert(mv[mid as int].va.end < mv[j].va.start);
                    }
                }
            }
            hi = mid;
        } else {
            proof {
                assert(mv[mid as int].va.spec_contains(va));
                lemma_find_mapping_unique(mv, va, mid as int);
            }
            return Some(mid);
        }
    }
    proof {
        lemma_find_mapping_char(mv, va);
        if spec_find_mapping(mv, va) is Some {
            let i = spec_find_mapping(mv, va)->Some_0;
            assert(!mv[i].va.spec_contains(va));
        }
    }
    None
}

/// Binary search for the section containing `va`.
#[verifier::loop_isolation(false)]
fn bsearch_section(ss: &Vec<VmSectionMapping>, va: u64) -> (r: Option<usize>)
    requires
        secs_sorted(ss.deep_view()),
        forall|x: int| 0 <= x < ss.deep_view().len() ==> (#[trigger] ss.deep_view()[x]).va.wf(),
    ensures
        match r {
            Some(u) => spec_find_section(ss.deep_view(), va) == Some(u as int),
            None => spec_find_section(ss.deep_view(), va) is None,
        },
{
    let ghost sv = ss.deep_view();
    let mut lo: usize = 0;
    let mut hi: usize = ss.len();
    while lo < hi
        invariant
            lo <= hi <= ss@.len(),
            forall|j: int| 0 <= j < lo ==> !(#[trigger] sv[j]).va.spec_contains(va),
            forall|j: int| hi <= j < sv.len() ==> !(#[trigger] sv[j]).va.spec_contains(va),
        decreases hi - lo,
    {
        let mid = lo + (hi - lo) / 2;
        proof {
            assert(sv[mid as int] == ss@[mid as int].deep_view());
        }
        if ss[mid].va.end < va {
            proof {
                assert forall|j: int| 0 <= j < mid + 1 implies !(#[trigger] sv[j]).va.spec_contains(
                    va,
                ) by {
                    if j < mid {
                        assert(sv[j].va.end < sv[mid as int].va.start);
                    }
                }
            }
            lo = mid + 1;
        } else if ss[mid].va.start > va {
            proof {
                assert forall|j: int|
                    mid <= j < sv.len() implies !(#[trigger] sv[j]).va.spec_contains(va) by {
                    if j > mid {
                        assert(sv[mid as int].va.end < sv[j].va.start);
                    }
                }
            }
            hi = mid;
        } else {
            proof {
                assert(sv[mid as int].va.spec_contains(va));
                lemma_find_section_unique(sv, va, mid as int);
            }
            return Some(mid);
        }
    }
    proof {
        lemma_find_section_char(sv, va);
        if spec_find_section(sv, va) is Some {
            let i = spec_find_section(sv, va)->Some_0;
            assert(!sv[i].va.spec_contains(va));
        }
    }
    None
}

/// Binary search for the symbol containing `va`.
#[verifier::loop_isolation(false)]
fn bsearch_symbol(ss: &Vec<VmSymbolMapping>, va: u64) -> (r: Option<usize>)
    requires
        syms_ordered(ss.deep_view()),
    ensures
        match r {
            Some(u) => spec_find_symbol(ss.deep_view(), va) == Some(u as int),
            None => spec_find_symbol(ss.deep_view(), va) is None,
        },
{
    let ghost sv = ss.deep_view();
    let mut lo: usize = 0;
    let mut hi: usize = ss.len();
    while lo < hi
        invariant
            lo <= hi <= ss@.len(),
            forall|j: int| 0 <= j < lo ==> !(#[trigger] sv[j]).va.spec_contains(va),
            forall|j: int| hi <= j < sv.len() ==> !(#[trigger] sv[j]).va.spec_contains(va),
        decreases hi - lo,
    {
        let mid = lo + (hi - lo) / 2;
        proof {
            assert(sv[mid as int] == ss@[mid as int].deep_view());
        }
        if ss[mid].va.end < va {
            proof {
                assert forall|j: int| 0 <= j < mid + 1 implies !(#[trigger] sv[j]).va.spec_contains(
                    va,
                ) by {
                    if j < mid {
                        assert(sv[j].va.end < sv[mid as int].va.start);
                    }
                }
            }
            lo = mid + 1;
        } else if ss[mid].va.start > va {
            proof {
                assert forall|j: int|
                    mid <= j < sv.len() implies !(#[trigger] sv[j]).va.spec_contains(va) by {
                    if j > mid {
                        assert(sv[mid as int].va.end < sv[j].va.start);
                    }
                }
            }
            hi = mid;
        } else {
            proof {
                assert(sv[mid as int].va.spec_contains(va));
                lemma_find_symbol_unique(sv, va, mid as int);
            }
            return Some(mid);
        }
    }
    proof {
        lemma_find_symbol_char(sv, va);
        if spec_find_symbol(sv, va) is Some {
            let i = spec_find_symbol(sv, va)->Some_0;
            assert(!sv[i].va.spec_contains(va));
        }
    }
    None
}

impl VmMap {
    /// Resolves a virtual address to the mapping, section and symbol
    /// containing it, as `spec_resolve` says: `None` exactly when the
    /// address lies in no mapping. Each tier is a binary search.
    pub fn addr_info(&self, va: u64) -> (r: Option<VmAddrInfo>)
        requires
            self.wf(),
        ensures
            r == spec_resolve(self.mappings.deep_view(), va),
            r matches Some(info) ==> info_in_map(info, self.mappings.deep_view()),
    {
        let ghost mv = self.mappings.deep_view();
        let mi = match bsearch_mapping(&self.mappings, va) {
            None => {
                return None;
            },
            Some(i) => i,
        };
        proof {
            lemma_find_mapping_char(mv, va);
        }
        let m = &self.mappings[mi];
        proof {
            assert(mv[mi as int] == self.mappings@[mi as int].deep_view());
            assert(m.sections.deep_view() == mv[mi as int].sections);
        }
        let section: Option<usize>;
        let symbol: Option<usize>;
        match bsearch_section(&m.sections, va) {
            None => {
                section = None;
                symbol = None;
            },
            Some(j) => {
                proof {
                    lemma_find_section_char(m.sections.deep_view(), va);
                    assert(m.sections.deep_view()[j as int] == m.sections@[j as int].deep_view());
                    assert(m.sections@[j as int].symbols.deep_view() == mv[mi as int].sections[
                        j as int].symbols);
                }
                match bsearch_symbol(&m.sections[j].symbols, va) {
                    None => {
                        section = Some(j);
                        symbol = None;
                    },
                    Some(l) => {
                        proof {
                            lemma_find_symbol_char(m.sections@[j as int].symbols.deep_view(), va);
                        }
                        section = Some(j);
                        symbol = Some(l);
                    },
                }
            },
        }
        Some(VmAddrInfo { va, mapping: mi, section, symbol })
    }
}

/// The lists of a map all fit the machine's word, as any map held in
/// vectors does.
pub open spec fn map_fits(ms: Seq<VmMappingV>) -> bool {
    &&& ms.len() <= usize::MAX
    &&& forall|i: int|
        0 <= i < ms.len() ==> (#[trigger] ms[i]).sections.len() <= usize::MAX
    &&& forall|i: int, j: int|
        0 <= i < ms.len() && 0 <= j < ms[i].sections.len() ==> (#[trigger] ms[i].sections[
        j]).symbols.len() <= usize::MAX
}

/// An address resolves to nothing exactly when it lies in no mapping's
/// range; otherwise the returned mapping's range contains the address, as
/// do the returned section and symbol where present.
pub proof fn lemma_resolve_components(ms: Seq<VmMappingV>, va: u64)
    requires
        map_fits(ms),
    ensures
        (spec_resolve(ms, va) is None <==> forall|i: int|
            0 <= i < ms.len() ==> !(#[trigger] ms[i]).va.spec_contains(va)),
        spec_resolve(ms, va) matches Some(info) ==> {
            &&& info.va == va
            &&& (info.mapping as int) < ms.len()
            &&& ms[info.mapping as int].va.spec_contains(va)
            &&& (info.section matches Some(j) ==> (j as int)
                < ms[info.mapping as int].sections.len() && ms[info.mapping as int].sections[
                j as int].va.spec_contains(va))
            &&& (info.symbol matches Some(l) ==> info.section matches Some(j) && (l as int)
                < ms[info.mapping as int].sections[j as int].symbols.len() && ms[info.mapping
                as int].sections[j as int].symbols[l as int].va.spec_contains(va))
        },
{
    lemma_find_mapping_char(ms, va);
    if spec_find_mapping(ms, va) is Some {
        let i = spec_find_mapping(ms, va)->Some_0;
        lemma_find_section_char(ms[i].sections, va);
        if spec_find_section(ms[i].sections, va) is Some {
            let j = spec_find_section(ms[i].sections, va)->Some_0;
            lemma_find_symbol_char(ms[i].sections[j].symbols, va);
        }
    }
}

/// Resolution is a function of the map and the address alone: resolving
/// the same address twice yields results with the same identity key, so
/// repeated lookups of one address accumulate into one bucket.
pub proof fn lemma_resolve_idempotent(ms: Seq<VmMappingV>, va: u64)
    ensures
        match (spec_resolve(ms, va), spec_resolve(ms, va)) {
            (Some(a), Some(b)) => a.spec_count_key() == b.spec_count_key(),
            (None, None) => true,
            _ => false,
        },
{
}

/// Round trip through a symbol: every address inside a symbol's range
/// resolves to that symbol, and no address outside it resolves to the same
/// identity. The symbol's range must lie inside its section's and its
/// mapping's, as it does for symbols drawn from a section of their own
/// binary.
pub proof fn lemma_symbol_round_trip(
    ms: Seq<VmMappingV>,
    i: int,
    j: int,
    l: int,
    va: u64,
    va2: u64,
)
    requires
        map_fits(ms),
        mappings_wf(ms),
        0 <= i < ms.len(),
        0 <= j < ms[i].sections.len(),
        0 <= l < ms[i].sections[j].symbols.len(),
        ms[i].va.start <= ms[i].sections[j].symbols[l].va.start,
        ms[i].sections[j].symbols[l].va.end <= ms[i].va.end,
        ms[i].sections[j].va.start <= ms[i].sections[j].symbols[l].va.start,
        ms[i].sections[j].symbols[l].va.end <= ms[i].sections[j].va.end,
        ms[i].sections[j].symbols[l].va.spec_contains(va),
        !ms[i].sections[j].symbols[l].va.spec_contains(va2),
    ensures
        spec_resolve(ms, va) == Some(
            (VmAddrInfo {
                va,
                mapping: i as usize,
                section: Some(j as usize),
                symbol: Some(l as usize),
            }),
        ),
        spec_resolve(ms, va2) matches Some(info2) ==> !(info2.mapping == i as usize
            && info2.section == Some(j as usize) && info2.symbol == Some(l as usize)),
{
    let sym = ms[i].sections[j].symbols[l];
    assert(ms[i].va.spec_contains(va));
    lemma_find_mapping_unique(ms, va, i);
    assert(ms[i].sections[j].va.spec_contains(va));
    lemma_find_section_unique(ms[i].sections, va, j);
    lemma_find_symbol_unique(ms[i].sections[j].symbols, va, l);
    if spec_resolve(ms, va2) is Some {
        let info2 = spec_resolve(ms, va2)->Some_0;
        if info2.mapping == i as usize && info2.section == Some(j as usize) && info2.symbol
            == Some(l as usize) {
            lemma_find_mapping_char(ms, va2);
            let i2 = spec_find_mapping(ms, va2)->Some_0;
            assert(i2 as usize == info2.mapping);
            assert(i2 == i);
            lemma_find_section_char(ms[i2].sections, va2);
            let j2 = spec_find_section(ms[i2].sections, va2)->Some_0;
            assert(j2 as usize == j as usize);
            assert(j2 == j);
            lemma_find_symbol_char(ms[i2].sections[j2].symbols, va2);
            let l2 = spec_find_symbol(ms[i2].sections[j2].symbols, va2)->Some_0;
            assert(l2 as usize == l as usize);
            assert(l2 == l);
            assert(sym.va.spec_contains(va2));
            assert(false);
        }
    }
}

/// The label of a mapping with no backing file.
pub open spec fn anon_label_bytes() -> Seq<u8> {
    seq![91u8, 97u8, 110u8, 111u8, 110u8, 121u8, 109u8, 111u8, 117u8, 115u8, 93u8]
}

fn anon_label() -> (r: Vec<u8>)
    ensures
        r@ == anon_label_bytes(),
{
    let mut v: Vec<u8> = Vec::new();
    v.push(91);
    v.push(97);
    v.push(110);
    v.push(111);
    v.push(110);
    v.push(121);
    v.push(109);
    v.push(111);
    v.push(117);
    v.push(115);
    v.push(93);
    assert(v@ =~= anon_label_bytes());
    v
}

/// The separator before the symbol part.
pub open spec fn colon_sep_bytes() -> Seq<u8> {
    seq![58u8, 32u8]
}

fn colon_sep() -> (r: Vec<u8>)
    ensures
        r@ == colon_sep_bytes(),
{
    let mut v: Vec<u8> = Vec::new();
    v.push(58);
    v.push(32);
    assert(v@ =~= colon_sep_bytes());
    v
}

/// The separator before a hexadecimal offset.
pub open spec fn plus_hex_bytes() -> Seq<u8> {
    seq![43u8, 48u8, 120u8]
}

fn plus_hex() -> (r: Vec<u8>)
    ensures
        r@ == plus_hex_bytes(),
{
    let mut v: Vec<u8> = Vec::new();
    v.push(43);
    v.push(48);
    v.push(120);
    assert(v@ =~= plus_hex_bytes());
    v
}

/// The symbol part when no symbol contains the address.
pub open spec fn unknown_symbol_label_bytes() -> Seq<u8> {
    seq![58u8, 32u8, 117u8, 110u8, 107u8, 110u8, 111u8, 119u8, 110u8, 32u8, 115u8, 121u8, 109u8, 98u8, 111u8, 108u8]
}

fn unknown_symbol_label() -> (r: Vec<u8>)
    ensures
        r@ == unknown_symbol_label_bytes(),
{
    let mut v: Vec<u8> = Vec::new();
    v.push(58);
    v.push(32);
    v.push(117);
    v.push(110);
    v.push(107);
    v.push(110);
    v.push(111);
    v.push(119);
    v.push(110);
    v.push(32);
    v.push(115);
    v.push(121);
    v.push(109);
    v.push(98);
    v.push(111);
    v.push(108);
    assert(v@ =~= unknown_symbol_label_bytes());
    v
}

/// The separator before a section name.
pub open spec fn at_sep_bytes() -> Seq<u8> {
    seq![32u8, 97u8, 116u8, 32u8]
}

fn at_sep() -> (r: Vec<u8>)
    ensures
        r@ == at_sep_bytes(),
{
    let mut v: Vec<u8> = Vec::new();
    v.push(32);
    v.push(97);
    v.push(116);
    v.push(32);
    assert(v@ =~= at_sep_bytes());
    v
}

/// The section part when no section contains the address.
pub open spec fn unknown_section_label_bytes() -> Seq<u8> {
    seq![32u8, 105u8, 110u8, 32u8, 117u8, 110u8, 107u8, 110u8, 111u8, 119u8, 110u8, 32u8, 115u8, 101u8, 99u8, 116u8, 105u8, 111u8, 110u8]
}

fn unknown_section_label() -> (r: Vec<u8>)
    ensures
        r@ == unknown_section_label_bytes(),
{
    let mut v: Vec<u8> = Vec::new();
    v.push(32);
    v.push(105);
    v.push(110);
    v.push(32);
    v.push(117);
    v.push(110);
    v.push(107);
    v.push(110);
    v.push(111);
    v.push(119);
    v.push(110);
    v.push(32);
    v.push(115);
    v.push(101);
    v.push(99);
    v.push(116);
    v.push(105);
    v.push(111);
    v.push(110);
    assert(v@ =~= unknown_section_label_bytes());
    v
}

/// The section whose name is left out of annotations.
pub open spec fn text_section_name_bytes() -> Seq<u8> {
    seq![46u8, 116u8, 101u8, 120u8, 116u8]
}

fn text_section_name() -> (r: Vec<u8>)
    ensures
        r@ == text_section_name_bytes(),
{
    let mut v: Vec<u8> = Vec::new();
    v.push(46);
    v.push(116);
    v.push(101);
    v.push(120);
    v.push(116);
    assert(v@ =~= text_section_name_bytes());
    v
}

/// The annotation of one resolved address: the binary's base filename
/// (or the anonymous label), the symbol with the address's offset from its
/// start (or the unknown-symbol label), and the section likewise unless it
/// is `.text`.
pub open spec fn spec_describe(info: VmAddrInfo, ms: Seq<VmMappingV>) -> Seq<u8> {
    let m = ms[info.mapping as int];
    let part1 = match m.target_path {
        Some(p) => crate::bytes::basename_of(p),
        None => anon_label_bytes(),
    };
    let part2 = match info.symbol {
        Some(l) => {
            let sym = m.sections[info.section->Some_0 as int].symbols[l as int];
            colon_sep_bytes() + sym.name + plus_hex_bytes() + crate::bytes::hex_bytes(
                (info.va - sym.va.start) as nat,
            )
        },
        None => unknown_symbol_label_bytes(),
    };
    let part3 = match info.section {
        Some(j) => {
            let sec = m.sections[j as int];
            if sec.name == text_section_name_bytes() {
                Seq::<u8>::empty()
            } else {
                at_sep_bytes() + sec.name + plus_hex_bytes() + crate::bytes::hex_bytes(
                    (info.va - sec.va.start) as nat,
                )
            }
        },
        None => unknown_section_label_bytes(),
    };
    part1 + part2 + part3
}

impl VmAddrInfo {
    /// Renders the annotation of this resolved address, as
    /// `spec_describe` says.
    pub fn describe(&self, map: &VmMap) -> (r: Vec<u8>)
        requires
            info_in_map(*self, map.mappings.deep_view()),
            self.symbol matches Some(l) ==> map.mappings.deep_view()[self.mapping as int].sections[
                self.section->Some_0 as int].symbols[l as int].va.start <= self.va,
            self.section matches Some(j) ==> map.mappings.deep_view()[self.mapping
                as int].sections[j as int].va.start <= self.va,
        ensures
            r@ == spec_describe(*self, map.mappings.deep_view()),
    {
        let ghost ms = map.mappings.deep_view();
        let m = &map.mappings[self.mapping];
        proof {
            assert(ms[self.mapping as int] == map.mappings@[self.mapping as int].deep_view());
        }
        let mut out: Vec<u8> = Vec::new();
        match m.target_path {
            Some(ref p) => {
                let base = crate::bytes::basename(p.as_slice());
                out.extend_from_slice(base.as_slice());
            },
            None => {
                let lab = anon_label();
                out.extend_from_slice(lab.as_slice());
            },
        }
        let ghost part1 = out@;
        match self.symbol {
            Some(l) => {
                let j = match self.section {
                    Some(j) => j,
                    None => 0,
                };
                proof {
                    assert(ms[self.mapping as int].sections[j as int] == m.sections@[
                        j as int].deep_view());
                    assert(ms[self.mapping as int].sections[j as int].symbols[l as int]
                        == m.sections@[j as int].symbols@[l as int].deep_view());
                }
                let sym = &m.sections[j].symbols[l];
                let sep = colon_sep();
                out.extend_from_slice(sep.as_slice());
                out.extend_from_slice(sym.name.as_slice());
                let ph = plus_hex();
                out.extend_from_slice(ph.as_slice());
                let off = crate::bytes::hex_bytes_of(self.va - sym.va.start);
                out.extend_from_slice(off.as_slice());
            },
            None => {
                let lab = unknown_symbol_label();
                out.extend_from_slice(lab.as_slice());
            },
        }
        let ghost part12 = out@;
        match self.section {
            Some(j) => {
                proof {
                    assert(ms[self.mapping as int].sections[j as int] == m.sections@[
                        j as int].deep_view());
                }
                let sec = &m.sections[j];
                let text_name = text_section_name();
                if !crate::bytes::bytes_eq(sec.name.as_slice(), text_name.as_slice()) {
                    let sep = at_sep();
                    out.extend_from_slice(sep.as_slice());
                    out.extend_from_slice(sec.name.as_slice());
                    let ph = plus_hex();
                    out.extend_from_slice(ph.as_slice());
                    let off = crate::bytes::hex_bytes_of(self.va - sec.va.start);
                    out.extend_from_slice(off.as_slice());
                }
            },
            None => {
                let lab = unknown_section_label();
                out.extend_from_slice(lab.as_slice());
            },
        }
        proof {
            assert(out@ =~= spec_describe(*self, ms));
        }
        out
    }
}

} // verus!
