//! Per-symbol instruction counts, keyed by resolved identity.
//!
//! The buckets mirror the shape of the VM map: one bucket per symbol, one
//! per section for addresses with no symbol, one per mapping for addresses
//! with no section, and one for addresses outside every mapping. Two
//! lookups that resolve to the same entry accumulate into the same bucket
//! even though the queried addresses differ.

use vstd::prelude::*;
use crate::mapping::VmMappingV;
use crate::resolve::{VmAddrInfo, InsnCountKey};
use crate::vmmap::VmMap;

verus! {

/// The counters of one section: per-symbol counts and the
/// unknown-symbol bucket.
#[derive(Clone, Debug)]
pub struct SectionCounts {
    pub unknown_symbol: u64,
    pub symbols: Vec<u64>,
}

/// The mathematical value of a `SectionCounts`.
pub struct SectionCountsV {
    pub unknown_symbol: u64,
    pub symbols: Seq<u64>,
}

impl DeepView for SectionCounts {
    type V = SectionCountsV;

    open spec fn deep_view(&self) -> SectionCountsV {
        SectionCountsV { unknown_symbol: self.unknown_symbol, symbols: self.symbols@ }
    }
}

/// The counters of one mapping: per-section counters and the
/// unknown-section bucket.
#[derive(Clone, Debug)]
pub struct MappingCounts {
    pub unknown_section: u64,
    pub sections: Vec<SectionCounts>,
}

/// The mathematical value of a `MappingCounts`.
pub struct MappingCountsV {
    pub unknown_section: u64,
    pub sections: Seq<SectionCountsV>,
}

impl DeepView for MappingCounts {
    type V = MappingCountsV;

    open spec fn deep_view(&self) -> MappingCountsV {
        MappingCountsV { unknown_section: self.unknown_section, sections: self.sections.deep_view() }
    }
}

/// The instruction-count aggregate of one trace pass.
#[derive(Clone, Debug)]
pub struct InsnCount {
    pub total: u64,
    pub unknown_mapping: u64,
    pub counts: Vec<MappingCounts>,
}

/// The mathematical value of an `InsnCount`.
pub struct InsnCountV {
    pub total: u64,
    pub unknown_mapping: u64,
    pub counts: Seq<MappingCountsV>,
}

impl DeepView for InsnCount {
    type V = InsnCountV;

    open spec fn deep_view(&self) -> InsnCountV {
        InsnCountV {
            total: self.total,
            unknown_mapping: self.unknown_mapping,
            counts: self.counts.deep_view(),
        }
    }
}

/// The buckets mirror the map: one `MappingCounts` per mapping, one
/// `SectionCounts` per section, one counter per symbol.
pub open spec fn counts_shape(c: InsnCountV, ms: Seq<VmMappingV>) -> bool {
    &&& c.counts.len() == ms.len()
    &&& forall|i: int|
        0 <= i < ms.len() ==> (#[trigger] c.counts[i]).sections.len() == ms[i].sections.len()
    &&& forall|i: int, j: int|
        0 <= i < ms.len() && 0 <= j < ms[i].sections.len() ==> (#[trigger] c.counts[i].sections[
        j]).symbols.len() == ms[i].sections[j].symbols.len()
}

/// The sum of a section's per-symbol buckets.
pub open spec fn sum_symbols(s: Seq<u64>) -> int
    decreases s.len(),
{
    if s.len() == 0 {
        0
    } else {
        sum_symbols(s.drop_last()) + s.last()
    }
}

/// The sum of a mapping's buckets below the mapping level.
pub open spec fn sum_sections(ss: Seq<SectionCountsV>) -> int
    decreases ss.len(),
{
    if ss.len() == 0 {
        0
    } else {
        sum_sections(ss.drop_last()) + ss.last().unknown_symbol + sum_symbols(ss.last().symbols)
    }
}

/// The sum of every bucket below the map level.
pub open spec fn sum_counts(cs: Seq<MappingCountsV>) -> int
    decreases cs.len(),
{
    if cs.len() == 0 {
        0
    } else {
        sum_counts(cs.drop_last()) + cs.last().unknown_section + sum_sections(cs.last().sections)
    }
}

/// The grand total: every bucket of the aggregate, the unknown-mapping
/// bucket included.
pub open spec fn spec_total_sum(c: InsnCountV) -> int {
    c.unknown_mapping + sum_counts(c.counts)
}

pub proof fn lemma_sum_symbols_update(s: Seq<u64>, l: int, v: u64)
    requires
        0 <= l < s.len(),
    ensures
        sum_symbols(s.update(l, v)) == sum_symbols(s) - s[l] + v,
    decreases s.len(),
{
    if l == s.len() - 1 {
        assert(s.update(l, v).drop_last() =~= s.drop_last());
        assert(s.update(l, v).last() == v);
    } else {
        assert(s.update(l, v).drop_last() =~= s.drop_last().update(l, v));
        assert(s.update(l, v).last() == s.last());
        lemma_sum_symbols_update(s.drop_last(), l, v);
    }
}

pub proof fn lemma_sum_sections_update(ss: Seq<SectionCountsV>, j: int, sc: SectionCountsV)
    requires
        0 <= j < ss.len(),
    ensures
        sum_sections(ss.update(j, sc)) == sum_sections(ss) - ss[j].unknown_symbol - sum_symbols(
            ss[j].symbols,
        ) + sc.unknown_symbol + sum_symbols(sc.symbols),
    decreases ss.len(),
{
    if j == ss.len() - 1 {
        assert(ss.update(j, sc).drop_last() =~= ss.drop_last());
        assert(ss.update(j, sc).last() == sc);
    } else {
        assert(ss.update(j, sc).drop_last() =~= ss.drop_last().update(j, sc));
        assert(ss.update(j, sc).last() == ss.last());
        lemma_sum_sections_update(ss.drop_last(), j, sc);
    }
}

pub proof fn lemma_sum_counts_update(cs: Seq<MappingCountsV>, m: int, mc: MappingCountsV)
    requires
        0 <= m < cs.len(),
    ensures
        sum_counts(cs.update(m, mc)) == sum_counts(cs) - cs[m].unknown_section - sum_sections(
            cs[m].sections,
        ) + mc.unknown_section + sum_sections(mc.sections),
    decreases cs.len(),
{
    if m == cs.len() - 1 {
        assert(cs.update(m, mc).drop_last() =~= cs.drop_last());
        assert(cs.update(m, mc).last() == mc);
    } else {
        assert(cs.update(m, mc).drop_last() =~= cs.drop_last().update(m, mc));
        assert(cs.update(m, mc).last() == cs.last());
        lemma_sum_counts_update(cs.drop_last(), m, mc);
    }
}

/// Every bucket is bounded by the running total, and the buckets sum to
/// it: the grand total is exactly what was counted.
pub open spec fn counts_wf(c: InsnCountV) -> bool {
    &&& spec_total_sum(c) == c.total
    &&& c.unknown_mapping <= c.total
    &&& forall|i: int|
        0 <= i < c.counts.len() ==> (#[trigger] c.counts[i]).unknown_section <= c.total
    &&& forall|i: int, j: int|
        0 <= i < c.counts.len() && 0 <= j < c.counts[i].sections.len() ==> (
        #[trigger] c.counts[i].sections[j]).unknown_symbol <= c.total
    &&& forall|i: int, j: int, l: int|
        0 <= i < c.counts.len() && 0 <= j < c.counts[i].sections.len() && 0 <= l < c.counts[
        i].sections[j].symbols.len() ==> (#[trigger] c.counts[i].sections[j].symbols[l]) <= c.total
}

/// An identity key addresses an existing bucket of `c`.
pub open spec fn key_in_shape(c: InsnCountV, key: InsnCountKey) -> bool {
    &&& (key.mapping as int) < c.counts.len()
    &&& (key.section matches Some(j) ==> (j as int) < c.counts[key.mapping as int].sections.len())
    &&& (key.symbol matches Some(l) ==> key.section matches Some(j) && (l as int) < c.counts[
    key.mapping as int].sections[j as int].symbols.len())
}

/// One resolved address folded into the aggregate: the total rises by one,
/// and exactly the bucket named by the key rises by one.
pub open spec fn spec_add_count(c: InsnCountV, key: InsnCountKey) -> InsnCountV {
    let m = key.mapping as int;
    let mc = c.counts[m];
    let new_mc = match key.section {
        None => MappingCountsV {
            unknown_section: (mc.unknown_section + 1) as u64,
            sections: mc.sections,
        },
        Some(j) => {
            let sc = mc.sections[j as int];
            let new_sc = match key.symbol {
                None => SectionCountsV {
                    unknown_symbol: (sc.unknown_symbol + 1) as u64,
                    symbols: sc.symbols,
                },
                Some(l) => SectionCountsV {
                    unknown_symbol: sc.unknown_symbol,
                    symbols: sc.symbols.update(l as int, (sc.symbols[l as int] + 1) as u64),
                },
            };
            MappingCountsV {
                unknown_section: mc.unknown_section,
                sections: mc.sections.update(j as int, new_sc),
            }
        },
    };
    InsnCountV {
        total: (c.total + 1) as u64,
        unknown_mapping: c.unknown_mapping,
        counts: c.counts.update(m, new_mc),
    }
}

impl InsnCount {
    /// An empty aggregate shaped after one VM map.
    #[verifier::loop_isolation(false)]
    pub fn new_for(map: &VmMap) -> (r: InsnCount)
        ensures
            r.total == 0,
            r.unknown_mapping == 0,
            counts_shape(r.deep_view(), map.mappings.deep_view()),
            counts_wf(r.deep_view()),
    {
        let ghost mv = map.mappings.deep_view();
        let mut counts: Vec<MappingCounts> = Vec::new();
        let n = map.mappings.len();
        let mut i: usize = 0;
        proof {
            assert(sum_counts(counts.deep_view()) == 0);
        }
        while i < n
            invariant
                i <= n,
                counts@.len() == i,
                sum_counts(counts.deep_view()) == 0,
                forall|x: int|
                    0 <= x < i ==> (#[trigger] counts.deep_view()[x]).sections.len()
                        == mv[x].sections.len() && counts.deep_view()[x].unknown_section == 0,
                forall|x: int, y: int|
                    0 <= x < i && 0 <= y < mv[x].sections.len() ==> (
                    #[trigger] counts.deep_view()[x].sections[y]).symbols.len() == mv[x].sections[
                    y].symbols.len() && counts.deep_view()[x].sections[y].unknown_symbol == 0,
                forall|x: int, y: int, z: int|
                    0 <= x < i && 0 <= y < mv[x].sections.len() && 0 <= z < mv[x].sections[
                    y].symbols.len() ==> (#[trigger] counts.deep_view()[x].sections[y].symbols[z])
                        == 0,
            decreases n - i,
        {
            let msec = &map.mappings[i];
            proof {
                assert(mv[i as int] == map.mappings@[i as int].deep_view());
            }
            let mut sections: Vec<SectionCounts> = Vec::new();
            let nsec = msec.sections.len();
            let mut j: usize = 0;
            proof {
                assert(sum_sections(sections.deep_view()) == 0);
            }
            while j < nsec
                invariant
                    j <= nsec,
                    sections@.len() == j,
                    sum_sections(sections.deep_view()) == 0,
                    forall|y: int|
                        0 <= y < j ==> (#[trigger] sections.deep_view()[y]).symbols.len()
                            == mv[i as int].sections[y].symbols.len() && sections.deep_view()[
                        y].unknown_symbol == 0,
                    forall|y: int, z: int|
                        0 <= y < j && 0 <= z < mv[i as int].sections[y].symbols.len() ==> (
                        #[trigger] sections.deep_view()[y].symbols[z]) == 0,
                decreases nsec - j,
            {
                proof {
                    assert(msec.sections.deep_view()[j as int] == msec.sections@[
                        j as int].deep_view());
                }
                let nsym = msec.sections[j].symbols.len();
                let mut symbols: Vec<u64> = Vec::new();
                let mut l: usize = 0;
                proof {
                    assert(sum_symbols(symbols@) == 0);
                }
                while l < nsym
                    invariant
                        l <= nsym,
                        symbols@.len() == l,
                        forall|z: int| 0 <= z < l ==> (#[trigger] symbols@[z]) == 0,
                        sum_symbols(symbols@) == 0,
                    decreases nsym - l,
                {
                    let ghost sy0 = symbols@;
                    symbols.push(0);
                    proof {
                        assert(symbols@.drop_last() =~= sy0);
                        assert(symbols@.last() == 0);
                    }
                    l = l + 1;
                }
                let ghost sd0 = sections.deep_view();
                let ghost symv = symbols@;
                let scnt = SectionCounts { unknown_symbol: 0, symbols };
                let ghost scv = scnt.deep_view();
                let ghost symsum = sum_symbols(symv);
                sections.push(scnt);
                proof {
                    assert(scv.symbols == symv);
                    assert(sections.deep_view() =~= sd0.push(scv));
                    assert(sections.deep_view().drop_last() =~= sd0);
                    assert(sections.deep_view().last() == scv);
                    assert(sum_sections(sections.deep_view()) == 0);
                    assert(sections.deep_view()[j as int] == scv);
                    assert(forall|y: int|
                        0 <= y < j ==> (#[trigger] sections.deep_view()[y]) == sd0[y]);
                    assert(msec.sections@[j as int].symbols.deep_view() == mv[i as int].sections[
                        j as int].symbols);
                }
                j = j + 1;
            }
            let ghost cd0 = counts.deep_view();
            let ghost secv = sections.deep_view();
            let mcnt = MappingCounts { unknown_section: 0, sections };
            let ghost mcv = mcnt.deep_view();
            counts.push(mcnt);
            proof {
                assert(mcv.sections == secv);
                assert(counts.deep_view() =~= cd0.push(mcv));
                assert(counts.deep_view().drop_last() =~= cd0);
                assert(counts.deep_view().last() == mcv);
                assert(sum_counts(counts.deep_view()) == 0);
                assert(counts.deep_view()[i as int] == mcv);
                assert(forall|x: int| 0 <= x < i ==> (#[trigger] counts.deep_view()[x]) == cd0[x]);
                assert(msec.sections.deep_view() == mv[i as int].sections);
            }
            i = i + 1;
        }
        InsnCount { total: 0, unknown_mapping: 0, counts }
    }

    /// Whether the buckets mirror the given map, as `counts_shape` says.
    #[verifier::loop_isolation(false)]
    pub fn shape_matches(&self, map: &VmMap) -> (r: bool)
        ensures
            r == counts_shape(self.deep_view(), map.mappings.deep_view()),
    {
        let ghost cv = self.deep_view();
        let ghost mv = map.mappings.deep_view();
        if self.counts.len() != map.mappings.len() {
            return false;
        }
        let n = self.counts.len();
        let mut i: usize = 0;
        while i < n
            invariant
                i <= n,
                n == cv.counts.len() == mv.len(),
                forall|x: int|
                    0 <= x < i ==> (#[trigger] cv.counts[x]).sections.len()
                        == mv[x].sections.len(),
                forall|x: int, y: int|
                    0 <= x < i && 0 <= y < mv[x].sections.len() ==> (#[trigger] cv.counts[
                    x].sections[y]).symbols.len() == mv[x].sections[y].symbols.len(),
            decreases n - i,
        {
            proof {
                assert(cv.counts[i as int] == self.counts@[i as int].deep_view());
                assert(mv[i as int] == map.mappings@[i as int].deep_view());
            }
            let mc = &self.counts[i];
            let mm = &map.mappings[i];
            if mc.sections.len() != mm.sections.len() {
                return false;
            }
            let nsec = mc.sections.len();
            let mut j: usize = 0;
            while j < nsec
                invariant
                    j <= nsec,
                    nsec == cv.counts[i as int].sections.len() == mv[i as int].sections.len(),
                    forall|y: int|
                        0 <= y < j ==> (#[trigger] cv.counts[i as int].sections[y]).symbols.len()
                            == mv[i as int].sections[y].symbols.len(),
                decreases nsec - j,
            {
                proof {
                    assert(cv.counts[i as int].sections[j as int] == mc.sections@[
                        j as int].deep_view());
                    assert(mv[i as int].sections[j as int] == mm.sections@[j as int].deep_view());
                }
                if mc.sections[j].symbols.len() != mm.sections[j].symbols.len() {
                    return false;
                }
                j = j + 1;
            }
            i = i + 1;
        }
        true
    }

    /// The number of instructions seen so far.
    pub fn total(&self) -> (r: u64)
        ensures
            r == self.total,
    {
        self.total
    }

    /// One instruction at an address outside every known mapping: the
    /// unknown-mapping bucket and the total both rise by one.
    pub fn add_unknown(&mut self)
        requires
            old(self).total < u64::MAX,
            counts_wf(old(self).deep_view()),
        ensures
            final(self).total == old(self).total + 1,
            final(self).unknown_mapping == old(self).unknown_mapping + 1,
            final(self).counts == old(self).counts,
            counts_wf(final(self).deep_view()),
    {
        proof {
            assert(self.unknown_mapping <= self.total);
        }
        self.total = self.total + 1;
        self.unknown_mapping = self.unknown_mapping + 1;
        proof {
            let c = self.deep_view();
            assert forall|i: int, j: int, l: int|
                0 <= i < c.counts.len() && 0 <= j < c.counts[i].sections.len() && 0 <= l
                    < c.counts[i].sections[j].symbols.len() implies (#[trigger] c.counts[
                i].sections[j].symbols[l]) <= c.total by {
                assert(old(self).deep_view().counts[i].sections[j].symbols[l] <= old(
                    self,
                ).deep_view().total);
            }
        }
    }

    /// Whether a resolved address names a bucket of this aggregate.
    pub fn accepts(&self, info: &VmAddrInfo) -> (r: bool)
        ensures
            r == key_in_shape(self.deep_view(), info.spec_count_key()),
    {
        if info.mapping >= self.counts.len() {
            proof {
                assert(self.deep_view().counts.len() == self.counts@.len());
            }
            return false;
        }
        proof {
            assert(self.deep_view().counts[info.mapping as int] == self.counts@[info.mapping
                as int].deep_view());
        }
        let mc = &self.counts[info.mapping];
        match info.section {
            None => match info.symbol {
                None => true,
                Some(_) => false,
            },
            Some(j) => {
                if j >= mc.sections.len() {
                    return false;
                }
                proof {
                    assert(mc.sections.deep_view()[j as int] == mc.sections@[j as int].deep_view());
                }
                match info.symbol {
                    None => true,
                    Some(l) => l < mc.sections[j].symbols.len(),
                }
            },
        }
    }

    /// One resolved instruction folded in, as `spec_add_count` says.
    pub fn add(&mut self, info: VmAddrInfo)
        requires
            old(self).total < u64::MAX,
            counts_wf(old(self).deep_view()),
            key_in_shape(old(self).deep_view(), info.spec_count_key()),
        ensures
            final(self).deep_view() == spec_add_count(
                old(self).deep_view(),
                info.spec_count_key(),
            ),
            counts_wf(final(self).deep_view()),
    {
        let ghost c0 = self.deep_view();
        let ghost key = info.spec_count_key();
        let m = info.mapping;
        proof {
            assert(c0.counts[m as int] == self.counts@[m as int].deep_view());
        }
        let mut mc = self.counts.remove(m);
        let ghost mc0 = mc.deep_view();
        match info.section {
            None => {
                proof {
                    assert(mc.unknown_section <= c0.total);
                }
                mc.unknown_section = mc.unknown_section + 1;
            },
            Some(j) => {
                proof {
                    assert(mc0.sections[j as int] == mc.sections@[j as int].deep_view());
                }
                let mut sc = mc.sections.remove(j);
                let ghost sc0 = sc.deep_view();
                match info.symbol {
                    None => {
                        proof {
                            assert(sc.unknown_symbol <= c0.total);
                        }
                        sc.unknown_symbol = sc.unknown_symbol + 1;
                    },
                    Some(l) => {
                        proof {
                            assert(sc0.symbols[l as int] <= c0.total);
                        }
                        let v = sc.symbols[l];
                        sc.symbols.set(l, v + 1);
                        proof {
                            assert(sc.deep_view().symbols =~= sc0.symbols.update(
                                l as int,
                                (sc0.symbols[l as int] + 1) as u64,
                            ));
                        }
                    },
                }
                mc.sections.insert(j, sc);
                proof {
                    assert(mc.sections.deep_view() =~= mc0.sections.update(
                        j as int,
                        sc.deep_view(),
                    ));
                }
            },
        }
        self.counts.insert(m, mc);
        self.total = self.total + 1;
        proof {
            assert(self.counts.deep_view() =~= c0.counts.update(m as int, mc.deep_view()));
            let cnew = self.deep_view();
            let cexp = spec_add_count(c0, key);
            assert(cnew.counts =~= cexp.counts);
            assert(cnew == cexp);
            assert(spec_total_sum(cnew) == cnew.total) by {
                let mi = key.mapping as int;
                let mcv = c0.counts[mi];
                if key.section is Some {
                    let js = key.section->Some_0 as int;
                    let scv = mcv.sections[js];
                    if key.symbol is Some {
                        let ls = key.symbol->Some_0 as int;
                        assert(scv.symbols[ls] <= c0.total);
                        lemma_sum_symbols_update(scv.symbols, ls, (scv.symbols[ls] + 1) as u64);
                    }
                    lemma_sum_sections_update(mcv.sections, js, cexp.counts[mi].sections[js]);
                    assert(cexp.counts[mi].sections == mcv.sections.update(
                        js,
                        cexp.counts[mi].sections[js],
                    )) by {
                        assert(cexp.counts[mi].sections =~= mcv.sections.update(
                            js,
                            cexp.counts[mi].sections[js],
                        ));
                    }
                } else {
                    assert(mcv.unknown_section <= c0.total);
                }
                lemma_sum_counts_update(c0.counts, mi, cexp.counts[mi]);
                assert(cexp.counts == c0.counts.update(mi, cexp.counts[mi])) by {
                    assert(cexp.counts =~= c0.counts.update(mi, cexp.counts[mi]));
                }
            }
            assert forall|i: int|
                0 <= i < cnew.counts.len() implies (#[trigger] cnew.counts[i]).unknown_section
                <= cnew.total by {
                if i != m as int {
                    assert(cnew.counts[i] == c0.counts[i]);
                }
            }
            assert forall|i: int, j: int|
                0 <= i < cnew.counts.len() && 0 <= j < cnew.counts[i].sections.len() implies (
            #[trigger] cnew.counts[i].sections[j]).unknown_symbol <= cnew.total by {
                assert(c0.counts[i].sections[j].unknown_symbol <= c0.total);
                if i == m as int {
                    if key.section is Some {
                        let js = key.section->Some_0;
                        if j != js as int {
                            assert(cnew.counts[i].sections[j] == c0.counts[i].sections[j]);
                        }
                    } else {
                        assert(cnew.counts[i].sections == c0.counts[i].sections);
                    }
                } else {
                    assert(cnew.counts[i] == c0.counts[i]);
                }
            }
            assert forall|i: int, j: int, l: int|
                0 <= i < cnew.counts.len() && 0 <= j < cnew.counts[i].sections.len() && 0 <= l
                    < cnew.counts[i].sections[j].symbols.len() implies (#[trigger] cnew.counts[
            i].sections[j].symbols[l]) <= cnew.total by {
                assert(c0.counts[i].sections[j].symbols[l] <= c0.total);
                if i == m as int {
                    if key.section is Some {
                        let js = key.section->Some_0;
                        if j != js as int {
                            assert(cnew.counts[i].sections[j] == c0.counts[i].sections[j]);
                        }
                    } else {
                        assert(cnew.counts[i].sections == c0.counts[i].sections);
                    }
                } else {
                    assert(cnew.counts[i] == c0.counts[i]);
                }
            }
        }
    }
}

} // verus!
