//! The whole-process view: every mapping, sorted and non-overlapping.

use vstd::prelude::*;
use crate::range::VaRange;
use crate::mapping::{
    VmMapping, VmMappingV, VmMapRecord, VmMapRecordV, MapError, spec_build_mapping,
    spec_local_view, build_mapping, secs_sorted, secs_wf, secs_within,
    lemma_build_mapping_props,
};
use crate::elfdata::{LocalMorelloElfFile, LocalMorelloElfFileV};
use crate::bytes::bytes_eq;

verus! {

/// One entry of the local-ELF index: a target path named by the VM map and
/// the local image found for it, or `None` when no local copy exists.
pub struct ElfCacheEntry {
    pub path: Vec<u8>,
    pub elf: Option<LocalMorelloElfFile>,
}

/// The mathematical value of an `ElfCacheEntry`.
pub struct ElfCacheEntryV {
    pub path: Seq<u8>,
    pub elf: Option<LocalMorelloElfFileV>,
}

impl DeepView for ElfCacheEntry {
    type V = ElfCacheEntryV;

    open spec fn deep_view(&self) -> ElfCacheEntryV {
        ElfCacheEntryV {
            path: self.path@,
            elf: match self.elf {
                Some(ref f) => Some(f.deep_view()),
                None => None,
            },
        }
    }
}

/// The first entry of the index whose path matches, if any.
pub open spec fn spec_cache_lookup(entries: Seq<ElfCacheEntryV>, path: Seq<u8>) -> Option<
    Option<LocalMorelloElfFileV>,
>
    decreases entries.len(),
{
    if entries.len() == 0 {
        None
    } else if entries[0].path == path {
        Some(entries[0].elf)
    } else {
        spec_cache_lookup(entries.skip(1), path)
    }
}

/// The local ELF standing for a record: none for anonymous memory, and none
/// when the index holds no entry (or a negative entry) for its path.
pub open spec fn spec_record_elf(entries: Seq<ElfCacheEntryV>, rec: VmMapRecordV) -> Option<
    LocalMorelloElfFileV,
> {
    match rec.path {
        None => None,
        Some(p) => match spec_cache_lookup(entries, p) {
            None => None,
            Some(e) => e,
        },
    }
}

/// Finds the first index entry for `path`, as `spec_cache_lookup` says.
#[verifier::loop_isolation(false)]
fn cache_lookup<'a>(entries: &'a Vec<ElfCacheEntry>, path: &Vec<u8>) -> (r: Option<
    &'a Option<LocalMorelloElfFile>,
>)
    ensures
        match r {
            None => spec_cache_lookup(entries.deep_view(), path@) is None,
            Some(e) => spec_cache_lookup(entries.deep_view(), path@) == Some(
                match e {
                    Some(f) => Some(f.deep_view()),
                    None => None::<LocalMorelloElfFileV>,
                },
            ),
        },
{
    let ghost ev = entries.deep_view();
    proof {
        assert(ev.skip(0) =~= ev);
    }
    let mut i: usize = 0;
    while i < entries.len()
        invariant
            i <= entries@.len(),
            spec_cache_lookup(ev, path@) == spec_cache_lookup(ev.skip(i as int), path@),
        decreases entries@.len() - i,
    {
        proof {
            assert(ev[i as int] == entries@[i as int].deep_view());
            assert(ev.skip(i as int)[0] == ev[i as int]);
        }
        if bytes_eq(entries[i].path.as_slice(), path.as_slice()) {
            return Some(&entries[i].elf);
        }
        proof {
            assert(ev.skip(i as int).skip(1) =~= ev.skip(i + 1));
        }
        i = i + 1;
    }
    proof {
        assert(ev.skip(i as int) =~= Seq::<ElfCacheEntryV>::empty());
    }
    None
}

/// Inserting one mapping into a sorted mapping list: any overlap (equal
/// ranges included) is a fault (`None`).
pub open spec fn spec_insert_mapping(acc: Seq<VmMappingV>, m: VmMappingV) -> Option<Seq<VmMappingV>>
    decreases acc.len(),
{
    if acc.len() == 0 {
        Some(seq![m])
    } else {
        let h = acc[0];
        if m.va.spec_overlaps(h.va) {
            None
        } else if m.va.start < h.va.start {
            Some(seq![m] + acc)
        } else {
            match spec_insert_mapping(acc.skip(1), m) {
                None => None,
                Some(r) => Some(seq![h] + r),
            }
        }
    }
}

/// Why a VM map could not be constructed.
#[derive(Clone, Copy, Debug, PartialEq, Eq, Structural)]
pub enum VmMapError {
    /// One record could not be built into a mapping.
    Record(MapError),
    /// Two mappings of the process overlap.
    MappingOverlap,
}

/// The mappings of a whole VM map: each record built against its local
/// ELF, then placed into a list sorted by start address; any overlap
/// between two mappings is a fault.
pub open spec fn spec_construct(
    records: Seq<VmMapRecordV>,
    entries: Seq<ElfCacheEntryV>,
) -> Result<Seq<VmMappingV>, VmMapError>
    decreases records.len(),
{
    if records.len() == 0 {
        Ok(Seq::empty())
    } else {
        match spec_construct(records.drop_last(), entries) {
            Err(e) => Err(e),
            Ok(ms) => {
                let rec = records.last();
                match spec_build_mapping(rec, spec_record_elf(entries, rec)) {
                    Err(e) => Err(VmMapError::Record(e)),
                    Ok(m) => match spec_insert_mapping(ms, m) {
                        None => Err(VmMapError::MappingOverlap),
                        Some(r) => Ok(r),
                    },
                }
            },
        }
    }
}

/// A mapping list is well formed when ranges are well formed, sorted by
/// start address and pairwise disjoint, and each mapping's sections are
/// sorted with ordered symbol lists, each a sub-range of its mapping.
pub open spec fn mappings_wf(ms: Seq<VmMappingV>) -> bool {
    &&& forall|i: int|
        0 <= i < ms.len() ==> (#[trigger] ms[i]).va.wf() && secs_sorted(ms[i].sections) && secs_wf(
            ms[i].sections,
        ) && secs_within(ms[i])
    &&& forall|i: int, j: int|
        0 <= i < j < ms.len() ==> (#[trigger] ms[i]).va.end < (#[trigger] ms[j]).va.start
}

/// What `spec_insert_mapping` yields: order is kept, every entry of the
/// result is the inserted mapping or one already present, and nothing is
/// lost.
pub proof fn lemma_insert_mapping_props(acc: Seq<VmMappingV>, m: VmMappingV)
    requires
        forall|x: int| 0 <= x < acc.len() ==> (#[trigger] acc[x]).va.wf(),
        forall|x: int, y: int|
            0 <= x < y < acc.len() ==> (#[trigger] acc[x]).va.end < (#[trigger] acc[y]).va.start,
        m.va.wf(),
    ensures
        spec_insert_mapping(acc, m) matches Some(r) ==> {
            &&& forall|x: int, y: int|
                0 <= x < y < r.len() ==> (#[trigger] r[x]).va.end < (#[trigger] r[y]).va.start
            &&& forall|y: int| 0 <= y < r.len() ==> (#[trigger] r[y]) == m || acc.contains(r[y])
            &&& forall|z: int|
                0 <= z < acc.len() ==> r.contains(#[trigger] acc[z])
            &&& r.contains(m)
        },
    decreases acc.len(),
{
    if acc.len() == 0 {
        if spec_insert_mapping(acc, m) is Some {
            let r = spec_insert_mapping(acc, m)->Some_0;
            assert(r =~= seq![m]);
            assert(r[0] == m);
        }
    } else {
        let h = acc[0];
        if m.va.spec_overlaps(h.va) {
        } else if m.va.start < h.va.start {
            let r = seq![m] + acc;
            assert(m.va.end < h.va.start);
            assert forall|y: int| 0 <= y < r.len() implies (#[trigger] r[y]) == m || acc.contains(
                r[y],
            ) by {
                if y > 0 {
                    assert(r[y] == acc[y - 1]);
                    assert(acc.contains(r[y]));
                }
            }
            assert forall|z: int| 0 <= z < acc.len() implies r.contains(#[trigger] acc[z]) by {
                assert(r[z + 1] == acc[z]);
            }
            assert(r[0] == m);
            assert(r.contains(m));
            assert forall|x: int, y: int| 0 <= x < y < r.len() implies (#[trigger] r[x]).va.end < (
            #[trigger] r[y]).va.start by {
                if x == 0 {
                    assert(r[y] == acc[y - 1]);
                    if y > 1 {
                        assert(acc[0].va.end < acc[y - 1].va.start);
                        assert(acc[0].va.start <= acc[0].va.end);
                    }
                } else {
                    assert(r[x] == acc[x - 1] && r[y] == acc[y - 1]);
                }
            }
        } else {
            assert(m.va.start > h.va.end);
            assert(forall|x: int|
                0 <= x < acc.skip(1).len() ==> (#[trigger] acc.skip(1)[x]) == acc[x + 1]);
            lemma_insert_mapping_props(acc.skip(1), m);
            if spec_insert_mapping(acc.skip(1), m) is Some {
                let rr = spec_insert_mapping(acc.skip(1), m)->Some_0;
                let r = seq![h] + rr;
                assert forall|y: int| 0 <= y < r.len() implies (#[trigger] r[y]) == m
                    || acc.contains(r[y]) by {
                    if y == 0 {
                        assert(acc[0] == r[0]);
                        assert(acc.contains(r[0]));
                    } else {
                        assert(r[y] == rr[y - 1]);
                        if rr[y - 1] == m {
                        } else {
                            assert(acc.skip(1).contains(rr[y - 1]));
                            let z = choose|z: int|
                                0 <= z < acc.skip(1).len() && acc.skip(1)[z] == rr[y - 1];
                            assert(acc[z + 1] == rr[y - 1]);
                            assert(acc.contains(r[y]));
                        }
                    }
                }
                assert forall|z: int| 0 <= z < acc.len() implies r.contains(#[trigger] acc[z]) by {
                    if z == 0 {
                        assert(r[0] == acc[0]);
                    } else {
                        assert(acc.skip(1)[z - 1] == acc[z]);
                        assert(rr.contains(acc.skip(1)[z - 1]));
                        let w = choose|w: int| 0 <= w < rr.len() && rr[w] == acc.skip(1)[z - 1];
                        assert(r[w + 1] == acc[z]);
                    }
                }
                assert(rr.contains(m));
                let w = choose|w: int| 0 <= w < rr.len() && rr[w] == m;
                assert(r[w + 1] == m);
                assert(r.contains(m));
                assert forall|x: int, y: int| 0 <= x < y < r.len() implies (#[trigger] r[x]).va.end
                    < (#[trigger] r[y]).va.start by {
                    if x == 0 {
                        assert(r[y] == rr[y - 1]);
                        if rr[y - 1] == m {
                        } else {
                            assert(acc.skip(1).contains(rr[y - 1]));
                            let z = choose|z: int|
                                0 <= z < acc.skip(1).len() && acc.skip(1)[z] == rr[y - 1];
                            assert(acc[z + 1] == rr[y - 1]);
                            assert(acc[0].va.end < acc[z + 1].va.start);
                        }
                    } else {
                        assert(r[x] == rr[x - 1] && r[y] == rr[y - 1]);
                    }
                }
            }
        }
    }
}

/// The inclusive range covered by one record's mapping.
pub open spec fn spec_record_range(rec: VmMapRecordV) -> VaRange {
    VaRange { start: rec.start, end: (rec.end - 1) as u64 }
}

/// A constructed mapping list is well formed, and holds a mapping for
/// every record, covering exactly the record's half-open range.
pub proof fn lemma_construct_props(records: Seq<VmMapRecordV>, entries: Seq<ElfCacheEntryV>)
    ensures
        spec_construct(records, entries) matches Ok(ms) ==> {
            &&& mappings_wf(ms)
            &&& forall|x: int|
                0 <= x < records.len() ==> exists|y: int|
                    0 <= y < ms.len() && (#[trigger] ms[y]).va == spec_record_range(
                        #[trigger] records[x],
                    )
        },
    decreases records.len(),
{
    if records.len() == 0 {
    } else {
        lemma_construct_props(records.drop_last(), entries);
        if spec_construct(records.drop_last(), entries) is Ok {
            let ms = spec_construct(records.drop_last(), entries)->Ok_0;
            let rec = records.last();
            lemma_build_mapping_props(rec, spec_record_elf(entries, rec));
            if spec_build_mapping(rec, spec_record_elf(entries, rec)) is Ok {
                let m = spec_build_mapping(rec, spec_record_elf(entries, rec))->Ok_0;
                lemma_insert_mapping_props(ms, m);
                if spec_insert_mapping(ms, m) is Some {
                    let r = spec_insert_mapping(ms, m)->Some_0;
                    assert forall|y: int| 0 <= y < r.len() implies (#[trigger] r[y]).va.wf()
                        && secs_sorted(r[y].sections) && secs_wf(r[y].sections) && secs_within(
                        r[y],
                    ) by {
                        if r[y] == m {
                        } else {
                            assert(ms.contains(r[y]));
                            let z = choose|z: int| 0 <= z < ms.len() && ms[z] == r[y];
                            assert(ms[z].va.wf());
                            assert(secs_within(ms[z]));
                        }
                    }
                    assert forall|x: int| 0 <= x < records.len() implies exists|y: int|
                        0 <= y < r.len() && (#[trigger] r[y]).va == spec_record_range(
                            #[trigger] records[x],
                        ) by {
                        if x < records.len() - 1 {
                            assert(records.drop_last()[x] == records[x]);
                            let y0 = choose|y0: int|
                                0 <= y0 < ms.len() && (#[trigger] ms[y0]).va == spec_record_range(
                                    records[x],
                                );
                            assert(r.contains(ms[y0]));
                            let y = choose|y: int| 0 <= y < r.len() && r[y] == ms[y0];
                            assert(r[y].va == spec_record_range(records[x]));
                        } else {
                            assert(r.contains(m));
                            let y = choose|y: int| 0 <= y < r.len() && r[y] == m;
                            assert(r[y].va == spec_record_range(records[x]));
                        }
                    }
                }
            }
        }
    }
}

/// A map of various properties of all virtual memory.
#[derive(Clone, Debug)]
pub struct VmMap {
    pub mappings: Vec<VmMapping>,
}

impl VmMap {
    /// The mapping list is sorted, non-overlapping and well formed.
    pub open spec fn wf(self) -> bool {
        mappings_wf(self.mappings.deep_view())
    }

    /// The mappings, sorted by start address.
    pub fn mappings(&self) -> (r: &Vec<VmMapping>)
        ensures
            r == &self.mappings,
    {
        &self.mappings
    }

    /// Builds the whole VM map from its records and the local-ELF index,
    /// exactly as `spec_construct` says. The result is sorted and
    /// non-overlapping; records that overlap are refused.
    #[verifier::loop_isolation(false)]
    pub fn construct(records: &Vec<VmMapRecord>, elfs: &Vec<ElfCacheEntry>) -> (r: Result<
        VmMap,
        VmMapError,
    >)
        ensures
            match r {
                Ok(m) => spec_construct(records.deep_view(), elfs.deep_view()) == Ok::<
                    Seq<VmMappingV>,
                    VmMapError,
                >(m.mappings.deep_view()) && m.wf(),
                Err(e) => spec_construct(records.deep_view(), elfs.deep_view()) == Err::<
                    Seq<VmMappingV>,
                    VmMapError,
                >(e),
            },
    {
        let ghost rv = records.deep_view();
        let ghost ev = elfs.deep_view();
        let mut mappings: Vec<VmMapping> = Vec::new();
        assert(rv.take(0) =~= Seq::<VmMapRecordV>::empty());
        assert(mappings.deep_view() =~= Seq::<VmMappingV>::empty());
        let n = records.len();
        let mut i: usize = 0;
        while i < n
            invariant
                i <= n,
                spec_construct(rv.take(i as int), ev) == Ok::<Seq<VmMappingV>, VmMapError>(
                    mappings.deep_view(),
                ),
            decreases n - i,
        {
            let rec = &records[i];
            proof {
                assert(rv[i as int] == records@[i as int].deep_view());
                assert(rv.take(i + 1).drop_last() =~= rv.take(i as int));
                assert(rv.take(i + 1).last() == rv[i as int]);
            }
            let local: Option<&LocalMorelloElfFile> = match rec.path {
                None => None,
                Some(ref p) => match cache_lookup(elfs, p) {
                    None => None,
                    Some(e) => match e {
                        None => None,
                        Some(f) => Some(f),
                    },
                },
            };
            assert(spec_local_view(local) == spec_record_elf(ev, rv[i as int]));
            let m = match build_mapping(rec, local) {
                Ok(m) => m,
                Err(e) => {
                    proof {
                        lemma_construct_err(rv, ev, i + 1);
                    }
                    return Err(VmMapError::Record(e));
                },
            };
            let ghost ms0 = mappings.deep_view();
            let ok = insert_mapping(&mut mappings, m);
            if !ok {
                proof {
                    lemma_construct_err(rv, ev, i + 1);
                }
                return Err(VmMapError::MappingOverlap);
            }
            i = i + 1;
        }
        proof {
            assert(rv.take(n as int) =~= rv);
            lemma_construct_props(rv, ev);
        }
        Ok(VmMap { mappings })
    }
}

pub proof fn lemma_construct_err(records: Seq<VmMapRecordV>, entries: Seq<ElfCacheEntryV>, k: int)
    requires
        0 <= k <= records.len(),
        spec_construct(records.take(k), entries) is Err,
    ensures
        spec_construct(records, entries) == spec_construct(records.take(k), entries),
    decreases records.len() - k,
{
    if k < records.len() {
        assert(records.take(k + 1).drop_last() =~= records.take(k));
        lemma_construct_err(records, entries, k + 1);
    } else {
        assert(records.take(k) =~= records);
    }
}

/// Places one mapping into a sorted list, as `spec_insert_mapping` says;
/// `false` reports an overlap, leaving the list as it was.
#[verifier::loop_isolation(false)]
fn insert_mapping(list: &mut Vec<VmMapping>, m: VmMapping) -> (ok: bool)
    ensures
        match spec_insert_mapping(old(list).deep_view(), m.deep_view()) {
            None => !ok && final(list).deep_view() == old(list).deep_view(),
            Some(ns) => ok && final(list).deep_view() == ns,
        },
{
    let ghost l0 = list.deep_view();
    let ghost mv = m.deep_view();
    proof {
        assert(l0.skip(0) =~= l0);
        assert(l0.take(0) =~= Seq::<VmMappingV>::empty());
        if spec_insert_mapping(l0, mv) is Some {
            assert(l0.take(0) + spec_insert_mapping(l0, mv)->Some_0 =~= spec_insert_mapping(
                l0,
                mv,
            )->Some_0);
        }
    }
    let mut i: usize = 0;
    while i < list.len()
        invariant
            i <= list@.len(),
            list.deep_view() == l0,
            l0.len() == list@.len(),
            spec_insert_mapping(l0, mv) == crate::mapping::opt_prepend(
                l0.take(i as int),
                spec_insert_mapping(l0.skip(i as int), mv),
            ),
        decreases list@.len() - i,
    {
        let h_start = list[i].va.start;
        let h_end = list[i].va.end;
        proof {
            assert(l0[i as int] == list@[i as int].deep_view());
            assert(l0.skip(i as int)[0] == l0[i as int]);
        }
        if m.va.start <= h_end && h_start <= m.va.end {
            proof {
                assert(spec_insert_mapping(l0.skip(i as int), mv) is None);
            }
            return false;
        } else if m.va.start < h_start {
            list.insert(i, m);
            proof {
                assert(spec_insert_mapping(l0.skip(i as int), mv) == Some(
                    seq![mv] + l0.skip(i as int),
                ));
                assert(list.deep_view() =~= l0.take(i as int) + (seq![mv] + l0.skip(i as int)));
            }
            return true;
        }
        proof {
            let rest = spec_insert_mapping(l0.skip(i + 1), mv);
            assert(l0.skip(i as int).skip(1) =~= l0.skip(i + 1));
            assert(spec_insert_mapping(l0.skip(i as int), mv) == crate::mapping::opt_prepend(
                seq![l0[i as int]],
                rest,
            ));
            if rest is Some {
                assert(l0.take(i as int) + (seq![l0[i as int]] + rest->Some_0) =~= l0.take(i + 1)
                    + rest->Some_0);
            }
        }
        i = i + 1;
    }
    proof {
        assert(l0.skip(i as int) =~= Seq::<VmMappingV>::empty());
        assert(spec_insert_mapping(l0.skip(i as int), mv) == Some(seq![mv]));
        assert(l0.take(i as int) =~= l0);
    }
    list.push(m);
    proof {
        assert(list.deep_view() =~= l0 + seq![mv]);
        assert(l0 + seq![mv] =~= l0.take(i as int) + seq![mv]);
    }
    true
}

/// Inserting a mapping that overlaps one already present is refused.
pub proof fn lemma_insert_mapping_overlapping(acc: Seq<VmMappingV>, m: VmMappingV, y: int)
    requires
        forall|x: int| 0 <= x < acc.len() ==> (#[trigger] acc[x]).va.wf(),
        forall|x: int, z: int|
            0 <= x < z < acc.len() ==> (#[trigger] acc[x]).va.end < (#[trigger] acc[z]).va.start,
        0 <= y < acc.len(),
        m.va.spec_overlaps(acc[y].va),
    ensures
        spec_insert_mapping(acc, m) is None,
    decreases acc.len(),
{
    let h = acc[0];
    if m.va.spec_overlaps(h.va) {
    } else if m.va.start < h.va.start {
        assert(h.va.start > m.va.end);
        if y > 0 {
            assert(acc[0].va.end < acc[y].va.start);
            assert(acc[y].va.start > m.va.end);
            assert(!m.va.spec_overlaps(acc[y].va));
        }
        assert(false);
    } else {
        assert(m.va.start > h.va.end);
        assert(y >= 1);
        assert(forall|x: int|
            0 <= x < acc.skip(1).len() ==> (#[trigger] acc.skip(1)[x]) == acc[x + 1]);
        lemma_insert_mapping_overlapping(acc.skip(1), m, y - 1);
    }
}

/// Two records whose half-open ranges overlap can never construct: the VM
/// map's mappings are real hardware allocations and must not overlap.
pub proof fn lemma_overlapping_records_fail(
    records: Seq<VmMapRecordV>,
    entries: Seq<ElfCacheEntryV>,
    a: int,
    b: int,
)
    requires
        0 <= a < b < records.len(),
        records[a].end > records[a].start,
        records[b].end > records[b].start,
        records[a].start < records[b].end,
        records[b].start < records[a].end,
    ensures
        spec_construct(records, entries) is Err,
    decreases records.len(),
{
    if b == records.len() - 1 {
        if spec_construct(records.drop_last(), entries) is Ok {
            let ms = spec_construct(records.drop_last(), entries)->Ok_0;
            lemma_construct_props(records.drop_last(), entries);
            assert(records.drop_last()[a] == records[a]);
            let y = choose|y: int|
                0 <= y < ms.len() && (#[trigger] ms[y]).va == spec_record_range(
                    records.drop_last()[a],
                );
            let rec = records.last();
            lemma_build_mapping_props(rec, spec_record_elf(entries, rec));
            if spec_build_mapping(rec, spec_record_elf(entries, rec)) is Ok {
                let m = spec_build_mapping(rec, spec_record_elf(entries, rec))->Ok_0;
                assert(m.va.spec_overlaps(ms[y].va));
                lemma_insert_mapping_overlapping(ms, m, y);
            }
        }
    } else {
        assert(records.drop_last()[a] == records[a]);
        assert(records.drop_last()[b] == records[b]);
        lemma_overlapping_records_fail(records.drop_last(), entries, a, b);
    }
}

} // verus!
