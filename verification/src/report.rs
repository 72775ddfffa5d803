//! Collation of the instruction counts into a report: entries grouped by
//! target binary, ranked within each binary by descending count, with the
//! unresolved-symbol and unresolved-section buckets kept apart.

use vstd::prelude::*;
use crate::mapping::{VmMappingV, VmSectionMappingV};
use crate::vmmap::VmMap;
use crate::counts::{InsnCount, InsnCountV, MappingCountsV, SectionCountsV, counts_shape};
use crate::bytes::bytes_eq;

verus! {

/// One ranked symbol: its name, its section's name, and its count.
#[derive(Clone, Debug)]
pub struct SymbolCountEntry {
    pub name: Vec<u8>,
    pub section_name: Vec<u8>,
    pub count: u64,
}

/// The mathematical value of a `SymbolCountEntry`.
pub struct SymbolCountEntryV {
    pub name: Seq<u8>,
    pub section_name: Seq<u8>,
    pub count: u64,
}

impl DeepView for SymbolCountEntry {
    type V = SymbolCountEntryV;

    open spec fn deep_view(&self) -> SymbolCountEntryV {
        SymbolCountEntryV {
            name: self.name@,
            section_name: self.section_name@,
            count: self.count,
        }
    }
}

/// One section whose addresses matched no symbol, with its count.
#[derive(Clone, Debug)]
pub struct SectionUnknownEntry {
    pub section_name: Vec<u8>,
    pub count: u64,
}

/// The mathematical value of a `SectionUnknownEntry`.
pub struct SectionUnknownEntryV {
    pub section_name: Seq<u8>,
    pub count: u64,
}

impl DeepView for SectionUnknownEntry {
    type V = SectionUnknownEntryV;

    open spec fn deep_view(&self) -> SectionUnknownEntryV {
        SectionUnknownEntryV { section_name: self.section_name@, count: self.count }
    }
}

/// The report of one target binary (or of anonymous memory): the binary's
/// total instruction count, its symbols ranked by descending count, then
/// the per-section unresolved-symbol buckets, then the unresolved-section
/// buckets of its mappings.
#[derive(Clone, Debug)]
pub struct FileReport {
    pub path: Option<Vec<u8>>,
    pub total: u64,
    pub symbols: Vec<SymbolCountEntry>,
    pub unknown_sections: Vec<SectionUnknownEntry>,
    pub unknown: Vec<u64>,
}

/// The mathematical value of a `FileReport`.
pub struct FileReportV {
    pub path: Option<Seq<u8>>,
    pub total: u64,
    pub symbols: Seq<SymbolCountEntryV>,
    pub unknown_sections: Seq<SectionUnknownEntryV>,
    pub unknown: Seq<u64>,
}

impl DeepView for FileReport {
    type V = FileReportV;

    open spec fn deep_view(&self) -> FileReportV {
        FileReportV {
            path: match self.path {
                Some(ref p) => Some(p@),
                None => None,
            },
            total: self.total,
            symbols: self.symbols.deep_view(),
            unknown_sections: self.unknown_sections.deep_view(),
            unknown: self.unknown.deep_view(),
        }
    }
}

/// The whole report: one entry per distinct target binary, ranked by
/// descending total (ties keep the order of first appearance), plus the
/// unknown-mapping bucket and the grand total.
#[derive(Clone, Debug)]
pub struct Report {
    pub files: Vec<FileReport>,
    pub unknown_mapping: u64,
    pub total: u64,
}

/// The mathematical value of a `Report`.
pub struct ReportV {
    pub files: Seq<FileReportV>,
    pub unknown_mapping: u64,
    pub total: u64,
}

impl DeepView for Report {
    type V = ReportV;

    open spec fn deep_view(&self) -> ReportV {
        ReportV {
            files: self.files.deep_view(),
            unknown_mapping: self.unknown_mapping,
            total: self.total,
        }
    }
}

/// The symbol entries of one section's first `k` counters, in symbol
/// order, zero counts left out.
pub open spec fn spec_section_sym_entries(
    sec: VmSectionMappingV,
    sc: SectionCountsV,
    k: int,
) -> Seq<SymbolCountEntryV>
    decreases k,
{
    if k <= 0 {
        Seq::empty()
    } else {
        let rest = spec_section_sym_entries(sec, sc, k - 1);
        if k - 1 < sec.symbols.len() && k - 1 < sc.symbols.len() && sc.symbols[k - 1] > 0 {
            rest.push(
                SymbolCountEntryV {
                    name: sec.symbols[k - 1].name,
                    section_name: sec.name,
                    count: sc.symbols[k - 1],
                },
            )
        } else {
            rest
        }
    }
}

/// The symbol entries of one mapping's first `j` sections.
pub open spec fn spec_mapping_sym_entries(m: VmMappingV, mc: MappingCountsV, j: int) -> Seq<
    SymbolCountEntryV,
>
    decreases j,
{
    if j <= 0 {
        Seq::empty()
    } else {
        let rest = spec_mapping_sym_entries(m, mc, j - 1);
        if j - 1 < m.sections.len() && j - 1 < mc.sections.len() {
            rest + spec_section_sym_entries(
                m.sections[j - 1],
                mc.sections[j - 1],
                mc.sections[j - 1].symbols.len() as int,
            )
        } else {
            rest
        }
    }
}

/// The unresolved-symbol buckets of one mapping's first `j` sections, zero
/// counts left out.
pub open spec fn spec_mapping_unk_entries(m: VmMappingV, mc: MappingCountsV, j: int) -> Seq<
    SectionUnknownEntryV,
>
    decreases j,
{
    if j <= 0 {
        Seq::empty()
    } else {
        let rest = spec_mapping_unk_entries(m, mc, j - 1);
        if j - 1 < m.sections.len() && j - 1 < mc.sections.len() && mc.sections[j
            - 1].unknown_symbol > 0 {
            rest.push(
                SectionUnknownEntryV {
                    section_name: m.sections[j - 1].name,
                    count: mc.sections[j - 1].unknown_symbol,
                },
            )
        } else {
            rest
        }
    }
}

/// The symbol entries of every mapping among the first `i` whose target
/// path is `key`.
pub open spec fn spec_path_sym_entries(
    ms: Seq<VmMappingV>,
    cs: Seq<MappingCountsV>,
    key: Option<Seq<u8>>,
    i: int,
) -> Seq<SymbolCountEntryV>
    decreases i,
{
    if i <= 0 {
        Seq::empty()
    } else {
        let rest = spec_path_sym_entries(ms, cs, key, i - 1);
        if i - 1 < ms.len() && i - 1 < cs.len() && ms[i - 1].target_path == key {
            rest + spec_mapping_sym_entries(ms[i - 1], cs[i - 1], cs[i - 1].sections.len() as int)
        } else {
            rest
        }
    }
}

/// The unresolved-symbol buckets of every mapping among the first `i`
/// whose target path is `key`.
pub open spec fn spec_path_unk_entries(
    ms: Seq<VmMappingV>,
    cs: Seq<MappingCountsV>,
    key: Option<Seq<u8>>,
    i: int,
) -> Seq<SectionUnknownEntryV>
    decreases i,
{
    if i <= 0 {
        Seq::empty()
    } else {
        let rest = spec_path_unk_entries(ms, cs, key, i - 1);
        if i - 1 < ms.len() && i - 1 < cs.len() && ms[i - 1].target_path == key {
            rest + spec_mapping_unk_entries(ms[i - 1], cs[i - 1], cs[i - 1].sections.len() as int)
        } else {
            rest
        }
    }
}

/// The unresolved-section buckets of every mapping among the first `i`
/// whose target path is `key`, zero counts left out.
pub open spec fn spec_path_unknowns(
    ms: Seq<VmMappingV>,
    cs: Seq<MappingCountsV>,
    key: Option<Seq<u8>>,
    i: int,
) -> Seq<u64>
    decreases i,
{
    if i <= 0 {
        Seq::empty()
    } else {
        let rest = spec_path_unknowns(ms, cs, key, i - 1);
        if i - 1 < ms.len() && i - 1 < cs.len() && ms[i - 1].target_path == key && cs[i
            - 1].unknown_section > 0 {
            rest.push(cs[i - 1].unknown_section)
        } else {
            rest
        }
    }
}

/// The sum of the counts of a list of symbol entries.
pub open spec fn sum_sym_counts(es: Seq<SymbolCountEntryV>) -> int
    decreases es.len(),
{
    if es.len() == 0 {
        0
    } else {
        sum_sym_counts(es.drop_last()) + es.last().count
    }
}

/// The sum of the counts of a list of unresolved-symbol buckets.
pub open spec fn sum_unk_counts(es: Seq<SectionUnknownEntryV>) -> int
    decreases es.len(),
{
    if es.len() == 0 {
        0
    } else {
        sum_unk_counts(es.drop_last()) + es.last().count
    }
}

/// A sum held to the 64-bit limit. The aggregate's own invariant keeps
/// every such sum at or below the running total, so the cap is never
/// reached in a well-formed aggregate.
pub open spec fn cap_u64(v: int) -> u64 {
    if v > u64::MAX {
        u64::MAX
    } else if v < 0 {
        0
    } else {
        v as u64
    }
}

/// The total instruction count of one target binary: every bucket of every
/// mapping with that path.
pub open spec fn spec_file_total(
    ms: Seq<VmMappingV>,
    cs: Seq<MappingCountsV>,
    key: Option<Seq<u8>>,
) -> u64 {
    cap_u64(
        sum_sym_counts(spec_path_sym_entries(ms, cs, key, ms.len() as int)) + sum_unk_counts(
            spec_path_unk_entries(ms, cs, key, ms.len() as int),
        ) + crate::counts::sum_symbols(spec_path_unknowns(ms, cs, key, ms.len() as int)),
    )
}

/// Placing one symbol entry after every entry with an equal or higher
/// count: ranking is descending, ties keep their earlier order.
pub open spec fn spec_insert_sym_desc(acc: Seq<SymbolCountEntryV>, e: SymbolCountEntryV) -> Seq<
    SymbolCountEntryV,
>
    decreases acc.len(),
{
    if acc.len() == 0 {
        seq![e]
    } else if acc[0].count >= e.count {
        seq![acc[0]] + spec_insert_sym_desc(acc.skip(1), e)
    } else {
        seq![e] + acc
    }
}

/// The symbol entries ranked by descending count.
pub open spec fn spec_sort_sym_desc(es: Seq<SymbolCountEntryV>) -> Seq<SymbolCountEntryV>
    decreases es.len(),
{
    if es.len() == 0 {
        Seq::empty()
    } else {
        spec_insert_sym_desc(spec_sort_sym_desc(es.drop_last()), es.last())
    }
}

/// As `spec_insert_sym_desc`, for unresolved-symbol buckets.
pub open spec fn spec_insert_unk_desc(
    acc: Seq<SectionUnknownEntryV>,
    e: SectionUnknownEntryV,
) -> Seq<SectionUnknownEntryV>
    decreases acc.len(),
{
    if acc.len() == 0 {
        seq![e]
    } else if acc[0].count >= e.count {
        seq![acc[0]] + spec_insert_unk_desc(acc.skip(1), e)
    } else {
        seq![e] + acc
    }
}

/// The unresolved-symbol buckets ranked by descending count.
pub open spec fn spec_sort_unk_desc(es: Seq<SectionUnknownEntryV>) -> Seq<SectionUnknownEntryV>
    decreases es.len(),
{
    if es.len() == 0 {
        Seq::empty()
    } else {
        spec_insert_unk_desc(spec_sort_unk_desc(es.drop_last()), es.last())
    }
}

/// Whether `key` is the target path of one of the first `k` mappings.
pub open spec fn spec_path_in(ms: Seq<VmMappingV>, k: int, key: Option<Seq<u8>>) -> bool
    decreases k,
{
    if k <= 0 {
        false
    } else {
        ms[k - 1].target_path == key || spec_path_in(ms, k - 1, key)
    }
}

/// The per-binary reports of the first `i` mappings, in order of first
/// appearance of each target path.
pub open spec fn spec_report_files(ms: Seq<VmMappingV>, cs: Seq<MappingCountsV>, i: int) -> Seq<
    FileReportV,
>
    decreases i,
{
    if i <= 0 {
        Seq::empty()
    } else {
        let prev = spec_report_files(ms, cs, i - 1);
        let key = ms[i - 1].target_path;
        if spec_path_in(ms, i - 1, key) {
            prev
        } else {
            prev.push(
                FileReportV {
                    path: key,
                    total: spec_file_total(ms, cs, key),
                    symbols: spec_sort_sym_desc(
                        spec_path_sym_entries(ms, cs, key, ms.len() as int),
                    ),
                    unknown_sections: spec_sort_unk_desc(
                        spec_path_unk_entries(ms, cs, key, ms.len() as int),
                    ),
                    unknown: spec_path_unknowns(ms, cs, key, ms.len() as int),
                },
            )
        }
    }
}

/// Placing one binary's report after every report with an equal or higher
/// total: binaries are ranked by descending total, ties keeping their
/// order of first appearance.
pub open spec fn spec_insert_file_desc(acc: Seq<FileReportV>, f: FileReportV) -> Seq<FileReportV>
    decreases acc.len(),
{
    if acc.len() == 0 {
        seq![f]
    } else if acc[0].total >= f.total {
        seq![acc[0]] + spec_insert_file_desc(acc.skip(1), f)
    } else {
        seq![f] + acc
    }
}

/// The per-binary reports ranked by descending total.
pub open spec fn spec_sort_files_desc(fs: Seq<FileReportV>) -> Seq<FileReportV>
    decreases fs.len(),
{
    if fs.len() == 0 {
        Seq::empty()
    } else {
        spec_insert_file_desc(spec_sort_files_desc(fs.drop_last()), fs.last())
    }
}

/// The whole report of one aggregate against its map.
pub open spec fn spec_report(ms: Seq<VmMappingV>, c: InsnCountV) -> ReportV {
    ReportV {
        files: spec_sort_files_desc(spec_report_files(ms, c.counts, ms.len() as int)),
        unknown_mapping: c.unknown_mapping,
        total: c.total,
    }
}

pub proof fn lemma_path_in_mono(ms: Seq<VmMappingV>, k: int, k2: int, key: Option<Seq<u8>>)
    requires
        0 <= k <= k2,
        spec_path_in(ms, k, key),
    ensures
        spec_path_in(ms, k2, key),
    decreases k2 - k,
{
    if k < k2 {
        lemma_path_in_mono(ms, k, k2 - 1, key);
    }
}

/// Equality of two optional paths.
fn opt_path_eq(a: &Option<Vec<u8>>, b: &Option<Vec<u8>>) -> (r: bool)
    ensures
        r == ({
            let av: Option<Seq<u8>> = match a {
                Some(p) => Some(p@),
                None => None,
            };
            let bv: Option<Seq<u8>> = match b {
                Some(p) => Some(p@),
                None => None,
            };
            av == bv
        }),
{
    match (a, b) {
        (None, None) => true,
        (Some(x), Some(y)) => bytes_eq(x.as_slice(), y.as_slice()),
        _ => false,
    }
}

/// Places one symbol entry, as `spec_insert_sym_desc` says.
#[verifier::loop_isolation(false)]
fn insert_sym_desc(list: &mut Vec<SymbolCountEntry>, e: SymbolCountEntry)
    ensures
        final(list).deep_view() == spec_insert_sym_desc(old(list).deep_view(), e.deep_view()),
{
    let ghost l0 = list.deep_view();
    let ghost ev = e.deep_view();
    proof {
        assert(l0.skip(0) =~= l0);
        assert(l0.take(0) =~= Seq::<SymbolCountEntryV>::empty());
        assert(l0.take(0) + spec_insert_sym_desc(l0, ev) =~= spec_insert_sym_desc(l0, ev));
    }
    let mut i: usize = 0;
    while i < list.len() && list[i].count >= e.count
        invariant
            i <= list@.len(),
            list.deep_view() == l0,
            l0.len() == list@.len(),
            spec_insert_sym_desc(l0, ev) == l0.take(i as int) + spec_insert_sym_desc(
                l0.skip(i as int),
                ev,
            ),
        decreases list@.len() - i,
    {
        proof {
            assert(l0[i as int] == list@[i as int].deep_view());
            assert(l0.skip(i as int)[0] == l0[i as int]);
            assert(l0.skip(i as int).skip(1) =~= l0.skip(i + 1));
            assert(l0.take(i as int) + (seq![l0[i as int]] + spec_insert_sym_desc(
                l0.skip(i + 1),
                ev,
            )) =~= l0.take(i + 1) + spec_insert_sym_desc(l0.skip(i + 1), ev));
        }
        i = i + 1;
    }
    proof {
        if i < list@.len() {
            assert(l0[i as int] == list@[i as int].deep_view());
            assert(l0.skip(i as int)[0] == l0[i as int]);
            assert(spec_insert_sym_desc(l0.skip(i as int), ev) == seq![ev] + l0.skip(i as int));
        } else {
            assert(l0.skip(i as int) =~= Seq::<SymbolCountEntryV>::empty());
            assert(spec_insert_sym_desc(l0.skip(i as int), ev) == seq![ev]);
        }
    }
    list.insert(i, e);
    proof {
        assert(list.deep_view() =~= l0.take(i as int) + (seq![ev] + l0.skip(i as int)));
    }
}

/// Places one unresolved-symbol bucket, as `spec_insert_unk_desc` says.
#[verifier::loop_isolation(false)]
fn insert_unk_desc(list: &mut Vec<SectionUnknownEntry>, e: SectionUnknownEntry)
    ensures
        final(list).deep_view() == spec_insert_unk_desc(old(list).deep_view(), e.deep_view()),
{
    let ghost l0 = list.deep_view();
    let ghost ev = e.deep_view();
    proof {
        assert(l0.skip(0) =~= l0);
        assert(l0.take(0) =~= Seq::<SectionUnknownEntryV>::empty());
        assert(l0.take(0) + spec_insert_unk_desc(l0, ev) =~= spec_insert_unk_desc(l0, ev));
    }
    let mut i: usize = 0;
    while i < list.len() && list[i].count >= e.count
        invariant
            i <= list@.len(),
            list.deep_view() == l0,
            l0.len() == list@.len(),
            spec_insert_unk_desc(l0, ev) == l0.take(i as int) + spec_insert_unk_desc(
                l0.skip(i as int),
                ev,
            ),
        decreases list@.len() - i,
    {
        proof {
            assert(l0[i as int] == list@[i as int].deep_view());
            assert(l0.skip(i as int)[0] == l0[i as int]);
            assert(l0.skip(i as int).skip(1) =~= l0.skip(i + 1));
            assert(l0.take(i as int) + (seq![l0[i as int]] + spec_insert_unk_desc(
                l0.skip(i + 1),
                ev,
            )) =~= l0.take(i + 1) + spec_insert_unk_desc(l0.skip(i + 1), ev));
        }
        i = i + 1;
    }
    proof {
        if i < list@.len() {
            assert(l0[i as int] == list@[i as int].deep_view());
            assert(l0.skip(i as int)[0] == l0[i as int]);
            assert(spec_insert_unk_desc(l0.skip(i as int), ev) == seq![ev] + l0.skip(i as int));
        } else {
            assert(l0.skip(i as int) =~= Seq::<SectionUnknownEntryV>::empty());
            assert(spec_insert_unk_desc(l0.skip(i as int), ev) == seq![ev]);
        }
    }
    list.insert(i, e);
    proof {
        assert(list.deep_view() =~= l0.take(i as int) + (seq![ev] + l0.skip(i as int)));
    }
}

/// Sums one binary's buckets, held to the 64-bit limit as
/// `spec_file_total`'s cap says.
#[verifier::loop_isolation(false)]
fn file_total_of(
    syms: &Vec<SymbolCountEntry>,
    unks: &Vec<SectionUnknownEntry>,
    unknown: &Vec<u64>,
) -> (r: u64)
    ensures
        r == cap_u64(
            sum_sym_counts(syms.deep_view()) + sum_unk_counts(unks.deep_view())
                + crate::counts::sum_symbols(unknown@),
        ),
{
    let ghost sv = syms.deep_view();
    let ghost uv = unks.deep_view();
    let ghost wv = unknown@;
    let mut t: u64 = 0;
    let ghost mut partial: int = 0;
    proof {
        assert(sv.take(0) =~= Seq::<SymbolCountEntryV>::empty());
    }
    let mut i: usize = 0;
    while i < syms.len()
        invariant
            i <= sv.len(),
            0 <= partial,
            partial == sum_sym_counts(sv.take(i as int)),
            t == cap_u64(partial),
        decreases sv.len() - i,
    {
        let e = syms[i].count;
        proof {
            assert(sv[i as int] == syms@[i as int].deep_view());
            assert(sv.take(i + 1).drop_last() =~= sv.take(i as int));
            assert(sv.take(i + 1).last() == sv[i as int]);
            partial = partial + e;
        }
        t = if t > u64::MAX - e {
            u64::MAX
        } else {
            t + e
        };
        i = i + 1;
    }
    proof {
        assert(sv.take(sv.len() as int) =~= sv);
        assert(uv.take(0) =~= Seq::<SectionUnknownEntryV>::empty());
    }
    let mut j: usize = 0;
    while j < unks.len()
        invariant
            j <= uv.len(),
            0 <= partial,
            partial == sum_sym_counts(sv) + sum_unk_counts(uv.take(j as int)),
            t == cap_u64(partial),
        decreases uv.len() - j,
    {
        let e = unks[j].count;
        proof {
            assert(uv[j as int] == unks@[j as int].deep_view());
            assert(uv.take(j + 1).drop_last() =~= uv.take(j as int));
            assert(uv.take(j + 1).last() == uv[j as int]);
            partial = partial + e;
        }
        t = if t > u64::MAX - e {
            u64::MAX
        } else {
            t + e
        };
        j = j + 1;
    }
    proof {
        assert(uv.take(uv.len() as int) =~= uv);
        assert(wv.take(0) =~= Seq::<u64>::empty());
    }
    let mut k: usize = 0;
    while k < unknown.len()
        invariant
            k <= wv.len(),
            0 <= partial,
            partial == sum_sym_counts(sv) + sum_unk_counts(uv) + crate::counts::sum_symbols(
                wv.take(k as int),
            ),
            t == cap_u64(partial),
        decreases wv.len() - k,
    {
        let e = unknown[k];
        proof {
            assert(wv.take(k + 1).drop_last() =~= wv.take(k as int));
            assert(wv.take(k + 1).last() == wv[k as int]);
            partial = partial + e;
        }
        t = if t > u64::MAX - e {
            u64::MAX
        } else {
            t + e
        };
        k = k + 1;
    }
    proof {
        assert(wv.take(wv.len() as int) =~= wv);
    }
    t
}

/// Places one binary's report, as `spec_insert_file_desc` says.
#[verifier::loop_isolation(false)]
fn insert_file_desc(list: &mut Vec<FileReport>, f: FileReport)
    ensures
        final(list).deep_view() == spec_insert_file_desc(old(list).deep_view(), f.deep_view()),
{
    let ghost l0 = list.deep_view();
    let ghost fv = f.deep_view();
    proof {
        assert(l0.skip(0) =~= l0);
        assert(l0.take(0) =~= Seq::<FileReportV>::empty());
        assert(l0.take(0) + spec_insert_file_desc(l0, fv) =~= spec_insert_file_desc(l0, fv));
    }
    let mut i: usize = 0;
    while i < list.len() && list[i].total >= f.total
        invariant
            i <= list@.len(),
            list.deep_view() == l0,
            l0.len() == list@.len(),
            spec_insert_file_desc(l0, fv) == l0.take(i as int) + spec_insert_file_desc(
                l0.skip(i as int),
                fv,
            ),
        decreases list@.len() - i,
    {
        proof {
            assert(l0[i as int] == list@[i as int].deep_view());
            assert(l0.skip(i as int)[0] == l0[i as int]);
            assert(l0.skip(i as int).skip(1) =~= l0.skip(i + 1));
            assert(l0.take(i as int) + (seq![l0[i as int]] + spec_insert_file_desc(
                l0.skip(i + 1),
                fv,
            )) =~= l0.take(i + 1) + spec_insert_file_desc(l0.skip(i + 1), fv));
        }
        i = i + 1;
    }
    proof {
        if i < list@.len() {
            assert(l0[i as int] == list@[i as int].deep_view());
            assert(l0.skip(i as int)[0] == l0[i as int]);
            assert(spec_insert_file_desc(l0.skip(i as int), fv) == seq![fv] + l0.skip(i as int));
        } else {
            assert(l0.skip(i as int) =~= Seq::<FileReportV>::empty());
            assert(spec_insert_file_desc(l0.skip(i as int), fv) == seq![fv]);
        }
    }
    list.insert(i, f);
    proof {
        assert(list.deep_view() =~= l0.take(i as int) + (seq![fv] + l0.skip(i as int)));
    }
}

impl InsnCount {
    /// Collates the aggregate into its report, as `spec_report` says: one
    /// group per distinct target binary, ranked by descending total (ties
    /// keep the order of first appearance), the symbols of each ranked by
    /// descending count likewise, then the per-section and per-mapping
    /// unresolved buckets.
    #[verifier::loop_isolation(false)]
    #[verifier::rlimit(100)]
    pub fn report(&self, map: &VmMap) -> (r: Report)
        requires
            counts_shape(self.deep_view(), map.mappings.deep_view()),
        ensures
            r.deep_view() == spec_report(map.mappings.deep_view(), self.deep_view()),
    {
        let ghost ms = map.mappings.deep_view();
        let ghost cs = self.deep_view().counts;
        let n = map.mappings.len();
        let mut files: Vec<FileReport> = Vec::new();
        proof {
            assert(files.deep_view() =~= Seq::<FileReportV>::empty());
        }
        let mut i: usize = 0;
        while i < n
            invariant
                i <= n,
                files.deep_view() == spec_report_files(ms, cs, i as int),
            decreases n - i,
        {
            proof {
                assert(ms[i as int] == map.mappings@[i as int].deep_view());
            }
            let key = &map.mappings[i].target_path;
            let ghost keyv = ms[i as int].target_path;
            let mut seen = false;
            let mut j2: usize = 0;
            while !seen && j2 < i
                invariant
                    j2 <= i,
                    seen ==> spec_path_in(ms, i as int, keyv),
                    !seen ==> !spec_path_in(ms, j2 as int, keyv),
                decreases i - j2 + (if seen { 0int } else { 1int }),
            {
                proof {
                    assert(ms[j2 as int] == map.mappings@[j2 as int].deep_view());
                }
                if opt_path_eq(&map.mappings[j2].target_path, key) {
                    proof {
                        assert(spec_path_in(ms, j2 + 1, keyv));
                        lemma_path_in_mono(ms, j2 + 1, i as int, keyv);
                    }
                    seen = true;
                } else {
                    j2 = j2 + 1;
                }
            }
            if !seen {
                let mut syms_un: Vec<SymbolCountEntry> = Vec::new();
                let mut unks_un: Vec<SectionUnknownEntry> = Vec::new();
                let mut unknown: Vec<u64> = Vec::new();
                proof {
                    assert(syms_un.deep_view() =~= Seq::<SymbolCountEntryV>::empty());
                    assert(unks_un.deep_view() =~= Seq::<SectionUnknownEntryV>::empty());
                    assert(unknown.deep_view() =~= Seq::<u64>::empty());
                }
                let mut i2: usize = 0;
                while i2 < n
                    invariant
                        i2 <= n,
                        syms_un.deep_view() == spec_path_sym_entries(ms, cs, keyv, i2 as int),
                        unks_un.deep_view() == spec_path_unk_entries(ms, cs, keyv, i2 as int),
                        unknown.deep_view() == spec_path_unknowns(ms, cs, keyv, i2 as int),
                    decreases n - i2,
                {
                    proof {
                        assert(ms[i2 as int] == map.mappings@[i2 as int].deep_view());
                        assert(cs[i2 as int] == self.counts@[i2 as int].deep_view());
                    }
                    if opt_path_eq(&map.mappings[i2].target_path, key) {
                        let mm = &map.mappings[i2];
                        let mc = &self.counts[i2];
                        let nsec = mc.sections.len();
                        proof {
                            assert(spec_mapping_sym_entries(ms[i2 as int], cs[i2 as int], 0)
                                =~= Seq::<SymbolCountEntryV>::empty());
                            assert(spec_mapping_unk_entries(ms[i2 as int], cs[i2 as int], 0)
                                =~= Seq::<SectionUnknownEntryV>::empty());
                            assert(syms_un.deep_view() =~= spec_path_sym_entries(
                                ms,
                                cs,
                                keyv,
                                i2 as int,
                            ) + spec_mapping_sym_entries(ms[i2 as int], cs[i2 as int], 0));
                            assert(unks_un.deep_view() =~= spec_path_unk_entries(
                                ms,
                                cs,
                                keyv,
                                i2 as int,
                            ) + spec_mapping_unk_entries(ms[i2 as int], cs[i2 as int], 0));
                        }
                        let mut j: usize = 0;
                        while j < nsec
                            invariant
                                j <= nsec,
                                syms_un.deep_view() == spec_path_sym_entries(ms, cs, keyv, i2 as int)
                                    + spec_mapping_sym_entries(
                                    ms[i2 as int],
                                    cs[i2 as int],
                                    j as int,
                                ),
                                unks_un.deep_view() == spec_path_unk_entries(ms, cs, keyv, i2 as int)
                                    + spec_mapping_unk_entries(
                                    ms[i2 as int],
                                    cs[i2 as int],
                                    j as int,
                                ),
                            decreases nsec - j,
                        {
                            let sc = &mc.sections[j];
                            proof {
                                assert(cs[i2 as int].sections[j as int] == mc.sections@[
                                    j as int].deep_view());
                                assert(ms[i2 as int].sections[j as int] == mm.sections@[
                                    j as int].deep_view());
                            }
                            let nsym = sc.symbols.len();
                            proof {
                                assert(spec_section_sym_entries(
                                    ms[i2 as int].sections[j as int],
                                    cs[i2 as int].sections[j as int],
                                    0,
                                ) =~= Seq::<SymbolCountEntryV>::empty());
                                assert(syms_un.deep_view() =~= spec_path_sym_entries(
                                    ms,
                                    cs,
                                    keyv,
                                    i2 as int,
                                ) + spec_mapping_sym_entries(ms[i2 as int], cs[i2 as int], j as int)
                                    + spec_section_sym_entries(
                                    ms[i2 as int].sections[j as int],
                                    cs[i2 as int].sections[j as int],
                                    0,
                                ));
                            }
                            let mut l: usize = 0;
                            while l < nsym
                                invariant
                                    l <= nsym,
                                    syms_un.deep_view() == spec_path_sym_entries(
                                        ms,
                                        cs,
                                        keyv,
                                        i2 as int,
                                    ) + spec_mapping_sym_entries(
                                        ms[i2 as int],
                                        cs[i2 as int],
                                        j as int,
                                    ) + spec_section_sym_entries(
                                        ms[i2 as int].sections[j as int],
                                        cs[i2 as int].sections[j as int],
                                        l as int,
                                    ),
                                decreases nsym - l,
                            {
                                let c = sc.symbols[l];
                                if c > 0 {
                                    let e = SymbolCountEntry {
                                        name: vstd::slice::slice_to_vec(
                                            mm.sections[j].symbols[l].name.as_slice(),
                                        ),
                                        section_name: vstd::slice::slice_to_vec(
                                            mm.sections[j].name.as_slice(),
                                        ),
                                        count: c,
                                    };
                                    let ghost ev = e.deep_view();
                                    let ghost s0 = syms_un.deep_view();
                                    proof {
                                        assert(ms[i2 as int].sections[j as int].symbols[l as int]
                                            == mm.sections@[j as int].symbols@[
                                            l as int].deep_view());
                                    }
                                    syms_un.push(e);
                                    proof {
                                        assert(syms_un.deep_view() =~= s0.push(ev));
                                    }
                                }
                                l = l + 1;
                            }
                            if sc.unknown_symbol > 0 {
                                let e = SectionUnknownEntry {
                                    section_name: vstd::slice::slice_to_vec(
                                        mm.sections[j].name.as_slice(),
                                    ),
                                    count: sc.unknown_symbol,
                                };
                                let ghost ev = e.deep_view();
                                let ghost u0 = unks_un.deep_view();
                                unks_un.push(e);
                                proof {
                                    assert(unks_un.deep_view() =~= u0.push(ev));
                                }
                            }
                            j = j + 1;
                        }
                        if mc.unknown_section > 0 {
                            let ghost w0 = unknown@;
                            unknown.push(mc.unknown_section);
                            proof {
                                assert(unknown.deep_view() =~= w0.push(cs[
                                    i2 as int].unknown_section));
                            }
                        }
                        proof {
                            assert(cs[i2 as int].sections.len() == nsec);
                        }
                    }
                    i2 = i2 + 1;
                }
                let ftotal = file_total_of(&syms_un, &unks_un, &unknown);
                proof {
                    assert(unknown.deep_view() =~= unknown@);
                    assert(ftotal == spec_file_total(ms, cs, keyv));
                }
                let ghost syms_unv = syms_un.deep_view();
                let ghost unks_unv = unks_un.deep_view();
                let mut syms: Vec<SymbolCountEntry> = Vec::new();
                proof {
                    assert(syms_unv.take(0) =~= Seq::<SymbolCountEntryV>::empty());
                    assert(syms.deep_view() =~= spec_sort_sym_desc(syms_unv.take(0)));
                }
                let ghost mut k: int = 0;
                while syms_un.len() > 0
                    invariant
                        0 <= k <= syms_unv.len(),
                        syms_un@.len() + k == syms_unv.len(),
                        syms_un.deep_view() =~= syms_unv.skip(k as int),
                        syms.deep_view() == spec_sort_sym_desc(syms_unv.take(k as int)),
                    decreases syms_un@.len(),
                {
                    let ghost pre = syms_un.deep_view();
                    let e = syms_un.remove(0);
                    proof {
                        assert(pre == syms_unv.skip(k as int));
                        assert(syms_unv.skip(k as int)[0] == syms_unv[k as int]);
                        assert(syms_unv.skip(k as int).skip(1) =~= syms_unv.skip(k + 1));
                        assert(e.deep_view() == pre[0]);
                        assert(syms_un.deep_view() =~= pre.skip(1));
                        assert(syms_unv.take(k + 1).drop_last() =~= syms_unv.take(k as int));
                        assert(syms_unv.take(k + 1).last() == syms_unv[k as int]);
                    }
                    insert_sym_desc(&mut syms, e);
                    proof {
                        k = k + 1;
                    }
                }
                proof {
                    assert(syms_unv.take(k as int) =~= syms_unv);
                }
                let mut unks: Vec<SectionUnknownEntry> = Vec::new();
                proof {
                    assert(unks_unv.take(0) =~= Seq::<SectionUnknownEntryV>::empty());
                    assert(unks.deep_view() =~= spec_sort_unk_desc(unks_unv.take(0)));
                }
                let ghost mut k2: int = 0;
                while unks_un.len() > 0
                    invariant
                        0 <= k2 <= unks_unv.len(),
                        unks_un@.len() + k2 == unks_unv.len(),
                        unks_un.deep_view() =~= unks_unv.skip(k2 as int),
                        unks.deep_view() == spec_sort_unk_desc(unks_unv.take(k2 as int)),
                    decreases unks_un@.len(),
                {
                    let ghost pre = unks_un.deep_view();
                    let e = unks_un.remove(0);
                    proof {
                        assert(pre == unks_unv.skip(k2 as int));
                        assert(unks_unv.skip(k2 as int)[0] == unks_unv[k2 as int]);
                        assert(unks_unv.skip(k2 as int).skip(1) =~= unks_unv.skip(k2 + 1));
                        assert(e.deep_view() == pre[0]);
                        assert(unks_un.deep_view() =~= pre.skip(1));
                        assert(unks_unv.take(k2 + 1).drop_last() =~= unks_unv.take(k2 as int));
                        assert(unks_unv.take(k2 + 1).last() == unks_unv[k2 as int]);
                    }
                    insert_unk_desc(&mut unks, e);
                    proof {
                        k2 = k2 + 1;
                    }
                }
                proof {
                    assert(unks_unv.take(k2 as int) =~= unks_unv);
                }
                let path: Option<Vec<u8>> = match key {
                    Some(p) => Some(vstd::slice::slice_to_vec(p.as_slice())),
                    None => None,
                };
                let fr = FileReport {
                    path,
                    total: ftotal,
                    symbols: syms,
                    unknown_sections: unks,
                    unknown,
                };
                let ghost frv = fr.deep_view();
                let ghost f0 = files.deep_view();
                files.push(fr);
                proof {
                    assert(files.deep_view() =~= f0.push(frv));
                    assert(frv == spec_report_files(ms, cs, i + 1).last());
                    assert(spec_report_files(ms, cs, i + 1) =~= f0.push(frv));
                }
            }
            i = i + 1;
        }
        proof {
            assert(spec_report_files(ms, cs, n as int) == files.deep_view());
        }
        let ghost fv0 = files.deep_view();
        let mut ranked: Vec<FileReport> = Vec::new();
        proof {
            assert(fv0.take(0) =~= Seq::<FileReportV>::empty());
            assert(ranked.deep_view() =~= spec_sort_files_desc(fv0.take(0)));
            assert(files.deep_view() =~= fv0.skip(0));
        }
        let ghost mut k: int = 0;
        while files.len() > 0
            invariant
                0 <= k <= fv0.len(),
                files@.len() + k == fv0.len(),
                files.deep_view() =~= fv0.skip(k as int),
                ranked.deep_view() == spec_sort_files_desc(fv0.take(k as int)),
            decreases files@.len(),
        {
            let ghost pre = files.deep_view();
            let f = files.remove(0);
            proof {
                assert(pre == fv0.skip(k as int));
                assert(fv0.skip(k as int)[0] == fv0[k as int]);
                assert(fv0.skip(k as int).skip(1) =~= fv0.skip(k + 1));
                assert(f.deep_view() == pre[0]);
                assert(files.deep_view() =~= pre.skip(1));
                assert(fv0.take(k + 1).drop_last() =~= fv0.take(k as int));
                assert(fv0.take(k + 1).last() == fv0[k as int]);
            }
            insert_file_desc(&mut ranked, f);
            proof {
                k = k + 1;
            }
        }
        proof {
            assert(fv0.take(k as int) =~= fv0);
        }
        Report { files: ranked, unknown_mapping: self.unknown_mapping, total: self.total }
    }
}

} // verus!
