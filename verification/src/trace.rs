//! The trace driver's verified half: reading one instruction-taken record
//! out of a trace line, fixing the byte range and file to read, and
//! folding each resolved instruction into the aggregate.

use vstd::prelude::*;
use crate::text::{
    scan_digits, scan_spaces, scan_hex, scan_nonspace, scan_digits_at, scan_spaces_at, scan_hex_at,
    scan_nonspace_at, has_at, match_at, hex_val, is_hex, InferredTarmac, InferredTarmacV,
};
use crate::mapping::VmMappingV;
use crate::vmmap::VmMap;
use crate::resolve::{VmAddrInfo, spec_resolve};
use crate::counts::{InsnCount, InsnCountV, counts_shape, counts_wf, key_in_shape, spec_add_count};

verus! {

/// One instruction-taken record of the trace: the program counter's
/// virtual address, the instruction word's eight hex digits, and the
/// disassembly text.
#[derive(Clone, Debug)]
pub struct TraceInsn {
    pub pcc_addr: u64,
    pub insn: Vec<u8>,
    pub disasm: Vec<u8>,
}

/// The mathematical value of a `TraceInsn`.
pub struct TraceInsnV {
    pub pcc_addr: u64,
    pub insn: Seq<u8>,
    pub disasm: Seq<u8>,
}

impl DeepView for TraceInsn {
    type V = TraceInsnV;

    open spec fn deep_view(&self) -> TraceInsnV {
        TraceInsnV { pcc_addr: self.pcc_addr, insn: self.insn@, disasm: self.disasm@ }
    }
}

/// `ps`, `clk`, `IT`, `_NS` and `EL0t_n`.
pub open spec fn lit_ps() -> Seq<u8> {
    seq![112u8, 115u8]
}

pub open spec fn lit_clk() -> Seq<u8> {
    seq![99u8, 108u8, 107u8]
}

pub open spec fn lit_it() -> Seq<u8> {
    seq![73u8, 84u8]
}

pub open spec fn lit_ns() -> Seq<u8> {
    seq![95u8, 78u8, 83u8]
}

pub open spec fn lit_el0() -> Seq<u8> {
    seq![69u8, 76u8, 48u8, 116u8, 95u8, 110u8]
}

/// What an instruction-taken line carries, or nothing for any other line:
/// a timestamp, its units, a CPU name, the literal `IT`, a parenthesised
/// tick count, the tagged capability triple whose low 64 bits are the
/// virtual address, a physical address, an eight-digit instruction word,
/// the instruction set, the exception level, and the disassembly.
pub open spec fn spec_trace_line(s: Seq<u8>) -> Option<TraceInsnV> {
    let a1 = scan_digits(s, 0);
    if a1 <= 0 {
        None
    } else {
        let a2 = scan_spaces(s, a1);
        if a2 <= a1 {
            None
        } else {
            let u = if has_at(s, a2, lit_ps()) {
                a2 + 2
            } else if has_at(s, a2, lit_clk()) {
                a2 + 3
            } else {
                -1
            };
            if u < 0 {
                None
            } else {
                let a4 = scan_spaces(s, u);
                if a4 <= u {
                    None
                } else {
                    let a5 = scan_nonspace(s, a4);
                    if a5 <= a4 {
                        None
                    } else {
                        let a6 = scan_spaces(s, a5);
                        if a6 <= a5 || !has_at(s, a6, lit_it()) {
                            None
                        } else {
                            spec_trace_line_ticks(s, a6 + 2)
                        }
                    }
                }
            }
        }
    }
}

/// The middle of an instruction-taken line, from the whitespace before the
/// tick count.
pub open spec fn spec_trace_line_ticks(s: Seq<u8>, a7: int) -> Option<TraceInsnV> {
    let a8 = scan_spaces(s, a7);
    if a8 <= a7 || !(a8 < s.len() && s[a8] == 40) {
        None
    } else {
        let a10 = scan_digits(s, a8 + 1);
        if a10 <= a8 + 1 || !(a10 < s.len() && s[a10] == 41) {
            None
        } else {
            let a12 = scan_spaces(s, a10 + 1);
            if a12 <= a10 + 1 || !(a12 < s.len() && s[a12] == 40) {
                None
            } else {
                let a13 = a12 + 1;
                if !(a13 < s.len() && (s[a13] == 48 || s[a13] == 49) && a13 + 1 < s.len() && s[a13
                    + 1] == 124) {
                    None
                } else {
                    let a16 = scan_hex(s, a13 + 2);
                    if a16 <= a13 + 2 || !(a16 < s.len() && s[a16] == 124) {
                        None
                    } else {
                        let a18 = scan_hex(s, a16 + 1);
                        if a18 <= a16 + 1 || !(a18 < s.len() && s[a18] == 41) {
                            None
                        } else {
                            spec_trace_line_tail(s, a16 + 1, a18)
                        }
                    }
                }
            }
        }
    }
}

/// The tail of an instruction-taken line, from the physical-address field;
/// `p0..p1` delimits the virtual-address digits.
pub open spec fn spec_trace_line_tail(s: Seq<u8>, p0: int, p1: int) -> Option<TraceInsnV> {
    let a19 = p1 + 1;
    if !(a19 < s.len() && s[a19] == 58) {
        None
    } else {
        let a21 = scan_hex(s, a19 + 1);
        if a21 <= a19 + 1 || !has_at(s, a21, lit_ns()) {
            None
        } else {
            let a23 = scan_spaces(s, a21 + 3);
            if a23 <= a21 + 3 {
                None
            } else {
                let h = scan_hex(s, a23);
                if h != a23 + 8 {
                    None
                } else {
                    let a25 = scan_spaces(s, h);
                    if a25 <= h || !(a25 < s.len() && (s[a25] == 79 || s[a25] == 67)) {
                        None
                    } else {
                        let a27 = scan_spaces(s, a25 + 1);
                        if a27 <= a25 + 1 || !has_at(s, a27, lit_el0()) {
                            None
                        } else {
                            let a29 = scan_spaces(s, a27 + 6);
                            if a29 <= a27 + 6 || !(a29 < s.len() && s[a29] == 58) {
                                None
                            } else {
                                let a31 = scan_spaces(s, a29 + 1);
                                if a31 <= a29 + 1 {
                                    None
                                } else if hex_val(s.subrange(p0, p1)) > u64::MAX {
                                    None
                                } else {
                                    Some(
                                        TraceInsnV {
                                            pcc_addr: hex_val(s.subrange(p0, p1)) as u64,
                                            insn: s.subrange(a23, h),
                                            disasm: s.skip(a31),
                                        },
                                    )
                                }
                            }
                        }
                    }
                }
            }
        }
    }
}

pub proof fn lemma_scan_hex_char(s: Seq<u8>, i: int)
    requires
        0 <= i <= s.len(),
    ensures
        forall|m: int| i <= m < scan_hex(s, i) ==> is_hex(#[trigger] s[m]),
        i <= scan_hex(s, i) <= s.len(),
    decreases s.len() - i,
{
    if i < s.len() && is_hex(s[i]) {
        lemma_scan_hex_char(s, i + 1);
    }
}

/// Reads one trace line, as `spec_trace_line` says: `None` for every line
/// that is not an instruction-taken record.
#[verifier::loop_isolation(false)]
pub fn parse_trace_line(line: &[u8]) -> (r: Option<TraceInsn>)
    ensures
        match r {
            Some(t) => spec_trace_line(line@) == Some(t.deep_view()),
            None => spec_trace_line(line@) is None,
        },
{
    let s = line;
    let n = s.len();
    let a1 = scan_digits_at(s, 0);
    if a1 == 0 {
        return None;
    }
    let a2 = scan_spaces_at(s, a1);
    if a2 <= a1 {
        return None;
    }
    let mut v_ps: Vec<u8> = Vec::new();
    v_ps.push(112);
    v_ps.push(115);
    assert(v_ps@ =~= lit_ps());
    let mut v_clk: Vec<u8> = Vec::new();
    v_clk.push(99);
    v_clk.push(108);
    v_clk.push(107);
    assert(v_clk@ =~= lit_clk());
    let u: usize;
    if match_at(s, a2, v_ps.as_slice()) {
        u = a2 + 2;
    } else if match_at(s, a2, v_clk.as_slice()) {
        u = a2 + 3;
    } else {
        return None;
    }
    let a4 = scan_spaces_at(s, u);
    if a4 <= u {
        return None;
    }
    let a5 = scan_nonspace_at(s, a4);
    if a5 <= a4 {
        return None;
    }
    let a6 = scan_spaces_at(s, a5);
    let mut v_it: Vec<u8> = Vec::new();
    v_it.push(73);
    v_it.push(84);
    assert(v_it@ =~= lit_it());
    if a6 <= a5 || !match_at(s, a6, v_it.as_slice()) {
        return None;
    }
    let a7 = a6 + 2;
    let a8 = scan_spaces_at(s, a7);
    if a8 <= a7 || !(a8 < n && s[a8] == 40) {
        return None;
    }
    let a10 = scan_digits_at(s, a8 + 1);
    if a10 <= a8 + 1 || !(a10 < n && s[a10] == 41) {
        return None;
    }
    let a12 = scan_spaces_at(s, a10 + 1);
    if a12 <= a10 + 1 || !(a12 < n && s[a12] == 40) {
        return None;
    }
    let a13 = a12 + 1;
    if !(a13 < n && (s[a13] == 48 || s[a13] == 49) && a13 + 1 < n && s[a13 + 1] == 124) {
        return None;
    }
    let a16 = scan_hex_at(s, a13 + 2);
    if a16 <= a13 + 2 || !(a16 < n && s[a16] == 124) {
        return None;
    }
    let a18 = scan_hex_at(s, a16 + 1);
    if a18 <= a16 + 1 || !(a18 < n && s[a18] == 41) {
        return None;
    }
    let p0 = a16 + 1;
    let p1 = a18;
    let a19 = p1 + 1;
    if !(a19 < n && s[a19] == 58) {
        return None;
    }
    let a21 = scan_hex_at(s, a19 + 1);
    let mut v_ns: Vec<u8> = Vec::new();
    v_ns.push(95);
    v_ns.push(78);
    v_ns.push(83);
    assert(v_ns@ =~= lit_ns());
    if a21 <= a19 + 1 || !match_at(s, a21, v_ns.as_slice()) {
        return None;
    }
    let a23 = scan_spaces_at(s, a21 + 3);
    if a23 <= a21 + 3 {
        return None;
    }
    let h = scan_hex_at(s, a23);
    if h - a23 != 8 {
        return None;
    }
    let a25 = scan_spaces_at(s, h);
    if a25 <= h || !(a25 < n && (s[a25] == 79 || s[a25] == 67)) {
        return None;
    }
    let a27 = scan_spaces_at(s, a25 + 1);
    let mut v_el: Vec<u8> = Vec::new();
    v_el.push(69);
    v_el.push(76);
    v_el.push(48);
    v_el.push(116);
    v_el.push(95);
    v_el.push(110);
    assert(v_el@ =~= lit_el0());
    if a27 <= a25 + 1 || !match_at(s, a27, v_el.as_slice()) {
        return None;
    }
    let a29 = scan_spaces_at(s, a27 + 6);
    if a29 <= a27 + 6 || !(a29 < n && s[a29] == 58) {
        return None;
    }
    let a31 = scan_spaces_at(s, a29 + 1);
    if a31 <= a29 + 1 {
        return None;
    }
    let pcc_digits = crate::bytes::sub_bytes(s, p0, p1);
    proof {
        lemma_scan_hex_char(s@, p0 as int);
        assert(crate::text::all_hex(pcc_digits@));
    }
    let pcc_addr = match crate::text::parse_u64_hex(pcc_digits.as_slice()) {
        Some(v) => v,
        None => {
            return None;
        },
    };
    let insn = crate::bytes::sub_bytes(s, a23, h);
    let disasm = crate::bytes::tail_from(s, a31);
    Some(TraceInsn { pcc_addr, insn, disasm })
}

/// The trace source: its file, and the half-open byte range to read.
#[derive(Clone, Debug)]
pub struct TracePlan {
    pub file: Vec<u8>,
    pub start: u64,
    pub end: u64,
}

/// The mathematical value of a `TracePlan`.
pub struct TracePlanV {
    pub file: Seq<u8>,
    pub start: u64,
    pub end: u64,
}

impl DeepView for TracePlan {
    type V = TracePlanV;

    open spec fn deep_view(&self) -> TracePlanV {
        TracePlanV { file: self.file@, start: self.start, end: self.end }
    }
}

/// The explicit trace arguments of one run.
#[derive(Clone, Debug)]
pub struct TraceArgs {
    pub tarmac: Option<Vec<u8>>,
    pub tarmac_start: Option<u64>,
    pub tarmac_end: Option<u64>,
}

/// The mathematical value of a `TraceArgs`.
pub struct TraceArgsV {
    pub tarmac: Option<Seq<u8>>,
    pub tarmac_start: Option<u64>,
    pub tarmac_end: Option<u64>,
}

impl DeepView for TraceArgs {
    type V = TraceArgsV;

    open spec fn deep_view(&self) -> TraceArgsV {
        TraceArgsV {
            tarmac: match self.tarmac {
                Some(ref f) => Some(f@),
                None => None,
            },
            tarmac_start: self.tarmac_start,
            tarmac_end: self.tarmac_end,
        }
    }
}

/// Why a run cannot start.
#[derive(Clone, Copy, Debug, PartialEq, Eq, Structural)]
pub enum TraceConfigError {
    /// No trace file was given and none could be inferred.
    NoTraceFile,
    /// The byte range to read is empty: its end does not lie after its
    /// start.
    EmptyRange,
}

/// The plan of one run: explicit arguments override inferred values, the
/// range defaults to the whole file, a missing file is an error, and an
/// empty range is an error — reported before any of the trace is read.
pub open spec fn spec_trace_plan(args: TraceArgsV, inferred: Option<InferredTarmacV>) -> Result<
    TracePlanV,
    TraceConfigError,
> {
    let start = match args.tarmac_start {
        Some(v) => v,
        None => match inferred {
            Some(t) => t.start,
            None => 0,
        },
    };
    let end = match args.tarmac_end {
        Some(v) => v,
        None => match inferred {
            Some(t) => t.end,
            None => u64::MAX,
        },
    };
    match (args.tarmac, inferred) {
        (Some(f), _) => if end <= start {
            Err(TraceConfigError::EmptyRange)
        } else {
            Ok(TracePlanV { file: f, start, end })
        },
        (None, Some(t)) => if end <= start {
            Err(TraceConfigError::EmptyRange)
        } else {
            Ok(TracePlanV { file: t.file, start, end })
        },
        (None, None) => Err(TraceConfigError::NoTraceFile),
    }
}

/// Fixes the plan of one run, as `spec_trace_plan` says.
pub fn resolve_trace_plan(args: &TraceArgs, inferred: Option<&InferredTarmac>) -> (r: Result<
    TracePlan,
    TraceConfigError,
>)
    ensures
        match r {
            Ok(p) => spec_trace_plan(
                args.deep_view(),
                match inferred {
                    Some(t) => Some(t.deep_view()),
                    None => None,
                },
            ) == Ok::<TracePlanV, TraceConfigError>(p.deep_view()),
            Err(e) => spec_trace_plan(
                args.deep_view(),
                match inferred {
                    Some(t) => Some(t.deep_view()),
                    None => None,
                },
            ) == Err::<TracePlanV, TraceConfigError>(e),
        },
{
    let start: u64 = match args.tarmac_start {
        Some(v) => v,
        None => match inferred {
            Some(t) => t.start,
            None => 0,
        },
    };
    let end: u64 = match args.tarmac_end {
        Some(v) => v,
        None => match inferred {
            Some(t) => t.end,
            None => u64::MAX,
        },
    };
    let file: Vec<u8> = match args.tarmac {
        Some(ref f) => vstd::slice::slice_to_vec(f.as_slice()),
        None => match inferred {
            Some(t) => vstd::slice::slice_to_vec(t.file.as_slice()),
            None => {
                return Err(TraceConfigError::NoTraceFile);
            },
        },
    };
    if end <= start {
        return Err(TraceConfigError::EmptyRange);
    }
    Ok(TracePlan { file, start, end })
}

/// A run whose explicit byte range is empty aborts before the trace is
/// read, whatever else was given or inferred.
pub proof fn lemma_empty_range_rejected(
    args: TraceArgsV,
    inferred: Option<InferredTarmacV>,
    s0: u64,
    e0: u64,
)
    requires
        args.tarmac_start == Some(s0),
        args.tarmac_end == Some(e0),
        e0 <= s0,
    ensures
        spec_trace_plan(args, inferred) is Err,
{
}

/// One trace line folded into the run: what the aggregate becomes, and
/// what the line carried.
pub open spec fn spec_process_line(ms: Seq<VmMappingV>, c: InsnCountV, line: Seq<u8>) -> (
    InsnCountV,
    Option<(TraceInsnV, Option<VmAddrInfo>)>,
) {
    match spec_trace_line(line) {
        None => (c, None),
        Some(ti) => match spec_resolve(ms, ti.pcc_addr) {
            None => (
                InsnCountV {
                    total: (c.total + 1) as u64,
                    unknown_mapping: (c.unknown_mapping + 1) as u64,
                    counts: c.counts,
                },
                Some((ti, None)),
            ),
            Some(info) => (spec_add_count(c, info.spec_count_key()), Some((ti, Some(info)))),
        },
    }
}

/// Feeds one trace line through the index and the aggregate: a line that
/// is not an instruction-taken record is skipped; an address outside every
/// mapping counts as unknown; anything else accumulates under its resolved
/// identity. Returns what the line carried, for annotation.
pub fn process_line(map: &VmMap, counts: &mut InsnCount, line: &[u8]) -> (r: Option<
    (TraceInsn, Option<VmAddrInfo>),
>)
    requires
        map.wf(),
        counts_shape(old(counts).deep_view(), map.mappings.deep_view()),
        counts_wf(old(counts).deep_view()),
        old(counts).total < u64::MAX,
    ensures
        final(counts).deep_view() == spec_process_line(
            map.mappings.deep_view(),
            old(counts).deep_view(),
            line@,
        ).0,
        (match r {
            None => spec_process_line(
                map.mappings.deep_view(),
                old(counts).deep_view(),
                line@,
            ).1 is None,
            Some(p) => spec_process_line(map.mappings.deep_view(), old(counts).deep_view(), line@).1
                == Some(
                (
                    p.0.deep_view(),
                    p.1,
                ),
            ),
        }),
        counts_shape(final(counts).deep_view(), map.mappings.deep_view()),
        counts_wf(final(counts).deep_view()),
{
    let ghost c0 = counts.deep_view();
    let ghost mv = map.mappings.deep_view();
    let ti = match parse_trace_line(line) {
        None => {
            return None;
        },
        Some(t) => t,
    };
    match map.addr_info(ti.pcc_addr) {
        None => {
            counts.add_unknown();
            proof {
                assert(counts.deep_view() =~= spec_process_line(mv, c0, line@).0);
            }
            Some((ti, None))
        },
        Some(info) => {
            proof {
                assert(key_in_shape(c0, info.spec_count_key()));
            }
            counts.add(info);
            proof {
                let cnew = counts.deep_view();
                assert(cnew.counts.len() == c0.counts.len());
                assert forall|i: int|
                    0 <= i < mv.len() implies (#[trigger] cnew.counts[i]).sections.len()
                    == mv[i].sections.len() by {
                    if i != info.mapping as int {
                        assert(cnew.counts[i] == c0.counts[i]);
                    }
                }
                assert forall|i: int, j: int|
                    0 <= i < mv.len() && 0 <= j < mv[i].sections.len() implies (
                #[trigger] cnew.counts[i].sections[j]).symbols.len() == mv[i].sections[
                j].symbols.len() by {
                    if i == info.mapping as int {
                        if info.section is Some {
                            let js = info.section->Some_0;
                            if j != js as int {
                                assert(cnew.counts[i].sections[j] == c0.counts[i].sections[j]);
                            } else {
                                assert(c0.counts[i].sections[j].symbols.len() == mv[i].sections[
                                    j].symbols.len());
                            }
                        } else {
                            assert(cnew.counts[i].sections == c0.counts[i].sections);
                        }
                    } else {
                        assert(cnew.counts[i] == c0.counts[i]);
                    }
                }
            }
            Some((ti, Some(info)))
        },
    }
}

} // verus!
