//! One virtual-memory mapping and its construction from a VM-map record
//! and the structural data of a local ELF file.

use vstd::prelude::*;
use crate::range::VaRange;
use crate::perms::{VmPerms, PermsError, spec_parse_perms};
use crate::elfdata::{ElfSectionV, ElfSymbolV, LocalMorelloElfFile, LocalMorelloElfFileV};
use crate::bytes::basename_of;

verus! {

/// The section-header flag marking a section that holds instructions.
pub const SHF_EXECINSTR: u64 = 4;

/// The section index of an undefined symbol.
pub const SHN_UNDEF: u16 = 0;

/// Which instruction set a symbol executes in, read from the low bit of its
/// ELF value.
#[derive(Clone, Copy, Debug, PartialEq, Eq, Structural)]
pub enum Isa {
    A64,
    C64,
}

/// The name of an instruction set, `A64` or `C64`.
pub open spec fn spec_isa_name(i: Isa) -> Seq<u8> {
    match i {
        Isa::A64 => seq![65u8, 54u8, 52u8],
        Isa::C64 => seq![67u8, 54u8, 52u8],
    }
}

impl Isa {
    /// The instruction set's name, as `spec_isa_name` says.
    pub fn name(&self) -> (r: Vec<u8>)
        ensures
            r@ == spec_isa_name(*self),
    {
        let mut v: Vec<u8> = Vec::new();
        match self {
            Isa::A64 => {
                v.push(65);
                v.push(54);
                v.push(52);
            },
            Isa::C64 => {
                v.push(67);
                v.push(54);
                v.push(52);
            },
        }
        assert(v@ =~= spec_isa_name(*self));
        v
    }
}

/// A single symbol (with non-zero size) in virtual memory.
#[derive(Clone, Debug)]
pub struct VmSymbolMapping {
    pub va: VaRange,
    pub name: Vec<u8>,
    pub isa: Isa,
}

/// The mathematical value of a `VmSymbolMapping`.
pub struct VmSymbolMappingV {
    pub va: VaRange,
    pub name: Seq<u8>,
    pub isa: Isa,
}

impl DeepView for VmSymbolMapping {
    type V = VmSymbolMappingV;

    open spec fn deep_view(&self) -> VmSymbolMappingV {
        VmSymbolMappingV { va: self.va, name: self.name@, isa: self.isa }
    }
}

/// A single, contiguous section in virtual memory.
#[derive(Clone, Debug)]
pub struct VmSectionMapping {
    pub va: VaRange,
    pub name: Vec<u8>,
    pub symbols: Vec<VmSymbolMapping>,
}

/// The mathematical value of a `VmSectionMapping`.
pub struct VmSectionMappingV {
    pub va: VaRange,
    pub name: Seq<u8>,
    pub symbols: Seq<VmSymbolMappingV>,
}

impl DeepView for VmSectionMapping {
    type V = VmSectionMappingV;

    open spec fn deep_view(&self) -> VmSectionMappingV {
        VmSectionMappingV { va: self.va, name: self.name@, symbols: self.symbols.deep_view() }
    }
}

impl VmSectionMapping {
    /// The symbols of this section, sorted by start address.
    pub fn symbols(&self) -> (r: &Vec<VmSymbolMapping>)
        ensures
            r == &self.symbols,
    {
        &self.symbols
    }
}

/// One raw record of the VM map: a contiguous range of virtual addresses,
/// its permissions, and the file and offset behind it.
#[derive(Clone, Debug)]
pub struct VmMapRecord {
    /// Inclusive.
    pub start: u64,
    /// Exclusive.
    pub end: u64,
    pub perms: Vec<u8>,
    pub offset: u64,
    pub path: Option<Vec<u8>>,
}

/// The mathematical value of a `VmMapRecord`.
pub struct VmMapRecordV {
    pub start: u64,
    pub end: u64,
    pub perms: Seq<u8>,
    pub offset: u64,
    pub path: Option<Seq<u8>>,
}

impl DeepView for VmMapRecord {
    type V = VmMapRecordV;

    open spec fn deep_view(&self) -> VmMapRecordV {
        VmMapRecordV {
            start: self.start,
            end: self.end,
            perms: self.perms@,
            offset: self.offset,
            path: match self.path {
                Some(ref p) => Some(p@),
                None => None,
            },
        }
    }
}

/// A single, contiguous virtual memory mapping, typically from part of an
/// ELF file to part of the virtual memory space.
#[derive(Clone, Debug)]
pub struct VmMapping {
    pub va: VaRange,
    pub offset_into_file: u64,
    pub target_path: Option<Vec<u8>>,
    pub perms: VmPerms,
    pub sections: Vec<VmSectionMapping>,
}

/// The mathematical value of a `VmMapping`.
pub struct VmMappingV {
    pub va: VaRange,
    pub offset_into_file: u64,
    pub target_path: Option<Seq<u8>>,
    pub perms: VmPerms,
    pub sections: Seq<VmSectionMappingV>,
}

impl DeepView for VmMapping {
    type V = VmMappingV;

    open spec fn deep_view(&self) -> VmMappingV {
        VmMappingV {
            va: self.va,
            offset_into_file: self.offset_into_file,
            target_path: match self.target_path {
                Some(ref p) => Some(p@),
                None => None,
            },
            perms: self.perms,
            sections: self.sections.deep_view(),
        }
    }
}

impl VmMapping {
    /// The path of the file backing this mapping, if any.
    pub fn target_path(&self) -> (r: Option<&Vec<u8>>)
        ensures
            match r {
                Some(p) => self.target_path == Some(*p),
                None => self.target_path is None,
            },
    {
        match self.target_path {
            Some(ref p) => Some(p),
            None => None,
        }
    }

    /// The base filename of the file backing this mapping, if any.
    pub fn simple_path(&self) -> (r: Option<Vec<u8>>)
        ensures
            match r {
                Some(p) => self.target_path matches Some(t) && p@ == basename_of(t@),
                None => self.target_path is None,
            },
    {
        match self.target_path {
            Some(ref p) => Some(crate::bytes::basename(p.as_slice())),
            None => None,
        }
    }

    /// The sections of this mapping, sorted by start address.
    pub fn sections(&self) -> (r: &Vec<VmSectionMapping>)
        ensures
            r == &self.sections,
    {
        &self.sections
    }
}

/// Why a mapping could not be built from a record.
#[derive(Clone, Copy, Debug, PartialEq, Eq, Structural)]
pub enum MapError {
    /// The record's end does not lie after its start.
    EmptyMapping,
    /// A re-based section or symbol address fell outside the 64-bit space.
    AddressRange,
    /// Two symbols with overlapping but unequal ranges in one section.
    SymbolOverlap,
    /// Two sections of one mapping overlap.
    SectionOverlap,
    /// The record's permission string was rejected.
    Perms(PermsError),
}

/// A section is kept for a record when it is non-empty, holds instructions,
/// and its file extent overlaps the record's file window.
pub open spec fn spec_section_retained(rec: VmMapRecordV, s: ElfSectionV) -> bool {
    &&& s.size > 0
    &&& (s.flags & SHF_EXECINSTR) != 0
    &&& (rec.offset as int) < s.offset + s.size
    &&& (s.offset as int) < rec.offset + (rec.end - rec.start)
}

/// The process-virtual extent of a retained section, over the integers:
/// `rec.start + (s.offset - rec.offset)` through `+ s.size - 1`.
pub open spec fn spec_section_va(rec: VmMapRecordV, s: ElfSectionV) -> (int, int) {
    let start = rec.start + s.offset - rec.offset;
    (start, start + s.size - 1)
}

/// Inserting one symbol into a sorted symbol list: an identical range is
/// coalesced, preferring the strictly shorter name (a tie keeps the symbol
/// already present, which came earlier in the symbol table); an overlapping
/// but unequal range is a fault (`None`); anything else is placed by start
/// address.
pub open spec fn spec_insert_symbol(acc: Seq<VmSymbolMappingV>, s: VmSymbolMappingV) -> Option<
    Seq<VmSymbolMappingV>,
>
    decreases acc.len(),
{
    if acc.len() == 0 {
        Some(seq![s])
    } else {
        let h = acc[0];
        if s.va == h.va {
            if s.name.len() < h.name.len() {
                Some(seq![s] + acc.skip(1))
            } else {
                Some(acc)
            }
        } else if s.va.spec_overlaps(h.va) {
            None
        } else if s.va.start < h.va.start {
            Some(seq![s] + acc)
        } else {
            match spec_insert_symbol(acc.skip(1), s) {
                None => None,
                Some(r) => Some(seq![h] + r),
            }
        }
    }
}

/// The symbol list of the retained section with ELF table index `shndx`
/// and unclamped process-virtual base `sec_va_base`: every named,
/// non-zero-size, defined symbol of that section, in table order, re-based
/// (ISA tag stripped from the low bit) and inserted by
/// `spec_insert_symbol`.
pub open spec fn spec_section_symbols(
    sec_va_base: int,
    sh_addr: u64,
    shndx: int,
    syms: Seq<ElfSymbolV>,
) -> Result<Seq<VmSymbolMappingV>, MapError>
    decreases syms.len(),
{
    if syms.len() == 0 {
        Ok(Seq::empty())
    } else {
        match spec_section_symbols(sec_va_base, sh_addr, shndx, syms.drop_last()) {
            Err(e) => Err(e),
            Ok(acc) => {
                let sym = syms.last();
                if sym.name_index == 0 || sym.size == 0 || sym.shndx == SHN_UNDEF
                    || sym.shndx as int != shndx {
                    Ok(acc)
                } else {
                    let value = sym.value - sym.value % 2;
                    let start = sec_va_base + value - sh_addr;
                    let end = start + sym.size - 1;
                    if !(0 <= start && end <= u64::MAX) {
                        Err(MapError::AddressRange)
                    } else {
                        let sv = VmSymbolMappingV {
                            va: VaRange { start: start as u64, end: end as u64 },
                            name: sym.name,
                            isa: if sym.value % 2 == 1 { Isa::C64 } else { Isa::A64 },
                        };
                        match spec_insert_symbol(acc, sv) {
                            None => Err(MapError::SymbolOverlap),
                            Some(r) => Ok(r),
                        }
                    }
                }
            },
        }
    }
}

/// The retained sections of a record, in ELF table order, each re-based,
/// clamped to the record's own range (a section is a sub-range of its
/// mapping's addresses) and carrying its symbols, which are re-based from
/// the unclamped extent.
pub open spec fn spec_kept_sections(
    rec: VmMapRecordV,
    elf_secs: Seq<ElfSectionV>,
    elf_syms: Seq<ElfSymbolV>,
) -> Result<Seq<VmSectionMappingV>, MapError>
    decreases elf_secs.len(),
{
    if elf_secs.len() == 0 {
        Ok(Seq::empty())
    } else {
        match spec_kept_sections(rec, elf_secs.drop_last(), elf_syms) {
            Err(e) => Err(e),
            Ok(ks) => {
                let s = elf_secs.last();
                let idx = elf_secs.len() - 1;
                if spec_section_retained(rec, s) {
                    let (start, end) = spec_section_va(rec, s);
                    let cstart = if start < rec.start { rec.start as int } else { start };
                    let cend = if end > rec.end - 1 { rec.end - 1 } else { end };
                    match spec_section_symbols(start, s.addr, idx as int, elf_syms) {
                        Err(e) => Err(e),
                        Ok(sl) => Ok(
                            ks.push(
                                VmSectionMappingV {
                                    va: VaRange { start: cstart as u64, end: cend as u64 },
                                    name: s.name,
                                    symbols: sl,
                                },
                            ),
                        ),
                    }
                } else {
                    Ok(ks)
                }
            },
        }
    }
}

/// Inserting one section into a sorted section list: any overlap (equal
/// ranges included) is a fault (`None`).
pub open spec fn spec_insert_section(acc: Seq<VmSectionMappingV>, s: VmSectionMappingV) -> Option<
    Seq<VmSectionMappingV>,
>
    decreases acc.len(),
{
    if acc.len() == 0 {
        Some(seq![s])
    } else {
        let h = acc[0];
        if s.va.spec_overlaps(h.va) {
            None
        } else if s.va.start < h.va.start {
            Some(seq![s] + acc)
        } else {
            match spec_insert_section(acc.skip(1), s) {
                None => None,
                Some(r) => Some(seq![h] + r),
            }
        }
    }
}

/// The kept sections ordered by start address; any overlap is a fault.
pub open spec fn spec_sort_sections(ss: Seq<VmSectionMappingV>) -> Result<
    Seq<VmSectionMappingV>,
    MapError,
>
    decreases ss.len(),
{
    if ss.len() == 0 {
        Ok(Seq::empty())
    } else {
        match spec_sort_sections(ss.drop_last()) {
            Err(e) => Err(e),
            Ok(acc) => match spec_insert_section(acc, ss.last()) {
                None => Err(MapError::SectionOverlap),
                Some(r) => Ok(r),
            },
        }
    }
}

/// The sections of a mapping built from `rec` and an optional local ELF:
/// without a local image there are none.
pub open spec fn spec_build_sections(rec: VmMapRecordV, elf: Option<LocalMorelloElfFileV>) -> Result<
    Seq<VmSectionMappingV>,
    MapError,
> {
    match elf {
        None => Ok(Seq::empty()),
        Some(e) => match spec_kept_sections(rec, e.sections, e.symbols) {
            Err(er) => Err(er),
            Ok(ks) => spec_sort_sections(ks),
        },
    }
}

/// The mapping built from one record and an optional local ELF.
pub open spec fn spec_build_mapping(rec: VmMapRecordV, elf: Option<LocalMorelloElfFileV>) -> Result<
    VmMappingV,
    MapError,
> {
    if rec.end <= rec.start {
        Err(MapError::EmptyMapping)
    } else {
        match spec_build_sections(rec, elf) {
            Err(e) => Err(e),
            Ok(ss) => match spec_parse_perms(rec.perms) {
                Err(pe) => Err(MapError::Perms(pe)),
                Ok(p) => Ok(
                    VmMappingV {
                        va: VaRange { start: rec.start, end: (rec.end - 1) as u64 },
                        offset_into_file: rec.offset,
                        target_path: rec.path,
                        perms: p,
                        sections: ss,
                    },
                ),
            },
        }
    }
}

/// `Some(p + r)` when `o` is `Some(r)`.
pub open spec fn opt_prepend<T>(p: Seq<T>, o: Option<Seq<T>>) -> Option<Seq<T>> {
    match o {
        None => None,
        Some(r) => Some(p + r),
    }
}

/// Places one symbol into a sorted list, as `spec_insert_symbol` says;
/// `false` reports an overlapping, unequal range, leaving the list as it
/// was.
#[verifier::loop_isolation(false)]
fn insert_symbol(list: &mut Vec<VmSymbolMapping>, s: VmSymbolMapping) -> (ok: bool)
    ensures
        match spec_insert_symbol(old(list).deep_view(), s.deep_view()) {
            None => !ok && final(list).deep_view() == old(list).deep_view(),
            Some(ns) => ok && final(list).deep_view() == ns,
        },
{
    let ghost l0 = list.deep_view();
    let ghost sv = s.deep_view();
    proof {
        assert(l0.skip(0) =~= l0);
        assert(l0.take(0) =~= Seq::<VmSymbolMappingV>::empty());
        if spec_insert_symbol(l0, sv) is Some {
            assert(l0.take(0) + spec_insert_symbol(l0, sv)->Some_0 =~= spec_insert_symbol(l0, sv)->Some_0);
        }
    }
    let mut i: usize = 0;
    while i < list.len()
        invariant
            i <= list@.len(),
            list.deep_view() == l0,
            l0.len() == list@.len(),
            spec_insert_symbol(l0, sv) == opt_prepend(
                l0.take(i as int),
                spec_insert_symbol(l0.skip(i as int), sv),
            ),
        decreases list@.len() - i,
    {
        let h_start = list[i].va.start;
        let h_end = list[i].va.end;
        proof {
            assert(l0[i as int] == list@[i as int].deep_view());
            assert(l0.skip(i as int)[0] == l0[i as int]);
        }
        if s.va.start == h_start && s.va.end == h_end {
            if s.name.len() < list[i].name.len() {
                list.set(i, s);
                proof {
                    assert(l0.skip(i as int).skip(1) =~= l0.skip(i + 1));
                    assert(spec_insert_symbol(l0.skip(i as int), sv) == Some(
                        seq![sv] + l0.skip(i + 1),
                    ));
                    assert(list.deep_view() =~= l0.take(i as int) + (seq![sv] + l0.skip(i + 1)));
                }
                return true;
            } else {
                proof {
                    assert(spec_insert_symbol(l0.skip(i as int), sv) == Some(l0.skip(i as int)));
                    assert(l0.take(i as int) + l0.skip(i as int) =~= l0);
                }
                return true;
            }
        } else if s.va.start <= h_end && h_start <= s.va.end {
            proof {
                assert(spec_insert_symbol(l0.skip(i as int), sv) is None);
            }
            return false;
        } else if s.va.start < h_start {
            list.insert(i, s);
            proof {
                assert(spec_insert_symbol(l0.skip(i as int), sv) == Some(
                    seq![sv] + l0.skip(i as int),
                ));
                assert(list.deep_view() =~= l0.take(i as int) + (seq![sv] + l0.skip(i as int)));
            }
            return true;
        }
        proof {
            let rest = spec_insert_symbol(l0.skip(i + 1), sv);
            assert(l0.skip(i as int).skip(1) =~= l0.skip(i + 1));
            assert(spec_insert_symbol(l0.skip(i as int), sv) == opt_prepend(
                seq![l0[i as int]],
                rest,
            ));
            if rest is Some {
                assert(l0.take(i as int) + (seq![l0[i as int]] + rest->Some_0) =~= l0.take(i + 1)
                    + rest->Some_0);
            }
        }
        i = i + 1;
    }
    proof {
        assert(l0.skip(i as int) =~= Seq::<VmSymbolMappingV>::empty());
        assert(spec_insert_symbol(l0.skip(i as int), sv) == Some(seq![sv]));
        assert(l0.take(i as int) =~= l0);
    }
    list.push(s);
    proof {
        assert(list.deep_view() =~= l0 + seq![sv]);
        assert(l0 + seq![sv] =~= l0.take(i as int) + seq![sv]);
    }
    true
}

/// Places one section into a sorted list, as `spec_insert_section` says;
/// `false` reports an overlap, leaving the list as it was.
#[verifier::loop_isolation(false)]
fn insert_section(list: &mut Vec<VmSectionMapping>, s: VmSectionMapping) -> (ok: bool)
    ensures
        match spec_insert_section(old(list).deep_view(), s.deep_view()) {
            None => !ok && final(list).deep_view() == old(list).deep_view(),
            Some(ns) => ok && final(list).deep_view() == ns,
        },
{
    let ghost l0 = list.deep_view();
    let ghost sv = s.deep_view();
    proof {
        assert(l0.skip(0) =~= l0);
        assert(l0.take(0) =~= Seq::<VmSectionMappingV>::empty());
        if spec_insert_section(l0, sv) is Some {
            assert(l0.take(0) + spec_insert_section(l0, sv)->Some_0 =~= spec_insert_section(l0, sv)->Some_0);
        }
    }
    let mut i: usize = 0;
    while i < list.len()
        invariant
            i <= list@.len(),
            list.deep_view() == l0,
            l0.len() == list@.len(),
            spec_insert_section(l0, sv) == opt_prepend(
                l0.take(i as int),
                spec_insert_section(l0.skip(i as int), sv),
            ),
        decreases list@.len() - i,
    {
        let h_start = list[i].va.start;
        let h_end = list[i].va.end;
        proof {
            assert(l0[i as int] == list@[i as int].deep_view());
            assert(l0.skip(i as int)[0] == l0[i as int]);
        }
        if s.va.start <= h_end && h_start <= s.va.end {
            proof {
                assert(spec_insert_section(l0.skip(i as int), sv) is None);
            }
            return false;
        } else if s.va.start < h_start {
            list.insert(i, s);
            proof {
                assert(spec_insert_section(l0.skip(i as int), sv) == Some(
                    seq![sv] + l0.skip(i as int),
                ));
                assert(list.deep_view() =~= l0.take(i as int) + (seq![sv] + l0.skip(i as int)));
            }
            return true;
        }
        proof {
            let rest = spec_insert_section(l0.skip(i + 1), sv);
            assert(l0.skip(i as int).skip(1) =~= l0.skip(i + 1));
            assert(spec_insert_section(l0.skip(i as int), sv) == opt_prepend(
                seq![l0[i as int]],
                rest,
            ));
            if rest is Some {
                assert(l0.take(i as int) + (seq![l0[i as int]] + rest->Some_0) =~= l0.take(i + 1)
                    + rest->Some_0);
            }
        }
        i = i + 1;
    }
    proof {
        assert(l0.skip(i as int) =~= Seq::<VmSectionMappingV>::empty());
        assert(spec_insert_section(l0.skip(i as int), sv) == Some(seq![sv]));
        assert(l0.take(i as int) =~= l0);
    }
    list.push(s);
    proof {
        assert(list.deep_view() =~= l0 + seq![sv]);
        assert(l0 + seq![sv] =~= l0.take(i as int) + seq![sv]);
    }
    true
}

pub proof fn lemma_section_symbols_err(
    sec_va_base: int,
    sh_addr: u64,
    shndx: int,
    syms: Seq<ElfSymbolV>,
    k: int,
)
    requires
        0 <= k <= syms.len(),
        spec_section_symbols(sec_va_base, sh_addr, shndx, syms.take(k)) is Err,
    ensures
        spec_section_symbols(sec_va_base, sh_addr, shndx, syms) == spec_section_symbols(
            sec_va_base,
            sh_addr,
            shndx,
            syms.take(k),
        ),
    decreases syms.len() - k,
{
    if k < syms.len() {
        assert(syms.take(k + 1).drop_last() =~= syms.take(k));
        lemma_section_symbols_err(sec_va_base, sh_addr, shndx, syms, k + 1);
    } else {
        assert(syms.take(k) =~= syms);
    }
}

pub proof fn lemma_kept_sections_err(
    rec: VmMapRecordV,
    elf_secs: Seq<ElfSectionV>,
    elf_syms: Seq<ElfSymbolV>,
    k: int,
)
    requires
        0 <= k <= elf_secs.len(),
        spec_kept_sections(rec, elf_secs.take(k), elf_syms) is Err,
    ensures
        spec_kept_sections(rec, elf_secs, elf_syms) == spec_kept_sections(
            rec,
            elf_secs.take(k),
            elf_syms,
        ),
    decreases elf_secs.len() - k,
{
    if k < elf_secs.len() {
        assert(elf_secs.take(k + 1).drop_last() =~= elf_secs.take(k));
        lemma_kept_sections_err(rec, elf_secs, elf_syms, k + 1);
    } else {
        assert(elf_secs.take(k) =~= elf_secs);
    }
}

pub proof fn lemma_sort_sections_err(ss: Seq<VmSectionMappingV>, k: int)
    requires
        0 <= k <= ss.len(),
        spec_sort_sections(ss.take(k)) is Err,
    ensures
        spec_sort_sections(ss) == spec_sort_sections(ss.take(k)),
    decreases ss.len() - k,
{
    if k < ss.len() {
        assert(ss.take(k + 1).drop_last() =~= ss.take(k));
        lemma_sort_sections_err(ss, k + 1);
    } else {
        assert(ss.take(k) =~= ss);
    }
}

/// The view of the optional local ELF handed to the builder.
pub open spec fn spec_local_view(local: Option<&LocalMorelloElfFile>) -> Option<
    LocalMorelloElfFileV,
> {
    match local {
        Some(f) => Some(f.deep_view()),
        None => None,
    }
}

/// Builds the mapping of one VM-map record, drawing sections and symbols
/// from the local ELF standing for the record's target, exactly as
/// `spec_build_mapping` says.
#[verifier::loop_isolation(false)]
#[verifier::rlimit(100)]
pub fn build_mapping(rec: &VmMapRecord, local: Option<&LocalMorelloElfFile>) -> (r: Result<
    VmMapping,
    MapError,
>)
    ensures
        match r {
            Ok(m) => spec_build_mapping(rec.deep_view(), spec_local_view(local)) == Ok::<
                VmMappingV,
                MapError,
            >(m.deep_view()),
            Err(e) => spec_build_mapping(rec.deep_view(), spec_local_view(local)) == Err::<
                VmMappingV,
                MapError,
            >(e),
        },
{
    let ghost recv = rec.deep_view();
    let ghost elfv = spec_local_view(local);
    if rec.end <= rec.start {
        return Err(MapError::EmptyMapping);
    }
    let mut kept: Vec<VmSectionMapping> = Vec::new();
    match local {
        None => {
            assert(kept.deep_view() =~= Seq::<VmSectionMappingV>::empty());
            assert(spec_build_sections(recv, elfv) == spec_sort_sections(kept.deep_view()));
        },
        Some(elf) => {
            let ghost es = elf.deep_view().sections;
            let ghost sy = elf.deep_view().symbols;
            let nsec = elf.sections.len();
            assert(es.take(0) =~= Seq::<ElfSectionV>::empty());
            assert(kept.deep_view() =~= Seq::<VmSectionMappingV>::empty());
            let mut i: usize = 0;
            while i < nsec
                invariant
                    i <= nsec,
                    spec_kept_sections(recv, es.take(i as int), sy) == Ok::<
                        Seq<VmSectionMappingV>,
                        MapError,
                    >(kept.deep_view()),
                decreases nsec - i,
            {
                let s = &elf.sections[i];
                proof {
                    assert(es[i as int] == elf.sections@[i as int].deep_view());
                    assert(es.take(i + 1).drop_last() =~= es.take(i as int));
                    assert(es.take(i + 1).last() == es[i as int]);
                }
                let retained = s.size > 0 && (s.flags & SHF_EXECINSTR) != 0 && (rec.offset
                    as u128) < (s.offset as u128 + s.size as u128) && (s.offset as u128) < (
                rec.offset as u128 + (rec.end - rec.start) as u128);
                assert(retained == spec_section_retained(recv, es[i as int]));
                if retained {
                    let start_i: i128 = rec.start as i128 + s.offset as i128 - rec.offset as i128;
                    let end_i: i128 = start_i + s.size as i128 - 1;
                    let ghost base: int = start_i as int;
                    proof {
                        // A retained section's file extent meets the record's
                        // window, so its re-based extent meets the record's
                        // address range.
                        assert(start_i < rec.end as i128);
                        assert(end_i >= rec.start as i128);
                    }
                    let c_start: u64 = if start_i < rec.start as i128 {
                        rec.start
                    } else {
                        start_i as u64
                    };
                    let c_end: u64 = if end_i > (rec.end - 1) as i128 {
                        rec.end - 1
                    } else {
                        end_i as u64
                    };
                    let mut syms: Vec<VmSymbolMapping> = Vec::new();
                    let nsym = elf.symbols.len();
                    assert(sy.take(0) =~= Seq::<ElfSymbolV>::empty());
                    assert(syms.deep_view() =~= Seq::<VmSymbolMappingV>::empty());
                    let mut j: usize = 0;
                    while j < nsym
                        invariant
                            j <= nsym,
                            spec_section_symbols(base, s.addr, i as int, sy.take(j as int))
                                == Ok::<Seq<VmSymbolMappingV>, MapError>(syms.deep_view()),
                        decreases nsym - j,
                    {
                        let sym = &elf.symbols[j];
                        proof {
                            assert(sy[j as int] == elf.symbols@[j as int].deep_view());
                            assert(sy.take(j + 1).drop_last() =~= sy.take(j as int));
                            assert(sy.take(j + 1).last() == sy[j as int]);
                        }
                        if !(sym.name_index == 0 || sym.size == 0 || sym.shndx == SHN_UNDEF
                            || sym.shndx as usize != i) {
                            let value = sym.value - sym.value % 2;
                            let s_start_i: i128 = start_i + value as i128 - s.addr as i128;
                            let s_end_i: i128 = s_start_i + sym.size as i128 - 1;
                            if !(0 <= s_start_i && s_end_i <= u64::MAX as i128) {
                                proof {
                                    lemma_section_symbols_err(base, s.addr, i as int, sy, j + 1);
                                    lemma_kept_sections_err(recv, es, sy, i + 1);
                                }
                                return Err(MapError::AddressRange);
                            }
                            let sv = VmSymbolMapping {
                                va: VaRange { start: s_start_i as u64, end: s_end_i as u64 },
                                name: vstd::slice::slice_to_vec(sym.name.as_slice()),
                                isa: if sym.value % 2 == 1 { Isa::C64 } else { Isa::A64 },
                            };
                            let ghost syms0 = syms.deep_view();
                            let ok = insert_symbol(&mut syms, sv);
                            if !ok {
                                proof {
                                    assert(spec_section_symbols(base, s.addr, i as int, sy.take(j + 1))
                                        == Err::<Seq<VmSymbolMappingV>, MapError>(MapError::SymbolOverlap));
                                    lemma_section_symbols_err(base, s.addr, i as int, sy, j + 1);
                                    lemma_kept_sections_err(recv, es, sy, i + 1);
                                }
                                return Err(MapError::SymbolOverlap);
                            }
                        }
                        j = j + 1;
                    }
                    proof {
                        assert(sy.take(nsym as int) =~= sy);
                    }
                    let secm = VmSectionMapping {
                        va: VaRange { start: c_start, end: c_end },
                        name: vstd::slice::slice_to_vec(s.name.as_slice()),
                        symbols: syms,
                    };
                    let ghost kept0 = kept.deep_view();
                    kept.push(secm);
                    proof {
                        assert(kept.deep_view() =~= kept0.push(secm.deep_view()));
                    }
                } else {
                }
                i = i + 1;
            }
            proof {
                assert(es.take(nsec as int) =~= es);
                assert(spec_build_sections(recv, elfv) == spec_sort_sections(kept.deep_view()));
            }
        },
    }
    let ghost keptv = kept.deep_view();
    assert(spec_build_sections(recv, elfv) == spec_sort_sections(keptv));
    let mut sections: Vec<VmSectionMapping> = Vec::new();
    let ghost n3 = keptv.len();
    assert(keptv.take(0) =~= Seq::<VmSectionMappingV>::empty());
    assert(sections.deep_view() =~= Seq::<VmSectionMappingV>::empty());
    assert(kept.deep_view() =~= keptv.skip(0));
    let ghost mut k: int = 0;
    while kept.len() > 0
        invariant
            0 <= k <= n3,
            kept@.len() + k == n3,
            kept.deep_view() =~= keptv.skip(k as int),
            spec_sort_sections(keptv.take(k as int)) == Ok::<Seq<VmSectionMappingV>, MapError>(
                sections.deep_view(),
            ),
        decreases kept@.len(),
    {
        let ghost keptpre = kept.deep_view();
        let sec = kept.remove(0);
        proof {
            assert(keptpre == keptv.skip(k as int));
            assert(keptv.skip(k as int)[0] == keptv[k as int]);
            assert(keptv.skip(k as int).skip(1) =~= keptv.skip(k + 1));
            assert(sec.deep_view() == keptpre[0]);
            assert(keptpre[0] == keptv[k as int]);
            assert(kept.deep_view() =~= keptpre.skip(1));
            assert(keptpre.skip(1) =~= keptv.skip(k + 1));
            assert(keptv.take(k + 1).drop_last() =~= keptv.take(k as int));
            assert(keptv.take(k + 1).last() == keptv[k as int]);
        }
        let ghost secs0 = sections.deep_view();
        let ok = insert_section(&mut sections, sec);
        if !ok {
            proof {
                assert(spec_sort_sections(keptv.take(k + 1)) == Err::<
                    Seq<VmSectionMappingV>,
                    MapError,
                >(MapError::SectionOverlap));
                lemma_sort_sections_err(keptv, k + 1);
            }
            return Err(MapError::SectionOverlap);
        }
        proof {
            k = k + 1;
        }
    }
    proof {
        assert(k == n3);
        assert(keptv.take(n3 as int) =~= keptv);
        assert(spec_sort_sections(keptv) == Ok::<Seq<VmSectionMappingV>, MapError>(
            sections.deep_view(),
        ));
    }
    let perms = match VmPerms::from_str(rec.perms.as_slice()) {
        Ok(p) => p,
        Err(pe) => {
            return Err(MapError::Perms(pe));
        },
    };
    let target_path = match rec.path {
        Some(ref p) => Some(vstd::slice::slice_to_vec(p.as_slice())),
        None => None,
    };
    let m = VmMapping {
        va: VaRange { start: rec.start, end: rec.end - 1 },
        offset_into_file: rec.offset,
        target_path,
        perms,
        sections,
    };
    proof {
        assert(m.deep_view().sections == spec_build_mapping(recv, elfv)->Ok_0.sections);
        assert(m.deep_view().target_path == recv.path);
        assert(m.deep_view() == spec_build_mapping(recv, elfv)->Ok_0);
    }
    Ok(m)
}

/// A symbol list is ordered when its ranges are well formed, sorted by
/// start address and pairwise disjoint.
pub open spec fn syms_ordered(ss: Seq<VmSymbolMappingV>) -> bool {
    &&& forall|x: int| 0 <= x < ss.len() ==> (#[trigger] ss[x]).va.wf()
    &&& forall|x: int, y: int|
        0 <= x < y < ss.len() ==> (#[trigger] ss[x]).va.end < (#[trigger] ss[y]).va.start
}

/// Every section of the list has a well-formed range and an ordered symbol
/// list.
pub open spec fn secs_wf(ss: Seq<VmSectionMappingV>) -> bool {
    forall|x: int|
        0 <= x < ss.len() ==> (#[trigger] ss[x]).va.wf() && syms_ordered(ss[x].symbols)
}

/// Every section of a mapping covers a sub-range of the mapping's own
/// virtual addresses.
pub open spec fn secs_within(m: VmMappingV) -> bool {
    forall|j: int|
        0 <= j < m.sections.len() ==> m.va.start <= (#[trigger] m.sections[j]).va.start
            && m.sections[j].va.end <= m.va.end
}

/// A section list is sorted when its ranges are sorted by start address and
/// pairwise disjoint.
pub open spec fn secs_sorted(ss: Seq<VmSectionMappingV>) -> bool {
    forall|x: int, y: int|
        0 <= x < y < ss.len() ==> (#[trigger] ss[x]).va.end < (#[trigger] ss[y]).va.start
}

/// What `spec_insert_symbol` yields: order is kept, and every entry of the
/// result is the inserted symbol or one already present.
pub proof fn lemma_insert_symbol_props(acc: Seq<VmSymbolMappingV>, s: VmSymbolMappingV)
    requires
        syms_ordered(acc),
        s.va.wf(),
    ensures
        spec_insert_symbol(acc, s) matches Some(r) ==> {
            &&& syms_ordered(r)
            &&& forall|y: int| 0 <= y < r.len() ==> (#[trigger] r[y]) == s || acc.contains(r[y])
        },
    decreases acc.len(),
{
    if acc.len() == 0 {
        if spec_insert_symbol(acc, s) is Some {
            let r = spec_insert_symbol(acc, s)->Some_0;
            assert(r =~= seq![s]);
        }
    } else {
        let h = acc[0];
        if s.va == h.va {
            if s.name.len() < h.name.len() {
                let r = seq![s] + acc.skip(1);
                assert forall|y: int| 0 <= y < r.len() implies (#[trigger] r[y]) == s
                    || acc.contains(r[y]) by {
                    if y > 0 {
                        assert(r[y] == acc[y]);
                        assert(acc.contains(r[y]));
                    }
                }
                assert(syms_ordered(r)) by {
                    assert forall|x: int, y: int| 0 <= x < y < r.len() implies r[x].va.end
                        < r[y].va.start by {
                        if x == 0 {
                            assert(r[y] == acc[y]);
                            assert(s.va.end == acc[0].va.end);
                        } else {
                            assert(r[x] == acc[x] && r[y] == acc[y]);
                        }
                    }
                }
            }
        } else if s.va.spec_overlaps(h.va) {
        } else if s.va.start < h.va.start {
            let r = seq![s] + acc;
            assert(s.va.end < h.va.start);
            assert forall|y: int| 0 <= y < r.len() implies (#[trigger] r[y]) == s || acc.contains(
                r[y],
            ) by {
                if y > 0 {
                    assert(r[y] == acc[y - 1]);
                    assert(acc.contains(r[y]));
                }
            }
            assert(syms_ordered(r)) by {
                assert forall|x: int, y: int| 0 <= x < y < r.len() implies r[x].va.end
                    < r[y].va.start by {
                    if x == 0 {
                        assert(r[y] == acc[y - 1]);
                        if y > 1 {
                            assert(acc[0].va.end < acc[y - 1].va.start);
                            assert(acc[0].va.start <= acc[0].va.end);
                        }
                    } else {
                        assert(r[x] == acc[x - 1] && r[y] == acc[y - 1]);
                    }
                }
            }
        } else {
            assert(s.va.start > h.va.end);
            assert(syms_ordered(acc.skip(1))) by {
                assert forall|x: int, y: int|
                    0 <= x < y < acc.skip(1).len() implies acc.skip(1)[x].va.end
                    < acc.skip(1)[y].va.start by {
                    assert(acc.skip(1)[x] == acc[x + 1] && acc.skip(1)[y] == acc[y + 1]);
                }
                assert(forall|x: int|
                    0 <= x < acc.skip(1).len() ==> (#[trigger] acc.skip(1)[x]) == acc[x + 1]);
            }
            lemma_insert_symbol_props(acc.skip(1), s);
            if spec_insert_symbol(acc.skip(1), s) is Some {
                let rr = spec_insert_symbol(acc.skip(1), s)->Some_0;
                let r = seq![h] + rr;
                assert forall|y: int| 0 <= y < r.len() implies (#[trigger] r[y]) == s
                    || acc.contains(r[y]) by {
                    if y == 0 {
                        assert(acc[0] == r[0]);
                        assert(acc.contains(r[0]));
                    } else {
                        assert(r[y] == rr[y - 1]);
                        if rr[y - 1] == s {
                        } else {
                            assert(acc.skip(1).contains(rr[y - 1]));
                            let z = choose|z: int|
                                0 <= z < acc.skip(1).len() && acc.skip(1)[z] == rr[y - 1];
                            assert(acc[z + 1] == rr[y - 1]);
                            assert(acc.contains(r[y]));
                        }
                    }
                }
                assert(syms_ordered(r)) by {
                    assert forall|x: int, y: int| 0 <= x < y < r.len() implies r[x].va.end
                        < r[y].va.start by {
                        if x == 0 {
                            assert(r[y] == rr[y - 1]);
                            if rr[y - 1] == s {
                            } else {
                                assert(acc.skip(1).contains(rr[y - 1]));
                                let z = choose|z: int|
                                    0 <= z < acc.skip(1).len() && acc.skip(1)[z] == rr[y - 1];
                                assert(acc[z + 1] == rr[y - 1]);
                                assert(acc[0].va.end < acc[z + 1].va.start);
                            }
                        } else {
                            assert(r[x] == rr[x - 1] && r[y] == rr[y - 1]);
                        }
                    }
                    assert(forall|x: int| 0 <= x < r.len() ==> (#[trigger] r[x]).va.wf());
                }
            }
        }
    }
}

/// A symbol whose range overlaps, without equalling, one already kept is
/// refused: `spec_insert_symbol` yields `None`, which the builder turns
/// into `MapError::SymbolOverlap`. Overlapping, unequal symbol ranges are
/// reported, never silently merged or dropped.
pub proof fn lemma_insert_symbol_overlapping(
    acc: Seq<VmSymbolMappingV>,
    s: VmSymbolMappingV,
    y: int,
)
    requires
        syms_ordered(acc),
        0 <= y < acc.len(),
        s.va.spec_overlaps(acc[y].va),
        s.va != acc[y].va,
    ensures
        spec_insert_symbol(acc, s) is None,
    decreases acc.len(),
{
    let h = acc[0];
    if s.va == h.va {
        assert(y >= 1);
        assert(acc[0].va.end < acc[y].va.start);
        assert(!s.va.spec_overlaps(acc[y].va));
        assert(false);
    } else if s.va.spec_overlaps(h.va) {
    } else if s.va.start < h.va.start {
        assert(h.va.start > s.va.end);
        assert(y >= 1);
        assert(acc[0].va.end < acc[y].va.start);
        assert(acc[0].va.start <= acc[0].va.end);
        assert(!s.va.spec_overlaps(acc[y].va));
        assert(false);
    } else {
        assert(s.va.start > h.va.end);
        assert(y >= 1);
        assert(forall|x: int|
            0 <= x < acc.skip(1).len() ==> (#[trigger] acc.skip(1)[x]) == acc[x + 1]);
        assert(syms_ordered(acc.skip(1)));
        lemma_insert_symbol_overlapping(acc.skip(1), s, y - 1);
    }
}

/// What `spec_insert_section` yields: order is kept, and every entry of the
/// result is the inserted section or one already present.
pub proof fn lemma_insert_section_props(acc: Seq<VmSectionMappingV>, s: VmSectionMappingV)
    requires
        secs_sorted(acc),
        forall|x: int| 0 <= x < acc.len() ==> (#[trigger] acc[x]).va.wf(),
        s.va.wf(),
    ensures
        spec_insert_section(acc, s) matches Some(r) ==> {
            &&& secs_sorted(r)
            &&& forall|y: int| 0 <= y < r.len() ==> (#[trigger] r[y]) == s || acc.contains(r[y])
        },
    decreases acc.len(),
{
    if acc.len() == 0 {
        if spec_insert_section(acc, s) is Some {
            let r = spec_insert_section(acc, s)->Some_0;
            assert(r =~= seq![s]);
        }
    } else {
        let h = acc[0];
        if s.va.spec_overlaps(h.va) {
        } else if s.va.start < h.va.start {
            let r = seq![s] + acc;
            assert(s.va.end < h.va.start);
            assert forall|y: int| 0 <= y < r.len() implies (#[trigger] r[y]) == s || acc.contains(
                r[y],
            ) by {
                if y > 0 {
                    assert(r[y] == acc[y - 1]);
                    assert(acc.contains(r[y]));
                }
            }
            assert(secs_sorted(r)) by {
                assert forall|x: int, y: int| 0 <= x < y < r.len() implies r[x].va.end
                    < r[y].va.start by {
                    if x == 0 {
                        assert(r[y] == acc[y - 1]);
                        if y > 1 {
                            assert(acc[0].va.end < acc[y - 1].va.start);
                            assert(acc[0].va.start <= acc[0].va.end);
                        }
                    } else {
                        assert(r[x] == acc[x - 1] && r[y] == acc[y - 1]);
                    }
                }
            }
        } else {
            assert(s.va.start > h.va.end);
            assert(secs_sorted(acc.skip(1)) && forall|x: int|
                0 <= x < acc.skip(1).len() ==> (#[trigger] acc.skip(1)[x]).va.wf()) by {
                assert(forall|x: int|
                    0 <= x < acc.skip(1).len() ==> (#[trigger] acc.skip(1)[x]) == acc[x + 1]);
            }
            lemma_insert_section_props(acc.skip(1), s);
            if spec_insert_section(acc.skip(1), s) is Some {
                let rr = spec_insert_section(acc.skip(1), s)->Some_0;
                let r = seq![h] + rr;
                assert forall|y: int| 0 <= y < r.len() implies (#[trigger] r[y]) == s
                    || acc.contains(r[y]) by {
                    if y == 0 {
                        assert(acc[0] == r[0]);
                        assert(acc.contains(r[0]));
                    } else {
                        assert(r[y] == rr[y - 1]);
                        if rr[y - 1] == s {
                        } else {
                            assert(acc.skip(1).contains(rr[y - 1]));
                            let z = choose|z: int|
                                0 <= z < acc.skip(1).len() && acc.skip(1)[z] == rr[y - 1];
                            assert(acc[z + 1] == rr[y - 1]);
                            assert(acc.contains(r[y]));
                        }
                    }
                }
                assert(secs_sorted(r)) by {
                    assert forall|x: int, y: int| 0 <= x < y < r.len() implies r[x].va.end
                        < r[y].va.start by {
                        if x == 0 {
                            assert(r[y] == rr[y - 1]);
                            if rr[y - 1] == s {
                            } else {
                                assert(acc.skip(1).contains(rr[y - 1]));
                                let z = choose|z: int|
                                    0 <= z < acc.skip(1).len() && acc.skip(1)[z] == rr[y - 1];
                                assert(acc[z + 1] == rr[y - 1]);
                                assert(acc[0].va.end < acc[z + 1].va.start);
                            }
                        } else {
                            assert(r[x] == rr[x - 1] && r[y] == rr[y - 1]);
                        }
                    }
                }
            }
        }
    }
}

/// Symbol lists built by `spec_section_symbols` are ordered.
pub proof fn lemma_section_symbols_props(
    sec_va_base: int,
    sh_addr: u64,
    shndx: int,
    syms: Seq<ElfSymbolV>,
)
    ensures
        spec_section_symbols(sec_va_base, sh_addr, shndx, syms) matches Ok(sl) ==> syms_ordered(
            sl,
        ),
    decreases syms.len(),
{
    if syms.len() == 0 {
    } else {
        lemma_section_symbols_props(sec_va_base, sh_addr, shndx, syms.drop_last());
        if spec_section_symbols(sec_va_base, sh_addr, shndx, syms.drop_last()) is Ok {
            let acc = spec_section_symbols(sec_va_base, sh_addr, shndx, syms.drop_last())->Ok_0;
            let sym = syms.last();
            if !(sym.name_index == 0 || sym.size == 0 || sym.shndx == SHN_UNDEF || sym.shndx as int
                != shndx) {
                let value = sym.value - sym.value % 2;
                let start = sec_va_base + value - sh_addr;
                let end = start + sym.size - 1;
                if 0 <= start && end <= u64::MAX {
                    let sv = VmSymbolMappingV {
                        va: VaRange { start: start as u64, end: end as u64 },
                        name: sym.name,
                        isa: if sym.value % 2 == 1 { Isa::C64 } else { Isa::A64 },
                    };
                    assert(sv.va.wf());
                    lemma_insert_symbol_props(acc, sv);
                }
            }
        }
    }
}

/// Sections kept by `spec_kept_sections` have well-formed ranges lying
/// inside the record's own range, and ordered symbol lists.
pub proof fn lemma_kept_sections_props(
    rec: VmMapRecordV,
    elf_secs: Seq<ElfSectionV>,
    elf_syms: Seq<ElfSymbolV>,
)
    requires
        rec.end > rec.start,
    ensures
        spec_kept_sections(rec, elf_secs, elf_syms) matches Ok(ks) ==> forall|x: int|
            0 <= x < ks.len() ==> (#[trigger] ks[x]).va.wf() && syms_ordered(ks[x].symbols)
                && rec.start <= ks[x].va.start && ks[x].va.end <= rec.end - 1,
    decreases elf_secs.len(),
{
    if elf_secs.len() == 0 {
    } else {
        lemma_kept_sections_props(rec, elf_secs.drop_last(), elf_syms);
        if spec_kept_sections(rec, elf_secs.drop_last(), elf_syms) is Ok {
            let ks = spec_kept_sections(rec, elf_secs.drop_last(), elf_syms)->Ok_0;
            let s = elf_secs.last();
            let idx = elf_secs.len() - 1;
            if spec_section_retained(rec, s) {
                let (start, end) = spec_section_va(rec, s);
                let cstart = if start < rec.start { rec.start as int } else { start };
                let cend = if end > rec.end - 1 { rec.end - 1 } else { end };
                assert(start < rec.end);
                assert(end >= rec.start);
                lemma_section_symbols_props(start, s.addr, idx as int, elf_syms);
                if spec_section_symbols(start, s.addr, idx as int, elf_syms) is Ok {
                    let sl = spec_section_symbols(start, s.addr, idx as int, elf_syms)->Ok_0;
                    let pushed = VmSectionMappingV {
                        va: VaRange { start: cstart as u64, end: cend as u64 },
                        name: s.name,
                        symbols: sl,
                    };
                    assert(pushed.va.wf());
                    assert(forall|x: int|
                        0 <= x < ks.len() ==> (#[trigger] ks.push(pushed)[x]) == ks[x]);
                    assert(ks.push(pushed)[ks.len() as int] == pushed);
                }
            }
        }
    }
}

/// Section lists built by `spec_sort_sections` from well-formed sections
/// are sorted, disjoint and keep their symbol lists ordered.
pub proof fn lemma_sort_sections_props(ss: Seq<VmSectionMappingV>)
    requires
        forall|x: int| 0 <= x < ss.len() ==> (#[trigger] ss[x]).va.wf() && syms_ordered(
            ss[x].symbols,
        ),
    ensures
        spec_sort_sections(ss) matches Ok(r) ==> secs_sorted(r) && secs_wf(r) && (forall|y: int|
            0 <= y < r.len() ==> ss.contains(#[trigger] r[y])),
    decreases ss.len(),
{
    if ss.len() == 0 {
    } else {
        assert(forall|x: int|
            0 <= x < ss.drop_last().len() ==> (#[trigger] ss.drop_last()[x]) == ss[x]);
        lemma_sort_sections_props(ss.drop_last());
        if spec_sort_sections(ss.drop_last()) is Ok {
            let acc = spec_sort_sections(ss.drop_last())->Ok_0;
            let s = ss.last();
            lemma_insert_section_props(acc, s);
            if spec_insert_section(acc, s) is Some {
                let r = spec_insert_section(acc, s)->Some_0;
                assert forall|y: int| 0 <= y < r.len() implies (#[trigger] r[y]).va.wf()
                    && syms_ordered(r[y].symbols) && ss.contains(r[y]) by {
                    if r[y] == s {
                        assert(ss[ss.len() - 1] == r[y]);
                        assert(ss.contains(r[y]));
                    } else {
                        assert(acc.contains(r[y]));
                        let z = choose|z: int| 0 <= z < acc.len() && acc[z] == r[y];
                        assert(acc[z].va.wf() && syms_ordered(acc[z].symbols));
                        assert(ss.drop_last().contains(acc[z]));
                        let w = choose|w: int|
                            0 <= w < ss.drop_last().len() && ss.drop_last()[w] == acc[z];
                        assert(ss[w] == r[y]);
                        assert(ss.contains(r[y]));
                    }
                }
            }
        }
    }
}

/// A mapping built by `spec_build_mapping` has a well-formed range and
/// sorted, disjoint sections whose symbol lists are ordered.
pub proof fn lemma_build_mapping_props(rec: VmMapRecordV, elf: Option<LocalMorelloElfFileV>)
    ensures
        spec_build_mapping(rec, elf) matches Ok(m) ==> {
            &&& m.va.wf()
            &&& secs_sorted(m.sections)
            &&& secs_wf(m.sections)
            &&& secs_within(m)
            &&& m.va.start == rec.start && m.va.end == rec.end - 1
        },
{
    if rec.end > rec.start {
        match elf {
            None => {
            },
            Some(e) => {
                lemma_kept_sections_props(rec, e.sections, e.symbols);
                if spec_kept_sections(rec, e.sections, e.symbols) is Ok {
                    let ks = spec_kept_sections(rec, e.sections, e.symbols)->Ok_0;
                    lemma_sort_sections_props(ks);
                    if spec_sort_sections(ks) is Ok {
                        let r = spec_sort_sections(ks)->Ok_0;
                        assert forall|j: int| 0 <= j < r.len() implies rec.start <= (
                        #[trigger] r[j]).va.start && r[j].va.end <= rec.end - 1 by {
                            assert(ks.contains(r[j]));
                            let z = choose|z: int| 0 <= z < ks.len() && ks[z] == r[j];
                            assert(rec.start <= ks[z].va.start && ks[z].va.end <= rec.end - 1);
                        }
                    }
                }
            },
        }
    }
}

} // verus!
