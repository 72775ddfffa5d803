//! Plain records of the structural data read from a local ELF file.
//!
//! The ELF format itself is decoded by the `elf` crate; the records here
//! carry the fields the mapping builder consumes, as plain values.

use vstd::prelude::*;
use crate::bytes::{SLASH, basename_of, basename, join_path, join};

verus! {

/// One section header: its name and the location fields the builder reads.
#[derive(Clone, Debug)]
pub struct ElfSection {
    pub name: Vec<u8>,
    pub addr: u64,
    pub offset: u64,
    pub size: u64,
    pub flags: u64,
}

/// The mathematical value of an `ElfSection`.
pub struct ElfSectionV {
    pub name: Seq<u8>,
    pub addr: u64,
    pub offset: u64,
    pub size: u64,
    pub flags: u64,
}

impl View for ElfSection {
    type V = ElfSectionV;

    open spec fn view(&self) -> ElfSectionV {
        ElfSectionV {
            name: self.name@,
            addr: self.addr,
            offset: self.offset,
            size: self.size,
            flags: self.flags,
        }
    }
}

impl DeepView for ElfSection {
    type V = ElfSectionV;

    open spec fn deep_view(&self) -> ElfSectionV {
        self.view()
    }
}

/// One symbol-table entry: its name and the fields the builder reads.
#[derive(Clone, Debug)]
pub struct ElfSymbol {
    pub name: Vec<u8>,
    pub name_index: u32,
    pub value: u64,
    pub size: u64,
    pub shndx: u16,
}

/// The mathematical value of an `ElfSymbol`.
pub struct ElfSymbolV {
    pub name: Seq<u8>,
    pub name_index: u32,
    pub value: u64,
    pub size: u64,
    pub shndx: u16,
}

impl View for ElfSymbol {
    type V = ElfSymbolV;

    open spec fn view(&self) -> ElfSymbolV {
        ElfSymbolV {
            name: self.name@,
            name_index: self.name_index,
            value: self.value,
            size: self.size,
            shndx: self.shndx,
        }
    }
}

impl DeepView for ElfSymbol {
    type V = ElfSymbolV;

    open spec fn deep_view(&self) -> ElfSymbolV {
        self.view()
    }
}

/// The section headers a little-endian ELF holds, with their names, in
/// table order; `None` when the bytes are not a well-formed ELF. An ELF
/// without a section-name string table has no usable sections.
pub uninterp spec fn elf_sections_of(data: Seq<u8>) -> Option<Seq<ElfSectionV>>;

/// The `.symtab` entries a little-endian ELF holds, with their names, in
/// table order; `None` when the bytes are not a well-formed ELF.
pub uninterp spec fn elf_symbols_of(data: Seq<u8>) -> Option<Seq<ElfSymbolV>>;

/// Relies on `elf::ElfBytes::minimal_parse` and
/// `elf::ElfBytes::section_headers_with_strtab`: the section headers and
/// their names are a function of the bytes alone. A parse fault anywhere
/// (malformed header, bad name offset) yields `None`; an ELF without
/// section headers or without a section-name string table yields no
/// sections, as the `elf` crate reports those as absent rather than faults.
#[verifier::external_body]
fn parse_elf_sections(data: &[u8]) -> (r: Option<Vec<ElfSection>>)
    ensures
        match r {
            Some(v) => elf_sections_of(data@) == Some(v.deep_view()),
            None => elf_sections_of(data@) is None,
        },
{
    let file = elf::ElfBytes::<elf::endian::LittleEndian>::minimal_parse(data).ok()?;
    let (shdrs, strtab) = match file.section_headers_with_strtab() {
        Ok((Some(shdrs), Some(strtab))) => (shdrs, strtab),
        Ok(_) => return Some(Vec::new()),
        Err(_) => return None,
    };
    let mut out: Vec<ElfSection> = Vec::new();
    for h in shdrs.iter() {
        let name = strtab.get_raw(h.sh_name as usize).ok()?.to_vec();
        out.push(ElfSection { name, addr: h.sh_addr, offset: h.sh_offset, size: h.sh_size, flags: h.sh_flags });
    }
    Some(out)
}

/// Relies on `elf::ElfBytes::minimal_parse` and
/// `elf::ElfBytes::symbol_table`: the `.symtab` entries and their names are
/// a function of the bytes alone. A parse fault yields `None`; an ELF
/// without a `.symtab` yields no symbols, as the `elf` crate reports that
/// as absent rather than a fault.
#[verifier::external_body]
fn parse_elf_symbols(data: &[u8]) -> (r: Option<Vec<ElfSymbol>>)
    ensures
        match r {
            Some(v) => elf_symbols_of(data@) == Some(v.deep_view()),
            None => elf_symbols_of(data@) is None,
        },
{
    let file = elf::ElfBytes::<elf::endian::LittleEndian>::minimal_parse(data).ok()?;
    let (symtab, strtab) = match file.symbol_table() {
        Ok(Some(t)) => t,
        Ok(None) => return Some(Vec::new()),
        Err(_) => return None,
    };
    let mut out: Vec<ElfSymbol> = Vec::new();
    for s in symtab.iter() {
        let name = strtab.get_raw(s.st_name as usize).ok()?.to_vec();
        out.push(ElfSymbol { name, name_index: s.st_name, value: s.st_value, size: s.st_size, shndx: s.st_shndx });
    }
    Some(out)
}

/// An ELF file was found locally but its bytes could not be decoded.
#[derive(Clone, Copy, Debug, PartialEq, Eq, Structural)]
pub struct ElfParseError;

/// A local ELF file that can be inspected, assuming that it is the same as
/// the one that ran on the target: its path and its decoded structure.
#[derive(Clone, Debug)]
pub struct LocalMorelloElfFile {
    pub path: Vec<u8>,
    pub sections: Vec<ElfSection>,
    pub symbols: Vec<ElfSymbol>,
}

/// The mathematical value of a `LocalMorelloElfFile`.
pub struct LocalMorelloElfFileV {
    pub path: Seq<u8>,
    pub sections: Seq<ElfSectionV>,
    pub symbols: Seq<ElfSymbolV>,
}

impl DeepView for LocalMorelloElfFile {
    type V = LocalMorelloElfFileV;

    open spec fn deep_view(&self) -> LocalMorelloElfFileV {
        LocalMorelloElfFileV {
            path: self.path@,
            sections: self.sections.deep_view(),
            symbols: self.symbols.deep_view(),
        }
    }
}

impl LocalMorelloElfFile {
    /// Decodes the bytes of a local ELF file. A file that exists but cannot
    /// be decoded is an error; absence of section headers or of a symbol
    /// table is not.
    pub fn from_bytes(path: Vec<u8>, data: &[u8]) -> (r: Result<LocalMorelloElfFile, ElfParseError>)
        ensures
            r is Ok <==> (elf_sections_of(data@) is Some && elf_symbols_of(data@) is Some),
            r matches Ok(f) ==> {
                &&& f.path@ == path@
                &&& Some(f.sections.deep_view()) == elf_sections_of(data@)
                &&& Some(f.symbols.deep_view()) == elf_symbols_of(data@)
            },
    {
        let sections = match parse_elf_sections(data) {
            Some(s) => s,
            None => return Err(ElfParseError),
        };
        let symbols = match parse_elf_symbols(data) {
            Some(s) => s,
            None => return Err(ElfParseError),
        };
        Ok(LocalMorelloElfFile { path, sections, symbols })
    }
}

/// Each directory joined with the same relative component.
pub open spec fn join_each(dirs: Seq<Seq<u8>>, rel: Seq<u8>) -> Seq<Seq<u8>> {
    dirs.map_values(|d: Seq<u8>| join_path(d, rel))
}

/// The local paths at which a copy of `target` may be found: each ELF
/// directory joined with the target's base filename, then each rootfs
/// directory joined with the target path stripped of its leading `/`.
pub open spec fn spec_elf_candidates(
    target: Seq<u8>,
    elf_dirs: Seq<Seq<u8>>,
    rootfs: Seq<Seq<u8>>,
) -> Seq<Seq<u8>> {
    (if basename_of(target).len() > 0 {
        join_each(elf_dirs, basename_of(target))
    } else {
        Seq::<Seq<u8>>::empty()
    }) + (if target.len() > 0 && target[0] == SLASH {
        join_each(rootfs, target.skip(1))
    } else {
        Seq::<Seq<u8>>::empty()
    })
}

/// The candidate local paths for `target`, in search order.
pub fn local_elf_candidates(target: &[u8], elf_dirs: &Vec<Vec<u8>>, rootfs: &Vec<Vec<u8>>) -> (r:
    Vec<Vec<u8>>)
    ensures
        r.deep_view() == spec_elf_candidates(target@, elf_dirs.deep_view(), rootfs.deep_view()),
{
    let mut out: Vec<Vec<u8>> = Vec::new();
    let base = basename(target);
    let ghost n1: int = if basename_of(target@).len() > 0 { elf_dirs@.len() as int } else { 0 };
    if base.len() > 0 {
        let mut i: usize = 0;
        while i < elf_dirs.len()
            invariant
                i <= elf_dirs@.len(),
                out@.len() == i,
                base@ == basename_of(target@),
                forall|j: int|
                    0 <= j < i ==> (#[trigger] out@[j])@ == join_path(
                        elf_dirs@[j]@,
                        basename_of(target@),
                    ),
            decreases elf_dirs.len() - i,
        {
            let c = join(elf_dirs[i].as_slice(), base.as_slice());
            out.push(c);
            i = i + 1;
        }
    }
    let ghost mid = out@;
    if target.len() > 0 && target[0] == SLASH {
        let mut suffix: Vec<u8> = Vec::new();
        let mut k: usize = 1;
        while k < target.len()
            invariant
                1 <= k <= target@.len(),
                suffix@ =~= target@.subrange(1, k as int),
            decreases target.len() - k,
        {
            suffix.push(target[k]);
            k = k + 1;
        }
        assert(suffix@ =~= target@.skip(1));
        let mut i: usize = 0;
        while i < rootfs.len()
            invariant
                i <= rootfs@.len(),
                out@.len() == mid.len() + i,
                suffix@ == target@.skip(1),
                out@.take(mid.len() as int) == mid,
                forall|j: int|
                    0 <= j < i ==> (#[trigger] out@[mid.len() + j])@ == join_path(
                        rootfs@[j]@,
                        target@.skip(1),
                    ),
            decreases rootfs.len() - i,
        {
            let c = join(rootfs[i].as_slice(), suffix.as_slice());
            out.push(c);
            assert(out@.take(mid.len() as int) =~= mid);
            i = i + 1;
        }
    }
    proof {
        let ed = elf_dirs.deep_view();
        let rf = rootfs.deep_view();
        let sr = spec_elf_candidates(target@, ed, rf);
        let n2: int = if target@.len() > 0 && target@[0] == SLASH { rootfs@.len() as int } else {
            0
        };
        assert(out@.len() == n1 + n2);
        assert(sr.len() == n1 + n2);
        assert forall|j: int| 0 <= j < n1 + n2 implies out.deep_view()[j] == sr[j] by {
            assert(out.deep_view()[j] == out@[j].deep_view());
            assert(out@[j].deep_view() =~= out@[j]@);
            if j < n1 {
                assert(out@.take(mid.len() as int)[j] == out@[j]);
                assert(out@[j] == mid[j]);
                assert(mid[j]@ == join_path(elf_dirs@[j]@, basename_of(target@)));
                assert(ed[j] =~= elf_dirs@[j]@);
                assert(sr[j] == join_each(ed, basename_of(target@))[j]);
                assert(join_each(ed, basename_of(target@))[j] == join_path(
                    ed[j],
                    basename_of(target@),
                ));
            } else {
                assert(out@[mid.len() + (j - n1)]@ == join_path(
                    rootfs@[j - n1]@,
                    target@.skip(1),
                ));
                assert(rf[j - n1] =~= rootfs@[j - n1]@);
                assert(sr[j] == join_each(rf, target@.skip(1))[j - n1]);
                assert(join_each(rf, target@.skip(1))[j - n1] == join_path(
                    rf[j - n1],
                    target@.skip(1),
                ));
            }
        };
        assert(out.deep_view() =~= sr);
    }
    out
}

} // verus!
