//! Inputs that each error variant comes from.

use map_symbols::elfdata::{ElfSection, ElfSymbol, LocalMorelloElfFile};
use map_symbols::mapping::{build_mapping, MapError, VmMapRecord};
use map_symbols::text::{ParseError, VmMapTextError};
use map_symbols::vmmap::{ElfCacheEntry, VmMap, VmMapError};

fn record(start: u64, end: u64, perms: &[u8], offset: u64, path: Option<&[u8]>) -> VmMapRecord {
    VmMapRecord {
        start,
        end,
        perms: perms.to_vec(),
        offset,
        path: path.map(|p| p.to_vec()),
    }
}

#[test]
fn rebased_symbol_outside_the_address_space_fails() {
    // The section's link address lies far above the symbol's value, so the
    // re-based symbol address would be negative.
    let rec = record(0x1000, 0x2000, b"r-x--", 0, Some(b"/bin/foo"));
    let elf = LocalMorelloElfFile {
        path: b"/local/foo".to_vec(),
        sections: vec![ElfSection {
            name: b".text".to_vec(),
            addr: 0xffff_0000,
            offset: 0,
            size: 0x800,
            flags: 4,
        }],
        symbols: vec![ElfSymbol {
            name: b"neg".to_vec(),
            name_index: 1,
            value: 0x10,
            size: 0x10,
            shndx: 0,
        }],
    };
    // shndx 0 is the undefined marker, so hang the symbol off a one-entry
    // table by using index 0 as a real section here; the builder skips
    // undefined symbols, so use a second section instead.
    let elf = LocalMorelloElfFile {
        sections: vec![elf.sections[0].clone(), elf.sections[0].clone()],
        symbols: vec![ElfSymbol { shndx: 1, ..elf.symbols[0].clone() }],
        path: elf.path,
    };
    assert!(matches!(
        build_mapping(&rec, Some(&elf)),
        Err(MapError::AddressRange)
    ));
}

#[test]
fn overlapping_sections_fail() {
    let rec = record(0x1000, 0x2000, b"r-x--", 0, Some(b"/bin/foo"));
    let elf = LocalMorelloElfFile {
        path: b"/local/foo".to_vec(),
        sections: vec![
            ElfSection { name: b".a".to_vec(), addr: 0, offset: 0, size: 0x100, flags: 4 },
            ElfSection { name: b".b".to_vec(), addr: 0, offset: 0x80, size: 0x100, flags: 4 },
        ],
        symbols: vec![],
    };
    assert!(matches!(
        build_mapping(&rec, Some(&elf)),
        Err(MapError::SectionOverlap)
    ));
}

#[test]
fn record_error_carries_through_construct() {
    let records = vec![record(0x1000, 0x2000, b"?????", 0, None)];
    let elfs: Vec<ElfCacheEntry> = Vec::new();
    assert!(matches!(
        VmMap::construct(&records, &elfs),
        Err(VmMapError::Record(MapError::Perms(_)))
    ));
}

#[test]
fn csv_reader_faults_are_reported() {
    // A record wider than the header is a read fault in the CSV layer.
    let elfs: Vec<ElfCacheEntry> = Vec::new();
    let csv = b"Start,End,Permissions,Offset,Path\n0x1000,0x2000,r-x--,0x0,,extra\n";
    assert!(matches!(
        VmMap::from_csv(csv, &elfs),
        Err(VmMapTextError::Parse(ParseError::Csv))
    ));
}

#[test]
fn construct_error_carries_through_from_csv() {
    let elfs: Vec<ElfCacheEntry> = Vec::new();
    let csv = b"Start,End,Permissions,Offset,Path\n\
0x1000,0x3000,r-x--,0x0,\n\
0x2000,0x4000,rw---,0x0,\n";
    assert!(matches!(
        VmMap::from_csv(csv, &elfs),
        Err(VmMapTextError::Construct(VmMapError::MappingOverlap))
    ));
}

#[test]
fn generated_line_must_close_properly() {
    let elfs: Vec<ElfCacheEntry> = Vec::new();
    let text = b"---- BEGIN VM MAP ----\n\
Start,End,Permissions,Offset,Path\n\
0x1000,0x2000,r-x--,0x0,\n\
---- END VM MAP ----\n\
Generated 9 bytes in /work/run.tarmac [42,4200)\n";
    let (_, inferred) = VmMap::from_stdout(text, &elfs).unwrap();
    // Without the closing dots the trailing line infers nothing.
    assert!(inferred.is_none());
}
