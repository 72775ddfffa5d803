//! Construction of mappings and whole maps from records and ELF data.

use map_symbols::counts::InsnCount;
use map_symbols::elfdata::{ElfSection, ElfSymbol, LocalMorelloElfFile};
use map_symbols::mapping::{build_mapping, Isa, MapError, VmMapRecord};
use map_symbols::perms::PermsError;
use map_symbols::vmmap::{ElfCacheEntry, VmMap, VmMapError};

fn text_section(addr: u64, offset: u64, size: u64) -> ElfSection {
    ElfSection { name: b".text".to_vec(), addr, offset, size, flags: 4 }
}

fn null_section() -> ElfSection {
    ElfSection { name: Vec::new(), addr: 0, offset: 0, size: 0, flags: 0 }
}

fn sym(name: &[u8], value: u64, size: u64, shndx: u16) -> ElfSymbol {
    ElfSymbol { name: name.to_vec(), name_index: 1, value, size, shndx }
}

fn record(start: u64, end: u64, perms: &[u8], offset: u64, path: Option<&[u8]>) -> VmMapRecord {
    VmMapRecord {
        start,
        end,
        perms: perms.to_vec(),
        offset,
        path: path.map(|p| p.to_vec()),
    }
}

fn foo_elf() -> LocalMorelloElfFile {
    LocalMorelloElfFile {
        path: b"/local/foo".to_vec(),
        sections: vec![null_section(), text_section(0, 0, 0x800)],
        symbols: vec![sym(b"main", 0x10, 0x100, 1)],
    }
}

#[test]
fn empty_mapping_is_rejected() {
    let rec = record(0x2000, 0x2000, b"r-x--", 0, None);
    assert!(matches!(build_mapping(&rec, None), Err(MapError::EmptyMapping)));
    let rec = record(0x2000, 0x1000, b"r-x--", 0, None);
    assert!(matches!(build_mapping(&rec, None), Err(MapError::EmptyMapping)));
}

#[test]
fn bad_permissions_are_rejected() {
    let rec = record(0x1000, 0x2000, b"q-x--", 0, None);
    assert!(matches!(
        build_mapping(&rec, None),
        Err(MapError::Perms(PermsError::UnrecognisedChar))
    ));
}

#[test]
fn anonymous_mapping_has_no_sections() {
    let rec = record(0x1000, 0x2000, b"rw---", 0, None);
    let m = build_mapping(&rec, None).unwrap();
    assert_eq!(m.va.start, 0x1000);
    assert_eq!(m.va.end, 0x1fff);
    assert!(m.perms.read && m.perms.write && !m.perms.execute);
    assert!(m.sections.is_empty());
    assert!(m.target_path().is_none());
}

#[test]
fn sections_and_symbols_are_rebased() {
    let rec = record(0x1000, 0x2000, b"r-x--", 0, Some(b"/bin/foo"));
    let elf = foo_elf();
    let m = build_mapping(&rec, Some(&elf)).unwrap();
    assert_eq!(m.sections.len(), 1);
    let sec = &m.sections[0];
    assert_eq!(sec.name, b".text".to_vec());
    assert_eq!(sec.va.start, 0x1000);
    assert_eq!(sec.va.end, 0x17ff);
    assert_eq!(sec.symbols.len(), 1);
    let s = &sec.symbols[0];
    assert_eq!(s.name, b"main".to_vec());
    assert_eq!(s.va.start, 0x1010);
    assert_eq!(s.va.end, 0x110f);
    assert_eq!(s.isa, Isa::A64);
}

#[test]
fn low_bit_selects_c64_and_is_stripped() {
    let rec = record(0x1000, 0x2000, b"r-x--", 0, Some(b"/bin/foo"));
    let elf = LocalMorelloElfFile {
        path: b"/local/foo".to_vec(),
        sections: vec![null_section(), text_section(0, 0, 0x800)],
        symbols: vec![sym(b"centry", 0x21, 0x40, 1)],
    };
    let m = build_mapping(&rec, Some(&elf)).unwrap();
    let s = &m.sections[0].symbols[0];
    assert_eq!(s.isa, Isa::C64);
    assert_eq!(s.va.start, 0x1020);
    assert_eq!(s.va.end, 0x105f);
}

#[test]
fn sections_are_clamped_to_the_mapping() {
    // A short mapping over a long executable section: the kept section is a
    // sub-range of the mapping's addresses, while symbols keep their
    // unclamped re-based positions.
    let rec = record(0x1000, 0x1100, b"r-x--", 0, Some(b"/bin/foo"));
    let elf = foo_elf();
    let m = build_mapping(&rec, Some(&elf)).unwrap();
    assert_eq!(m.sections.len(), 1);
    let sec = &m.sections[0];
    assert_eq!(sec.va.start, 0x1000);
    assert_eq!(sec.va.end, 0x10ff);
    assert!(sec.va.end <= m.va.end);
    assert_eq!(sec.symbols[0].va.start, 0x1010);
    assert_eq!(sec.symbols[0].va.end, 0x110f);
    // Addresses inside the mapping still resolve through the clamped
    // section to the symbol.
    let elfs = vec![ElfCacheEntry { path: b"/bin/foo".to_vec(), elf: Some(foo_elf()) }];
    let map = VmMap::construct(&vec![rec], &elfs).unwrap();
    let info = map.addr_info(0x1010).unwrap();
    assert!(info.section.is_some() && info.symbol.is_some());
}

#[test]
fn non_executable_sections_are_dropped() {
    let rec = record(0x1000, 0x2000, b"r-x--", 0, Some(b"/bin/foo"));
    let elf = LocalMorelloElfFile {
        path: b"/local/foo".to_vec(),
        sections: vec![
            null_section(),
            ElfSection { name: b".data".to_vec(), addr: 0, offset: 0, size: 0x100, flags: 3 },
        ],
        symbols: vec![],
    };
    let m = build_mapping(&rec, Some(&elf)).unwrap();
    assert!(m.sections.is_empty());
}

#[test]
fn aliased_symbols_coalesce_to_shorter_name() {
    let rec = record(0x1000, 0x2000, b"r-x--", 0, Some(b"/bin/foo"));
    let elf = LocalMorelloElfFile {
        path: b"/local/foo".to_vec(),
        sections: vec![null_section(), text_section(0, 0, 0x800)],
        symbols: vec![
            sym(b"very_long_alias", 0x10, 0x100, 1),
            sym(b"main", 0x10, 0x100, 1),
        ],
    };
    let m = build_mapping(&rec, Some(&elf)).unwrap();
    let sec = &m.sections[0];
    assert_eq!(sec.symbols.len(), 1);
    assert_eq!(sec.symbols[0].name, b"main".to_vec());
}

#[test]
fn alias_tie_keeps_earlier_symbol() {
    let rec = record(0x1000, 0x2000, b"r-x--", 0, Some(b"/bin/foo"));
    let elf = LocalMorelloElfFile {
        path: b"/local/foo".to_vec(),
        sections: vec![null_section(), text_section(0, 0, 0x800)],
        symbols: vec![sym(b"abcd", 0x10, 0x100, 1), sym(b"wxyz", 0x10, 0x100, 1)],
    };
    let m = build_mapping(&rec, Some(&elf)).unwrap();
    assert_eq!(m.sections[0].symbols[0].name, b"abcd".to_vec());
}

#[test]
fn overlapping_unequal_symbols_fail() {
    // Two symbols with overlapping but unequal ranges inside one binary:
    // construction reports the overlap, never a best-effort pick.
    let rec = record(0x1000, 0x2000, b"r-x--", 0, Some(b"/bin/foo"));
    let elf = LocalMorelloElfFile {
        path: b"/local/foo".to_vec(),
        sections: vec![null_section(), text_section(0, 0, 0x800)],
        symbols: vec![sym(b"first", 0x10, 0x100, 1), sym(b"second", 0x80, 0x100, 1)],
    };
    assert!(matches!(
        build_mapping(&rec, Some(&elf)),
        Err(MapError::SymbolOverlap)
    ));
}

#[test]
fn skipped_symbols() {
    // Unnamed, zero-size, undefined, and out-of-table symbols are all left out.
    let rec = record(0x1000, 0x2000, b"r-x--", 0, Some(b"/bin/foo"));
    let mut unnamed = sym(b"x", 0x10, 0x10, 1);
    unnamed.name_index = 0;
    let elf = LocalMorelloElfFile {
        path: b"/local/foo".to_vec(),
        sections: vec![null_section(), text_section(0, 0, 0x800)],
        symbols: vec![
            unnamed,
            sym(b"zerosize", 0x20, 0, 1),
            sym(b"undefined", 0x30, 0x10, 0),
            sym(b"absolute", 0x40, 0x10, 0xfff1),
            sym(b"kept", 0x50, 0x10, 1),
        ],
    };
    let m = build_mapping(&rec, Some(&elf)).unwrap();
    let sec = &m.sections[0];
    assert_eq!(sec.symbols.len(), 1);
    assert_eq!(sec.symbols[0].name, b"kept".to_vec());
}

fn two_record_map() -> (Vec<VmMapRecord>, Vec<ElfCacheEntry>) {
    let records = vec![
        record(0x4000, 0x5000, b"rw---", 0, None),
        record(0x1000, 0x2000, b"r-x--", 0, Some(b"/bin/foo")),
    ];
    let elfs = vec![ElfCacheEntry { path: b"/bin/foo".to_vec(), elf: Some(foo_elf()) }];
    (records, elfs)
}

#[test]
fn construct_sorts_mappings() {
    // The constructed mapping list is sorted by start address and pairwise
    // non-overlapping, whatever order the rows came in.
    let (records, elfs) = two_record_map();
    let map = VmMap::construct(&records, &elfs).unwrap();
    let ms = map.mappings();
    assert_eq!(ms.len(), 2);
    assert_eq!(ms[0].va.start, 0x1000);
    assert_eq!(ms[1].va.start, 0x4000);
    assert!(ms[0].va.end < ms[1].va.start);
}

#[test]
fn overlapping_rows_fail() {
    let records = vec![
        record(0x1000, 0x3000, b"r-x--", 0, None),
        record(0x2000, 0x4000, b"rw---", 0, None),
    ];
    let elfs: Vec<ElfCacheEntry> = Vec::new();
    assert!(matches!(
        VmMap::construct(&records, &elfs),
        Err(VmMapError::MappingOverlap)
    ));
}

#[test]
fn equal_rows_fail() {
    let records = vec![
        record(0x1000, 0x2000, b"r-x--", 0, None),
        record(0x1000, 0x2000, b"r-x--", 0, None),
    ];
    let elfs: Vec<ElfCacheEntry> = Vec::new();
    assert!(matches!(
        VmMap::construct(&records, &elfs),
        Err(VmMapError::MappingOverlap)
    ));
}

#[test]
fn scenario_resolve_in_foo() {
    // VM map row 0x1000..0x2000, r-x--, offset 0, path /bin/foo, with a local
    // ELF holding `.text` [0x0,0x800) and `main` at [0x10,0x110).
    let (records, elfs) = two_record_map();
    let map = VmMap::construct(&records, &elfs).unwrap();
    let info = map.addr_info(0x1010).unwrap();
    let m = &map.mappings()[info.mapping];
    assert_eq!(m.simple_path().unwrap(), b"foo".to_vec());
    let sec = &m.sections()[info.section.unwrap()];
    assert_eq!(sec.name, b".text".to_vec());
    let s = &sec.symbols()[info.symbol.unwrap()];
    assert_eq!(s.name, b"main".to_vec());
    // The symbol was re-based to 0x1010, so the queried address sits at its
    // very start.
    assert_eq!(info.va - s.va.start, 0);
    let annotation = info.describe(&map);
    assert_eq!(annotation, b"foo: main+0x0".to_vec());
}

#[test]
fn resolve_none_outside_all_mappings() {
    let (records, elfs) = two_record_map();
    let map = VmMap::construct(&records, &elfs).unwrap();
    assert!(map.addr_info(0xfff).is_none());
    assert!(map.addr_info(0x2000).is_none());
    assert!(map.addr_info(0x9000).is_none());
    assert!(map.addr_info(0x1000).is_some());
    assert!(map.addr_info(0x1fff).is_some());
}

#[test]
fn resolve_is_idempotent_under_identity_key() {
    let (records, elfs) = two_record_map();
    let map = VmMap::construct(&records, &elfs).unwrap();
    let a = map.addr_info(0x1020).unwrap();
    let b = map.addr_info(0x1020).unwrap();
    assert_eq!(a.count_key(), b.count_key());
}

#[test]
fn symbol_round_trip() {
    // main covers [0x1010, 0x1110): both ends resolve to it, one past does
    // not.
    let (records, elfs) = two_record_map();
    let map = VmMap::construct(&records, &elfs).unwrap();
    let first = map.addr_info(0x1010).unwrap();
    let last = map.addr_info(0x110f).unwrap();
    assert_eq!(first.count_key(), last.count_key());
    assert!(first.symbol.is_some());
    match map.addr_info(0x1110) {
        None => {}
        Some(past) => assert_ne!(past.count_key(), first.count_key()),
    }
}

#[test]
fn unknown_mapping_counts_increment() {
    // An address with no covering mapping: the unknown counter and the total
    // both rise, with no panic.
    let (records, elfs) = two_record_map();
    let map = VmMap::construct(&records, &elfs).unwrap();
    let mut counts = InsnCount::new_for(&map);
    assert!(map.addr_info(0x9000).is_none());
    counts.add_unknown();
    assert_eq!(counts.total(), 1);
    assert_eq!(counts.unknown_mapping, 1);
}

#[test]
fn cache_miss_means_no_sections() {
    let records = vec![record(0x1000, 0x2000, b"r-x--", 0, Some(b"/bin/bar"))];
    let elfs = vec![ElfCacheEntry { path: b"/bin/bar".to_vec(), elf: None }];
    let map = VmMap::construct(&records, &elfs).unwrap();
    assert!(map.mappings()[0].sections().is_empty());
    let info = map.addr_info(0x1500).unwrap();
    assert!(info.section.is_none());
    assert!(info.symbol.is_none());
}
