//! The aggregate and its collated report.

use map_symbols::counts::InsnCount;
use map_symbols::elfdata::{ElfSection, ElfSymbol, LocalMorelloElfFile};
use map_symbols::mapping::VmMapRecord;
use map_symbols::vmmap::{ElfCacheEntry, VmMap};

fn record(start: u64, end: u64, path: Option<&[u8]>) -> VmMapRecord {
    VmMapRecord {
        start,
        end,
        perms: b"r-x--".to_vec(),
        offset: 0,
        path: path.map(|p| p.to_vec()),
    }
}

/// A map with one binary of two symbols, and one anonymous mapping.
fn setup() -> VmMap {
    let elf = LocalMorelloElfFile {
        path: b"/local/foo".to_vec(),
        sections: vec![
            ElfSection { name: Vec::new(), addr: 0, offset: 0, size: 0, flags: 0 },
            ElfSection { name: b".text".to_vec(), addr: 0, offset: 0, size: 0x800, flags: 4 },
        ],
        symbols: vec![
            ElfSymbol {
                name: b"alpha".to_vec(),
                name_index: 1,
                value: 0x0,
                size: 0x10,
                shndx: 1,
            },
            ElfSymbol {
                name: b"beta".to_vec(),
                name_index: 2,
                value: 0x10,
                size: 0x10,
                shndx: 1,
            },
        ],
    };
    let records = vec![
        record(0x1000, 0x2000, Some(b"/bin/foo")),
        record(0x4000, 0x5000, None),
    ];
    let elfs = vec![ElfCacheEntry { path: b"/bin/foo".to_vec(), elf: Some(elf) }];
    VmMap::construct(&records, &elfs).unwrap()
}

fn add_at(map: &VmMap, counts: &mut InsnCount, va: u64, times: u64) {
    for _ in 0..times {
        match map.addr_info(va) {
            Some(info) => counts.add(info),
            None => counts.add_unknown(),
        }
    }
}

#[test]
fn totals_accumulate() {
    let map = setup();
    let mut counts = InsnCount::new_for(&map);
    assert_eq!(counts.total(), 0);
    add_at(&map, &mut counts, 0x1000, 2); // alpha
    add_at(&map, &mut counts, 0x9999, 1); // nowhere
    assert_eq!(counts.total(), 3);
    assert_eq!(counts.unknown_mapping, 1);
    assert_eq!(counts.counts[0].sections[0].symbols[0], 2);
}

#[test]
fn accepts_checks_shape() {
    let map = setup();
    let counts = InsnCount::new_for(&map);
    let info = map.addr_info(0x1000).unwrap();
    assert!(counts.accepts(&info));
}

#[test]
fn report_ranks_symbols_descending() {
    let map = setup();
    let mut counts = InsnCount::new_for(&map);
    add_at(&map, &mut counts, 0x1002, 2); // alpha
    add_at(&map, &mut counts, 0x1010, 5); // beta
    add_at(&map, &mut counts, 0x1700, 3); // .text, no symbol
    add_at(&map, &mut counts, 0x1900, 1); // mapping, no section
    add_at(&map, &mut counts, 0x4000, 4); // anonymous mapping
    add_at(&map, &mut counts, 0x9999, 2); // unknown mapping
    let report = counts.report(&map);
    assert_eq!(report.total, 17);
    assert_eq!(report.unknown_mapping, 2);
    assert_eq!(report.files.len(), 2);
    let foo = &report.files[0];
    assert_eq!(foo.path, Some(b"/bin/foo".to_vec()));
    assert_eq!(foo.total, 11);
    assert_eq!(foo.symbols.len(), 2);
    assert_eq!(foo.symbols[0].name, b"beta".to_vec());
    assert_eq!(foo.symbols[0].count, 5);
    assert_eq!(foo.symbols[1].name, b"alpha".to_vec());
    assert_eq!(foo.symbols[1].count, 2);
    assert_eq!(foo.unknown_sections.len(), 1);
    assert_eq!(foo.unknown_sections[0].section_name, b".text".to_vec());
    assert_eq!(foo.unknown_sections[0].count, 3);
    assert_eq!(foo.unknown, vec![1]);
    let anon = &report.files[1];
    assert_eq!(anon.path, None);
    assert_eq!(anon.total, 4);
    assert!(anon.symbols.is_empty());
    assert_eq!(anon.unknown, vec![4]);
}

#[test]
fn report_ranks_files_descending() {
    // The anonymous mapping outweighs the binary, so its group comes first.
    let map = setup();
    let mut counts = InsnCount::new_for(&map);
    add_at(&map, &mut counts, 0x1002, 2); // alpha in /bin/foo
    add_at(&map, &mut counts, 0x4000, 9); // anonymous mapping
    let report = counts.report(&map);
    assert_eq!(report.files.len(), 2);
    assert_eq!(report.files[0].path, None);
    assert_eq!(report.files[0].total, 9);
    assert_eq!(report.files[1].path, Some(b"/bin/foo".to_vec()));
    assert_eq!(report.files[1].total, 2);
}

#[test]
fn report_file_ties_keep_first_appearance() {
    let map = setup();
    let mut counts = InsnCount::new_for(&map);
    add_at(&map, &mut counts, 0x1002, 3); // /bin/foo
    add_at(&map, &mut counts, 0x4000, 3); // anonymous mapping
    let report = counts.report(&map);
    assert_eq!(report.files[0].path, Some(b"/bin/foo".to_vec()));
    assert_eq!(report.files[1].path, None);
}

#[test]
fn report_leaves_out_zero_buckets() {
    let map = setup();
    let mut counts = InsnCount::new_for(&map);
    add_at(&map, &mut counts, 0x1010, 1); // beta only
    let report = counts.report(&map);
    let foo = &report.files[0];
    assert_eq!(foo.symbols.len(), 1);
    assert_eq!(foo.symbols[0].name, b"beta".to_vec());
    assert!(foo.unknown_sections.is_empty());
    assert!(foo.unknown.is_empty());
    let anon = &report.files[1];
    assert!(anon.symbols.is_empty());
    assert!(anon.unknown.is_empty());
}

#[test]
fn report_ties_keep_first_seen_order() {
    let map = setup();
    let mut counts = InsnCount::new_for(&map);
    add_at(&map, &mut counts, 0x1002, 2); // alpha
    add_at(&map, &mut counts, 0x1010, 2); // beta
    let report = counts.report(&map);
    let foo = &report.files[0];
    assert_eq!(foo.symbols[0].name, b"alpha".to_vec());
    assert_eq!(foo.symbols[1].name, b"beta".to_vec());
}
