//! The textual VM map: CSV parsing, the embedded region, and the inferred
//! trace line.

use map_symbols::text::{ParseError, VmMapTextError};
use map_symbols::vmmap::{ElfCacheEntry, VmMap};

const CSV: &[u8] = b"Start,End,Permissions,Offset,Path\n\
0x1000,0x2000,r-x--,0x0,/bin/foo\n\
0x4000,0x5000,rw---,0x0,\n";

#[test]
fn from_csv_builds_sorted_map() {
    let elfs: Vec<ElfCacheEntry> = Vec::new();
    let map = VmMap::from_csv(CSV, &elfs).unwrap();
    let ms = map.mappings();
    assert_eq!(ms.len(), 2);
    assert_eq!(ms[0].va.start, 0x1000);
    assert_eq!(ms[0].va.end, 0x1fff);
    assert_eq!(
        ms[0].target_path().map(|p| p.clone()),
        Some(b"/bin/foo".to_vec())
    );
    assert!(ms[0].perms.execute);
    assert_eq!(ms[1].va.start, 0x4000);
    assert!(ms[1].target_path().is_none());
}

#[test]
fn decimal_fields_parse_too() {
    let elfs: Vec<ElfCacheEntry> = Vec::new();
    let csv = b"Start,End,Permissions,Offset,Path\n4096,8192,r-x--,0,\n";
    let map = VmMap::from_csv(csv, &elfs).unwrap();
    assert_eq!(map.mappings()[0].va.start, 4096);
    assert_eq!(map.mappings()[0].va.end, 8191);
}

#[test]
fn missing_column_is_rejected() {
    let elfs: Vec<ElfCacheEntry> = Vec::new();
    let csv = b"Start,End,Offset,Path\n0x1000,0x2000,0x0,\n";
    assert!(matches!(
        VmMap::from_csv(csv, &elfs),
        Err(VmMapTextError::Parse(ParseError::MissingColumn))
    ));
}

#[test]
fn bad_integer_is_rejected() {
    let elfs: Vec<ElfCacheEntry> = Vec::new();
    let csv = b"Start,End,Permissions,Offset,Path\nnope,0x2000,r-x--,0x0,\n";
    assert!(matches!(
        VmMap::from_csv(csv, &elfs),
        Err(VmMapTextError::Parse(ParseError::BadInteger))
    ));
}

#[test]
fn extra_columns_are_ignored() {
    let elfs: Vec<ElfCacheEntry> = Vec::new();
    let csv =
        b"Type,Start,End,Permissions,Offset,Path\nmap,0x1000,0x2000,r-x--,0x0,/bin/foo\n";
    let map = VmMap::from_csv(csv, &elfs).unwrap();
    assert_eq!(map.mappings().len(), 1);
}

#[test]
fn from_stdout_uses_embedded_region() {
    let elfs: Vec<ElfCacheEntry> = Vec::new();
    let text = b"boot noise\n\
---- BEGIN VM MAP ----\n\
Start,End,Permissions,Offset,Path\n\
0x1000,0x2000,r-x--,0x0,/bin/foo\n\
---- END VM MAP ----\n\
Generated 1234 bytes in /work/run.tarmac [42,4200)...\n\
more noise\n";
    let (map, inferred) = VmMap::from_stdout(text, &elfs).unwrap();
    assert_eq!(map.mappings().len(), 1);
    assert_eq!(map.mappings()[0].va.start, 0x1000);
    let t = inferred.unwrap();
    assert_eq!(t.file, b"/work/run.tarmac".to_vec());
    assert_eq!(t.start, 42);
    assert_eq!(t.end, 4200);
}

#[test]
fn from_stdout_without_markers_reads_whole_text() {
    let elfs: Vec<ElfCacheEntry> = Vec::new();
    let (map, inferred) = VmMap::from_stdout(CSV, &elfs).unwrap();
    assert_eq!(map.mappings().len(), 2);
    assert!(inferred.is_none());
}

#[test]
fn unterminated_region_is_rejected() {
    let elfs: Vec<ElfCacheEntry> = Vec::new();
    let text = b"---- BEGIN VM MAP ----\nStart,End,Permissions,Offset,Path\n";
    assert!(matches!(
        VmMap::from_stdout(text, &elfs),
        Err(VmMapTextError::Parse(ParseError::UnterminatedVmMap))
    ));
}

#[test]
fn generated_path_reads_greedily() {
    // A path holding ` [` itself: the split point is the last one whose tail
    // parses.
    let elfs: Vec<ElfCacheEntry> = Vec::new();
    let text = b"---- BEGIN VM MAP ----\n\
Start,End,Permissions,Offset,Path\n\
0x1000,0x2000,r-x--,0x0,\n\
---- END VM MAP ----\n\
Generated 9 bytes in /odd [1,2)... name [7,9)...\n";
    let (_, inferred) = VmMap::from_stdout(text, &elfs).unwrap();
    let t = inferred.unwrap();
    assert_eq!(t.file, b"/odd [1,2)... name".to_vec());
    assert_eq!(t.start, 7);
    assert_eq!(t.end, 9);
}

#[test]
fn markers_may_be_indented() {
    let elfs: Vec<ElfCacheEntry> = Vec::new();
    let text = b"  ---- BEGIN VM MAP ----  \n\
Start,End,Permissions,Offset,Path\n\
0x1000,0x2000,r-x--,0x0,\n\
\t---- END VM MAP ----\n";
    let (map, inferred) = VmMap::from_stdout(text, &elfs).unwrap();
    assert_eq!(map.mappings().len(), 1);
    assert!(inferred.is_none());
}
