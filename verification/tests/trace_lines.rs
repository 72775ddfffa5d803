//! The instruction-taken grammar, the trace plan, and per-line processing.

use map_symbols::counts::InsnCount;
use map_symbols::elfdata::{ElfSection, ElfSymbol, LocalMorelloElfFile};
use map_symbols::mapping::VmMapRecord;
use map_symbols::trace::{
    parse_trace_line, process_line, resolve_trace_plan, TraceArgs, TraceConfigError,
};
use map_symbols::text::InferredTarmac;
use map_symbols::vmmap::{ElfCacheEntry, VmMap};

const IT_LINE: &[u8] =
    b"1000 ps cpu0.core IT (123) (1|1f00ff|0000000000001010):00001010_NS 91000421 O EL0t_n : add x1, x1, #1";

#[test]
fn instruction_line_parses() {
    let t = parse_trace_line(IT_LINE).unwrap();
    assert_eq!(t.pcc_addr, 0x1010);
    assert_eq!(t.insn, b"91000421".to_vec());
    assert_eq!(t.disasm, b"add x1, x1, #1".to_vec());
}

#[test]
fn clk_units_parse_too() {
    let line =
        b"42 clk cpu0 IT (1) (0|0|2000):00002000_NS deadbeef C EL0t_n :  cmp x0, x1";
    let t = parse_trace_line(line).unwrap();
    assert_eq!(t.pcc_addr, 0x2000);
    assert_eq!(t.insn, b"deadbeef".to_vec());
    assert_eq!(t.disasm, b"cmp x0, x1".to_vec());
}

#[test]
fn other_lines_are_skipped() {
    assert!(parse_trace_line(b"").is_none());
    assert!(parse_trace_line(b"---- BEGIN VM MAP ----").is_none());
    assert!(parse_trace_line(b"1000 ps cpu0 MR (1) something else").is_none());
    // A non-instruction record: wrong literal after the CPU name.
    assert!(parse_trace_line(
        b"1000 ps cpu0.core XT (123) (1|1f00ff|1010):1010_NS 91000421 O EL0t_n : nop"
    )
    .is_none());
    // Instruction word of the wrong width.
    assert!(parse_trace_line(
        b"1000 ps cpu0.core IT (123) (1|1f00ff|1010):1010_NS 9100042 O EL0t_n : nop"
    )
    .is_none());
    // Wrong exception level tag.
    assert!(parse_trace_line(
        b"1000 ps cpu0.core IT (123) (1|1f00ff|1010):1010_NS 91000421 O EL1h_n : nop"
    )
    .is_none());
}

#[test]
fn plan_prefers_explicit_arguments() {
    let args = TraceArgs {
        tarmac: Some(b"/tmp/trace.tarmac".to_vec()),
        tarmac_start: Some(10),
        tarmac_end: Some(90),
    };
    let inferred = InferredTarmac { start: 5, end: 50, file: b"/inferred".to_vec() };
    let p = resolve_trace_plan(&args, Some(&inferred)).unwrap();
    assert_eq!(p.file, b"/tmp/trace.tarmac".to_vec());
    assert_eq!(p.start, 10);
    assert_eq!(p.end, 90);
}

#[test]
fn plan_falls_back_to_inferred_then_defaults() {
    let args = TraceArgs { tarmac: None, tarmac_start: None, tarmac_end: None };
    let inferred = InferredTarmac { start: 5, end: 50, file: b"/inferred".to_vec() };
    let p = resolve_trace_plan(&args, Some(&inferred)).unwrap();
    assert_eq!(p.file, b"/inferred".to_vec());
    assert_eq!(p.start, 5);
    assert_eq!(p.end, 50);
    let args = TraceArgs {
        tarmac: Some(b"/t".to_vec()),
        tarmac_start: None,
        tarmac_end: None,
    };
    let p = resolve_trace_plan(&args, None).unwrap();
    assert_eq!(p.start, 0);
    assert_eq!(p.end, u64::MAX);
}

#[test]
fn empty_range_aborts_before_reading() {
    // `--tarmac-end` at or below `--tarmac-start`: the run is refused with a
    // configuration error before any trace byte is read.
    let args = TraceArgs {
        tarmac: Some(b"/t".to_vec()),
        tarmac_start: Some(100),
        tarmac_end: Some(100),
    };
    assert_eq!(
        resolve_trace_plan(&args, None).unwrap_err(),
        TraceConfigError::EmptyRange
    );
    let args = TraceArgs {
        tarmac: Some(b"/t".to_vec()),
        tarmac_start: Some(100),
        tarmac_end: Some(50),
    };
    assert_eq!(
        resolve_trace_plan(&args, None).unwrap_err(),
        TraceConfigError::EmptyRange
    );
}

#[test]
fn missing_file_is_an_error() {
    let args = TraceArgs { tarmac: None, tarmac_start: Some(0), tarmac_end: Some(10) };
    assert_eq!(
        resolve_trace_plan(&args, None).unwrap_err(),
        TraceConfigError::NoTraceFile
    );
}

fn small_map() -> VmMap {
    let records = vec![VmMapRecord {
        start: 0x1000,
        end: 0x2000,
        perms: b"r-x--".to_vec(),
        offset: 0,
        path: Some(b"/bin/foo".to_vec()),
    }];
    let elf = LocalMorelloElfFile {
        path: b"/local/foo".to_vec(),
        sections: vec![
            ElfSection { name: Vec::new(), addr: 0, offset: 0, size: 0, flags: 0 },
            ElfSection { name: b".text".to_vec(), addr: 0, offset: 0, size: 0x800, flags: 4 },
        ],
        symbols: vec![ElfSymbol {
            name: b"main".to_vec(),
            name_index: 1,
            value: 0x10,
            size: 0x100,
            shndx: 1,
        }],
    };
    let elfs = vec![ElfCacheEntry { path: b"/bin/foo".to_vec(), elf: Some(elf) }];
    VmMap::construct(&records, &elfs).unwrap()
}

#[test]
fn process_line_counts_resolved_instruction() {
    let map = small_map();
    let mut counts = InsnCount::new_for(&map);
    let r = process_line(&map, &mut counts, IT_LINE).unwrap();
    assert_eq!(r.0.pcc_addr, 0x1010);
    let info = r.1.unwrap();
    assert!(info.symbol.is_some());
    assert_eq!(counts.total(), 1);
    assert_eq!(counts.unknown_mapping, 0);
}

#[test]
fn process_line_counts_unknown_mapping() {
    let map = small_map();
    let mut counts = InsnCount::new_for(&map);
    let line =
        b"1 ps c IT (1) (0|0|9000):9000_NS 00000000 O EL0t_n : nop";
    let r = process_line(&map, &mut counts, line).unwrap();
    assert!(r.1.is_none());
    assert_eq!(counts.total(), 1);
    assert_eq!(counts.unknown_mapping, 1);
}

#[test]
fn process_line_skips_other_lines() {
    let map = small_map();
    let mut counts = InsnCount::new_for(&map);
    assert!(process_line(&map, &mut counts, b"some log chatter").is_none());
    assert_eq!(counts.total(), 0);
}

#[test]
fn repeated_addresses_share_a_bucket() {
    let map = small_map();
    let mut counts = InsnCount::new_for(&map);
    for _ in 0..3 {
        process_line(&map, &mut counts, IT_LINE).unwrap();
    }
    // A second address inside the same symbol accumulates there too.
    let line2 =
        b"2 ps c IT (2) (1|0|1014):1014_NS 91000421 O EL0t_n : nop";
    process_line(&map, &mut counts, line2).unwrap();
    assert_eq!(counts.total(), 4);
    assert_eq!(counts.counts[0].sections[0].symbols[0], 4);
}
