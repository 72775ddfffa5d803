//! Ranges, permissions, and the small text primitives.

use map_symbols::bytes::{basename, bytes_eq, hex_bytes_of, join};
use map_symbols::perms::{PermsError, VmPerms};
use map_symbols::range::{cmp_mappings, cmp_mappings_with_eq_check, AddrRange, VaRange};
use map_symbols::text::{lines_of, parse_u64_dec, parse_u64_hex, parse_u64_int, trim};
use std::cmp::Ordering;

#[test]
fn range_contains_and_overlaps() {
    let a = VaRange { start: 0x1000, end: 0x1fff };
    let b = VaRange { start: 0x2000, end: 0x2fff };
    let c = VaRange { start: 0x1800, end: 0x27ff };
    assert!(a.contains(0x1000) && a.contains(0x1fff));
    assert!(!a.contains(0xfff) && !a.contains(0x2000));
    assert!(!a.overlaps(&b) && !b.overlaps(&a));
    assert!(a.overlaps(&c) && c.overlaps(&b));
    assert!(a.overlaps(&a));
}

#[test]
fn range_display_is_half_open_hex() {
    let a = VaRange { start: 0x1000, end: 0x1fff };
    assert_eq!(a.display(), "[0x1000,0x2000)");
    let z = VaRange { start: 0, end: 0 };
    assert_eq!(z.display(), "[0x0,0x1)");
    let top = VaRange { start: 0xffff_ffff_ffff_fff0, end: 0xffff_ffff_ffff_ffff };
    assert_eq!(top.display(), "[0xfffffffffffffff0,0x10000000000000000)");
}

#[test]
fn mapping_comparison() {
    let a = VaRange { start: 0x1000, end: 0x1fff };
    let b = VaRange { start: 0x2000, end: 0x2fff };
    let c = VaRange { start: 0x1800, end: 0x27ff };
    assert_eq!(cmp_mappings(&a, &a), Some(Ordering::Equal));
    assert_eq!(cmp_mappings(&a, &b), Some(Ordering::Less));
    assert_eq!(cmp_mappings(&b, &a), Some(Ordering::Greater));
    assert_eq!(cmp_mappings(&a, &c), None);
    assert_eq!(
        cmp_mappings_with_eq_check(&a, &a, true),
        Some(Ordering::Equal)
    );
    assert_eq!(cmp_mappings_with_eq_check(&a, &a, false), None);
    assert_eq!(
        cmp_mappings_with_eq_check(&a, &b, false),
        Some(Ordering::Less)
    );
}

#[test]
fn perms_parse_and_display() {
    let p = VmPerms::from_str(b"r-x--").unwrap();
    assert!(p.read && !p.write && p.execute && !p.read_cap && !p.write_cap);
    assert_eq!(p.display_bytes(), b"r-x--".to_vec());
    let q = VmPerms::from_str(b"rwxRW").unwrap();
    assert!(q.read && q.write && q.execute && q.read_cap && q.write_cap);
    assert_eq!(q.display_bytes(), b"rwxRW".to_vec());
    let n = VmPerms::from_str(b"-----").unwrap();
    assert_eq!(n.display_bytes(), b"-----".to_vec());
}

#[test]
fn perms_errors() {
    assert_eq!(VmPerms::from_str(b"r-x-"), Err(PermsError::TooShort));
    assert_eq!(VmPerms::from_str(b""), Err(PermsError::TooShort));
    assert_eq!(VmPerms::from_str(b"r-x---"), Err(PermsError::TooLong));
    assert_eq!(
        VmPerms::from_str(b"w-x--"),
        Err(PermsError::UnrecognisedChar)
    );
    assert_eq!(
        VmPerms::from_str(b"r-xW-"),
        Err(PermsError::UnrecognisedChar)
    );
}

#[test]
fn integers_parse() {
    assert_eq!(parse_u64_dec(b"0"), Some(0));
    assert_eq!(parse_u64_dec(b"4096"), Some(4096));
    assert_eq!(parse_u64_dec(b"18446744073709551615"), Some(u64::MAX));
    assert_eq!(parse_u64_dec(b"18446744073709551616"), None);
    assert_eq!(parse_u64_dec(b""), None);
    assert_eq!(parse_u64_dec(b"12a"), None);
    assert_eq!(parse_u64_hex(b"ff"), Some(255));
    assert_eq!(parse_u64_hex(b"DEADbeef"), Some(0xdead_beef));
    assert_eq!(parse_u64_hex(b"10000000000000000"), None);
    assert_eq!(parse_u64_int(b"0x1000"), Some(0x1000));
    assert_eq!(parse_u64_int(b"0X10"), Some(0x10));
    assert_eq!(parse_u64_int(b"4096"), Some(4096));
    assert_eq!(parse_u64_int(b"0x"), None);
    assert_eq!(parse_u64_int(b"0xzz"), None);
}

#[test]
fn trim_and_lines() {
    assert_eq!(trim(b"  hello\t "), b"hello".to_vec());
    assert_eq!(trim(b""), Vec::<u8>::new());
    assert_eq!(trim(b"   "), Vec::<u8>::new());
    let ls = lines_of(b"one\ntwo\r\nthree");
    assert_eq!(ls.len(), 3);
    assert_eq!(ls[0], b"one".to_vec());
    assert_eq!(ls[1], b"two".to_vec());
    assert_eq!(ls[2], b"three".to_vec());
    let ls = lines_of(b"last\n");
    assert_eq!(ls.len(), 1);
    assert_eq!(ls[0], b"last".to_vec());
    assert!(lines_of(b"").is_empty());
}

#[test]
fn paths_and_bytes() {
    assert_eq!(basename(b"/bin/foo"), b"foo".to_vec());
    assert_eq!(basename(b"foo"), b"foo".to_vec());
    assert_eq!(basename(b"/bin/"), Vec::<u8>::new());
    assert_eq!(join(b"/root", b"a/b"), b"/root/a/b".to_vec());
    assert_eq!(join(b"/root/", b"a"), b"/root/a".to_vec());
    assert_eq!(join(b"", b"a"), b"a".to_vec());
    assert!(bytes_eq(b"abc", b"abc"));
    assert!(!bytes_eq(b"abc", b"abd"));
    assert!(!bytes_eq(b"abc", b"ab"));
    assert_eq!(hex_bytes_of(0), b"0".to_vec());
    assert_eq!(hex_bytes_of(0x2f10), b"2f10".to_vec());
}

#[test]
fn elf_candidates_in_search_order() {
    let elf_dirs = vec![b"/maps".to_vec(), b"/maps2".to_vec()];
    let rootfs = vec![b"/rootfs".to_vec()];
    let c = map_symbols::elfdata::local_elf_candidates(b"/bin/foo", &elf_dirs, &rootfs);
    assert_eq!(c.len(), 3);
    assert_eq!(c[0], b"/maps/foo".to_vec());
    assert_eq!(c[1], b"/maps2/foo".to_vec());
    assert_eq!(c[2], b"/rootfs/bin/foo".to_vec());
}
