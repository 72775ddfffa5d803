//! Decoding a real (minimal) ELF image through the `elf` crate.

use map_symbols::elfdata::LocalMorelloElfFile;
use map_symbols::mapping::{build_mapping, VmMapRecord};

fn push_u16(v: &mut Vec<u8>, x: u16) {
    v.extend_from_slice(&x.to_le_bytes());
}

fn push_u32(v: &mut Vec<u8>, x: u32) {
    v.extend_from_slice(&x.to_le_bytes());
}

fn push_u64(v: &mut Vec<u8>, x: u64) {
    v.extend_from_slice(&x.to_le_bytes());
}

fn push_shdr(
    v: &mut Vec<u8>,
    name: u32,
    stype: u32,
    flags: u64,
    addr: u64,
    offset: u64,
    size: u64,
    link: u32,
    info: u32,
    align: u64,
    entsize: u64,
) {
    push_u32(v, name);
    push_u32(v, stype);
    push_u64(v, flags);
    push_u64(v, addr);
    push_u64(v, offset);
    push_u64(v, size);
    push_u32(v, link);
    push_u32(v, info);
    push_u64(v, align);
    push_u64(v, entsize);
}

/// A minimal little-endian ELF64 with a `.text` section of [0x0,0x800) and
/// one defined symbol `main` at [0x10,0x110).
fn minimal_elf() -> Vec<u8> {
    let mut v: Vec<u8> = Vec::new();
    // ELF identification: magic, 64-bit, little-endian, current version.
    v.extend_from_slice(&[0x7f, 0x45, 0x4c, 0x46, 2, 1, 1, 0, 0, 0, 0, 0, 0, 0, 0, 0]);
    push_u16(&mut v, 2); // e_type: executable
    push_u16(&mut v, 183); // e_machine: aarch64
    push_u32(&mut v, 1); // e_version
    push_u64(&mut v, 0); // e_entry
    push_u64(&mut v, 0); // e_phoff
    push_u64(&mut v, 0x98); // e_shoff
    push_u32(&mut v, 0); // e_flags
    push_u16(&mut v, 64); // e_ehsize
    push_u16(&mut v, 0); // e_phentsize
    push_u16(&mut v, 0); // e_phnum
    push_u16(&mut v, 64); // e_shentsize
    push_u16(&mut v, 5); // e_shnum
    push_u16(&mut v, 4); // e_shstrndx
    assert_eq!(v.len(), 0x40);
    // .strtab data at 0x40: "\0main\0"
    v.extend_from_slice(b"\0main\0");
    assert_eq!(v.len(), 0x46);
    // .shstrtab data at 0x46.
    v.extend_from_slice(b"\0.text\0.symtab\0.strtab\0.shstrtab\0");
    assert_eq!(v.len(), 0x67);
    v.push(0); // pad to 8 bytes
    assert_eq!(v.len(), 0x68);
    // .symtab data at 0x68: the null entry, then `main`.
    push_u32(&mut v, 0);
    v.push(0);
    v.push(0);
    push_u16(&mut v, 0);
    push_u64(&mut v, 0);
    push_u64(&mut v, 0);
    push_u32(&mut v, 1); // st_name -> "main"
    v.push(0x12); // st_info: GLOBAL FUNC
    v.push(0);
    push_u16(&mut v, 1); // st_shndx -> .text
    push_u64(&mut v, 0x10); // st_value
    push_u64(&mut v, 0x100); // st_size
    assert_eq!(v.len(), 0x98);
    // Section header table.
    push_shdr(&mut v, 0, 0, 0, 0, 0, 0, 0, 0, 0, 0);
    push_shdr(&mut v, 1, 1, 6, 0, 0, 0x800, 0, 0, 4, 0); // .text
    push_shdr(&mut v, 7, 2, 0, 0, 0x68, 48, 3, 1, 8, 24); // .symtab
    push_shdr(&mut v, 15, 3, 0, 0, 0x40, 6, 0, 0, 1, 0); // .strtab
    push_shdr(&mut v, 23, 3, 0, 0, 0x46, 33, 0, 0, 1, 0); // .shstrtab
    v
}

#[test]
fn minimal_elf_decodes() {
    let bytes = minimal_elf();
    let elf = LocalMorelloElfFile::from_bytes(b"/local/foo".to_vec(), &bytes).unwrap();
    assert_eq!(elf.sections.len(), 5);
    assert_eq!(elf.sections[1].name, b".text".to_vec());
    assert_eq!(elf.sections[1].flags & 4, 4);
    assert_eq!(elf.sections[1].size, 0x800);
    assert_eq!(elf.sections[4].name, b".shstrtab".to_vec());
    assert_eq!(elf.symbols.len(), 2);
    assert_eq!(elf.symbols[0].name_index, 0);
    assert_eq!(elf.symbols[1].name, b"main".to_vec());
    assert_eq!(elf.symbols[1].value, 0x10);
    assert_eq!(elf.symbols[1].size, 0x100);
    assert_eq!(elf.symbols[1].shndx, 1);
}

#[test]
fn decoded_elf_drives_the_builder() {
    let bytes = minimal_elf();
    let elf = LocalMorelloElfFile::from_bytes(b"/local/foo".to_vec(), &bytes).unwrap();
    let rec = VmMapRecord {
        start: 0x1000,
        end: 0x2000,
        perms: b"r-x--".to_vec(),
        offset: 0,
        path: Some(b"/bin/foo".to_vec()),
    };
    let m = build_mapping(&rec, Some(&elf)).unwrap();
    assert_eq!(m.sections.len(), 1);
    assert_eq!(m.sections[0].name, b".text".to_vec());
    assert_eq!(m.sections[0].symbols.len(), 1);
    assert_eq!(m.sections[0].symbols[0].name, b"main".to_vec());
    assert_eq!(m.sections[0].symbols[0].va.start, 0x1010);
}

#[test]
fn garbage_is_not_an_elf() {
    let bytes = b"this is not an elf file at all".to_vec();
    assert!(LocalMorelloElfFile::from_bytes(b"/x".to_vec(), &bytes).is_err());
}

#[test]
fn truncated_elf_is_rejected() {
    let mut bytes = minimal_elf();
    bytes.truncate(0x90);
    assert!(LocalMorelloElfFile::from_bytes(b"/x".to_vec(), &bytes).is_err());
}
