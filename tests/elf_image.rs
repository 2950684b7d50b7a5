use shimguin::elf_symbols::{dynamic_symbols, ElfError};
use shimguin::link_map::RT_ADD;
use shimguin::rules::RuleSet;
use shimguin::shim::{shim_images, LoadedImage, Patch, ShimError};

fn put(buf: &mut Vec<u8>, v: u64, size: usize, be: bool) {
    let bytes = v.to_le_bytes();
    let mut field: Vec<u8> = bytes[..size].to_vec();
    if be {
        field.reverse();
    }
    buf.extend_from_slice(&field);
}

/// A minimal ELF shared object whose only sections are `.dynsym` and its
/// string table, holding `syms` after the null symbol.
fn build_elf(is64: bool, be: bool, syms: &[(&str, u64)]) -> Vec<u8> {
    let word = if is64 { 8 } else { 4 };
    let ehsize = if is64 { 64 } else { 52 };
    let symsize = if is64 { 24 } else { 16 };
    let shsize = if is64 { 64 } else { 40 };

    let mut strtab: Vec<u8> = vec![0];
    let mut name_offsets = Vec::new();
    for (name, _) in syms {
        name_offsets.push(strtab.len() as u64);
        strtab.extend_from_slice(name.as_bytes());
        strtab.push(0);
    }
    while strtab.len() % 8 != 0 {
        strtab.push(0);
    }
    let strtab_off = ehsize as u64;
    let symtab_off = strtab_off + strtab.len() as u64;
    let symtab_size = (symsize * (syms.len() + 1)) as u64;
    let shoff = symtab_off + symtab_size;

    let mut buf: Vec<u8> = vec![0x7f, b'E', b'L', b'F', if is64 { 2 } else { 1 }, if be { 2 } else { 1 }, 1, 0];
    buf.extend_from_slice(&[0; 8]);
    put(&mut buf, 3, 2, be); // ET_DYN
    put(&mut buf, 0x3e, 2, be);
    put(&mut buf, 1, 4, be);
    put(&mut buf, 0, word, be); // entry
    put(&mut buf, 0, word, be); // phoff
    put(&mut buf, shoff, word, be);
    put(&mut buf, 0, 4, be); // flags
    put(&mut buf, ehsize as u64, 2, be);
    put(&mut buf, 0, 2, be); // phentsize
    put(&mut buf, 0, 2, be); // phnum
    put(&mut buf, shsize as u64, 2, be);
    put(&mut buf, 3, 2, be); // shnum
    put(&mut buf, 0, 2, be); // shstrndx
    assert_eq!(buf.len(), ehsize);

    buf.extend_from_slice(&strtab);
    buf.extend_from_slice(&vec![0; symsize]);
    for (i, (_, value)) in syms.iter().enumerate() {
        if is64 {
            put(&mut buf, name_offsets[i], 4, be);
            buf.extend_from_slice(&[0x12, 0]);
            put(&mut buf, 1, 2, be);
            put(&mut buf, *value, 8, be);
            put(&mut buf, 16, 8, be);
        } else {
            put(&mut buf, name_offsets[i], 4, be);
            put(&mut buf, *value, 4, be);
            put(&mut buf, 16, 4, be);
            buf.extend_from_slice(&[0x12, 0]);
            put(&mut buf, 1, 2, be);
        }
    }
    assert_eq!(buf.len() as u64, shoff);

    let section = |buf: &mut Vec<u8>, kind: u64, off: u64, size: u64, link: u64, entsize: u64| {
        put(buf, 0, 4, be); // name
        put(buf, kind, 4, be);
        put(buf, 0, word, be); // flags
        put(buf, 0, word, be); // addr
        put(buf, off, word, be);
        put(buf, size, word, be);
        put(buf, link, 4, be);
        put(buf, 0, 4, be); // info
        put(buf, 0, word, be); // addralign
        put(buf, entsize, word, be);
    };
    section(&mut buf, 0, 0, 0, 0, 0);
    section(&mut buf, 11, symtab_off, symtab_size, 2, symsize as u64); // SHT_DYNSYM
    section(&mut buf, 3, strtab_off, strtab.len() as u64, 0, 0); // SHT_STRTAB
    buf
}

fn names_values(image: &[u8]) -> Vec<(Vec<u8>, u64)> {
    dynamic_symbols(image).unwrap().into_iter().map(|s| (s.name, s.value)).collect()
}

fn image(load_bias: usize, syms: &[(&str, u64)]) -> LoadedImage {
    LoadedImage { load_bias, image: build_elf(true, false, syms) }
}

fn rules(config: &str) -> RuleSet {
    RuleSet::parse(config.as_bytes()).unwrap()
}

const BRK: usize = 0x7f00_0000_0100;
const HOOK: usize = 0x7f00_0000_0200;

/// H holds the replacements, A exports `f`, `other` and `f2`, B exports `g`.
fn host_and_libraries() -> Vec<LoadedImage> {
    vec![
        image(0x5555_0000_0000, &[("main", 0x1100), ("f_new", 0x1200), ("g_new", 0x1300), ("h_new", 0x1400)]),
        image(0x7f10_0000_0000, &[("f", 0x2100), ("other", 0x2200), ("f2", 0x2300)]),
        image(0x7f20_0000_0000, &[("g", 0x3100)]),
    ]
}

#[test]
fn reads_dynamic_symbols_64_le() {
    let img = build_elf(true, false, &[("f", 0x1100), ("f_new", 0x2200)]);
    assert_eq!(
        names_values(&img),
        vec![(b"".to_vec(), 0), (b"f".to_vec(), 0x1100), (b"f_new".to_vec(), 0x2200)]
    );
}

#[test]
fn reads_dynamic_symbols_32_be() {
    let img = build_elf(false, true, &[("g", 0x8040_0000)]);
    assert_eq!(names_values(&img), vec![(b"".to_vec(), 0), (b"g".to_vec(), 0x8040_0000)]);
}

#[test]
fn rejects_malformed_image() {
    assert_eq!(dynamic_symbols(b"not an elf object").err(), Some(ElfError::Malformed));
    let mut img = build_elf(true, false, &[("f", 1)]);
    img.truncate(100);
    assert_eq!(dynamic_symbols(&img).err(), Some(ElfError::Malformed));
}

#[test]
fn reports_missing_dynamic_symbol_table() {
    let mut img = build_elf(true, false, &[("f", 1)]);
    // No section headers at all.
    for b in &mut img[0x28..0x30] {
        *b = 0;
    }
    assert_eq!(dynamic_symbols(&img).err(), Some(ElfError::NoDynamicSymbolTable));
}

#[test]
fn one_rule_redirects_only_its_symbol() {
    let patches = shim_images(0, &rules("f->f_new"), &host_and_libraries(), BRK, HOOK).unwrap();
    assert_eq!(
        patches,
        vec![
            Patch { pc: BRK, target: HOOK },
            Patch { pc: 0x7f10_0000_2100, target: 0x5555_0000_1200 },
        ]
    );
}

#[test]
fn two_rules_redirect_both() {
    let patches = shim_images(0, &rules("f->f_new,g->g_new"), &host_and_libraries(), BRK, HOOK).unwrap();
    assert_eq!(
        patches,
        vec![
            Patch { pc: BRK, target: HOOK },
            Patch { pc: 0x7f10_0000_2100, target: 0x5555_0000_1200 },
            Patch { pc: 0x7f20_0000_3100, target: 0x5555_0000_1300 },
        ]
    );
}

#[test]
fn unresolvable_replacement_fails() {
    assert_eq!(
        shim_images(0, &rules("f->does_not_exist"), &host_and_libraries(), BRK, HOOK).err(),
        Some(ShimError::Unresolved)
    );
}

#[test]
fn library_loaded_later_is_patched_by_next_pass() {
    let mut objects = host_and_libraries();
    let before = shim_images(0, &rules("h->h_new"), &objects, BRK, HOOK).unwrap();
    assert_eq!(before, vec![Patch { pc: BRK, target: HOOK }]);
    objects.push(image(0x7f30_0000_0000, &[("h", 0x4100)]));
    let after = shim_images(0, &rules("h->h_new"), &objects, BRK, HOOK).unwrap();
    assert_eq!(
        after,
        vec![Patch { pc: BRK, target: HOOK }, Patch { pc: 0x7f30_0000_4100, target: 0x5555_0000_1400 }]
    );
}

#[test]
fn patch_is_at_callee_entry() {
    // A call from f2 to f inside A lands in f's entry, which is what is patched.
    let patches = shim_images(0, &rules("f->f_new"), &host_and_libraries(), BRK, HOOK).unwrap();
    assert!(patches.contains(&Patch { pc: 0x7f10_0000_2100, target: 0x5555_0000_1200 }));
    assert!(!patches.iter().any(|p| p.pc == 0x7f10_0000_2300));
}

#[test]
fn pass_outside_consistent_state_writes_nothing() {
    let patches = shim_images(RT_ADD, &rules("f->f_new"), &host_and_libraries(), BRK, HOOK).unwrap();
    assert!(patches.is_empty());
    let bad = vec![LoadedImage { load_bias: 0, image: b"garbage".to_vec() }];
    assert!(shim_images(2, &rules("f->f_new"), &bad, BRK, HOOK).unwrap().is_empty());
}

#[test]
fn pass_twice_gives_same_patches() {
    let a = shim_images(0, &rules("f->f_new,g->g_new"), &host_and_libraries(), BRK, HOOK).unwrap();
    let b = shim_images(0, &rules("f->f_new,g->g_new"), &host_and_libraries(), BRK, HOOK).unwrap();
    assert_eq!(a, b);
}

#[test]
fn unreadable_image_fails_pass() {
    let mut objects = host_and_libraries();
    objects.push(LoadedImage { load_bias: 0, image: b"garbage".to_vec() });
    assert_eq!(
        shim_images(0, &rules("f->f_new"), &objects, BRK, HOOK).err(),
        Some(ShimError::Elf(ElfError::Malformed))
    );
}
