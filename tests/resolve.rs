use shimguin::elf_symbols::DynSymbol;
use shimguin::rules::RuleSet;
use shimguin::shim::{dlsym, shim_all_libs, shim_lib, LoadedObject, Patch, ShimError};

fn object(load_bias: usize, syms: &[(&str, u64)]) -> LoadedObject {
    LoadedObject {
        load_bias,
        symbols: syms.iter().map(|(n, v)| DynSymbol { name: n.as_bytes().to_vec(), value: *v }).collect(),
    }
}

#[test]
fn dlsym_takes_first_object_in_list_order() {
    let objects = vec![object(0x1000, &[("a", 0x10)]), object(0x2000, &[("b", 0x20), ("a", 0x30)])];
    assert_eq!(dlsym(b"a", &objects), Ok(0x1010));
    assert_eq!(dlsym(b"b", &objects), Ok(0x2020));
    assert_eq!(dlsym(b"c", &objects), Err(ShimError::Unresolved));
}

#[test]
fn dlsym_first_symbol_in_table_order() {
    let objects = vec![object(0x1000, &[("a", 0x10), ("a", 0x20)])];
    assert_eq!(dlsym(b"a", &objects), Ok(0x1010));
}

#[test]
fn dlsym_null_and_overflow() {
    let objects = vec![object(0, &[("zero", 0)]), object(usize::MAX, &[("big", 1)])];
    assert_eq!(dlsym(b"zero", &objects), Err(ShimError::Unresolved));
    assert_eq!(dlsym(b"big", &objects), Err(ShimError::AddressOverflow));
}

#[test]
fn shim_lib_patches_named_symbols() {
    let rules = RuleSet::parse(b"f->f_new").unwrap();
    let objects = vec![object(0x1000, &[("f_new", 0x10)]), object(0x8000, &[("f", 0x40), ("g", 0x50)])];
    assert_eq!(shim_lib(&rules, &objects[1], &objects), Ok(vec![Patch { pc: 0x8040, target: 0x1010 }]));
    assert_eq!(shim_lib(&rules, &objects[0], &objects), Ok(vec![]));
}

#[test]
fn shim_all_libs_reinstalls_hook_first() {
    let rules = RuleSet::parse(b"f->f_new").unwrap();
    let objects = vec![object(0x1000, &[("f_new", 0x10)]), object(0x8000, &[("f", 0x40)])];
    assert_eq!(
        shim_all_libs(0, &rules, &objects, 0x500, 0x600),
        Ok(vec![Patch { pc: 0x500, target: 0x600 }, Patch { pc: 0x8040, target: 0x1010 }])
    );
    assert_eq!(shim_all_libs(1, &rules, &objects, 0x500, 0x600), Ok(vec![]));
}
