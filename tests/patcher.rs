use shimguin::patcher::{plan_jmp_write, write_jmp_shellcode, PatchError, PatchStep, Protection};
use shimguin::trampoline::{Arch, ShellcodeError};

fn protect(base: usize, len: usize, prot: Protection) -> (usize, usize, Protection) {
    (base, len, prot)
}

fn as_protect(s: &PatchStep) -> (usize, usize, Protection) {
    match s {
        PatchStep::Protect { base, len, prot } => (*base, *len, *prot),
        PatchStep::Write { .. } => panic!("expected a protection change"),
    }
}

fn as_write(s: &PatchStep) -> (usize, Vec<u8>) {
    match s {
        PatchStep::Write { addr, bytes } => (*addr, bytes.clone()),
        PatchStep::Protect { .. } => panic!("expected a write"),
    }
}

#[test]
fn plan_protects_page_around_write() {
    let steps = plan_jmp_write(Arch::X86_64, 4096, 0x1234, 0x2000).unwrap();
    assert_eq!(steps.len(), 3);
    assert_eq!(as_protect(&steps[0]), protect(0x1000, 4096, Protection::ReadWrite));
    assert_eq!(as_write(&steps[1]), (0x1234, vec![0xe9, 0xc7, 0x0d, 0x00, 0x00]));
    assert_eq!(as_protect(&steps[2]), protect(0x1000, 4096, Protection::ReadExec));
}

#[test]
fn plan_at_page_end() {
    // The last five bytes of a page still fit.
    let steps = plan_jmp_write(Arch::X86_64, 4096, 0x1ffb, 0x1000).unwrap();
    assert_eq!(as_protect(&steps[0]), protect(0x1000, 4096, Protection::ReadWrite));
    assert_eq!(
        plan_jmp_write(Arch::X86_64, 4096, 0x1ffc, 0x1000).err(),
        Some(PatchError::CrossesPage)
    );
}

#[test]
fn plan_errors() {
    assert_eq!(plan_jmp_write(Arch::X86_64, 0, 0x1000, 0x2000).err(), Some(PatchError::BadPageSize));
    assert_eq!(
        plan_jmp_write(Arch::ArmLe, 4096, 0x1000, 0x2001).err(),
        Some(PatchError::Shellcode(ShellcodeError::Misaligned))
    );
    assert_eq!(
        plan_jmp_write(Arch::X86_64, 4096, 0x1000, 0x1_0000_1000).err(),
        Some(PatchError::Shellcode(ShellcodeError::OutOfRange))
    );
}

#[test]
fn plan_with_process_page_size() {
    let steps = write_jmp_shellcode(Arch::X86_64, 0x10_0000, 0x20_0000).unwrap();
    let (base, len, prot) = as_protect(&steps[0]);
    assert!(len > 0 && base <= 0x10_0000 && 0x10_0000 < base + len);
    assert_eq!(prot, Protection::ReadWrite);
    assert_eq!(as_protect(&steps[2]), (base, len, Protection::ReadExec));
}

#[test]
fn plan_twice_is_identical() {
    let a = plan_jmp_write(Arch::MipsBe, 4096, 0x4000_0010, 0x4010_0000).unwrap();
    let b = plan_jmp_write(Arch::MipsBe, 4096, 0x4000_0010, 0x4010_0000).unwrap();
    assert_eq!(as_write(&a[1]), as_write(&b[1]));
}
