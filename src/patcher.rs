//! Plans for rewriting code: a trampoline written inside one page that is
//! made writable for the write and executable again afterwards, and a model
//! of what such writes leave in memory.

use vstd::prelude::*;
use crate::trampoline::{Arch, ShellcodeError, make_jmp_shellcode, jmp_code, jmp_len, jmp_aligned, jmp_reachable};

verus! {

/// A page protection that a plan asks for.
#[derive(Clone, Copy, Debug, PartialEq, Eq, Structural)]
pub enum Protection {
    ReadWrite,
    ReadExec,
}

/// One step of a plan, carried out by the caller in order.
#[derive(Debug)]
pub enum PatchStep {
    /// Give the pages `[base, base + len)` the protection `prot`.
    Protect { base: usize, len: usize, prot: Protection },
    /// Store `bytes` at `addr`.
    Write { addr: usize, bytes: Vec<u8> },
}

/// Why a trampoline cannot be written.
#[derive(Clone, Copy, Debug, PartialEq, Eq, Structural)]
pub enum PatchError {
    /// The page size is zero.
    BadPageSize,
    /// No trampoline can be encoded for the jump.
    Shellcode(ShellcodeError),
    /// The trampoline would run past the end of the page that holds `pc`.
    CrossesPage,
}

/// The start of the page that holds `pc`.
pub open spec fn page_base(pc: usize, page_size: usize) -> int
    recommends
        page_size > 0,
{
    pc - pc % page_size
}

/// Whether a step is the protection change of the page at `base` to `prot`.
pub open spec fn is_protect(s: PatchStep, base: int, page_size: usize, prot: Protection) -> bool {
    s matches PatchStep::Protect { base: b, len, prot: p } && b == base && len == page_size && p
        == prot
}

/// Whether a step stores `code` at `pc`.
pub open spec fn is_write(s: PatchStep, pc: usize, code: Seq<u8>) -> bool {
    s matches PatchStep::Write { addr, bytes } && addr == pc && bytes@ == code
}

/// What a plan for a trampoline at `pc` that jumps to `target`, in pages of
/// `page_size` bytes, is: the page that holds `pc` is made writable, the
/// trampoline is stored, and the page is made executable again; or the
/// reason why there is no such plan.
pub open spec fn jmp_write_planned(
    arch: Arch,
    page_size: usize,
    pc: usize,
    target: usize,
    r: Result<Vec<PatchStep>, PatchError>,
) -> bool {
    match r {
        Ok(steps) => {
            &&& page_size > 0
            &&& jmp_aligned(arch, pc, target) && jmp_reachable(arch, pc, target)
            &&& pc + jmp_len(arch) <= page_base(pc, page_size) + page_size
            &&& steps@.len() == 3
            &&& is_protect(steps@[0], page_base(pc, page_size), page_size, Protection::ReadWrite)
            &&& is_write(steps@[1], pc, jmp_code(arch, pc, target))
            &&& is_protect(steps@[2], page_base(pc, page_size), page_size, Protection::ReadExec)
        },
        Err(PatchError::BadPageSize) => page_size == 0,
        Err(PatchError::Shellcode(e)) => page_size > 0 && match e {
            ShellcodeError::Misaligned => !jmp_aligned(arch, pc, target),
            ShellcodeError::OutOfRange => jmp_aligned(arch, pc, target) && !jmp_reachable(
                arch,
                pc,
                target,
            ),
        },
        Err(PatchError::CrossesPage) => page_size > 0 && jmp_aligned(arch, pc, target)
            && jmp_reachable(arch, pc, target) && pc + jmp_len(arch) > page_base(pc, page_size)
            + page_size,
    }
}

/// Relies on `rustix::param::page_size`: the page size of this process.
#[verifier::external_body]
fn page_size() -> (r: usize) {
    rustix::param::page_size()
}

/// Plans the write of a trampoline at `pc` that jumps to `target`, in pages
/// of this process's size.
pub fn write_jmp_shellcode(arch: Arch, pc: usize, target: usize) -> (r: Result<
    Vec<PatchStep>,
    PatchError,
>)
    ensures
        exists|ps: usize| jmp_write_planned(arch, ps, pc, target, r),
{
    let ps = page_size();
    let r = plan_jmp_write(arch, ps, pc, target);
    assert(jmp_write_planned(arch, ps, pc, target, r));
    r
}

/// Plans the write of a trampoline at `pc` that jumps to `target`, in pages
/// of `page_size` bytes. The trampoline is encoded before any step, so a plan
/// that is returned has no failure between its first and last step: the
/// page is executable again at the end of every plan.
pub fn plan_jmp_write(arch: Arch, page_size: usize, pc: usize, target: usize) -> (r: Result<
    Vec<PatchStep>,
    PatchError,
>)
    ensures
        jmp_write_planned(arch, page_size, pc, target, r),
{
    if page_size == 0 {
        return Err(PatchError::BadPageSize);
    }
    let code = match make_jmp_shellcode(arch, pc, target) {
        Ok(code) => code,
        Err(e) => return Err(PatchError::Shellcode(e)),
    };
    proof {
        crate::trampoline::lemma_jmp_lands(arch, pc, target);
    }
    let rem = pc % page_size;
    assert(rem <= pc && rem < page_size) by (nonlinear_arith)
        requires
            rem == pc % page_size,
            page_size > 0,
    ;
    let base = pc - rem;
    let room = page_size - rem;
    if code.len() > room {
        return Err(PatchError::CrossesPage);
    }
    let mut steps: Vec<PatchStep> = Vec::new();
    steps.push(PatchStep::Protect { base, len: page_size, prot: Protection::ReadWrite });
    steps.push(PatchStep::Write { addr: pc, bytes: code });
    steps.push(PatchStep::Protect { base, len: page_size, prot: Protection::ReadExec });
    Ok(steps)
}

// ---------------------------------------------------------------------------
// What writes leave in memory

/// Memory after `bytes` is stored at `addr`.
pub open spec fn store(mem: spec_fn(int) -> u8, addr: int, bytes: Seq<u8>) -> spec_fn(int) -> u8 {
    |a: int|
        if addr <= a < addr + bytes.len() {
            bytes[a - addr]
        } else {
            mem(a)
        }
}

/// Memory after each write of `ws`, an address and its bytes, in order.
pub open spec fn store_all(mem: spec_fn(int) -> u8, ws: Seq<(int, Seq<u8>)>) -> spec_fn(int) -> u8
    decreases ws.len(),
{
    if ws.len() == 0 {
        mem
    } else {
        let w = ws.last();
        store(store_all(mem, ws.drop_last()), w.0, w.1)
    }
}

/// Whether some write of `ws` covers address `a`.
pub open spec fn covered(ws: Seq<(int, Seq<u8>)>, a: int) -> bool {
    exists|k: int| 0 <= k < ws.len() && #[trigger] covers(ws[k], a)
}

/// Whether the write `w` stores a byte at address `a`.
pub open spec fn covers(w: (int, Seq<u8>), a: int) -> bool {
    w.0 <= a < w.0 + w.1.len()
}

proof fn lemma_store_all_uncovered(mem: spec_fn(int) -> u8, ws: Seq<(int, Seq<u8>)>, a: int)
    requires
        !covered(ws, a),
    ensures
        store_all(mem, ws)(a) == mem(a),
    decreases ws.len(),
{
    if ws.len() > 0 {
        assert forall|k: int| 0 <= k < ws.drop_last().len() implies !covers(ws.drop_last()[k], a) by {
            assert(ws.drop_last()[k] == ws[k]);
        }
        lemma_store_all_uncovered(mem, ws.drop_last(), a);
        assert(!covers(ws[ws.len() - 1], a));
    }
}

proof fn lemma_store_all_covered(m1: spec_fn(int) -> u8, m2: spec_fn(int) -> u8, ws: Seq<(int, Seq<u8>)>, a: int)
    requires
        covered(ws, a),
    ensures
        store_all(m1, ws)(a) == store_all(m2, ws)(a),
    decreases ws.len(),
{
    let w = ws.last();
    if !(w.0 <= a < w.0 + w.1.len()) {
        let k = choose|k: int| 0 <= k < ws.len() && #[trigger] covers(ws[k], a);
        assert(k < ws.len() - 1);
        assert(ws.drop_last()[k] == ws[k]);
        lemma_store_all_covered(m1, m2, ws.drop_last(), a);
    }
}

/// Writing the same patches twice leaves memory as writing them once: each
/// address holds what the last write that covers it stored, and every other
/// address keeps its value.
pub proof fn lemma_store_all_idempotent(mem: spec_fn(int) -> u8, ws: Seq<(int, Seq<u8>)>, a: int)
    ensures
        store_all(store_all(mem, ws), ws)(a) == store_all(mem, ws)(a),
{
    if covered(ws, a) {
        lemma_store_all_covered(store_all(mem, ws), mem, ws, a);
    } else {
        lemma_store_all_uncovered(store_all(mem, ws), ws, a);
    }
}

} // verus!
