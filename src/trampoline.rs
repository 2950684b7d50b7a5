//! Absolute-jump trampolines: their encoding per architecture, and a model of
//! where control goes when a processor executes them.

use vstd::prelude::*;

verus! {

/// The instruction sets for which a trampoline can be encoded.
#[derive(Clone, Copy, Debug, PartialEq, Eq, Structural)]
pub enum Arch {
    /// x86-64, little endian: a near relative `jmp`.
    X86_64,
    /// 32-bit arm, little endian: an unconditional `b`.
    ArmLe,
    /// 32-bit mips, little endian: `lui`/`ori` into `$t9`, then `jr $t9`.
    MipsLe,
    /// 32-bit mips, big endian: as for `MipsLe`.
    MipsBe,
    /// 64-bit mips, big endian: the full address built in `$t9`, then `jr $t9`.
    Mips64Be,
}

/// Why no trampoline can be encoded for a jump.
#[derive(Clone, Copy, Debug, PartialEq, Eq, Structural)]
pub enum ShellcodeError {
    /// The displacement or the address does not fit the instruction's field.
    OutOfRange,
    /// The displacement is not a whole number of instructions.
    Misaligned,
}

// ---------------------------------------------------------------------------
// Byte-level helpers

pub open spec fn le32(w: u32) -> Seq<u8> {
    seq![w as u8, (w >> 8u32) as u8, (w >> 16u32) as u8, (w >> 24u32) as u8]
}

pub open spec fn be32(w: u32) -> Seq<u8> {
    seq![(w >> 24u32) as u8, (w >> 16u32) as u8, (w >> 8u32) as u8, w as u8]
}

/// The 32-bit word stored at `code[i..i + 4]` in the given byte order.
pub open spec fn word_at(big_endian: bool, code: Seq<u8>, i: int) -> u32 {
    if big_endian {
        ((code[i] as u32) << 24u32) | ((code[i + 1] as u32) << 16u32) | ((code[i + 2] as u32)
            << 8u32) | (code[i + 3] as u32)
    } else {
        (code[i] as u32) | ((code[i + 1] as u32) << 8u32) | ((code[i + 2] as u32) << 16u32) | ((
        code[i + 3] as u32) << 24u32)
    }
}

pub open spec fn word_bytes(big_endian: bool, w: u32) -> Seq<u8> {
    if big_endian {
        be32(w)
    } else {
        le32(w)
    }
}

/// The bytes of a sequence of instruction words.
pub open spec fn words_bytes(big_endian: bool, ws: Seq<u32>) -> Seq<u8>
    decreases ws.len(),
{
    if ws.len() == 0 {
        Seq::empty()
    } else {
        words_bytes(big_endian, ws.drop_last()) + word_bytes(big_endian, ws.last())
    }
}

/// A two's-complement field of `bits` bits, read as a signed number.
pub open spec fn signed_field(u: u32, bits: nat) -> int {
    if u >= pow2(bits) / 2 {
        u - pow2(bits)
    } else {
        u as int
    }
}

/// `rel` as a two's-complement field of `bits` bits.
pub open spec fn field_of(rel: int, bits: nat) -> u32 {
    (if rel < 0 {
        rel + pow2(bits)
    } else {
        rel
    }) as u32
}

pub open spec fn pow2(bits: nat) -> int {
    vstd::arithmetic::power2::pow2(bits) as int
}

// ---------------------------------------------------------------------------
// Encoding

pub open spec fn big_endian(arch: Arch) -> bool {
    arch == Arch::MipsBe || arch == Arch::Mips64Be
}

/// Length in bytes of the trampoline for `arch`.
pub open spec fn jmp_len(arch: Arch) -> nat {
    match arch {
        Arch::X86_64 => 5,
        Arch::ArmLe => 4,
        Arch::MipsLe | Arch::MipsBe => 16,
        Arch::Mips64Be => 32,
    }
}

pub open spec fn x86_rel(pc: usize, target: usize) -> int {
    target - pc - 5
}

pub open spec fn arm_rel(pc: usize, target: usize) -> int {
    (target - pc) / 4 - 2
}

/// Whether a trampoline at `pc` can reach `target` on `arch`.
pub open spec fn jmp_reachable(arch: Arch, pc: usize, target: usize) -> bool {
    match arch {
        Arch::X86_64 => -pow2(31) <= x86_rel(pc, target) < pow2(31),
        Arch::ArmLe => -pow2(23) <= arm_rel(pc, target) < pow2(23),
        Arch::MipsLe | Arch::MipsBe => target < pow2(32),
        Arch::Mips64Be => true,
    }
}

/// Whether the displacement from `pc` to `target` is a whole number of
/// instructions, where `arch` asks for that.
pub open spec fn jmp_aligned(arch: Arch, pc: usize, target: usize) -> bool {
    arch == Arch::ArmLe ==> (target - pc) % 4 == 0
}

pub open spec fn lui_t9(imm: u32) -> u32 {
    0x3c19_0000u32 | imm
}

pub open spec fn ori_t9(imm: u32) -> u32 {
    0x3739_0000u32 | imm
}

pub const DSLL_T9_16: u32 = 0x0019_cc38u32;

pub const JR_T9: u32 = 0x0320_0008u32;

pub const NOP: u32 = 0u32;

pub const ARM_B: u32 = 0xea00_0000u32;

/// The 16-bit slice of `t` that starts at bit `shift`.
pub open spec fn half(t: u64, shift: u64) -> u32 {
    ((t >> shift) & 0xffffu64) as u32
}

/// The instruction words of the trampoline.
pub open spec fn jmp_words(arch: Arch, pc: usize, target: usize) -> Seq<u32> {
    match arch {
        Arch::X86_64 => Seq::empty(),
        Arch::ArmLe => seq![ARM_B | field_of(arm_rel(pc, target), 24)],
        Arch::MipsLe | Arch::MipsBe => seq![
            lui_t9(half(target as u64, 16)),
            ori_t9(half(target as u64, 0)),
            JR_T9,
            NOP,
        ],
        Arch::Mips64Be => seq![
            lui_t9(half(target as u64, 48)),
            ori_t9(half(target as u64, 32)),
            DSLL_T9_16,
            ori_t9(half(target as u64, 16)),
            DSLL_T9_16,
            ori_t9(half(target as u64, 0)),
            JR_T9,
            NOP,
        ],
    }
}

/// The bytes of the trampoline placed at `pc` that jumps to `target`.
pub open spec fn jmp_code(arch: Arch, pc: usize, target: usize) -> Seq<u8> {
    match arch {
        Arch::X86_64 => seq![0xe9u8] + le32(field_of(x86_rel(pc, target), 32)),
        _ => words_bytes(big_endian(arch), jmp_words(arch, pc, target)),
    }
}


// ---------------------------------------------------------------------------
// Execution model

/// `lui $t9, imm` on a 64-bit processor: the 32-bit result is sign-extended.
pub open spec fn lui64(imm: u32) -> u64 {
    if imm & 0x8000u32 != 0 {
        0xffff_ffff_0000_0000u64 | ((imm as u64) << 16u64)
    } else {
        (imm as u64) << 16u64
    }
}

/// The value left in `$t9` by `lui; ori; dsll 16; ori; dsll 16; ori`.
pub open spec fn mips64_t9(h3: u32, h2: u32, h1: u32, h0: u32) -> u64 {
    ((((lui64(h3) | (h2 as u64)) << 16u64) | (h1 as u64)) << 16u64) | (h0 as u64)
}

/// Whether `w` is `lui $t9, _` / `ori $t9, $t9, _`.
pub open spec fn is_lui_t9(w: u32) -> bool {
    w >> 16u32 == 0x3c19u32
}

pub open spec fn is_ori_t9(w: u32) -> bool {
    w >> 16u32 == 0x3739u32
}

pub open spec fn imm16(w: u32) -> u32 {
    w & 0xffffu32
}

/// Where control goes once a processor of kind `arch` has executed `code`
/// placed at address `pc`, for the instruction forms that a trampoline uses;
/// `None` for code of any other form.
pub open spec fn jump_dest(arch: Arch, pc: int, code: Seq<u8>) -> Option<int> {
    let be = big_endian(arch);
    let w = |k: int| word_at(be, code, 4 * k);
    match arch {
        Arch::X86_64 => if code.len() >= 5 && code[0] == 0xe9u8 {
            Some(pc + 5 + signed_field(word_at(false, code, 1), 32))
        } else {
            None
        },
        Arch::ArmLe => if code.len() >= 4 && w(0) >> 24u32 == 0xeau32 {
            Some(pc + 8 + 4 * signed_field(w(0) & 0x00ff_ffffu32, 24))
        } else {
            None
        },
        Arch::MipsLe | Arch::MipsBe => if code.len() >= 16 && is_lui_t9(w(0)) && is_ori_t9(w(1))
            && w(2) == JR_T9 && w(3) == NOP {
            Some(((imm16(w(0)) << 16u32) | imm16(w(1))) as int)
        } else {
            None
        },
        Arch::Mips64Be => if code.len() >= 32 && is_lui_t9(w(0)) && is_ori_t9(w(1)) && w(2)
            == DSLL_T9_16 && is_ori_t9(w(3)) && w(4) == DSLL_T9_16 && is_ori_t9(w(5)) && w(6)
            == JR_T9 && w(7) == NOP {
            Some(mips64_t9(imm16(w(0)), imm16(w(1)), imm16(w(3)), imm16(w(5))) as int)
        } else {
            None
        },
    }
}

proof fn lemma_word_round_trip(be: bool, w: u32)
    ensures
        word_bytes(be, w).len() == 4,
        word_at(be, word_bytes(be, w), 0) == w,
{
    let b = word_bytes(be, w);
    let (b0, b1, b2, b3) = (b[0], b[1], b[2], b[3]);
    if be {
        assert(((b0 as u32) << 24u32) | ((b1 as u32) << 16u32) | ((b2 as u32) << 8u32) | (b3 as u32)
            == w) by (bit_vector)
            requires
                b0 == (w >> 24u32) as u8,
                b1 == (w >> 16u32) as u8,
                b2 == (w >> 8u32) as u8,
                b3 == w as u8,
        ;
    } else {
        assert((b0 as u32) | ((b1 as u32) << 8u32) | ((b2 as u32) << 16u32) | ((b3 as u32) << 24u32)
            == w) by (bit_vector)
            requires
                b0 == w as u8,
                b1 == (w >> 8u32) as u8,
                b2 == (w >> 16u32) as u8,
                b3 == (w >> 24u32) as u8,
        ;
    }
}

proof fn lemma_words_bytes(be: bool, ws: Seq<u32>)
    ensures
        words_bytes(be, ws).len() == 4 * ws.len(),
        forall|k: int| 0 <= k < ws.len() ==> word_at(be, words_bytes(be, ws), 4 * k) == ws[k],
    decreases ws.len(),
{
    if ws.len() > 0 {
        let a = words_bytes(be, ws.drop_last());
        let b = word_bytes(be, ws.last());
        lemma_words_bytes(be, ws.drop_last());
        lemma_word_round_trip(be, ws.last());
        let c = a + b;
        assert forall|k: int| 0 <= k < ws.len() implies word_at(be, c, 4 * k) == ws[k] by {
            if k < ws.len() - 1 {
                assert(c[4 * k] == a[4 * k] && c[4 * k + 1] == a[4 * k + 1] && c[4 * k + 2] == a[4
                    * k + 2] && c[4 * k + 3] == a[4 * k + 3]);
                assert(ws.drop_last()[k] == ws[k]);
            } else {
                assert(c[4 * k] == b[0] && c[4 * k + 1] == b[1] && c[4 * k + 2] == b[2] && c[4 * k
                    + 3] == b[3]);
            }
        }
    }
}

proof fn lemma_field_round_trip(rel: int, bits: nat)
    requires
        bits == 24 || bits == 32,
        -pow2(bits) / 2 <= rel < pow2(bits) / 2,
    ensures
        (field_of(rel, bits) as int) < pow2(bits),
        signed_field(field_of(rel, bits), bits) == rel,
{
    vstd::arithmetic::power2::lemma2_to64();
}

/// A trampoline does what it is for: once a processor has executed the bytes
/// encoded for a jump from `pc` to a reachable `target`, it runs at `target`.
pub proof fn lemma_jmp_lands(arch: Arch, pc: usize, target: usize)
    requires
        jmp_reachable(arch, pc, target),
        jmp_aligned(arch, pc, target),
    ensures
        jmp_code(arch, pc, target).len() == jmp_len(arch),
        jump_dest(arch, pc as int, jmp_code(arch, pc, target)) == Some(target as int),
{
    vstd::arithmetic::power2::lemma2_to64();
    let code = jmp_code(arch, pc, target);
    let be = big_endian(arch);
    match arch {
        Arch::X86_64 => {
            let u = field_of(x86_rel(pc, target), 32);
            lemma_field_round_trip(x86_rel(pc, target), 32);
            lemma_word_round_trip(false, u);
            let b = le32(u);
            assert(code[1] == b[0] && code[2] == b[1] && code[3] == b[2] && code[4] == b[3]);
        },
        Arch::ArmLe => {
            let u = field_of(arm_rel(pc, target), 24);
            lemma_field_round_trip(arm_rel(pc, target), 24);
            let ws = jmp_words(arch, pc, target);
            lemma_words_bytes(be, ws);
            let w = ws[0];
            assert(w >> 24u32 == 0xeau32 && w & 0x00ff_ffffu32 == u) by (bit_vector)
                requires
                    w == 0xea00_0000u32 | u,
                    u < 0x100_0000u32,
            ;
        },
        Arch::MipsLe | Arch::MipsBe => {
            let ws = jmp_words(arch, pc, target);
            lemma_words_bytes(be, ws);
            let t = target as u64;
            let (w0, w1) = (ws[0], ws[1]);
            assert(is_lui_t9(w0) && is_ori_t9(w1) && ((imm16(w0) << 16u32) | imm16(w1)) as u64
                == t) by (bit_vector)
                requires
                    w0 == 0x3c19_0000u32 | (((t >> 16u64) & 0xffffu64) as u32),
                    w1 == 0x3739_0000u32 | (((t >> 0u64) & 0xffffu64) as u32),
                    t < 0x1_0000_0000u64,
            ;
        },
        Arch::Mips64Be => {
            let ws = jmp_words(arch, pc, target);
            lemma_words_bytes(be, ws);
            let t = target as u64;
            let (w0, w1, w3, w5) = (ws[0], ws[1], ws[3], ws[5]);
            assert(is_lui_t9(w0) && is_ori_t9(w1) && is_ori_t9(w3) && is_ori_t9(w5) && mips64_t9(
                imm16(w0),
                imm16(w1),
                imm16(w3),
                imm16(w5),
            ) == t) by (bit_vector)
                requires
                    w0 == 0x3c19_0000u32 | (((t >> 48u64) & 0xffffu64) as u32),
                    w1 == 0x3739_0000u32 | (((t >> 32u64) & 0xffffu64) as u32),
                    w3 == 0x3739_0000u32 | (((t >> 16u64) & 0xffffu64) as u32),
                    w5 == 0x3739_0000u32 | (((t >> 0u64) & 0xffffu64) as u32),
            ;
        },
    }
}


// ---------------------------------------------------------------------------
// Executable encoder

fn push_word(out: &mut Vec<u8>, be: bool, w: u32, Ghost(ws): Ghost<Seq<u32>>)
    requires
        old(out)@ == words_bytes(be, ws),
    ensures
        final(out)@ == words_bytes(be, ws.push(w)),
{
    if be {
        out.push((w >> 24u32) as u8);
        out.push((w >> 16u32) as u8);
        out.push((w >> 8u32) as u8);
        out.push(w as u8);
    } else {
        out.push(w as u8);
        out.push((w >> 8u32) as u8);
        out.push((w >> 16u32) as u8);
        out.push((w >> 24u32) as u8);
    }
    assert(ws.push(w).drop_last() =~= ws);
    assert(out@ =~= words_bytes(be, ws.push(w)));
}

fn words_to_bytes(be: bool, ws: &Vec<u32>) -> (r: Vec<u8>)
    ensures
        r@ == words_bytes(be, ws@),
{
    let mut out: Vec<u8> = Vec::new();
    let mut i: usize = 0;
    while i < ws.len()
        invariant
            i <= ws.len(),
            out@ == words_bytes(be, ws@.take(i as int)),
        decreases ws.len() - i,
    {
        assert(ws@.take(i as int).push(ws[i as int]) =~= ws@.take(i + 1));
        push_word(&mut out, be, ws[i], Ghost(ws@.take(i as int)));
        i += 1;
    }
    assert(ws@.take(i as int) =~= ws@);
    out
}

fn half_of(t: u64, shift: u64) -> (r: u32)
    requires
        shift < 64,
    ensures
        r == half(t, shift),
{
    ((t >> shift) & 0xffffu64) as u32
}

/// Encodes the trampoline that, placed at `pc`, jumps to `target` on `arch`.
///
/// Fails with `Misaligned` where the displacement is not a whole number of
/// instructions, and with `OutOfRange` where the instruction cannot reach
/// `target` from `pc`.
pub fn make_jmp_shellcode(arch: Arch, pc: usize, target: usize) -> (r: Result<
    Vec<u8>,
    ShellcodeError,
>)
    ensures
        match r {
            Ok(code) => jmp_aligned(arch, pc, target) && jmp_reachable(arch, pc, target) && code@
                == jmp_code(arch, pc, target),
            Err(ShellcodeError::Misaligned) => !jmp_aligned(arch, pc, target),
            Err(ShellcodeError::OutOfRange) => jmp_aligned(arch, pc, target) && !jmp_reachable(
                arch,
                pc,
                target,
            ),
        },
{
    proof {
        vstd::arithmetic::power2::lemma2_to64();
    }
    let be = arch == Arch::MipsBe || arch == Arch::Mips64Be;
    match arch {
        Arch::X86_64 => {
            let rel: i128 = target as i128 - pc as i128 - 5;
            if rel < -0x8000_0000i128 || rel >= 0x8000_0000i128 {
                return Err(ShellcodeError::OutOfRange);
            }
            let field: i128 = if rel < 0 {
                rel + 0x1_0000_0000i128
            } else {
                rel
            };
            let u = field as u32;
            let mut out: Vec<u8> = Vec::new();
            out.push(0xe9u8);
            out.push(u as u8);
            out.push((u >> 8u32) as u8);
            out.push((u >> 16u32) as u8);
            out.push((u >> 24u32) as u8);
            assert(out@ =~= jmp_code(arch, pc, target));
            Ok(out)
        },
        Arch::ArmLe => {
            let dist: i128 = target as i128 - pc as i128;
            if dist % 4 != 0 {
                return Err(ShellcodeError::Misaligned);
            }
            let rel: i128 = dist / 4 - 2;
            if rel < -0x80_0000i128 || rel >= 0x80_0000i128 {
                return Err(ShellcodeError::OutOfRange);
            }
            let field: i128 = if rel < 0 {
                rel + 0x100_0000i128
            } else {
                rel
            };
            let ws: Vec<u32> = vec![0xea00_0000u32 | (field as u32)];
            assert(ws@ =~= jmp_words(arch, pc, target));
            Ok(words_to_bytes(be, &ws))
        },
        Arch::MipsLe | Arch::MipsBe => {
            if target as u64 > 0xffff_ffffu64 {
                return Err(ShellcodeError::OutOfRange);
            }
            let t = target as u64;
            let ws: Vec<u32> = vec![
                0x3c19_0000u32 | half_of(t, 16),
                0x3739_0000u32 | half_of(t, 0),
                JR_T9,
                NOP,
            ];
            assert(ws@ =~= jmp_words(arch, pc, target));
            Ok(words_to_bytes(be, &ws))
        },
        Arch::Mips64Be => {
            let t = target as u64;
            let ws: Vec<u32> = vec![
                0x3c19_0000u32 | half_of(t, 48),
                0x3739_0000u32 | half_of(t, 32),
                DSLL_T9_16,
                0x3739_0000u32 | half_of(t, 16),
                DSLL_T9_16,
                0x3739_0000u32 | half_of(t, 0),
                JR_T9,
                NOP,
            ];
            assert(ws@ =~= jmp_words(arch, pc, target));
            Ok(words_to_bytes(be, &ws))
        },
    }
}

} // verus!
