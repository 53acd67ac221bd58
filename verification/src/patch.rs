//! Detour bookkeeping and the i386 instruction-length decoder.
//!
//! A detour overwrites at least five whole instruction bytes at a function
//! entry with `E9 rel32`; how many bytes that is comes from `steal_len`,
//! which decodes the legacy 32-bit instruction forms the hooked prologues
//! use. `jcc_to_jmp_bytes` turns a long conditional branch into an
//! unconditional jump to the same target. The memory writes themselves
//! (page protection, trampolines) are done by the caller.

use vstd::prelude::*;

verus! {

/// Lock, repeat and segment prefixes: they never change an instruction's
/// length.
pub open spec fn is_plain_prefix(b: u8) -> bool {
    b == 0xf0 || b == 0xf2 || b == 0xf3 || b == 0x2e || b == 0x36 || b == 0x3e || b == 0x26 || b
        == 0x64 || b == 0x65
}

/// The operand-size override: immediates and branch offsets sized by the
/// operand size shrink from four bytes to two after it.
pub const OPERAND_SIZE_PREFIX: u8 = 0x66;

/// The address-size override: it changes how ModRM and memory offsets are
/// encoded, so the decoder refuses any instruction that carries it.
pub const ADDRESS_SIZE_PREFIX: u8 = 0x67;

/// One-byte opcodes that are the whole instruction: no ModRM byte, no
/// immediate, no offset.
pub open spec fn is_bare_opcode(b: u8) -> bool {
    b == 0x06 || b == 0x07 || b == 0x0e || b == 0x16 || b == 0x17 || b == 0x1e || b == 0x1f || b
        == 0x27 || b == 0x2f || b == 0x37 || b == 0x3f || (0x40 <= b <= 0x5f) || b == 0x60 || b
        == 0x61 || (0x6c <= b <= 0x6f) || (0x90 <= b <= 0x99) || (0x9b <= b <= 0x9f) || (0xa4 <= b
        <= 0xa7) || (0xaa <= b <= 0xaf) || b == 0xc3 || b == 0xc9 || b == 0xcb || b == 0xcc || b
        == 0xce || b == 0xcf || b == 0xd7 || (0xec <= b <= 0xef) || b == 0xf1 || b == 0xf4 || b
        == 0xf5 || (0xf8 <= b <= 0xfd)
}

/// Whole length of a one-byte opcode without a ModRM byte that carries an
/// immediate, a branch offset, a memory offset or a far pointer (32-bit
/// operand and address size); 0 for every other opcode.
pub open spec fn spec_fixed_len(op: u8) -> nat {
    if op == 0x04 || op == 0x0c || op == 0x14 || op == 0x1c || op == 0x24 || op == 0x2c || op
        == 0x34 || op == 0x3c || op == 0x6a || (0x70 <= op <= 0x7f) || op == 0xa8 || (0xb0 <= op
        <= 0xb7) || op == 0xcd || op == 0xd4 || op == 0xd5 || (0xe0 <= op <= 0xe7) || op == 0xeb {
        2
    } else if op == 0xc2 || op == 0xca {
        3
    } else if op == 0xc8 {
        4
    } else if op == 0x05 || op == 0x0d || op == 0x15 || op == 0x1d || op == 0x25 || op == 0x2d
        || op == 0x35 || op == 0x3d || op == 0x68 || (0xa0 <= op <= 0xa3) || op == 0xa9 || (0xb8
        <= op <= 0xbf) || op == 0xe8 || op == 0xe9 {
        5
    } else if op == 0x9a || op == 0xea {
        7
    } else {
        0
    }
}

/// One-byte opcodes whose length follows the operand size (a four-byte
/// immediate, offset or far pointer): the decoder refuses them after an
/// operand-size override.
pub open spec fn spec_operand_sized(op: u8) -> bool {
    op == 0x05 || op == 0x0d || op == 0x15 || op == 0x1d || op == 0x25 || op == 0x2d || op == 0x35
        || op == 0x3d || op == 0x68 || op == 0x69 || op == 0x81 || op == 0x9a || op == 0xa9 || (0xb8
        <= op <= 0xbf) || op == 0xc7 || op == 0xe8 || op == 0xe9 || op == 0xea || op == 0xf7
}

/// One-byte opcodes followed by a ModRM byte.
pub open spec fn spec_modrm_required(op: u8) -> bool {
    (op <= 0x03) || (0x08 <= op <= 0x0b) || (0x10 <= op <= 0x13) || (0x18 <= op <= 0x1b) || (0x20
        <= op <= 0x23) || (0x28 <= op <= 0x2b) || (0x30 <= op <= 0x33) || (0x38 <= op <= 0x3b) || op
        == 0x63 || op == 0x69 || op == 0x6b || (0x80 <= op <= 0x8f) || op == 0xc0 || op == 0xc1 || op
        == 0xc6 || op == 0xc7 || (0xd0 <= op <= 0xd3) || (0xd8 <= op <= 0xdf) || op == 0xf6 || op
        == 0xf7 || op == 0xfe || op == 0xff
}

/// Immediate bytes after the ModRM byte (and its SIB and displacement) of
/// one-byte opcode `op` whose ModRM `reg` field is `reg`: `F6`/`F7` carry an
/// immediate only for `test` (`reg` 0 or 1).
pub open spec fn spec_imm_len(op: u8, reg: u8) -> nat {
    if op == 0x69 || op == 0x81 || op == 0xc7 || (op == 0xf7 && reg < 2) {
        4
    } else if op == 0x6b || (0x80 <= op <= 0x83 && op != 0x81) || op == 0xc0 || op == 0xc1 || op
        == 0xc6 || (op == 0xf6 && reg < 2) {
        1
    } else {
        0
    }
}

/// Two-byte opcodes `0F op` followed by a ModRM byte whose length this
/// decoder knows; every other `0F` form is refused.
pub open spec fn spec_modrm_required_2(op: u8) -> bool {
    (op <= 0x03) || op == 0x0d || (0x10 <= op <= 0x1f) || (0x28 <= op <= 0x2f) || (0x40 <= op
        <= 0x76) || op == 0x7e || op == 0x7f || (0x90 <= op <= 0x9f) || (0xa3 <= op <= 0xa5) || (0xab
        <= op <= 0xaf) || (0xb0 <= op <= 0xb7) || (0xba <= op <= 0xbf) || (0xc0 <= op <= 0xc7) || (
    0xd1 <= op <= 0xfe)
}

/// Immediate bytes after the ModRM byte of two-byte opcode `0F op`.
pub open spec fn spec_imm_len_0f(op: u8) -> nat {
    if (0x70 <= op <= 0x73) || op == 0xa4 || op == 0xac || op == 0xba || op == 0xc2 || op == 0xc4
        || op == 0xc5 || op == 0xc6 {
        1
    } else {
        0
    }
}

/// Length of a ModRM byte plus its SIB byte and displacement, when the
/// bytes needed to tell are present.
pub open spec fn spec_modrm_len(s: Seq<u8>) -> Option<nat> {
    if s.len() == 0 {
        None
    } else {
        let m = s[0] / 64;
        let rm = s[0] % 8;
        if m == 3 {
            Some(1)
        } else if rm == 4 && s.len() < 2 {
            None
        } else {
            let sib: nat = if rm == 4 {
                1 + (if s[1] % 8 == 5 && m == 0 {
                    4nat
                } else {
                    0nat
                })
            } else {
                0
            };
            let disp: nat = if m == 0 {
                if rm == 5 {
                    4
                } else {
                    0
                }
            } else if m == 1 {
                1
            } else {
                4
            };
            Some(1 + sib + disp)
        }
    }
}

/// End offset of the instruction whose opcode (or remaining prefixes)
/// starts at `s[i]`, `o16` telling whether an operand-size override came
/// before; 0 when it is refused.
pub open spec fn spec_instr_end(s: Seq<u8>, i: int, o16: bool) -> nat
    decreases s.len() - i,
{
    if i < 0 || i >= s.len() {
        0
    } else {
        let b = s[i];
        if b == ADDRESS_SIZE_PREFIX {
            0
        } else if b == OPERAND_SIZE_PREFIX {
            spec_instr_end(s, i + 1, true)
        } else if is_plain_prefix(b) {
            spec_instr_end(s, i + 1, o16)
        } else if b == 0x0f {
            if i + 1 >= s.len() {
                0
            } else {
                let op = s[i + 1];
                if 0x80 <= op <= 0x8f {
                    if o16 {
                        0
                    } else {
                        (i + 6) as nat
                    }
                } else if !spec_modrm_required_2(op) {
                    0
                } else {
                    match spec_modrm_len(s.subrange(i + 2, s.len() as int)) {
                        None => 0,
                        Some(m) => (i + 2 + m + spec_imm_len_0f(op)) as nat,
                    }
                }
            }
        } else if o16 && spec_operand_sized(b) {
            0
        } else if is_bare_opcode(b) {
            (i + 1) as nat
        } else if spec_fixed_len(b) > 0 {
            (i + spec_fixed_len(b)) as nat
        } else if !spec_modrm_required(b) {
            0
        } else {
            match spec_modrm_len(s.subrange(i + 1, s.len() as int)) {
                None => 0,
                Some(m) => (i + 1 + m + spec_imm_len(b, (s[i + 1] / 8) % 8)) as nat,
            }
        }
    }
}

/// The longest encoding the processor accepts; anything longer faults.
pub const MAX_INSTR_LEN: usize = 15;

/// Length in bytes of the i386 instruction (32-bit code) at the start of
/// `s`, or 0 when the decoder refuses it: an unknown or address-size
/// overridden form, an operand-size override on an operand-sized form, a
/// ModRM/SIB byte missing, or more than `MAX_INSTR_LEN` bytes.
pub open spec fn spec_instr_len(s: Seq<u8>) -> nat {
    let e = spec_instr_end(s, 0, false);
    if e > MAX_INSTR_LEN {
        0
    } else {
        e
    }
}

/// Whether one-byte opcode `op` takes a ModRM byte.
pub fn modrm_required(op: u8) -> (r: bool)
    ensures
        r == spec_modrm_required(op),
{
    (op <= 0x03) || (0x08 <= op && op <= 0x0b) || (0x10 <= op && op <= 0x13) || (0x18 <= op && op
        <= 0x1b) || (0x20 <= op && op <= 0x23) || (0x28 <= op && op <= 0x2b) || (0x30 <= op && op
        <= 0x33) || (0x38 <= op && op <= 0x3b) || op == 0x63 || op == 0x69 || op == 0x6b || (0x80
        <= op && op <= 0x8f) || op == 0xc0 || op == 0xc1 || op == 0xc6 || op == 0xc7 || (0xd0 <= op
        && op <= 0xd3) || (0xd8 <= op && op <= 0xdf) || op == 0xf6 || op == 0xf7 || op == 0xfe || op
        == 0xff
}

/// Whether a `0F` two-byte opcode takes a ModRM byte (of the forms known
/// here).
pub fn modrm_required_2(op: u8) -> (r: bool)
    ensures
        r == spec_modrm_required_2(op),
{
    (op <= 0x03) || op == 0x0d || (0x10 <= op && op <= 0x1f) || (0x28 <= op && op <= 0x2f) || (0x40
        <= op && op <= 0x76) || op == 0x7e || op == 0x7f || (0x90 <= op && op <= 0x9f) || (0xa3
        <= op && op <= 0xa5) || (0xab <= op && op <= 0xaf) || (0xb0 <= op && op <= 0xb7) || (0xba
        <= op && op <= 0xbf) || (0xc0 <= op && op <= 0xc7) || (0xd1 <= op && op <= 0xfe)
}

/// Immediate size (bytes) after the ModRM byte of one-byte opcode `op`,
/// given the ModRM byte's `reg` field.
pub fn imm_len(op: u8, reg: u8) -> (r: usize)
    ensures
        r == spec_imm_len(op, reg),
{
    if op == 0x69 || op == 0x81 || op == 0xc7 || (op == 0xf7 && reg < 2) {
        4
    } else if op == 0x6b || (0x80 <= op && op <= 0x83 && op != 0x81) || op == 0xc0 || op == 0xc1
        || op == 0xc6 || (op == 0xf6 && reg < 2) {
        1
    } else {
        0
    }
}

/// Immediate size (bytes) after a `0F` two-byte opcode's ModRM.
pub fn imm_len_0f(op: u8) -> (r: usize)
    ensures
        r == spec_imm_len_0f(op),
{
    if (0x70 <= op && op <= 0x73) || op == 0xa4 || op == 0xac || op == 0xba || op == 0xc2 || op
        == 0xc4 || op == 0xc5 || op == 0xc6 {
        1
    } else {
        0
    }
}

/// Whole length of a one-byte opcode without a ModRM byte that carries an
/// immediate, offset or far pointer; 0 for every other opcode.
pub fn fixed_len(op: u8) -> (r: usize)
    ensures
        r == spec_fixed_len(op),
{
    if op == 0x04 || op == 0x0c || op == 0x14 || op == 0x1c || op == 0x24 || op == 0x2c || op
        == 0x34 || op == 0x3c || op == 0x6a || (0x70 <= op && op <= 0x7f) || op == 0xa8 || (0xb0
        <= op && op <= 0xb7) || op == 0xcd || op == 0xd4 || op == 0xd5 || (0xe0 <= op && op <= 0xe7)
        || op == 0xeb {
        2
    } else if op == 0xc2 || op == 0xca {
        3
    } else if op == 0xc8 {
        4
    } else if op == 0x05 || op == 0x0d || op == 0x15 || op == 0x1d || op == 0x25 || op == 0x2d
        || op == 0x35 || op == 0x3d || op == 0x68 || (0xa0 <= op && op <= 0xa3) || op == 0xa9 || (
    0xb8 <= op && op <= 0xbf) || op == 0xe8 || op == 0xe9 {
        5
    } else if op == 0x9a || op == 0xea {
        7
    } else {
        0
    }
}

/// Whether one-byte opcode `op` is sized by the operand size.
pub fn operand_sized(op: u8) -> (r: bool)
    ensures
        r == spec_operand_sized(op),
{
    op == 0x05 || op == 0x0d || op == 0x15 || op == 0x1d || op == 0x25 || op == 0x2d || op == 0x35
        || op == 0x3d || op == 0x68 || op == 0x69 || op == 0x81 || op == 0x9a || op == 0xa9 || (0xb8
        <= op && op <= 0xbf) || op == 0xc7 || op == 0xe8 || op == 0xe9 || op == 0xea || op == 0xf7
}

/// Whether `b` is the whole instruction.
fn bare_opcode(b: u8) -> (r: bool)
    ensures
        r == is_bare_opcode(b),
{
    b == 0x06 || b == 0x07 || b == 0x0e || b == 0x16 || b == 0x17 || b == 0x1e || b == 0x1f || b
        == 0x27 || b == 0x2f || b == 0x37 || b == 0x3f || (0x40 <= b && b <= 0x5f) || b == 0x60 || b
        == 0x61 || (0x6c <= b && b <= 0x6f) || (0x90 <= b && b <= 0x99) || (0x9b <= b && b <= 0x9f)
        || (0xa4 <= b && b <= 0xa7) || (0xaa <= b && b <= 0xaf) || b == 0xc3 || b == 0xc9 || b
        == 0xcb || b == 0xcc || b == 0xce || b == 0xcf || b == 0xd7 || (0xec <= b && b <= 0xef) || b
        == 0xf1 || b == 0xf4 || b == 0xf5 || (0xf8 <= b && b <= 0xfd)
}

/// Whether `b` is a lock, repeat or segment prefix.
fn plain_prefix(b: u8) -> (r: bool)
    ensures
        r == is_plain_prefix(b),
{
    b == 0xf0 || b == 0xf2 || b == 0xf3 || b == 0x2e || b == 0x36 || b == 0x3e || b == 0x26 || b
        == 0x64 || b == 0x65
}

/// Length of the ModRM byte (+ optional SIB + displacement) starting at
/// `bytes[0]`; `None` when `bytes` is empty or the SIB byte is missing.
pub fn modrm_len(bytes: &[u8]) -> (r: Option<usize>)
    ensures
        match r {
            None => spec_modrm_len(bytes@) is None,
            Some(n) => spec_modrm_len(bytes@) == Some(n as nat),
        },
{
    if bytes.len() == 0 {
        return None;
    }
    let modrm = bytes[0];
    let m = modrm / 64;
    let rm = modrm % 8;
    let mut len: usize = 1;
    if m != 3 {
        if rm == 4 {
            if bytes.len() < 2 {
                return None;
            }
            let sib = bytes[1];
            len += 1;
            if sib % 8 == 5 && m == 0 {
                len += 4;
            }
        }
        if m == 0 {
            if rm == 5 {
                len += 4;
            }
        } else if m == 1 {
            len += 1;
        } else {
            len += 4;
        }
    }
    Some(len)
}

/// Decode the length (in bytes) of the i386 instruction starting at
/// `bytes[0]`: its real length, or 0 when the decoder refuses it (the
/// caller treats that as "not a valid detour site").
pub fn instr_len(bytes: &[u8]) -> (r: usize)
    requires
        bytes@.len() + 16 <= usize::MAX,
    ensures
        r == spec_instr_len(bytes@),
        r <= MAX_INSTR_LEN,
{
    let mut i: usize = 0;
    let mut o16 = false;
    while i < bytes.len() && (bytes[i] == OPERAND_SIZE_PREFIX || plain_prefix(bytes[i]))
        invariant
            i <= bytes@.len(),
            bytes@.len() + 16 <= usize::MAX,
            spec_instr_end(bytes@, 0, false) == spec_instr_end(bytes@, i as int, o16),
        decreases bytes@.len() - i,
    {
        if bytes[i] == OPERAND_SIZE_PREFIX {
            o16 = true;
        }
        i += 1;
    }
    let e = opcode_end(bytes, i, o16);
    if e > MAX_INSTR_LEN {
        0
    } else {
        e
    }
}

/// `spec_instr_end` at a position that holds no lock, repeat, segment or
/// operand-size prefix.
fn opcode_end(bytes: &[u8], i: usize, o16: bool) -> (r: usize)
    requires
        bytes@.len() + 16 <= usize::MAX,
        i <= bytes@.len(),
        i < bytes@.len() ==> !(bytes@[i as int] == OPERAND_SIZE_PREFIX || is_plain_prefix(
            bytes@[i as int],
        )),
    ensures
        r == spec_instr_end(bytes@, i as int, o16),
{
    if i >= bytes.len() {
        return 0;
    }
    let b = bytes[i];
    if b == ADDRESS_SIZE_PREFIX {
        0
    } else if b == 0x0f {
        if i + 1 >= bytes.len() {
            return 0;
        }
        let op = bytes[i + 1];
        if 0x80 <= op && op <= 0x8f {
            return if o16 {
                0
            } else {
                i + 6
            };
        }
        if !modrm_required_2(op) {
            return 0;
        }
        let rest = vstd::slice::slice_subrange(bytes, i + 2, bytes.len());
        match modrm_len(rest) {
            None => 0,
            Some(m) => i + 2 + m + imm_len_0f(op),
        }
    } else if o16 && operand_sized(b) {
        0
    } else if bare_opcode(b) {
        i + 1
    } else if fixed_len(b) > 0 {
        i + fixed_len(b)
    } else if !modrm_required(b) {
        0
    } else {
        let rest = vstd::slice::slice_subrange(bytes, i + 1, bytes.len());
        match modrm_len(rest) {
            None => 0,
            Some(m) => {
                let reg = (bytes[i + 1] / 8) % 8;
                i + 1 + m + imm_len(b, reg)
            },
        }
    }
}

/// Whole-instruction length from the start of `code` until at least five
/// bytes are covered, continuing from byte `total`; 0 when an instruction on
/// the way cannot be decoded.
pub open spec fn spec_steal_from(code: Seq<u8>, total: nat) -> nat
    decreases (if total < 5 {
        5 - total
    } else {
        0
    }),
{
    if total >= 5 {
        total
    } else {
        let l = if total < code.len() {
            spec_instr_len(code.subrange(total as int, code.len() as int))
        } else {
            0
        };
        if l == 0 {
            0
        } else {
            spec_steal_from(code, total + l)
        }
    }
}

/// The number of whole instruction bytes a detour at the start of `code`
/// must steal (the first instruction boundary at or past five bytes), or 0
/// if any instruction in that span fails to decode. The engine and game
/// prologues hooked by the proxy all decode to 6 or 9.
pub fn steal_len(code: &[u8]) -> (r: usize)
    requires
        code@.len() + 32 <= usize::MAX,
    ensures
        r == spec_steal_from(code@, 0),
        r == 0 || r >= 5,
{
    let mut total: usize = 0;
    while total < 5
        invariant
            total <= 4 + MAX_INSTR_LEN,
            code@.len() + 32 <= usize::MAX,
            spec_steal_from(code@, 0) == spec_steal_from(code@, total as nat),
        decreases (if total < 5 {
            5 - total
        } else {
            0
        }),
    {
        if total >= code.len() {
            return 0;
        }
        let rest = vstd::slice::slice_subrange(code, total, code.len());
        let l = instr_len(rest);
        if l == 0 {
            return 0;
        }
        total += l;
    }
    total
}

proof fn lemma_modrm_len_extends(s: Seq<u8>, t: Seq<u8>)
    requires
        spec_modrm_len(s) is Some,
    ensures
        spec_modrm_len(s + t) == spec_modrm_len(s),
{
    assert((s + t)[0] == s[0]);
    if s.len() >= 2 {
        assert((s + t)[1] == s[1]);
    }
}

proof fn lemma_instr_end_extends(s: Seq<u8>, t: Seq<u8>, i: int, o16: bool)
    requires
        0 <= i,
        spec_instr_end(s, i, o16) > 0,
    ensures
        spec_instr_end(s + t, i, o16) == spec_instr_end(s, i, o16),
    decreases s.len() - i,
{
    let u = s + t;
    assert(u[i] == s[i]);
    let b = s[i];
    if b == OPERAND_SIZE_PREFIX {
        lemma_instr_end_extends(s, t, i + 1, true);
    } else if is_plain_prefix(b) {
        lemma_instr_end_extends(s, t, i + 1, o16);
    } else if b == 0x0f {
        assert(u[i + 1] == s[i + 1]);
        let op = s[i + 1];
        if !(0x80 <= op <= 0x8f) {
            assert(u.subrange(i + 2, u.len() as int) =~= s.subrange(i + 2, s.len() as int) + t);
            lemma_modrm_len_extends(s.subrange(i + 2, s.len() as int), t);
        }
    } else if !(is_bare_opcode(b) || spec_fixed_len(b) > 0) {
        assert(u[i + 1] == s[i + 1]);
        assert(u.subrange(i + 1, u.len() as int) =~= s.subrange(i + 1, s.len() as int) + t);
        lemma_modrm_len_extends(s.subrange(i + 1, s.len() as int), t);
    }
}

/// Law: a successful decode depends only on the bytes it covered —
/// appending more code never changes it.
pub proof fn law_decode_ignores_trailing_bytes(s: Seq<u8>, t: Seq<u8>)
    requires
        spec_instr_len(s) > 0,
    ensures
        spec_instr_len(s + t) == spec_instr_len(s),
{
    lemma_instr_end_extends(s, t, 0, false);
}

/// The i386 32-bit addressing table: how many bytes a ModRM byte `modrm`
/// (followed by `sib` when it calls for one) and its displacement take.
/// mod 11: register, 1 byte; mod 00: 1 byte, but rm 101 is an absolute
/// disp32 (5) and rm 100 adds a SIB byte (2), whose base 101 adds a disp32
/// (6); mod 01: disp8 (2, 3 with SIB); mod 10: disp32 (5, 6 with SIB).
pub open spec fn addressing_bytes(modrm: u8, sib: u8) -> nat {
    let md = modrm >> 6u8;
    let rm = modrm & 7u8;
    if md == 3 {
        1
    } else if md == 0 {
        if rm == 5 {
            5
        } else if rm == 4 {
            if sib & 7u8 == 5 {
                6
            } else {
                2
            }
        } else {
            1
        }
    } else if md == 1 {
        if rm == 4 {
            3
        } else {
            2
        }
    } else if rm == 4 {
        6
    } else {
        5
    }
}

/// Law: the ModRM decoder follows the addressing table for every ModRM
/// byte (with the byte after it present), absolute `disp32` and SIB forms
/// included.
pub proof fn law_modrm_follows_addressing_table(s: Seq<u8>)
    requires
        s.len() >= 2,
    ensures
        spec_modrm_len(s) == Some(addressing_bytes(s[0], s[1])),
{
    let b = s[0];
    let c = s[1];
    assert(b >> 6u8 == b / 64 && b & 7u8 == b % 8 && c & 7u8 == c % 8) by (bit_vector);
}

/// Law: the whole length of `mov r32, r/m32` (`8B`), `mov r/m32, r32`
/// (`89`), `lea` (`8D`), `cmp`/`add`/`sub`… `r/m32, imm8` (`83`) and
/// `… r/m32, imm32` (`81`): the opcode, the addressing bytes of its ModRM,
/// and the immediate (none, none, none, 1, 4).
pub proof fn law_modrm_instruction_lengths(s: Seq<u8>)
    requires
        s.len() >= 3,
        s[0] == 0x8b || s[0] == 0x89 || s[0] == 0x8d || s[0] == 0x83 || s[0] == 0x81,
    ensures
        spec_instr_len(s) == 1 + addressing_bytes(s[1], s[2]) + (if s[0] == 0x83 {
            1nat
        } else if s[0] == 0x81 {
            4nat
        } else {
            0nat
        }),
{
    let rest = s.subrange(1, s.len() as int);
    law_modrm_follows_addressing_table(rest);
    assert(rest[0] == s[1] && rest[1] == s[2]);
    let b = s[1];
    assert(b & 7u8 <= 7 && b >> 6u8 <= 3) by (bit_vector);
}

/// Law: the lengths of the forms without a ModRM byte, whatever follows
/// the opcode: `push imm8` 2, `push imm32` 5, `call`/`jmp rel32` 5,
/// `jmp rel8` and `jcc rel8` 2, `0F 8x` `jcc rel32` 6, `mov eax, moffs32` and
/// its forms 5, `mov r32, imm32` 5, `ret imm16` 3, `enter` 4, `push r32`,
/// `pop r32`, `ret`, `leave`, `nop` 1.
pub proof fn law_fixed_instruction_lengths(s: Seq<u8>)
    requires
        s.len() >= 2,
    ensures
        s[0] == 0x6a ==> spec_instr_len(s) == 2,
        s[0] == 0x68 ==> spec_instr_len(s) == 5,
        (s[0] == 0xe8 || s[0] == 0xe9) ==> spec_instr_len(s) == 5,
        (s[0] == 0xeb || (0x70 <= s[0] <= 0x7f)) ==> spec_instr_len(s) == 2,
        (s[0] == 0x0f && 0x80 <= s[1] <= 0x8f) ==> spec_instr_len(s) == 6,
        (0xa0 <= s[0] <= 0xa3) ==> spec_instr_len(s) == 5,
        (0xb8 <= s[0] <= 0xbf) ==> spec_instr_len(s) == 5,
        (0xb0 <= s[0] <= 0xb7) ==> spec_instr_len(s) == 2,
        s[0] == 0xc2 ==> spec_instr_len(s) == 3,
        s[0] == 0xc8 ==> spec_instr_len(s) == 4,
        (0x50 <= s[0] <= 0x5f || s[0] == 0xc3 || s[0] == 0xc9 || s[0] == 0x90) ==> spec_instr_len(s)
            == 1,
{
}

/// The little-endian 32-bit value of four bytes.
pub open spec fn le32(a: u8, b: u8, c: u8, d: u8) -> nat {
    a as nat + 256 * (b as nat) + 65536 * (c as nat) + 16777216 * (d as nat)
}

/// Whether `bytes` begins a 6-byte `0F 8x rel32` long conditional branch,
/// the only form `jcc_to_jmp` may convert.
pub fn is_jcc_rel32(bytes: &[u8; 6]) -> (r: bool)
    ensures
        r == (bytes@[0] == 0x0f && 0x80 <= bytes@[1] <= 0x8f),
{
    bytes[0] == 0x0f && 0x80 <= bytes[1] && bytes[1] <= 0x8f
}

/// The 6-byte `0F 8x rel32` at `bytes` rewritten as a 5-byte `E9 rel32`
/// plus a trailing NOP, landing on the same target: the `E9` operand starts
/// one byte earlier, so the rel32 grows by one (wrapping).
pub fn jcc_to_jmp_bytes(bytes: &[u8; 6]) -> (r: [u8; 6])
    ensures
        r@[0] == 0xe9,
        r@[5] == 0x90,
        le32(r@[1], r@[2], r@[3], r@[4]) == (le32(bytes@[2], bytes@[3], bytes@[4], bytes@[5]) + 1)
            % 0x1_0000_0000,
{
    let v: u64 = bytes[2] as u64 + 256 * (bytes[3] as u64) + 65536 * (bytes[4] as u64) + 16777216
        * (bytes[5] as u64);
    let w: u64 = (v + 1) % 0x1_0000_0000;
    let b1 = (w % 256) as u8;
    let b2 = ((w / 256) % 256) as u8;
    let b3 = ((w / 65536) % 256) as u8;
    let b4 = (w / 16777216) as u8;
    assert(w == b1 + 256 * b2 + 65536 * b3 + 16777216 * b4) by (nonlinear_arith)
        requires
            w < 0x1_0000_0000,
            b1 == w % 256,
            b2 == (w / 256) % 256,
            b3 == (w / 65536) % 256,
            b4 == w / 16777216,
    ;
    let out: [u8; 6] = [0xe9, b1, b2, b3, b4, 0x90];
    out
}

/// Law: the rewritten branch jumps to the same place. A `0F 8x rel32` at
/// `addr` targets `addr + 6 + rel`; the `E9 rel32'` written over it targets
/// `addr + 5 + rel'`; the two agree modulo 2^32.
pub proof fn law_jcc_to_jmp_keeps_target(bytes: Seq<u8>, out: Seq<u8>, addr: nat)
    requires
        bytes.len() == 6,
        out.len() == 6,
        le32(out[1], out[2], out[3], out[4]) == (le32(bytes[2], bytes[3], bytes[4], bytes[5]) + 1)
            % 0x1_0000_0000,
    ensures
        (addr + 5 + le32(out[1], out[2], out[3], out[4])) % 0x1_0000_0000 == (addr + 6 + le32(
            bytes[2],
            bytes[3],
            bytes[4],
            bytes[5],
        )) % 0x1_0000_0000,
{
    let x = le32(bytes[2], bytes[3], bytes[4], bytes[5]);
    let y = le32(out[1], out[2], out[3], out[4]);
    assert((addr + 5 + y) % 0x1_0000_0000 == (addr + 5 + (x + 1)) % 0x1_0000_0000) by (
    nonlinear_arith)
        requires
            y == (x + 1) % 0x1_0000_0000,
    ;
}

/// Law: converting is idempotent in effect — the rewritten bytes are no
/// longer a conditional branch, so a second pass leaves them alone.
pub proof fn law_converted_branch_is_not_jcc(out: Seq<u8>)
    requires
        out.len() == 6,
        out[0] == 0xe9,
    ensures
        !(out[0] == 0x0f && 0x80 <= out[1] <= 0x8f),
{
}

/// The four little-endian bytes of a 32-bit value.
fn le_bytes32(w: u64) -> (r: [u8; 4])
    requires
        w < 0x1_0000_0000,
    ensures
        le32(r@[0], r@[1], r@[2], r@[3]) == w,
{
    let b1 = (w % 256) as u8;
    let b2 = ((w / 256) % 256) as u8;
    let b3 = ((w / 65536) % 256) as u8;
    let b4 = (w / 16777216) as u8;
    assert(w == b1 + 256 * b2 + 65536 * b3 + 16777216 * b4) by (nonlinear_arith)
        requires
            w < 0x1_0000_0000,
            b1 == w % 256,
            b2 == (w / 256) % 256,
            b3 == (w / 65536) % 256,
            b4 == w / 16777216,
    ;
    [b1, b2, b3, b4]
}

/// The rel32 operand of a jump or call ending at `from_end` and landing on
/// `to`: their difference modulo 2^32.
pub open spec fn rel32_to(from_end: int, to: int) -> int {
    (to - from_end) % 0x1_0000_0000
}

/// The rel32 operand bytes for a jump or call ending at `from_end` that
/// lands on `to` (the difference wraps like the 32-bit machine's).
pub fn rel32_bytes(from_end: usize, to: usize) -> (r: [u8; 4])
    ensures
        le32(r@[0], r@[1], r@[2], r@[3]) == rel32_to(from_end as int, to as int),
{
    let d = (to as u64).wrapping_sub(from_end as u64);
    let w = d % 0x1_0000_0000;
    proof {
        let diff = to as int - from_end as int;
        if to as u64 >= from_end as u64 {
            assert(d == diff);
        } else {
            assert(d == diff + 0x1_0000_0000 * 0x1_0000_0000);
            vstd::arithmetic::div_mod::lemma_mod_multiples_vanish(
                0x1_0000_0000,
                diff,
                0x1_0000_0000,
            );
        }
    }
    le_bytes32(w)
}

/// The landing address of a jump or call ending at `from_end` whose rel32
/// operand bytes are `operand` (little-endian), wrapping like the 32-bit
/// machine: the target a retargeted call site had before.
pub fn rel32_target(from_end: usize, operand: [u8; 4]) -> (r: usize)
    ensures
        r == (from_end + le32(operand@[0], operand@[1], operand@[2], operand@[3])) % 0x1_0000_0000,
{
    let v: u64 = operand[0] as u64 + 256 * (operand[1] as u64) + 65536 * (operand[2] as u64)
        + 16777216 * (operand[3] as u64);
    let f: u64 = (from_end as u64) % 0x1_0000_0000;
    let t: u64 = (f + v) % 0x1_0000_0000;
    proof {
        vstd::arithmetic::div_mod::lemma_add_mod_noop_right(
            v as int,
            from_end as int,
            0x1_0000_0000,
        );
    }
    t as usize
}

/// A detour may only steal between 5 and 16 bytes.
pub fn steal_len_ok(len: usize) -> (r: bool)
    ensures
        r == (5 <= len <= 16),
{
    5 <= len && len <= 16
}

/// The bytes written over a hooked function's entry: `E9 rel32` to the
/// wrapper, the rest of the stolen span filled with NOPs.
pub fn entry_patch(len: usize, target: usize, wrapper: usize) -> (r: Vec<u8>)
    requires
        5 <= len <= 16,
        target + 5 <= usize::MAX,
    ensures
        r@.len() == len,
        r@[0] == 0xe9,
        le32(r@[1], r@[2], r@[3], r@[4]) == rel32_to(target + 5, wrapper as int),
        forall|i: int| 5 <= i < len ==> r@[i] == 0x90,
{
    let rel = rel32_bytes(target + 5, wrapper);
    let mut out: Vec<u8> = Vec::new();
    out.push(0xe9);
    out.push(rel[0]);
    out.push(rel[1]);
    out.push(rel[2]);
    out.push(rel[3]);
    while out.len() < len
        invariant
            5 <= out@.len() <= len,
            out@[0] == 0xe9,
            out@[1] == rel@[0] && out@[2] == rel@[1] && out@[3] == rel@[2] && out@[4] == rel@[3],
            forall|i: int| 5 <= i < out@.len() ==> out@[i] == 0x90,
        decreases len - out@.len(),
    {
        out.push(0x90);
    }
    out
}

/// The trampoline of a detour: the stolen bytes, then `E9 rel32` back to
/// the first byte after them in the original function.
pub fn trampoline_code(stolen: &[u8], tramp: usize, target: usize) -> (r: Vec<u8>)
    requires
        tramp + stolen@.len() + 5 <= usize::MAX,
        target + stolen@.len() <= usize::MAX,
    ensures
        r@.len() == stolen@.len() + 5,
        r@.subrange(0, stolen@.len() as int) == stolen@,
        r@[stolen@.len() as int] == 0xe9,
        le32(
            r@[stolen@.len() as int + 1],
            r@[stolen@.len() as int + 2],
            r@[stolen@.len() as int + 3],
            r@[stolen@.len() as int + 4],
        ) == rel32_to(tramp + stolen@.len() + 5, target + stolen@.len()),
{
    let len = stolen.len();
    let rel = rel32_bytes(tramp + len + 5, target + len);
    let mut out = vstd::slice::slice_to_vec(stolen);
    out.push(0xe9);
    out.push(rel[0]);
    out.push(rel[1]);
    out.push(rel[2]);
    out.push(rel[3]);
    assert(out@.subrange(0, len as int) =~= stolen@);
    out
}

/// Law: a jump whose rel32 was computed for a landing address lands there,
/// modulo 2^32 (the whole address space of the 32-bit engine).
pub proof fn law_rel32_lands_on_target(from_end: int, to: int)
    ensures
        (from_end + rel32_to(from_end, to)) % 0x1_0000_0000 == to % 0x1_0000_0000,
{
    let r = rel32_to(from_end, to);
    assert((from_end + r) % 0x1_0000_0000 == to % 0x1_0000_0000) by (nonlinear_arith)
        requires
            r == (to - from_end) % 0x1_0000_0000,
    ;
}

/// What a [`Hook`] holds: the site it patches and, once attached, the
/// trampoline holding the stolen bytes.
pub struct HookView {
    pub name: &'static str,
    /// Engine absolute address, or game-module offset when `is_game` is set.
    pub address: usize,
    pub is_game: bool,
    pub trampoline: usize,
    pub stolen_len: usize,
    pub attached: bool,
}

impl HookView {
    /// A hook is attached exactly when it holds a trampoline, and a
    /// detached hook holds no stolen bytes.
    pub open spec fn wf(self) -> bool {
        &&& self.attached == (self.trampoline != 0)
        &&& !self.attached ==> self.stolen_len == 0
    }
}

/// A tracked detour (one attach/detach pair). Its state changes only
/// through [`Hook::mark_attached`] and [`Hook::mark_detached`], so it is
/// attached exactly when it holds a trampoline.
#[derive(Debug)]
pub struct Hook {
    name: &'static str,
    /// Engine absolute address, or game-module offset when `is_game` is set
    /// (rebased by the module load base at attach).
    address: usize,
    is_game: bool,
    trampoline: usize,
    stolen_len: usize,
    attached: bool,
}

impl View for Hook {
    type V = HookView;

    closed spec fn view(&self) -> HookView {
        HookView {
            name: self.name,
            address: self.address,
            is_game: self.is_game,
            trampoline: self.trampoline,
            stolen_len: self.stolen_len,
            attached: self.attached,
        }
    }
}

impl Hook {
    #[verifier::type_invariant]
    spec fn inv(self) -> bool {
        self@.wf()
    }

    /// A detached hook for the site at `address`.
    pub fn new(name: &'static str, address: usize, is_game: bool) -> (h: Hook)
        ensures
            h@ == (HookView {
                name,
                address,
                is_game,
                trampoline: 0,
                stolen_len: 0,
                attached: false,
            }),
    {
        Hook { name, address, is_game, trampoline: 0, stolen_len: 0, attached: false }
    }

    pub fn name(&self) -> (r: &'static str)
        ensures
            r == self@.name,
    {
        self.name
    }

    pub fn attached(&self) -> (r: bool)
        ensures
            r == self@.attached,
    {
        self.attached
    }

    pub fn stolen_len(&self) -> (r: usize)
        ensures
            r == self@.stolen_len,
    {
        self.stolen_len
    }

    /// Record a successful attach: the trampoline and how many bytes it
    /// took over.
    pub fn mark_attached(&mut self, trampoline: usize, stolen_len: usize)
        requires
            trampoline != 0,
        ensures
            final(self)@ == (HookView {
                trampoline,
                stolen_len,
                attached: true,
                ..old(self)@
            }),
    {
        *self = Hook {
            name: self.name,
            address: self.address,
            is_game: self.is_game,
            trampoline,
            stolen_len,
            attached: true,
        };
    }

    /// Record a detach: no trampoline, no stolen bytes.
    pub fn mark_detached(&mut self)
        ensures
            final(self)@ == (HookView {
                trampoline: 0,
                stolen_len: 0,
                attached: false,
                ..old(self)@
            }),
    {
        *self = Hook {
            name: self.name,
            address: self.address,
            is_game: self.is_game,
            trampoline: 0,
            stolen_len: 0,
            attached: false,
        };
    }

    /// The runtime address of the site: game offsets are rebased by the
    /// module load base (wrapping), engine addresses are absolute.
    pub fn runtime_address(&self, module_base: usize) -> (r: usize)
        ensures
            r == (if self@.is_game {
                if self@.address + module_base > usize::MAX {
                    (self@.address + module_base - (usize::MAX as int + 1)) as usize
                } else {
                    (self@.address + module_base) as usize
                }
            } else {
                self@.address
            }),
    {
        if self.is_game {
            self.address.wrapping_add(module_base)
        } else {
            self.address
        }
    }

    /// The "original" trampoline as a callable address, or 0 if not
    /// attached.
    pub fn original(&self) -> (r: usize)
        ensures
            r == self@.trampoline,
            (r != 0) == self@.attached,
    {
        proof {
            use_type_invariant(self);
        }
        self.trampoline
    }
}

/// The `call SV_ClientThink` inside the pristine `SV_UserMove`, retargeted to
/// the net-status feed.
pub const CALL_SV_CLIENT_THINK: usize = 0x0804_e891;
/// The `call vsprintf` inside `Com_Printf`, retargeted to a bounded
/// `vsnprintf`.
pub const CALL_VSPRINTF: usize = 0x0807_2cca;
/// The `call SV_AuthorizeIpPacket` inside `SV_ConnectionlessPacket`, NOP'd.
pub const CALL_IP_AUTHORIZE: usize = 0x0805_6f64;
/// The RMG branch inside `SV_SendClientGameState`, flipped to a `jmp`.
pub const RMG_BRANCH: usize = 0x0804_d131;

} // verus!
