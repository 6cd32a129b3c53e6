//! The instruction encoder: a pure function from one instruction to its
//! byte sequence, for a fixed mnemonic/operand repertoire. Unsupported
//! shapes yield an empty sequence by design, never a diagnostic.

use vstd::prelude::*;
use vstd::bytes::{spec_u64_to_le_bytes, u64_to_le_bytes};
use crate::ast::{Instruction, Operand};
use crate::chars::{parse_immediate, spec_parse_immediate, str_eq};

verus! {

/// Immediate operand value as the encoder reads it: an unparsable
/// literal falls back to zero.
pub open spec fn spec_imm_or_zero(s: Seq<char>) -> u64 {
    match spec_parse_immediate(s) {
        Some(v) => v,
        None => 0,
    }
}

/// `mov` encodings: REX.W + mov-imm64 opcode + 8-byte little-endian
/// immediate for the four supported destination registers, and a fixed
/// 7-byte RIP-relative load template for `mov rsi, [mem]`.
pub open spec fn spec_encode_mov(ops: Seq<Operand>) -> Seq<u8> {
    if ops.len() != 2 {
        Seq::<u8>::empty()
    } else {
        match (ops[0], ops[1]) {
            (Operand::Register(dst), Operand::Immediate(src)) => {
                if dst@ == "rax"@ {
                    seq![0x48u8, 0xB8u8] + spec_u64_to_le_bytes(spec_imm_or_zero(src@))
                } else if dst@ == "rdi"@ {
                    seq![0x48u8, 0xBFu8] + spec_u64_to_le_bytes(spec_imm_or_zero(src@))
                } else if dst@ == "rdx"@ {
                    seq![0x48u8, 0xBAu8] + spec_u64_to_le_bytes(spec_imm_or_zero(src@))
                } else if dst@ == "rsi"@ {
                    seq![0x48u8, 0xBEu8] + spec_u64_to_le_bytes(spec_imm_or_zero(src@))
                } else {
                    Seq::<u8>::empty()
                }
            },
            (Operand::Register(dst), Operand::Memory(_)) => {
                if dst@ == "rsi"@ {
                    seq![0x48u8, 0x8Bu8, 0x35u8, 0u8, 0u8, 0u8, 0u8]
                } else {
                    Seq::<u8>::empty()
                }
            },
            _ => Seq::<u8>::empty(),
        }
    }
}

/// `lea rsi, label`: the fixed 7-byte RIP-relative template whose
/// displacement is filled later by relocation patching.
pub open spec fn spec_encode_lea(ops: Seq<Operand>) -> Seq<u8> {
    if ops.len() != 2 {
        Seq::<u8>::empty()
    } else {
        match (ops[0], ops[1]) {
            (Operand::Register(dst), Operand::Label(_)) => {
                if dst@ == "rsi"@ {
                    seq![0x48u8, 0x8Du8, 0x35u8, 0u8, 0u8, 0u8, 0u8]
                } else {
                    Seq::<u8>::empty()
                }
            },
            _ => Seq::<u8>::empty(),
        }
    }
}

/// `xor r, r` short forms for the four supported registers.
pub open spec fn spec_encode_xor(ops: Seq<Operand>) -> Seq<u8> {
    if ops.len() != 2 {
        Seq::<u8>::empty()
    } else {
        match (ops[0], ops[1]) {
            (Operand::Register(dst), Operand::Register(src)) => {
                if dst@ == "rax"@ && src@ == "rax"@ {
                    seq![0x48u8, 0x31u8, 0xC0u8]
                } else if dst@ == "rdi"@ && src@ == "rdi"@ {
                    seq![0x48u8, 0x31u8, 0xFFu8]
                } else if dst@ == "rsi"@ && src@ == "rsi"@ {
                    seq![0x48u8, 0x31u8, 0xF6u8]
                } else if dst@ == "rdx"@ && src@ == "rdx"@ {
                    seq![0x48u8, 0x31u8, 0xD2u8]
                } else {
                    Seq::<u8>::empty()
                }
            },
            _ => Seq::<u8>::empty(),
        }
    }
}

/// The full encoder: `mov`, `lea`, `xor`, `syscall`; anything else is the
/// empty sequence.
pub open spec fn spec_encode(instr: Instruction) -> Seq<u8> {
    if instr.name@ == "mov"@ {
        spec_encode_mov(instr.operands@)
    } else if instr.name@ == "lea"@ {
        spec_encode_lea(instr.operands@)
    } else if instr.name@ == "xor"@ {
        spec_encode_xor(instr.operands@)
    } else if instr.name@ == "syscall"@ {
        seq![0x0Fu8, 0x05u8]
    } else {
        Seq::<u8>::empty()
    }
}

/// Encodes one instruction into machine code.
pub struct MachineCodeEncoder;

impl MachineCodeEncoder {
    pub fn new() -> Self {
        MachineCodeEncoder
    }

    pub fn encode(&self, instruction: &Instruction) -> (code: Vec<u8>)
        ensures
            code@ == spec_encode(*instruction),
    {
        if str_eq(&instruction.name, "mov") {
            self.encode_mov(instruction)
        } else if str_eq(&instruction.name, "lea") {
            self.encode_lea(instruction)
        } else if str_eq(&instruction.name, "xor") {
            self.encode_xor(instruction)
        } else if str_eq(&instruction.name, "syscall") {
            self.encode_syscall()
        } else {
            Vec::new()
        }
    }

    fn encode_mov(&self, instruction: &Instruction) -> (code: Vec<u8>)
        requires
            instruction.name@ == "mov"@,
        ensures
            code@ == spec_encode_mov(instruction.operands@),
    {
        if instruction.operands.len() != 2 {
            return Vec::new();
        }
        match (&instruction.operands[0], &instruction.operands[1]) {
            (Operand::Register(dst), Operand::Immediate(src)) => {
                let opcode: u8 = if str_eq(dst, "rax") {
                    0xB8
                } else if str_eq(dst, "rdi") {
                    0xBF
                } else if str_eq(dst, "rdx") {
                    0xBA
                } else if str_eq(dst, "rsi") {
                    0xBE
                } else {
                    return Vec::new();
                };
                let imm = match parse_immediate(src) {
                    Some(v) => v,
                    None => 0,
                };
                let mut code: Vec<u8> = Vec::new();
                code.push(0x48);
                code.push(opcode);
                let mut tail = u64_to_le_bytes(imm);
                code.append(&mut tail);
                proof {
                    assert(code@ =~= seq![0x48u8, opcode] + spec_u64_to_le_bytes(imm));
                }
                code
            },
            (Operand::Register(dst), Operand::Memory(_)) => {
                if str_eq(dst, "rsi") {
                    let mut code: Vec<u8> = Vec::new();
                    code.push(0x48);
                    code.push(0x8B);
                    code.push(0x35);
                    code.push(0);
                    code.push(0);
                    code.push(0);
                    code.push(0);
                    proof {
                        assert(code@ =~= seq![0x48u8, 0x8Bu8, 0x35u8, 0u8, 0u8, 0u8, 0u8]);
                    }
                    code
                } else {
                    Vec::new()
                }
            },
            _ => Vec::new(),
        }
    }

    fn encode_lea(&self, instruction: &Instruction) -> (code: Vec<u8>)
        requires
            instruction.name@ == "lea"@,
        ensures
            code@ == spec_encode_lea(instruction.operands@),
    {
        if instruction.operands.len() != 2 {
            return Vec::new();
        }
        match (&instruction.operands[0], &instruction.operands[1]) {
            (Operand::Register(dst), Operand::Label(_)) => {
                if str_eq(dst, "rsi") {
                    let mut code: Vec<u8> = Vec::new();
                    code.push(0x48);
                    code.push(0x8D);
                    code.push(0x35);
                    code.push(0);
                    code.push(0);
                    code.push(0);
                    code.push(0);
                    proof {
                        assert(code@ =~= seq![0x48u8, 0x8Du8, 0x35u8, 0u8, 0u8, 0u8, 0u8]);
                    }
                    code
                } else {
                    Vec::new()
                }
            },
            _ => Vec::new(),
        }
    }

    fn encode_xor(&self, instruction: &Instruction) -> (code: Vec<u8>)
        requires
            instruction.name@ == "xor"@,
        ensures
            code@ == spec_encode_xor(instruction.operands@),
    {
        if instruction.operands.len() != 2 {
            return Vec::new();
        }
        match (&instruction.operands[0], &instruction.operands[1]) {
            (Operand::Register(dst), Operand::Register(src)) => {
                let third: u8 = if str_eq(dst, "rax") && str_eq(src, "rax") {
                    0xC0
                } else if str_eq(dst, "rdi") && str_eq(src, "rdi") {
                    0xFF
                } else if str_eq(dst, "rsi") && str_eq(src, "rsi") {
                    0xF6
                } else if str_eq(dst, "rdx") && str_eq(src, "rdx") {
                    0xD2
                } else {
                    return Vec::new();
                };
                let mut code: Vec<u8> = Vec::new();
                code.push(0x48);
                code.push(0x31);
                code.push(third);
                proof {
                    assert(code@ =~= seq![0x48u8, 0x31u8, third]);
                }
                code
            },
            _ => Vec::new(),
        }
    }

    fn encode_syscall(&self) -> (code: Vec<u8>)
        ensures
            code@ == seq![0x0Fu8, 0x05u8],
    {
        let mut code: Vec<u8> = Vec::new();
        code.push(0x0F);
        code.push(0x05);
        proof {
            assert(code@ =~= seq![0x0Fu8, 0x05u8]);
        }
        code
    }
}

} // verus!
