//! Tokens and the static classification tables: instruction mnemonics,
//! registers by width, and assembler directives. An identifier run is
//! classified by exact table match, with label / label-reference /
//! identifier as fallbacks.

use vstd::prelude::*;
use crate::chars::{copy_chars, digit_value, is_digit, spec_digit_value, spec_is_digit, str_eq};

verus! {

/// The kinds of token the lexer can emit.
#[derive(Debug, Clone, Copy, PartialEq, Eq, Structural)]
pub enum TokenType {
    Instruction,
    Register,
    Immediate,
    Label,
    LabelRef,
    Directive,
    StringLiteral,
    Comment,
    Identifier,
    Reg64Bit,
    Reg32Bit,
    Reg16Bit,
    Reg8Bit,
    RegXMM,
    RegYMM,
    RegZMM,
    RegSpecial,
    InstrData,
    InstrArith,
    InstrLogic,
    InstrJump,
    InstrSIMD,
    Memory,
    Comma,
    Colon,
    Plus,
    Minus,
    Asterisk,
    OpenBracket,
    CloseBracket,
    Whitespace,
    NewLine,
    Unknown,
    EOF,
}

/// One token: kind, text, and the source position where it starts.
#[derive(Debug)]
pub struct Token {
    pub token_type: TokenType,
    pub value: Vec<char>,
    pub line: usize,
    pub column: usize,
}

/// Mathematical image of a token.
pub ghost struct TokenV {
    pub kind: TokenType,
    pub text: Seq<char>,
    pub line: int,
    pub column: int,
}

impl View for Token {
    type V = TokenV;

    open spec fn view(&self) -> TokenV {
        TokenV {
            kind: self.token_type,
            text: self.value@,
            line: self.line as int,
            column: self.column as int,
        }
    }
}

impl Token {
    pub fn new(token_type: TokenType, value: Vec<char>, line: usize, column: usize) -> (t: Self)
        ensures
            t@ == (TokenV { kind: token_type, text: value@, line: line as int, column: column as int }),
    {
        Self { token_type, value, line, column }
    }

    /// Element-wise copy; the view is preserved.
    pub fn duplicate(&self) -> (t: Self)
        ensures
            t@ == self@,
    {
        Token {
            token_type: self.token_type,
            value: copy_chars(&self.value),
            line: self.line,
            column: self.column,
        }
    }
}

pub open spec fn spec_instruction_type(s: Seq<char>) -> Option<TokenType> {
    if s == "mov"@ {
        Some(TokenType::InstrData)
    } else if s == "movq"@ {
        Some(TokenType::InstrData)
    } else if s == "movb"@ {
        Some(TokenType::InstrData)
    } else if s == "movw"@ {
        Some(TokenType::InstrData)
    } else if s == "movl"@ {
        Some(TokenType::InstrData)
    } else if s == "movabs"@ {
        Some(TokenType::InstrData)
    } else if s == "lea"@ {
        Some(TokenType::InstrData)
    } else if s == "push"@ {
        Some(TokenType::InstrData)
    } else if s == "pushq"@ {
        Some(TokenType::InstrData)
    } else if s == "pop"@ {
        Some(TokenType::InstrData)
    } else if s == "popq"@ {
        Some(TokenType::InstrData)
    } else if s == "xchg"@ {
        Some(TokenType::InstrData)
    } else if s == "cmovz"@ {
        Some(TokenType::InstrData)
    } else if s == "cmove"@ {
        Some(TokenType::InstrData)
    } else if s == "cmovne"@ {
        Some(TokenType::InstrData)
    } else if s == "add"@ {
        Some(TokenType::InstrArith)
    } else if s == "addq"@ {
        Some(TokenType::InstrArith)
    } else if s == "sub"@ {
        Some(TokenType::InstrArith)
    } else if s == "subq"@ {
        Some(TokenType::InstrArith)
    } else if s == "mul"@ {
        Some(TokenType::InstrArith)
    } else if s == "imul"@ {
        Some(TokenType::InstrArith)
    } else if s == "div"@ {
        Some(TokenType::InstrArith)
    } else if s == "idiv"@ {
        Some(TokenType::InstrArith)
    } else if s == "inc"@ {
        Some(TokenType::InstrArith)
    } else if s == "dec"@ {
        Some(TokenType::InstrArith)
    } else if s == "neg"@ {
        Some(TokenType::InstrArith)
    } else if s == "and"@ {
        Some(TokenType::InstrLogic)
    } else if s == "or"@ {
        Some(TokenType::InstrLogic)
    } else if s == "xor"@ {
        Some(TokenType::InstrLogic)
    } else if s == "not"@ {
        Some(TokenType::InstrLogic)
    } else if s == "shl"@ {
        Some(TokenType::InstrLogic)
    } else if s == "shr"@ {
        Some(TokenType::InstrLogic)
    } else if s == "sal"@ {
        Some(TokenType::InstrLogic)
    } else if s == "sar"@ {
        Some(TokenType::InstrLogic)
    } else if s == "rol"@ {
        Some(TokenType::InstrLogic)
    } else if s == "ror"@ {
        Some(TokenType::InstrLogic)
    } else if s == "test"@ {
        Some(TokenType::InstrLogic)
    } else if s == "cmp"@ {
        Some(TokenType::InstrLogic)
    } else if s == "jmp"@ {
        Some(TokenType::InstrJump)
    } else if s == "je"@ {
        Some(TokenType::InstrJump)
    } else if s == "jz"@ {
        Some(TokenType::InstrJump)
    } else if s == "jne"@ {
        Some(TokenType::InstrJump)
    } else if s == "jnz"@ {
        Some(TokenType::InstrJump)
    } else if s == "jg"@ {
        Some(TokenType::InstrJump)
    } else if s == "jge"@ {
        Some(TokenType::InstrJump)
    } else if s == "jl"@ {
        Some(TokenType::InstrJump)
    } else if s == "jle"@ {
        Some(TokenType::InstrJump)
    } else if s == "ja"@ {
        Some(TokenType::InstrJump)
    } else if s == "jae"@ {
        Some(TokenType::InstrJump)
    } else if s == "jb"@ {
        Some(TokenType::InstrJump)
    } else if s == "jbe"@ {
        Some(TokenType::InstrJump)
    } else if s == "call"@ {
        Some(TokenType::InstrJump)
    } else if s == "ret"@ {
        Some(TokenType::InstrJump)
    } else if s == "syscall"@ {
        Some(TokenType::InstrJump)
    } else if s == "movdqa"@ {
        Some(TokenType::InstrSIMD)
    } else if s == "movdqu"@ {
        Some(TokenType::InstrSIMD)
    } else if s == "movaps"@ {
        Some(TokenType::InstrSIMD)
    } else if s == "movups"@ {
        Some(TokenType::InstrSIMD)
    } else if s == "movss"@ {
        Some(TokenType::InstrSIMD)
    } else if s == "movsd"@ {
        Some(TokenType::InstrSIMD)
    } else if s == "paddb"@ {
        Some(TokenType::InstrSIMD)
    } else if s == "paddw"@ {
        Some(TokenType::InstrSIMD)
    } else if s == "paddd"@ {
        Some(TokenType::InstrSIMD)
    } else if s == "paddq"@ {
        Some(TokenType::InstrSIMD)
    } else if s == "psubb"@ {
        Some(TokenType::InstrSIMD)
    } else if s == "psubw"@ {
        Some(TokenType::InstrSIMD)
    } else if s == "psubd"@ {
        Some(TokenType::InstrSIMD)
    } else if s == "psubq"@ {
        Some(TokenType::InstrSIMD)
    } else if s == "pand"@ {
        Some(TokenType::InstrSIMD)
    } else if s == "por"@ {
        Some(TokenType::InstrSIMD)
    } else if s == "pxor"@ {
        Some(TokenType::InstrSIMD)
    } else if s == "vmovdqa"@ {
        Some(TokenType::InstrSIMD)
    } else if s == "vmovdqu"@ {
        Some(TokenType::InstrSIMD)
    } else if s == "vmovaps"@ {
        Some(TokenType::InstrSIMD)
    } else if s == "vmovups"@ {
        Some(TokenType::InstrSIMD)
    } else if s == "vpaddb"@ {
        Some(TokenType::InstrSIMD)
    } else if s == "vpaddw"@ {
        Some(TokenType::InstrSIMD)
    } else if s == "vpaddd"@ {
        Some(TokenType::InstrSIMD)
    } else if s == "vpaddq"@ {
        Some(TokenType::InstrSIMD)
    } else {
        None
    }
}

pub fn instruction_type(v: &Vec<char>) -> (r: Option<TokenType>)
    ensures
        r == spec_instruction_type(v@),
{
    if str_eq(v, "mov") {
        Some(TokenType::InstrData)
    } else if str_eq(v, "movq") {
        Some(TokenType::InstrData)
    } else if str_eq(v, "movb") {
        Some(TokenType::InstrData)
    } else if str_eq(v, "movw") {
        Some(TokenType::InstrData)
    } else if str_eq(v, "movl") {
        Some(TokenType::InstrData)
    } else if str_eq(v, "movabs") {
        Some(TokenType::InstrData)
    } else if str_eq(v, "lea") {
        Some(TokenType::InstrData)
    } else if str_eq(v, "push") {
        Some(TokenType::InstrData)
    } else if str_eq(v, "pushq") {
        Some(TokenType::InstrData)
    } else if str_eq(v, "pop") {
        Some(TokenType::InstrData)
    } else if str_eq(v, "popq") {
        Some(TokenType::InstrData)
    } else if str_eq(v, "xchg") {
        Some(TokenType::InstrData)
    } else if str_eq(v, "cmovz") {
        Some(TokenType::InstrData)
    } else if str_eq(v, "cmove") {
        Some(TokenType::InstrData)
    } else if str_eq(v, "cmovne") {
        Some(TokenType::InstrData)
    } else if str_eq(v, "add") {
        Some(TokenType::InstrArith)
    } else if str_eq(v, "addq") {
        Some(TokenType::InstrArith)
    } else if str_eq(v, "sub") {
        Some(TokenType::InstrArith)
    } else if str_eq(v, "subq") {
        Some(TokenType::InstrArith)
    } else if str_eq(v, "mul") {
        Some(TokenType::InstrArith)
    } else if str_eq(v, "imul") {
        Some(TokenType::InstrArith)
    } else if str_eq(v, "div") {
        Some(TokenType::InstrArith)
    } else if str_eq(v, "idiv") {
        Some(TokenType::InstrArith)
    } else if str_eq(v, "inc") {
        Some(TokenType::InstrArith)
    } else if str_eq(v, "dec") {
        Some(TokenType::InstrArith)
    } else if str_eq(v, "neg") {
        Some(TokenType::InstrArith)
    } else if str_eq(v, "and") {
        Some(TokenType::InstrLogic)
    } else if str_eq(v, "or") {
        Some(TokenType::InstrLogic)
    } else if str_eq(v, "xor") {
        Some(TokenType::InstrLogic)
    } else if str_eq(v, "not") {
        Some(TokenType::InstrLogic)
    } else if str_eq(v, "shl") {
        Some(TokenType::InstrLogic)
    } else if str_eq(v, "shr") {
        Some(TokenType::InstrLogic)
    } else if str_eq(v, "sal") {
        Some(TokenType::InstrLogic)
    } else if str_eq(v, "sar") {
        Some(TokenType::InstrLogic)
    } else if str_eq(v, "rol") {
        Some(TokenType::InstrLogic)
    } else if str_eq(v, "ror") {
        Some(TokenType::InstrLogic)
    } else if str_eq(v, "test") {
        Some(TokenType::InstrLogic)
    } else if str_eq(v, "cmp") {
        Some(TokenType::InstrLogic)
    } else if str_eq(v, "jmp") {
        Some(TokenType::InstrJump)
    } else if str_eq(v, "je") {
        Some(TokenType::InstrJump)
    } else if str_eq(v, "jz") {
        Some(TokenType::InstrJump)
    } else if str_eq(v, "jne") {
        Some(TokenType::InstrJump)
    } else if str_eq(v, "jnz") {
        Some(TokenType::InstrJump)
    } else if str_eq(v, "jg") {
        Some(TokenType::InstrJump)
    } else if str_eq(v, "jge") {
        Some(TokenType::InstrJump)
    } else if str_eq(v, "jl") {
        Some(TokenType::InstrJump)
    } else if str_eq(v, "jle") {
        Some(TokenType::InstrJump)
    } else if str_eq(v, "ja") {
        Some(TokenType::InstrJump)
    } else if str_eq(v, "jae") {
        Some(TokenType::InstrJump)
    } else if str_eq(v, "jb") {
        Some(TokenType::InstrJump)
    } else if str_eq(v, "jbe") {
        Some(TokenType::InstrJump)
    } else if str_eq(v, "call") {
        Some(TokenType::InstrJump)
    } else if str_eq(v, "ret") {
        Some(TokenType::InstrJump)
    } else if str_eq(v, "syscall") {
        Some(TokenType::InstrJump)
    } else if str_eq(v, "movdqa") {
        Some(TokenType::InstrSIMD)
    } else if str_eq(v, "movdqu") {
        Some(TokenType::InstrSIMD)
    } else if str_eq(v, "movaps") {
        Some(TokenType::InstrSIMD)
    } else if str_eq(v, "movups") {
        Some(TokenType::InstrSIMD)
    } else if str_eq(v, "movss") {
        Some(TokenType::InstrSIMD)
    } else if str_eq(v, "movsd") {
        Some(TokenType::InstrSIMD)
    } else if str_eq(v, "paddb") {
        Some(TokenType::InstrSIMD)
    } else if str_eq(v, "paddw") {
        Some(TokenType::InstrSIMD)
    } else if str_eq(v, "paddd") {
        Some(TokenType::InstrSIMD)
    } else if str_eq(v, "paddq") {
        Some(TokenType::InstrSIMD)
    } else if str_eq(v, "psubb") {
        Some(TokenType::InstrSIMD)
    } else if str_eq(v, "psubw") {
        Some(TokenType::InstrSIMD)
    } else if str_eq(v, "psubd") {
        Some(TokenType::InstrSIMD)
    } else if str_eq(v, "psubq") {
        Some(TokenType::InstrSIMD)
    } else if str_eq(v, "pand") {
        Some(TokenType::InstrSIMD)
    } else if str_eq(v, "por") {
        Some(TokenType::InstrSIMD)
    } else if str_eq(v, "pxor") {
        Some(TokenType::InstrSIMD)
    } else if str_eq(v, "vmovdqa") {
        Some(TokenType::InstrSIMD)
    } else if str_eq(v, "vmovdqu") {
        Some(TokenType::InstrSIMD)
    } else if str_eq(v, "vmovaps") {
        Some(TokenType::InstrSIMD)
    } else if str_eq(v, "vmovups") {
        Some(TokenType::InstrSIMD)
    } else if str_eq(v, "vpaddb") {
        Some(TokenType::InstrSIMD)
    } else if str_eq(v, "vpaddw") {
        Some(TokenType::InstrSIMD)
    } else if str_eq(v, "vpaddd") {
        Some(TokenType::InstrSIMD)
    } else if str_eq(v, "vpaddq") {
        Some(TokenType::InstrSIMD)
    } else {
        None
    }
}

pub open spec fn spec_named_register_type(s: Seq<char>) -> Option<TokenType> {
    if s == "rax"@ {
        Some(TokenType::Reg64Bit)
    } else if s == "rbx"@ {
        Some(TokenType::Reg64Bit)
    } else if s == "rcx"@ {
        Some(TokenType::Reg64Bit)
    } else if s == "rdx"@ {
        Some(TokenType::Reg64Bit)
    } else if s == "rsi"@ {
        Some(TokenType::Reg64Bit)
    } else if s == "rdi"@ {
        Some(TokenType::Reg64Bit)
    } else if s == "rbp"@ {
        Some(TokenType::Reg64Bit)
    } else if s == "rsp"@ {
        Some(TokenType::Reg64Bit)
    } else if s == "r8"@ {
        Some(TokenType::Reg64Bit)
    } else if s == "r9"@ {
        Some(TokenType::Reg64Bit)
    } else if s == "r10"@ {
        Some(TokenType::Reg64Bit)
    } else if s == "r11"@ {
        Some(TokenType::Reg64Bit)
    } else if s == "r12"@ {
        Some(TokenType::Reg64Bit)
    } else if s == "r13"@ {
        Some(TokenType::Reg64Bit)
    } else if s == "r14"@ {
        Some(TokenType::Reg64Bit)
    } else if s == "r15"@ {
        Some(TokenType::Reg64Bit)
    } else if s == "eax"@ {
        Some(TokenType::Reg32Bit)
    } else if s == "ebx"@ {
        Some(TokenType::Reg32Bit)
    } else if s == "ecx"@ {
        Some(TokenType::Reg32Bit)
    } else if s == "edx"@ {
        Some(TokenType::Reg32Bit)
    } else if s == "esi"@ {
        Some(TokenType::Reg32Bit)
    } else if s == "edi"@ {
        Some(TokenType::Reg32Bit)
    } else if s == "ebp"@ {
        Some(TokenType::Reg32Bit)
    } else if s == "esp"@ {
        Some(TokenType::Reg32Bit)
    } else if s == "r8d"@ {
        Some(TokenType::Reg32Bit)
    } else if s == "r9d"@ {
        Some(TokenType::Reg32Bit)
    } else if s == "r10d"@ {
        Some(TokenType::Reg32Bit)
    } else if s == "r11d"@ {
        Some(TokenType::Reg32Bit)
    } else if s == "r12d"@ {
        Some(TokenType::Reg32Bit)
    } else if s == "r13d"@ {
        Some(TokenType::Reg32Bit)
    } else if s == "r14d"@ {
        Some(TokenType::Reg32Bit)
    } else if s == "r15d"@ {
        Some(TokenType::Reg32Bit)
    } else if s == "ax"@ {
        Some(TokenType::Reg16Bit)
    } else if s == "bx"@ {
        Some(TokenType::Reg16Bit)
    } else if s == "cx"@ {
        Some(TokenType::Reg16Bit)
    } else if s == "dx"@ {
        Some(TokenType::Reg16Bit)
    } else if s == "si"@ {
        Some(TokenType::Reg16Bit)
    } else if s == "di"@ {
        Some(TokenType::Reg16Bit)
    } else if s == "bp"@ {
        Some(TokenType::Reg16Bit)
    } else if s == "sp"@ {
        Some(TokenType::Reg16Bit)
    } else if s == "r8w"@ {
        Some(TokenType::Reg16Bit)
    } else if s == "r9w"@ {
        Some(TokenType::Reg16Bit)
    } else if s == "r10w"@ {
        Some(TokenType::Reg16Bit)
    } else if s == "r11w"@ {
        Some(TokenType::Reg16Bit)
    } else if s == "r12w"@ {
        Some(TokenType::Reg16Bit)
    } else if s == "r13w"@ {
        Some(TokenType::Reg16Bit)
    } else if s == "r14w"@ {
        Some(TokenType::Reg16Bit)
    } else if s == "r15w"@ {
        Some(TokenType::Reg16Bit)
    } else if s == "al"@ {
        Some(TokenType::Reg8Bit)
    } else if s == "bl"@ {
        Some(TokenType::Reg8Bit)
    } else if s == "cl"@ {
        Some(TokenType::Reg8Bit)
    } else if s == "dl"@ {
        Some(TokenType::Reg8Bit)
    } else if s == "ah"@ {
        Some(TokenType::Reg8Bit)
    } else if s == "bh"@ {
        Some(TokenType::Reg8Bit)
    } else if s == "ch"@ {
        Some(TokenType::Reg8Bit)
    } else if s == "dh"@ {
        Some(TokenType::Reg8Bit)
    } else if s == "sil"@ {
        Some(TokenType::Reg8Bit)
    } else if s == "dil"@ {
        Some(TokenType::Reg8Bit)
    } else if s == "bpl"@ {
        Some(TokenType::Reg8Bit)
    } else if s == "spl"@ {
        Some(TokenType::Reg8Bit)
    } else if s == "r8b"@ {
        Some(TokenType::Reg8Bit)
    } else if s == "r9b"@ {
        Some(TokenType::Reg8Bit)
    } else if s == "r10b"@ {
        Some(TokenType::Reg8Bit)
    } else if s == "r11b"@ {
        Some(TokenType::Reg8Bit)
    } else if s == "r12b"@ {
        Some(TokenType::Reg8Bit)
    } else if s == "r13b"@ {
        Some(TokenType::Reg8Bit)
    } else if s == "r14b"@ {
        Some(TokenType::Reg8Bit)
    } else if s == "r15b"@ {
        Some(TokenType::Reg8Bit)
    } else if s == "rip"@ {
        Some(TokenType::RegSpecial)
    } else if s == "rflags"@ {
        Some(TokenType::RegSpecial)
    } else if s == "eflags"@ {
        Some(TokenType::RegSpecial)
    } else if s == "flags"@ {
        Some(TokenType::RegSpecial)
    } else {
        None
    }
}

pub fn named_register_type(v: &Vec<char>) -> (r: Option<TokenType>)
    ensures
        r == spec_named_register_type(v@),
{
    if str_eq(v, "rax") {
        Some(TokenType::Reg64Bit)
    } else if str_eq(v, "rbx") {
        Some(TokenType::Reg64Bit)
    } else if str_eq(v, "rcx") {
        Some(TokenType::Reg64Bit)
    } else if str_eq(v, "rdx") {
        Some(TokenType::Reg64Bit)
    } else if str_eq(v, "rsi") {
        Some(TokenType::Reg64Bit)
    } else if str_eq(v, "rdi") {
        Some(TokenType::Reg64Bit)
    } else if str_eq(v, "rbp") {
        Some(TokenType::Reg64Bit)
    } else if str_eq(v, "rsp") {
        Some(TokenType::Reg64Bit)
    } else if str_eq(v, "r8") {
        Some(TokenType::Reg64Bit)
    } else if str_eq(v, "r9") {
        Some(TokenType::Reg64Bit)
    } else if str_eq(v, "r10") {
        Some(TokenType::Reg64Bit)
    } else if str_eq(v, "r11") {
        Some(TokenType::Reg64Bit)
    } else if str_eq(v, "r12") {
        Some(TokenType::Reg64Bit)
    } else if str_eq(v, "r13") {
        Some(TokenType::Reg64Bit)
    } else if str_eq(v, "r14") {
        Some(TokenType::Reg64Bit)
    } else if str_eq(v, "r15") {
        Some(TokenType::Reg64Bit)
    } else if str_eq(v, "eax") {
        Some(TokenType::Reg32Bit)
    } else if str_eq(v, "ebx") {
        Some(TokenType::Reg32Bit)
    } else if str_eq(v, "ecx") {
        Some(TokenType::Reg32Bit)
    } else if str_eq(v, "edx") {
        Some(TokenType::Reg32Bit)
    } else if str_eq(v, "esi") {
        Some(TokenType::Reg32Bit)
    } else if str_eq(v, "edi") {
        Some(TokenType::Reg32Bit)
    } else if str_eq(v, "ebp") {
        Some(TokenType::Reg32Bit)
    } else if str_eq(v, "esp") {
        Some(TokenType::Reg32Bit)
    } else if str_eq(v, "r8d") {
        Some(TokenType::Reg32Bit)
    } else if str_eq(v, "r9d") {
        Some(TokenType::Reg32Bit)
    } else if str_eq(v, "r10d") {
        Some(TokenType::Reg32Bit)
    } else if str_eq(v, "r11d") {
        Some(TokenType::Reg32Bit)
    } else if str_eq(v, "r12d") {
        Some(TokenType::Reg32Bit)
    } else if str_eq(v, "r13d") {
        Some(TokenType::Reg32Bit)
    } else if str_eq(v, "r14d") {
        Some(TokenType::Reg32Bit)
    } else if str_eq(v, "r15d") {
        Some(TokenType::Reg32Bit)
    } else if str_eq(v, "ax") {
        Some(TokenType::Reg16Bit)
    } else if str_eq(v, "bx") {
        Some(TokenType::Reg16Bit)
    } else if str_eq(v, "cx") {
        Some(TokenType::Reg16Bit)
    } else if str_eq(v, "dx") {
        Some(TokenType::Reg16Bit)
    } else if str_eq(v, "si") {
        Some(TokenType::Reg16Bit)
    } else if str_eq(v, "di") {
        Some(TokenType::Reg16Bit)
    } else if str_eq(v, "bp") {
        Some(TokenType::Reg16Bit)
    } else if str_eq(v, "sp") {
        Some(TokenType::Reg16Bit)
    } else if str_eq(v, "r8w") {
        Some(TokenType::Reg16Bit)
    } else if str_eq(v, "r9w") {
        Some(TokenType::Reg16Bit)
    } else if str_eq(v, "r10w") {
        Some(TokenType::Reg16Bit)
    } else if str_eq(v, "r11w") {
        Some(TokenType::Reg16Bit)
    } else if str_eq(v, "r12w") {
        Some(TokenType::Reg16Bit)
    } else if str_eq(v, "r13w") {
        Some(TokenType::Reg16Bit)
    } else if str_eq(v, "r14w") {
        Some(TokenType::Reg16Bit)
    } else if str_eq(v, "r15w") {
        Some(TokenType::Reg16Bit)
    } else if str_eq(v, "al") {
        Some(TokenType::Reg8Bit)
    } else if str_eq(v, "bl") {
        Some(TokenType::Reg8Bit)
    } else if str_eq(v, "cl") {
        Some(TokenType::Reg8Bit)
    } else if str_eq(v, "dl") {
        Some(TokenType::Reg8Bit)
    } else if str_eq(v, "ah") {
        Some(TokenType::Reg8Bit)
    } else if str_eq(v, "bh") {
        Some(TokenType::Reg8Bit)
    } else if str_eq(v, "ch") {
        Some(TokenType::Reg8Bit)
    } else if str_eq(v, "dh") {
        Some(TokenType::Reg8Bit)
    } else if str_eq(v, "sil") {
        Some(TokenType::Reg8Bit)
    } else if str_eq(v, "dil") {
        Some(TokenType::Reg8Bit)
    } else if str_eq(v, "bpl") {
        Some(TokenType::Reg8Bit)
    } else if str_eq(v, "spl") {
        Some(TokenType::Reg8Bit)
    } else if str_eq(v, "r8b") {
        Some(TokenType::Reg8Bit)
    } else if str_eq(v, "r9b") {
        Some(TokenType::Reg8Bit)
    } else if str_eq(v, "r10b") {
        Some(TokenType::Reg8Bit)
    } else if str_eq(v, "r11b") {
        Some(TokenType::Reg8Bit)
    } else if str_eq(v, "r12b") {
        Some(TokenType::Reg8Bit)
    } else if str_eq(v, "r13b") {
        Some(TokenType::Reg8Bit)
    } else if str_eq(v, "r14b") {
        Some(TokenType::Reg8Bit)
    } else if str_eq(v, "r15b") {
        Some(TokenType::Reg8Bit)
    } else if str_eq(v, "rip") {
        Some(TokenType::RegSpecial)
    } else if str_eq(v, "rflags") {
        Some(TokenType::RegSpecial)
    } else if str_eq(v, "eflags") {
        Some(TokenType::RegSpecial)
    } else if str_eq(v, "flags") {
        Some(TokenType::RegSpecial)
    } else {
        None
    }
}

pub open spec fn spec_is_directive(s: Seq<char>) -> bool {
    s == "section"@ || s == "segment"@ || s == "global"@ || s == "extern"@ || s == "db"@ || s == "dw"@ || s == "dd"@ || s == "dq"@ || s == "dt"@ || s == "equ"@ || s == "times"@ || s == "align"@ || s == "default"@ || s == "rel"@ || s == "abs"@ || s == "org"@ || s == "bits"@ || s == "use16"@ || s == "use32"@ || s == "use64"@
}

pub fn is_directive_name(v: &Vec<char>) -> (r: bool)
    ensures
        r == spec_is_directive(v@),
{
    str_eq(v, "section")
        || str_eq(v, "segment")
        || str_eq(v, "global")
        || str_eq(v, "extern")
        || str_eq(v, "db")
        || str_eq(v, "dw")
        || str_eq(v, "dd")
        || str_eq(v, "dq")
        || str_eq(v, "dt")
        || str_eq(v, "equ")
        || str_eq(v, "times")
        || str_eq(v, "align")
        || str_eq(v, "default")
        || str_eq(v, "rel")
        || str_eq(v, "abs")
        || str_eq(v, "org")
        || str_eq(v, "bits")
        || str_eq(v, "use16")
        || str_eq(v, "use32")
        || str_eq(v, "use64")
}
/// A one- or two-digit decimal index below 32, as the SIMD register names
/// are spelled (no leading zero).
pub open spec fn spec_reg_index_ok(s: Seq<char>) -> bool {
    ||| (s.len() == 1 && spec_is_digit(s[0]))
    ||| (s.len() == 2 && spec_is_digit(s[0]) && spec_is_digit(s[1]) && s[0] != '0'
        && spec_digit_value(s[0]) * 10 + spec_digit_value(s[1]) <= 31)
}

/// SIMD register names follow the pattern `xmmN` / `ymmN` / `zmmN` with
/// N in 0..=31.
pub open spec fn spec_simd_register_type(s: Seq<char>) -> Option<TokenType> {
    if s.len() >= 4 && s[1] == 'm' && s[2] == 'm' && spec_reg_index_ok(s.subrange(3, s.len() as int)) {
        if s[0] == 'x' {
            Some(TokenType::RegXMM)
        } else if s[0] == 'y' {
            Some(TokenType::RegYMM)
        } else if s[0] == 'z' {
            Some(TokenType::RegZMM)
        } else {
            None
        }
    } else {
        None
    }
}

pub fn simd_register_type(v: &Vec<char>) -> (r: Option<TokenType>)
    ensures
        r == spec_simd_register_type(v@),
{
    if v.len() < 4 || v[1] != 'm' || v[2] != 'm' {
        return None;
    }
    let ghost suffix = v@.subrange(3, v@.len() as int);
    let index_ok: bool = if v.len() == 4 {
        assert(suffix.len() == 1 && suffix[0] == v@[3]);
        is_digit(v[3])
    } else if v.len() == 5 {
        assert(suffix.len() == 2 && suffix[0] == v@[3] && suffix[1] == v@[4]);
        is_digit(v[3]) && is_digit(v[4]) && v[3] != '0'
            && digit_value(v[3]) * 10 + digit_value(v[4]) <= 31
    } else {
        assert(suffix.len() > 2);
        false
    };
    if !index_ok {
        return None;
    }
    if v[0] == 'x' {
        Some(TokenType::RegXMM)
    } else if v[0] == 'y' {
        Some(TokenType::RegYMM)
    } else if v[0] == 'z' {
        Some(TokenType::RegZMM)
    } else {
        None
    }
}

/// The whole register table: the named general-purpose and special
/// registers together with the patterned SIMD names.
pub open spec fn spec_register_type(s: Seq<char>) -> Option<TokenType> {
    if spec_named_register_type(s) is Some {
        spec_named_register_type(s)
    } else {
        spec_simd_register_type(s)
    }
}

pub fn register_type(v: &Vec<char>) -> (r: Option<TokenType>)
    ensures
        r == spec_register_type(v@),
{
    let named = named_register_type(v);
    if named.is_some() {
        named
    } else {
        simd_register_type(v)
    }
}

/// Classification of an identifier run, in table-precedence order:
/// instruction, register, directive, label definition (next character is
/// a colon), dotted label reference, plain identifier.
pub open spec fn spec_classify_ident(s: Seq<char>, next_is_colon: bool) -> TokenType {
    if spec_instruction_type(s) is Some {
        spec_instruction_type(s)->Some_0
    } else if spec_register_type(s) is Some {
        spec_register_type(s)->Some_0
    } else if spec_is_directive(s) {
        TokenType::Directive
    } else if next_is_colon {
        TokenType::Label
    } else if s.len() > 0 && s[0] == '.' {
        TokenType::LabelRef
    } else {
        TokenType::Identifier
    }
}

pub fn classify_ident(v: &Vec<char>, next_is_colon: bool) -> (r: TokenType)
    ensures
        r == spec_classify_ident(v@, next_is_colon),
{
    if let Some(t) = instruction_type(v) {
        t
    } else if let Some(t) = register_type(v) {
        t
    } else if is_directive_name(v) {
        TokenType::Directive
    } else if next_is_colon {
        TokenType::Label
    } else if v.len() > 0 && v[0] == '.' {
        TokenType::LabelRef
    } else {
        TokenType::Identifier
    }
}

} // verus!
