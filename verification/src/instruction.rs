//! Instruction-statement parsing: a mnemonic followed by comma-separated
//! operands, validated against the fixed required-arity table. Operand
//! errors are reported and, in recovery mode, parsing resumes at the next
//! line.

use vstd::prelude::*;
use crate::ast::{Instruction, MemoryReference, Operand, Statement};
use crate::chars::{lower, spec_lower, str_eq};
use crate::errors::ErrorType;
use crate::parser::{
    lemma_grows_refl, lemma_grows_trans, lemma_hinted_compose, lemma_hinted_grows,
    lemma_hinted_refl, same_but_cursor, same_but_cursor_errors, spec_current_token,
    spec_hinted_errors, spec_is_reg_kind, Parser,
};
use crate::token::{TokenType, TokenV};

verus! {

/// The usage hint attached to operand diagnostics for a mnemonic.
pub open spec fn spec_example_operands(s: Seq<char>) -> Seq<char> {
    if s == "mov"@ {
        "Example: mov rax, rbx or mov rax, [rbx] or mov rax, 42"@
    } else if s == "add"@ {
        "Example: add rax, rbx or add rax, 42"@
    } else if s == "sub"@ {
        "Example: sub rax, rbx or sub rax, 42"@
    } else if s == "and"@ {
        "Example: and rax, rbx or and rax, 42"@
    } else if s == "or"@ {
        "Example: or rax, rbx or or rax, 42"@
    } else if s == "xor"@ {
        "Example: xor rax, rbx or xor rax, 42"@
    } else if s == "cmp"@ {
        "Example: cmp rax, rbx or cmp rax, 42"@
    } else if s == "mul"@ {
        "Example: mul rax"@
    } else if s == "div"@ {
        "Example: div rax"@
    } else if s == "push"@ {
        "Example: push rax or push 42"@
    } else if s == "pop"@ {
        "Example: pop rax"@
    } else if s == "jmp"@ {
        "Example: jmp label"@
    } else if s == "je"@ {
        "Example: je label"@
    } else if s == "jne"@ {
        "Example: jne label"@
    } else if s == "jg"@ {
        "Example: jg label"@
    } else if s == "jge"@ {
        "Example: jge label"@
    } else if s == "jl"@ {
        "Example: jl label"@
    } else if s == "jle"@ {
        "Example: jle label"@
    } else if s == "call"@ {
        "Example: call function_name"@
    } else if s == "lea"@ {
        "Example: lea rax, [rbx + 8]"@
    } else if s == "shl"@ {
        "Example: shl rax, 2"@
    } else if s == "shr"@ {
        "Example: shr rax, 2"@
    } else if s == "ret"@ || s == "syscall"@ || s == "nop"@ {
        "This instruction doesn't need any operands"@
    } else {
        "Check the x86-64 assembly manual for correct syntax"@
    }
}

/// Usage hint for an instruction's operands.
pub fn get_example_operands(instruction: &Vec<char>) -> (r: &'static str)
    ensures
        r@ == spec_example_operands(instruction@),
{
    if str_eq(instruction, "mov") {
        "Example: mov rax, rbx or mov rax, [rbx] or mov rax, 42"
    } else if str_eq(instruction, "add") {
        "Example: add rax, rbx or add rax, 42"
    } else if str_eq(instruction, "sub") {
        "Example: sub rax, rbx or sub rax, 42"
    } else if str_eq(instruction, "and") {
        "Example: and rax, rbx or and rax, 42"
    } else if str_eq(instruction, "or") {
        "Example: or rax, rbx or or rax, 42"
    } else if str_eq(instruction, "xor") {
        "Example: xor rax, rbx or xor rax, 42"
    } else if str_eq(instruction, "cmp") {
        "Example: cmp rax, rbx or cmp rax, 42"
    } else if str_eq(instruction, "mul") {
        "Example: mul rax"
    } else if str_eq(instruction, "div") {
        "Example: div rax"
    } else if str_eq(instruction, "push") {
        "Example: push rax or push 42"
    } else if str_eq(instruction, "pop") {
        "Example: pop rax"
    } else if str_eq(instruction, "jmp") {
        "Example: jmp label"
    } else if str_eq(instruction, "je") {
        "Example: je label"
    } else if str_eq(instruction, "jne") {
        "Example: jne label"
    } else if str_eq(instruction, "jg") {
        "Example: jg label"
    } else if str_eq(instruction, "jge") {
        "Example: jge label"
    } else if str_eq(instruction, "jl") {
        "Example: jl label"
    } else if str_eq(instruction, "jle") {
        "Example: jle label"
    } else if str_eq(instruction, "call") {
        "Example: call function_name"
    } else if str_eq(instruction, "lea") {
        "Example: lea rax, [rbx + 8]"
    } else if str_eq(instruction, "shl") {
        "Example: shl rax, 2"
    } else if str_eq(instruction, "shr") {
        "Example: shr rax, 2"
    } else if str_eq(instruction, "ret") || str_eq(instruction, "syscall") || str_eq(
        instruction,
        "nop",
    ) {
        "This instruction doesn't need any operands"
    } else {
        "Check the x86-64 assembly manual for correct syntax"
    }
}

/// True of the mnemonics that require at least one operand.
pub open spec fn spec_requires_operands(s: Seq<char>) -> bool {
    ||| s == "mov"@
    ||| s == "add"@
    ||| s == "sub"@
    ||| s == "mul"@
    ||| s == "div"@
    ||| s == "and"@
    ||| s == "or"@
    ||| s == "xor"@
    ||| s == "cmp"@
    ||| s == "shl"@
    ||| s == "shr"@
    ||| s == "jmp"@
    ||| s == "je"@
    ||| s == "jne"@
    ||| s == "jg"@
    ||| s == "jge"@
    ||| s == "jl"@
    ||| s == "jle"@
    ||| s == "call"@
    ||| s == "lea"@
}

pub fn requires_operands(instruction: &Vec<char>) -> (r: bool)
    ensures
        r == spec_requires_operands(instruction@),
{
    str_eq(instruction, "mov") || str_eq(instruction, "add") || str_eq(instruction, "sub")
        || str_eq(instruction, "mul") || str_eq(instruction, "div") || str_eq(instruction, "and")
        || str_eq(instruction, "or") || str_eq(instruction, "xor") || str_eq(instruction, "cmp")
        || str_eq(instruction, "shl") || str_eq(instruction, "shr") || str_eq(instruction, "jmp")
        || str_eq(instruction, "je") || str_eq(instruction, "jne") || str_eq(instruction, "jg")
        || str_eq(instruction, "jge") || str_eq(instruction, "jl") || str_eq(instruction, "jle")
        || str_eq(instruction, "call") || str_eq(instruction, "lea")
}

/// The required operand count of a mnemonic, if it is known.
pub open spec fn spec_required_operand_count(s: Seq<char>) -> Option<usize> {
    if s == "mov"@ || s == "add"@ || s == "sub"@ || s == "and"@ || s == "or"@ || s == "xor"@ || s
        == "cmp"@ || s == "shl"@ || s == "shr"@ || s == "lea"@ {
        Some(2usize)
    } else if s == "mul"@ || s == "div"@ || s == "jmp"@ || s == "je"@ || s == "jne"@ || s == "jg"@
        || s == "jge"@ || s == "jl"@ || s == "jle"@ || s == "call"@ || s == "push"@ || s
        == "pop"@ {
        Some(1usize)
    } else if s == "ret"@ || s == "syscall"@ || s == "nop"@ {
        Some(0usize)
    } else {
        None
    }
}

pub fn required_operand_count(instruction: &Vec<char>) -> (r: Option<usize>)
    ensures
        r == spec_required_operand_count(instruction@),
{
    if str_eq(instruction, "mov") || str_eq(instruction, "add") || str_eq(instruction, "sub")
        || str_eq(instruction, "and") || str_eq(instruction, "or") || str_eq(instruction, "xor")
        || str_eq(instruction, "cmp") || str_eq(instruction, "shl") || str_eq(instruction, "shr")
        || str_eq(instruction, "lea") {
        Some(2)
    } else if str_eq(instruction, "mul") || str_eq(instruction, "div") || str_eq(
        instruction,
        "jmp",
    ) || str_eq(instruction, "je") || str_eq(instruction, "jne") || str_eq(instruction, "jg")
        || str_eq(instruction, "jge") || str_eq(instruction, "jl") || str_eq(instruction, "jle")
        || str_eq(instruction, "call") || str_eq(instruction, "push") || str_eq(
        instruction,
        "pop",
    ) {
        Some(1)
    } else if str_eq(instruction, "ret") || str_eq(instruction, "syscall") || str_eq(
        instruction,
        "nop",
    ) {
        Some(0)
    } else {
        None
    }
}


/// A simple operand token: a register, an immediate or a label
/// reference. Bracketed memory references are parsed too, but only the
/// simple forms are covered by the operand-list scan below.
pub open spec fn spec_simple_operand(t: TokenV) -> bool {
    ||| spec_is_reg_kind(t.kind)
    ||| t.kind == TokenType::Immediate
    ||| t.kind == TokenType::LabelRef
}

/// What a simple operand token parses to: registers lower-cased,
/// immediates and label references verbatim.
pub open spec fn spec_operand_from_token(t: TokenV, op: Operand) -> bool {
    if spec_is_reg_kind(t.kind) {
        op matches Operand::Register(v) && v@ == spec_lower(t.text)
    } else if t.kind == TokenType::Immediate {
        op matches Operand::Immediate(v) && v@ == t.text
    } else if t.kind == TokenType::LabelRef {
        op matches Operand::Label(v) && v@ == t.text
    } else {
        false
    }
}

/// The parsed operands match the scanned operand tokens pointwise.
pub open spec fn spec_operands_match(toks: Seq<TokenV>, at: Seq<int>, ops: Seq<Operand>) -> bool
    decreases ops.len(),
{
    if ops.len() != at.len() {
        false
    } else if ops.len() == 0 {
        true
    } else {
        &&& spec_operands_match(toks, at.drop_last(), ops.drop_last())
        &&& 0 <= at.last() < toks.len()
        &&& spec_operand_from_token(toks[at.last()], ops.last())
    }
}

/// Appending a matching operand extends the pointwise match.
proof fn lemma_operands_match_snoc(toks: Seq<TokenV>, at: Seq<int>, n: int, ops: Seq<Operand>, op: Operand)
    requires
        0 <= n < at.len(),
        spec_operands_match(toks, at.take(n), ops),
        0 <= at[n] < toks.len(),
        spec_operand_from_token(toks[at[n]], op),
    ensures
        spec_operands_match(toks, at.take(n + 1), ops.push(op)),
{
    assert(at.take(n + 1).drop_last() =~= at.take(n));
    assert(ops.push(op).drop_last() =~= ops);
    assert(at.take(n + 1).last() == at[n]);
    assert(ops.push(op).last() == op);
    assert(ops.len() == n) by {
        assert(spec_operands_match(toks, at.take(n), ops));
    }
}

/// Result of scanning a comma-separated simple operand list: the indices
/// of the operand tokens, the cursor after the scan, and whether the
/// whole list was simple.
pub ghost struct OperandScan {
    pub at: Seq<int>,
    pub end: int,
    pub simple: bool,
}

/// The operands after the first: a comma must be followed by a simple
/// operand token; the list ends at the first non-comma.
pub open spec fn spec_operand_tail(toks: Seq<TokenV>, i: int) -> OperandScan
    decreases toks.len() - i,
{
    if 0 <= i < toks.len() && toks[i].kind == TokenType::Comma {
        if i + 1 < toks.len() && spec_simple_operand(toks[i + 1]) {
            let rest = spec_operand_tail(toks, i + 2);
            OperandScan { at: seq![i + 1] + rest.at, end: rest.end, simple: rest.simple }
        } else {
            OperandScan { at: Seq::empty(), end: i, simple: false }
        }
    } else {
        OperandScan { at: Seq::empty(), end: i, simple: true }
    }
}

/// The whole operand list: empty at a line end, else a simple operand
/// followed by the tail.
pub open spec fn spec_operands_scan(toks: Seq<TokenV>, i: int) -> OperandScan {
    if i >= toks.len() || (0 <= i && (toks[i].kind == TokenType::NewLine || toks[i].kind
        == TokenType::EOF)) {
        OperandScan { at: Seq::empty(), end: i, simple: true }
    } else if 0 <= i < toks.len() && spec_simple_operand(toks[i]) {
        let rest = spec_operand_tail(toks, i + 1);
        OperandScan { at: seq![i] + rest.at, end: rest.end, simple: rest.simple }
    } else {
        OperandScan { at: Seq::empty(), end: i, simple: false }
    }
}

/// Parses one operand: a register, an immediate, a label reference, or a
/// bracketed memory reference.
fn parse_operand(parser: &mut Parser) -> (r: Result<Operand, ErrorType>)
    requires
        old(parser).wf(),
    ensures
        final(parser).wf(),
        same_but_cursor(*old(parser), *final(parser)),
        final(parser).current >= old(parser).current,
        ({
            let t = spec_current_token(old(parser).toks(), old(parser).current as int);
            &&& (spec_is_reg_kind(t.kind) ==> (r matches Ok(op) && (op matches Operand::Register(
                v,
            ) && v@ == spec_lower(t.text))) && final(parser).current == old(parser).current + 1)
            &&& (t.kind == TokenType::Immediate ==> (r matches Ok(op) && (op matches
                Operand::Immediate(v) && v@ == t.text)) && final(parser).current == old(
                parser,
            ).current + 1)
            &&& (t.kind == TokenType::LabelRef ==> (r matches Ok(op) && (op matches Operand::Label(
                v,
            ) && v@ == t.text)) && final(parser).current == old(parser).current + 1)
            &&& (r is Ok ==> final(parser).current > old(parser).current)
            // Any other token kind is refused without consuming it.
            &&& (!(spec_is_reg_kind(t.kind) || t.kind == TokenType::Immediate || t.kind
                == TokenType::LabelRef || t.kind == TokenType::OpenBracket) ==> (r is Err)
                && final(parser).current == old(parser).current)
            // The bracketed forms come straight from the memory parser.
            &&& (t.kind == TokenType::OpenBracket ==> ({
                let toks = old(parser).toks();
                let t1 = spec_current_token(toks, old(parser).current + 1);
                let t2 = spec_current_token(toks, old(parser).current + 2);
                let t3 = spec_current_token(toks, old(parser).current + 3);
                let t4 = spec_current_token(toks, old(parser).current + 4);
                &&& (spec_is_base_reg_kind(t1.kind) && t2.kind == TokenType::CloseBracket ==> (
                r matches Ok(op) && (op matches Operand::Memory(m) && (m.base matches Some(b)
                    && b@ == spec_lower(t1.text)))) && final(parser).current == old(
                    parser,
                ).current + 3)
                &&& ((t1.kind == TokenType::LabelRef || t1.kind == TokenType::Identifier)
                    && t2.kind == TokenType::CloseBracket ==> (r matches Ok(op) && (op matches
                    Operand::Label(v) && v@ == t1.text)) && final(parser).current == old(
                    parser,
                ).current + 3)
                &&& ((t1.kind == TokenType::LabelRef || t1.kind == TokenType::Identifier) && (
                t2.kind == TokenType::Plus || t2.kind == TokenType::Minus) && t3.kind
                    == TokenType::Immediate && t4.kind == TokenType::CloseBracket ==> (r matches
                    Ok(op) && (op matches Operand::Label(v) && v@ == t1.text)) && final(parser).current == old(parser).current + 5)
            }))
        }),
{
    let token = parser.current_token();
    let kind = token.token_type;
    if kind == TokenType::Register || kind == TokenType::Reg64Bit || kind == TokenType::Reg32Bit
        || kind == TokenType::Reg16Bit || kind == TokenType::Reg8Bit || kind == TokenType::RegXMM
        || kind == TokenType::RegYMM || kind == TokenType::RegZMM || kind
        == TokenType::RegSpecial {
        let register = lower(&token.value);
        parser.next_token();
        Ok(Operand::Register(register))
    } else if kind == TokenType::Immediate {
        parser.next_token();
        Ok(Operand::Immediate(token.value))
    } else if kind == TokenType::LabelRef {
        parser.next_token();
        Ok(Operand::Label(token.value))
    } else if kind == TokenType::OpenBracket {
        parse_memory_reference(parser)
    } else {
        Err(ErrorType::UnexpectedToken)
    }
}

/// A register kind accepted as a memory-reference base: the general
/// registers, not the SIMD or special ones.
pub open spec fn spec_is_base_reg_kind(k: TokenType) -> bool {
    ||| k == TokenType::Register
    ||| k == TokenType::Reg64Bit
    ||| k == TokenType::Reg32Bit
    ||| k == TokenType::Reg16Bit
    ||| k == TokenType::Reg8Bit
}

/// Parses a bracketed memory reference such as `[rax]`, `[label]` or
/// `[base + displacement]`; a bare label in brackets becomes a label
/// operand.
fn parse_memory_reference(parser: &mut Parser) -> (r: Result<Operand, ErrorType>)
    requires
        old(parser).wf(),
        spec_current_token(old(parser).toks(), old(parser).current as int).kind
            == TokenType::OpenBracket,
    ensures
        final(parser).wf(),
        same_but_cursor(*old(parser), *final(parser)),
        final(parser).current >= old(parser).current,
        r is Ok ==> final(parser).current > old(parser).current,
        r is Ok ==> (r->Ok_0 matches Operand::Memory(m) && m.index is None && m.scale is None
            && m.displacement is None) || (r->Ok_0 is Label),
        // `[reg]` yields a bare-base memory reference over the lowered
        // register and consumes through the closing bracket.
        ({
            let toks = old(parser).toks();
            let t1 = spec_current_token(toks, old(parser).current + 1);
            let t2 = spec_current_token(toks, old(parser).current + 2);
            spec_is_base_reg_kind(t1.kind) && t2.kind == TokenType::CloseBracket ==> (r matches Ok(
                op,
            ) && (op matches Operand::Memory(m) && (m.base matches Some(b) && b@ == spec_lower(
                t1.text,
            )))) && final(parser).current == old(parser).current + 3
        }),
        // `[label]` yields the label operand.
        ({
            let toks = old(parser).toks();
            let t1 = spec_current_token(toks, old(parser).current + 1);
            let t2 = spec_current_token(toks, old(parser).current + 2);
            (t1.kind == TokenType::LabelRef || t1.kind == TokenType::Identifier) && t2.kind
                == TokenType::CloseBracket ==> (r matches Ok(op) && (op matches Operand::Label(v)
                && v@ == t1.text)) && final(parser).current == old(parser).current + 3
        }),
        // `[label+imm]` and `[label-imm]` drop the displacement and
        // yield the label operand.
        ({
            let toks = old(parser).toks();
            let t1 = spec_current_token(toks, old(parser).current + 1);
            let t2 = spec_current_token(toks, old(parser).current + 2);
            let t3 = spec_current_token(toks, old(parser).current + 3);
            let t4 = spec_current_token(toks, old(parser).current + 4);
            (t1.kind == TokenType::LabelRef || t1.kind == TokenType::Identifier) && (t2.kind
                == TokenType::Plus || t2.kind == TokenType::Minus) && t3.kind
                == TokenType::Immediate && t4.kind == TokenType::CloseBracket ==> (r matches Ok(
                op,
            ) && (op matches Operand::Label(v) && v@ == t1.text)) && final(parser).current == old(
                parser,
            ).current + 5
        }),
{
    // Skip the opening bracket.
    parser.next_token();
    let token = parser.current_token();
    let kind = token.token_type;

    let base: Option<Vec<char>> = if kind == TokenType::Register || kind == TokenType::Reg64Bit
        || kind == TokenType::Reg32Bit || kind == TokenType::Reg16Bit || kind
        == TokenType::Reg8Bit {
        let register = lower(&token.value);
        parser.next_token();
        Some(register)
    } else if kind == TokenType::LabelRef || kind == TokenType::Identifier {
        let label = token.value;
        parser.next_token();
        if parser.check(TokenType::CloseBracket) {
            parser.next_token();
            return Ok(Operand::Label(label));
        }
        // A displacement after the label is read past and dropped; the
        // label alone names the address.
        if parser.check(TokenType::Minus) || parser.check(TokenType::Plus) {
            parser.next_token();
            if parser.current_token().token_type == TokenType::Immediate {
                parser.next_token();
            }
            if parser.check(TokenType::CloseBracket) {
                parser.next_token();
                return Ok(Operand::Label(label));
            }
        }
        return Err(ErrorType::ExpectedToken);
    } else {
        None
    };

    let index: Option<Vec<char>> = None;
    let scale: Option<u8> = None;
    let displacement: Option<Vec<char>> = None;

    if parser.check(TokenType::Plus) || parser.check(TokenType::Minus) {
        parser.next_token();
        let next_kind = parser.current_token().token_type;
        if next_kind != TokenType::Register && next_kind != TokenType::Reg64Bit && next_kind
            != TokenType::Reg32Bit && next_kind != TokenType::Reg16Bit && next_kind
            != TokenType::Reg8Bit && next_kind != TokenType::Immediate {
            return Err(ErrorType::InvalidMemoryReference);
        }
        let ghost toks = parser.toks();
        while !parser.check(TokenType::CloseBracket) && !(parser.current
            >= parser.tokens.len())
            invariant
                parser.wf(),
                same_but_cursor(*old(parser), *parser),
                toks == parser.toks(),
                parser.current > old(parser).current,
            decreases toks.len() - parser.current,
        {
            parser.next_token();
        }
    }
    if !parser.check(TokenType::CloseBracket) {
        return Err(ErrorType::ExpectedToken);
    }
    parser.next_token();
    Ok(Operand::Memory(MemoryReference { base, index, scale, displacement }))
}

/// Parses the comma-separated operand list of an instruction, checking
/// the arity table; in recovery mode bad operands are reported and the
/// rest of the line is dropped.
#[verifier::rlimit(100)]
fn parse_operands(parser: &mut Parser, instruction: &Vec<char>, instr_line: usize, instr_column: usize) -> (r:
    Result<Vec<Operand>, ErrorType>)
    requires
        old(parser).wf(),
    ensures
        final(parser).wf(),
        same_but_cursor_errors(*old(parser), *final(parser)),
        final(parser).current >= old(parser).current,
        // In strict mode a returned list respects the arity table; the
        // one exception is an empty line for a mnemonic that the
        // operand-requirement table does not list.
        !old(parser).continue_on_errors && r is Ok ==> (match spec_required_operand_count(
            instruction@,
        ) {
            Some(n) => r->Ok_0@.len() == n,
            None => true,
        }) || (r->Ok_0@.len() == 0 && !spec_requires_operands(instruction@)),
        // In recovery mode the operand list never aborts the statement.
        old(parser).continue_on_errors ==> r is Ok,
        // Every diagnostic this call records is an InvalidOperand that
        // carries the mnemonic's usage hint.
        spec_hinted_errors(
            old(parser).error_collector,
            final(parser).error_collector,
            ErrorType::InvalidOperand,
            spec_example_operands(instruction@),
        ),
        // An arity mismatch on a simple list with a collector present is
        // reported: exactly one InvalidOperand diagnostic is added.
        ({
            let sc = spec_operands_scan(old(parser).toks(), old(parser).current as int);
            sc.simple && old(parser).error_collector is Some && ((sc.at.len() == 0
                && spec_requires_operands(instruction@)) || (sc.at.len() > 0 && (match
            spec_required_operand_count(instruction@) {
                Some(n) => sc.at.len() != n,
                None => false,
            }))) ==> match (old(parser).error_collector, final(parser).error_collector) {
                (Some(c0), Some(c1)) => c1.errors@.len() == c0.errors@.len() + 1,
                _ => false,
            }
        }),
        // A simple comma-separated operand list is read exactly: the
        // parsed operands are the scanned tokens in order and the cursor
        // stops where the scan stops; when the list also fits the arity
        // table, success is owed and no diagnostic is recorded.
        ({
            let sc = spec_operands_scan(old(parser).toks(), old(parser).current as int);
            sc.simple ==> ({
                &&& (r matches Ok(ops) ==> final(parser).current as int == sc.end && ops@.len()
                    == sc.at.len() && spec_operands_match(old(parser).toks(), sc.at, ops@))
                &&& ((match spec_required_operand_count(instruction@) {
                    Some(n) => sc.at.len() == n,
                    None => true,
                }) && (sc.at.len() > 0 || !spec_requires_operands(instruction@)) ==> r is Ok
                    && final(parser).error_collector == old(parser).error_collector)
            })
        }),
{
    let mut operands: Vec<Operand> = Vec::new();
    let hint = get_example_operands(instruction);
    let ghost toks = parser.toks();
    let ghost sc = spec_operands_scan(toks, parser.current as int);
    proof {
        lemma_grows_refl(old(parser).error_collector);
        lemma_hinted_refl(
            old(parser).error_collector,
            ErrorType::InvalidOperand,
            spec_example_operands(instruction@),
        );
    }

    if parser.check(TokenType::NewLine) || parser.check(TokenType::EOF) || parser.current
        >= parser.tokens.len() {
        if requires_operands(instruction) {
            let ghost ec_pre = parser.error_collector;
            parser.add_error_hint(
                ErrorType::InvalidOperand,
                "Instruction requires operands but none were provided",
                hint,
                instr_line,
                instr_column,
            );
            proof {
                lemma_hinted_compose(
                    old(parser).error_collector,
                    ec_pre,
                    parser.error_collector,
                    ErrorType::InvalidOperand,
                    spec_example_operands(instruction@),
                );
                lemma_hinted_grows(
                    ec_pre,
                    parser.error_collector,
                    ErrorType::InvalidOperand,
                    spec_example_operands(instruction@),
                );
                lemma_grows_trans(old(parser).error_collector, ec_pre, parser.error_collector);
            }
            if !parser.continue_on_errors {
                return Err(ErrorType::InvalidOperand);
            }
        }
        return Ok(operands);
    }

    proof {
        if sc.simple {
            assert(spec_simple_operand(toks[old(parser).current as int]));
        }
    }
    match parse_operand(parser) {
        Ok(op) => {
            let ghost gop = op;
            operands.push(op);
            proof {
                if sc.simple {
                    let rest = spec_operand_tail(toks, old(parser).current + 1);
                    assert(sc.at == seq![old(parser).current as int] + rest.at);
                    assert(rest.simple && rest.end == sc.end);
                    assert(parser.current as int == old(parser).current + 1);
                    assert(spec_operand_tail(toks, parser.current as int).at =~= sc.at.skip(1));
                    assert(sc.at[0] == old(parser).current as int);
                    assert(spec_current_token(toks, old(parser).current as int) == toks[old(
                        parser,
                    ).current as int]);
                    assert(spec_operand_from_token(toks[sc.at[0]], gop));
                    assert(spec_operands_match(toks, sc.at.take(0), Seq::<Operand>::empty()))
                        by {
                        assert(sc.at.take(0) =~= Seq::<int>::empty());
                    }
                    lemma_operands_match_snoc(
                        toks,
                        sc.at,
                        0,
                        Seq::<Operand>::empty(),
                        gop,
                    );
                    assert(operands@ =~= Seq::<Operand>::empty().push(gop));
                }
            }
        },
        Err(e) => {
            proof {
                assert(!sc.simple);
            }
            let t = parser.current_token();
            let ghost ec_pre = parser.error_collector;
            parser.add_error_hint(
                ErrorType::InvalidOperand,
                "Invalid first operand for instruction",
                hint,
                t.line,
                t.column,
            );
            proof {
                lemma_hinted_compose(
                    old(parser).error_collector,
                    ec_pre,
                    parser.error_collector,
                    ErrorType::InvalidOperand,
                    spec_example_operands(instruction@),
                );
                lemma_hinted_grows(
                    ec_pre,
                    parser.error_collector,
                    ErrorType::InvalidOperand,
                    spec_example_operands(instruction@),
                );
                lemma_grows_trans(old(parser).error_collector, ec_pre, parser.error_collector);
            }
            if parser.continue_on_errors {
                parser.advance();
            } else {
                return Err(e);
            }
        },
    }

    loop
        invariant
            parser.wf(),
            same_but_cursor_errors(*old(parser), *parser),
            spec_hinted_errors(
                old(parser).error_collector,
                parser.error_collector,
                ErrorType::InvalidOperand,
                spec_example_operands(instruction@),
            ),
            hint@ == spec_example_operands(instruction@),
            toks == parser.toks(),
            toks == old(parser).toks(),
            sc == spec_operands_scan(toks, old(parser).current as int),
            parser.current >= old(parser).current,
            sc.simple ==> spec_operand_tail(toks, parser.current as int).simple,
            sc.simple ==> spec_operand_tail(toks, parser.current as int).end == sc.end,
            sc.simple ==> operands@.len() <= sc.at.len(),
            sc.simple ==> spec_operand_tail(toks, parser.current as int).at == sc.at.skip(
                operands@.len() as int,
            ),
            sc.simple ==> parser.error_collector == old(parser).error_collector,
            sc.simple ==> spec_operands_match(
                toks,
                sc.at.take(operands@.len() as int),
                operands@,
            ),
        ensures
            parser.wf(),
            same_but_cursor_errors(*old(parser), *parser),
            spec_hinted_errors(
                old(parser).error_collector,
                parser.error_collector,
                ErrorType::InvalidOperand,
                spec_example_operands(instruction@),
            ),
            hint@ == spec_example_operands(instruction@),
            toks == parser.toks(),
            parser.current >= old(parser).current,
            sc.simple ==> parser.current as int == sc.end,
            sc.simple ==> operands@.len() == sc.at.len(),
            sc.simple ==> parser.error_collector == old(parser).error_collector,
            sc.simple ==> spec_operands_match(toks, sc.at, operands@),
        decreases toks.len() - parser.current,
    {
        if !parser.check(TokenType::Comma) {
            proof {
                if sc.simple {
                    let tail = spec_operand_tail(toks, parser.current as int);
                    assert(tail.simple);
                    assert(tail.end == sc.end);
                    assert(tail.at == sc.at.skip(operands@.len() as int));
                    assert(tail.at =~= Seq::<int>::empty());
                    assert(tail.end == parser.current as int);
                    assert(sc.at.skip(operands@.len() as int) =~= Seq::<int>::empty());
                    assert(sc.at.len() == operands@.len());
                    assert(parser.current as int == sc.end);
                    assert(parser.error_collector == old(parser).error_collector);
                    assert(sc.at.take(operands@.len() as int) =~= sc.at);
                }
            }
            break;
        }
        let ghost comma_at = parser.current as int;
        parser.next_token();
        proof {
            if sc.simple {
                assert(spec_operand_tail(toks, comma_at).simple);
                assert(comma_at + 1 < toks.len() && spec_simple_operand(toks[comma_at + 1]));
                assert(spec_operand_tail(toks, comma_at).at == seq![comma_at + 1]
                    + spec_operand_tail(toks, comma_at + 2).at);
            }
        }
        let before = parser.current;
        match parse_operand(parser) {
            Ok(op) => {
                let ghost count = operands@.len() as int;
                let ghost gop = op;
                let ghost prev_operands = operands@;
                operands.push(op);
                proof {
                    if sc.simple {
                        assert(sc.at.skip(count)[0] == comma_at + 1);
                        assert(sc.at[count] == comma_at + 1);
                        assert(parser.current as int == comma_at + 2);
                        assert(spec_operand_tail(toks, comma_at).at == sc.at.skip(count));
                        assert((seq![comma_at + 1] + spec_operand_tail(toks, comma_at + 2).at)
                            .skip(1) =~= spec_operand_tail(toks, comma_at + 2).at);
                        assert(sc.at.skip(count).skip(1) =~= sc.at.skip(count + 1));
                        assert(spec_operand_tail(toks, parser.current as int).at =~= sc.at.skip(
                            count + 1,
                        ));
                        assert(spec_current_token(toks, comma_at + 1) == toks[comma_at + 1]);
                        assert(spec_operand_from_token(toks[sc.at[count]], gop));
                        assert(sc.at.take(count) =~= sc.at.take(prev_operands.len() as int));
                        lemma_operands_match_snoc(toks, sc.at, count, prev_operands, gop);
                        assert(operands@ =~= prev_operands.push(gop));
                    }
                }
                if parser.current <= before {
                    // No progress can only mean a malformed operand;
                    // stop the operand list here.
                    proof {
                        assert(!sc.simple);
                    }
                    break;
                }
            },
            Err(e) => {
                proof {
                    assert(!sc.simple);
                }
                let t = parser.current_token();
                let ghost ec_pre = parser.error_collector;
                parser.add_error_hint(
                    ErrorType::InvalidOperand,
                    "Invalid operand: expected a register, immediate value, or memory reference",
                    hint,
                    t.line,
                    t.column,
                );
                proof {
                    lemma_hinted_compose(
                        old(parser).error_collector,
                        ec_pre,
                        parser.error_collector,
                        ErrorType::InvalidOperand,
                        spec_example_operands(instruction@),
                    );
                    lemma_hinted_grows(
                        ec_pre,
                        parser.error_collector,
                        ErrorType::InvalidOperand,
                        spec_example_operands(instruction@),
                    );
                    lemma_grows_trans(old(parser).error_collector, ec_pre, parser.error_collector);
                }
                if parser.continue_on_errors {
                    parser.advance();
                    break;
                } else {
                    return Err(e);
                }
            },
        }
    }

    match required_operand_count(instruction) {
        Some(required) => {
            if operands.len() != required {
                let ghost ec_pre = parser.error_collector;
                parser.add_error_hint(
                    ErrorType::InvalidOperand,
                    "Instruction has the wrong number of operands",
                    hint,
                    instr_line,
                    instr_column,
                );
                proof {
                    lemma_hinted_compose(
                        old(parser).error_collector,
                        ec_pre,
                        parser.error_collector,
                        ErrorType::InvalidOperand,
                        spec_example_operands(instruction@),
                    );
                    lemma_hinted_grows(
                        ec_pre,
                        parser.error_collector,
                        ErrorType::InvalidOperand,
                        spec_example_operands(instruction@),
                    );
                    lemma_grows_trans(old(parser).error_collector, ec_pre, parser.error_collector);
                }
                if !parser.continue_on_errors {
                    return Err(ErrorType::InvalidOperand);
                }
            }
        },
        None => {},
    }
    Ok(operands)
}

/// Parses one instruction statement: the mnemonic, lower-cased, and its
/// operands; machine code is filled by the encoding pass, not here.
pub fn parse_instruction(parser: &mut Parser) -> (r: Result<Statement, ErrorType>)
    requires
        old(parser).wf(),
        old(parser).current < old(parser).toks().len(),
    ensures
        final(parser).wf(),
        same_but_cursor_errors(*old(parser), *final(parser)),
        final(parser).current > old(parser).current,
        ({
            let t = spec_current_token(old(parser).toks(), old(parser).current as int);
            &&& (r matches Ok(stmt) ==> (stmt matches Statement::Instruction(ins) && ins.name@
                == spec_lower(t.text) && ins.machine_code@.len() == 0 && ins.line as int
                == t.line))
            &&& (!old(parser).continue_on_errors && r is Ok ==> (r->Ok_0 matches
                Statement::Instruction(ins) && ((match spec_required_operand_count(
                spec_lower(t.text),
            ) {
                Some(n) => ins.operands@.len() == n,
                None => true,
            }) || (ins.operands@.len() == 0 && !spec_requires_operands(spec_lower(t.text))))))
            // Every diagnostic recorded here is an InvalidOperand that
            // carries the mnemonic's usage hint.
            &&& spec_hinted_errors(
                old(parser).error_collector,
                final(parser).error_collector,
                ErrorType::InvalidOperand,
                spec_example_operands(spec_lower(t.text)),
            )
            // In recovery mode an instruction statement always comes back.
            &&& (old(parser).continue_on_errors ==> r is Ok)
            // A simple operand list after the mnemonic is read exactly,
            // pointwise; when it also fits the arity table, success is
            // owed even in strict mode.
            &&& ({
                let sc = spec_operands_scan(old(parser).toks(), old(parser).current + 1);
                sc.simple ==> ({
                    &&& (r matches Ok(stmt) ==> (stmt matches Statement::Instruction(ins)
                        && ins.operands@.len() == sc.at.len() && spec_operands_match(
                        old(parser).toks(),
                        sc.at,
                        ins.operands@,
                    ) && final(parser).current as int == sc.end))
                    &&& ((match spec_required_operand_count(spec_lower(t.text)) {
                        Some(n) => sc.at.len() == n,
                        None => true,
                    }) && (sc.at.len() > 0 || !spec_requires_operands(spec_lower(t.text)))
                        ==> r is Ok)
                })
            })
        }),
{
    let token = parser.current_token();
    let instruction_name = lower(&token.value);
    let hint = get_example_operands(&instruction_name);
    let line = token.line;
    proof {
        lemma_grows_refl(old(parser).error_collector);
        lemma_hinted_refl(
            old(parser).error_collector,
            ErrorType::InvalidOperand,
            spec_example_operands(instruction_name@),
        );
    }

    parser.next_token();

    let operands = match parse_operands(parser, &instruction_name, token.line, token.column) {
        Ok(ops) => ops,
        Err(e) => {
            let t = parser.current_token();
            let ghost ec_pre = parser.error_collector;
            parser.add_error_hint(
                ErrorType::InvalidOperand,
                "Invalid operand syntax in instruction",
                hint,
                t.line,
                t.column,
            );
            proof {
                lemma_hinted_compose(
                    old(parser).error_collector,
                    ec_pre,
                    parser.error_collector,
                    ErrorType::InvalidOperand,
                    spec_example_operands(instruction_name@),
                );
                lemma_hinted_grows(
                    ec_pre,
                    parser.error_collector,
                    ErrorType::InvalidOperand,
                    spec_example_operands(instruction_name@),
                );
                lemma_grows_trans(old(parser).error_collector, ec_pre, parser.error_collector);
            }
            if parser.continue_on_errors {
                let ghost toks = parser.toks();
                while !parser.check(TokenType::NewLine) && !(parser.current
                    >= parser.tokens.len())
                    invariant
                        parser.wf(),
                        same_but_cursor_errors(*old(parser), *parser),
                        spec_hinted_errors(
                            old(parser).error_collector,
                            parser.error_collector,
                            ErrorType::InvalidOperand,
                            spec_example_operands(instruction_name@),
                        ),
                        toks == parser.toks(),
                        parser.current > old(parser).current,
                    decreases toks.len() - parser.current,
                {
                    parser.advance();
                }
                Vec::new()
            } else {
                return Err(e);
            }
        },
    };

    Ok(
        Statement::Instruction(
            Instruction { name: instruction_name, operands, machine_code: Vec::new(), line },
        ),
    )
}

} // verus!
