//! The ELF emitter and relocation patcher: a program with encoded
//! instructions becomes one ELF64 executable image — fixed header, two
//! PT_LOAD program headers, `.text` at the first page-aligned offset,
//! `.data` after it, and the RIP-relative displacement of every
//! `lea reg, label` patched once real addresses are known. The whole
//! image is specified byte for byte.

use vstd::prelude::*;
use crate::ast::{Operand, Program, Statement};
use crate::chars::{
    copy_chars, parse_number, spec_lower, spec_parse_number, spec_utf8, str_eq, utf8_bytes,
};
use crate::encoder::{spec_encode, MachineCodeEncoder};
use crate::names::{map_opt, spec_get, spec_map_of, NameMap};

verus! {

pub const TEXT_ADDRESS: u64 = 0x400000;

pub const DATA_ADDRESS: u64 = 0x600000;

pub const PAGE_SIZE: u64 = 0x1000;

/// Upper bound on a section's size; a program past it is refused rather
/// than emitted with wrapped addresses.
pub const SECTION_LIMIT: usize = 0x4000_0000;

/// Everything that can stop emission. Emission errors are always fatal:
/// no partial output is promised.
#[derive(Debug, Clone, Copy, PartialEq, Eq, Structural)]
pub enum ElfError {
    /// A `global`/`extern` directive whose operand is not a label.
    OperandNotLabel,
    /// A data directive outside the `.data` section.
    DataOutsideData,
    /// An instruction outside the `.text` section.
    InstructionOutsideText,
    /// A data directive other than `db`/`dw`/`dd`/`dq`.
    UnknownDataDirective,
    /// A numeric literal that does not parse or exceeds 64 bits.
    InvalidNumber,
    /// A data directive operand that is neither a number nor a string.
    UnsupportedDataOperand,
    /// A section grew past `SECTION_LIMIT`.
    SectionTooLarge,
    /// A `lea` template lies outside the emitted `.text` bytes.
    LeaPatchOutOfBounds,
    /// A `lea` names a label with no recorded address.
    UndefinedLeaTarget,
}

/// Little-endian bytes of a 16-bit value.
pub open spec fn spec_le16(x: u16) -> Seq<u8> {
    seq![(x as int % 0x100) as u8, (x as int / 0x100) as u8]
}

/// Little-endian bytes of a 32-bit value.
pub open spec fn spec_le32(x: u32) -> Seq<u8> {
    seq![
        (x as int % 0x100) as u8,
        ((x as int / 0x100) % 0x100) as u8,
        ((x as int / 0x10000) % 0x100) as u8,
        ((x as int / 0x1000000) % 0x100) as u8,
    ]
}

/// Little-endian bytes of a 64-bit value.
pub open spec fn spec_le64(x: u64) -> Seq<u8> {
    seq![
        (x as int % 0x100) as u8,
        ((x as int / 0x100) % 0x100) as u8,
        ((x as int / 0x10000) % 0x100) as u8,
        ((x as int / 0x1000000) % 0x100) as u8,
        ((x as int / 0x100000000) % 0x100) as u8,
        ((x as int / 0x10000000000) % 0x100) as u8,
        ((x as int / 0x1000000000000) % 0x100) as u8,
        ((x as int / 0x100000000000000) % 0x100) as u8,
    ]
}

/// `n` zero bytes.
pub open spec fn spec_zeros(n: int) -> Seq<u8> {
    Seq::new(n as nat, |i: int| 0u8)
}

/// `s` with `b` written over the bytes starting at `at`.
pub open spec fn spec_overwrite(s: Seq<u8>, at: int, b: Seq<u8>) -> Seq<u8> {
    s.take(at) + b + s.skip(at + b.len())
}

/// Bytes a single data-directive operand contributes: numerics truncate
/// to the directive's width, little-endian; strings copy their UTF-8
/// bytes plus one trailing NUL. The NUL is appended whether or not the
/// source already wrote an explicit terminator — `db "A", 0` therefore
/// holds three bytes, not two; an open question settled toward the
/// always-NUL reading.
pub open spec fn spec_data_value(name: Seq<char>, op: Operand) -> Result<Seq<u8>, ElfError> {
    match op {
        Operand::Immediate(val) => match spec_parse_number(val@) {
            Some(num) => if name == "db"@ {
                Ok(seq![(num as int % 0x100) as u8])
            } else if name == "dw"@ {
                Ok(spec_le16((num as int % 0x10000) as u16))
            } else if name == "dd"@ {
                Ok(spec_le32((num as int % 0x100000000) as u32))
            } else if name == "dq"@ {
                Ok(spec_le64(num))
            } else {
                Err(ElfError::UnknownDataDirective)
            },
            None => Err(ElfError::InvalidNumber),
        },
        Operand::String(sv) => Ok(spec_utf8(sv@) + seq![0u8]),
        _ => Err(ElfError::UnsupportedDataOperand),
    }
}

/// Bytes of a whole data directive, operand by operand; the first bad
/// operand aborts.
pub open spec fn spec_data_dir(name: Seq<char>, ops: Seq<Operand>, i: int) -> Result<
    Seq<u8>,
    ElfError,
>
    decreases ops.len() - i,
{
    if i < 0 || i >= ops.len() {
        Ok(Seq::empty())
    } else {
        match spec_data_value(name, ops[i]) {
            Ok(b) => match spec_data_dir(name, ops, i + 1) {
                Ok(rest) => Ok(b + rest),
                Err(e) => Err(e),
            },
            Err(e) => Err(e),
        }
    }
}

/// State of the statement walk that lays out `.text` and `.data` and
/// records real label addresses.
pub ghost struct AstScan {
    pub cur: Seq<char>,
    pub text: Seq<u8>,
    pub data: Seq<u8>,
    pub labels: Map<Seq<char>, u64>,
    pub entry: u64,
    pub err: Option<ElfError>,
}

pub open spec fn spec_scan_init() -> AstScan {
    AstScan {
        cur: ".text"@,
        text: Seq::empty(),
        data: Seq::empty(),
        labels: Map::empty(),
        entry: 0,
        err: None,
    }
}

/// Effect of one statement on the scan state.
pub open spec fn spec_scan_step(stmts: Seq<Statement>, i: int, st: AstScan) -> AstScan {
    match stmts[i] {
        Statement::Section(sec) => AstScan { cur: sec.name@, ..st },
        Statement::Label(l) => {
            if st.cur == ".text"@ {
                let addr = (TEXT_ADDRESS + st.text.len()) as u64;
                AstScan {
                    labels: st.labels.insert(l@, addr),
                    entry: if l@ == "_start"@ {
                        addr
                    } else {
                        st.entry
                    },
                    ..st
                }
            } else if st.cur == ".data"@ {
                AstScan { labels: st.labels.insert(l@, (DATA_ADDRESS + st.data.len()) as u64), ..st }
            } else {
                st
            }
        },
        Statement::Directive(dir) => {
            let name = dir.name@;
            if name == "global"@ || name == "extern"@ {
                if dir.operands@.len() == 0 {
                    AstScan { err: Some(ElfError::OperandNotLabel), ..st }
                } else {
                    match dir.operands@[0] {
                        Operand::Label(sym) => if name == "global"@ {
                            AstScan { labels: st.labels.insert(sym@, 0), ..st }
                        } else {
                            st
                        },
                        _ => AstScan { err: Some(ElfError::OperandNotLabel), ..st },
                    }
                }
            } else if name == "equ"@ {
                if dir.operands@.len() > 0 {
                    match dir.operands@[0] {
                        Operand::Immediate(val) => match spec_parse_number(val@) {
                            Some(value) => {
                                if i > 0 {
                                    match stmts[i - 1] {
                                        Statement::Label(prev) => AstScan {
                                            labels: st.labels.insert(prev@, value),
                                            ..st
                                        },
                                        _ => st,
                                    }
                                } else {
                                    st
                                }
                            },
                            None => AstScan { err: Some(ElfError::InvalidNumber), ..st },
                        },
                        _ => st,
                    }
                } else {
                    st
                }
            } else if name == "db"@ || name == "dw"@ || name == "dd"@ || name == "dq"@ {
                if st.cur != ".data"@ {
                    AstScan { err: Some(ElfError::DataOutsideData), ..st }
                } else {
                    let st1 = if i > 0 {
                        match stmts[i - 1] {
                            Statement::Label(prev) => AstScan {
                                labels: st.labels.insert(
                                    prev@,
                                    (DATA_ADDRESS + st.data.len()) as u64,
                                ),
                                ..st
                            },
                            _ => st,
                        }
                    } else {
                        st
                    };
                    match spec_data_dir(name, dir.operands@, 0) {
                        Ok(b) => AstScan { data: st1.data + b, ..st1 },
                        Err(e) => AstScan { err: Some(e), ..st1 },
                    }
                }
            } else {
                st
            }
        },
        Statement::Instruction(instr) => {
            if st.cur != ".text"@ {
                AstScan { err: Some(ElfError::InstructionOutsideText), ..st }
            } else {
                AstScan { text: st.text + spec_encode(instr), ..st }
            }
        },
        _ => st,
    }
}

/// One step plus the size guard.
pub open spec fn spec_scan_checked_step(stmts: Seq<Statement>, i: int, st: AstScan) -> AstScan {
    let st1 = spec_scan_step(stmts, i, st);
    if st1.err is Some {
        st1
    } else if st1.text.len() > SECTION_LIMIT || st1.data.len() > SECTION_LIMIT {
        AstScan { err: Some(ElfError::SectionTooLarge), ..st1 }
    } else {
        st1
    }
}

/// The whole statement walk from index `i`; stops at the first error.
pub open spec fn spec_scan(stmts: Seq<Statement>, i: int, st: AstScan) -> AstScan
    decreases stmts.len() - i,
{
    if i < 0 || i >= stmts.len() || st.err is Some {
        st
    } else {
        spec_scan(stmts, i + 1, spec_scan_checked_step(stmts, i, st))
    }
}

/// A scan that did not fail kept both sections within the limit.
pub proof fn lemma_scan_bounds(stmts: Seq<Statement>, i: int, st: AstScan)
    requires
        st.err is None ==> st.text.len() <= SECTION_LIMIT && st.data.len() <= SECTION_LIMIT,
    ensures
        spec_scan(stmts, i, st).err is None ==> spec_scan(stmts, i, st).text.len()
            <= SECTION_LIMIT && spec_scan(stmts, i, st).data.len() <= SECTION_LIMIT,
    decreases stmts.len() - i,
{
    if !(i < 0 || i >= stmts.len() || st.err is Some) {
        lemma_scan_bounds(stmts, i + 1, spec_scan_checked_step(stmts, i, st));
    }
}

/// Offset of statement `idx` within the emitted `.text` bytes: the sum
/// of the machine-code lengths of all preceding instruction statements.
pub open spec fn spec_instr_offset(stmts: Seq<Statement>, idx: int) -> int
    decreases idx,
{
    if idx <= 0 {
        0
    } else {
        spec_instr_offset(stmts, idx - 1) + (match stmts[idx - 1] {
            Statement::Instruction(ins) => ins.machine_code@.len() as int,
            _ => 0,
        })
    }
}

pub proof fn lemma_instr_offset_nonneg(stmts: Seq<Statement>, idx: int)
    ensures
        spec_instr_offset(stmts, idx) >= 0,
    decreases idx,
{
    if idx > 0 {
        lemma_instr_offset_nonneg(stmts, idx - 1);
    }
}

/// The label of a `lea reg, label` statement, if it is one.
pub open spec fn spec_lea_label(stmt: Statement) -> Option<Seq<char>> {
    match stmt {
        Statement::Instruction(ins) => {
            if spec_lower(ins.name@) == "lea"@ && ins.operands@.len() == 2 {
                match ins.operands@[1] {
                    Operand::Label(l) => Some(l@),
                    _ => None,
                }
            } else {
                None
            }
        },
        _ => None,
    }
}

/// The offset, held below the section limit: a template past the limit
/// can never lie inside an emitted section, so the exact sum no longer
/// matters.
pub open spec fn spec_instr_offset_clamped(stmts: Seq<Statement>, idx: int) -> int {
    if spec_instr_offset(stmts, idx) <= SECTION_LIMIT {
        spec_instr_offset(stmts, idx)
    } else {
        SECTION_LIMIT + 1
    }
}

/// Every `lea reg, label` with its `.text` offset, in statement order.
pub open spec fn spec_lea_list(stmts: Seq<Statement>, i: int) -> Seq<(int, Seq<char>)>
    decreases stmts.len() - i,
{
    if i < 0 || i >= stmts.len() {
        Seq::empty()
    } else {
        (match spec_lea_label(stmts[i]) {
            Some(l) => seq![(spec_instr_offset_clamped(stmts, i), l)],
            None => Seq::<(int, Seq<char>)>::empty(),
        }) + spec_lea_list(stmts, i + 1)
    }
}

/// The RIP-relative displacement `target - rip` as a 32-bit
/// two's-complement value.
pub open spec fn spec_disp(target: u64, rip: u64) -> u32 {
    if target >= rip {
        ((target - rip) as int % 0x100000000) as u32
    } else {
        let m = (rip - target) as int % 0x100000000;
        if m == 0 {
            0u32
        } else {
            (0x100000000 - m) as u32
        }
    }
}

/// Applies the displacement patches in order: for each `lea` at offset
/// `off` targeting label `l`, the four bytes at `off + 3` become the
/// little-endian two's-complement of `address(l) - (text_base + off + 7)`.
/// A missing label or an out-of-range template aborts.
pub open spec fn spec_apply_patches(
    text: Seq<u8>,
    labels: Map<Seq<char>, u64>,
    list: Seq<(int, Seq<char>)>,
    i: int,
) -> Result<Seq<u8>, ElfError>
    decreases list.len() - i,
{
    if i < 0 || i >= list.len() {
        Ok(text)
    } else {
        let off = list[i].0;
        let l = list[i].1;
        if !labels.dom().contains(l) {
            Err(ElfError::UndefinedLeaTarget)
        } else if off + 7 <= text.len() && 0 <= off {
            let target = labels[l];
            let rip = (TEXT_ADDRESS + off + 7) as u64;
            spec_apply_patches(
                spec_overwrite(text, off + 3, spec_le32(spec_disp(target, rip))),
                labels,
                list,
                i + 1,
            )
        } else {
            Err(ElfError::LeaPatchOutOfBounds)
        }
    }
}

/// The fixed 64-byte ELF64 header: magic, 64-bit little-endian System V
/// identification, ET_EXEC for x86-64, entry point, program headers
/// right after the header, no section headers.
pub open spec fn spec_elf_header_bytes(entry: u64) -> Seq<u8> {
    seq![0x7Fu8, 0x45u8, 0x4Cu8, 0x46u8, 2u8, 1u8, 1u8, 0u8]
        + seq![0u8, 0u8, 0u8, 0u8, 0u8, 0u8, 0u8, 0u8]  // rest of e_ident
        + spec_le16(2)  // e_type = ET_EXEC
        + spec_le16(62)  // e_machine = EM_X86_64
        + spec_le32(1)  // e_version
        + spec_le64(entry)  // e_entry
        + spec_le64(64)  // e_phoff
        + spec_le64(0)  // e_shoff
        + spec_le32(0)  // e_flags
        + spec_le16(64)  // e_ehsize
        + spec_le16(56)  // e_phentsize
        + spec_le16(2)  // e_phnum
        + spec_le16(0)  // e_shentsize
        + spec_le16(0)  // e_shnum
        + spec_le16(0)  // e_shstrndx
}

/// One 56-byte PT_LOAD program header; physical address mirrors the
/// virtual one and alignment is the page size.
pub open spec fn spec_program_header_bytes(
    flags: u32,
    offset: u64,
    vaddr: u64,
    filesz: u64,
    memsz: u64,
) -> Seq<u8> {
    spec_le32(1)  // p_type = PT_LOAD
        + spec_le32(flags) + spec_le64(offset) + spec_le64(vaddr) + spec_le64(vaddr) + spec_le64(
        filesz,
    ) + spec_le64(memsz) + spec_le64(PAGE_SIZE)
}

/// `value` rounded up to a multiple of `align`.
pub open spec fn spec_round_up(value: int, align: int) -> int {
    if value % align == 0 {
        value
    } else {
        value + align - value % align
    }
}

/// The whole file image: header, two program headers, zero padding up to
/// the page-aligned `.text` offset, the patched `.text` bytes padded to a
/// page multiple, then the `.data` bytes padded likewise.
pub open spec fn spec_image(text: Seq<u8>, data: Seq<u8>, entry: u64) -> Seq<u8> {
    let text_memsz = spec_round_up(text.len() as int, PAGE_SIZE as int);
    let data_memsz = spec_round_up(data.len() as int, PAGE_SIZE as int);
    spec_elf_header_bytes(entry) + spec_program_header_bytes(
        5,  // R + X
        0x1000,
        TEXT_ADDRESS,
        text.len() as u64,
        text_memsz as u64,
    ) + spec_program_header_bytes(
        6,  // R + W
        (0x1000 + text_memsz) as u64,
        DATA_ADDRESS,
        data.len() as u64,
        data_memsz as u64,
    ) + spec_zeros(0x1000 - 176) + text + spec_zeros(text_memsz - text.len()) + data + spec_zeros(
        data_memsz - data.len(),
    )
}


/// Patching preserves the length of the text bytes.
pub proof fn lemma_apply_patches_len(
    text: Seq<u8>,
    labels: Map<Seq<char>, u64>,
    list: Seq<(int, Seq<char>)>,
    i: int,
)
    ensures
        spec_apply_patches(text, labels, list, i) matches Ok(t) ==> t.len() == text.len(),
    decreases list.len() - i,
{
    if !(i < 0 || i >= list.len()) {
        let off = list[i].0;
        let l = list[i].1;
        if labels.dom().contains(l) && off + 7 <= text.len() && 0 <= off {
            let target = labels[l];
            let rip = (TEXT_ADDRESS + off + 7) as u64;
            let patched = spec_overwrite(text, off + 3, spec_le32(spec_disp(target, rip)));
            assert(patched.len() == text.len());
            lemma_apply_patches_len(patched, labels, list, i + 1);
        }
    }
}

/// Appends the little-endian bytes of a 16-bit value.
fn push_le16(out: &mut Vec<u8>, x: u16)
    ensures
        final(out)@ == old(out)@ + spec_le16(x),
{
    let ghost before = out@;
    out.push((x % 0x100) as u8);
    out.push((x / 0x100) as u8);
    proof {
        assert(out@ =~= before + spec_le16(x));
    }
}

/// Appends the little-endian bytes of a 32-bit value.
fn push_le32(out: &mut Vec<u8>, x: u32)
    ensures
        final(out)@ == old(out)@ + spec_le32(x),
{
    let ghost before = out@;
    out.push((x % 0x100) as u8);
    out.push(((x / 0x100) % 0x100) as u8);
    out.push(((x / 0x10000) % 0x100) as u8);
    out.push(((x / 0x1000000) % 0x100) as u8);
    proof {
        assert(out@ =~= before + spec_le32(x));
    }
}

/// Appends the little-endian bytes of a 64-bit value.
fn push_le64(out: &mut Vec<u8>, x: u64)
    ensures
        final(out)@ == old(out)@ + spec_le64(x),
{
    let ghost before = out@;
    out.push((x % 0x100) as u8);
    out.push(((x / 0x100) % 0x100) as u8);
    out.push(((x / 0x10000) % 0x100) as u8);
    out.push(((x / 0x1000000) % 0x100) as u8);
    out.push(((x / 0x100000000) % 0x100) as u8);
    out.push(((x / 0x10000000000) % 0x100) as u8);
    out.push(((x / 0x1000000000000) % 0x100) as u8);
    out.push(((x / 0x100000000000000) % 0x100) as u8);
    proof {
        assert(out@ =~= before + spec_le64(x));
    }
}

/// Appends `n` zero bytes.
fn push_zeros(out: &mut Vec<u8>, n: usize)
    ensures
        final(out)@ == old(out)@ + spec_zeros(n as int),
{
    let ghost before = out@;
    let mut k: usize = 0;
    while k < n
        invariant
            k <= n,
            out@ == before + spec_zeros(k as int),
        decreases n - k,
    {
        out.push(0);
        k = k + 1;
        proof {
            assert(out@ =~= before + spec_zeros(k as int));
        }
    }
}

/// Appends a copy of `src`.
fn append_bytes(out: &mut Vec<u8>, src: &Vec<u8>)
    ensures
        final(out)@ == old(out)@ + src@,
{
    let ghost before = out@;
    let mut k: usize = 0;
    while k < src.len()
        invariant
            k <= src@.len(),
            out@ == before + src@.take(k as int),
        decreases src.len() - k,
    {
        out.push(src[k]);
        k = k + 1;
        proof {
            assert(out@ =~= before + src@.take(k as int));
        }
    }
    proof {
        assert(src@.take(src@.len() as int) =~= src@);
    }
}

/// Overwrites `b@.len()` bytes of `v` starting at `at`.
fn overwrite_bytes(v: &mut Vec<u8>, at: usize, b: &Vec<u8>)
    requires
        at + b@.len() <= old(v)@.len(),
    ensures
        final(v)@ == spec_overwrite(old(v)@, at as int, b@),
{
    let ghost before = v@;
    let total = v.len();
    let mut k: usize = 0;
    while k < b.len()
        invariant
            k <= b@.len(),
            at + b@.len() <= before.len(),
            v@.len() == total,
            total == before.len(),
            v@ == before.take(at as int) + b@.take(k as int) + before.skip(at as int + k),
        decreases b.len() - k,
    {
        proof {
            assert(before.take(at as int) =~= v@.take(at as int));
        }
        let idx = at + k;
        v[idx] = b[k];
        k = k + 1;
        proof {
            assert(v@ =~= before.take(at as int) + b@.take(k as int) + before.skip(at as int + k));
        }
    }
    proof {
        assert(b@.take(b@.len() as int) =~= b@);
    }
}

/// The displacement as the processor reads it: `target - rip` in 32-bit
/// two's complement.
fn disp32(target: u64, rip: u64) -> (d: u32)
    ensures
        d == spec_disp(target, rip),
{
    if target >= rip {
        ((target - rip) % 0x100000000) as u32
    } else {
        let m = (rip - target) % 0x100000000;
        if m == 0 {
            0
        } else {
            (0x100000000u64 - m) as u32
        }
    }
}

/// `value` rounded up to a multiple of `align`.
fn round_up(value: u64, align: u64) -> (r: u64)
    requires
        align > 0,
        value + align <= u64::MAX,
    ensures
        r as int == spec_round_up(value as int, align as int),
{
    if value % align == 0 {
        value
    } else {
        value + align - value % align
    }
}

/// Appends the bytes of one data directive to the `.data` buffer:
/// numerics truncated to the directive's width, little-endian; strings
/// as UTF-8 plus one trailing NUL, whether or not the source already
/// ended with a terminator.
fn process_data_directive(data: &mut Vec<u8>, dir_name: &Vec<char>, operands: &Vec<Operand>) -> (r:
    Result<(), ElfError>)
    ensures
        match spec_data_dir(dir_name@, operands@, 0) {
            Ok(b) => r is Ok && final(data)@ == old(data)@ + b,
            Err(e) => r == Err::<(), ElfError>(e),
        },
{
    let ghost before = data@;
    let mut j: usize = 0;
    proof {
        assert(before + Seq::<u8>::empty() =~= before);
    }
    loop
        invariant
            j <= operands@.len(),
            ({
                let full = spec_data_dir(dir_name@, operands@, 0);
                let tail = spec_data_dir(dir_name@, operands@, j as int);
                &&& (tail matches Ok(rest) ==> full is Ok && data@ + rest == before + full->Ok_0)
                &&& (tail is Err ==> full == tail)
            }),
        ensures
            j == operands@.len(),
            spec_data_dir(dir_name@, operands@, 0) matches Ok(b) ==> data@ == before + b,
        decreases operands@.len() - j,
    {
        if j >= operands.len() {
            proof {
                let full = spec_data_dir(dir_name@, operands@, 0);
                if full is Ok {
                    assert(data@ + Seq::<u8>::empty() =~= data@);
                }
            }
            break;
        }
        let ghost snap = data@;
        match &operands[j] {
            Operand::Immediate(val) => {
                match parse_number(val) {
                    Some(num) => {
                        if str_eq(dir_name, "db") {
                            data.push((num % 0x100) as u8);
                            proof {
                                assert(data@ =~= snap + seq![(num as int % 0x100) as u8]);
                            }
                        } else if str_eq(dir_name, "dw") {
                            push_le16(data, (num % 0x10000) as u16);
                        } else if str_eq(dir_name, "dd") {
                            push_le32(data, (num % 0x100000000) as u32);
                        } else if str_eq(dir_name, "dq") {
                            push_le64(data, num);
                        } else {
                            return Err(ElfError::UnknownDataDirective);
                        }
                    },
                    None => {
                        return Err(ElfError::InvalidNumber);
                    },
                }
            },
            Operand::String(s) => {
                let mut b = utf8_bytes(s);
                data.append(&mut b);
                data.push(0);
                proof {
                    assert(data@ =~= snap + (spec_utf8(s@) + seq![0u8]));
                }
            },
            _ => {
                return Err(ElfError::UnsupportedDataOperand);
            },
        }
        proof {
            let tail = spec_data_dir(dir_name@, operands@, j as int);
            let next = spec_data_dir(dir_name@, operands@, j + 1);
            if next is Ok {
                let rest = next->Ok_0;
                let here = spec_data_value(dir_name@, operands@[j as int])->Ok_0;
                assert(tail is Ok && tail->Ok_0 == here + rest);
                assert(data@ == snap + here);
                assert(snap + (here + rest) =~= (snap + here) + rest);
            }
        }
        j = j + 1;
    }
    Ok(())
}

/// Images of the collected `lea` patch sites.
pub open spec fn lea_views(s: Seq<(usize, Vec<char>)>) -> Seq<(int, Seq<char>)> {
    s.map_values(|e: (usize, Vec<char>)| (e.0 as int, e.1@))
}

/// Builds one ELF64 executable image from a parsed program.
pub struct ElfGenerator {
    pub text_address: u64,
    pub data_address: u64,
    pub entry_point: u64,
    pub program: Program,
    pub labels: NameMap<u64>,
    pub text_section: Vec<u8>,
    pub data_section: Vec<u8>,
    pub encoder: MachineCodeEncoder,
    /// The label a failed `lea` relocation named, for diagnostics.
    pub failed_label: Option<Vec<char>>,
}

impl ElfGenerator {
    /// True of a generator that has not emitted yet.
    pub open spec fn fresh(&self) -> bool {
        &&& self.text_address == TEXT_ADDRESS
        &&& self.data_address == DATA_ADDRESS
        &&& self.entry_point == 0
        &&& self.labels@ == Seq::<(Seq<char>, u64)>::empty()
        &&& self.labels.wf()
        &&& self.text_section@ == Seq::<u8>::empty()
        &&& self.data_section@ == Seq::<u8>::empty()
        &&& self.failed_label is None
    }

    pub fn new(program: Program) -> (g: Self)
        ensures
            g.fresh(),
            g.program == program,
    {
        Self {
            text_address: TEXT_ADDRESS,
            data_address: DATA_ADDRESS,
            entry_point: 0,
            program,
            labels: NameMap::new(),
            text_section: Vec::new(),
            data_section: Vec::new(),
            encoder: MachineCodeEncoder::new(),
            failed_label: None,
        }
    }

    /// The fixed 64-byte ELF header with the current entry point.
    fn create_elf_header(&self) -> (r: Vec<u8>)
        ensures
            r@ == spec_elf_header_bytes(self.entry_point),
    {
        let mut out: Vec<u8> = Vec::new();
        out.push(0x7F);
        out.push(0x45);
        out.push(0x4C);
        out.push(0x46);
        out.push(2);
        out.push(1);
        out.push(1);
        out.push(0);
        let mut k: usize = 0;
        while k < 8
            invariant
                k <= 8,
                out@.len() == 8 + k,
                out@.take(8) == seq![0x7Fu8, 0x45u8, 0x4Cu8, 0x46u8, 2u8, 1u8, 1u8, 0u8],
                forall|j: int| 8 <= j < out@.len() ==> out@[j] == 0u8,
            decreases 8 - k,
        {
            out.push(0);
            k = k + 1;
            proof {
                assert(out@.take(8) =~= seq![0x7Fu8, 0x45u8, 0x4Cu8, 0x46u8, 2u8, 1u8, 1u8, 0u8]);
            }
        }
        push_le16(&mut out, 2);
        push_le16(&mut out, 62);
        push_le32(&mut out, 1);
        push_le64(&mut out, self.entry_point);
        push_le64(&mut out, 64);
        push_le64(&mut out, 0);
        push_le32(&mut out, 0);
        push_le16(&mut out, 64);
        push_le16(&mut out, 56);
        push_le16(&mut out, 2);
        push_le16(&mut out, 0);
        push_le16(&mut out, 0);
        push_le16(&mut out, 0);
        proof {
            assert(out@ =~= spec_elf_header_bytes(self.entry_point));
        }
        out
    }

    /// One 56-byte PT_LOAD program header.
    fn program_header(flags: u32, offset: u64, vaddr: u64, filesz: u64, memsz: u64) -> (r: Vec<u8>)
        ensures
            r@ == spec_program_header_bytes(flags, offset, vaddr, filesz, memsz),
    {
        let mut out: Vec<u8> = Vec::new();
        push_le32(&mut out, 1);
        push_le32(&mut out, flags);
        push_le64(&mut out, offset);
        push_le64(&mut out, vaddr);
        push_le64(&mut out, vaddr);
        push_le64(&mut out, filesz);
        push_le64(&mut out, memsz);
        push_le64(&mut out, PAGE_SIZE);
        proof {
            assert(out@ =~= spec_program_header_bytes(flags, offset, vaddr, filesz, memsz));
        }
        out
    }

    /// `.text` offset of statement `idx`: the sum of the machine-code
    /// lengths of the preceding instruction statements, held below the
    /// section limit.
    fn instruction_offset(&self, idx: usize) -> (off: usize)
        requires
            idx <= self.program.statements@.len(),
        ensures
            off as int == spec_instr_offset_clamped(self.program.statements@, idx as int),
    {
        let ghost stmts = self.program.statements@;
        let mut offset: usize = 0;
        let mut i: usize = 0;
        while i < idx
            invariant
                i <= idx <= stmts.len(),
                stmts == self.program.statements@,
                offset as int == spec_instr_offset_clamped(stmts, i as int),
                offset <= SECTION_LIMIT + 1,
            decreases idx - i,
        {
            proof {
                lemma_instr_offset_nonneg(stmts, i as int);
            }
            match &self.program.statements[i] {
                Statement::Instruction(instr) => {
                    let len = instr.machine_code.len();
                    if offset <= SECTION_LIMIT {
                        if len > SECTION_LIMIT + 1 - offset {
                            offset = SECTION_LIMIT + 1;
                        } else {
                            offset = offset + len;
                        }
                    }
                },
                _ => {},
            }
            i = i + 1;
        }
        offset
    }

    /// Collects every `lea reg, label` with its `.text` offset and
    /// overwrites each template's displacement field with the
    /// little-endian 32-bit two's-complement of
    /// `target_address - (text_base + offset + 7)`.
    #[verifier::rlimit(80)]
    fn patch_relocations(&mut self) -> (r: Result<(), ElfError>)
        requires
            old(self).labels.wf(),
            old(self).text_section@.len() <= SECTION_LIMIT,
        ensures
            final(self).program == old(self).program,
            final(self).labels == old(self).labels,
            final(self).data_section == old(self).data_section,
            final(self).entry_point == old(self).entry_point,
            final(self).text_address == old(self).text_address,
            final(self).data_address == old(self).data_address,
            ({
                let patched = spec_apply_patches(
                    old(self).text_section@,
                    spec_map_of(old(self).labels@),
                    spec_lea_list(old(self).program.statements@, 0),
                    0,
                );
                match r {
                    Ok(u) => patched == Ok::<Seq<u8>, ElfError>(final(self).text_section@),
                    Err(e) => patched == Err::<Seq<u8>, ElfError>(e),
                }
            }),
            // A failed relocation names its label.
            r == Err::<(), ElfError>(ElfError::UndefinedLeaTarget) ==> ({
                let fl = final(self).failed_label;
                &&& fl matches Some(l) && map_opt(spec_map_of(old(self).labels@), l@) is None
                &&& exists|x: int|
                    0 <= x < spec_lea_list(old(self).program.statements@, 0).len() && (
                    #[trigger] spec_lea_list(old(self).program.statements@, 0)[x]).1
                        == fl->Some_0@
            }),
    {
        let ghost stmts = self.program.statements@;
        let ghost full_list = spec_lea_list(stmts, 0);
        let mut lea_list: Vec<(usize, Vec<char>)> = Vec::new();
        let mut idx: usize = 0;
        proof {
            assert(lea_views(lea_list@) + spec_lea_list(stmts, 0) =~= full_list);
        }
        while idx < self.program.statements.len()
            invariant
                idx <= stmts.len(),
                stmts == self.program.statements@,
                self.program == old(self).program,
                self.labels == old(self).labels,
                self.text_section == old(self).text_section,
                self.data_section == old(self).data_section,
                self.entry_point == old(self).entry_point,
                self.text_address == old(self).text_address,
                self.data_address == old(self).data_address,
                lea_views(lea_list@) + spec_lea_list(stmts, idx as int) == full_list,
                forall|k: int|
                    0 <= k < lea_list@.len() ==> (#[trigger] lea_list@[k]).0 <= SECTION_LIMIT + 1,
            decreases stmts.len() - idx,
        {
            let ghost acc = lea_views(lea_list@);
            match &self.program.statements[idx] {
                Statement::Instruction(ins) => {
                    let lname = crate::chars::lower(&ins.name);
                    if str_eq(&lname, "lea") && ins.operands.len() == 2 {
                        match &ins.operands[1] {
                            Operand::Label(l) => {
                                let off = self.instruction_offset(idx);
                                lea_list.push((off, copy_chars(l)));
                                proof {
                                    assert(spec_lea_label(stmts[idx as int]) == Some(l@));
                                    assert(lea_views(lea_list@) =~= acc.push(
                                        (off as int, l@),
                                    ));
                                    assert(acc.push((off as int, l@)) + spec_lea_list(
                                        stmts,
                                        idx + 1,
                                    ) =~= acc + (seq![(off as int, l@)] + spec_lea_list(
                                        stmts,
                                        idx + 1,
                                    )));
                                }
                            },
                            _ => {
                                proof {
                                    assert(spec_lea_label(stmts[idx as int]) is None);
                                    assert(Seq::<(int, Seq<char>)>::empty() + spec_lea_list(
                                        stmts,
                                        idx + 1,
                                    ) =~= spec_lea_list(stmts, idx + 1));
                                }
                            },
                        }
                    } else {
                        proof {
                            assert(spec_lea_label(stmts[idx as int]) is None);
                            assert(Seq::<(int, Seq<char>)>::empty() + spec_lea_list(
                                stmts,
                                idx + 1,
                            ) =~= spec_lea_list(stmts, idx + 1));
                        }
                    }
                },
                _ => {
                    proof {
                        assert(spec_lea_label(stmts[idx as int]) is None);
                        assert(Seq::<(int, Seq<char>)>::empty() + spec_lea_list(stmts, idx + 1)
                            =~= spec_lea_list(stmts, idx + 1));
                    }
                },
            }
            idx = idx + 1;
        }
        proof {
            assert(spec_lea_list(stmts, stmts.len() as int) =~= Seq::<(int, Seq<char>)>::empty());
            assert(lea_views(lea_list@) + Seq::<(int, Seq<char>)>::empty() =~= lea_views(
                lea_list@,
            ));
        }
        // Apply the patches in order.
        let ghost labels_map = spec_map_of(self.labels@);
        let ghost text0 = self.text_section@;
        let mut j: usize = 0;
        while j < lea_list.len()
            invariant
                j <= lea_list@.len(),
                lea_views(lea_list@) == full_list,
                self.program == old(self).program,
                self.labels == old(self).labels,
                self.data_section == old(self).data_section,
                self.entry_point == old(self).entry_point,
                self.text_address == old(self).text_address,
                self.data_address == old(self).data_address,
                self.text_section@.len() == text0.len(),
                text0.len() <= SECTION_LIMIT,
                full_list == spec_lea_list(old(self).program.statements@, 0),
                forall|k: int|
                    0 <= k < lea_list@.len() ==> (#[trigger] lea_list@[k]).0 <= SECTION_LIMIT + 1,
                text0 == old(self).text_section@,
                labels_map == spec_map_of(self.labels@),
                spec_apply_patches(text0, labels_map, full_list, 0) == spec_apply_patches(
                    self.text_section@,
                    labels_map,
                    full_list,
                    j as int,
                ),
            decreases lea_list@.len() - j,
        {
            let off = lea_list[j].0;
            let ghost l = lea_list@[j as int].1@;
            proof {
                assert(full_list[j as int] == (off as int, l));
            }
            let target: u64 = match self.labels.get(&lea_list[j].1) {
                Some(t) => *t,
                None => {
                    proof {
                        assert(!labels_map.dom().contains(l));
                        assert(spec_apply_patches(
                            self.text_section@,
                            labels_map,
                            full_list,
                            j as int,
                        ) == Err::<Seq<u8>, ElfError>(ElfError::UndefinedLeaTarget));
                    }
                    self.failed_label = Some(copy_chars(&lea_list[j].1));
                    proof {
                        assert(full_list[j as int].1 == l);
                    }
                    return Err(ElfError::UndefinedLeaTarget);
                },
            };
            proof {
                assert(labels_map.dom().contains(l) && labels_map[l] == target);
            }
            if off + 7 <= self.text_section.len() {
                let rip: u64 = TEXT_ADDRESS + off as u64 + 7;
                let d = disp32(target, rip);
                let mut bytes: Vec<u8> = Vec::new();
                push_le32(&mut bytes, d);
                let ghost before_patch = self.text_section@;
                overwrite_bytes(&mut self.text_section, off + 3, &bytes);
                proof {
                    assert(Seq::<u8>::empty() + spec_le32(d) =~= spec_le32(d));
                    assert(self.text_section@ == spec_overwrite(
                        before_patch,
                        off + 3,
                        spec_le32(spec_disp(target, rip)),
                    ));
                }
            } else {
                return Err(ElfError::LeaPatchOutOfBounds);
            }
            j = j + 1;
        }
        Ok(())
    }

    /// Walks the statements once: lays out `.text` and `.data`, records
    /// real label addresses and the `_start` entry point, then patches
    /// the `lea` relocations. The whole effect is `spec_scan` followed by
    /// `spec_apply_patches`.
    #[verifier::rlimit(100)]
    fn process_ast(&mut self) -> (r: Result<(), ElfError>)
        requires
            old(self).fresh(),
        ensures
            final(self).program == old(self).program,
            final(self).labels.wf(),
            ({
                let scan = spec_scan(old(self).program.statements@, 0, spec_scan_init());
                let patched = spec_apply_patches(
                    scan.text,
                    scan.labels,
                    spec_lea_list(old(self).program.statements@, 0),
                    0,
                );
                match r {
                    Ok(u) => {
                        &&& scan.err is None
                        &&& patched == Ok::<Seq<u8>, ElfError>(final(self).text_section@)
                        &&& final(self).data_section@ == scan.data
                        &&& spec_map_of(final(self).labels@) == scan.labels
                        &&& final(self).entry_point == scan.entry
                        &&& final(self).text_section@.len() <= SECTION_LIMIT
                        &&& final(self).data_section@.len() <= SECTION_LIMIT
                    },
                    Err(e) => scan.err == Some(e) || (scan.err is None && patched == Err::<
                        Seq<u8>,
                        ElfError,
                    >(e)),
                }
            }),
            ({
                let scan = spec_scan(old(self).program.statements@, 0, spec_scan_init());
                let fl = final(self).failed_label;
                scan.err is None && r == Err::<(), ElfError>(ElfError::UndefinedLeaTarget) ==> ({
                    &&& fl matches Some(l) && crate::names::map_opt(scan.labels, l@) is None
                    &&& exists|x: int|
                        0 <= x < spec_lea_list(old(self).program.statements@, 0).len() && (
                        #[trigger] spec_lea_list(old(self).program.statements@, 0)[x]).1
                            == fl->Some_0@
                })
            }),
    {
        let ghost stmts = self.program.statements@;
        let ghost full = spec_scan(stmts, 0, spec_scan_init());
        let mut current_section = crate::chars::str_to_chars(".text");
        let mut i: usize = 0;
        proof {
            crate::names::lemma_map_of_empty::<u64>();
            lemma_scan_bounds(stmts, 0, spec_scan_init());
        }
        while i < self.program.statements.len()
            invariant
                i <= stmts.len(),
                stmts == self.program.statements@,
                self.program == old(self).program,
                self.labels.wf(),
                self.text_address == TEXT_ADDRESS,
                self.data_address == DATA_ADDRESS,
                self.text_section@.len() <= SECTION_LIMIT,
                self.data_section@.len() <= SECTION_LIMIT,
                full == spec_scan(stmts, 0, spec_scan_init()),
                spec_scan(
                    stmts,
                    i as int,
                    AstScan {
                        cur: current_section@,
                        text: self.text_section@,
                        data: self.data_section@,
                        labels: spec_map_of(self.labels@),
                        entry: self.entry_point,
                        err: None,
                    },
                ) == full,
            decreases stmts.len() - i,
        {
            let ghost st_in = AstScan {
                cur: current_section@,
                text: self.text_section@,
                data: self.data_section@,
                labels: spec_map_of(self.labels@),
                entry: self.entry_point,
                err: None,
            };
            let ghost stepped = spec_scan_step(stmts, i as int, st_in);
            match &self.program.statements[i] {
                Statement::Section(sec) => {
                    current_section = copy_chars(&sec.name);
                },
                Statement::Label(l) => {
                    if str_eq(&current_section, ".text") {
                        let addr: u64 = TEXT_ADDRESS + self.text_section.len() as u64;
                        let is_start = str_eq(l, "_start");
                        let ghost labels0 = self.labels@;
                        self.labels.insert(copy_chars(l), addr);
                        proof {
                            crate::names::lemma_map_of_insert(labels0, self.labels@, l@, addr);
                        }
                        if is_start {
                            self.entry_point = addr;
                        }
                    } else if str_eq(&current_section, ".data") {
                        let addr: u64 = DATA_ADDRESS + self.data_section.len() as u64;
                        let ghost labels0 = self.labels@;
                        self.labels.insert(copy_chars(l), addr);
                        proof {
                            crate::names::lemma_map_of_insert(labels0, self.labels@, l@, addr);
                        }
                    }
                },
                Statement::Directive(dir) => {
                    if str_eq(&dir.name, "global") || str_eq(&dir.name, "extern") {
                        if dir.operands.len() == 0 {
                            proof {
                                lemma_scan_err(stmts, i as int, st_in, full);
                            }
                            return Err(ElfError::OperandNotLabel);
                        }
                        match &dir.operands[0] {
                            Operand::Label(sym) => {
                                if str_eq(&dir.name, "global") {
                                    let ghost labels0 = self.labels@;
                                    self.labels.insert(copy_chars(sym), 0);
                                    proof {
                                        crate::names::lemma_map_of_insert(
                                            labels0,
                                            self.labels@,
                                            sym@,
                                            0,
                                        );
                                    }
                                }
                            },
                            _ => {
                                proof {
                                    lemma_scan_err(stmts, i as int, st_in, full);
                                }
                                return Err(ElfError::OperandNotLabel);
                            },
                        }
                    } else if str_eq(&dir.name, "equ") {
                        if dir.operands.len() > 0 {
                            match &dir.operands[0] {
                                Operand::Immediate(val) => {
                                    match parse_number(val) {
                                        Some(value) => {
                                            if i > 0 {
                                                match &self.program.statements[i - 1] {
                                                    Statement::Label(prev) => {
                                                        let ghost labels0 = self.labels@;
                                                        self.labels.insert(
                                                            copy_chars(prev),
                                                            value,
                                                        );
                                                        proof {
                                                            crate::names::lemma_map_of_insert(
                                                                labels0,
                                                                self.labels@,
                                                                prev@,
                                                                value,
                                                            );
                                                        }
                                                    },
                                                    _ => {},
                                                }
                                            }
                                        },
                                        None => {
                                            proof {
                                                lemma_scan_err(stmts, i as int, st_in, full);
                                            }
                                            return Err(ElfError::InvalidNumber);
                                        },
                                    }
                                },
                                _ => {},
                            }
                        }
                    } else if str_eq(&dir.name, "db") || str_eq(&dir.name, "dw") || str_eq(
                        &dir.name,
                        "dd",
                    ) || str_eq(&dir.name, "dq") {
                        if !str_eq(&current_section, ".data") {
                            proof {
                                lemma_scan_err(stmts, i as int, st_in, full);
                            }
                            return Err(ElfError::DataOutsideData);
                        }
                        if i > 0 {
                            let mut prev_label: Option<Vec<char>> = None;
                            match &self.program.statements[i - 1] {
                                Statement::Label(prev) => {
                                    prev_label = Some(copy_chars(prev));
                                },
                                _ => {},
                            }
                            if let Some(prev) = prev_label {
                                let addr: u64 = DATA_ADDRESS + self.data_section.len() as u64;
                                let ghost labels0 = self.labels@;
                                let ghost prev_view = prev@;
                                self.labels.insert(prev, addr);
                                proof {
                                    crate::names::lemma_map_of_insert(
                                        labels0,
                                        self.labels@,
                                        prev_view,
                                        addr,
                                    );
                                }
                            }
                        }
                        match process_data_directive(
                            &mut self.data_section,
                            &dir.name,
                            &dir.operands,
                        ) {
                            Ok(u) => {},
                            Err(e) => {
                                proof {
                                    lemma_scan_err(stmts, i as int, st_in, full);
                                }
                                return Err(e);
                            },
                        }
                    }
                },
                Statement::Instruction(instr) => {
                    if !str_eq(&current_section, ".text") {
                        proof {
                            lemma_scan_err(stmts, i as int, st_in, full);
                        }
                        return Err(ElfError::InstructionOutsideText);
                    }
                    let mut code = self.encoder.encode(instr);
                    self.text_section.append(&mut code);
                },
                _ => {},
            }
            // Size guard: a section past the limit stops emission.
            if self.text_section.len() > SECTION_LIMIT || self.data_section.len() > SECTION_LIMIT {
                proof {
                    assert(spec_scan_checked_step(stmts, i as int, st_in).err
                        == Some(ElfError::SectionTooLarge));
                    lemma_scan_err2(stmts, i as int, st_in, full);
                }
                return Err(ElfError::SectionTooLarge);
            }
            proof {
                let st_out = AstScan {
                    cur: current_section@,
                    text: self.text_section@,
                    data: self.data_section@,
                    labels: spec_map_of(self.labels@),
                    entry: self.entry_point,
                    err: None,
                };
                assert(spec_scan_checked_step(stmts, i as int, st_in) == st_out);
            }
            i = i + 1;
        }
        proof {
            assert(full.err is None);
            assert(full.text == self.text_section@);
            assert(full.data == self.data_section@);
            assert(full.labels == spec_map_of(self.labels@));
            assert(full.entry == self.entry_point);
        }
        match self.patch_relocations() {
            Ok(u) => {
                proof {
                    lemma_apply_patches_len(
                        full.text,
                        full.labels,
                        spec_lea_list(stmts, 0),
                        0,
                    );
                }
                Ok(())
            },
            Err(e) => Err(e),
        }
    }

    /// Emits the whole ELF64 file image. On success the bytes are exactly
    /// `spec_image` of the laid-out, patched sections: magic and header
    /// fields, two PT_LOAD program headers, `.text` at offset 0x1000
    /// mapped at 0x400000, `.data` after it mapped at 0x600000, both
    /// padded to page multiples. Writing the image to disk is left to the
    /// caller.
    pub fn generate(&mut self) -> (r: Result<Vec<u8>, ElfError>)
        requires
            old(self).fresh(),
        ensures
            ({
                let scan = spec_scan(old(self).program.statements@, 0, spec_scan_init());
                let patched = spec_apply_patches(
                    scan.text,
                    scan.labels,
                    spec_lea_list(old(self).program.statements@, 0),
                    0,
                );
                match r {
                    Ok(bytes) => {
                        &&& scan.err is None
                        &&& patched is Ok
                        &&& bytes@ == spec_image(patched->Ok_0, scan.data, scan.entry)
                    },
                    Err(e) => scan.err == Some(e) || (scan.err is None && patched == Err::<
                        Seq<u8>,
                        ElfError,
                    >(e)),
                }
            }),
            ({
                let scan = spec_scan(old(self).program.statements@, 0, spec_scan_init());
                let fl = final(self).failed_label;
                scan.err is None && r == Err::<Vec<u8>, ElfError>(
                    ElfError::UndefinedLeaTarget,
                ) ==> ({
                    &&& fl matches Some(l) && crate::names::map_opt(scan.labels, l@) is None
                    &&& exists|x: int|
                        0 <= x < spec_lea_list(old(self).program.statements@, 0).len() && (
                        #[trigger] spec_lea_list(old(self).program.statements@, 0)[x]).1
                            == fl->Some_0@
                })
            }),
    {
        match self.process_ast() {
            Ok(u) => {},
            Err(e) => {
                return Err(e);
            },
        }
        let text_filesz: u64 = self.text_section.len() as u64;
        let text_memsz: u64 = round_up(text_filesz, PAGE_SIZE);
        let data_filesz: u64 = self.data_section.len() as u64;
        let data_memsz: u64 = round_up(data_filesz, PAGE_SIZE);

        let mut out = self.create_elf_header();
        let mut ph_text = Self::program_header(5, 0x1000, TEXT_ADDRESS, text_filesz, text_memsz);
        out.append(&mut ph_text);
        let mut ph_data = Self::program_header(
            6,
            0x1000 + text_memsz,
            DATA_ADDRESS,
            data_filesz,
            data_memsz,
        );
        out.append(&mut ph_data);
        push_zeros(&mut out, 0x1000 - 176);
        append_bytes(&mut out, &self.text_section);
        push_zeros(&mut out, (text_memsz - text_filesz) as usize);
        append_bytes(&mut out, &self.data_section);
        push_zeros(&mut out, (data_memsz - data_filesz) as usize);
        proof {
            assert(out@ =~= spec_image(
                self.text_section@,
                self.data_section@,
                self.entry_point,
            ));
        }
        Ok(out)
    }
}

/// A step that errs ends the whole scan with that error.
pub proof fn lemma_scan_err(stmts: Seq<Statement>, i: int, st: AstScan, full: AstScan)
    requires
        0 <= i < stmts.len(),
        st.err is None,
        spec_scan(stmts, i, st) == full,
        spec_scan_step(stmts, i, st).err is Some,
    ensures
        full.err == spec_scan_step(stmts, i, st).err,
    decreases stmts.len() - i,
{
    let st1 = spec_scan_checked_step(stmts, i, st);
    assert(st1.err == spec_scan_step(stmts, i, st).err);
    lemma_scan_stuck(stmts, i + 1, st1);
}

/// Same, for the size guard after a clean step.
pub proof fn lemma_scan_err2(stmts: Seq<Statement>, i: int, st: AstScan, full: AstScan)
    requires
        0 <= i < stmts.len(),
        st.err is None,
        spec_scan(stmts, i, st) == full,
        spec_scan_checked_step(stmts, i, st).err is Some,
    ensures
        full.err == spec_scan_checked_step(stmts, i, st).err,
{
    lemma_scan_stuck(stmts, i + 1, spec_scan_checked_step(stmts, i, st));
}

/// A scan in an error state stays put.
pub proof fn lemma_scan_stuck(stmts: Seq<Statement>, i: int, st: AstScan)
    requires
        st.err is Some,
    ensures
        spec_scan(stmts, i, st) == st,
    decreases stmts.len() - i,
{
}


/// Sum of the encoding lengths of the instruction statements from `i`.
pub open spec fn spec_instr_len_sum(stmts: Seq<Statement>, i: int) -> int
    decreases stmts.len() - i,
{
    if i < 0 || i >= stmts.len() {
        0
    } else {
        (match stmts[i] {
            Statement::Instruction(ins) => spec_encode(ins).len() as int,
            _ => 0,
        }) + spec_instr_len_sum(stmts, i + 1)
    }
}

proof fn lemma_text_len_step(stmts: Seq<Statement>, i: int, st: AstScan)
    requires
        st.err is None,
    ensures
        ({
            let sc = spec_scan(stmts, i, st);
            sc.err is None ==> sc.text.len() == st.text.len() + spec_instr_len_sum(stmts, i)
        }),
    decreases stmts.len() - i,
{
    if 0 <= i < stmts.len() {
        let st1 = spec_scan_checked_step(stmts, i, st);
        if st1.err is None {
            lemma_text_len_step(stmts, i + 1, st1);
        } else {
            lemma_scan_stuck(stmts, i + 1, st1);
        }
    }
}

/// For any program that lays out cleanly, the `.text` length equals the
/// sum of each instruction's encoding length.
pub proof fn lemma_text_length_is_encoding_sum(stmts: Seq<Statement>)
    ensures
        ({
            let sc = spec_scan(stmts, 0, spec_scan_init());
            sc.err is None ==> sc.text.len() == spec_instr_len_sum(stmts, 0)
        }),
{
    lemma_text_len_step(stmts, 0, spec_scan_init());
}

/// Every emitted image begins with the ELF magic `7F 45 4C 46` and
/// records ET_EXEC, EM_X86_64 and exactly two program headers, whatever
/// the program was.
#[verifier::rlimit(60)]
pub proof fn lemma_image_header_fields(text: Seq<u8>, data: Seq<u8>, entry: u64)
    ensures
        ({
            let img = spec_image(text, data, entry);
            &&& img.len() >= 0x1000
            &&& img[0] == 0x7F && img[1] == 0x45 && img[2] == 0x4C && img[3] == 0x46
            &&& img[16] == 2 && img[17] == 0
            &&& img[18] == 62 && img[19] == 0
            &&& img[56] == 2 && img[57] == 0
        }),
{
    let img = spec_image(text, data, entry);
    let hdr = spec_elf_header_bytes(entry);
    assert(hdr.len() == 64);
    assert(spec_round_up(text.len() as int, PAGE_SIZE as int) >= 0);
    assert(spec_round_up(data.len() as int, PAGE_SIZE as int) >= 0);
    assert forall|k: int| 0 <= k < 64 implies img[k] == hdr[k] by {
        assert(spec_program_header_bytes(
            5,
            0x1000,
            TEXT_ADDRESS,
            text.len() as u64,
            spec_round_up(text.len() as int, PAGE_SIZE as int) as u64,
        ).len() == 56);
    }
    assert(hdr[0] == 0x7F && hdr[1] == 0x45 && hdr[2] == 0x4C && hdr[3] == 0x46);
    assert(hdr[16] == 2 && hdr[17] == 0);
    assert(hdr[18] == 62 && hdr[19] == 0);
    assert(hdr[56] == 2 && hdr[57] == 0);
}


/// Patch entries spaced at least a template apart never overlap.
pub open spec fn spec_lea_offsets_spaced(list: Seq<(int, Seq<char>)>) -> bool {
    forall|a: int, b: int| 0 <= a < b < list.len() ==> (#[trigger] list[a]).0 + 7 <= (#[trigger] list[b]).0
}

/// A successful patch pass leaves the bytes below every remaining
/// entry's field untouched.
proof fn lemma_apply_preserves_prefix(
    text: Seq<u8>,
    labels: Map<Seq<char>, u64>,
    list: Seq<(int, Seq<char>)>,
    i: int,
    bound: int,
)
    requires
        0 <= bound <= text.len(),
        forall|j: int| i <= j < list.len() ==> (#[trigger] list[j]).0 + 3 >= bound,
    ensures
        spec_apply_patches(text, labels, list, i) matches Ok(t) ==> t.take(bound) == text.take(
            bound,
        ),
    decreases list.len() - i,
{
    if !(i < 0 || i >= list.len()) {
        let off = list[i].0;
        let l = list[i].1;
        if labels.dom().contains(l) && off + 7 <= text.len() && 0 <= off {
            let target = labels[l];
            let rip = (TEXT_ADDRESS + off + 7) as u64;
            let patched = spec_overwrite(text, off + 3, spec_le32(spec_disp(target, rip)));
            assert(patched.len() == text.len());
            assert(patched.take(bound) =~= text.take(bound));
            lemma_apply_preserves_prefix(patched, labels, list, i + 1, bound);
        }
    }
}

/// For every `lea reg, label` entry, the four bytes at its template
/// offset + 3 in the final text equal the little-endian 32-bit
/// two's-complement of `label_address − (text_base + offset + 7)` —
/// provided the entries are spaced a template apart, as consecutive
/// seven-byte `lea` encodings are.
pub proof fn lemma_patched_fields(
    text: Seq<u8>,
    labels: Map<Seq<char>, u64>,
    list: Seq<(int, Seq<char>)>,
    i: int,
)
    requires
        spec_lea_offsets_spaced(list),
        0 <= i,
    ensures
        spec_apply_patches(text, labels, list, i) matches Ok(t) ==> ({
            &&& t.len() == text.len()
            &&& forall|j: int|
                #![trigger list[j]]
                i <= j < list.len() ==> ({
                    let off = list[j].0;
                    &&& labels.dom().contains(list[j].1)
                    &&& 0 <= off && off + 7 <= t.len()
                    &&& t.subrange(off + 3, off + 7) == spec_le32(
                        spec_disp(labels[list[j].1], (TEXT_ADDRESS + off + 7) as u64),
                    )
                })
        }),
    decreases list.len() - i,
{
    lemma_apply_patches_len(text, labels, list, i);
    if !(i < 0 || i >= list.len()) {
        let off = list[i].0;
        let l = list[i].1;
        if labels.dom().contains(l) && off + 7 <= text.len() && 0 <= off {
            let target = labels[l];
            let rip = (TEXT_ADDRESS + off + 7) as u64;
            let bytes = spec_le32(spec_disp(target, rip));
            let patched = spec_overwrite(text, off + 3, bytes);
            assert(patched.len() == text.len());
            lemma_patched_fields(patched, labels, list, i + 1);
            match spec_apply_patches(patched, labels, list, i + 1) {
                Ok(t) => {
                    assert forall|j: int| i + 1 <= j < list.len() implies (#[trigger] list[j]).0
                        + 3 >= off + 7 by {
                        assert(list[i].0 + 7 <= list[j].0);
                    }
                    lemma_apply_preserves_prefix(patched, labels, list, i + 1, off + 7);
                    assert(t.take(off + 7) == patched.take(off + 7));
                    assert forall|k: int| 0 <= k < 4 implies t[off + 3 + k] == bytes[k] by {
                        assert(t.take(off + 7)[off + 3 + k] == t[off + 3 + k]);
                        assert(patched.take(off + 7)[off + 3 + k] == patched[off + 3 + k]);
                        assert(patched[off + 3 + k] == bytes[k]);
                    }
                    assert(t.subrange(off + 3, off + 7) =~= bytes);
                },
                Err(e) => {},
            }
        }
    }
}


/// Offsets never decrease along the statement list.
proof fn lemma_instr_offset_mono(stmts: Seq<Statement>, a: int, b: int)
    requires
        0 <= a <= b,
    ensures
        spec_instr_offset(stmts, a) <= spec_instr_offset(stmts, b),
    decreases b - a,
{
    if a < b {
        lemma_instr_offset_mono(stmts, a, b - 1);
        lemma_instr_offset_nonneg(stmts, b);
    }
}

/// Every entry of the patch list from index `k` lies at or beyond the
/// offset of statement `k`, when the whole layout stays within the limit.
proof fn lemma_lea_list_lower(stmts: Seq<Statement>, k: int)
    requires
        0 <= k,
        spec_instr_offset(stmts, stmts.len() as int) <= SECTION_LIMIT,
    ensures
        forall|x: int|
            0 <= x < spec_lea_list(stmts, k).len() ==> (#[trigger] spec_lea_list(stmts, k)[x]).0
                >= spec_instr_offset(stmts, k),
    decreases stmts.len() - k,
{
    if k < stmts.len() {
        lemma_lea_list_lower(stmts, k + 1);
        lemma_instr_offset_mono(stmts, k, k + 1);
        lemma_instr_offset_mono(stmts, k, stmts.len() as int);
        lemma_instr_offset_nonneg(stmts, k);
        let list = spec_lea_list(stmts, k);
        let tail = spec_lea_list(stmts, k + 1);
        assert forall|x: int| 0 <= x < list.len() implies (#[trigger] list[x]).0
            >= spec_instr_offset(stmts, k) by {
            match spec_lea_label(stmts[k]) {
                Some(l) => {
                    if x == 0 {
                        assert(list[0].0 == spec_instr_offset_clamped(stmts, k));
                    } else {
                        assert(list[x] == tail[x - 1]);
                    }
                },
                None => {
                    assert(list[x] == tail[x]);
                },
            }
        }
    }
}

/// The patch list of a program whose listed `lea` statements all carry
/// the seven-byte template is spaced a template apart, so no patch can
/// clobber another.
pub proof fn lemma_lea_list_spaced(stmts: Seq<Statement>, k: int)
    requires
        0 <= k,
        spec_instr_offset(stmts, stmts.len() as int) <= SECTION_LIMIT,
        forall|j: int|
            0 <= j < stmts.len() && (#[trigger] spec_lea_label(stmts[j])) is Some ==> (match stmts[
                j] {
                Statement::Instruction(ins) => ins.machine_code@.len() == 7,
                _ => false,
            }),
    ensures
        spec_lea_offsets_spaced(spec_lea_list(stmts, k)),
    decreases stmts.len() - k,
{
    if 0 <= k < stmts.len() {
        lemma_lea_list_spaced(stmts, k + 1);
        lemma_lea_list_lower(stmts, k + 1);
        lemma_instr_offset_mono(stmts, k, stmts.len() as int);
        lemma_instr_offset_mono(stmts, k + 1, stmts.len() as int);
        lemma_instr_offset_nonneg(stmts, k);
        let list = spec_lea_list(stmts, k);
        let tail = spec_lea_list(stmts, k + 1);
        assert forall|a: int, b: int| 0 <= a < b < list.len() implies (#[trigger] list[a]).0 + 7
            <= (#[trigger] list[b]).0 by {
            match spec_lea_label(stmts[k]) {
                Some(l) => {
                    assert(list[0].0 == spec_instr_offset_clamped(stmts, k));
                    if a == 0 {
                        assert(list[b] == tail[b - 1]);
                        assert(tail[b - 1].0 >= spec_instr_offset(stmts, k + 1));
                        assert(spec_instr_offset(stmts, k + 1) == spec_instr_offset(stmts, k) + 7);
                    } else {
                        assert(list[a] == tail[a - 1]);
                        assert(list[b] == tail[b - 1]);
                    }
                },
                None => {
                    assert(list[a] == tail[a]);
                    assert(list[b] == tail[b]);
                },
            }
        }
    }
}

} // verus!
