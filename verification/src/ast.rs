//! The shared intermediate representation: statements, operands, and the
//! program with its section and label tables.

use vstd::prelude::*;
use crate::names::{NameMap, spec_get};

verus! {

/// An instruction or directive operand.
#[derive(Debug)]
pub enum Operand {
    Register(Vec<char>),
    Immediate(Vec<char>),
    Memory(MemoryReference),
    Label(Vec<char>),
    String(Vec<char>),
}

/// A bracketed memory reference, `[base + index*scale + displacement]`.
#[derive(Debug)]
pub struct MemoryReference {
    pub base: Option<Vec<char>>,
    pub index: Option<Vec<char>>,
    pub scale: Option<u8>,
    pub displacement: Option<Vec<char>>,
}

/// An instruction statement; `machine_code` is filled by the encoding
/// pass and empty before it.
#[derive(Debug)]
pub struct Instruction {
    pub name: Vec<char>,
    pub operands: Vec<Operand>,
    pub machine_code: Vec<u8>,
    pub line: usize,
}

/// A directive statement, e.g. `db`, `global` or `equ`.
#[derive(Debug)]
pub struct Directive {
    pub name: Vec<char>,
    pub operands: Vec<Operand>,
    pub line: usize,
}

/// A section switch, e.g. `section .text`.
#[derive(Debug)]
pub struct Section {
    pub name: Vec<char>,
    pub line: usize,
}

/// A label definition.
#[derive(Debug)]
pub struct Label {
    pub name: Vec<char>,
    pub line: usize,
}

/// One parsed statement.
#[derive(Debug)]
pub enum Statement {
    Instruction(Instruction),
    Directive(Directive),
    Label(Vec<char>),
    Comment(Vec<char>),
    Empty,
    Section(Section),
}

/// Size and member indices of one section.
#[derive(Debug)]
pub struct SectionInfo {
    pub size: usize,
    pub statements: Vec<usize>,
}

/// Resolved position of one label.
#[derive(Debug)]
pub struct LabelInfo {
    pub offset: u64,
    pub section: Option<Vec<char>>,
}

/// A value of a data directive.
#[derive(Debug)]
pub enum DataValue {
    Number(Vec<char>),
    String(Vec<char>),
    Char(char),
    Label(Vec<char>),
}

/// The parsed program: the ordered statements plus the section and label
/// tables, populated by the parser's passes and then read-only.
#[derive(Debug)]
pub struct Program {
    pub statements: Vec<Statement>,
    pub sections: NameMap<SectionInfo>,
    pub labels: NameMap<LabelInfo>,
}

impl Program {
    pub open spec fn wf(&self) -> bool {
        self.sections.wf() && self.labels.wf()
    }

    pub fn new() -> (p: Self)
        ensures
            p.statements@ == Seq::<Statement>::empty(),
            p.sections@ == Seq::<(Seq<char>, SectionInfo)>::empty(),
            p.labels@ == Seq::<(Seq<char>, LabelInfo)>::empty(),
            p.wf(),
    {
        Program { statements: Vec::new(), sections: NameMap::new(), labels: NameMap::new() }
    }

    pub fn add_statement(&mut self, statement: Statement)
        ensures
            final(self).statements@ == old(self).statements@.push(statement),
            final(self).sections == old(self).sections,
            final(self).labels == old(self).labels,
    {
        self.statements.push(statement);
    }

    pub fn add_section(&mut self, name: Vec<char>, size: usize)
        requires
            old(self).wf(),
        ensures
            final(self).wf(),
            final(self).statements == old(self).statements,
            final(self).labels == old(self).labels,
            forall|k: Seq<char>|
                k != name@ ==> spec_get(#[trigger] final(self).sections@, k) == spec_get(
                    old(self).sections@,
                    k,
                ),
            match spec_get(final(self).sections@, name@) {
                Some(info) => info.size == size && info.statements@.len() == 0,
                None => false,
            },
    {
        self.sections.insert(name, SectionInfo { size, statements: Vec::new() });
    }

    pub fn add_label(&mut self, name: Vec<char>, offset: u64, section: Option<Vec<char>>)
        requires
            old(self).wf(),
        ensures
            final(self).wf(),
            final(self).statements == old(self).statements,
            final(self).sections == old(self).sections,
            forall|k: Seq<char>|
                spec_get(#[trigger] final(self).labels@, k) == if k == name@ {
                    Some(LabelInfo { offset, section })
                } else {
                    spec_get(old(self).labels@, k)
                },
    {
        self.labels.insert(name, LabelInfo { offset, section });
    }
}

} // verus!
