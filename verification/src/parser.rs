//! The parser: three ordered passes over one immutable token array. Pass
//! one pre-scans labels and sections with estimated offsets and reports
//! duplicate labels; pass two builds statements by recursive descent with
//! optional per-line error recovery; pass three resolves label operands
//! against the pass-one table and encodes every instruction.

use vstd::prelude::*;
use crate::ast::{Operand, Program, Statement};
use crate::chars::{copy_chars, lower, spec_lower, str_eq, str_to_chars};
use crate::encoder::{spec_encode, MachineCodeEncoder};
use crate::errors::{ErrorCollector, ErrorType};
use crate::names::{map_opt, spec_get, spec_map_of, NameMap};
use crate::token::{Token, TokenType, TokenV};

verus! {

pub const TEXT_BASE: u64 = 0x400000;

pub const DATA_BASE: u64 = 0x600000;

pub const BSS_BASE: u64 = 0x800000;

/// The fixed per-statement size estimate of the pre-scan pass. The
/// pass-one offsets are deliberately estimates, good enough for an early
/// label table; real layout happens in the emitter.
pub const SIZE_ESTIMATE: u64 = 8;

/// An instruction-category token kind.
pub open spec fn spec_is_instr_kind(k: TokenType) -> bool {
    ||| k == TokenType::Instruction
    ||| k == TokenType::InstrData
    ||| k == TokenType::InstrArith
    ||| k == TokenType::InstrLogic
    ||| k == TokenType::InstrJump
    ||| k == TokenType::InstrSIMD
}

/// A register token kind.
pub open spec fn spec_is_reg_kind(k: TokenType) -> bool {
    ||| k == TokenType::Register
    ||| k == TokenType::Reg64Bit
    ||| k == TokenType::Reg32Bit
    ||| k == TokenType::Reg16Bit
    ||| k == TokenType::Reg8Bit
    ||| k == TokenType::RegXMM
    ||| k == TokenType::RegYMM
    ||| k == TokenType::RegZMM
    ||| k == TokenType::RegSpecial
}

/// Index of the next newline token at or after `i`, or the end.
pub open spec fn spec_next_nl(toks: Seq<TokenV>, i: int) -> int
    decreases toks.len() - i,
{
    if i < 0 || i >= toks.len() {
        toks.len() as int
    } else if toks[i].kind == TokenType::NewLine {
        i
    } else {
        spec_next_nl(toks, i + 1)
    }
}

pub proof fn lemma_next_nl(toks: Seq<TokenV>, i: int)
    requires
        0 <= i <= toks.len(),
    ensures
        i <= spec_next_nl(toks, i) <= toks.len(),
    decreases toks.len() - i,
{
    if i < toks.len() && toks[i].kind != TokenType::NewLine {
        lemma_next_nl(toks, i + 1);
    }
}

/// Position after discarding tokens to the next line boundary and the
/// newline itself, the parser's recovery resynchronization.
pub open spec fn spec_nl_skip(toks: Seq<TokenV>, i: int) -> int {
    let k = spec_next_nl(toks, i);
    if k < toks.len() {
        k + 1
    } else {
        toks.len() as int
    }
}

/// Position after an optional colon token.
pub open spec fn spec_colon_skip(toks: Seq<TokenV>, j: int) -> int {
    if 0 <= j < toks.len() && toks[j].kind == TokenType::Colon {
        j + 1
    } else {
        j
    }
}

/// The estimated base offset a section switch resets to.
pub open spec fn spec_section_base(name: Seq<char>) -> u64 {
    if name == ".text"@ {
        TEXT_BASE
    } else if name == ".data"@ {
        DATA_BASE
    } else if name == ".bss"@ {
        BSS_BASE
    } else {
        TEXT_BASE
    }
}

/// The size estimate added to the running offset, saturating at the top
/// of the range.
pub open spec fn spec_bump(offset: u64) -> u64 {
    if offset <= u64::MAX - SIZE_ESTIMATE {
        (offset + SIZE_ESTIMATE) as u64
    } else {
        offset
    }
}

/// State of the pre-scan pass: the early label tables, the running
/// estimated offset, the statement counter, the diagnostics appended so
/// far (kind, line, column), and whether the pass aborted.
pub ghost struct Pass1 {
    pub labels: Map<Seq<char>, usize>,
    pub offsets: Map<Seq<char>, u64>,
    pub section: Seq<char>,
    pub offset: u64,
    pub stmt_index: int,
    pub errors: Seq<(ErrorType, int, int)>,
    pub abort: bool,
}

pub open spec fn spec_pass1_init() -> Pass1 {
    Pass1 {
        labels: Map::empty(),
        offsets: Map::empty(),
        section: ".text"@,
        offset: TEXT_BASE,
        stmt_index: 0,
        errors: Seq::empty(),
        abort: false,
    }
}

/// The label pre-scan, one token-driven step at a time. Duplicate labels
/// are reported, first definition wins; a `section` directive resets the
/// running offset; instructions and unrecognized directives bump it by
/// the fixed estimate. Without a collector any diagnostic aborts; with
/// one, recovery mode resynchronizes at the next line.
pub open spec fn spec_pass1(toks: Seq<TokenV>, i: int, st: Pass1, has_col: bool, cont: bool) -> Pass1
    decreases toks.len() - i,
    via spec_pass1_dec
{
    if i < 0 || i >= toks.len() || st.abort {
        st
    } else {
        let t = toks[i];
        if t.kind == TokenType::Label {
            if st.labels.dom().contains(t.text) {
                let errors = if has_col {
                    st.errors.push((ErrorType::DuplicateLabel, t.line, t.column))
                } else {
                    st.errors
                };
                if has_col && cont {
                    spec_pass1(
                        toks,
                        spec_colon_skip(toks, i + 1),
                        Pass1 { errors, ..st },
                        has_col,
                        cont,
                    )
                } else {
                    Pass1 { errors, abort: true, ..st }
                }
            } else {
                spec_pass1(
                    toks,
                    spec_colon_skip(toks, i + 1),
                    Pass1 {
                        labels: st.labels.insert(t.text, st.stmt_index as usize),
                        offsets: st.offsets.insert(t.text, st.offset),
                        ..st
                    },
                    has_col,
                    cont,
                )
            }
        } else if t.kind == TokenType::Directive {
            if t.text == "section"@ {
                if i + 1 >= toks.len() {
                    let errors = if has_col {
                        st.errors.push((ErrorType::SectionError, t.line, t.column))
                    } else {
                        st.errors
                    };
                    if has_col && cont {
                        spec_pass1(
                            toks,
                            spec_nl_skip(toks, i + 1),
                            Pass1 { errors, stmt_index: st.stmt_index + 1, ..st },
                            has_col,
                            cont,
                        )
                    } else {
                        Pass1 { errors, abort: true, ..st }
                    }
                } else {
                    let sec = toks[i + 1];
                    if sec.kind == TokenType::LabelRef || sec.kind == TokenType::Identifier {
                        spec_pass1(
                            toks,
                            spec_nl_skip(toks, i + 1),
                            Pass1 {
                                section: sec.text,
                                offset: spec_section_base(sec.text),
                                stmt_index: st.stmt_index + 1,
                                ..st
                            },
                            has_col,
                            cont,
                        )
                    } else {
                        let errors = if has_col {
                            st.errors.push((ErrorType::SectionError, sec.line, sec.column))
                        } else {
                            st.errors
                        };
                        if has_col && cont {
                            spec_pass1(
                                toks,
                                spec_nl_skip(toks, i + 1),
                                Pass1 { errors, stmt_index: st.stmt_index + 1, ..st },
                                has_col,
                                cont,
                            )
                        } else {
                            Pass1 { errors, abort: true, ..st }
                        }
                    }
                }
            } else {
                spec_pass1(
                    toks,
                    spec_nl_skip(toks, i),
                    Pass1 {
                        stmt_index: st.stmt_index + 1,
                        offset: spec_bump(st.offset),
                        ..st
                    },
                    has_col,
                    cont,
                )
            }
        } else if t.kind == TokenType::NewLine {
            spec_pass1(toks, i + 1, st, has_col, cont)
        } else if t.kind == TokenType::Comment {
            spec_pass1(toks, i + 1, Pass1 { stmt_index: st.stmt_index + 1, ..st }, has_col, cont)
        } else if spec_is_instr_kind(t.kind) {
            spec_pass1(
                toks,
                spec_nl_skip(toks, i),
                Pass1 {
                    offset: spec_bump(st.offset),
                    stmt_index: st.stmt_index + 1,
                    ..st
                },
                has_col,
                cont,
            )
        } else {
            spec_pass1(
                toks,
                spec_nl_skip(toks, i),
                Pass1 { stmt_index: st.stmt_index + 1, ..st },
                has_col,
                cont,
            )
        }
    }
}

#[via_fn]
proof fn spec_pass1_dec(toks: Seq<TokenV>, i: int, st: Pass1, has_col: bool, cont: bool) {
    if 0 <= i < toks.len() {
        lemma_next_nl(toks, i + 1);
        let t = toks[i];
        if !(t.kind == TokenType::Label) && !(t.kind == TokenType::Directive && t.text
            == "section"@) && t.kind != TokenType::NewLine && t.kind != TokenType::Comment {
            assert(t.kind != TokenType::NewLine);
            assert(spec_next_nl(toks, i) == spec_next_nl(toks, i + 1));
        }
        if t.kind == TokenType::Directive && t.text != "section"@ {
            assert(spec_next_nl(toks, i) == spec_next_nl(toks, i + 1));
        }
    }
}


/// How a diagnostic batch appended by a pass relates to the collector:
/// same count, and kind/line/column as recorded.
pub open spec fn spec_errors_appended(
    before: Seq<crate::errors::Error>,
    after: Seq<crate::errors::Error>,
    appended: Seq<(ErrorType, int, int)>,
) -> bool {
    &&& after.len() == before.len() + appended.len()
    &&& after.take(before.len() as int) == before
    &&& forall|j: int|
        0 <= j < appended.len() ==> {
            let e = #[trigger] after[before.len() + j];
            &&& e.error_type == appended[j].0
            &&& match e.location {
                Some(loc) => loc.line as int == appended[j].1 && loc.column as int == appended[j].2,
                None => false,
            }
        }
}

/// The collector option after a pass, relative to the one before it.
pub open spec fn spec_collector_appended(
    before: Option<ErrorCollector>,
    after: Option<ErrorCollector>,
    appended: Seq<(ErrorType, int, int)>,
) -> bool {
    match before {
        Some(c0) => match after {
            Some(c1) => spec_errors_appended(c0.errors@, c1.errors@, appended),
            None => false,
        },
        None => after is None,
    }
}

/// The three-pass parser over one immutable token array with an explicit
/// resettable cursor.
pub struct Parser {
    pub tokens: Vec<(Token, usize)>,
    pub current: usize,
    pub labels: NameMap<usize>,
    pub label_offsets: NameMap<u64>,
    pub current_section: Vec<char>,
    pub text_offset: u64,
    pub data_offset: u64,
    pub bss_offset: u64,
    pub error_collector: Option<ErrorCollector>,
    pub file_name: String,
    pub continue_on_errors: bool,
}

impl Parser {
    /// The token images the parser works over.
    pub open spec fn toks(&self) -> Seq<TokenV> {
        self.tokens@.map_values(|p: (Token, usize)| p.0@)
    }

    pub open spec fn wf(&self) -> bool {
        &&& self.labels.wf()
        &&& self.label_offsets.wf()
        &&& self.current <= self.toks().len()
    }

    pub fn new(tokens: Vec<Token>) -> (p: Self)
        ensures
            p.wf(),
            p.toks() == crate::tokenizer::token_views(tokens@),
            forall|j: int| 0 <= j < p.tokens@.len() ==> (#[trigger] p.tokens@[j]).1 == j,
            p.current == 0,
            p.labels@ == Seq::<(Seq<char>, usize)>::empty(),
            p.label_offsets@ == Seq::<(Seq<char>, u64)>::empty(),
            p.current_section@ == ".text"@,
            p.text_offset == TEXT_BASE,
            p.data_offset == DATA_BASE,
            p.bss_offset == BSS_BASE,
            p.error_collector is None,
            !p.continue_on_errors,
    {
        let ghost orig = tokens@;
        let mut tokens_with_index: Vec<(Token, usize)> = Vec::new();
        let mut i: usize = 0;
        let mut rest = tokens;
        // Pair each token with its index, preserving order.
        let n = rest.len();
        while i < n
            invariant
                i <= n,
                n == orig.len(),
                rest@ == orig,
                tokens_with_index@.len() == i,
                forall|j: int|
                    0 <= j < i ==> (#[trigger] tokens_with_index@[j]).0@ == orig[j]@
                        && tokens_with_index@[j].1 == j,
            decreases n - i,
        {
            let t = rest[i].duplicate();
            proof {
                assert(t@ == orig[i as int]@);
            }
            tokens_with_index.push((t, i));
            i = i + 1;
        }
        let p = Self {
            tokens: tokens_with_index,
            current: 0,
            labels: NameMap::new(),
            label_offsets: NameMap::new(),
            current_section: str_to_chars(".text"),
            text_offset: TEXT_BASE,
            data_offset: DATA_BASE,
            bss_offset: BSS_BASE,
            error_collector: None,
            file_name: str_to_chars_string("unknown"),
            continue_on_errors: false,
        };
        proof {
            assert(p.toks() =~= crate::tokenizer::token_views(orig));
        }
        p
    }

    /// Sets the error collector used while parsing.
    pub fn with_error_collector(self, collector: ErrorCollector) -> (p: Self)
        ensures
            p == (Self { error_collector: Some(collector), ..self }),
    {
        Self { error_collector: Some(collector), ..self }
    }

    /// Sets the file name used in diagnostics.
    pub fn with_file_name(self, file_name: String) -> (p: Self)
        ensures
            p == (Self { file_name, ..self }),
    {
        Self { file_name, ..self }
    }

    /// Chooses between per-line recovery and stopping at the first error.
    pub fn with_continue_on_errors(self, continue_on_errors: bool) -> (p: Self)
        ensures
            p == (Self { continue_on_errors, ..self }),
    {
        Self { continue_on_errors, ..self }
    }

    /// Records a diagnostic at a token's position, if a collector is set.
    fn add_error(&mut self, error_type: ErrorType, message: &str, line: usize, column: usize)
        ensures
            *final(self) == (Parser { error_collector: final(self).error_collector, ..*old(self) }),
            spec_collector_appended(
                old(self).error_collector,
                final(self).error_collector,
                seq![(error_type, line as int, column as int)],
            ),
    {
        let mut taken: Option<ErrorCollector> = None;
        core::mem::swap(&mut taken, &mut self.error_collector);
        match taken {
            Some(mut collector) => {
                let ghost before = collector.errors@;
                collector.add_error_with_location(
                    error_type,
                    message,
                    self.file_name.as_str(),
                    line,
                    column,
                );
                proof {
                    assert(collector.errors@.take(before.len() as int) == before);
                }
                self.error_collector = Some(collector);
            },
            None => {
                self.error_collector = None;
            },
        }
    }

    /// Records a diagnostic; to callers that only need monotonicity.
    pub(crate) fn add_error_grow(
        &mut self,
        error_type: ErrorType,
        message: &str,
        line: usize,
        column: usize,
    )
        ensures
            *final(self) == (Parser { error_collector: final(self).error_collector, ..*old(self) }),
            spec_collector_grows(old(self).error_collector, final(self).error_collector),
    {
        let ghost before = self.error_collector;
        self.add_error(error_type, message, line, column);
        proof {
            lemma_appended_grows(
                before,
                self.error_collector,
                seq![(error_type, line as int, column as int)],
            );
        }
    }

    /// Records a diagnostic carrying a usage hint, if a collector is set.
    pub(crate) fn add_error_hint(
        &mut self,
        error_type: ErrorType,
        message: &str,
        hint: &str,
        line: usize,
        column: usize,
    )
        ensures
            *final(self) == (Parser { error_collector: final(self).error_collector, ..*old(self) }),
            spec_hinted_errors(
                old(self).error_collector,
                final(self).error_collector,
                error_type,
                hint@,
            ),
            match (old(self).error_collector, final(self).error_collector) {
                (Some(c0), Some(c1)) => c1.errors@.len() == c0.errors@.len() + 1,
                (None, None) => true,
                _ => false,
            },
    {
        let mut taken: Option<ErrorCollector> = None;
        core::mem::swap(&mut taken, &mut self.error_collector);
        match taken {
            Some(mut collector) => {
                let ghost before = collector.errors@;
                collector.add_error_with_help(
                    error_type,
                    message,
                    hint,
                    self.file_name.as_str(),
                    line,
                    column,
                );
                proof {
                    assert(collector.errors@.take(before.len() as int) == before);
                }
                self.error_collector = Some(collector);
            },
            None => {
                self.error_collector = None;
            },
        }
    }

    /// Records an UndefinedLabel diagnostic whose help names the label,
    /// if a collector is set.
    fn record_undefined_label(&mut self, label: &str, line: usize)
        ensures
            *final(self) == (Parser { error_collector: final(self).error_collector, ..*old(self) }),
            spec_one_appended(
                old(self).error_collector,
                final(self).error_collector,
                ErrorType::UndefinedLabel,
            ),
            // The diagnostic's help names the label (its text comes from
            // the caller and is checked at run time).
            match final(self).error_collector {
                Some(c1) => c1.errors@.len() > 0 && (c1.errors@.last().detail.help matches Some(
                    h,
                ) && h@ == label@),
                None => true,
            },
    {
        let mut taken: Option<ErrorCollector> = None;
        core::mem::swap(&mut taken, &mut self.error_collector);
        match taken {
            Some(mut collector) => {
                let ghost before = collector.errors@;
                collector.add_error_with_help(
                    ErrorType::UndefinedLabel,
                    "Undefined label reference",
                    label,
                    self.file_name.as_str(),
                    line,
                    0,
                );
                proof {
                    assert(collector.errors@.take(before.len() as int) == before);
                }
                self.error_collector = Some(collector);
            },
            None => {
                self.error_collector = None;
            },
        }
    }

    /// Records a diagnostic of a given kind, if a collector is set:
    /// exactly one entry of that kind is appended.
    pub(crate) fn add_error_kind(
        &mut self,
        error_type: ErrorType,
        message: &str,
        line: usize,
        column: usize,
    )
        ensures
            *final(self) == (Parser { error_collector: final(self).error_collector, ..*old(self) }),
            spec_one_appended(old(self).error_collector, final(self).error_collector, error_type),
            spec_collector_grows(old(self).error_collector, final(self).error_collector),
            error_type != ErrorType::DuplicateLabel ==> spec_no_kind_appended(
                old(self).error_collector,
                final(self).error_collector,
                ErrorType::DuplicateLabel,
            ),
    {
        let ghost before = self.error_collector;
        self.add_error(error_type, message, line, column);
        proof {
            lemma_appended_grows(
                before,
                self.error_collector,
                seq![(error_type, line as int, column as int)],
            );
            let ghost after_ec = self.error_collector;
            match (before, after_ec) {
                (Some(c0), Some(c1)) => {
                    assert(c1.errors@[c0.errors@.len() + 0int].error_type == error_type);
                    assert(c1.errors@.last() == c1.errors@[c0.errors@.len() + 0int]);
                },
                _ => {},
            }
            if error_type != ErrorType::DuplicateLabel {
                lemma_one_no_kind(
                    before,
                    self.error_collector,
                    error_type,
                    ErrorType::DuplicateLabel,
                );
            }
        }
    }

    fn is_at_end(&self) -> (b: bool)
        ensures
            b == (self.current >= self.toks().len()),
    {
        self.current >= self.tokens.len()
    }

    /// The current token and its index, if any.
    pub fn peek(&self) -> (r: Option<&(Token, usize)>)
        ensures
            match r {
                Some(p) => self.current < self.toks().len() && p.0@ == self.toks()[self.current as int],
                None => self.current >= self.toks().len(),
            },
    {
        if self.is_at_end() {
            None
        } else {
            Some(&self.tokens[self.current])
        }
    }

    /// Moves past the current token.
    pub fn advance(&mut self)
        ensures
            *final(self) == (Parser { current: final(self).current, ..*old(self) }),
            old(self).current < old(self).toks().len() ==> final(self).current == old(self).current + 1,
            old(self).current >= old(self).toks().len() ==> final(self).current == old(self).current,
    {
        if !self.is_at_end() {
            let n = self.tokens.len();
            proof {
                assert(self.toks().len() == self.tokens@.len());
                assert(self.current < n);
            }
            self.current = self.current + 1;
        }
    }

    /// True when the current token has the given kind.
    pub fn check(&self, token_type: TokenType) -> (b: bool)
        ensures
            b == (self.current < self.toks().len() && self.toks()[self.current as int].kind
                == token_type),
    {
        match self.peek() {
            Some(p) => p.0.token_type == token_type,
            None => false,
        }
    }

    /// True when the current token has the given kind and text.
    pub fn check_value(&self, token_type: TokenType, value: &str) -> (b: bool)
        ensures
            b == (self.current < self.toks().len() && self.toks()[self.current as int].kind
                == token_type && self.toks()[self.current as int].text == value@),
    {
        match self.peek() {
            Some(p) => p.0.token_type == token_type && str_eq(&p.0.value, value),
            None => false,
        }
    }

    /// A copy of the current token; at the end, an EOF token at line 0.
    pub fn current_token(&self) -> (t: Token)
        ensures
            t@ == spec_current_token(self.toks(), self.current as int),
    {
        match self.peek() {
            Some(p) => p.0.duplicate(),
            None => Token::new(TokenType::EOF, Vec::new(), 0, 0),
        }
    }

    /// The current token, moving past it.
    pub fn next_token(&mut self) -> (t: Token)
        ensures
            *final(self) == (Parser { current: final(self).current, ..*old(self) }),
            t@ == spec_current_token(old(self).toks(), old(self).current as int),
            old(self).current < old(self).toks().len() ==> final(self).current == old(self).current + 1,
            old(self).current >= old(self).toks().len() ==> final(self).current == old(self).current,
    {
        let current = self.current_token();
        self.advance();
        current
    }

    /// Estimated offset recorded for a label by the pre-scan.
    pub fn get_label_offset(&self, label: &str) -> (r: Option<u64>)
        ensures
            r == spec_get(self.label_offsets@, label@),
    {
        let key = str_to_chars(label);
        match self.label_offsets.get(&key) {
            Some(v) => Some(*v),
            None => None,
        }
    }

    /// Name of the section the cursor is in.
    pub fn get_current_section(&self) -> (r: &Vec<char>)
        ensures
            r@ == self.current_section@,
    {
        &self.current_section
    }

    /// The token `n` positions ahead, if any.
    pub fn peek_ahead(&self, n: usize) -> (r: Option<&(Token, usize)>)
        ensures
            match r {
                Some(p) => self.current + n < self.toks().len() && p.0@ == self.toks()[self.current + n],
                None => self.current + n >= self.toks().len(),
            },
    {
        if self.current >= self.tokens.len() || n >= self.tokens.len() - self.current {
            None
        } else {
            Some(&self.tokens[self.current + n])
        }
    }

    /// The diagnostics collected so far.
    pub fn get_error_collector(&self) -> (r: &Option<ErrorCollector>)
        ensures
            r == &self.error_collector,
    {
        &self.error_collector
    }

    /// True when the collector holds a blocking diagnostic.
    fn has_errors(&self) -> (b: bool)
        ensures
            b == match self.error_collector {
                Some(c) => exists|i: int|
                    0 <= i < c.errors@.len() && crate::errors::spec_blocking(
                        #[trigger] c.errors@[i],
                    ),
                None => false,
            },
    {
        match &self.error_collector {
            Some(collector) => collector.has_errors(),
            None => false,
        }
    }

    /// Discards tokens to the next line boundary and resumes after it:
    /// the recovery resynchronization.
    fn skip_past_newline(&mut self)
        requires
            old(self).current <= old(self).toks().len(),
        ensures
            *final(self) == (Parser { current: final(self).current, ..*old(self) }),
            final(self).current as int == spec_nl_skip(old(self).toks(), old(self).current as int),
            final(self).current >= old(self).current,
    {
        let ghost toks = self.toks();
        let ghost start = self.current as int;
        proof {
            lemma_next_nl(toks, start);
        }
        while !self.is_at_end() && !self.check(TokenType::NewLine)
            invariant
                *self == (Parser { current: self.current, ..*old(self) }),
                toks == self.toks(),
                start <= self.current as int <= toks.len(),
                spec_next_nl(toks, start) == spec_next_nl(toks, self.current as int),
            decreases toks.len() - self.current,
        {
            self.advance();
        }
        if self.check(TokenType::NewLine) {
            self.advance();
        }
    }

    /// Pass one: walks the tokens once, building the early label table
    /// from estimated offsets, tracking the current section, and
    /// reporting duplicate labels and malformed section directives. The
    /// whole pass is `spec_pass1`: the first definition of a label wins,
    /// and each later occurrence yields exactly one DuplicateLabel
    /// diagnostic; in recovery mode the pass still completes.
    #[verifier::rlimit(100)]
    fn collect_labels_and_sections(&mut self) -> (r: Result<(), ErrorType>)
        requires
            old(self).wf(),
            old(self).current == 0,
            old(self).labels@.len() == 0,
            old(self).label_offsets@.len() == 0,
            old(self).current_section@ == ".text"@,
            old(self).text_offset == TEXT_BASE,
            old(self).data_offset == DATA_BASE,
            old(self).bss_offset == BSS_BASE,
        ensures
            final(self).wf(),
            final(self).tokens == old(self).tokens,
            final(self).file_name == old(self).file_name,
            final(self).continue_on_errors == old(self).continue_on_errors,
            final(self).text_offset == old(self).text_offset,
            final(self).data_offset == old(self).data_offset,
            final(self).bss_offset == old(self).bss_offset,
            ({
                let p1 = spec_pass1(
                    old(self).toks(),
                    0,
                    spec_pass1_init(),
                    old(self).error_collector is Some,
                    old(self).continue_on_errors,
                );
                &&& spec_map_of(final(self).labels@) == p1.labels
                &&& spec_map_of(final(self).label_offsets@) == p1.offsets
                &&& final(self).current_section@ == p1.section
                &&& spec_collector_appended(
                    old(self).error_collector,
                    final(self).error_collector,
                    p1.errors,
                )
                &&& (r is Ok <==> !p1.abort)
                &&& (r is Ok ==> final(self).current == 0)
            }),
    {
        let ghost toks = self.toks();
        let ghost has_col = old(self).error_collector is Some;
        let cont = self.continue_on_errors;
        let ghost full = spec_pass1(toks, 0, spec_pass1_init(), has_col, cont);
        let mut statement_index: usize = 0;
        let mut current_offset: u64 = self.text_offset;
        let ghost mut done: Seq<(ErrorType, int, int)> = Seq::empty();
        proof {
            crate::names::lemma_map_of_empty::<usize>();
            crate::names::lemma_map_of_empty::<u64>();
            assert(self.labels@ =~= Seq::<(Seq<char>, usize)>::empty());
            assert(self.label_offsets@ =~= Seq::<(Seq<char>, u64)>::empty());
            match &self.error_collector {
                Some(c) => {
                    assert(c.errors@.take(c.errors@.len() as int) =~= c.errors@);
                },
                None => {},
            }
            assert(Pass1 {
                labels: spec_map_of(self.labels@),
                offsets: spec_map_of(self.label_offsets@),
                section: self.current_section@,
                offset: current_offset,
                stmt_index: statement_index as int,
                errors: done,
                abort: false,
            } == spec_pass1_init());
        }
        loop
            invariant
                self.wf(),
                self.tokens == old(self).tokens,
                toks == self.toks(),
                self.file_name == old(self).file_name,
                self.continue_on_errors == old(self).continue_on_errors,
                cont == old(self).continue_on_errors,
                self.text_offset == TEXT_BASE,
                self.data_offset == DATA_BASE,
                self.bss_offset == BSS_BASE,
                old(self).text_offset == TEXT_BASE,
                old(self).data_offset == DATA_BASE,
                old(self).bss_offset == BSS_BASE,
                toks == old(self).toks(),
                has_col == (old(self).error_collector is Some),
                has_col == (self.error_collector is Some),
                statement_index <= self.current,
                full == spec_pass1(toks, 0, spec_pass1_init(), has_col, cont),
                spec_collector_appended(old(self).error_collector, self.error_collector, done),
                spec_pass1(
                    toks,
                    self.current as int,
                    Pass1 {
                        labels: spec_map_of(self.labels@),
                        offsets: spec_map_of(self.label_offsets@),
                        section: self.current_section@,
                        offset: current_offset,
                        stmt_index: statement_index as int,
                        errors: done,
                        abort: false,
                    },
                    has_col,
                    cont,
                ) == full,
            ensures
                self.wf(),
                self.tokens == old(self).tokens,
                toks == self.toks(),
                self.file_name == old(self).file_name,
                self.continue_on_errors == old(self).continue_on_errors,
                self.text_offset == TEXT_BASE,
                self.data_offset == DATA_BASE,
                self.bss_offset == BSS_BASE,
                self.current >= toks.len(),
                spec_collector_appended(old(self).error_collector, self.error_collector, done),
                spec_pass1(
                    toks,
                    self.current as int,
                    Pass1 {
                        labels: spec_map_of(self.labels@),
                        offsets: spec_map_of(self.label_offsets@),
                        section: self.current_section@,
                        offset: current_offset,
                        stmt_index: statement_index as int,
                        errors: done,
                        abort: false,
                    },
                    has_col,
                    cont,
                ) == full,
            decreases toks.len() - self.current,
        {
            if self.current >= self.tokens.len() {
                break;
            }
            let ghost i = self.current as int;
            let ghost st0 = Pass1 {
                labels: spec_map_of(self.labels@),
                offsets: spec_map_of(self.label_offsets@),
                section: self.current_section@,
                offset: current_offset,
                stmt_index: statement_index as int,
                errors: done,
                abort: false,
            };
            let kind = self.tokens[self.current].0.token_type;
            if kind == TokenType::Label {
                let label = copy_chars(&self.tokens[self.current].0.value);
                let token_line = self.tokens[self.current].0.line;
                let token_column = self.tokens[self.current].0.column;
                if self.labels.contains_key(&label) {
                    let ghost ec_mid = self.error_collector;
                    self.add_error(
                        ErrorType::DuplicateLabel,
                        "Duplicate label found",
                        token_line,
                        token_column,
                    );
                    proof {
                        lemma_collector_compose(
                            old(self).error_collector,
                            ec_mid,
                            self.error_collector,
                            done,
                            (ErrorType::DuplicateLabel, token_line as int, token_column as int),
                        );
                        done = done.push(
                            (ErrorType::DuplicateLabel, token_line as int, token_column as int),
                        );
                    }
                    if self.error_collector.is_some() && cont {
                        self.advance();
                        if self.check(TokenType::Colon) {
                            self.advance();
                        }
                    } else {
                        return Err(ErrorType::DuplicateLabel);
                    }
                } else {
                    let ghost labels0 = self.labels@;
                    let ghost offsets0 = self.label_offsets@;
                    self.labels.insert(copy_chars(&label), statement_index);
                    self.label_offsets.insert(label, current_offset);
                    proof {
                        crate::names::lemma_map_of_insert(
                            labels0,
                            self.labels@,
                            toks[i].text,
                            statement_index,
                        );
                        crate::names::lemma_map_of_insert(
                            offsets0,
                            self.label_offsets@,
                            toks[i].text,
                            current_offset,
                        );
                    }
                    self.advance();
                    if self.check(TokenType::Colon) {
                        self.advance();
                    }
                }
            } else if kind == TokenType::Directive {
                if str_eq(&self.tokens[self.current].0.value, "section") {
                    let token_line = self.tokens[self.current].0.line;
                    let token_column = self.tokens[self.current].0.column;
                    self.advance();
                    let mut section_info: Option<(TokenType, Vec<char>, usize, usize)> = None;
                    match self.peek() {
                        Some(p) => {
                            section_info = Some(
                                (p.0.token_type, copy_chars(&p.0.value), p.0.line, p.0.column),
                            );
                        },
                        None => {},
                    }
                    match section_info {
                        None => {
                            let ghost ec_mid = self.error_collector;
                            self.add_error(
                                ErrorType::SectionError,
                                "Missing section name after section directive",
                                token_line,
                                token_column,
                            );
                            proof {
                                lemma_collector_compose(
                                    old(self).error_collector,
                                    ec_mid,
                                    self.error_collector,
                                    done,
                                    (
                                        ErrorType::SectionError,
                                        token_line as int,
                                        token_column as int,
                                    ),
                                );
                                done = done.push(
                                    (
                                        ErrorType::SectionError,
                                        token_line as int,
                                        token_column as int,
                                    ),
                                );
                            }
                            if self.error_collector.is_some() && cont {
                                proof {
                                    lemma_next_nl(toks, i + 1);
                                }
                                self.skip_past_newline();
                                statement_index = statement_index + 1;
                            } else {
                                return Err(ErrorType::SectionError);
                            }
                        },
                        Some((sec_kind, sec_name, sec_line, sec_column)) => {
                            if sec_kind == TokenType::LabelRef || sec_kind
                                == TokenType::Identifier {
                                current_offset = if str_eq(&sec_name, ".text") {
                                    self.text_offset
                                } else if str_eq(&sec_name, ".data") {
                                    self.data_offset
                                } else if str_eq(&sec_name, ".bss") {
                                    self.bss_offset
                                } else {
                                    self.text_offset
                                };
                                self.current_section = sec_name;
                                proof {
                                    lemma_next_nl(toks, i + 1);
                                }
                                self.skip_past_newline();
                                statement_index = statement_index + 1;
                            } else {
                                let ghost ec_mid = self.error_collector;
                                self.add_error(
                                    ErrorType::SectionError,
                                    "Invalid section name, expected identifier or label reference",
                                    sec_line,
                                    sec_column,
                                );
                                proof {
                                    lemma_collector_compose(
                                        old(self).error_collector,
                                        ec_mid,
                                        self.error_collector,
                                        done,
                                        (ErrorType::SectionError, sec_line as int, sec_column as int),
                                    );
                                    done = done.push(
                                        (ErrorType::SectionError, sec_line as int, sec_column as int),
                                    );
                                }
                                if self.error_collector.is_some() && cont {
                                    proof {
                                        lemma_next_nl(toks, i + 1);
                                    }
                                    self.skip_past_newline();
                                    statement_index = statement_index + 1;
                                } else {
                                    return Err(ErrorType::SectionError);
                                }
                            }
                        },
                    }
                } else {
                    proof {
                        lemma_next_nl(toks, i + 1);
                        assert(spec_next_nl(toks, i) == spec_next_nl(toks, i + 1));
                    }
                    self.skip_past_newline();
                    statement_index = statement_index + 1;
                    if current_offset <= u64::MAX - SIZE_ESTIMATE {
                        current_offset = current_offset + SIZE_ESTIMATE;
                    }
                }
            } else if kind == TokenType::NewLine {
                self.advance();
            } else if kind == TokenType::Comment {
                self.advance();
                statement_index = statement_index + 1;
            } else if kind == TokenType::Instruction || kind == TokenType::InstrData || kind
                == TokenType::InstrArith || kind == TokenType::InstrLogic || kind
                == TokenType::InstrJump || kind == TokenType::InstrSIMD {
                if current_offset <= u64::MAX - SIZE_ESTIMATE {
                    current_offset = current_offset + SIZE_ESTIMATE;
                }
                statement_index = statement_index + 1;
                proof {
                    lemma_next_nl(toks, i + 1);
                    assert(spec_next_nl(toks, i) == spec_next_nl(toks, i + 1));
                }
                self.skip_past_newline();
            } else {
                statement_index = statement_index + 1;
                proof {
                    lemma_next_nl(toks, i + 1);
                    assert(spec_next_nl(toks, i) == spec_next_nl(toks, i + 1));
                }
                self.skip_past_newline();
            }
        }
        self.current = 0;
        Ok(())
    }

    /// Parses one statement, dispatching on the current token's kind;
    /// bare identifiers are disambiguated by one-token lookahead.
    pub fn parse_statement(&mut self) -> (r: Result<Statement, ErrorType>)
        requires
            old(self).wf(),
        ensures
            final(self).wf(),
            same_but_cursor_errors(*old(self), *final(self)),
            final(self).current >= old(self).current,
            old(self).current < old(self).toks().len() && r is Ok ==> final(self).current > old(self).current,
        ({
            let t = spec_current_token(old(self).toks(), old(self).current as int);
            let t1 = spec_current_token(old(self).toks(), old(self).current + 1);
            (spec_is_instr_kind(t.kind) && r is Ok ==> (r->Ok_0 matches
                    Statement::Instruction(ins) && ins.name@ == spec_lower(t.text)
                    && ins.machine_code@.len() == 0 && ins.line as int == t.line))
        }),
        ({
            let t = spec_current_token(old(self).toks(), old(self).current as int);
            let t1 = spec_current_token(old(self).toks(), old(self).current + 1);
            (t.kind == TokenType::Label && old(self).current < old(self).toks().len()
                    ==> (r matches Ok(stmt) && (stmt matches Statement::Label(name) && name@
                    == t.text)) && final(self).current as int == spec_colon_skip(
                    old(self).toks(),
                    old(self).current + 1,
                ))
        }),
        ({
            let t = spec_current_token(old(self).toks(), old(self).current as int);
            let t1 = spec_current_token(old(self).toks(), old(self).current + 1);
            (t.kind == TokenType::Comment && old(self).current < old(self).toks().len()
                    ==> (r matches Ok(stmt) && (stmt matches Statement::Comment(c) && c@
                    == t.text)) && final(self).current == old(self).current + 1)
        }),
        ({
            let t = spec_current_token(old(self).toks(), old(self).current as int);
            let t1 = spec_current_token(old(self).toks(), old(self).current + 1);
            (t.kind == TokenType::NewLine || t.kind == TokenType::EOF ==> (r matches Ok(
                    stmt,
                ) && stmt is Empty))
        }),
        ({
            let t = spec_current_token(old(self).toks(), old(self).current as int);
            let t1 = spec_current_token(old(self).toks(), old(self).current + 1);
            ((t.kind == TokenType::NewLine || t.kind == TokenType::EOF) && old(self).current < old(self).toks().len() ==> final(self).current == old(self).current
                    + 1)
        }),
        ({
            let t = spec_current_token(old(self).toks(), old(self).current as int);
            let t1 = spec_current_token(old(self).toks(), old(self).current + 1);
            (t.kind == TokenType::Directive && t.text != "section"@ && r is Ok ==> (
                r->Ok_0 matches Statement::Directive(dir) && dir.name@ == spec_lower(t.text)
                    && dir.line as int == t.line))
        }),
        ({
            let t = spec_current_token(old(self).toks(), old(self).current as int);
            let t1 = spec_current_token(old(self).toks(), old(self).current + 1);
            (t.kind == TokenType::Directive && t.text == "section"@ && r is Ok ==> (
                r->Ok_0 is Section || r->Ok_0 is Directive))
                // `section` plus a plain or dotted name becomes a section
                // switch carrying the name.
        }),
        ({
            let t = spec_current_token(old(self).toks(), old(self).current as int);
            let t1 = spec_current_token(old(self).toks(), old(self).current + 1);
            (t.kind == TokenType::Directive && t.text == "section"@ && (t1.kind
                    == TokenType::Identifier || t1.kind == TokenType::LabelRef) ==> (r matches Ok(
                    stmt,
                ) && (stmt matches Statement::Section(sec) && sec.name@ == t1.text && sec.line
                    as int == t1.line)) && final(self).current == old(self).current + 2)
                // Bare identifiers dispatch on one token of lookahead.
        }),
        ({
            let t = spec_current_token(old(self).toks(), old(self).current as int);
            let t1 = spec_current_token(old(self).toks(), old(self).current + 1);
            (t.kind == TokenType::Identifier && r is Ok ==> (r->Ok_0 is Label || r->Ok_0
                    is Empty))
        }),
        ({
            let t = spec_current_token(old(self).toks(), old(self).current as int);
            let t1 = spec_current_token(old(self).toks(), old(self).current + 1);
            (t.kind == TokenType::Identifier && t1.kind == TokenType::Colon ==> (r matches
                    Ok(stmt) && (stmt matches Statement::Label(name) && name@ == t.text)) && final(self).current == old(self).current + 2)
        }),
        ({
            let t = spec_current_token(old(self).toks(), old(self).current as int);
            let t1 = spec_current_token(old(self).toks(), old(self).current + 1);
            (t.kind == TokenType::Identifier && t1.kind == TokenType::Directive ==> (
                r matches Ok(stmt) && (stmt matches Statement::Label(name) && name@ == t.text))
                    && final(self).current == old(self).current + 1)
        }),
        ({
            let t = spec_current_token(old(self).toks(), old(self).current as int);
            let t1 = spec_current_token(old(self).toks(), old(self).current + 1);
            (t.kind == TokenType::Identifier && (crate::instruction::spec_is_base_reg_kind(
                t1.kind,
            ) || t1.kind == TokenType::Immediate || t1.kind == TokenType::OpenBracket) ==> ((old(self).continue_on_errors ==> (r matches Ok(stmt) && stmt is Empty)) && (!old(self).continue_on_errors ==> r == Err::<Statement, ErrorType>(
                    ErrorType::UnknownInstruction,
                )) && (old(self).error_collector is Some ==> spec_one_appended(
                    old(self).error_collector,
                    final(self).error_collector,
                    ErrorType::UnknownInstruction,
                ))))
        }),
        ({
            let t = spec_current_token(old(self).toks(), old(self).current as int);
            let t1 = spec_current_token(old(self).toks(), old(self).current + 1);
            (t.kind == TokenType::Identifier && !(t1.kind == TokenType::Colon || t1.kind
                    == TokenType::Directive || crate::instruction::spec_is_base_reg_kind(t1.kind)
                    || t1.kind == TokenType::Immediate || t1.kind == TokenType::OpenBracket) ==> r
                    == Err::<Statement, ErrorType>(ErrorType::SyntaxError) && (old(self).error_collector is Some ==> spec_one_appended(
                    old(self).error_collector,
                    final(self).error_collector,
                    ErrorType::SyntaxError,
                )))
                // Any other token kind at a statement start is refused.
        }),
        ({
            let t = spec_current_token(old(self).toks(), old(self).current as int);
            let t1 = spec_current_token(old(self).toks(), old(self).current + 1);
            (!(spec_is_instr_kind(t.kind) || t.kind == TokenType::Directive || t.kind
                    == TokenType::Label || t.kind == TokenType::Comment || t.kind
                    == TokenType::NewLine || t.kind == TokenType::EOF || t.kind
                    == TokenType::Identifier) && old(self).current < old(self).toks().len() ==> r
                    == Err::<Statement, ErrorType>(ErrorType::SyntaxError))
        }),
    {
        proof {
            lemma_grows_refl(old(self).error_collector);
        }
        if self.current >= self.tokens.len() {
            return Ok(Statement::Empty);
        }
        let kind = self.tokens[self.current].0.token_type;
        if kind == TokenType::Instruction || kind == TokenType::InstrData || kind
            == TokenType::InstrArith || kind == TokenType::InstrLogic || kind
            == TokenType::InstrJump || kind == TokenType::InstrSIMD {
            crate::instruction::parse_instruction(self)
        } else if kind == TokenType::Directive {
            if str_eq(&self.tokens[self.current].0.value, "section") {
                self.advance();
                let mut section_name: Option<(Vec<char>, usize)> = None;
                match self.peek() {
                    Some(p) => {
                        if p.0.token_type == TokenType::Identifier || p.0.token_type
                            == TokenType::LabelRef {
                            section_name = Some((copy_chars(&p.0.value), p.0.line));
                        }
                    },
                    None => {},
                }
                if let Some((name, section_line)) = section_name {
                    self.advance();
                    return Ok(
                        Statement::Section(crate::ast::Section { name, line: section_line }),
                    );
                }
                // Not a section name: fall back to plain directive
                // parsing from the token after `section`.
                return crate::directive::parse_directive(self);
            }
            crate::directive::parse_directive(self)
        } else if kind == TokenType::Label {
            let label = copy_chars(&self.tokens[self.current].0.value);
            self.advance();
            if self.check(TokenType::Colon) {
                self.advance();
            }
            Ok(Statement::Label(label))
        } else if kind == TokenType::Comment {
            let comment = copy_chars(&self.tokens[self.current].0.value);
            self.advance();
            Ok(Statement::Comment(comment))
        } else if kind == TokenType::NewLine {
            self.advance();
            Ok(Statement::Empty)
        } else if kind == TokenType::EOF {
            self.advance();
            Ok(Statement::Empty)
        } else if kind == TokenType::Identifier {
            let value = copy_chars(&self.tokens[self.current].0.value);
            let token_line = self.tokens[self.current].0.line;
            let token_column = self.tokens[self.current].0.column;
            let mut next_kind: Option<TokenType> = None;
            match self.peek_ahead(1) {
                Some(p) => {
                    next_kind = Some(p.0.token_type);
                },
                None => {},
            }
            match next_kind {
                Some(nk) => {
                    if nk == TokenType::Colon {
                        self.advance();
                        self.advance();
                        return Ok(Statement::Label(value));
                    }
                    if nk == TokenType::Directive {
                        // A variable declaration: the identifier is the
                        // data label; the directive is parsed next.
                        self.advance();
                        return Ok(Statement::Label(value));
                    }
                    if nk == TokenType::Register || nk == TokenType::Reg64Bit || nk
                        == TokenType::Reg32Bit || nk == TokenType::Reg16Bit || nk
                        == TokenType::Reg8Bit || nk == TokenType::Immediate || nk
                        == TokenType::OpenBracket {
                        let ghost ec_pre = self.error_collector;
                        self.add_error_kind(
                            ErrorType::UnknownInstruction,
                            "Unknown x86-64 instruction",
                            token_line,
                            token_column,
                        );
                        proof {
                            lemma_one_appended_grows(
                                ec_pre,
                                self.error_collector,
                                ErrorType::UnknownInstruction,
                            );
                            lemma_grows_trans(
                                old(self).error_collector,
                                ec_pre,
                                self.error_collector,
                            );
                        }
                        if self.continue_on_errors {
                            proof {
                                lemma_next_nl(self.toks(), self.current as int);
                            }
                            self.skip_past_newline();
                            return Ok(Statement::Empty);
                        } else {
                            return Err(ErrorType::UnknownInstruction);
                        }
                    }
                },
                None => {},
            }
            let ghost ec_pre = self.error_collector;
            self.add_error_kind(
                ErrorType::SyntaxError,
                "Unexpected identifier",
                token_line,
                token_column,
            );
            proof {
                lemma_one_appended_grows(ec_pre, self.error_collector, ErrorType::SyntaxError);
                lemma_grows_trans(old(self).error_collector, ec_pre, self.error_collector);
            }
            Err(ErrorType::SyntaxError)
        } else {
            let token_line = self.tokens[self.current].0.line;
            let token_column = self.tokens[self.current].0.column;
            let ghost ec_pre = self.error_collector;
            self.add_error_kind(
                ErrorType::SyntaxError,
                "Unexpected token at statement start",
                token_line,
                token_column,
            );
            proof {
                lemma_one_appended_grows(ec_pre, self.error_collector, ErrorType::SyntaxError);
                lemma_grows_trans(old(self).error_collector, ec_pre, self.error_collector);
            }
            Err(ErrorType::SyntaxError)
        }
    }

    /// Pass three: resolves every label operand — except the second
    /// operand of `lea`, whose displacement is patched by the emitter —
    /// against the pass-one offsets, then encodes each instruction. An
    /// unresolvable label aborts with UndefinedLabel; it is never
    /// silently substituted.
    pub fn encode_instructions(&mut self, program: &mut Program) -> (r: Result<(), ErrorType>)
        requires
            old(self).wf(),
        ensures
            final(self).wf(),
            *final(self) == (Parser {
                error_collector: final(self).error_collector,
                ..*old(self)
            }),
            r is Ok ==> final(self).error_collector == old(self).error_collector,
            r is Err ==> spec_one_appended(
                old(self).error_collector,
                final(self).error_collector,
                ErrorType::UndefinedLabel,
            ),
            final(program).sections == old(program).sections,
            final(program).labels == old(program).labels,
            match r {
                Ok(u) => {
                    &&& final(program).statements@.len() == old(program).statements@.len()
                    &&& forall|j: int|
                        0 <= j < old(program).statements@.len()
                            ==> spec_statement_encoded(
                            old(program).statements@[j],
                            #[trigger] final(program).statements@[j],
                            old(self).label_offsets@,
                        )
                },
                Err(e) => {
                    &&& e == ErrorType::UndefinedLabel
                    &&& exists|j: int, k: int|
                        0 <= j < old(program).statements@.len()
                            && #[trigger] spec_has_unresolved_label(
                            old(program).statements@[j],
                            k,
                            old(self).label_offsets@,
                        )
                    &&& final(program).statements@.len() < old(program).statements@.len()
                    // The failure sits exactly at the boundary: the kept
                    // prefix ends at the statement with the unresolved
                    // label.
                    &&& exists|k: int|
                        #[trigger] spec_has_unresolved_label(
                            old(program).statements@[final(program).statements@.len() as int],
                            k,
                            old(self).label_offsets@,
                        )
                    &&& forall|j: int|
                        0 <= j < final(program).statements@.len() ==> spec_statement_encoded(
                            old(program).statements@[j],
                            #[trigger] final(program).statements@[j],
                            old(self).label_offsets@,
                        )
                },
            },
    {
        let encoder = MachineCodeEncoder::new();
        let mut remaining: Vec<Statement> = Vec::new();
        core::mem::swap(&mut remaining, &mut program.statements);
        let ghost input = remaining@;
        let mut idx: usize = 0;
        let n = remaining.len();
        while idx < n
            invariant
                self.wf(),
                *self == *old(self),
                input == old(program).statements@,
                n == input.len(),
                remaining@ == input.subrange(idx as int, n as int),
                idx <= n,
                program.sections == old(program).sections,
                program.labels == old(program).labels,
                program.statements@.len() == idx,
                forall|j: int|
                    0 <= j < idx ==> spec_statement_encoded(
                        input[j],
                        #[trigger] program.statements@[j],
                        self.label_offsets@,
                    ),
            decreases n - idx,
        {
            let stmt = remaining.remove(0);
            proof {
                assert(stmt == input[idx as int]);
                assert(remaining@ =~= input.subrange(idx + 1, n as int));
            }
            let out_stmt: Statement = match stmt {
                Statement::Instruction(instruction) => {
                    let ghost gi = instruction;
                    let crate::ast::Instruction { name, operands, machine_code: _discarded, line } =
                        instruction;
                    let lname = lower(&name);
                    let is_lea = str_eq(&lname, "lea");
                    let mut resolved_ops: Vec<Operand> = Vec::new();
                    let mut ops = operands;
                    let ghost in_ops = ops@;
                    let mut k: usize = 0;
                    let m = ops.len();
                    while k < m
                        invariant
                            self.wf(),
                            *self == *old(self),
                            m == in_ops.len(),
                            ops@ == in_ops.subrange(k as int, m as int),
                            k <= m,
                            name@ == gi.name@,
                            name == gi.name,
                            in_ops == gi.operands@,
                            is_lea == (spec_lower(gi.name@) == "lea"@),
                            input == old(program).statements@,
                            n == input.len(),
                            0 <= idx < input.len(),
                            input[idx as int] == Statement::Instruction(gi),
                            program.sections == old(program).sections,
                            program.labels == old(program).labels,
                            program.statements@.len() == idx,
                            forall|j: int|
                                0 <= j < idx ==> spec_statement_encoded(
                                    input[j],
                                    #[trigger] program.statements@[j],
                                    self.label_offsets@,
                                ),
                            resolved_ops@.len() == k,
                            forall|q: int|
                                0 <= q < k ==> spec_operand_resolved(
                                    is_lea,
                                    q,
                                    in_ops[q],
                                    #[trigger] resolved_ops@[q],
                                    self.label_offsets@,
                                ),
                        decreases m - k,
                    {
                        let op = ops.remove(0);
                        proof {
                            assert(op == in_ops[k as int]);
                            assert(ops@ =~= in_ops.subrange(k + 1, m as int));
                        }
                        let out_op: Operand = match op {
                            Operand::Label(label) => {
                                if is_lea && k == 1 {
                                    Operand::Label(label)
                                } else {
                                    match self.label_offsets.get(&label) {
                                        Some(offset) => {
                                            Operand::Immediate(crate::chars::to_hex_chars(*offset))
                                        },
                                        None => {
                                            proof {
                                                assert(spec_has_unresolved_label(
                                                    input[idx as int],
                                                    k as int,
                                                    self.label_offsets@,
                                                ));
                                            }
                                            let name = crate::chars::chars_string(&label);
                                            self.record_undefined_label(name.as_str(), line);
                                            return Err(ErrorType::UndefinedLabel);
                                        },
                                    }
                                }
                            },
                            other => other,
                        };
                        resolved_ops.push(out_op);
                        k = k + 1;
                    }
                    let mut resolved = crate::ast::Instruction {
                        name,
                        operands: resolved_ops,
                        machine_code: Vec::new(),
                        line,
                    };
                    let code = encoder.encode(&resolved);
                    resolved.machine_code = code;
                    Statement::Instruction(resolved)
                },
                other => other,
            };
            program.statements.push(out_stmt);
            idx = idx + 1;
        }
        Ok(())
    }
    /// The whole parse: the label pre-scan, the statement pass with
    /// optional per-line recovery, and the encoding pass. With a
    /// collector in recovery mode the run always completes with a
    /// program; otherwise the first error aborts. On success the program
    /// carries the pass-one label table classified by section, the three
    /// default sections, and statements whose instructions are encoded
    /// with every label operand resolved except the second operand of
    /// `lea`.
    #[verifier::rlimit(100)]
    pub fn parse(&mut self) -> (r: Result<Program, ErrorType>)
        requires
            old(self).wf(),
            old(self).current == 0,
            old(self).labels@.len() == 0,
            old(self).label_offsets@.len() == 0,
            old(self).current_section@ == ".text"@,
            old(self).text_offset == TEXT_BASE,
            old(self).data_offset == DATA_BASE,
            old(self).bss_offset == BSS_BASE,
        ensures
            final(self).wf(),
            final(self).tokens == old(self).tokens,
            spec_collector_grows(old(self).error_collector, final(self).error_collector),
            old(self).continue_on_errors && old(self).error_collector is Some ==> r is Ok,
            // In strict mode a pre-scan abort fails the whole run, and a
            // run that returns a program collected no blocking
            // diagnostic.
            !old(self).continue_on_errors && spec_pass1(
                old(self).toks(),
                0,
                spec_pass1_init(),
                old(self).error_collector is Some,
                old(self).continue_on_errors,
            ).abort ==> r is Err,
            !old(self).continue_on_errors && r is Ok ==> (match final(self).error_collector {
                Some(c) => !(exists|i: int|
                    0 <= i < c.errors@.len() && crate::errors::spec_blocking(
                        #[trigger] c.errors@[i],
                    )),
                None => true,
            }),
            // A program that starts with a label definition keeps it as
            // its first statement.
            ({
                let toks = old(self).toks();
                toks.len() > 0 && toks[0].kind == TokenType::Label ==> (r matches Ok(program)
                    ==> program.statements@.len() >= 1 && (program.statements@[0] matches
                    Statement::Label(n) && n@ == toks[0].text))
            }),
            // In strict mode, a program that starts with an instruction
            // keeps it, encoded, as its first statement.
            ({
                let toks = old(self).toks();
                !old(self).continue_on_errors && toks.len() > 0 && spec_is_instr_kind(
                    toks[0].kind,
                ) ==> (r matches Ok(program) ==> program.statements@.len() >= 1 && (
                program.statements@[0] matches Statement::Instruction(ins) && ins.name@
                    == spec_lower(toks[0].text) && ins.machine_code@ == spec_encode(ins)))
            }),
            // The pre-scan's diagnostics — exactly one DuplicateLabel per
            // repeated label — stand right after the old entries in the
            // final collector.
            spec_collector_prefix(
                old(self).error_collector,
                final(self).error_collector,
                spec_pass1(
                    old(self).toks(),
                    0,
                    spec_pass1_init(),
                    old(self).error_collector is Some,
                    old(self).continue_on_errors,
                ).errors,
            ),
            // No later pass reports duplicate labels: every entry beyond
            // the pre-scan batch has another kind, so the DuplicateLabel
            // count of the whole run is the pre-scan's.
            ({
                let p1 = spec_pass1(
                    old(self).toks(),
                    0,
                    spec_pass1_init(),
                    old(self).error_collector is Some,
                    old(self).continue_on_errors,
                );
                match (old(self).error_collector, final(self).error_collector) {
                    (Some(c0), Some(c2)) => forall|j: int|
                        c0.errors@.len() + p1.errors.len() <= j < c2.errors@.len() ==> (
                        #[trigger] c2.errors@[j]).error_type != ErrorType::DuplicateLabel,
                    _ => true,
                }
            }),
            ({
                let p1 = spec_pass1(
                    old(self).toks(),
                    0,
                    spec_pass1_init(),
                    old(self).error_collector is Some,
                    old(self).continue_on_errors,
                );
                r matches Ok(program) ==> {
                    &&& program.wf()
                    &&& (match spec_get(program.sections@, ".text"@) {
                        Some(info) => info.size == 0x1000,
                        None => false,
                    })
                    &&& (match spec_get(program.sections@, ".data"@) {
                        Some(info) => info.size == 0x1000,
                        None => false,
                    })
                    &&& (match spec_get(program.sections@, ".bss"@) {
                        Some(info) => info.size == 0x1000,
                        None => false,
                    })
                    &&& forall|k: Seq<char>|
                        labels_entry_matches(
                            #[trigger] spec_get(program.labels@, k),
                            crate::names::map_opt(p1.offsets, k),
                        )
                    &&& forall|j: int|
                        0 <= j < program.statements@.len() ==> spec_statement_final(
                            #[trigger] program.statements@[j],
                        )
                }
            }),
    {
        let mut program = Program::new();
        let cont = self.continue_on_errors;
        let ghost p1 = spec_pass1(
            self.toks(),
            0,
            spec_pass1_init(),
            self.error_collector is Some,
            self.continue_on_errors,
        );

        let ghost ec_start = old(self).error_collector;
        match self.collect_labels_and_sections() {
            Ok(u) => {
                proof {
                    lemma_appended_grows(ec_start, self.error_collector, p1.errors);
                    lemma_grows_refl(self.error_collector);
                    lemma_prefix_through_growth(
                        ec_start,
                        self.error_collector,
                        self.error_collector,
                        p1.errors,
                    );
                }
            },
            Err(e) => {
                proof {
                    lemma_appended_grows(ec_start, self.error_collector, p1.errors);
                    lemma_grows_refl(self.error_collector);
                    lemma_prefix_through_growth(
                        ec_start,
                        self.error_collector,
                        self.error_collector,
                        p1.errors,
                    );
                    lemma_no_kind_refl(self.error_collector, ErrorType::DuplicateLabel);
                    lemma_batch_then_no_kind(
                        ec_start,
                        self.error_collector,
                        self.error_collector,
                        p1.errors,
                        ErrorType::DuplicateLabel,
                    );
                }
                if !self.continue_on_errors {
                    return Err(e);
                }
            },
        }
        let ghost ec_after_pass1 = self.error_collector;
        proof {
            assert(spec_collector_appended(ec_start, ec_after_pass1, p1.errors));
        }

        // Populate the program's label table from the pass-one offsets,
        // classifying each by the base-address range it falls in.
        let ghost offs = self.label_offsets@;
        let n = self.label_offsets.len();
        let mut i: usize = 0;
        proof {
            assert(offs.take(0) =~= Seq::<(Seq<char>, u64)>::empty());
        }
        while i < n
            invariant
                i <= n,
                n == offs.len(),
                self.label_offsets@ == offs,
                self.label_offsets.wf(),
                program.wf(),
                program.statements@.len() == 0,
                program.sections@.len() == 0,
                self.text_offset == TEXT_BASE,
                self.data_offset == DATA_BASE,
                self.bss_offset == BSS_BASE,
                forall|k: Seq<char>|
                    labels_entry_matches(
                        #[trigger] spec_get(program.labels@, k),
                        spec_get(offs.take(i as int), k),
                    ),
            decreases n - i,
        {
            let name = copy_chars(self.label_offsets.key_at(i));
            let offset = *self.label_offsets.value_at(i);
            let section: Option<Vec<char>> = if offset >= self.text_offset && offset
                < self.data_offset {
                Some(str_to_chars(".text"))
            } else if offset >= self.data_offset && offset < self.bss_offset {
                Some(str_to_chars(".data"))
            } else if offset >= self.bss_offset {
                Some(str_to_chars(".bss"))
            } else {
                None
            };
            let ghost labels_before = program.labels@;
            program.add_label(name, offset, section);
            proof {
                assert(offs.take(i + 1) =~= offs.take(i as int).push(offs[i as int]));
                assert forall|j: int| 0 <= j < i implies offs.take(i as int)[j].0 != offs[i as int].0 by {
                    assert(offs[j].0 != offs[i as int].0);
                }
                crate::names::lemma_push_get(
                    offs.take(i as int),
                    offs[i as int].0,
                    offs[i as int].1,
                );
                assert forall|k: Seq<char>|
                    labels_entry_matches(
                        #[trigger] spec_get(program.labels@, k),
                        spec_get(offs.take(i + 1), k),
                    ) by {
                    assert(spec_get(offs.take(i + 1), k) == if k == offs[i as int].0 {
                        Some(offs[i as int].1)
                    } else {
                        spec_get(offs.take(i as int), k)
                    });
                }
            }
            i = i + 1;
        }
        proof {
            assert(offs.take(n as int) =~= offs);
        }

        program.add_section(str_to_chars(".text"), 0x1000);
        program.add_section(str_to_chars(".data"), 0x1000);
        program.add_section(str_to_chars(".bss"), 0x1000);
        proof {
            reveal_strlit(".text");
            reveal_strlit(".data");
            reveal_strlit(".bss");
        }

        self.current = 0;

        // Pass two: build statements, resynchronizing at line boundaries
        // in recovery mode.
        let ghost labels_done = program.labels;
        let ghost sections_done = program.sections;
        let ghost toks = self.toks();
        let ghost ec0 = self.error_collector;
        proof {
            lemma_grows_refl(ec0);
            lemma_no_kind_refl(ec0, ErrorType::DuplicateLabel);
        }
        loop
            invariant
                self.wf(),
                program.wf(),
                toks == self.toks(),
                self.tokens == old(self).tokens,
                self.label_offsets@ == offs,
                self.continue_on_errors == cont,
                cont == old(self).continue_on_errors,
                (self.error_collector is Some) == (ec0 is Some),
                (ec0 is Some) == (old(self).error_collector is Some),
                ec0 == ec_after_pass1,
                spec_collector_appended(old(self).error_collector, ec_after_pass1, p1.errors),
                p1 == spec_pass1(
                    old(self).toks(),
                    0,
                    spec_pass1_init(),
                    old(self).error_collector is Some,
                    old(self).continue_on_errors,
                ),
                spec_collector_grows(old(self).error_collector, ec0),
                spec_collector_grows(ec0, self.error_collector),
                spec_no_kind_appended(ec0, self.error_collector, ErrorType::DuplicateLabel),
                program.labels == labels_done,
                program.sections == sections_done,
                self.current == 0 ==> program.statements@.len() == 0,
                toks.len() > 0 && toks[0].kind == TokenType::Label && self.current > 0 ==> (
                program.statements@.len() >= 1 && (program.statements@[0] matches Statement::Label(
                    n,
                ) && n@ == toks[0].text)),
                !cont && toks.len() > 0 && spec_is_instr_kind(toks[0].kind) && self.current > 0
                    ==> (program.statements@.len() >= 1 && (program.statements@[0] matches
                    Statement::Instruction(ins) && ins.name@ == spec_lower(toks[0].text)
                    && ins.machine_code@.len() == 0)),
            ensures
                self.wf(),
                program.wf(),
                toks == self.toks(),
                self.tokens == old(self).tokens,
                self.label_offsets@ == offs,
                self.continue_on_errors == cont,
                cont == old(self).continue_on_errors,
                (self.error_collector is Some) == (ec0 is Some),
                (ec0 is Some) == (old(self).error_collector is Some),
                ec0 == ec_after_pass1,
                spec_collector_appended(old(self).error_collector, ec_after_pass1, p1.errors),
                p1 == spec_pass1(
                    old(self).toks(),
                    0,
                    spec_pass1_init(),
                    old(self).error_collector is Some,
                    old(self).continue_on_errors,
                ),
                spec_collector_grows(old(self).error_collector, ec0),
                spec_collector_grows(ec0, self.error_collector),
                spec_no_kind_appended(ec0, self.error_collector, ErrorType::DuplicateLabel),
                program.labels == labels_done,
                program.sections == sections_done,
                toks.len() > 0 && toks[0].kind == TokenType::Label ==> (
                program.statements@.len() >= 1 && (program.statements@[0] matches Statement::Label(
                    n,
                ) && n@ == toks[0].text)),
                !cont && toks.len() > 0 && spec_is_instr_kind(toks[0].kind) ==> (
                program.statements@.len() >= 1 && (program.statements@[0] matches
                    Statement::Instruction(ins) && ins.name@ == spec_lower(toks[0].text)
                    && ins.machine_code@.len() == 0)),
            decreases toks.len() - self.current,
        {
            if self.current >= self.tokens.len() {
                break;
            }
            if self.tokens[self.current].0.token_type == TokenType::EOF {
                break;
            }
            let ghost ec_pre = self.error_collector;
            match self.parse_statement() {
                Ok(statement) => {
                    program.add_statement(statement);
                    proof {
                        lemma_grows_trans(ec0, ec_pre, self.error_collector);
                        lemma_no_kind_compose(
                            ec0,
                            ec_pre,
                            self.error_collector,
                            ErrorType::DuplicateLabel,
                        );
                    }
                },
                Err(e) => {
                    proof {
                        lemma_grows_trans(ec0, ec_pre, self.error_collector);
                        lemma_no_kind_compose(
                            ec0,
                            ec_pre,
                            self.error_collector,
                            ErrorType::DuplicateLabel,
                        );
                    }
                    if self.error_collector.is_some() && self.continue_on_errors {
                        let resync_from = self.current;
                        proof {
                            lemma_next_nl(toks, self.current as int);
                        }
                        self.skip_past_newline();
                        if self.current == resync_from {
                            // No resynchronization progress is possible
                            // only at the very end of the tokens.
                            self.advance();
                            if self.current == resync_from {
                                break;
                            }
                        }
                    } else {
                        proof {
                            lemma_grows_trans(
                                old(self).error_collector,
                                ec0,
                                self.error_collector,
                            );
                            lemma_prefix_through_growth(
                                old(self).error_collector,
                                ec0,
                                self.error_collector,
                                p1.errors,
                            );
                            lemma_batch_then_no_kind(
                                old(self).error_collector,
                                ec0,
                                self.error_collector,
                                p1.errors,
                                ErrorType::DuplicateLabel,
                            );
                        }
                        return Err(e);
                    }
                },
            }
        }
        proof {
            lemma_grows_trans(old(self).error_collector, ec0, self.error_collector);
            lemma_prefix_through_growth(
                old(self).error_collector,
                ec0,
                self.error_collector,
                p1.errors,
            );
            lemma_batch_then_no_kind(
                old(self).error_collector,
                ec0,
                self.error_collector,
                p1.errors,
                ErrorType::DuplicateLabel,
            );
        }

        // Pass three: resolve and encode.
        let ghost before_encode = program.statements@;
        let ghost ec_before_encode = self.error_collector;
        match self.encode_instructions(&mut program) {
            Ok(u) => {
                proof {
                    assert forall|j: int| 0 <= j < program.statements@.len() implies
                        spec_statement_final(#[trigger] program.statements@[j]) by {
                        lemma_encoded_final(
                            before_encode[j],
                            program.statements@[j],
                            self.label_offsets@,
                        );
                    }
                    if before_encode.len() > 0 {
                        assert(spec_statement_encoded(
                            before_encode[0],
                            program.statements@[0],
                            self.label_offsets@,
                        ));
                    }
                }
            },
            Err(e) => {
                proof {
                    let toks0 = old(self).toks();
                    if toks0.len() > 0 && toks0[0].kind == TokenType::Label
                        && before_encode.len() > 0 {
                        if program.statements@.len() == 0 {
                            let k = choose|k: int|
                                spec_has_unresolved_label(
                                    before_encode[0],
                                    k,
                                    self.label_offsets@,
                                );
                            assert(!spec_has_unresolved_label(
                                before_encode[0],
                                k,
                                self.label_offsets@,
                            ));
                        }
                        assert(spec_statement_encoded(
                            before_encode[0],
                            program.statements@[0],
                            self.label_offsets@,
                        ));
                    }
                    lemma_one_appended_grows(
                        ec_before_encode,
                        self.error_collector,
                        ErrorType::UndefinedLabel,
                    );
                    lemma_grows_trans(
                        old(self).error_collector,
                        ec_before_encode,
                        self.error_collector,
                    );
                    lemma_grows_trans(ec0, ec_before_encode, self.error_collector);
                    lemma_prefix_through_growth(
                        old(self).error_collector,
                        ec0,
                        self.error_collector,
                        p1.errors,
                    );
                    lemma_one_no_kind(
                        ec_before_encode,
                        self.error_collector,
                        ErrorType::UndefinedLabel,
                        ErrorType::DuplicateLabel,
                    );
                    lemma_no_kind_compose(
                        ec0,
                        ec_before_encode,
                        self.error_collector,
                        ErrorType::DuplicateLabel,
                    );
                    lemma_batch_then_no_kind(
                        old(self).error_collector,
                        ec0,
                        self.error_collector,
                        p1.errors,
                        ErrorType::DuplicateLabel,
                    );
                    assert forall|j: int| 0 <= j < program.statements@.len() implies
                        spec_statement_final(#[trigger] program.statements@[j]) by {
                        lemma_encoded_final(
                            before_encode[j],
                            program.statements@[j],
                            self.label_offsets@,
                        );
                    }
                }
                if !self.continue_on_errors || self.error_collector.is_none() {
                    return Err(e);
                }
            },
        }

        if !self.continue_on_errors {
            if self.has_errors() {
                return Err(ErrorType::Other);
            }
        }
        proof {
            assert forall|k: Seq<char>|
                labels_entry_matches(
                    #[trigger] spec_get(program.labels@, k),
                    crate::names::map_opt(p1.offsets, k),
                ) by {
                assert(crate::names::map_opt(p1.offsets, k) == spec_get(offs, k));
            }
        }
        Ok(program)
    }
}

/// The token image `current_token` yields: the token at the cursor, or
/// an EOF token at line 0 past the end.
pub open spec fn spec_current_token(toks: Seq<TokenV>, i: int) -> TokenV {
    if 0 <= i < toks.len() {
        toks[i]
    } else {
        TokenV { kind: TokenType::EOF, text: Seq::empty(), line: 0, column: 0 }
    }
}

/// Builds an owned `String` from a literal.
fn str_to_chars_string(s: &str) -> (r: String)
    ensures
        r@ == s@,
{
    s.to_owned()
}


/// Appending one more diagnostic extends the appended batch.
pub proof fn lemma_collector_compose(
    base: Option<ErrorCollector>,
    mid: Option<ErrorCollector>,
    fin: Option<ErrorCollector>,
    done: Seq<(ErrorType, int, int)>,
    e: (ErrorType, int, int),
)
    requires
        spec_collector_appended(base, mid, done),
        spec_collector_appended(mid, fin, seq![e]),
    ensures
        spec_collector_appended(base, fin, done.push(e)),
{
    match base {
        Some(c0) => {
            let c1 = mid->Some_0;
            let c2 = fin->Some_0;
            assert(c2.errors@.take(c0.errors@.len() as int) =~= c0.errors@);
            assert forall|j: int| 0 <= j < done.push(e).len() implies {
                let err = #[trigger] c2.errors@[c0.errors@.len() + j];
                &&& err.error_type == done.push(e)[j].0
                &&& match err.location {
                    Some(loc) => loc.line as int == done.push(e)[j].1 && loc.column as int
                        == done.push(e)[j].2,
                    None => false,
                }
            } by {
                if j < done.len() {
                    assert(c1.errors@[c0.errors@.len() + j].error_type == done[j].0);
                    assert(c2.errors@.take(c1.errors@.len() as int) == c1.errors@);
                    assert(c2.errors@.take(c1.errors@.len() as int)[c0.errors@.len() + j]
                        == c2.errors@[c0.errors@.len() + j]);
                } else {
                    assert(c2.errors@[c1.errors@.len() + 0int].error_type == e.0);
                    assert(c0.errors@.len() + j == c1.errors@.len() + 0int);
                }
            }
        },
        None => {},
    }
}


/// The collector only gains diagnostics: the old ones are a prefix.
pub open spec fn spec_collector_grows(
    before: Option<ErrorCollector>,
    after: Option<ErrorCollector>,
) -> bool {
    match before {
        Some(c0) => match after {
            Some(c1) => c1.errors@.len() >= c0.errors@.len() && c1.errors@.take(
                c0.errors@.len() as int,
            ) == c0.errors@,
            None => false,
        },
        None => after is None,
    }
}

pub proof fn lemma_grows_refl(c: Option<ErrorCollector>)
    ensures
        spec_collector_grows(c, c),
{
    match c {
        Some(c0) => {
            assert(c0.errors@.take(c0.errors@.len() as int) =~= c0.errors@);
        },
        None => {},
    }
}

pub proof fn lemma_grows_trans(
    a: Option<ErrorCollector>,
    b: Option<ErrorCollector>,
    c: Option<ErrorCollector>,
)
    requires
        spec_collector_grows(a, b),
        spec_collector_grows(b, c),
    ensures
        spec_collector_grows(a, c),
{
    match a {
        Some(c0) => {
            let c1 = b->Some_0;
            let c2 = c->Some_0;
            assert(c2.errors@.take(c0.errors@.len() as int) =~= c0.errors@);
        },
        None => {},
    }
}

/// Appending a batch is one way of growing.
pub proof fn lemma_appended_grows(
    a: Option<ErrorCollector>,
    b: Option<ErrorCollector>,
    appended: Seq<(ErrorType, int, int)>,
)
    requires
        spec_collector_appended(a, b, appended),
    ensures
        spec_collector_grows(a, b),
{
}

/// Everything except the cursor is untouched.
pub open spec fn same_but_cursor(a: Parser, b: Parser) -> bool {
    b == (Parser { current: b.current, ..a })
}

/// Everything except the cursor and the collector is untouched, the
/// collector only grew, and — pass one being the only reporter of
/// duplicate labels — nothing of that kind was appended.
pub open spec fn same_but_cursor_errors(a: Parser, b: Parser) -> bool {
    &&& b == (Parser { current: b.current, error_collector: b.error_collector, ..a })
    &&& spec_collector_grows(a.error_collector, b.error_collector)
    &&& spec_no_kind_appended(a.error_collector, b.error_collector, ErrorType::DuplicateLabel)
}


/// How one operand comes out of the resolution pass: labels become the
/// hex-spelled estimated address, except the second operand of `lea`;
/// everything else is unchanged.
pub open spec fn spec_operand_resolved(
    is_lea: bool,
    k: int,
    before: Operand,
    after: Operand,
    offsets: Seq<(Seq<char>, u64)>,
) -> bool {
    match before {
        Operand::Label(l) => {
            if is_lea && k == 1 {
                after == before
            } else {
                match spec_get(offsets, l@) {
                    Some(off) => after matches Operand::Immediate(v) && v@
                        == crate::chars::spec_hex_chars(off),
                    None => false,
                }
            }
        },
        _ => after == before,
    }
}

/// How one statement comes out of the encoding pass: instructions have
/// their operands resolved and their machine code equal to the encoder's
/// output; every other statement is unchanged.
pub open spec fn spec_statement_encoded(
    before: Statement,
    after: Statement,
    offsets: Seq<(Seq<char>, u64)>,
) -> bool {
    match before {
        Statement::Instruction(ins) => match after {
            Statement::Instruction(fin) => {
                &&& fin.name == ins.name
                &&& fin.line == ins.line
                &&& fin.operands@.len() == ins.operands@.len()
                &&& forall|q: int|
                    0 <= q < ins.operands@.len() ==> spec_operand_resolved(
                        spec_lower(ins.name@) == "lea"@,
                        q,
                        ins.operands@[q],
                        #[trigger] fin.operands@[q],
                        offsets,
                    )
                &&& fin.machine_code@ == spec_encode(fin)
            },
            _ => false,
        },
        _ => after == before,
    }
}

/// Operand `k` of the statement is a label reference with no recorded
/// offset, outside the second operand of `lea`: the condition that makes
/// the encoding pass abort.
pub open spec fn spec_has_unresolved_label(
    stmt: Statement,
    k: int,
    offsets: Seq<(Seq<char>, u64)>,
) -> bool {
    match stmt {
        Statement::Instruction(ins) => {
            &&& 0 <= k < ins.operands@.len()
            &&& !(spec_lower(ins.name@) == "lea"@ && k == 1)
            &&& match ins.operands@[k] {
                Operand::Label(l) => spec_get(offsets, l@) is None,
                _ => false,
            }
        },
        _ => false,
    }
}

/// A statement as the whole parse leaves it: machine code equals the
/// encoder's output and, outside the second operand of `lea`, no label
/// operand survives unresolved.
pub open spec fn spec_statement_final(st: Statement) -> bool {
    match st {
        Statement::Instruction(fin) => {
            &&& fin.machine_code@ == spec_encode(fin)
            &&& forall|q: int|
                0 <= q < fin.operands@.len() && !(spec_lower(fin.name@) == "lea"@ && q == 1)
                    ==> !((#[trigger] fin.operands@[q]) is Label)
        },
        _ => true,
    }
}

/// What the encoding pass produces satisfies the final-statement shape.
pub proof fn lemma_encoded_final(
    before: Statement,
    after: Statement,
    offsets: Seq<(Seq<char>, u64)>,
)
    requires
        spec_statement_encoded(before, after, offsets),
    ensures
        spec_statement_final(after),
{
    match before {
        Statement::Instruction(ins) => {
            match after {
                Statement::Instruction(fin) => {
                    assert forall|q: int|
                        0 <= q < fin.operands@.len() && !(spec_lower(fin.name@) == "lea"@ && q
                            == 1) implies !((#[trigger] fin.operands@[q]) is Label) by {
                        assert(spec_operand_resolved(
                            spec_lower(ins.name@) == "lea"@,
                            q,
                            ins.operands@[q],
                            fin.operands@[q],
                            offsets,
                        ));
                    }
                },
                _ => {},
            }
        },
        _ => {},
    }
}

/// The section a pass-one estimated offset classifies into.
pub open spec fn spec_classify_section(offset: u64) -> Option<Seq<char>> {
    if TEXT_BASE <= offset < DATA_BASE {
        Some(".text"@)
    } else if DATA_BASE <= offset < BSS_BASE {
        Some(".data"@)
    } else if offset >= BSS_BASE {
        Some(".bss"@)
    } else {
        None
    }
}

/// How a program-label entry reflects a pass-one offset entry.
pub open spec fn labels_entry_matches(
    li: Option<crate::ast::LabelInfo>,
    off: Option<u64>,
) -> bool {
    match off {
        Some(o) => li matches Some(info) && info.offset == o && (match spec_classify_section(o) {
            Some(name) => info.section matches Some(s) && s@ == name,
            None => info.section is None,
        }),
        None => li is None,
    }
}




/// In recovery mode with a collector, the pre-scan never aborts: each
/// duplicate label costs exactly one DuplicateLabel diagnostic and the
/// run still completes.
pub proof fn lemma_pass1_recovery_completes(toks: Seq<TokenV>, i: int, st: Pass1)
    requires
        !st.abort,
    ensures
        !spec_pass1(toks, i, st, true, true).abort,
    decreases toks.len() - i,
{
    if 0 <= i < toks.len() {
        lemma_next_nl(toks, i + 1);
        let t = toks[i];
        if t.kind != TokenType::NewLine {
            assert(spec_next_nl(toks, i) == spec_next_nl(toks, i + 1));
        }
        if t.kind == TokenType::Label {
            if st.labels.dom().contains(t.text) {
                lemma_pass1_recovery_completes(
                    toks,
                    spec_colon_skip(toks, i + 1),
                    Pass1 {
                        errors: st.errors.push((ErrorType::DuplicateLabel, t.line, t.column)),
                        ..st
                    },
                );
            } else {
                lemma_pass1_recovery_completes(
                    toks,
                    spec_colon_skip(toks, i + 1),
                    Pass1 {
                        labels: st.labels.insert(t.text, st.stmt_index as usize),
                        offsets: st.offsets.insert(t.text, st.offset),
                        ..st
                    },
                );
            }
        } else if t.kind == TokenType::Directive {
            if t.text == "section"@ {
                if i + 1 >= toks.len() {
                    lemma_pass1_recovery_completes(
                        toks,
                        spec_nl_skip(toks, i + 1),
                        Pass1 {
                            errors: st.errors.push((ErrorType::SectionError, t.line, t.column)),
                            stmt_index: st.stmt_index + 1,
                            ..st
                        },
                    );
                } else {
                    let sec = toks[i + 1];
                    if sec.kind == TokenType::LabelRef || sec.kind == TokenType::Identifier {
                        lemma_pass1_recovery_completes(
                            toks,
                            spec_nl_skip(toks, i + 1),
                            Pass1 {
                                section: sec.text,
                                offset: spec_section_base(sec.text),
                                stmt_index: st.stmt_index + 1,
                                ..st
                            },
                        );
                    } else {
                        lemma_pass1_recovery_completes(
                            toks,
                            spec_nl_skip(toks, i + 1),
                            Pass1 {
                                errors: st.errors.push(
                                    (ErrorType::SectionError, sec.line, sec.column),
                                ),
                                stmt_index: st.stmt_index + 1,
                                ..st
                            },
                        );
                    }
                }
            } else {
                lemma_pass1_recovery_completes(
                    toks,
                    spec_nl_skip(toks, i),
                    Pass1 {
                        stmt_index: st.stmt_index + 1,
                        offset: spec_bump(st.offset),
                        ..st
                    },
                );
            }
        } else if t.kind == TokenType::NewLine {
            lemma_pass1_recovery_completes(toks, i + 1, st);
        } else if t.kind == TokenType::Comment {
            lemma_pass1_recovery_completes(
                toks,
                i + 1,
                Pass1 { stmt_index: st.stmt_index + 1, ..st },
            );
        } else if spec_is_instr_kind(t.kind) {
            lemma_pass1_recovery_completes(
                toks,
                spec_nl_skip(toks, i),
                Pass1 {
                    offset: spec_bump(st.offset),
                    stmt_index: st.stmt_index + 1,
                    ..st
                },
            );
        } else {
            lemma_pass1_recovery_completes(
                toks,
                spec_nl_skip(toks, i),
                Pass1 { stmt_index: st.stmt_index + 1, ..st },
            );
        }
    }
}


/// A resolved label operand carries exactly the recorded offset: the
/// hex spelling parses back to the same value, so the encoder reads the
/// true address and nothing is silently substituted.
pub proof fn lemma_resolved_operand_value(
    is_lea: bool,
    k: int,
    before: Operand,
    after: Operand,
    offsets: Seq<(Seq<char>, u64)>,
)
    requires
        spec_operand_resolved(is_lea, k, before, after, offsets),
        before is Label,
        !(is_lea && k == 1),
    ensures
        ({
            let l = before->Label_0;
            &&& spec_get(offsets, l@) is Some
            &&& after matches Operand::Immediate(v) && crate::chars::spec_parse_immediate(v@)
                == Some(spec_get(offsets, l@)->Some_0)
        }),
{
    match before {
        Operand::Label(l) => {
            match spec_get(offsets, l@) {
                Some(off) => {
                    crate::chars::lemma_hex_round_trip(off);
                },
                None => {},
            }
        },
        _ => {},
    }
}


/// First definition wins: once the pre-scan has recorded a label's
/// offset, later occurrences of the same name are reported, never
/// silently overwritten.
pub proof fn lemma_pass1_first_definition_wins(
    toks: Seq<TokenV>,
    i: int,
    st: Pass1,
    has_col: bool,
    cont: bool,
    k: Seq<char>,
)
    requires
        st.labels.dom() == st.offsets.dom(),
        st.offsets.dom().contains(k),
    ensures
        spec_pass1(toks, i, st, has_col, cont).offsets.dom().contains(k),
        spec_pass1(toks, i, st, has_col, cont).offsets[k] == st.offsets[k],
    decreases toks.len() - i,
{
    if !(i < 0 || i >= toks.len() || st.abort) {
        lemma_next_nl(toks, i + 1);
        let t = toks[i];
        if t.kind != TokenType::NewLine {
            assert(spec_next_nl(toks, i) == spec_next_nl(toks, i + 1));
        }
        // The successor position and state, exactly as the pre-scan
        // computes them; the flag is false where the pass aborts.
        let step: (bool, int, Pass1) = if t.kind == TokenType::Label {
            if st.labels.dom().contains(t.text) {
                let errors = if has_col {
                    st.errors.push((ErrorType::DuplicateLabel, t.line, t.column))
                } else {
                    st.errors
                };
                if has_col && cont {
                    (true, spec_colon_skip(toks, i + 1), Pass1 { errors, ..st })
                } else {
                    (false, i, st)
                }
            } else {
                (
                    true,
                    spec_colon_skip(toks, i + 1),
                    Pass1 {
                        labels: st.labels.insert(t.text, st.stmt_index as usize),
                        offsets: st.offsets.insert(t.text, st.offset),
                        ..st
                    },
                )
            }
        } else if t.kind == TokenType::Directive {
            if t.text == "section"@ {
                if i + 1 >= toks.len() {
                    let errors = if has_col {
                        st.errors.push((ErrorType::SectionError, t.line, t.column))
                    } else {
                        st.errors
                    };
                    if has_col && cont {
                        (
                            true,
                            spec_nl_skip(toks, i + 1),
                            Pass1 { errors, stmt_index: st.stmt_index + 1, ..st },
                        )
                    } else {
                        (false, i, st)
                    }
                } else {
                    let sec = toks[i + 1];
                    if sec.kind == TokenType::LabelRef || sec.kind == TokenType::Identifier {
                        (
                            true,
                            spec_nl_skip(toks, i + 1),
                            Pass1 {
                                section: sec.text,
                                offset: spec_section_base(sec.text),
                                stmt_index: st.stmt_index + 1,
                                ..st
                            },
                        )
                    } else {
                        let errors = if has_col {
                            st.errors.push((ErrorType::SectionError, sec.line, sec.column))
                        } else {
                            st.errors
                        };
                        if has_col && cont {
                            (
                                true,
                                spec_nl_skip(toks, i + 1),
                                Pass1 { errors, stmt_index: st.stmt_index + 1, ..st },
                            )
                        } else {
                            (false, i, st)
                        }
                    }
                }
            } else {
                (
                    true,
                    spec_nl_skip(toks, i),
                    Pass1 { stmt_index: st.stmt_index + 1, offset: spec_bump(st.offset), ..st },
                )
            }
        } else if t.kind == TokenType::NewLine {
            (true, i + 1, st)
        } else if t.kind == TokenType::Comment {
            (true, i + 1, Pass1 { stmt_index: st.stmt_index + 1, ..st })
        } else if spec_is_instr_kind(t.kind) {
            (
                true,
                spec_nl_skip(toks, i),
                Pass1 { offset: spec_bump(st.offset), stmt_index: st.stmt_index + 1, ..st },
            )
        } else {
            (true, spec_nl_skip(toks, i), Pass1 { stmt_index: st.stmt_index + 1, ..st })
        };
        let stepped = step.0;
        let j = step.1;
        let stn = step.2;
        if stepped {
            assert(spec_pass1(toks, i, st, has_col, cont) == spec_pass1(
                toks,
                j,
                stn,
                has_col,
                cont,
            ));
            assert(stn.labels.dom() =~= stn.offsets.dom());
            assert(stn.offsets.dom().contains(k) && stn.offsets[k] == st.offsets[k]);
            lemma_pass1_first_definition_wins(toks, j, stn, has_col, cont, k);
        } else {
            assert(spec_pass1(toks, i, st, has_col, cont).offsets == st.offsets);
        }
    } else {
        assert(spec_pass1(toks, i, st, has_col, cont) == st);
    }
}


/// A diagnostic that carries its usage hint.
pub open spec fn spec_hinted(e: crate::errors::Error, ty: ErrorType, hint: Seq<char>) -> bool {
    &&& e.error_type == ty
    &&& match e.detail.help {
        Some(h) => h@ == hint,
        None => false,
    }
}

/// The collector gained only diagnostics of the given kind, each carrying
/// the given hint; the old entries are untouched.
pub open spec fn spec_hinted_errors(
    before: Option<ErrorCollector>,
    after: Option<ErrorCollector>,
    ty: ErrorType,
    hint: Seq<char>,
) -> bool {
    match before {
        Some(c0) => match after {
            Some(c1) => {
                &&& c1.errors@.len() >= c0.errors@.len()
                &&& c1.errors@.take(c0.errors@.len() as int) == c0.errors@
                &&& forall|j: int|
                    c0.errors@.len() <= j < c1.errors@.len() ==> spec_hinted(
                        #[trigger] c1.errors@[j],
                        ty,
                        hint,
                    )
            },
            None => false,
        },
        None => after is None,
    }
}

pub proof fn lemma_hinted_refl(c: Option<ErrorCollector>, ty: ErrorType, hint: Seq<char>)
    ensures
        spec_hinted_errors(c, c, ty, hint),
{
    match c {
        Some(c0) => {
            assert(c0.errors@.take(c0.errors@.len() as int) =~= c0.errors@);
        },
        None => {},
    }
}

pub proof fn lemma_hinted_compose(
    a: Option<ErrorCollector>,
    b: Option<ErrorCollector>,
    c: Option<ErrorCollector>,
    ty: ErrorType,
    hint: Seq<char>,
)
    requires
        spec_hinted_errors(a, b, ty, hint),
        spec_hinted_errors(b, c, ty, hint),
    ensures
        spec_hinted_errors(a, c, ty, hint),
{
    match a {
        Some(c0) => {
            let c1 = b->Some_0;
            let c2 = c->Some_0;
            assert(c2.errors@.take(c0.errors@.len() as int) =~= c0.errors@);
            assert forall|j: int| c0.errors@.len() <= j < c2.errors@.len() implies spec_hinted(
                #[trigger] c2.errors@[j],
                ty,
                hint,
            ) by {
                if j < c1.errors@.len() {
                    assert(c2.errors@.take(c1.errors@.len() as int)[j] == c2.errors@[j]);
                    assert(c1.errors@[j] == c2.errors@[j]);
                }
            }
        },
        None => {},
    }
}

/// Hinted growth keeps the old entries, so the collector only grew.
pub proof fn lemma_hinted_grows(
    a: Option<ErrorCollector>,
    b: Option<ErrorCollector>,
    ty: ErrorType,
    hint: Seq<char>,
)
    requires
        spec_hinted_errors(a, b, ty, hint),
    ensures
        spec_collector_grows(a, b),
{
}


/// Exactly one diagnostic of the given kind was appended (when a
/// collector is present).
pub open spec fn spec_one_appended(
    before: Option<ErrorCollector>,
    after: Option<ErrorCollector>,
    ty: ErrorType,
) -> bool {
    match before {
        Some(c0) => match after {
            Some(c1) => c1.errors@.len() == c0.errors@.len() + 1 && c1.errors@.take(
                c0.errors@.len() as int,
            ) == c0.errors@ && c1.errors@.last().error_type == ty,
            None => false,
        },
        None => after is None,
    }
}

pub proof fn lemma_one_appended_grows(
    a: Option<ErrorCollector>,
    b: Option<ErrorCollector>,
    ty: ErrorType,
)
    requires
        spec_one_appended(a, b, ty),
    ensures
        spec_collector_grows(a, b),
{
}


/// The collector still begins with the old entries followed by the given
/// batch: later growth cannot disturb them. Through this, the pre-scan's
/// diagnostics — exactly one DuplicateLabel per repeated label — stay
/// visible in the final collector.
pub open spec fn spec_collector_prefix(
    before: Option<ErrorCollector>,
    after: Option<ErrorCollector>,
    appended: Seq<(ErrorType, int, int)>,
) -> bool {
    match before {
        Some(c0) => match after {
            Some(c1) => {
                &&& c1.errors@.len() >= c0.errors@.len() + appended.len()
                &&& c1.errors@.take(c0.errors@.len() as int) == c0.errors@
                &&& forall|j: int|
                    0 <= j < appended.len() ==> {
                        let e = #[trigger] c1.errors@[c0.errors@.len() + j];
                        &&& e.error_type == appended[j].0
                        &&& match e.location {
                            Some(loc) => loc.line as int == appended[j].1 && loc.column as int
                                == appended[j].2,
                            None => false,
                        }
                    }
            },
            None => false,
        },
        None => after is None,
    }
}

/// An exactly-appended batch survives any later growth as a prefix.
pub proof fn lemma_prefix_through_growth(
    base: Option<ErrorCollector>,
    mid: Option<ErrorCollector>,
    fin: Option<ErrorCollector>,
    appended: Seq<(ErrorType, int, int)>,
)
    requires
        spec_collector_appended(base, mid, appended),
        spec_collector_grows(mid, fin),
    ensures
        spec_collector_prefix(base, fin, appended),
{
    match base {
        Some(c0) => {
            let c1 = mid->Some_0;
            let c2 = fin->Some_0;
            assert(c2.errors@.take(c0.errors@.len() as int) =~= c0.errors@);
            assert forall|j: int| 0 <= j < appended.len() implies {
                let e = #[trigger] c2.errors@[c0.errors@.len() + j];
                &&& e.error_type == appended[j].0
                &&& match e.location {
                    Some(loc) => loc.line as int == appended[j].1 && loc.column as int
                        == appended[j].2,
                    None => false,
                }
            } by {
                assert(c1.errors@[c0.errors@.len() + j].error_type == appended[j].0);
                assert(c2.errors@.take(c1.errors@.len() as int) == c1.errors@);
                assert(c2.errors@.take(c1.errors@.len() as int)[c0.errors@.len() + j]
                    == c2.errors@[c0.errors@.len() + j]);
            }
        },
        None => {},
    }
}


/// The collector gained no diagnostic of the given kind; the old entries
/// are untouched.
pub open spec fn spec_no_kind_appended(
    before: Option<ErrorCollector>,
    after: Option<ErrorCollector>,
    ty: ErrorType,
) -> bool {
    match before {
        Some(c0) => match after {
            Some(c1) => {
                &&& c1.errors@.len() >= c0.errors@.len()
                &&& c1.errors@.take(c0.errors@.len() as int) == c0.errors@
                &&& forall|j: int|
                    c0.errors@.len() <= j < c1.errors@.len() ==> (#[trigger] c1.errors@[j]).error_type
                        != ty
            },
            None => false,
        },
        None => after is None,
    }
}

pub proof fn lemma_no_kind_refl(c: Option<ErrorCollector>, ty: ErrorType)
    ensures
        spec_no_kind_appended(c, c, ty),
{
    match c {
        Some(c0) => {
            assert(c0.errors@.take(c0.errors@.len() as int) =~= c0.errors@);
        },
        None => {},
    }
}

pub proof fn lemma_no_kind_compose(
    a: Option<ErrorCollector>,
    b: Option<ErrorCollector>,
    c: Option<ErrorCollector>,
    ty: ErrorType,
)
    requires
        spec_no_kind_appended(a, b, ty),
        spec_no_kind_appended(b, c, ty),
    ensures
        spec_no_kind_appended(a, c, ty),
{
    match a {
        Some(c0) => {
            let c1 = b->Some_0;
            let c2 = c->Some_0;
            assert(c2.errors@.take(c0.errors@.len() as int) =~= c0.errors@);
            assert forall|j: int| c0.errors@.len() <= j < c2.errors@.len() implies (
            #[trigger] c2.errors@[j]).error_type != ty by {
                if j < c1.errors@.len() {
                    assert(c2.errors@.take(c1.errors@.len() as int)[j] == c2.errors@[j]);
                    assert(c1.errors@[j] == c2.errors@[j]);
                }
            }
        },
        None => {},
    }
}


/// One appended diagnostic of one kind appends nothing of another kind.
pub proof fn lemma_one_no_kind(
    a: Option<ErrorCollector>,
    b: Option<ErrorCollector>,
    ty: ErrorType,
    ty2: ErrorType,
)
    requires
        spec_one_appended(a, b, ty),
        ty2 != ty,
    ensures
        spec_no_kind_appended(a, b, ty2),
{
    match a {
        Some(c0) => {
            let c1 = b->Some_0;
            assert forall|j: int| c0.errors@.len() <= j < c1.errors@.len() implies (
            #[trigger] c1.errors@[j]).error_type != ty2 by {
                assert(c1.errors@[j] == c1.errors@.last());
            }
        },
        None => {},
    }
}


/// After an exactly-appended batch, later growth that avoids a kind
/// leaves every entry beyond the batch free of that kind.
pub proof fn lemma_batch_then_no_kind(
    base: Option<ErrorCollector>,
    mid: Option<ErrorCollector>,
    fin: Option<ErrorCollector>,
    batch: Seq<(ErrorType, int, int)>,
    ty: ErrorType,
)
    requires
        spec_collector_appended(base, mid, batch),
        spec_no_kind_appended(mid, fin, ty),
    ensures
        match (base, fin) {
            (Some(c0), Some(c2)) => forall|j: int|
                c0.errors@.len() + batch.len() <= j < c2.errors@.len() ==> (
                #[trigger] c2.errors@[j]).error_type != ty,
            _ => true,
        },
{
    match base {
        Some(c0) => {
            let c1 = mid->Some_0;
            assert(c1.errors@.len() == c0.errors@.len() + batch.len());
        },
        None => {},
    }
}

} // verus!
