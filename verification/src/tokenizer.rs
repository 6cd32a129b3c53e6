//! The lexer: characters in, an ordered token sequence terminated by an
//! EOF token out. Line and column are tracked per character. The whole
//! token stream is specified by `spec_lex`, a function of the input text
//! alone, so lexing is deterministic: the per-value classification cache
//! can never change the result.

use vstd::prelude::*;
use crate::chars::{
    copy_chars, is_alnum, is_alpha, is_digit, is_hex_digit, is_hspace, spec_is_alnum,
    spec_is_alpha, spec_is_digit, spec_is_hex_digit, spec_is_hspace, str_to_chars,
};
use crate::names::{NameMap, spec_get};
use crate::token::{
    classify_ident, spec_classify_ident, spec_instruction_type, spec_register_type, Token,
    TokenType, TokenV,
};

verus! {

/// A character an identifier run may contain; `equ` expressions also
/// accept `$` and `-`.
pub open spec fn spec_ident_char(c: char, is_equ: bool) -> bool {
    spec_is_alnum(c) || c == '_' || c == '.' || (is_equ && (c == '$' || c == '-'))
}

/// End of the identifier run starting at `pos`.
pub open spec fn spec_ident_end(input: Seq<char>, pos: int, is_equ: bool) -> int
    decreases input.len() - pos,
{
    if pos < input.len() && spec_ident_char(input[pos], is_equ) {
        spec_ident_end(input, pos + 1, is_equ)
    } else {
        pos
    }
}

pub proof fn lemma_ident_end(input: Seq<char>, pos: int, is_equ: bool)
    requires
        0 <= pos <= input.len(),
    ensures
        pos <= spec_ident_end(input, pos, is_equ) <= input.len(),
    decreases input.len() - pos,
{
    if pos < input.len() && spec_ident_char(input[pos], is_equ) {
        lemma_ident_end(input, pos + 1, is_equ);
    }
}

/// A character a numeric literal run may contain after its prefix.
pub open spec fn spec_number_char(c: char, hex: bool) -> bool {
    spec_is_digit(c) || (hex && spec_is_hex_digit(c))
}

/// End of the digit run starting at `pos`.
pub open spec fn spec_digit_run_end(input: Seq<char>, pos: int, hex: bool) -> int
    decreases input.len() - pos,
{
    if pos < input.len() && spec_number_char(input[pos], hex) {
        spec_digit_run_end(input, pos + 1, hex)
    } else {
        pos
    }
}

pub proof fn lemma_digit_run_end(input: Seq<char>, pos: int, hex: bool)
    requires
        0 <= pos <= input.len(),
    ensures
        pos <= spec_digit_run_end(input, pos, hex) <= input.len(),
    decreases input.len() - pos,
{
    if pos < input.len() && spec_number_char(input[pos], hex) {
        lemma_digit_run_end(input, pos + 1, hex);
    }
}

/// End of a numeric literal starting at `pos`: an optional `0x`/`0X` or
/// `0b`/`0B` prefix, then the digit run.
pub open spec fn spec_number_end(input: Seq<char>, pos: int) -> int {
    if pos < input.len() && input[pos] == '0' {
        if pos + 1 < input.len() && (input[pos + 1] == 'x' || input[pos + 1] == 'X') {
            spec_digit_run_end(input, pos + 2, true)
        } else if pos + 1 < input.len() && (input[pos + 1] == 'b' || input[pos + 1] == 'B') {
            spec_digit_run_end(input, pos + 2, false)
        } else {
            spec_digit_run_end(input, pos + 1, false)
        }
    } else {
        spec_digit_run_end(input, pos, false)
    }
}

/// The identifier run is non-empty when its first character belongs to it.
pub proof fn lemma_ident_end_strict(input: Seq<char>, pos: int, is_equ: bool)
    requires
        0 <= pos < input.len(),
        spec_ident_char(input[pos], is_equ),
    ensures
        pos + 1 <= spec_ident_end(input, pos, is_equ) <= input.len(),
{
    lemma_ident_end(input, pos + 1, is_equ);
}

/// The numeric run is non-empty when it starts at a digit.
pub proof fn lemma_number_end_strict(input: Seq<char>, pos: int)
    requires
        0 <= pos < input.len(),
        spec_is_digit(input[pos]),
    ensures
        pos + 1 <= spec_number_end(input, pos) <= input.len(),
{
    if input[pos] == '0' {
        if pos + 1 < input.len() && (input[pos + 1] == 'x' || input[pos + 1] == 'X') {
            lemma_digit_run_end(input, pos + 2, true);
        } else if pos + 1 < input.len() && (input[pos + 1] == 'b' || input[pos + 1] == 'B') {
            lemma_digit_run_end(input, pos + 2, false);
        } else {
            lemma_digit_run_end(input, pos + 1, false);
        }
    } else {
        lemma_digit_run_end(input, pos + 1, false);
    }
}

pub proof fn lemma_number_end(input: Seq<char>, pos: int)
    requires
        0 <= pos <= input.len(),
    ensures
        pos <= spec_number_end(input, pos) <= input.len(),
{
    if pos < input.len() && input[pos] == '0' {
        if pos + 1 < input.len() && (input[pos + 1] == 'x' || input[pos + 1] == 'X') {
            lemma_digit_run_end(input, pos + 2, true);
        } else if pos + 1 < input.len() && (input[pos + 1] == 'b' || input[pos + 1] == 'B') {
            lemma_digit_run_end(input, pos + 2, false);
        } else {
            lemma_digit_run_end(input, pos + 1, false);
        }
    } else {
        lemma_digit_run_end(input, pos, false);
    }
}

/// End of the current line: position of the next newline, or the end of
/// the input.
pub open spec fn spec_line_end(input: Seq<char>, pos: int) -> int
    decreases input.len() - pos,
{
    if pos < input.len() && input[pos] != '\n' {
        spec_line_end(input, pos + 1)
    } else {
        pos
    }
}

pub proof fn lemma_line_end(input: Seq<char>, pos: int)
    requires
        0 <= pos <= input.len(),
    ensures
        pos <= spec_line_end(input, pos) <= input.len(),
    decreases input.len() - pos,
{
    if pos < input.len() && input[pos] != '\n' {
        lemma_line_end(input, pos + 1);
    }
}

/// What an escape sequence denotes; an unrecognized escape denotes the
/// character itself.
pub open spec fn spec_escape(c: char) -> char {
    if c == 'n' {
        '\n'
    } else if c == 't' {
        '\t'
    } else if c == 'r' {
        '\r'
    } else if c == '\\' {
        '\\'
    } else if c == '"' {
        '"'
    } else if c == '\'' {
        '\''
    } else if c == '0' {
        '\0'
    } else {
        c
    }
}

/// Line and column after reading one character.
pub open spec fn spec_adv_line(line: int, c: char) -> int {
    if c == '\n' {
        line + 1
    } else {
        line
    }
}

pub open spec fn spec_adv_col(col: int, c: char) -> int {
    if c == '\n' {
        1
    } else {
        col + 1
    }
}

/// Result of scanning a quoted literal body: the decoded text, the
/// position after the scan, and the line/column there.
pub ghost struct StrScan {
    pub text: Seq<char>,
    pub end: int,
    pub line: int,
    pub col: int,
}

/// Scans a quoted literal from just after the opening quote: escapes are
/// decoded, the matching close quote is consumed, and an unterminated
/// literal stops before the newline (or at end of input) with the text
/// collected so far.
pub open spec fn spec_string_body(
    input: Seq<char>,
    pos: int,
    line: int,
    col: int,
    esc: bool,
    quote: char,
) -> StrScan
    decreases input.len() - pos,
{
    if pos >= input.len() {
        StrScan { text: Seq::empty(), end: pos, line, col }
    } else {
        let c = input[pos];
        if esc {
            let r = spec_string_body(
                input,
                pos + 1,
                spec_adv_line(line, c),
                spec_adv_col(col, c),
                false,
                quote,
            );
            StrScan { text: seq![spec_escape(c)] + r.text, end: r.end, line: r.line, col: r.col }
        } else if c == '\\' {
            spec_string_body(input, pos + 1, line, col + 1, true, quote)
        } else if c == quote {
            StrScan { text: Seq::empty(), end: pos + 1, line, col: col + 1 }
        } else if c == '\n' {
            StrScan { text: Seq::empty(), end: pos, line, col }
        } else {
            let r = spec_string_body(input, pos + 1, line, col + 1, false, quote);
            StrScan { text: seq![c] + r.text, end: r.end, line: r.line, col: r.col }
        }
    }
}

pub proof fn lemma_string_body(input: Seq<char>, pos: int, line: int, col: int, esc: bool, quote: char)
    requires
        0 <= pos <= input.len(),
    ensures
        pos <= spec_string_body(input, pos, line, col, esc, quote).end <= input.len(),
    decreases input.len() - pos,
{
    if pos < input.len() {
        let c = input[pos];
        if esc {
            lemma_string_body(input, pos + 1, spec_adv_line(line, c), spec_adv_col(col, c), false, quote);
        } else if c == '\\' {
            lemma_string_body(input, pos + 1, line, col + 1, true, quote);
        } else if c == quote || c == '\n' {
        } else {
            lemma_string_body(input, pos + 1, line, col + 1, false, quote);
        }
    }
}

/// Leading horizontal whitespace dropped.
pub open spec fn spec_trim_start(s: Seq<char>) -> Seq<char>
    decreases s.len(),
{
    if s.len() > 0 && spec_is_hspace(s[0]) {
        spec_trim_start(s.skip(1))
    } else {
        s
    }
}

/// Trailing horizontal whitespace dropped.
pub open spec fn spec_trim_end(s: Seq<char>) -> Seq<char>
    decreases s.len(),
{
    if s.len() > 0 && spec_is_hspace(s.last()) {
        spec_trim_end(s.drop_last())
    } else {
        s
    }
}

/// Whitespace dropped from both ends, as comment text is stored.
pub open spec fn spec_trim(s: Seq<char>) -> Seq<char> {
    spec_trim_end(spec_trim_start(s))
}

/// The kind of a fixed punctuation character, if it is one.
pub open spec fn spec_punct_kind(c: char) -> Option<TokenType> {
    if c == ',' {
        Some(TokenType::Comma)
    } else if c == ':' {
        Some(TokenType::Colon)
    } else if c == '+' {
        Some(TokenType::Plus)
    } else if c == '-' {
        Some(TokenType::Minus)
    } else if c == '*' {
        Some(TokenType::Asterisk)
    } else if c == '[' {
        Some(TokenType::OpenBracket)
    } else if c == ']' {
        Some(TokenType::CloseBracket)
    } else {
        None
    }
}

/// Shorthand for a token image.
pub open spec fn tv(kind: TokenType, text: Seq<char>, line: int, col: int) -> TokenV {
    TokenV { kind, text, line, column: col }
}

/// The full token stream from position `pos` at line/column `line`/`col`,
/// ending with an EOF token. This is the lexer's whole behaviour as a
/// function of the input text. Character classes are ASCII throughout:
/// input is UTF-8, but a non-ASCII letter or space is lexed as an
/// Unknown token rather than joining an identifier or being skipped.
pub open spec fn spec_lex(input: Seq<char>, pos: int, line: int, col: int) -> Seq<TokenV>
    decreases input.len() - pos,
    via spec_lex_dec
{
    if pos < 0 || pos >= input.len() {
        seq![tv(TokenType::EOF, Seq::empty(), line, col)]
    } else {
        let c = input[pos];
        if spec_is_hspace(c) {
            spec_lex(input, pos + 1, line, col + 1)
        } else if c == '\n' {
            seq![tv(TokenType::NewLine, seq!['\n'], line, col)] + spec_lex(input, pos + 1, line + 1, 1)
        } else if spec_is_alpha(c) || c == '_' || c == '.' {
            let end = spec_ident_end(input, pos, false);
            let text = input.subrange(pos, end);
            let next_colon = end < input.len() && input[end] == ':';
            let kind = spec_classify_ident(text, next_colon);
            seq![tv(kind, text, line, col)] + spec_lex(input, end, line, col + (end - pos))
        } else if spec_is_digit(c) {
            let end = spec_number_end(input, pos);
            seq![tv(TokenType::Immediate, input.subrange(pos, end), line, col)] + spec_lex(
                input,
                end,
                line,
                col + (end - pos),
            )
        } else if c == ';' {
            let end = spec_line_end(input, pos + 1);
            let text = spec_trim(input.subrange(pos + 1, end));
            seq![tv(TokenType::Comment, text, line, col)] + spec_lex(
                input,
                end,
                line,
                col + (end - pos),
            )
        } else if c == '"' {
            let r = spec_string_body(input, pos + 1, line, col + 1, false, '"');
            seq![tv(TokenType::StringLiteral, r.text, line, col)] + spec_lex(
                input,
                r.end,
                r.line,
                r.col,
            )
        } else if c == '\'' {
            let r = spec_string_body(input, pos + 1, line, col + 1, false, '\'');
            seq![tv(TokenType::StringLiteral, r.text, line, col)] + spec_lex(
                input,
                r.end,
                r.line,
                r.col,
            )
        } else {
            let kind = match spec_punct_kind(c) {
                Some(k) => k,
                None => TokenType::Unknown,
            };
            seq![tv(kind, seq![c], line, col)] + spec_lex(input, pos + 1, line, col + 1)
        }
    }
}

#[via_fn]
proof fn spec_lex_dec(input: Seq<char>, pos: int, line: int, col: int) {
    if 0 <= pos < input.len() {
        let c = input[pos];
        if spec_is_alpha(c) || c == '_' || c == '.' {
            lemma_ident_end_strict(input, pos, false);
        }
        if spec_is_digit(c) {
            lemma_number_end_strict(input, pos);
        }
        lemma_line_end(input, pos + 1);
        lemma_string_body(input, pos + 1, line, col + 1, false, '"');
        lemma_string_body(input, pos + 1, line, col + 1, false, '\'');
    }
}

/// The token stream of an `equ` expression: identifiers may hold `$` and
/// `-`, only `+ - *` punctuation is recognized, and no EOF token is
/// appended.
pub open spec fn spec_lex_equ(input: Seq<char>, pos: int, line: int, col: int) -> Seq<TokenV>
    decreases input.len() - pos,
    via spec_lex_equ_dec
{
    if pos < 0 || pos >= input.len() {
        Seq::empty()
    } else {
        let c = input[pos];
        if spec_is_hspace(c) {
            spec_lex_equ(input, pos + 1, line, col + 1)
        } else if spec_is_alpha(c) || c == '_' || c == '.' {
            let end = spec_ident_end(input, pos, true);
            let text = input.subrange(pos, end);
            let next_colon = end < input.len() && input[end] == ':';
            let kind = spec_classify_ident(text, next_colon);
            seq![tv(kind, text, line, col)] + spec_lex_equ(input, end, line, col + (end - pos))
        } else if spec_is_digit(c) {
            let end = spec_number_end(input, pos);
            seq![tv(TokenType::Immediate, input.subrange(pos, end), line, col)] + spec_lex_equ(
                input,
                end,
                line,
                col + (end - pos),
            )
        } else if c == '+' || c == '-' || c == '*' {
            let kind = match spec_punct_kind(c) {
                Some(k) => k,
                None => TokenType::Unknown,
            };
            seq![tv(kind, seq![c], line, col)] + spec_lex_equ(input, pos + 1, line, col + 1)
        } else {
            seq![tv(TokenType::Unknown, seq![c], line, col)] + spec_lex_equ(
                input,
                pos + 1,
                spec_adv_line(line, c),
                spec_adv_col(col, c),
            )
        }
    }
}

#[via_fn]
proof fn spec_lex_equ_dec(input: Seq<char>, pos: int, line: int, col: int) {
    if 0 <= pos < input.len() {
        let c = input[pos];
        if spec_is_alpha(c) || c == '_' || c == '.' {
            lemma_ident_end_strict(input, pos, true);
        }
        if spec_is_digit(c) {
            lemma_number_end_strict(input, pos);
        }
    }
}

/// The images of a token vector.
pub open spec fn token_views(ts: Seq<Token>) -> Seq<TokenV> {
    ts.map_values(|t: Token| t@)
}

/// Trimming helpers, proved against the recursive trim functions.
proof fn lemma_trim_start_at(s: Seq<char>, a: int)
    requires
        0 <= a <= s.len(),
        forall|j: int| 0 <= j < a ==> spec_is_hspace(s[j]),
        a == s.len() || !spec_is_hspace(s[a]),
    ensures
        spec_trim_start(s) == s.skip(a),
    decreases a,
{
    if a == 0 {
        assert(s.skip(0) =~= s);
        if s.len() > 0 {
            assert(!spec_is_hspace(s[0]));
        }
    } else {
        assert(spec_is_hspace(s[0]));
        lemma_trim_start_at(s.skip(1), a - 1);
        assert(s.skip(1).skip(a - 1) =~= s.skip(a));
    }
}

proof fn lemma_trim_end_at(s: Seq<char>, b: int)
    requires
        0 <= b <= s.len(),
        forall|j: int| b <= j < s.len() ==> spec_is_hspace(s[j]),
        b == 0 || !spec_is_hspace(s[b - 1]),
    ensures
        spec_trim_end(s) == s.take(b),
    decreases s.len(),
{
    if b == s.len() {
        if s.len() == 0 {
            assert(s.take(0) =~= s);
        } else {
            assert(!spec_is_hspace(s.last()));
            assert(s.take(b) =~= s);
        }
    } else {
        assert(spec_is_hspace(s.last()));
        lemma_trim_end_at(s.drop_last(), b);
        assert(s.drop_last().take(b) =~= s.take(b));
    }
}

/// Drops horizontal whitespace from both ends.
pub fn trim_chars(v: &Vec<char>) -> (r: Vec<char>)
    ensures
        r@ == spec_trim(v@),
{
    let mut a: usize = 0;
    while a < v.len() && is_hspace(v[a])
        invariant
            a <= v@.len(),
            forall|j: int| 0 <= j < a ==> spec_is_hspace(v@[j]),
        decreases v.len() - a,
    {
        a = a + 1;
    }
    let mut b: usize = v.len();
    while b > a && is_hspace(v[b - 1])
        invariant
            a <= b <= v@.len(),
            forall|j: int| b <= j < v@.len() ==> spec_is_hspace(v@[j]),
        decreases b,
    {
        b = b - 1;
    }
    proof {
        lemma_trim_start_at(v@, a as int);
        if b == a {
            lemma_trim_end_at(v@.skip(a as int), 0);
        } else {
            lemma_trim_end_at(v@.skip(a as int), b - a);
        }
    }
    let mut out: Vec<char> = Vec::new();
    let mut i: usize = a;
    while i < b
        invariant
            a <= i <= b <= v@.len(),
            out@ == v@.subrange(a as int, i as int),
        decreases b - i,
    {
        out.push(v[i]);
        i = i + 1;
        assert(out@ =~= v@.subrange(a as int, i as int));
    }
    proof {
        assert(out@ =~= v@.skip(a as int).take(b - a));
    }
    out
}

/// Executable form of `spec_escape`.
fn escape_char(c: char) -> (r: char)
    ensures
        r == spec_escape(c),
{
    if c == 'n' {
        '\n'
    } else if c == 't' {
        '\t'
    } else if c == 'r' {
        '\r'
    } else if c == '\\' {
        '\\'
    } else if c == '"' {
        '"'
    } else if c == '\'' {
        '\''
    } else if c == '0' {
        '\0'
    } else {
        c
    }
}

/// Executable form of `spec_punct_kind`.
fn punct_kind(c: char) -> (r: Option<TokenType>)
    ensures
        r == spec_punct_kind(c),
{
    if c == ',' {
        Some(TokenType::Comma)
    } else if c == ':' {
        Some(TokenType::Colon)
    } else if c == '+' {
        Some(TokenType::Plus)
    } else if c == '-' {
        Some(TokenType::Minus)
    } else if c == '*' {
        Some(TokenType::Asterisk)
    } else if c == '[' {
        Some(TokenType::OpenBracket)
    } else if c == ']' {
        Some(TokenType::CloseBracket)
    } else {
        None
    }
}

/// The lexer state: the immutable input, a cursor with line/column, the
/// tokens produced so far, and per-value classification caches. The
/// caches only ever hold what the tables say, so they cannot change the
/// token stream.
pub struct Tokenizer {
    pub input: Vec<char>,
    pub position: usize,
    pub line: usize,
    pub column: usize,
    pub tokens: Vec<Token>,
    pub instruction_cache: NameMap<Option<TokenType>>,
    pub register_cache: NameMap<Option<TokenType>>,
}

impl Tokenizer {
    /// Cache coherence: every cached answer equals the table lookup.
    pub open spec fn caches_ok(&self) -> bool {
        &&& self.instruction_cache.wf()
        &&& self.register_cache.wf()
        &&& forall|k: Seq<char>, e: Option<TokenType>|
            spec_get(#[trigger] self.instruction_cache@, k) == Some(e) ==> e
                == spec_instruction_type(k)
        &&& forall|k: Seq<char>, e: Option<TokenType>|
            spec_get(#[trigger] self.register_cache@, k) == Some(e) ==> (match e {
                Some(t) => spec_instruction_type(k) is None && spec_register_type(k) == Some(t),
                None => spec_register_type(k) is None,
            })
    }

    pub open spec fn wf(&self) -> bool {
        &&& self.position <= self.input@.len()
        &&& self.input@.len() < usize::MAX
        &&& 1 <= self.line <= self.position + 1
        &&& 1 <= self.column <= self.position + 1
        &&& self.caches_ok()
    }

    /// A fresh lexer over the given text, at line 1, column 1.
    pub fn new(input: &str) -> (t: Self)
        requires
            input@.len() < usize::MAX,
        ensures
            t.input@ == input@,
            t.position == 0,
            t.line == 1,
            t.column == 1,
            t.tokens@.len() == 0,
            t.wf(),
    {
        Self {
            input: str_to_chars(input),
            position: 0,
            line: 1,
            column: 1,
            tokens: Vec::new(),
            instruction_cache: NameMap::new(),
            register_cache: NameMap::new(),
        }
    }

    fn is_eof(&self) -> (b: bool)
        ensures
            b == (self.position >= self.input@.len()),
    {
        self.position >= self.input.len()
    }

    fn current_char(&self) -> (r: Option<char>)
        ensures
            match r {
                Some(c) => self.position < self.input@.len() && c == self.input@[self.position as int],
                None => self.position >= self.input@.len(),
            },
    {
        if self.is_eof() {
            None
        } else {
            Some(self.input[self.position])
        }
    }

    fn peek_char(&self) -> (r: Option<char>)
        requires
            self.wf(),
        ensures
            match r {
                Some(c) => self.position + 1 < self.input@.len() && c == self.input@[self.position + 1],
                None => self.position + 1 >= self.input@.len(),
            },
    {
        if self.position + 1 >= self.input.len() {
            None
        } else {
            Some(self.input[self.position + 1])
        }
    }

    /// Moves one character forward, tracking line and column.
    fn advance(&mut self)
        requires
            old(self).wf(),
        ensures
            final(self).wf(),
            final(self).input == old(self).input,
            final(self).tokens == old(self).tokens,
            final(self).instruction_cache == old(self).instruction_cache,
            final(self).register_cache == old(self).register_cache,
            old(self).position < old(self).input@.len() ==> {
                &&& final(self).position == old(self).position + 1
                &&& final(self).line as int == spec_adv_line(
                    old(self).line as int,
                    old(self).input@[old(self).position as int],
                )
                &&& final(self).column as int == spec_adv_col(
                    old(self).column as int,
                    old(self).input@[old(self).position as int],
                )
            },
            old(self).position >= old(self).input@.len() ==> *final(self) == *old(self),
    {
        match self.current_char() {
            Some(ch) => {
                self.position = self.position + 1;
                if ch == '\n' {
                    self.line = self.line + 1;
                    self.column = 1;
                } else {
                    self.column = self.column + 1;
                }
            },
            None => {},
        }
    }

    /// Skips horizontal whitespace; it produces no token, so the lexed
    /// stream is unchanged.
    fn skip_whitespace(&mut self)
        requires
            old(self).wf(),
        ensures
            final(self).wf(),
            final(self).input == old(self).input,
            final(self).tokens == old(self).tokens,
            final(self).instruction_cache == old(self).instruction_cache,
            final(self).register_cache == old(self).register_cache,
            final(self).line == old(self).line,
            final(self).position >= old(self).position,
            final(self).position == final(self).input@.len() || !spec_is_hspace(
                final(self).input@[final(self).position as int],
            ),
            spec_lex(
                old(self).input@,
                old(self).position as int,
                old(self).line as int,
                old(self).column as int,
            ) == spec_lex(
                final(self).input@,
                final(self).position as int,
                final(self).line as int,
                final(self).column as int,
            ),
            spec_lex_equ(
                old(self).input@,
                old(self).position as int,
                old(self).line as int,
                old(self).column as int,
            ) == spec_lex_equ(
                final(self).input@,
                final(self).position as int,
                final(self).line as int,
                final(self).column as int,
            ),
    {
        loop
            invariant
                self.wf(),
                self.input == old(self).input,
                self.tokens == old(self).tokens,
                self.instruction_cache == old(self).instruction_cache,
                self.register_cache == old(self).register_cache,
                self.line == old(self).line,
                self.position >= old(self).position,
                spec_lex(
                    old(self).input@,
                    old(self).position as int,
                    old(self).line as int,
                    old(self).column as int,
                ) == spec_lex(
                    self.input@,
                    self.position as int,
                    self.line as int,
                    self.column as int,
                ),
                spec_lex_equ(
                    old(self).input@,
                    old(self).position as int,
                    old(self).line as int,
                    old(self).column as int,
                ) == spec_lex_equ(
                    self.input@,
                    self.position as int,
                    self.line as int,
                    self.column as int,
                ),
            ensures
                self.position == self.input@.len() || !spec_is_hspace(
                    self.input@[self.position as int],
                ),
            decreases self.input@.len() - self.position,
        {
            if self.position >= self.input.len() {
                break;
            }
            let ch = self.input[self.position];
            if is_hspace(ch) {
                assert(ch != '\n');
                self.advance();
            } else {
                break;
            }
        }
    }

    /// Collects an identifier run and classifies it; consults the caches
    /// first, which cannot change the answer.
    fn tokenize_identifier(&mut self, is_equ: bool) -> (t: Token)
        requires
            old(self).wf(),
        ensures
            final(self).wf(),
            final(self).input == old(self).input,
            final(self).tokens == old(self).tokens,
            final(self).line == old(self).line,
            ({
                let input = old(self).input@;
                let start = old(self).position as int;
                let end = spec_ident_end(input, start, is_equ);
                let text = input.subrange(start, end);
                let next_colon = end < input.len() && input[end] == ':';
                &&& final(self).position == end
                &&& final(self).column == old(self).column + (end - start)
                &&& t@ == tv(
                    spec_classify_ident(text, next_colon),
                    text,
                    old(self).line as int,
                    old(self).column as int,
                )
            }),
    {
        let ghost input = self.input@;
        let ghost start = self.position as int;
        let ghost end = spec_ident_end(input, start, is_equ);
        proof {
            lemma_ident_end(input, start, is_equ);
        }
        let start_column = self.column;
        let mut value: Vec<char> = Vec::new();
        proof {
            assert(value@ =~= input.subrange(start, start));
        }
        loop
            invariant
                self.wf(),
                self.input == old(self).input,
                self.input@ == input,
                self.tokens == old(self).tokens,
                self.instruction_cache == old(self).instruction_cache,
                self.register_cache == old(self).register_cache,
                self.line == old(self).line,
                0 <= start <= self.position as int <= end <= input.len(),
                spec_ident_end(input, self.position as int, is_equ) == end,
                value@ == input.subrange(start, self.position as int),
                self.column == old(self).column + (self.position as int - start),
            ensures
                self.wf(),
                self.input@ == input,
                self.tokens == old(self).tokens,
                self.instruction_cache == old(self).instruction_cache,
                self.register_cache == old(self).register_cache,
                self.line == old(self).line,
                self.position as int == end,
                value@ == input.subrange(start, end),
                self.column == old(self).column + (end - start),
            decreases self.input@.len() - self.position,
        {
            if self.position >= self.input.len() {
                break;
            }
            let ch = self.input[self.position];
            let ok = is_alnum(ch) || ch == '_' || ch == '.' || (is_equ && (ch == '$' || ch
                == '-'));
            if !ok {
                break;
            }
            assert(ch != '\n');
            value.push(ch);
            self.advance();
            proof {
                lemma_ident_end(input, self.position as int, is_equ);
                assert(value@ =~= input.subrange(start, self.position as int));
            }
        }
        let ghost text = input.subrange(start, end);
        let next_is_colon = match self.current_char() {
            Some(c) => c == ':',
            None => false,
        };
        // Fast path: cached classification results.
        let mut fast: Option<TokenType> = None;
        match self.instruction_cache.get(&value) {
            Some(entry) => match entry {
                Some(tt) => {
                    fast = Some(*tt);
                },
                None => {},
            },
            None => {},
        }
        if let Some(tt) = fast {
            assert(spec_instruction_type(text) == Some(tt));
            return Token::new(tt, value, self.line, start_column);
        }
        let mut fast_reg: Option<TokenType> = None;
        match self.register_cache.get(&value) {
            Some(entry) => match entry {
                Some(tt) => {
                    fast_reg = Some(*tt);
                },
                None => {},
            },
            None => {},
        }
        if let Some(tt) = fast_reg {
            assert(spec_instruction_type(text) is None && spec_register_type(text) == Some(tt));
            return Token::new(tt, value, self.line, start_column);
        }
        // Slow path: probe the tables and cache the outcome.
        let token_type: TokenType = if let Some(instr_type) = crate::token::instruction_type(
            &value,
        ) {
            self.instruction_cache.insert(copy_chars(&value), Some(instr_type));
            instr_type
        } else if let Some(reg_type) = crate::token::register_type(&value) {
            self.register_cache.insert(copy_chars(&value), Some(reg_type));
            reg_type
        } else if crate::token::is_directive_name(&value) {
            TokenType::Directive
        } else if next_is_colon {
            TokenType::Label
        } else if value.len() > 0 && value[0] == '.' {
            TokenType::LabelRef
        } else {
            self.instruction_cache.insert(copy_chars(&value), None);
            self.register_cache.insert(copy_chars(&value), None);
            TokenType::Identifier
        };
        Token::new(token_type, value, self.line, start_column)
    }

    /// Collects a numeric literal: optional `0x`/`0b` prefix, then the
    /// digit run.
    fn tokenize_number(&mut self) -> (t: Token)
        requires
            old(self).wf(),
        ensures
            final(self).wf(),
            final(self).input == old(self).input,
            final(self).tokens == old(self).tokens,
            final(self).instruction_cache == old(self).instruction_cache,
            final(self).register_cache == old(self).register_cache,
            final(self).line == old(self).line,
            ({
                let input = old(self).input@;
                let start = old(self).position as int;
                let end = spec_number_end(input, start);
                &&& final(self).position == end
                &&& final(self).column == old(self).column + (end - start)
                &&& t@ == tv(
                    TokenType::Immediate,
                    input.subrange(start, end),
                    old(self).line as int,
                    old(self).column as int,
                )
            }),
    {
        let ghost input = self.input@;
        let ghost start = self.position as int;
        let ghost end = spec_number_end(input, start);
        let start_column = self.column;
        let mut value: Vec<char> = Vec::new();
        let mut is_hex = false;
        let mut is_binary = false;

        let zero_first = match self.current_char() {
            Some(c) => c == '0',
            None => false,
        };
        if zero_first {
            value.push('0');
            self.advance();
            let next = self.current_char();
            match next {
                Some(c) if c == 'x' || c == 'X' => {
                    value.push(c);
                    self.advance();
                    is_hex = true;
                },
                Some(c) if c == 'b' || c == 'B' => {
                    value.push(c);
                    self.advance();
                    is_binary = true;
                },
                _ => {},
            }
        }
        proof {
            lemma_digit_run_end(input, self.position as int, is_hex);
            assert(value@ =~= input.subrange(start, self.position as int));
            assert(end == spec_digit_run_end(input, self.position as int, is_hex));
        }
        loop
            invariant
                self.wf(),
                self.input == old(self).input,
                self.input@ == input,
                self.tokens == old(self).tokens,
                self.instruction_cache == old(self).instruction_cache,
                self.register_cache == old(self).register_cache,
                self.line == old(self).line,
                0 <= start <= self.position as int <= input.len(),
                spec_digit_run_end(input, self.position as int, is_hex) == end,
                value@ == input.subrange(start, self.position as int),
                self.column == old(self).column + (self.position as int - start),
            ensures
                self.wf(),
                self.input@ == input,
                self.tokens == old(self).tokens,
                self.instruction_cache == old(self).instruction_cache,
                self.register_cache == old(self).register_cache,
                self.line == old(self).line,
                self.position as int == end,
                value@ == input.subrange(start, end),
                self.column == old(self).column + (end - start),
            decreases self.input@.len() - self.position,
        {
            if self.position >= self.input.len() {
                break;
            }
            let ch = self.input[self.position];
            let ok = is_digit(ch) || (is_hex && is_hex_digit(ch)) || (is_binary && (ch == '0' || ch
                == '1'));
            if !ok {
                break;
            }
            assert(spec_number_char(ch, is_hex));
            assert(ch != '\n');
            value.push(ch);
            self.advance();
            proof {
                lemma_digit_run_end(input, self.position as int, is_hex);
                assert(value@ =~= input.subrange(start, self.position as int));
            }
        }
        Token::new(TokenType::Immediate, value, self.line, start_column)
    }

    /// Scans a quoted literal from the opening quote, decoding escapes;
    /// an unterminated literal still becomes a token, stopping before the
    /// newline, and the parser is left to flag it.
    fn scan_quoted(&mut self, quote: char) -> (t: Token)
        requires
            old(self).wf(),
            old(self).position < old(self).input@.len(),
            old(self).input@[old(self).position as int] == quote,
            quote == '"' || quote == '\'',
        ensures
            final(self).wf(),
            final(self).input == old(self).input,
            final(self).tokens == old(self).tokens,
            final(self).instruction_cache == old(self).instruction_cache,
            final(self).register_cache == old(self).register_cache,
            ({
                let r = spec_string_body(
                    old(self).input@,
                    old(self).position + 1,
                    old(self).line as int,
                    old(self).column + 1,
                    false,
                    quote,
                );
                &&& final(self).position == r.end
                &&& final(self).line == r.line
                &&& final(self).column == r.col
                &&& t@ == tv(
                    TokenType::StringLiteral,
                    r.text,
                    old(self).line as int,
                    old(self).column as int,
                )
            }),
    {
        let ghost input = self.input@;
        let start_column = self.column;
        let start_line = self.line;
        let ghost target = spec_string_body(
            input,
            self.position + 1,
            self.line as int,
            self.column + 1,
            false,
            quote,
        );
        assert(quote != '\n');
        self.advance();

        let mut value: Vec<char> = Vec::new();
        let mut is_escaped = false;
        let mut closed = false;
        proof {
            assert(value@ + spec_string_body(
                input,
                self.position as int,
                self.line as int,
                self.column as int,
                is_escaped,
                quote,
            ).text =~= target.text);
        }
        loop
            invariant_except_break
                !closed,
            invariant
                self.wf(),
                self.input == old(self).input,
                self.input@ == input,
                self.tokens == old(self).tokens,
                self.instruction_cache == old(self).instruction_cache,
                self.register_cache == old(self).register_cache,
                ({
                    let cur = spec_string_body(
                        input,
                        self.position as int,
                        self.line as int,
                        self.column as int,
                        is_escaped,
                        quote,
                    );
                    &&& target.text == value@ + cur.text
                    &&& target.end == cur.end
                    &&& target.line == cur.line
                    &&& target.col == cur.col
                }),
            ensures
                self.wf(),
                self.input@ == input,
                self.tokens == old(self).tokens,
                self.instruction_cache == old(self).instruction_cache,
                self.register_cache == old(self).register_cache,
                closed ==> self.position < input.len() && input[self.position as int] == quote
                    && target.text == value@ && target.end == self.position + 1 && target.line
                    == self.line && target.col == self.column + 1,
                !closed ==> target.text == value@ && target.end == self.position && target.line
                    == self.line && target.col == self.column,
            decreases self.input@.len() - self.position,
        {
            if self.position >= self.input.len() {
                proof {
                    assert(target.text =~= value@);
                }
                break;
            }
            let ch = self.input[self.position];
            if is_escaped {
                value.push(escape_char(ch));
                is_escaped = false;
                self.advance();
                proof {
                    assert(target.text =~= value@ + spec_string_body(
                        input,
                        self.position as int,
                        self.line as int,
                        self.column as int,
                        is_escaped,
                        quote,
                    ).text);
                }
            } else if ch == '\\' {
                is_escaped = true;
                assert(ch != '\n');
                self.advance();
            } else if ch == quote {
                closed = true;
                proof {
                    assert(target.text =~= value@);
                }
                break;
            } else if ch == '\n' {
                proof {
                    assert(target.text =~= value@);
                }
                break;
            } else {
                value.push(ch);
                self.advance();
                proof {
                    assert(target.text =~= value@ + spec_string_body(
                        input,
                        self.position as int,
                        self.line as int,
                        self.column as int,
                        is_escaped,
                        quote,
                    ).text);
                }
            }
        }
        if closed {
            self.advance();
        }
        Token::new(TokenType::StringLiteral, value, start_line, start_column)
    }

    /// Collects a comment from `;` to the end of the line; the stored
    /// text is trimmed.
    fn tokenize_comment(&mut self) -> (t: Token)
        requires
            old(self).wf(),
            old(self).position < old(self).input@.len(),
            old(self).input@[old(self).position as int] == ';',
        ensures
            final(self).wf(),
            final(self).input == old(self).input,
            final(self).tokens == old(self).tokens,
            final(self).instruction_cache == old(self).instruction_cache,
            final(self).register_cache == old(self).register_cache,
            final(self).line == old(self).line,
            ({
                let input = old(self).input@;
                let start = old(self).position as int;
                let end = spec_line_end(input, start + 1);
                &&& final(self).position == end
                &&& final(self).column == old(self).column + (end - start)
                &&& t@ == tv(
                    TokenType::Comment,
                    spec_trim(input.subrange(start + 1, end)),
                    old(self).line as int,
                    old(self).column as int,
                )
            }),
    {
        let ghost input = self.input@;
        let ghost start = self.position as int;
        let ghost end = spec_line_end(input, start + 1);
        proof {
            lemma_line_end(input, start + 1);
        }
        let start_column = self.column;
        assert(input[start] != '\n');
        self.advance();
        let mut value: Vec<char> = Vec::new();
        proof {
            assert(value@ =~= input.subrange(start + 1, self.position as int));
        }
        loop
            invariant
                self.wf(),
                self.input == old(self).input,
                self.input@ == input,
                self.tokens == old(self).tokens,
                self.instruction_cache == old(self).instruction_cache,
                self.register_cache == old(self).register_cache,
                self.line == old(self).line,
                0 <= start < start + 1 <= self.position as int <= end <= input.len(),
                spec_line_end(input, self.position as int) == end,
                value@ == input.subrange(start + 1, self.position as int),
                self.column == old(self).column + (self.position as int - start),
            ensures
                self.wf(),
                self.input@ == input,
                self.tokens == old(self).tokens,
                self.instruction_cache == old(self).instruction_cache,
                self.register_cache == old(self).register_cache,
                self.line == old(self).line,
                self.position as int == end,
                value@ == input.subrange(start + 1, end),
                self.column == old(self).column + (end - start),
            decreases self.input@.len() - self.position,
        {
            if self.position >= self.input.len() {
                break;
            }
            let ch = self.input[self.position];
            if ch == '\n' {
                break;
            }
            value.push(ch);
            self.advance();
            proof {
                lemma_line_end(input, self.position as int);
                assert(value@ =~= input.subrange(start + 1, self.position as int));
            }
        }
        let trimmed = trim_chars(&value);
        Token::new(TokenType::Comment, trimmed, self.line, start_column)
    }

    /// Tokenizes the entire input and appends the EOF token. The stream
    /// is exactly `spec_lex` of the text: a function of the input alone,
    /// so a second lexer over the same text yields the same tokens, with
    /// or without cache hits.
    pub fn tokenize(&mut self) -> (r: &Vec<Token>)
        requires
            old(self).wf(),
            old(self).position == 0,
            old(self).line == 1,
            old(self).column == 1,
            old(self).tokens@.len() == 0,
        ensures
            final(self).wf(),
            final(self).input == old(self).input,
            token_views(final(self).tokens@) == spec_lex(old(self).input@, 0, 1, 1),
            r@ == final(self).tokens@,
    {
        let ghost input = self.input@;
        let ghost full = spec_lex(input, 0, 1, 1);
        proof {
            assert(token_views(self.tokens@) + spec_lex(input, 0, 1, 1) =~= full);
        }
        loop
            invariant
                self.wf(),
                self.input == old(self).input,
                self.input@ == input,
                token_views(self.tokens@) + spec_lex(
                    input,
                    self.position as int,
                    self.line as int,
                    self.column as int,
                ) == full,
            ensures
                self.wf(),
                self.input == old(self).input,
                self.position >= input.len(),
                token_views(self.tokens@) + spec_lex(
                    input,
                    self.position as int,
                    self.line as int,
                    self.column as int,
                ) == full,
            decreases self.input@.len() - self.position,
        {
            if self.position >= self.input.len() {
                break;
            }
            let ghost pos0 = self.position as int;
            let ghost line0 = self.line as int;
            let ghost col0 = self.column as int;
            let ghost acc = token_views(self.tokens@);
            let ch = self.input[self.position];
            if is_hspace(ch) {
                self.skip_whitespace();
                proof {
                    assert(self.position as int > pos0);
                }
            } else if ch == '\n' {
                let mut v: Vec<char> = Vec::new();
                v.push('\n');
                let t = Token::new(TokenType::NewLine, v, self.line, self.column);
                proof {
                    assert(t@ == tv(TokenType::NewLine, seq!['\n'], line0, col0));
                    assert(spec_lex(input, pos0, line0, col0) == seq![t@] + spec_lex(
                        input,
                        pos0 + 1,
                        line0 + 1,
                        1,
                    ));
                }
                self.tokens.push(t);
                self.advance();
                proof {
                    lemma_views_push_shift(
                        acc,
                        t,
                        spec_lex(
                            input,
                            self.position as int,
                            self.line as int,
                            self.column as int,
                        ),
                    );
                    assert(token_views(self.tokens@) =~= acc.push(t@));
                }
            } else if is_alpha(ch) || ch == '_' || ch == '.' {
                let t = self.tokenize_identifier(false);
                proof {
                    lemma_ident_end_strict(input, pos0, false);
                    let end = spec_ident_end(input, pos0, false);
                    assert(spec_lex(input, pos0, line0, col0) == seq![t@] + spec_lex(
                        input,
                        end,
                        line0,
                        col0 + (end - pos0),
                    ));
                }
                self.tokens.push(t);
                proof {
                    lemma_views_push_shift(
                        acc,
                        t,
                        spec_lex(
                            input,
                            self.position as int,
                            self.line as int,
                            self.column as int,
                        ),
                    );
                    assert(token_views(self.tokens@) =~= acc.push(t@));
                }
            } else if is_digit(ch) {
                let t = self.tokenize_number();
                proof {
                    lemma_number_end_strict(input, pos0);
                    let end = spec_number_end(input, pos0);
                    assert(spec_lex(input, pos0, line0, col0) == seq![t@] + spec_lex(
                        input,
                        end,
                        line0,
                        col0 + (end - pos0),
                    ));
                }
                self.tokens.push(t);
                proof {
                    lemma_views_push_shift(
                        acc,
                        t,
                        spec_lex(
                            input,
                            self.position as int,
                            self.line as int,
                            self.column as int,
                        ),
                    );
                    assert(token_views(self.tokens@) =~= acc.push(t@));
                }
            } else if ch == ';' {
                let t = self.tokenize_comment();
                proof {
                    lemma_line_end(input, pos0 + 1);
                    let end = spec_line_end(input, pos0 + 1);
                    assert(spec_lex(input, pos0, line0, col0) == seq![t@] + spec_lex(
                        input,
                        end,
                        line0,
                        col0 + (end - pos0),
                    ));
                }
                self.tokens.push(t);
                proof {
                    lemma_views_push_shift(
                        acc,
                        t,
                        spec_lex(
                            input,
                            self.position as int,
                            self.line as int,
                            self.column as int,
                        ),
                    );
                    assert(token_views(self.tokens@) =~= acc.push(t@));
                }
            } else if ch == '"' {
                let t = self.scan_quoted('"');
                proof {
                    lemma_string_body(input, pos0 + 1, line0, col0 + 1, false, '"');
                    let r = spec_string_body(input, pos0 + 1, line0, col0 + 1, false, '"');
                    assert(spec_lex(input, pos0, line0, col0) == seq![t@] + spec_lex(
                        input,
                        r.end,
                        r.line,
                        r.col,
                    ));
                }
                self.tokens.push(t);
                proof {
                    lemma_views_push_shift(
                        acc,
                        t,
                        spec_lex(
                            input,
                            self.position as int,
                            self.line as int,
                            self.column as int,
                        ),
                    );
                    assert(token_views(self.tokens@) =~= acc.push(t@));
                }
            } else if ch == '\'' {
                let t = self.scan_quoted('\'');
                proof {
                    lemma_string_body(input, pos0 + 1, line0, col0 + 1, false, '\'');
                    let r = spec_string_body(input, pos0 + 1, line0, col0 + 1, false, '\'');
                    assert(spec_lex(input, pos0, line0, col0) == seq![t@] + spec_lex(
                        input,
                        r.end,
                        r.line,
                        r.col,
                    ));
                }
                self.tokens.push(t);
                proof {
                    lemma_views_push_shift(
                        acc,
                        t,
                        spec_lex(
                            input,
                            self.position as int,
                            self.line as int,
                            self.column as int,
                        ),
                    );
                    assert(token_views(self.tokens@) =~= acc.push(t@));
                }
            } else {
                let kind = match punct_kind(ch) {
                    Some(k) => k,
                    None => TokenType::Unknown,
                };
                let mut v: Vec<char> = Vec::new();
                v.push(ch);
                let t = Token::new(kind, v, self.line, self.column);
                proof {
                    assert(t@ == tv(kind, seq![ch], line0, col0));
                    assert(spec_lex(input, pos0, line0, col0) == seq![t@] + spec_lex(
                        input,
                        pos0 + 1,
                        line0,
                        col0 + 1,
                    ));
                }
                self.tokens.push(t);
                assert(ch != '\n');
                self.advance();
                proof {
                    lemma_views_push_shift(
                        acc,
                        t,
                        spec_lex(
                            input,
                            self.position as int,
                            self.line as int,
                            self.column as int,
                        ),
                    );
                    assert(token_views(self.tokens@) =~= acc.push(t@));
                }
            }
        }
        let ghost acc = token_views(self.tokens@);
        let eof_value: Vec<char> = Vec::new();
        let t = Token::new(TokenType::EOF, eof_value, self.line, self.column);
        proof {
            assert(spec_lex(input, self.position as int, self.line as int, self.column as int)
                =~= seq![t@]);
        }
        self.tokens.push(t);
        proof {
            assert(token_views(self.tokens@) =~= acc.push(t@));
            assert(acc.push(t@) =~= acc + seq![t@]);
            assert(token_views(self.tokens@) =~= spec_lex(input, 0, 1, 1));
        }
        &self.tokens
    }

    /// Tokenizes an `equ` expression with the extended identifier
    /// characters; no EOF token is appended.
    pub fn tokenize_equ_expression(&self, input: &str) -> (r: Vec<Token>)
        requires
            input@.len() < usize::MAX,
        ensures
            token_views(r@) == spec_lex_equ(input@, 0, 1, 1),
    {
        let mut tokenizer = Tokenizer::new(input);
        let ghost text = tokenizer.input@;
        let ghost full = spec_lex_equ(text, 0, 1, 1);
        let mut tokens: Vec<Token> = Vec::new();
        proof {
            assert(token_views(tokens@) + spec_lex_equ(text, 0, 1, 1) =~= full);
        }
        loop
            invariant
                tokenizer.wf(),
                tokenizer.input@ == text,
                token_views(tokens@) + spec_lex_equ(
                    text,
                    tokenizer.position as int,
                    tokenizer.line as int,
                    tokenizer.column as int,
                ) == full,
            ensures
                token_views(tokens@) + spec_lex_equ(
                    text,
                    tokenizer.position as int,
                    tokenizer.line as int,
                    tokenizer.column as int,
                ) == full,
                tokenizer.position >= text.len(),
            decreases tokenizer.input@.len() - tokenizer.position,
        {
            if tokenizer.position >= tokenizer.input.len() {
                break;
            }
            let ghost pos0 = tokenizer.position as int;
            let ghost line0 = tokenizer.line as int;
            let ghost col0 = tokenizer.column as int;
            let ghost acc = token_views(tokens@);
            let ch = tokenizer.input[tokenizer.position];
            if is_hspace(ch) {
                tokenizer.skip_whitespace();
                proof {
                    assert(tokenizer.position as int > pos0);
                }
            } else if is_alpha(ch) || ch == '_' || ch == '.' {
                let t = tokenizer.tokenize_identifier(true);
                proof {
                    lemma_ident_end_strict(text, pos0, true);
                    let end = spec_ident_end(text, pos0, true);
                    assert(spec_lex_equ(text, pos0, line0, col0) == seq![t@] + spec_lex_equ(
                        text,
                        end,
                        line0,
                        col0 + (end - pos0),
                    ));
                }
                tokens.push(t);
                proof {
                    lemma_views_push_shift(
                        acc,
                        t,
                        spec_lex_equ(
                            text,
                            tokenizer.position as int,
                            tokenizer.line as int,
                            tokenizer.column as int,
                        ),
                    );
                    assert(token_views(tokens@) =~= acc.push(t@));
                }
            } else if is_digit(ch) {
                let t = tokenizer.tokenize_number();
                proof {
                    lemma_number_end_strict(text, pos0);
                    let end = spec_number_end(text, pos0);
                    assert(spec_lex_equ(text, pos0, line0, col0) == seq![t@] + spec_lex_equ(
                        text,
                        end,
                        line0,
                        col0 + (end - pos0),
                    ));
                }
                tokens.push(t);
                proof {
                    lemma_views_push_shift(
                        acc,
                        t,
                        spec_lex_equ(
                            text,
                            tokenizer.position as int,
                            tokenizer.line as int,
                            tokenizer.column as int,
                        ),
                    );
                    assert(token_views(tokens@) =~= acc.push(t@));
                }
            } else if ch == '+' || ch == '-' || ch == '*' {
                let kind: TokenType = if ch == '+' {
                    TokenType::Plus
                } else if ch == '-' {
                    TokenType::Minus
                } else {
                    TokenType::Asterisk
                };
                let mut v: Vec<char> = Vec::new();
                v.push(ch);
                let t = Token::new(kind, v, tokenizer.line, tokenizer.column);
                proof {
                    assert(t@ == tv(kind, seq![ch], line0, col0));
                    assert(spec_lex_equ(text, pos0, line0, col0) == seq![t@] + spec_lex_equ(
                        text,
                        pos0 + 1,
                        line0,
                        col0 + 1,
                    ));
                }
                tokens.push(t);
                assert(ch != '\n');
                tokenizer.advance();
                proof {
                    lemma_views_push_shift(
                        acc,
                        t,
                        spec_lex_equ(
                            text,
                            tokenizer.position as int,
                            tokenizer.line as int,
                            tokenizer.column as int,
                        ),
                    );
                    assert(token_views(tokens@) =~= acc.push(t@));
                }
            } else {
                let mut v: Vec<char> = Vec::new();
                v.push(ch);
                let t = Token::new(TokenType::Unknown, v, tokenizer.line, tokenizer.column);
                proof {
                    assert(t@ == tv(TokenType::Unknown, seq![ch], line0, col0));
                    assert(spec_lex_equ(text, pos0, line0, col0) == seq![t@] + spec_lex_equ(
                        text,
                        pos0 + 1,
                        spec_adv_line(line0, ch),
                        spec_adv_col(col0, ch),
                    ));
                }
                tokens.push(t);
                tokenizer.advance();
                proof {
                    lemma_views_push_shift(
                        acc,
                        t,
                        spec_lex_equ(
                            text,
                            tokenizer.position as int,
                            tokenizer.line as int,
                            tokenizer.column as int,
                        ),
                    );
                    assert(token_views(tokens@) =~= acc.push(t@));
                }
            }
        }
        tokens
    }
}


/// Pushing a token onto the accumulated stream shifts one element from
/// the remainder: `acc + ([t] + rest) == views(acc tokens + t) + rest`.
pub proof fn lemma_views_push_shift(acc: Seq<TokenV>, t: Token, rest: Seq<TokenV>)
    ensures
        acc + (seq![t@] + rest) == (acc.push(t@)) + rest,
{
    assert(acc + (seq![t@] + rest) =~= (acc.push(t@)) + rest);
}

} // verus!
