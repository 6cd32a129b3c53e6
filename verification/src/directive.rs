//! Directive-statement parsing: data directives collect comma-separated
//! string and numeric values, `section`/`global`/`extern` take a single
//! name, and `equ` accepts a numeric literal or a `$`-expression whose
//! value is recorded as a placeholder.

use vstd::prelude::*;
use crate::ast::{Directive, Operand, Statement};
use crate::chars::{lower, spec_lower, str_eq, str_to_chars};
use crate::errors::ErrorType;
use crate::parser::{
    lemma_grows_refl, lemma_grows_trans, lemma_no_kind_compose, lemma_no_kind_refl,
    same_but_cursor, same_but_cursor_errors,
    spec_current_token, Parser,
};
use crate::token::{TokenType, TokenV};

verus! {

/// Result of scanning a data directive's value list: the value tokens in
/// order (kind and text), the cursor after the scan, and whether the
/// list was well formed.
pub ghost struct DataScan {
    pub values: Seq<(TokenType, Seq<char>)>,
    pub end: int,
    pub ok: bool,
}

/// Scans the value list of a data directive: strings, numerics and label
/// references, commas skipped, until the line ends; anything else is
/// malformed.
pub open spec fn spec_data_scan(toks: Seq<TokenV>, i: int) -> DataScan
    decreases toks.len() - i,
{
    if i < 0 || i >= toks.len() {
        DataScan { values: Seq::empty(), end: i, ok: true }
    } else {
        let t = toks[i];
        if t.kind == TokenType::NewLine || t.kind == TokenType::EOF || t.kind
            == TokenType::Comment {
            DataScan { values: Seq::empty(), end: i, ok: true }
        } else if t.kind == TokenType::StringLiteral || t.kind == TokenType::Immediate || t.kind
            == TokenType::LabelRef {
            let rest = spec_data_scan(toks, i + 1);
            DataScan { values: seq![(t.kind, t.text)] + rest.values, end: rest.end, ok: rest.ok }
        } else if t.kind == TokenType::Comma {
            spec_data_scan(toks, i + 1)
        } else {
            DataScan { values: Seq::empty(), end: i, ok: false }
        }
    }
}

/// The token image a parsed data operand corresponds to.
pub open spec fn spec_operand_image(op: Operand) -> (TokenType, Seq<char>) {
    match op {
        Operand::String(s) => (TokenType::StringLiteral, s@),
        Operand::Immediate(s) => (TokenType::Immediate, s@),
        Operand::Label(s) => (TokenType::LabelRef, s@),
        _ => (TokenType::Unknown, Seq::empty()),
    }
}

pub open spec fn spec_operand_images(ops: Seq<Operand>) -> Seq<(TokenType, Seq<char>)> {
    ops.map_values(|op: Operand| spec_operand_image(op))
}

/// Parses one directive statement, dispatching on its name; an unknown
/// directive is reported and aborts the statement.
pub fn parse_directive(parser: &mut Parser) -> (r: Result<Statement, ErrorType>)
    requires
        old(parser).wf(),
    ensures
        final(parser).wf(),
        same_but_cursor_errors(*old(parser), *final(parser)),
        final(parser).current >= old(parser).current,
        ({
            let t = spec_current_token(old(parser).toks(), old(parser).current as int);
            let name = spec_lower(t.text);
            let t1 = spec_current_token(old(parser).toks(), old(parser).current + 1);
            &&& (t.kind != TokenType::Directive ==> r is Err)
            &&& (r matches Ok(stmt) ==> (stmt matches Statement::Directive(dir) && dir.name@
                == spec_lower(t.text) && dir.line as int == t.line) && final(parser).current > old(
                parser,
            ).current)
            &&& ((name == "db"@ || name == "dw"@ || name == "dd"@ || name == "dq"@) && t.kind
                == TokenType::Directive && r is Ok ==> (r->Ok_0 matches Statement::Directive(dir)
                && spec_operand_images(dir.operands@) == spec_data_scan(
                old(parser).toks(),
                old(parser).current + 1,
            ).values))
        }),
        // A well-formed data directive succeeds.
        ({
            let t = spec_current_token(old(parser).toks(), old(parser).current as int);
            let name = spec_lower(t.text);
            (name == "db"@ || name == "dw"@ || name == "dd"@ || name == "dq"@) && t.kind
                == TokenType::Directive && spec_data_scan(
                old(parser).toks(),
                old(parser).current + 1,
            ).ok ==> r is Ok
        }),
        // `section` succeeds exactly on a dotted name and carries it.
        ({
            let t = spec_current_token(old(parser).toks(), old(parser).current as int);
            let name = spec_lower(t.text);
            let t1 = spec_current_token(old(parser).toks(), old(parser).current + 1);
            name == "section"@ && t.kind == TokenType::Directive ==> (r is Ok <==> t1.kind
                == TokenType::LabelRef) && (r matches Ok(stmt) ==> (stmt matches
                Statement::Directive(dir) && dir.operands@.len() == 1 && (dir.operands@[0] matches
                Operand::Label(v) && v@ == t1.text)))
        }),
        // `global` succeeds exactly on a symbol name and carries it.
        ({
            let t = spec_current_token(old(parser).toks(), old(parser).current as int);
            let name = spec_lower(t.text);
            let t1 = spec_current_token(old(parser).toks(), old(parser).current + 1);
            name == "global"@ && t.kind == TokenType::Directive ==> (r is Ok <==> t1.kind
                == TokenType::LabelRef || t1.kind == TokenType::Identifier) && (r matches Ok(stmt)
                ==> (stmt matches Statement::Directive(dir) && dir.operands@.len() == 1 && (
                dir.operands@[0] matches Operand::Label(v) && v@ == t1.text)))
        }),
        // `extern` succeeds exactly on a dotted symbol and carries it.
        ({
            let t = spec_current_token(old(parser).toks(), old(parser).current as int);
            let name = spec_lower(t.text);
            let t1 = spec_current_token(old(parser).toks(), old(parser).current + 1);
            name == "extern"@ && t.kind == TokenType::Directive ==> (r is Ok <==> t1.kind
                == TokenType::LabelRef) && (r matches Ok(stmt) ==> (stmt matches
                Statement::Directive(dir) && dir.operands@.len() == 1 && (dir.operands@[0] matches
                Operand::Label(v) && v@ == t1.text)))
        }),
        // `equ` takes an ordinary value verbatim.
        ({
            let t = spec_current_token(old(parser).toks(), old(parser).current as int);
            let name = spec_lower(t.text);
            let t1 = spec_current_token(old(parser).toks(), old(parser).current + 1);
            name == "equ"@ && t.kind == TokenType::Directive && old(parser).current + 1 < old(
                parser,
            ).toks().len() && !(t1.kind == TokenType::Immediate && t1.text == "$"@) ==> (r matches
                Ok(stmt) && (stmt matches Statement::Directive(dir) && dir.operands@.len() == 1
                && (dir.operands@[0] matches Operand::Immediate(v) && v@ == t1.text)))
        }),
        // Any other directive name is reported and refused.
        ({
            let t = spec_current_token(old(parser).toks(), old(parser).current as int);
            let name = spec_lower(t.text);
            t.kind == TokenType::Directive && !(name == "db"@ || name == "dw"@ || name == "dd"@
                || name == "dq"@ || name == "section"@ || name == "global"@ || name == "extern"@
                || name == "equ"@) ==> (r is Err) && crate::parser::spec_one_appended(
                old(parser).error_collector,
                final(parser).error_collector,
                ErrorType::UnknownDirective,
            )
        }),
{
    let token = parser.current_token();
    proof {
        lemma_grows_refl(old(parser).error_collector);
        lemma_no_kind_refl(old(parser).error_collector, ErrorType::DuplicateLabel);
        // The eight directive names are pairwise distinct; their lengths
        // and one leading character settle every pair the dispatch needs.
        reveal_strlit("db");
        reveal_strlit("dw");
        reveal_strlit("dd");
        reveal_strlit("dq");
        reveal_strlit("section");
        reveal_strlit("global");
        reveal_strlit("extern");
        reveal_strlit("equ");
        assert("db"@.len() == 2 && "dw"@.len() == 2 && "dd"@.len() == 2 && "dq"@.len() == 2);
        assert("section"@.len() == 7 && "global"@.len() == 6 && "extern"@.len() == 6
            && "equ"@.len() == 3);
        assert("global"@[0] == 'g' && "extern"@[0] == 'e');
    }
    if token.token_type != TokenType::Directive {
        return Err(ErrorType::ExpectedToken);
    }
    let directive_name = lower(&token.value);
    let line = token.line;
    proof {
        assert(old(parser).current < old(parser).toks().len());
    }

    parser.next_token();
    proof {
        assert(parser.current == old(parser).current + 1);
    }

    let operands: Vec<Operand> = if str_eq(&directive_name, "db") || str_eq(&directive_name, "dw")
        || str_eq(&directive_name, "dd") || str_eq(&directive_name, "dq") {
        match parse_data_values(parser, &directive_name) {
            Ok(values) => values,
            Err(e) => {
                return Err(e);
            },
        }
    } else if str_eq(&directive_name, "section") {
        proof {
            assert(parser.toks() == old(parser).toks());
            assert(parser.current as int == old(parser).current + 1);
        }
        match parse_section_directive(parser, line) {
            Ok(Statement::Directive(directive)) => {
                proof {
                    assert(spec_current_token(old(parser).toks(), old(parser).current + 1).kind
                        == TokenType::LabelRef);
                    assert(directive.operands@.len() == 1);
                    assert(directive.operands@[0] matches Operand::Label(v) && v@
                        == spec_current_token(old(parser).toks(), old(parser).current + 1).text);
                }
                directive.operands
            },
            Ok(_) => {
                return Err(ErrorType::SectionError);
            },
            Err(e) => {
                return Err(e);
            },
        }
    } else if str_eq(&directive_name, "global") {
        match parse_global_directive(parser, line) {
            Ok(Statement::Directive(directive)) => directive.operands,
            Ok(_) => {
                return Err(ErrorType::InvalidOperand);
            },
            Err(e) => {
                return Err(e);
            },
        }
    } else if str_eq(&directive_name, "extern") {
        match parse_extern_directive(parser, line) {
            Ok(Statement::Directive(directive)) => directive.operands,
            Ok(_) => {
                return Err(ErrorType::InvalidOperand);
            },
            Err(e) => {
                return Err(e);
            },
        }
    } else if str_eq(&directive_name, "equ") {
        match parse_equ_directive(parser, line) {
            Ok(Statement::Directive(directive)) => directive.operands,
            Ok(_) => {
                return Err(ErrorType::InvalidOperand);
            },
            Err(e) => {
                return Err(e);
            },
        }
    } else {
        let ghost ec_pre = parser.error_collector;
        parser.add_error_kind(
            ErrorType::UnknownDirective,
            "Unknown directive",
            line,
            token.column,
        );
        proof {
            lemma_grows_trans(old(parser).error_collector, ec_pre, parser.error_collector);
        }
        return Err(ErrorType::UnknownDirective);
    };

    Ok(Statement::Directive(Directive { name: directive_name, operands, line }))
}

/// Collects the value list of a data directive: strings, numerics and
/// label references separated by commas, until the end of the line. A
/// string that cannot have been closed is reported.
fn parse_data_values(parser: &mut Parser, directive_name: &Vec<char>) -> (r: Result<
    Vec<Operand>,
    ErrorType,
>)
    requires
        old(parser).wf(),
    ensures
        final(parser).wf(),
        same_but_cursor_errors(*old(parser), *final(parser)),
        final(parser).current >= old(parser).current,
        ({
            let d = spec_data_scan(old(parser).toks(), old(parser).current as int);
            &&& (r is Ok <==> d.ok)
            &&& (r matches Ok(ops) ==> final(parser).current == d.end && spec_operand_images(ops@)
                == d.values)
        }),
{
    let mut values: Vec<Operand> = Vec::new();
    let ghost toks = parser.toks();
    let ghost d0 = spec_data_scan(toks, parser.current as int);
    proof {
        lemma_grows_refl(old(parser).error_collector);
        lemma_no_kind_refl(old(parser).error_collector, ErrorType::DuplicateLabel);
        assert(spec_operand_images(values@) + d0.values =~= d0.values);
    }
    loop
        invariant
            parser.wf(),
            same_but_cursor_errors(*old(parser), *parser),
            toks == parser.toks(),
            toks == old(parser).toks(),
            parser.current >= old(parser).current,
            d0 == spec_data_scan(toks, old(parser).current as int),
            d0.end == spec_data_scan(toks, parser.current as int).end,
            d0.ok == spec_data_scan(toks, parser.current as int).ok,
            d0.values == spec_operand_images(values@) + spec_data_scan(
                toks,
                parser.current as int,
            ).values,
        ensures
            parser.wf(),
            same_but_cursor_errors(*old(parser), *parser),
            toks == parser.toks(),
            parser.current >= old(parser).current,
            spec_data_scan(toks, parser.current as int).values =~= Seq::<(
                TokenType,
                Seq<char>,
            )>::empty(),
            d0.end == parser.current as int,
            d0.ok,
            d0.values == spec_operand_images(values@),
        decreases toks.len() - parser.current,
    {
        if parser.check(TokenType::NewLine) || parser.check(TokenType::EOF) || parser.current
            >= parser.tokens.len() {
            break;
        }
        let token = parser.current_token();
        let kind = token.token_type;
        if kind == TokenType::StringLiteral {
            // An unclosed string reaches the line end, so the token is
            // last, right before a newline or EOF, or still carries a
            // line break.
            let is_last_token = parser.current + 1 == parser.tokens.len();
            let next_is_newline_or_eof = match parser.peek_ahead(1) {
                Some(p) => p.0.token_type == TokenType::NewLine || p.0.token_type
                    == TokenType::EOF,
                None => false,
            };
            let n = token.value.len();
            let appears_unclosed = n > 0 && (token.value[n - 1] == '\n' || token.value[n - 1]
                == '\r');
            if is_last_token || next_is_newline_or_eof || appears_unclosed {
                let ghost ec_pre = parser.error_collector;
                parser.add_error_kind(
                    ErrorType::UnclosedString,
                    "Unclosed string literal",
                    token.line,
                    token.column,
                );
                proof {
                    lemma_grows_trans(old(parser).error_collector, ec_pre, parser.error_collector);
                lemma_no_kind_compose(
                    old(parser).error_collector,
                    ec_pre,
                    parser.error_collector,
                    ErrorType::DuplicateLabel,
                );
                }
            }
            let ghost before = values@;
            values.push(Operand::String(token.value));
            parser.next_token();
            proof {
                lemma_images_snoc(before, values@, d0.values, spec_data_scan(
                    toks,
                    parser.current as int,
                ).values);
            }
        } else if kind == TokenType::Immediate {
            let ghost before = values@;
            values.push(Operand::Immediate(token.value));
            parser.next_token();
            proof {
                lemma_images_snoc(before, values@, d0.values, spec_data_scan(
                    toks,
                    parser.current as int,
                ).values);
            }
        } else if kind == TokenType::LabelRef {
            let ghost before = values@;
            values.push(Operand::Label(token.value));
            parser.next_token();
            proof {
                lemma_images_snoc(before, values@, d0.values, spec_data_scan(
                    toks,
                    parser.current as int,
                ).values);
            }
        } else if kind == TokenType::Comma {
            parser.next_token();
        } else if kind == TokenType::Comment {
            break;
        } else {
            let ghost ec_pre = parser.error_collector;
            parser.add_error_kind(
                ErrorType::InvalidOperand,
                "Invalid value for data directive",
                token.line,
                token.column,
            );
            proof {
                lemma_grows_trans(old(parser).error_collector, ec_pre, parser.error_collector);
                lemma_no_kind_compose(
                    old(parser).error_collector,
                    ec_pre,
                    parser.error_collector,
                    ErrorType::DuplicateLabel,
                );
            }
            return Err(ErrorType::InvalidOperand);
        }
    }
    Ok(values)
}

/// Parses the name of a `section` directive; the name must be a dotted
/// label reference.
fn parse_section_directive(parser: &mut Parser, line: usize) -> (r: Result<Statement, ErrorType>)
    requires
        old(parser).wf(),
    ensures
        final(parser).wf(),
        same_but_cursor_errors(*old(parser), *final(parser)),
        final(parser).current >= old(parser).current,
        ({
            let t = spec_current_token(old(parser).toks(), old(parser).current as int);
            &&& (r is Ok <==> t.kind == TokenType::LabelRef)
            &&& (r matches Ok(stmt) ==> (stmt matches Statement::Directive(dir) && dir.name@
                == "section"@ && dir.operands@.len() == 1 && (dir.operands@[0] matches
                Operand::Label(v) && v@ == t.text)) && final(parser).current == old(
                parser,
            ).current + 1)
        }),
{
    let token = parser.current_token();
    proof {
        lemma_grows_refl(old(parser).error_collector);
        lemma_no_kind_refl(old(parser).error_collector, ErrorType::DuplicateLabel);
    }
    if token.token_type != TokenType::LabelRef {
        let ghost ec_pre = parser.error_collector;
        parser.add_error_kind(
            ErrorType::SectionError,
            "Expected section name after section directive",
            token.line,
            token.column,
        );
        proof {
            lemma_grows_trans(old(parser).error_collector, ec_pre, parser.error_collector);
        }
        return Err(ErrorType::SectionError);
    }
    let section_name = token.value;
    parser.next_token();
    let mut operands: Vec<Operand> = Vec::new();
    operands.push(Operand::Label(section_name));
    Ok(Statement::Directive(Directive { name: str_to_chars("section"), operands, line }))
}

/// Parses the symbol of a `global` directive.
fn parse_global_directive(parser: &mut Parser, line: usize) -> (r: Result<Statement, ErrorType>)
    requires
        old(parser).wf(),
    ensures
        final(parser).wf(),
        same_but_cursor_errors(*old(parser), *final(parser)),
        final(parser).current >= old(parser).current,
        ({
            let t = spec_current_token(old(parser).toks(), old(parser).current as int);
            &&& (r is Ok <==> t.kind == TokenType::LabelRef || t.kind == TokenType::Identifier)
            &&& (r matches Ok(stmt) ==> (stmt matches Statement::Directive(dir) && dir.name@
                == "global"@ && dir.operands@.len() == 1 && (dir.operands@[0] matches
                Operand::Label(v) && v@ == t.text)) && final(parser).current == old(
                parser,
            ).current + 1)
        }),
{
    let token = parser.current_token();
    proof {
        lemma_grows_refl(old(parser).error_collector);
        lemma_no_kind_refl(old(parser).error_collector, ErrorType::DuplicateLabel);
    }
    if token.token_type != TokenType::LabelRef && token.token_type != TokenType::Identifier {
        let ghost ec_pre = parser.error_collector;
        parser.add_error_kind(
            ErrorType::InvalidOperand,
            "Expected symbol name after global directive",
            token.line,
            token.column,
        );
        proof {
            lemma_grows_trans(old(parser).error_collector, ec_pre, parser.error_collector);
        }
        return Err(ErrorType::InvalidOperand);
    }
    let symbol_name = token.value;
    parser.next_token();
    let mut operands: Vec<Operand> = Vec::new();
    operands.push(Operand::Label(symbol_name));
    Ok(Statement::Directive(Directive { name: str_to_chars("global"), operands, line }))
}

/// Parses the symbol of an `extern` directive.
fn parse_extern_directive(parser: &mut Parser, line: usize) -> (r: Result<Statement, ErrorType>)
    requires
        old(parser).wf(),
    ensures
        final(parser).wf(),
        same_but_cursor_errors(*old(parser), *final(parser)),
        final(parser).current >= old(parser).current,
        ({
            let t = spec_current_token(old(parser).toks(), old(parser).current as int);
            &&& (r is Ok <==> t.kind == TokenType::LabelRef)
            &&& (r matches Ok(stmt) ==> (stmt matches Statement::Directive(dir) && dir.name@
                == "extern"@ && dir.operands@.len() == 1 && (dir.operands@[0] matches
                Operand::Label(v) && v@ == t.text)) && final(parser).current == old(
                parser,
            ).current + 1)
        }),
{
    let token = parser.current_token();
    proof {
        lemma_grows_refl(old(parser).error_collector);
        lemma_no_kind_refl(old(parser).error_collector, ErrorType::DuplicateLabel);
    }
    if token.token_type != TokenType::LabelRef {
        let ghost ec_pre = parser.error_collector;
        parser.add_error_kind(
            ErrorType::InvalidOperand,
            "Expected symbol name after extern directive",
            token.line,
            token.column,
        );
        proof {
            lemma_grows_trans(old(parser).error_collector, ec_pre, parser.error_collector);
        }
        return Err(ErrorType::InvalidOperand);
    }
    let symbol_name = token.value;
    parser.next_token();
    let mut operands: Vec<Operand> = Vec::new();
    operands.push(Operand::Label(symbol_name));
    Ok(Statement::Directive(Directive { name: str_to_chars("extern"), operands, line }))
}

/// Parses an `equ` value: a numeric literal, or a `$` location-counter
/// expression — `$ - label` stands for a size computation and resolves
/// to a placeholder rather than the true difference.
fn parse_equ_directive(parser: &mut Parser, line: usize) -> (r: Result<Statement, ErrorType>)
    requires
        old(parser).wf(),
    ensures
        final(parser).wf(),
        same_but_cursor_errors(*old(parser), *final(parser)),
        final(parser).current >= old(parser).current,
        r matches Ok(stmt) ==> (stmt matches Statement::Directive(dir) && dir.name@ == "equ"@),
        // An ordinary value is taken verbatim as the single operand.
        ({
            let t = spec_current_token(old(parser).toks(), old(parser).current as int);
            old(parser).current < old(parser).toks().len() && !(t.kind == TokenType::Immediate
                && t.text == "$"@) ==> (r matches Ok(stmt) && (stmt matches Statement::Directive(
                dir,
            ) && dir.operands@.len() == 1 && (dir.operands@[0] matches Operand::Immediate(v) && v@
                == t.text))) && final(parser).current == old(parser).current + 1
        }),
        // A `$ - label` size expression resolves to the placeholder zero,
        // not the true difference: an open question kept as found.
        ({
            let toks = old(parser).toks();
            let t = spec_current_token(toks, old(parser).current as int);
            let t1 = spec_current_token(toks, old(parser).current + 1);
            let t2 = spec_current_token(toks, old(parser).current + 2);
            t.kind == TokenType::Immediate && t.text == "$"@ && t1.kind == TokenType::Minus
                && t2.kind == TokenType::LabelRef ==> (r matches Ok(stmt) && (stmt matches
                Statement::Directive(dir) && dir.operands@.len() >= 1 && (dir.operands@[0]
                matches Operand::Immediate(v) && v@ == "0"@)))
        }),
{
    let mut operands: Vec<Operand> = Vec::new();
    let token = parser.current_token();
    proof {
        lemma_grows_refl(old(parser).error_collector);
        lemma_no_kind_refl(old(parser).error_collector, ErrorType::DuplicateLabel);
    }
    if token.token_type == TokenType::Immediate && str_eq(&token.value, "$") {
        parser.next_token();
        if parser.check(TokenType::Minus) {
            parser.next_token();
            let next_token = parser.current_token();
            if next_token.token_type == TokenType::LabelRef {
                parser.next_token();
                // Placeholder for the `$ - label` size expression.
                operands.push(Operand::Immediate(str_to_chars("0")));
                if parser.check(TokenType::Minus) {
                    parser.next_token();
                    let value_token = parser.current_token();
                    if value_token.token_type == TokenType::Immediate {
                        operands.push(Operand::Immediate(value_token.value));
                        parser.next_token();
                    }
                }
            } else {
                let ghost ec_pre = parser.error_collector;
                parser.add_error_kind(
                    ErrorType::InvalidOperand,
                    "Expected label after the location counter in equ directive",
                    next_token.line,
                    next_token.column,
                );
                proof {
                    lemma_grows_trans(old(parser).error_collector, ec_pre, parser.error_collector);
                lemma_no_kind_compose(
                    old(parser).error_collector,
                    ec_pre,
                    parser.error_collector,
                    ErrorType::DuplicateLabel,
                );
                }
                return Err(ErrorType::InvalidOperand);
            }
        } else {
            operands.push(Operand::Immediate(str_to_chars("0")));
        }
    } else {
        operands.push(Operand::Immediate(token.value));
        parser.next_token();
    }
    Ok(Statement::Directive(Directive { name: str_to_chars("equ"), operands, line }))
}


/// Appending one operand appends its image.
proof fn lemma_images_snoc(
    before: Seq<Operand>,
    after: Seq<Operand>,
    full: Seq<(TokenType, Seq<char>)>,
    rest: Seq<(TokenType, Seq<char>)>,
)
    requires
        after.len() == before.len() + 1,
        after == before.push(after.last()),
        full == spec_operand_images(before) + (seq![spec_operand_image(after.last())] + rest),
    ensures
        full == spec_operand_images(after) + rest,
{
    assert(spec_operand_images(after) =~= spec_operand_images(before).push(
        spec_operand_image(after.last()),
    ));
    assert(spec_operand_images(before) + (seq![spec_operand_image(after.last())] + rest)
        =~= (spec_operand_images(before).push(spec_operand_image(after.last()))) + rest);
}

} // verus!
