//! Section-directive parsing.

use vstd::prelude::*;
use crate::ast::{Section, Statement};
use crate::errors::ErrorType;
use crate::parser::{same_but_cursor, spec_current_token, Parser};
use crate::token::TokenType;

verus! {

/// Parses a section switch from a directive token: the token's text
/// becomes the section name.
pub fn parse_section(parser: &mut Parser) -> (r: Result<Statement, ErrorType>)
    requires
        old(parser).wf(),
    ensures
        final(parser).wf(),
        same_but_cursor(*old(parser), *final(parser)),
        final(parser).current >= old(parser).current,
        ({
            let t = spec_current_token(old(parser).toks(), old(parser).current as int);
            &&& (r matches Ok(stmt) ==> (stmt matches Statement::Section(sec) && sec.name@ == t.text
                && sec.line as int == t.line) && final(parser).current == old(parser).current + 1)
            &&& (r is Ok <==> t.kind == TokenType::Directive)
        }),
{
    let token = parser.current_token();
    let line = token.line;
    if token.token_type != TokenType::Directive {
        return Err(ErrorType::ExpectedToken);
    }
    let section_name = token.value;
    parser.next_token();
    Ok(Statement::Section(Section { name: section_name, line }))
}

} // verus!
