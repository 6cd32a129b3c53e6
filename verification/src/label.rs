//! Label-definition parsing.

use vstd::prelude::*;
use crate::ast::Statement;
use crate::chars::copy_chars;
use crate::errors::ErrorType;
use crate::parser::{same_but_cursor, Parser};
use crate::token::TokenType;

verus! {

/// Parses a label definition: the label token becomes a Label statement.
pub fn parse_label(parser: &mut Parser) -> (r: Result<Statement, ErrorType>)
    requires
        old(parser).wf(),
    ensures
        final(parser).wf(),
        same_but_cursor(*old(parser), *final(parser)),
        final(parser).current >= old(parser).current,
        ({
            let t = crate::parser::spec_current_token(old(parser).toks(), old(parser).current as int);
            &&& (r matches Ok(stmt) ==> (stmt matches Statement::Label(name) && name@ == t.text)
                && final(parser).current == old(parser).current + 1)
            &&& (r is Ok <==> old(parser).current < old(parser).toks().len() && t.kind
                == TokenType::Label)
        }),
{
    let at_end = parser.current >= parser.tokens.len();
    if at_end {
        return Err(ErrorType::UnexpectedToken);
    }
    let token = parser.current_token();
    if token.token_type != TokenType::Label {
        return Err(ErrorType::ExpectedToken);
    }
    parser.advance();
    Ok(Statement::Label(token.value))
}

} // verus!
