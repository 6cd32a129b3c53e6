use nasim::token::TokenType;
use nasim::tokenizer::Tokenizer;

fn chars(s: &str) -> Vec<char> {
    s.chars().collect()
}

fn kinds_of(input: &str) -> Vec<TokenType> {
    let mut tokenizer = Tokenizer::new(input);
    tokenizer.tokenize().iter().map(|t| t.token_type).collect()
}

#[test]
fn classifies_instruction_register_immediate() {
    let mut tokenizer = Tokenizer::new("mov rax, 60");
    let tokens = tokenizer.tokenize();
    assert_eq!(tokens[0].token_type, TokenType::InstrData);
    assert_eq!(tokens[0].value, chars("mov"));
    assert_eq!(tokens[1].token_type, TokenType::Reg64Bit);
    assert_eq!(tokens[1].value, chars("rax"));
    assert_eq!(tokens[2].token_type, TokenType::Comma);
    assert_eq!(tokens[3].token_type, TokenType::Immediate);
    assert_eq!(tokens[3].value, chars("60"));
    assert_eq!(tokens[4].token_type, TokenType::EOF);
}

#[test]
fn classifies_label_and_directive() {
    let mut tokenizer = Tokenizer::new("_start:\nsection .text\nmsg db \"hi\"");
    let tokens = tokenizer.tokenize();
    assert_eq!(tokens[0].token_type, TokenType::Label);
    assert_eq!(tokens[0].value, chars("_start"));
    assert_eq!(tokens[1].token_type, TokenType::Colon);
    assert_eq!(tokens[2].token_type, TokenType::NewLine);
    assert_eq!(tokens[3].token_type, TokenType::Directive);
    assert_eq!(tokens[3].value, chars("section"));
    assert_eq!(tokens[4].token_type, TokenType::LabelRef);
    assert_eq!(tokens[4].value, chars(".text"));
    assert_eq!(tokens[6].token_type, TokenType::Identifier);
    assert_eq!(tokens[6].value, chars("msg"));
    assert_eq!(tokens[7].token_type, TokenType::Directive);
    assert_eq!(tokens[7].value, chars("db"));
    assert_eq!(tokens[8].token_type, TokenType::StringLiteral);
    assert_eq!(tokens[8].value, chars("hi"));
}

#[test]
fn classifies_simd_registers() {
    let mut tokenizer = Tokenizer::new("xmm0 ymm31 zmm7 xmm32 rip");
    let tokens = tokenizer.tokenize();
    assert_eq!(tokens[0].token_type, TokenType::RegXMM);
    assert_eq!(tokens[1].token_type, TokenType::RegYMM);
    assert_eq!(tokens[2].token_type, TokenType::RegZMM);
    // 32 is out of range, so the name is just an identifier.
    assert_eq!(tokens[3].token_type, TokenType::Identifier);
    assert_eq!(tokens[4].token_type, TokenType::RegSpecial);
}

#[test]
fn tracks_line_and_column() {
    let mut tokenizer = Tokenizer::new("mov rax, 1\nsyscall");
    let tokens = tokenizer.tokenize();
    assert_eq!(tokens[0].line, 1);
    assert_eq!(tokens[0].column, 1);
    assert_eq!(tokens[1].line, 1);
    assert_eq!(tokens[1].column, 5);
    // The token after the newline starts line 2, column 1.
    assert_eq!(tokens[5].line, 2);
    assert_eq!(tokens[5].column, 1);
}

#[test]
fn decodes_string_escapes() {
    let mut tokenizer = Tokenizer::new("db \"a\\n\\t\\\\b\\0\"");
    let tokens = tokenizer.tokenize();
    assert_eq!(tokens[1].token_type, TokenType::StringLiteral);
    assert_eq!(tokens[1].value, vec!['a', '\n', '\t', '\\', 'b', '\0']);
}

#[test]
fn unterminated_string_still_becomes_a_token() {
    let mut tokenizer = Tokenizer::new("db \"open\nmov rax, 1");
    let tokens = tokenizer.tokenize();
    assert_eq!(tokens[1].token_type, TokenType::StringLiteral);
    assert_eq!(tokens[1].value, chars("open"));
    // The newline is not consumed by the unterminated literal.
    assert_eq!(tokens[2].token_type, TokenType::NewLine);
}

#[test]
fn trims_comment_text() {
    let mut tokenizer = Tokenizer::new("syscall ; invoke kernel  ");
    let tokens = tokenizer.tokenize();
    assert_eq!(tokens[1].token_type, TokenType::Comment);
    assert_eq!(tokens[1].value, chars("invoke kernel"));
}

#[test]
fn recognizes_numeric_prefixes() {
    let mut tokenizer = Tokenizer::new("0x1F 0b101 077 42");
    let tokens = tokenizer.tokenize();
    assert_eq!(tokens[0].value, chars("0x1F"));
    assert_eq!(tokens[1].value, chars("0b101"));
    assert_eq!(tokens[2].value, chars("077"));
    assert_eq!(tokens[3].value, chars("42"));
    for k in 0..4 {
        assert_eq!(tokens[k].token_type, TokenType::Immediate);
    }
}

#[test]
fn tokenizing_twice_is_identical() {
    // The same line twice in one input exercises the classification
    // cache: the second occurrence hits it, the first misses.
    let input = "mov rax, 60\nmov rax, 60\n";
    let kinds = kinds_of(input);
    assert_eq!(&kinds[0..4], &kinds[5..9]);
    // A fresh lexer over the same text yields the same kind sequence.
    assert_eq!(kinds, kinds_of(input));
}

#[test]
fn equ_expression_tokens() {
    let tokenizer = Tokenizer::new("");
    let tokens = tokenizer.tokenize_equ_expression("$ - start");
    assert_eq!(tokens.len(), 3);
    assert_eq!(tokens[0].token_type, TokenType::Unknown);
    assert_eq!(tokens[0].value, chars("$"));
    assert_eq!(tokens[1].token_type, TokenType::Minus);
    assert_eq!(tokens[2].token_type, TokenType::Identifier);
    assert_eq!(tokens[2].value, chars("start"));
}
