use nasim::ast::{Instruction, Operand, Statement};
use nasim::elf::{ElfError, ElfGenerator};
use nasim::encoder::MachineCodeEncoder;
use nasim::errors::{ErrorCollector, ErrorSeverity, ErrorType};
use nasim::parser::Parser;
use nasim::tokenizer::Tokenizer;

fn chars(s: &str) -> Vec<char> {
    s.chars().collect()
}

fn parse_strict(source: &str) -> Result<nasim::ast::Program, ErrorType> {
    let mut tokenizer = Tokenizer::new(source);
    let tokens: Vec<_> = tokenizer.tokenize().iter().map(|t| t.duplicate()).collect();
    let mut parser = Parser::new(tokens);
    parser.parse()
}

fn parse_recovering(source: &str) -> (Result<nasim::ast::Program, ErrorType>, ErrorCollector) {
    let mut tokenizer = Tokenizer::new(source);
    let tokens: Vec<_> = tokenizer.tokenize().iter().map(|t| t.duplicate()).collect();
    let mut parser = Parser::new(tokens)
        .with_error_collector(ErrorCollector::new())
        .with_continue_on_errors(true);
    let result = parser.parse();
    let collector = match parser.get_error_collector() {
        Some(c) => ErrorCollector { errors: c.errors.iter().map(|e| clone_error(e)).collect() },
        None => ErrorCollector::new(),
    };
    (result, collector)
}

fn clone_error(e: &nasim::errors::Error) -> nasim::errors::Error {
    nasim::errors::Error {
        error_type: e.error_type,
        location: e.location.as_ref().map(|l| nasim::errors::SourceLocation {
            file: l.file.clone(),
            line: l.line,
            column: l.column,
            line_content: l.line_content.clone(),
        }),
        detail: nasim::errors::ErrorDetail {
            message: e.detail.message.clone(),
            help: e.detail.help.clone(),
            note: e.detail.note.clone(),
        },
        sub_errors: e.sub_errors.iter().map(|s| clone_error(s)).collect(),
        severity: e.severity,
    }
}

fn generate(source: &str) -> Result<Vec<u8>, ElfError> {
    let program = parse_strict(source).expect("program should parse");
    let mut generator = ElfGenerator::new(program);
    generator.generate()
}

#[test]
fn text_length_is_sum_of_encoding_lengths() {
    let source = "_start:\nmov rax, 60\nmov rdi, 0\nsyscall\n";
    let program = parse_strict(source).expect("parse");
    let mut total = 0;
    for stmt in &program.statements {
        if let Statement::Instruction(ins) = stmt {
            total += ins.machine_code.len();
        }
    }
    // mov imm64 is 10 bytes, syscall 2: the documented lengths.
    assert_eq!(total, 22);
    let mut generator = ElfGenerator::new(program);
    generator.generate().expect("generate");
    assert_eq!(generator.text_section.len(), 22);
}

#[test]
fn mov_rax_imm_encodes_rex_b8_le64() {
    let encoder = MachineCodeEncoder::new();
    let ins = Instruction {
        name: chars("mov"),
        operands: vec![Operand::Register(chars("rax")), Operand::Immediate(chars("60"))],
        machine_code: Vec::new(),
        line: 1,
    };
    assert_eq!(
        encoder.encode(&ins),
        vec![0x48, 0xB8, 0x3C, 0x00, 0x00, 0x00, 0x00, 0x00, 0x00, 0x00]
    );
}

#[test]
fn xor_and_syscall_encodings() {
    let encoder = MachineCodeEncoder::new();
    let xor = Instruction {
        name: chars("xor"),
        operands: vec![Operand::Register(chars("rdi")), Operand::Register(chars("rdi"))],
        machine_code: Vec::new(),
        line: 1,
    };
    assert_eq!(encoder.encode(&xor), vec![0x48, 0x31, 0xFF]);
    let syscall = Instruction {
        name: chars("syscall"),
        operands: vec![],
        machine_code: Vec::new(),
        line: 1,
    };
    assert_eq!(encoder.encode(&syscall), vec![0x0F, 0x05]);
    let unsupported = Instruction {
        name: chars("ret"),
        operands: vec![],
        machine_code: Vec::new(),
        line: 1,
    };
    // Unsupported shapes yield an empty sequence, never a diagnostic.
    assert_eq!(encoder.encode(&unsupported), Vec::<u8>::new());
}

#[test]
fn lea_displacement_is_target_minus_rip() {
    let source = "section .text\n_start:\nlea rsi, .msg\nmov rax, 60\nsyscall\nsection .data\n.msg: db \"hi\"\n";
    let image = generate(source).expect("generate");
    // .text sits at file offset 0x1000; the lea template is its first
    // instruction, so the displacement field is at template offset + 3.
    let field = &image[0x1000 + 3..0x1000 + 7];
    // .msg is the first data byte: 0x600000. rip = 0x400000 + 0 + 7.
    let disp = (0x600000i64 - (0x400000i64 + 7)) as i32;
    assert_eq!(field, disp.to_le_bytes());
    assert_eq!(field, [0xF9, 0xFF, 0x1F, 0x00]);
    // The template bytes themselves: 48 8D 35.
    assert_eq!(&image[0x1000..0x1000 + 3], [0x48, 0x8D, 0x35]);
}

#[test]
fn duplicate_label_yields_exactly_one_diagnostic_and_completes() {
    let source = "l1:\nmov rax, 1\nl1:\nsyscall\n";
    let (result, collector) = parse_recovering(source);
    assert!(result.is_ok());
    let dups = collector
        .errors
        .iter()
        .filter(|e| e.error_type == ErrorType::DuplicateLabel)
        .count();
    assert_eq!(dups, 1);
}

#[test]
fn three_duplicate_occurrences_yield_two_diagnostics() {
    let source = "l1:\nl1:\nl1:\nsyscall\n";
    let (result, collector) = parse_recovering(source);
    assert!(result.is_ok());
    let dups = collector
        .errors
        .iter()
        .filter(|e| e.error_type == ErrorType::DuplicateLabel)
        .count();
    assert_eq!(dups, 2);
}

#[test]
fn undefined_label_aborts_with_undefined_label() {
    let source = "mov rax, .nowhere\nsyscall\n";
    let result = parse_strict(source);
    assert_eq!(result.err(), Some(ErrorType::UndefinedLabel));
}

#[test]
fn undefined_lea_target_aborts_emission() {
    let source = "_start:\nlea rsi, .gone\nsyscall\n";
    let program = parse_strict(source).expect("lea target resolution is deferred");
    let mut generator = ElfGenerator::new(program);
    assert_eq!(generator.generate().err(), Some(ElfError::UndefinedLeaTarget));
}

#[test]
fn minimal_program_has_elf_header_fields() {
    let source = "_start:\nmov rax, 60\nmov rdi, 0\nsyscall\n";
    let image = generate(source).expect("generate");
    assert_eq!(&image[0..4], [0x7F, 0x45, 0x4C, 0x46]);
    // e_type = ET_EXEC(2), e_machine = EM_X86_64(62), e_phnum = 2.
    assert_eq!(&image[16..18], [2, 0]);
    assert_eq!(&image[18..20], [62, 0]);
    assert_eq!(&image[56..58], [2, 0]);
    // e_entry = the _start offset in .text, 0x400000.
    assert_eq!(&image[24..32], [0x00, 0x00, 0x40, 0x00, 0x00, 0x00, 0x00, 0x00]);
    // 64-bit, little-endian, System V identification.
    assert_eq!(&image[4..8], [2, 1, 1, 0]);
}

#[test]
fn db_string_appends_bytes_and_nul() {
    let source = "section .data\nd1: db \"A\"\n";
    let program = parse_strict(source).expect("parse");
    let mut generator = ElfGenerator::new(program);
    generator.generate().expect("generate");
    // "A" is copied and one NUL terminator is appended: exactly 41 00.
    assert_eq!(generator.data_section, vec![0x41, 0x00]);
}

#[test]
fn db_terminator_in_source_is_kept_after_the_nul() {
    let source = "section .data\nd1: db \"A\", 0\n";
    let program = parse_strict(source).expect("parse");
    let mut generator = ElfGenerator::new(program);
    generator.generate().expect("generate");
    // The string always gets its trailing NUL; the explicit terminator
    // follows as its own byte.
    assert_eq!(generator.data_section, vec![0x41, 0x00, 0x00]);
}

#[test]
fn data_widths_truncate_little_endian() {
    let source = "section .data\nd1: dw 0x1234\nd2: dd 0x11223344\nd3: dq 2\ndb 0x1FF\n";
    let program = parse_strict(source).expect("parse");
    let mut generator = ElfGenerator::new(program);
    generator.generate().expect("generate");
    assert_eq!(
        generator.data_section,
        vec![0x34, 0x12, 0x44, 0x33, 0x22, 0x11, 2, 0, 0, 0, 0, 0, 0, 0, 0xFF]
    );
}

#[test]
fn instruction_outside_text_is_fatal() {
    let source = "section .data\nmov rax, 1\n";
    let program = parse_strict(source).expect("parse");
    let mut generator = ElfGenerator::new(program);
    assert_eq!(generator.generate().err(), Some(ElfError::InstructionOutsideText));
}

#[test]
fn data_directive_outside_data_is_fatal() {
    let source = "d1: db 1\n";
    let program = parse_strict(source).expect("parse");
    let mut generator = ElfGenerator::new(program);
    assert_eq!(generator.generate().err(), Some(ElfError::DataOutsideData));
}

#[test]
fn unknown_directive_is_reported() {
    let source = "times 5\nsyscall\n";
    let (result, collector) = parse_recovering(source);
    assert!(result.is_ok());
    assert!(collector.errors.iter().any(|e| e.error_type == ErrorType::UnknownDirective));
}

#[test]
fn missing_operands_are_reported() {
    let source = "mov\nsyscall\n";
    let (result, collector) = parse_recovering(source);
    assert!(result.is_ok());
    assert!(collector.errors.iter().any(|e| e.error_type == ErrorType::InvalidOperand));
}

#[test]
fn unclosed_string_is_reported() {
    let source = "section .data\nd1: db \"open\nsyscall\n";
    let (_result, collector) = parse_recovering(source);
    assert!(collector.errors.iter().any(|e| e.error_type == ErrorType::UnclosedString));
}

#[test]
fn entry_point_defaults_to_zero_without_start() {
    let source = "mov rax, 60\nsyscall\n";
    let image = generate(source).expect("generate");
    assert_eq!(&image[24..32], [0; 8]);
}

#[test]
fn labels_are_classified_by_section_range() {
    let source = "_start:\nmov rax, 60\nsection .data\n.msg: db \"x\"\n";
    let program = parse_strict(source).expect("parse");
    let start = program.labels.get(&chars("_start")).expect("_start recorded");
    assert_eq!(start.offset, 0x400000);
    assert_eq!(start.section.as_ref().map(|s| s.iter().collect::<String>()), Some(".text".into()));
    let msg = program.labels.get(&chars(".msg")).expect(".msg recorded");
    assert_eq!(msg.offset, 0x600000);
    assert_eq!(msg.section.as_ref().map(|s| s.iter().collect::<String>()), Some(".data".into()));
}

#[test]
fn severity_counts_and_blocking() {
    let mut collector = ErrorCollector::new();
    assert!(!collector.has_errors());
    collector.add_error_with_location(ErrorType::DuplicateLabel, "dup", "f.s", 3, 1);
    assert!(collector.has_errors());
    assert!(!collector.has_fatal_errors());
    assert_eq!(collector.error_count(), 1);
    assert_eq!(collector.warning_count(), 0);
    let warn = nasim::errors::Error::new(
        ErrorType::Other,
        nasim::errors::ErrorDetail::new("w".to_owned()),
    )
    .with_severity(ErrorSeverity::Warning);
    collector.add_error(warn);
    assert_eq!(collector.error_count(), 1);
    assert_eq!(collector.warning_count(), 1);
    collector.clear();
    assert!(!collector.has_errors());
    assert_eq!(collector.error_count(), 0);
}

#[test]
fn immediate_parsing_recognizes_radixes() {
    assert_eq!(nasim::chars::parse_immediate(&chars("0x2A")), Some(42));
    assert_eq!(nasim::chars::parse_immediate(&chars("0b101")), Some(5));
    assert_eq!(nasim::chars::parse_immediate(&chars("0o17")), Some(15));
    assert_eq!(nasim::chars::parse_immediate(&chars("42")), Some(42));
    assert_eq!(nasim::chars::parse_immediate(&chars("")), None);
    assert_eq!(nasim::chars::parse_immediate(&chars("4x2")), None);
    // One past u64::MAX overflows and is rejected.
    assert_eq!(nasim::chars::parse_immediate(&chars("18446744073709551616")), None);
    assert_eq!(
        nasim::chars::parse_immediate(&chars("18446744073709551615")),
        Some(u64::MAX)
    );
    // The data-directive grammar reads a leading zero as octal.
    assert_eq!(nasim::chars::parse_number(&chars("017")), Some(15));
}

#[test]
fn opcode_table_lookup_and_categories() {
    let text = "# comment line\nmov|datamov|reg,imm|48 B8|ri\nadd|arith|reg,imm\n\nMOV|DATAMOV|reg,reg\n";
    let table = nasim::opcodes::OpcodeTable::from_string(text).expect("table");
    let indices = table.lookup(&chars("mov")).expect("mov indexed");
    assert_eq!(indices.len(), 2);
    let info = table.get_info(&chars("mov")).expect("mov info");
    assert_eq!(info.category, chars("datamov"));
    assert_eq!(info.machine_code.as_ref().map(|m| m.iter().collect::<String>()), Some("48 B8".into()));
    let names = table
        .get_category(&nasim::opcodes::InstructionCategory::DataMovement)
        .expect("datamov nonempty");
    assert_eq!(names.len(), 2);
    assert!(table.get_category(&nasim::opcodes::InstructionCategory::Shift).is_none());
}

#[test]
fn resolved_label_operands_become_hex_immediates() {
    let source = "top:\nmov rax, .data_here\nsection .data\n.data_here: db 1\n";
    let program = parse_strict(source).expect("parse");
    let mut found = false;
    for stmt in &program.statements {
        if let Statement::Instruction(ins) = stmt {
            if ins.name == chars("mov") {
                match &ins.operands[1] {
                    Operand::Immediate(text) => {
                        assert_eq!(text.iter().collect::<String>(), "0x600000");
                        found = true;
                    },
                    other => panic!("expected resolved immediate, got {:?}", other),
                }
            }
        }
    }
    assert!(found);
}

#[test]
fn recovery_mode_completes_on_garbage() {
    let source = "@@@\nmov rax,\nbogus rbx, 1\nl1:\nl1:\nsyscall\n";
    let (result, collector) = parse_recovering(source);
    assert!(result.is_ok());
    assert!(collector.has_errors());
}

#[test]
fn unknown_instruction_identifier_is_reported() {
    let source = "frob rax, 1\nsyscall\n";
    let (result, collector) = parse_recovering(source);
    assert!(result.is_ok());
    assert!(collector.errors.iter().any(|e| e.error_type == ErrorType::UnknownInstruction));
}

#[test]
fn program_headers_describe_text_and_data_segments() {
    let source = "_start:\nmov rax, 60\nsyscall\nsection .data\n.msg: db \"hi\"\n";
    let image = generate(source).expect("generate");
    // First program header starts at byte 64: PT_LOAD, R+X, offset
    // 0x1000, vaddr 0x400000, filesz 12, memsz 0x1000, align 0x1000.
    let ph1 = &image[64..120];
    assert_eq!(&ph1[0..4], 1u32.to_le_bytes());
    assert_eq!(&ph1[4..8], 5u32.to_le_bytes());
    assert_eq!(&ph1[8..16], 0x1000u64.to_le_bytes());
    assert_eq!(&ph1[16..24], 0x400000u64.to_le_bytes());
    assert_eq!(&ph1[32..40], 12u64.to_le_bytes());
    assert_eq!(&ph1[40..48], 0x1000u64.to_le_bytes());
    assert_eq!(&ph1[48..56], 0x1000u64.to_le_bytes());
    // Second program header: PT_LOAD, R+W, offset 0x2000, vaddr
    // 0x600000, filesz 3 ("hi" plus the NUL).
    let ph2 = &image[120..176];
    assert_eq!(&ph2[0..4], 1u32.to_le_bytes());
    assert_eq!(&ph2[4..8], 6u32.to_le_bytes());
    assert_eq!(&ph2[8..16], 0x2000u64.to_le_bytes());
    assert_eq!(&ph2[16..24], 0x600000u64.to_le_bytes());
    assert_eq!(&ph2[32..40], 3u64.to_le_bytes());
    // The whole file is headers page + text page + data page.
    assert_eq!(image.len(), 0x3000);
    // No section headers.
    assert_eq!(&image[40..48], 0u64.to_le_bytes());
    assert_eq!(&image[60..62], [0, 0]);
}

#[test]
fn equ_binds_value_to_preceding_label() {
    let source = "section .data\n.msg: db \"hi\"\nlen: equ 3\nsection .text\n_start:\nmov rax, 60\nsyscall\n";
    let program = parse_strict(source).expect("parse");
    let mut generator = ElfGenerator::new(program);
    generator.generate().expect("generate");
    assert_eq!(generator.labels.get(&chars("len")).copied(), Some(3));
}

#[test]
fn parser_cursor_helpers() {
    let mut tokenizer = Tokenizer::new("mov rax, 1");
    let tokens: Vec<_> = tokenizer.tokenize().iter().map(|t| t.duplicate()).collect();
    let mut parser = Parser::new(tokens);
    assert!(parser.check(nasim::token::TokenType::InstrData));
    assert!(parser.check_value(nasim::token::TokenType::InstrData, "mov"));
    assert!(!parser.check_value(nasim::token::TokenType::InstrData, "lea"));
    let first = parser.next_token();
    assert_eq!(first.value, chars("mov"));
    let second = parser.current_token();
    assert_eq!(second.value, chars("rax"));
    assert_eq!(parser.peek_ahead(1).map(|p| p.0.token_type), Some(nasim::token::TokenType::Comma));
}

#[test]
fn arity_mismatch_diagnostic_carries_usage_hint() {
    let source = "mov rax\nsyscall\n";
    let (result, collector) = parse_recovering(source);
    assert!(result.is_ok());
    let diag = collector
        .errors
        .iter()
        .find(|e| e.error_type == ErrorType::InvalidOperand)
        .expect("arity mismatch reported");
    assert_eq!(
        diag.detail.help.as_deref(),
        Some("Example: mov rax, rbx or mov rax, [rbx] or mov rax, 42")
    );
}

#[test]
fn missing_operands_diagnostic_carries_usage_hint() {
    let source = "lea\nsyscall\n";
    let (_result, collector) = parse_recovering(source);
    let diag = collector
        .errors
        .iter()
        .find(|e| e.error_type == ErrorType::InvalidOperand)
        .expect("missing operands reported");
    assert_eq!(diag.detail.help.as_deref(), Some("Example: lea rax, [rbx + 8]"));
}

#[test]
fn undefined_label_diagnostic_names_the_label() {
    let source = "mov rax, .nowhere\nsyscall\n";
    let (result, collector) = parse_recovering(source);
    // Recovery still completes; the failed resolution is recorded.
    assert!(result.is_ok());
    let diag = collector
        .errors
        .iter()
        .find(|e| e.error_type == ErrorType::UndefinedLabel)
        .expect("undefined label reported");
    assert_eq!(diag.detail.help.as_deref(), Some(".nowhere"));
}

#[test]
fn failed_lea_target_is_named() {
    let source = "_start:\nlea rsi, .gone\nsyscall\n";
    let program = parse_strict(source).expect("lea target resolution is deferred");
    let mut generator = ElfGenerator::new(program);
    assert_eq!(generator.generate().err(), Some(ElfError::UndefinedLeaTarget));
    let label: String = generator.failed_label.expect("label recorded").iter().collect();
    assert_eq!(label, ".gone");
}

#[test]
fn opcode_table_keeps_optional_columns_and_order() {
    let text = "a|one|x\nb|two|y,z|AA\na|three|w||enc\n";
    let table = nasim::opcodes::OpcodeTable::from_string(text).expect("table");
    assert_eq!(table.opcodes.len(), 3);
    let a = table.lookup(&chars("a")).expect("a indexed");
    assert_eq!(a, &vec![0usize, 2]);
    assert_eq!(table.opcodes[2].machine_code, None);
    assert_eq!(
        table.opcodes[2].encoding.as_ref().map(|e| e.iter().collect::<String>()),
        Some("enc".into())
    );
    assert_eq!(
        table.opcodes[1].operands.iter().map(|o| o.iter().collect::<String>()).collect::<Vec<_>>(),
        vec!["y".to_string(), "z".to_string()]
    );
}

#[test]
fn strict_mode_arity_mismatch_aborts() {
    let source = "mov rax\nsyscall\n";
    let result = parse_strict(source);
    assert_eq!(result.err(), Some(ErrorType::InvalidOperand));
}

#[test]
fn bracketed_register_becomes_memory_base() {
    let source = "_start:\nmov rsi, [rax]\nsyscall\n";
    let program = parse_strict(source).expect("parse");
    let mut found = false;
    for stmt in &program.statements {
        if let Statement::Instruction(ins) = stmt {
            if ins.name == chars("mov") {
                match &ins.operands[1] {
                    Operand::Memory(m) => {
                        assert_eq!(m.base.as_deref(), Some(chars("rax").as_slice()));
                        assert!(m.index.is_none() && m.scale.is_none() && m.displacement.is_none());
                        found = true;
                    },
                    other => panic!("expected memory operand, got {:?}", other),
                }
                // The RIP-relative load template.
                assert_eq!(ins.machine_code, vec![0x48, 0x8B, 0x35, 0, 0, 0, 0]);
            }
        }
    }
    assert!(found);
}
