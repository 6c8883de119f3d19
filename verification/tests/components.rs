//! Tests of the individual pipeline stages: lexer, partitioner, label
//! table, section assembler, and image builder.

use microasm::assemble::assemble_section;
use microasm::error::AsmError;
use microasm::image::build_image;
use microasm::labels::LabelTable;
use microasm::lexer::scanner;
use microasm::partition::partition_stream;
use microasm::token::{Token, TokenType};

fn kinds_and_texts(tokens: &[Token]) -> Vec<(TokenType, Vec<u8>)> {
    tokens.iter().map(|t| (t.token_type, t.text.clone())).collect()
}

#[test]
fn scanner_classifies_a_line() {
    let tokens = scanner(b"start: 10 x2 ; c").expect("lexes");
    assert_eq!(
        kinds_and_texts(&tokens),
        vec![
            (TokenType::Label, b"start".to_vec()),
            (TokenType::Operand, b"10".to_vec()),
            (TokenType::Operand, b"x2".to_vec()),
        ]
    );
}

#[test]
fn scanner_section_marker() {
    let tokens = scanner(b".data\n.my-sect_2 op\n").expect("lexes");
    assert_eq!(
        kinds_and_texts(&tokens),
        vec![
            (TokenType::Section, b"data".to_vec()),
            (TokenType::Section, b"my-sect_2".to_vec()),
            (TokenType::Operand, b"op".to_vec()),
        ]
    );
}

#[test]
fn comment_stripping() {
    // A trailing comment changes nothing about the tokens before it.
    let with_comment = scanner(b"foo: 5 ; comment here").expect("lexes");
    let without = scanner(b"foo: 5").expect("lexes");
    assert_eq!(kinds_and_texts(&with_comment), kinds_and_texts(&without));
}

#[test]
fn comment_only_line() {
    let tokens = scanner(b"; nothing\n").expect("lexes");
    assert!(tokens.is_empty());
}

#[test]
fn scanner_reports_offending_character() {
    assert_eq!(
        scanner(b" 1,2\n").unwrap_err(),
        AsmError::Lexical { line: 1, column: 2, character: b',' }
    );
}

#[test]
fn scanner_rejects_hyphen_in_operand() {
    assert_eq!(
        scanner(b" a-b\n").unwrap_err(),
        AsmError::Lexical { line: 1, column: 2, character: b'-' }
    );
}

#[test]
fn partition_assigns_tokens() {
    let tokens = scanner(b" 0\n.data\nx: 1\n.text\n 2\n.data\n 3\n").expect("lexes");
    let (data, text) = partition_stream(tokens).expect("partitions");
    assert_eq!(
        kinds_and_texts(&data),
        vec![
            (TokenType::Label, b"x".to_vec()),
            (TokenType::Operand, b"1".to_vec()),
            (TokenType::Operand, b"3".to_vec()),
        ]
    );
    assert_eq!(kinds_and_texts(&text), vec![(TokenType::Operand, b"2".to_vec())]);
}

#[test]
fn partition_rejects_unknown_section() {
    let tokens = scanner(b".rodata\n").expect("lexes");
    assert_eq!(
        partition_stream(tokens).unwrap_err(),
        AsmError::UnrecognizedSection { name: b"rodata".to_vec() }
    );
}

#[test]
fn label_table_overwrites() {
    let mut table = LabelTable::new();
    assert_eq!(table.lookup(&b"a".to_vec()), None);
    table.insert(b"a".to_vec(), 1);
    table.insert(b"b".to_vec(), 2);
    assert_eq!(table.lookup(&b"a".to_vec()), Some(1));
    table.insert(b"a".to_vec(), 3);
    assert_eq!(table.lookup(&b"a".to_vec()), Some(3));
    assert_eq!(table.lookup(&b"b".to_vec()), Some(2));
}

fn label(name: &[u8]) -> Token {
    Token { token_type: TokenType::Label, text: name.to_vec() }
}

fn operand(text: &[u8]) -> Token {
    Token { token_type: TokenType::Operand, text: text.to_vec() }
}

#[test]
fn assemble_resolves_operands() {
    let tokens = vec![label(b"x"), operand(b"7"), label(b"y"), operand(b"x"), operand(b"y")];
    let (bytes, table) = assemble_section(&tokens, 16, LabelTable::new()).expect("assembles");
    // x is defined before any byte, y after one byte.
    assert_eq!(bytes, vec![7, 16, 17]);
    assert_eq!(table.lookup(&b"x".to_vec()), Some(16));
    assert_eq!(table.lookup(&b"y".to_vec()), Some(17));
}

#[test]
fn assemble_uses_incoming_table() {
    let mut table = LabelTable::new();
    table.insert(b"shared".to_vec(), 42);
    let tokens = vec![operand(b"shared")];
    let (bytes, _) = assemble_section(&tokens, 16, table).expect("assembles");
    assert_eq!(bytes, vec![42]);
}

#[test]
fn assemble_rejects_unresolved() {
    let tokens = vec![operand(b"ghost")];
    assert_eq!(
        assemble_section(&tokens, 16, LabelTable::new()).unwrap_err(),
        AsmError::UnresolvedLabel { name: b"ghost".to_vec() }
    );
}

#[test]
fn assemble_rejects_overlarge_numeral() {
    let tokens = vec![operand(b"999")];
    assert_eq!(
        assemble_section(&tokens, 16, LabelTable::new()).unwrap_err(),
        AsmError::MalformedNumericOperand { text: b"999".to_vec() }
    );
}

#[test]
fn assemble_rejects_byte_past_the_image() {
    let mut tokens = Vec::new();
    for _ in 0..3 {
        tokens.push(operand(b"0"));
    }
    assert_eq!(
        assemble_section(&tokens, 254, LabelTable::new()).unwrap_err(),
        AsmError::CapacityExceeded { required: 257, available: 256 }
    );
}

#[test]
fn assemble_rejects_label_past_the_image() {
    let tokens = vec![label(b"tail")];
    assert_eq!(
        assemble_section(&tokens, 256, LabelTable::new()).unwrap_err(),
        AsmError::CapacityExceeded { required: 257, available: 256 }
    );
}

#[test]
fn build_image_layout() {
    let image = build_image(&vec![1, 2, 3], &vec![9, 8]).expect("fits");
    assert_eq!(image.len(), 256);
    assert_eq!(image[0], 19);
    for i in 1..16 {
        assert_eq!(image[i], 0);
    }
    assert_eq!(&image[16..19], &[1, 2, 3]);
    assert_eq!(&image[19..21], &[9, 8]);
    for i in 21..256 {
        assert_eq!(image[i], 0);
    }
}

#[test]
fn build_image_exact_fit() {
    let image = build_image(&vec![5; 239], &vec![6]).expect("fits");
    assert_eq!(image[0], 255);
    assert_eq!(image[255], 6);
}

#[test]
fn build_image_overflow() {
    assert_eq!(
        build_image(&vec![5; 240], &vec![6]).unwrap_err(),
        AsmError::CapacityExceeded { required: 257, available: 256 }
    );
}

#[test]
fn build_image_entry_point_boundary() {
    assert_eq!(
        build_image(&vec![5; 240], &Vec::new()).unwrap_err(),
        AsmError::CapacityExceeded { required: 257, available: 256 }
    );
}
