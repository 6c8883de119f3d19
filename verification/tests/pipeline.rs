//! End-to-end tests of the assembly pipeline.

use microasm::error::AsmError;
use microasm::pipeline::eval;

fn translate(src: &str) -> Result<Vec<u8>, AsmError> {
    eval(src.as_bytes())
}

fn expect_image(src: &str) -> Vec<u8> {
    match translate(src) {
        Ok(image) => image,
        Err(e) => panic!("expected an image, got {:?}", e),
    }
}

/// Checks a full image: byte 0 is the entry point, the data bytes start at
/// 16, the text bytes follow them, and everything else is zero.
fn check_layout(image: &[u8], data: &[u8], text: &[u8]) {
    assert_eq!(image.len(), 256);
    assert_eq!(image[0] as usize, 16 + data.len());
    for i in 1..16 {
        assert_eq!(image[i], 0, "header byte {} not zero", i);
    }
    for (i, &b) in data.iter().enumerate() {
        assert_eq!(image[16 + i], b, "data byte {}", i);
    }
    for (i, &b) in text.iter().enumerate() {
        assert_eq!(image[16 + data.len() + i], b, "text byte {}", i);
    }
    for i in (16 + data.len() + text.len())..256 {
        assert_eq!(image[i], 0, "trailing byte {} not zero", i);
    }
}

#[test]
fn example_scenario() {
    let image = expect_image(".data\nx: 7\n.text\nstart: x\n");
    assert_eq!(image[0], 17);
    assert_eq!(image[16], 7);
    assert_eq!(image[17], 16);
    check_layout(&image, &[7], &[16]);
}

#[test]
fn round_trip_layout() {
    let image = expect_image(".data\n 1 2 3\n.text\n 9 8\n");
    check_layout(&image, &[1, 2, 3], &[9, 8]);
}

#[test]
fn empty_source() {
    let image = expect_image("");
    check_layout(&image, &[], &[]);
    assert_eq!(image[0], 16);
}

#[test]
fn capacity_boundary_fits() {
    let mut src = String::from(".data\n");
    for _ in 0..239 {
        src.push_str(" 3\n");
    }
    src.push_str(".text\n 1\n");
    let image = expect_image(&src);
    assert_eq!(image[0], 255);
    assert_eq!(image[255], 1);
    let data = vec![3u8; 239];
    check_layout(&image, &data, &[1]);
}

#[test]
fn capacity_boundary_exceeded() {
    let mut src = String::from(".data\n");
    for _ in 0..240 {
        src.push_str(" 3\n");
    }
    src.push_str(".text\n 1\n");
    assert_eq!(
        translate(&src),
        Err(AsmError::CapacityExceeded { required: 257, available: 256 })
    );
}

#[test]
fn entry_point_needs_a_valid_address() {
    // 240 data bytes and no text fill the image exactly, but the text
    // section would begin at address 256, which no byte can hold.
    let mut src = String::from(".data\n");
    for _ in 0..240 {
        src.push_str(" 3\n");
    }
    assert_eq!(
        translate(&src),
        Err(AsmError::CapacityExceeded { required: 257, available: 256 })
    );
}

#[test]
fn later_definition_wins() {
    // `dup` is defined in both sections; the text-section pass runs after
    // the data pass and overwrites the binding, so the reference after it
    // resolves to the text-section address 17, not to 16.
    let image = expect_image(".data\ndup: 5\n.text\ndup:\n dup\n");
    assert_eq!(image[0], 17);
    assert_eq!(image[16], 5);
    assert_eq!(image[17], 17);
}

#[test]
fn numeric_bound_accepted() {
    let image = expect_image(".data\n 255\n");
    assert_eq!(image[16], 255);
}

#[test]
fn numeric_bound_exceeded() {
    assert_eq!(
        translate(".data\n 256\n"),
        Err(AsmError::MalformedNumericOperand { text: b"256".to_vec() })
    );
}

#[test]
fn leading_zeros_accepted() {
    let image = expect_image(".data\n 0255\n");
    assert_eq!(image[16], 255);
}

#[test]
fn lexical_error_position() {
    assert_eq!(
        translate(".data\n!\n"),
        Err(AsmError::Lexical { line: 2, column: 0, character: b'!' })
    );
}

#[test]
fn lexical_error_space_inside_label() {
    assert_eq!(
        translate("foo bar\n"),
        Err(AsmError::Lexical { line: 1, column: 3, character: b' ' })
    );
}

#[test]
fn unrecognized_section() {
    assert_eq!(
        translate(".bss\n 1\n"),
        Err(AsmError::UnrecognizedSection { name: b"bss".to_vec() })
    );
}

#[test]
fn unresolved_label() {
    assert_eq!(
        translate(".data\n foo\n"),
        Err(AsmError::UnresolvedLabel { name: b"foo".to_vec() })
    );
}

#[test]
fn forward_reference_fails() {
    // Single-pass resolution: a label must be defined before it is used.
    assert_eq!(
        translate(".data\n foo\nfoo: 1\n"),
        Err(AsmError::UnresolvedLabel { name: b"foo".to_vec() })
    );
}

#[test]
fn label_defined_before_use_in_same_section() {
    let image = expect_image(".data\nfoo: 1\n foo\n");
    assert_eq!(image[0], 18);
    assert_eq!(image[16], 1);
    assert_eq!(image[17], 16);
}

#[test]
fn mixed_operand_is_skipped() {
    // `a1` is neither purely numeric nor purely alphabetic: it contributes
    // no byte.
    let image = expect_image(".data\n a1 7\n");
    check_layout(&image, &[7], &[]);
}

#[test]
fn dotted_operand_is_skipped() {
    let image = expect_image(".data\n 1.5 7\n");
    check_layout(&image, &[7], &[]);
}

#[test]
fn unterminated_label_is_dropped() {
    let image = expect_image(".data\nfoo\n");
    check_layout(&image, &[], &[]);
}

#[test]
fn tokens_before_any_section_are_dropped() {
    let image = expect_image(" 5\n.data\n 6\n");
    check_layout(&image, &[6], &[]);
}

#[test]
fn sections_may_resume() {
    let image = expect_image(".data\n 1\n.text\n 9\n.data\n 2\n");
    check_layout(&image, &[1, 2], &[9]);
}

#[test]
fn label_address_counts_emitted_bytes() {
    // A label's address is the section base plus the operand bytes emitted
    // before it, labels themselves taking no room.
    let image = expect_image(".data\n 1 2\nmid: 3\n.text\n mid\n");
    assert_eq!(image[0], 19);
    check_layout(&image, &[1, 2, 3], &[18]);
}

#[test]
fn crlf_line_endings() {
    let image = expect_image(".data\r\nx: 7\r\n.text\r\nstart: x\r\n");
    check_layout(&image, &[7], &[16]);
}

#[test]
fn missing_final_newline() {
    let image = expect_image(".data\nx: 7\n.text\nstart: x");
    check_layout(&image, &[7], &[16]);
}

#[test]
fn comment_after_operand_without_space() {
    let image = expect_image(".data\n 7;trailing\n");
    check_layout(&image, &[7], &[]);
}

#[test]
fn empty_section_name_is_unrecognized() {
    assert_eq!(
        translate(". \n"),
        Err(AsmError::UnrecognizedSection { name: Vec::new() })
    );
}
