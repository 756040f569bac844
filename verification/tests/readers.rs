use tinkervm::env::FuncPtr;
use tinkervm::exceptions::Error;
use tinkervm::parser::assembly::CursorPos as AsmCursor;
use tinkervm::parser::exec::CursorPos;
use tinkervm::parser::hex::{compile_hex, hex_char_to_byte, hex_to_u16, hex_to_u32, hex_to_u64, hex_to_u8};
use tinkervm::parser::utils::{read_bin_to_u16, read_bin_to_u32, read_bin_to_u64, read_bin_to_u8, read_non_whitespace_byte, skip_whitespace_and_comments};
use tinkervm::value::{get_type_from_bin, ValueType};

#[test]
fn hex_numbers_skip_separators_and_stop_at_whitespace() {
    let input = b"  1a'2b next";
    let mut at = 0;
    let mut cursor = AsmCursor::new();
    assert_eq!(hex_to_u16(input, &mut at, &mut cursor), Ok(0x1a2b));
    assert_eq!(at, 8);
    assert_eq!(cursor.line, 1);
}

#[test]
fn hex_numbers_refuse_bad_digits_and_too_many_digits() {
    let mut at = 0;
    let mut cursor = AsmCursor::new();
    let r = hex_to_u8(b"1g", &mut at, &mut cursor);
    assert!(matches!(r, Err(e) if matches!(e.error, Error::SyntaxError(_))));
    let mut at = 0;
    let r = hex_to_u8(b"123", &mut at, &mut cursor);
    assert!(matches!(r, Err(e) if matches!(e.error, Error::InvalidType(_))));
    let mut at = 0;
    assert_eq!(hex_to_u32(b"ffffffff", &mut at, &mut cursor), Ok(u32::MAX));
    let mut at = 0;
    assert_eq!(hex_to_u64(b"0123456789abcdef", &mut at, &mut cursor), Ok(0x0123456789abcdef));
}

#[test]
fn hex_digits_convert() {
    assert_eq!(hex_char_to_byte(b'0'), Ok(0));
    assert_eq!(hex_char_to_byte(b'a'), Ok(10));
    assert_eq!(hex_char_to_byte(b'F'), Ok(15));
    assert!(matches!(hex_char_to_byte(b'g'), Err(Error::SyntaxError(_))));
}

#[test]
fn hex_text_compiles_to_bytes() {
    let mut at = 0;
    let mut out = Vec::new();
    assert_eq!(compile_hex(b" 0a ff\n12 ", &mut at, &mut out), Ok(()));
    assert_eq!(out, vec![0x0a, 0xff, 0x12]);
}

#[test]
fn hex_text_with_a_lone_digit_fails() {
    let mut at = 0;
    let mut out = Vec::new();
    assert!(matches!(compile_hex(b"0a f", &mut at, &mut out), Err(Error::EOFError(_))));
    assert_eq!(out, vec![0x0a]);
    let mut at = 0;
    let mut out = Vec::new();
    assert!(matches!(compile_hex(b"0 a", &mut at, &mut out), Err(Error::SyntaxError(_))));
    let mut at = 0;
    let mut out = Vec::new();
    assert!(matches!(compile_hex(b"zz", &mut at, &mut out), Err(Error::SyntaxError(_))));
}

#[test]
fn whitespace_and_comments_are_skipped() {
    let input = b"  ; a comment\n\t add";
    let mut at = 0;
    let mut cursor = AsmCursor::new();
    assert!(skip_whitespace_and_comments(input, &mut at, &mut cursor).is_ok());
    assert_eq!(at, 16);
    assert_eq!(cursor.line, 2);
    let mut at = 0;
    assert_eq!(read_non_whitespace_byte(b"  \n x", &mut at), Some(b'x'));
    assert_eq!(at, 5);
    assert_eq!(read_non_whitespace_byte(b"  ", &mut at), None);
}

#[test]
fn binary_operands_are_little_endian() {
    let code = [0x01, 0x02, 0x03, 0x04, 0x05, 0x06, 0x07, 0x08];
    let mut cursor = CursorPos::new(FuncPtr(0));
    let mut at = 0;
    assert_eq!(read_bin_to_u8(&code, &mut at, "x", &mut cursor), Ok(1));
    assert_eq!(read_bin_to_u16(&code, &mut at, "x", &mut cursor), Ok(0x0302));
    assert_eq!(read_bin_to_u32(&code, &mut at, "x", &mut cursor), Ok(0x07060504));
    assert_eq!(at, 7);
    assert_eq!(cursor.pos, 8);
    let mut at = 0;
    assert_eq!(read_bin_to_u64(&code, &mut at, "x", &mut cursor), Ok(0x0807060504030201));
}

#[test]
fn short_binary_operands_are_eof_and_leave_the_cursor() {
    let code = [0x01, 0x02];
    let mut cursor = CursorPos::new(FuncPtr(3));
    let mut at = 1;
    let r = read_bin_to_u32(&code, &mut at, "x", &mut cursor);
    assert!(matches!(r, Err(e) if matches!(e.error, Error::EOFError(_)) && e.pos == CursorPos::new(FuncPtr(3))));
    assert_eq!(at, 2);
    assert_eq!(cursor.pos, 1);
}

#[test]
fn types_are_read_from_their_codes() {
    let mut cursor = CursorPos::new(FuncPtr(0));
    let mut at = 0;
    assert_eq!(get_type_from_bin(&[2], &mut at, &mut cursor), Ok(ValueType::U32));
    let mut at = 0;
    let t = get_type_from_bin(&[12, 12, 10], &mut at, &mut cursor);
    assert_eq!(t, Ok(ValueType::Ptr(Box::new(ValueType::Ptr(Box::new(ValueType::Bool))))));
    assert_eq!(at, 3);
    let mut at = 0;
    let t = get_type_from_bin(&[12], &mut at, &mut cursor);
    assert!(matches!(t, Err(e) if matches!(e.error, Error::EOFError(_))));
}

#[test]
fn the_first_interpreter_reads_to_the_end_and_fails() {
    let mut at = 0;
    assert!(matches!(tinkervm::parser::func(b"abc", &mut at), Err(Error::EOFError(_))));
    assert_eq!(at, 3);
}

#[test]
fn legacy_hex_reader_takes_up_to_eight_digits() {
    let mut at = 0;
    assert_eq!(tinkervm::parser::hex_to_u32(b"dead'beef tail", &mut at), Ok(0xdeadbeef));
    assert_eq!(at, 10);
    let mut at = 0;
    assert!(matches!(tinkervm::parser::hex_to_u32(b"123456789", &mut at), Err(Error::InvalidType(_))));
    let mut at = 0;
    assert!(matches!(tinkervm::parser::hex_to_u32(b"12x", &mut at), Err(Error::InvalidType(_))));
    let mut at = 0;
    let mut out = Vec::new();
    assert_eq!(tinkervm::parser::compile_hex(b"41", &mut at, &mut out), Ok(()));
    assert_eq!(out, vec![0x41]);
}

#[test]
fn legacy_hex_reader_skips_leading_blanks() {
    let mut at = 0;
    assert_eq!(tinkervm::parser::hex_to_u32(b"  1A ", &mut at), Ok(0x1A));
    assert_eq!(at, 5);
    let mut at = 0;
    assert_eq!(tinkervm::parser::hex_to_u32(b"123456789", &mut at), Err(Error::InvalidType("overflow".to_string())));
    let mut at = 0;
    assert_eq!(tinkervm::parser::hex_to_u32(b"12x", &mut at), Err(Error::InvalidType("invalid hex digit".to_string())));
}

#[test]
fn hex_reader_messages_quote_the_digit() {
    let mut at = 0;
    let mut cursor = AsmCursor::new();
    let r = hex_to_u16(b"12 zz", &mut at, &mut cursor);
    assert_eq!(r, Ok(0x12));
    let r = hex_to_u16(b"12 zz", &mut at, &mut cursor);
    assert_eq!(r.unwrap_err().error, Error::SyntaxError("Invalid hex digit 'z'".to_string()));
    let mut at = 0;
    let mut cursor = AsmCursor::new();
    let r = hex_to_u16(b"00001 ", &mut at, &mut cursor);
    assert_eq!(r.unwrap_err().error, Error::InvalidType("0'1 overflow, maximum digit count 4".to_string()));
    let mut at = 0;
    let r = hex_to_u8(b"ab'c", &mut at, &mut cursor);
    assert_eq!(r.unwrap_err().error, Error::InvalidType("AB'c overflow, maximum digit count 2".to_string()));
    assert_eq!(hex_char_to_byte(b'g'), Err(Error::SyntaxError("Invalid hex character: 'g'".to_string())));
}

#[test]
fn type_names_report_what_was_expected() {
    let mut at = 0;
    let mut cursor = AsmCursor::new();
    let r = tinkervm::parser::assembly::get_type_from_asm(b"ptr u8>", &mut at, &mut cursor);
    assert_eq!(r.unwrap_err().error, Error::InvalidType("expected '<', found 'u'".to_string()));
    let mut at = 0;
    let r = tinkervm::parser::assembly::get_type_from_asm(b"ptr", &mut at, &mut cursor);
    assert_eq!(r.unwrap_err().error, Error::InvalidType("unexpected end of input, expected '<'".to_string()));
    let mut at = 0;
    let r = tinkervm::parser::assembly::get_type_from_asm(b"ptr<u8", &mut at, &mut cursor);
    assert_eq!(r.unwrap_err().error, Error::InvalidType("unexpected end of input, expected '>'".to_string()));
    let mut at = 0;
    let r = tinkervm::parser::assembly::get_type_from_asm(b"<u8>", &mut at, &mut cursor);
    assert_eq!(r.unwrap_err().error, Error::InvalidType("expected type identifier, found '<', '>', or end of input".to_string()));
    let mut at = 0;
    let r = tinkervm::parser::assembly::get_type_from_asm(b"ptr<u8>", &mut at, &mut cursor);
    assert_eq!(r, Ok(ValueType::Ptr(Box::new(ValueType::U8))));
}

#[test]
fn hex_text_errors_say_what_is_wrong() {
    let mut at = 0;
    let mut out = Vec::new();
    assert_eq!(compile_hex(b"0a f", &mut at, &mut out), Err(Error::EOFError("Unexpected EOF: missing second hex digit".to_string())));
    let mut at = 0;
    let mut out = Vec::new();
    assert_eq!(compile_hex(b"0 a", &mut at, &mut out), Err(Error::SyntaxError("Unexpected whitespace in hex pair".to_string())));
    let mut at = 0;
    let mut out = Vec::new();
    assert_eq!(compile_hex(b"0g", &mut at, &mut out), Err(Error::SyntaxError("Invalid hex character: 'g'".to_string())));
    let mut at = 0;
    let mut out = Vec::new();
    assert_eq!(compile_hex(b"x0", &mut at, &mut out), Err(Error::SyntaxError("Invalid hex character: 'x'".to_string())));
}
