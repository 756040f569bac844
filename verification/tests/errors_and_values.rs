use tinkervm::env::Pos;
use tinkervm::exceptions::{Error, ErrorCode, IoFailure};
use tinkervm::value::{var_type_asm_to_code, var_type_asm_to_type, var_type_code, TypedPtr, ValueSlot, ValueType, Var};

#[test]
fn error_codes_match_their_numbers() {
    assert_eq!(Error::SegFault(String::new()).code(), 0xC000_0005);
    assert_eq!(Error::NotFound(String::new()).code(), 0xD000_0005);
    assert_eq!(Error::WildPointer(String::new()).code(), 0xE000_0005);
    assert_eq!(Error::Duplicated(String::new()).code(), 0xF000_0005);
    assert_eq!(Error::InvalidOperation(String::new()).code(), 0xA);
    assert_eq!(Error::SizeMismatch(String::new()).code(), 0xB);
    assert_eq!(Error::InvalidType(String::new()).code(), 0xC);
    assert_eq!(Error::OutOfIndex(String::new()).code(), 0xD);
    assert_eq!(Error::OutOfMemory(String::new()).code(), 0xE);
    assert_eq!(Error::IOError(String::new()).code(), 0xF);
    assert_eq!(Error::EOFError(String::new()).code(), 0x10);
    assert_eq!(Error::InvalidIdentifier(String::new()).code(), 0x11);
    assert_eq!(Error::SyntaxError(String::new()).code(), 0x12);
    assert_eq!(Error::UnrecognizedError(String::new(), 0x1234).code(), 0x1234);
    assert_eq!(ErrorCode::UnrecognizedError.value(), 0x13);
    assert_eq!(ErrorCode::SegFault.value(), 0xC000_0005);
}

#[test]
fn io_failures_map_to_error_kinds() {
    let e = Error::from_io(IoFailure::UnexpectedEof, "eof".to_string(), None);
    assert_eq!(e, Error::EOFError("eof".to_string()));
    let e = Error::from_io(IoFailure::InvalidData, "bad".to_string(), None);
    assert_eq!(e, Error::InvalidType("bad".to_string()));
    let e = Error::from_io(IoFailure::OutOfMemory, "oom".to_string(), None);
    assert_eq!(e, Error::OutOfMemory("oom".to_string()));
    let e = Error::from_io(IoFailure::Unsupported, "no".to_string(), None);
    assert_eq!(e, Error::InvalidOperation("no".to_string()));
    let e = Error::from_io(IoFailure::Other, "other".to_string(), Some(2));
    assert_eq!(e, Error::UnrecognizedError("other".to_string(), 2));
    let e = Error::from_io(IoFailure::Other, "other".to_string(), None);
    assert_eq!(e.code(), 0);
}

#[test]
fn type_names_give_type_codes() {
    assert_eq!(var_type_asm_to_code(b"u8"), Ok(var_type_code::U8));
    assert_eq!(var_type_asm_to_code(b"u32"), Ok(2));
    assert_eq!(var_type_asm_to_code(b"i64"), Ok(7));
    assert_eq!(var_type_asm_to_code(b"f64"), Ok(9));
    assert_eq!(var_type_asm_to_code(b"bool"), Ok(10));
    assert_eq!(var_type_asm_to_code(b"str"), Ok(var_type_code::String));
    assert!(matches!(var_type_asm_to_code(b"ptr"), Err(Error::InvalidType(_))));
    assert!(matches!(var_type_asm_to_code(b"u128"), Err(Error::InvalidType(_))));
    assert_eq!(var_type_asm_to_type(b"i16"), Ok(ValueType::I16));
    assert_eq!(var_type_asm_to_type(b"str"), Ok(ValueType::String));
    assert!(matches!(var_type_asm_to_type(b""), Err(Error::InvalidType(_))));
}

#[test]
fn value_types_report_pointers_and_references() {
    let p = ValueType::Ptr(Box::new(ValueType::Ptr(Box::new(ValueType::U8))));
    assert!(p.is_ptr());
    assert!(p.is_reference_type());
    assert_eq!(p.ptr_depth(), 2);
    assert_eq!(p.target_type(), Some(&ValueType::Ptr(Box::new(ValueType::U8))));
    assert!(ValueType::String.is_reference_type());
    assert!(!ValueType::String.is_ptr());
    assert!(!ValueType::U32.is_reference_type());
    assert_eq!(ValueType::U32.ptr_depth(), 0);
    assert_eq!(ValueType::Bool.target_type(), None);
}

#[test]
fn value_slots_tell_inline_values_from_references() {
    let ptr = TypedPtr { pos: Pos(4), ty: ValueType::String };
    let r = ValueSlot::Reference(ptr.clone());
    let v = ValueSlot::Primitive(Var::Bool(true));
    assert!(r.is_reference());
    assert!(!r.is_primitive());
    assert_eq!(r.as_ref(), Some(&ptr));
    assert!(v.is_primitive());
    assert_eq!(v.as_ref(), None);
}
