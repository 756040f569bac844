use tinkervm::env::{Env, FuncPtr};
use tinkervm::exceptions::Error;
use tinkervm::memory::MemoryPool;
use tinkervm::parser::assembly::{compile_assembly, CursorPos, StaticCursorPos};
use tinkervm::parser::exec::{run, Machine, Step};
use tinkervm::value::Var;

fn assemble(text: &str) -> (Env, Result<(), tinkervm::parser::assembly::AsmError>) {
    let mut env = Env::new(None);
    let mut at = 0;
    let mut cursor = CursorPos::new();
    let r = compile_assembly(text.as_bytes(), &mut at, &mut env, &mut cursor);
    (env, r)
}

fn run_env(env: Env) -> Result<u32, tinkervm::parser::exec::ExecError> {
    let mut m = Machine::new(env, MemoryPool::new(0, 1024));
    if let Err(e) = m.call(FuncPtr(0), Vec::new()) {
        return run(Err(e));
    }
    loop {
        match m.step() {
            Step::Continue => {}
            Step::Finished(v) => return run(Ok(v)),
            Step::Failed(e) => return run(Err(e)),
            _ => panic!("unexpected step"),
        }
    }
}

#[test]
fn a_program_is_assembled_and_run() {
    let text = "func 0\n  cp\n    u32 2a\n  endcp\n  ldc 0\n  popret\nendfunc\n";
    let (env, r) = assemble(text);
    assert!(r.is_ok());
    let info = env.get_func(&FuncPtr(0)).unwrap();
    assert_eq!(info.code, vec![28, 0, 12]);
    assert_eq!(info.constants, vec![Var::U32(0x2a)]);
    assert_eq!(run_env(env), Ok(42));
}

#[test]
fn instructions_are_encoded_with_little_endian_operands() {
    let text = "func 1\nnewv u16 102\nmovc 3 4\npushvar 102\nadd\nnop\ncall 10\nconvtop u32\nendfunc";
    let (env, r) = assemble(text);
    assert!(r.is_ok());
    let info = env.get_func(&FuncPtr(1)).unwrap();
    assert_eq!(info.code, vec![18, 1, 0x02, 0x01, 16, 3, 0, 4, 0, 24, 0x02, 0x01, 0, 22, 23, 0x10, 0, 0, 0, 30, 2]);
}

#[test]
fn arithmetic_runs_end_to_end() {
    let text = "; forty plus two\nfunc 0\ncp\nu32 28\nu32 2\nendcp\nldc 0\nldc 1\nadd\npopret\nendfunc\n";
    let (env, r) = assemble(text);
    assert!(r.is_ok());
    assert_eq!(run_env(env), Ok(42));
}

#[test]
fn labels_give_jump_targets() {
    let text = "func 0\ncp u64 9 endcp\nlabel top\nnop\njmp top\nendfunc";
    let (env, r) = assemble(text);
    assert!(r.is_ok());
    let info = env.get_func(&FuncPtr(0)).unwrap();
    assert_eq!(info.code, vec![22, 13, 1, 0, 0, 0, 0, 0, 0, 0]);
    assert_eq!(info.labels, vec![1]);
}

#[test]
fn jumping_to_an_unknown_label_is_refused() {
    let (_, r) = assemble("func 0\njmp nowhere\nendfunc");
    assert!(matches!(r, Err(e) if matches!(e.error, Error::OutOfIndex(_))));
}

#[test]
fn statements_outside_functions_are_refused() {
    let (_, r) = assemble("add");
    assert!(matches!(r, Err(e) if matches!(e.error, Error::SyntaxError(_))));
    let (_, r) = assemble("endcp");
    assert!(matches!(r, Err(e) if matches!(e.error, Error::SyntaxError(_))));
    let (_, r) = assemble("endfunc");
    assert!(matches!(r, Err(e) if matches!(e.error, Error::SyntaxError(_))));
}

#[test]
fn an_unfinished_function_is_refused() {
    let (env, r) = assemble("func 0\nnop\n");
    assert!(matches!(r, Err(e) if matches!(e.error, Error::EOFError(_))));
    assert!(env.get_func(&FuncPtr(0)).is_err());
}

#[test]
fn nested_and_repeated_functions_are_duplicated() {
    let (_, r) = assemble("func 0\nfunc 1\nendfunc");
    assert!(matches!(r, Err(e) if matches!(e.error, Error::Duplicated(_))));
    let (env, r) = assemble("func 0\nendfunc\nfunc 0\nendfunc");
    assert!(matches!(r, Err(e) if matches!(e.error, Error::Duplicated(_))));
    assert!(env.get_func(&FuncPtr(0)).is_ok());
}

#[test]
fn unknown_mnemonics_are_invalid_identifiers() {
    let (_, r) = assemble("func 0\nfrobnicate\nendfunc");
    assert!(matches!(r, Err(e) if matches!(e.error, Error::InvalidIdentifier(_))));
    let (_, r) = assemble("func 0\n12\nendfunc");
    assert!(matches!(r, Err(e) if matches!(e.error, Error::InvalidIdentifier(_))));
}

#[test]
fn errors_carry_the_line_they_happened_on() {
    let (_, r) = assemble("func 0\nnop\nbogus\nendfunc");
    match r {
        Err(e) => assert_eq!(e.pos.line, 3),
        Ok(()) => panic!("expected an error"),
    }
}

#[test]
fn a_static_cursor_stops_counting_columns_until_released() {
    let mut cursor = CursorPos::new();
    let guard = StaticCursorPos::new(&mut cursor);
    guard.cursor_pos.push_u8(b'x');
    assert_eq!(guard.cursor_pos.column, 1);
    guard.release();
    cursor.push_u8(b'x');
    assert_eq!(cursor.column, 2);
    assert!(cursor.set_static(false).is_err());
    assert!(cursor.set_static(true).is_ok());
}

#[test]
fn labels_belong_to_their_function() {
    let (_, r) = assemble("func 0\nlabel a\nnop\nendfunc\nfunc 1\njmp a\nendfunc");
    assert!(matches!(r, Err(e) if matches!(e.error, Error::OutOfIndex(_))));
}

#[test]
fn constants_of_other_types_are_not_implemented() {
    let (_, r) = assemble("func 0\ncp\ni8 5\nendcp\nendfunc");
    assert!(matches!(r, Err(e) if e.error == Error::InvalidType("not yet implemented".to_string())));
    let (_, r) = assemble("func 0\ncp\nbogus 5\nendcp\nendfunc");
    assert!(matches!(r, Err(e) if matches!(e.error, Error::InvalidType(_))));
}

#[test]
fn assembler_messages_name_what_went_wrong() {
    let (env, r) = assemble("nop");
    assert_eq!(r.unwrap_err().error, Error::SyntaxError("Statement nop must be in a function".to_string()));
    assert!(env.get_func(&FuncPtr(0)).is_err());
    let (env, r) = assemble("func 0\nnop\n");
    assert_eq!(r.unwrap_err().error, Error::EOFError("Unexpected EOF when reading cmd identifier".to_string()));
    assert!(env.get_func(&FuncPtr(0)).is_err());
    let (_, r) = assemble("func 0\njmp nowhere\nendfunc");
    assert_eq!(r.unwrap_err().error, Error::OutOfIndex("Unknown label nowhere".to_string()));
    let (_, r) = assemble("func 0\nfunc 1\nendfunc");
    assert_eq!(r.unwrap_err().error, Error::Duplicated("Nested functions are not allowed".to_string()));
    let (_, r) = assemble("func 0\nendfunc\nfunc 0\nendfunc");
    assert_eq!(r.unwrap_err().error, Error::Duplicated("func 0 already registered".to_string()));
    let (_, r) = assemble("endfunc");
    assert_eq!(r.unwrap_err().error, Error::SyntaxError("Unexpected endfunc".to_string()));
    let (_, r) = assemble("endcp");
    assert_eq!(r.unwrap_err().error, Error::SyntaxError("endcp is invalid outside constant pools".to_string()));
    let (_, r) = assemble("func 0\ncp\nu8 1\n");
    assert_eq!(r.unwrap_err().error, Error::EOFError("Unexpected end of constant pool".to_string()));
    let (_, r) = assemble("func 0\ncp\nptr 1\nendcp\nendfunc");
    assert_eq!(r.unwrap_err().error, Error::InvalidType("ptr is not supported yet".to_string()));
    let (_, r) = assemble("func 0\nconvtop u128\nendfunc");
    assert_eq!(r.unwrap_err().error, Error::InvalidType("u128".to_string()));
    let (_, r) = assemble("func 0\nlabel");
    assert_eq!(r.unwrap_err().error, Error::EOFError("Unexpected EOF when reading label id".to_string()));
    let (_, r) = assemble("func 0\njmp");
    assert_eq!(r.unwrap_err().error, Error::EOFError("Missing label after jmp".to_string()));
    let (_, r) = assemble("func 0\nnewv");
    assert_eq!(r.unwrap_err().error, Error::EOFError("(NEWV) Unexpected EOF when reading type identifier".to_string()));
    let (_, r) = assemble("label top\njmp top");
    assert_eq!(r.unwrap_err().error, Error::SyntaxError("jmp outside function".to_string()));
}

#[test]
fn mnemonics_that_look_like_numbers_are_reported_as_numbers() {
    let (_, r) = assemble("func 0\nff\nendfunc");
    let e = r.unwrap_err();
    assert_eq!(e.error, Error::InvalidIdentifier("Integer 255 is not a valid identifier, did you add redundant arguments?".to_string()));
    assert_eq!(e.pos.line, 2);
    let (_, r) = assemble("func 0\nfoo\nendfunc");
    assert_eq!(r.unwrap_err().error, Error::InvalidIdentifier("foo".to_string()));
    let (_, r) = assemble("func 0\n11112222333344445\nendfunc");
    let e = r.unwrap_err();
    assert_eq!(e.error, Error::InvalidIdentifier(
        "'11112222333344445' looks like a valid integer but it overflows. Did you add redundant integer arguments?".to_string()));
    assert_eq!(e.pos.line, 2);
}

#[test]
fn a_nested_function_inside_an_instruction_is_refused() {
    let mut at = 0;
    let mut out = Vec::new();
    let mut cursor = CursorPos::new();
    let mut out_pos = tinkervm::parser::assembly::OutputCursorPos::new();
    let r = tinkervm::parser::assembly::compile_assembly_cmd(b"func", b"", &mut at, &mut out, &mut cursor, &mut out_pos);
    assert_eq!(r.unwrap_err().error, Error::Duplicated("Nested function definition".to_string()));
    let r = tinkervm::parser::assembly::compile_assembly_cmd(b"movc", b"12 zz", &mut at, &mut out, &mut cursor, &mut out_pos);
    assert_eq!(r.unwrap_err().error, Error::SyntaxError("Invalid hex digit 'z'".to_string()));
    assert!(out.is_empty());
    assert_eq!(out_pos.pos, 1);
}

#[test]
fn static_mode_twice_is_an_empty_duplicate() {
    let mut cursor = CursorPos::new();
    assert_eq!(cursor.set_static(false).unwrap_err().error, Error::Duplicated(String::new()));
}

#[test]
fn output_positions_number_bytes_from_one() {
    let out = tinkervm::parser::assembly::OutputCursorPos::new();
    assert_eq!(out.pos, 1);
    let (env, r) = assemble("func 0\nnop\nlabel after_nop\njmp after_nop\nendfunc");
    assert!(r.is_ok());
    let info = env.get_func(&FuncPtr(0)).unwrap();
    assert_eq!(info.code, vec![22, 13, 2, 0, 0, 0, 0, 0, 0, 0]);
    assert_eq!(info.labels, vec![2]);
}
