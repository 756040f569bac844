use tinkervm::env::{Env, FuncPtr};
use tinkervm::exceptions::Error;
use tinkervm::memory::MemoryPool;
use tinkervm::parser::exec::{run, CursorPos, ExecError, Machine, Step};
use tinkervm::parser::exec_cmd::{BinOp, FloatRequest};
use tinkervm::value::Var;

fn float_result(req: &FloatRequest) -> Var {
    match (&req.lhs, &req.rhs) {
        (Var::F32(a), Var::F32(b)) => {
            let (a, b) = (f32::from_bits(*a), f32::from_bits(*b));
            let r = match req.op {
                BinOp::Add => a + b,
                BinOp::Sub => a - b,
                BinOp::Mul => a * b,
                _ => a / b,
            };
            Var::F32(r.to_bits())
        }
        (Var::F64(a), Var::F64(b)) => {
            let (a, b) = (f64::from_bits(*a), f64::from_bits(*b));
            let r = match req.op {
                BinOp::Add => a + b,
                BinOp::Sub => a - b,
                BinOp::Mul => a * b,
                _ => a / b,
            };
            Var::F64(r.to_bits())
        }
        _ => unreachable!(),
    }
}

fn machine_with(funcs: Vec<(u32, Vec<u8>, Vec<Var>)>) -> Machine {
    let mut env = Env::new(None);
    for (id, code, constants) in funcs {
        env.register_func(FuncPtr(id), code, Vec::new(), constants).unwrap();
    }
    Machine::new(env, MemoryPool::new(0, 1024))
}

fn finish(m: &mut Machine) -> Result<Var, ExecError> {
    loop {
        match m.step() {
            Step::Continue => {}
            Step::Float(req) => {
                let v = float_result(&req);
                m.push_float(v);
            }
            Step::Finished(v) => return Ok(v),
            Step::Failed(e) => return Err(e),
            Step::Abort(message) => panic!("{}", message),
        }
    }
}

fn run_main(funcs: Vec<(u32, Vec<u8>, Vec<Var>)>) -> Result<Var, ExecError> {
    let mut m = machine_with(funcs);
    m.call(FuncPtr(0), Vec::new())?;
    finish(&mut m)
}

fn abort_of(funcs: Vec<(u32, Vec<u8>, Vec<Var>)>) -> String {
    let mut m = machine_with(funcs);
    m.call(FuncPtr(0), Vec::new()).unwrap();
    loop {
        match m.step() {
            Step::Continue => {}
            Step::Abort(message) => return message,
            _ => panic!("the run did not abort"),
        }
    }
}

#[test]
fn a_constant_is_loaded_and_returned() {
    let r = run_main(vec![(0, vec![28, 0, 12], vec![Var::U32(42)])]);
    assert_eq!(r, Ok(Var::U32(42)));
    assert_eq!(run(r), Ok(42));
}

#[test]
fn retc_returns_a_constant() {
    assert_eq!(run_main(vec![(0, vec![10, 1, 0], vec![Var::U8(1), Var::U32(3)])]), Ok(Var::U32(3)));
    let r = run_main(vec![(0, vec![10, 5], vec![Var::U8(1)])]);
    assert!(matches!(r, Err(e) if matches!(e.error, Error::OutOfIndex(_)) && e.pos == CursorPos::with_pos(3, FuncPtr(0))));
}

#[test]
fn add_pops_two_operands_and_pushes_the_sum() {
    let r = run_main(vec![(0, vec![28, 0, 28, 1, 0, 12], vec![Var::U32(40), Var::U32(2)])]);
    assert_eq!(r, Ok(Var::U32(42)));
}

#[test]
fn sub_takes_the_top_minus_the_next() {
    let r = run_main(vec![(0, vec![28, 1, 28, 0, 1, 12], vec![Var::I32(3), Var::I32(10)])]);
    assert_eq!(r, Ok(Var::I32(-7)));
    let r = run_main(vec![(0, vec![28, 0, 28, 1, 1, 12], vec![Var::I32(3), Var::I32(10)])]);
    assert_eq!(r, Ok(Var::I32(7)));
}

#[test]
fn integer_operators_compute_as_rust_does() {
    let one = |op: u8, a: Var, b: Var| run_main(vec![(0, vec![28, 1, 28, 0, op, 12], vec![a, b])]);
    assert_eq!(one(2, Var::U16(300), Var::U16(3)), Ok(Var::U16(900)));
    assert_eq!(one(3, Var::I8(-7), Var::I8(2)), Ok(Var::I8(-3)));
    assert_eq!(one(4, Var::I8(-7), Var::I8(2)), Ok(Var::I8(-1)));
    assert_eq!(one(5, Var::U8(1), Var::U8(7)), Ok(Var::U8(128)));
    assert_eq!(one(6, Var::I64(-16), Var::I64(2)), Ok(Var::I64(-4)));
    assert_eq!(one(7, Var::U64(0b1010), Var::U64(0b0101)), Ok(Var::U64(0b1111)));
    assert_eq!(one(8, Var::U64(0b1110), Var::U64(0b0111)), Ok(Var::U64(0b0110)));
    assert_eq!(one(9, Var::U32(0xff), Var::U32(0x0f)), Ok(Var::U32(0xf0)));
}

#[test]
fn overflowing_arithmetic_aborts() {
    assert_eq!(abort_of(vec![(0, vec![28, 0, 28, 1, 1, 12], vec![Var::U32(10), Var::U32(3)])]),
        "attempt to subtract with overflow");
    assert_eq!(abort_of(vec![(0, vec![28, 0, 28, 1, 3, 12], vec![Var::U32(0), Var::U32(3)])]),
        "attempt to divide by zero");
    assert_eq!(abort_of(vec![(0, vec![28, 0, 28, 1, 0, 12], vec![Var::U8(200), Var::U8(100)])]),
        "attempt to add with overflow");
    assert_eq!(abort_of(vec![(0, vec![28, 0, 28, 1, 5, 12], vec![Var::U8(8), Var::U8(1)])]),
        "attempt to shift left with overflow");
}

#[test]
fn operands_of_different_types_are_refused() {
    let r = run_main(vec![(0, vec![28, 0, 28, 1, 0, 12], vec![Var::U32(1), Var::U8(2)])]);
    assert!(matches!(r, Err(e) if matches!(e.error, Error::InvalidType(_))));
    let r = run_main(vec![(0, vec![28, 0, 28, 1, 4, 12], vec![Var::F32(0), Var::F32(0)])]);
    assert!(matches!(r, Err(e) if matches!(e.error, Error::InvalidType(_))));
}

#[test]
fn too_few_operands_are_out_of_index() {
    let r = run_main(vec![(0, vec![28, 0, 0], vec![Var::U32(1)])]);
    assert!(matches!(r, Err(e) if matches!(e.error, Error::OutOfIndex(_))));
    let r = run_main(vec![(0, vec![12], vec![])]);
    assert!(matches!(r, Err(e) if matches!(e.error, Error::OutOfIndex(_))));
}

#[test]
fn floating_point_operations_are_handed_to_the_caller() {
    let a = 1.5f32.to_bits();
    let b = 2.25f32.to_bits();
    let mut m = machine_with(vec![(0, vec![28, 0, 28, 1, 2, 12], vec![Var::F32(a), Var::F32(b)])]);
    m.call(FuncPtr(0), Vec::new()).unwrap();
    assert!(matches!(m.step(), Step::Continue));
    assert!(matches!(m.step(), Step::Continue));
    match m.step() {
        Step::Float(req) => {
            assert_eq!(req.op, BinOp::Mul);
            assert_eq!(req.lhs, Var::F32(b));
            assert_eq!(req.rhs, Var::F32(a));
            m.push_float(float_result(&req));
        }
        _ => panic!("expected a floating-point request"),
    }
    match m.step() {
        Step::Finished(Var::F32(bits)) => assert_eq!(f32::from_bits(bits), 3.375),
        _ => panic!("expected the product"),
    }
    let r = run_main(vec![(0, vec![28, 0, 28, 1, 1, 12], vec![Var::F64(1.0f64.to_bits()), Var::F64(0.5f64.to_bits())])]);
    assert_eq!(r, Ok(Var::F64((-0.5f64).to_bits())));
}

#[test]
fn a_variable_is_declared_written_and_returned() {
    // newv u32 1; movc 0 1; retv 1
    let code = vec![18, 2, 1, 0, 16, 0, 0, 1, 0, 11, 1, 0];
    assert_eq!(run_main(vec![(0, code, vec![Var::U32(9)])]), Ok(Var::U32(9)));
}

#[test]
fn new_variables_start_at_zero() {
    // newv i16 3; pushvar 3; popret
    let code = vec![18, 5, 3, 0, 24, 3, 0, 12];
    assert_eq!(run_main(vec![(0, code, vec![])]), Ok(Var::I16(0)));
    let code = vec![18, 10, 0, 0, 11, 0, 0];
    assert_eq!(run_main(vec![(0, code, vec![])]), Ok(Var::Bool(false)));
}

#[test]
fn a_string_variable_lives_in_the_pool() {
    // newv str 0; retv 0
    let code = vec![18, 11, 0, 0, 11, 0, 0];
    assert_eq!(run_main(vec![(0, code, vec![])]), Ok(Var::String(String::new())));
    // newv ptr<u8> 0; retv 0
    let code = vec![18, 12, 0, 0, 0, 11, 0, 0];
    assert_eq!(run_main(vec![(0, code, vec![])]), Ok(Var::Null));
}

#[test]
fn popvar_and_storevar_write_variables() {
    // newv u8 0; ldc 0; storevar 0; popvar 0; pushvar 0; popret
    let code = vec![18, 0, 0, 0, 28, 0, 26, 0, 0, 25, 0, 0, 24, 0, 0, 12];
    assert_eq!(run_main(vec![(0, code, vec![Var::U8(5)])]), Ok(Var::U8(5)));
    // popvar on an empty stack
    let code = vec![18, 0, 0, 0, 25, 0, 0];
    let r = run_main(vec![(0, code, vec![])]);
    assert!(matches!(r, Err(e) if matches!(e.error, Error::NotFound(_))));
}

#[test]
fn reading_an_undeclared_variable_is_not_found() {
    let r = run_main(vec![(0, vec![24, 7, 0], vec![])]);
    assert!(matches!(r, Err(e) if matches!(e.error, Error::NotFound(_))));
}

#[test]
fn delv_empties_a_variable() {
    // newv u32 0; delv 0; retv 0
    let code = vec![18, 2, 0, 0, 20, 0, 0, 11, 0, 0];
    let r = run_main(vec![(0, code, vec![])]);
    assert!(matches!(r, Err(e) if matches!(e.error, Error::NotFound(_))));
    // delv of a variable that does not exist
    let r = run_main(vec![(0, vec![20, 4, 0], vec![])]);
    assert!(matches!(r, Err(e) if matches!(e.error, Error::NotFound(_))));
}

#[test]
fn delp_frees_pool_blocks() {
    // newv str 0 takes block 511 of a fresh pool; delp 511; delp 511 again
    let code = vec![18, 11, 0, 0, 21, 0xff, 0x01, 0, 0, 21, 0xff, 0x01, 0, 0];
    let r = run_main(vec![(0, code, vec![])]);
    assert!(matches!(r, Err(e) if matches!(e.error, Error::OutOfMemory(_))));
}

#[test]
fn dup_and_pop_work_on_the_top_of_the_stack() {
    let code = vec![28, 0, 27, 0, 12];
    assert_eq!(run_main(vec![(0, code, vec![Var::U32(21)])]), Ok(Var::U32(42)));
    let code = vec![28, 0, 28, 1, 29, 12];
    assert_eq!(run_main(vec![(0, code, vec![Var::U32(1), Var::U32(2)])]), Ok(Var::U32(1)));
    let r = run_main(vec![(0, vec![27], vec![])]);
    assert!(matches!(r, Err(e) if matches!(e.error, Error::NotFound(_))));
    let r = run_main(vec![(0, vec![29], vec![])]);
    assert!(matches!(r, Err(e) if matches!(e.error, Error::OutOfIndex(_))));
}

#[test]
fn conv_top_widens_unsigned_integers() {
    let code = vec![28, 0, 30, 2, 12];
    assert_eq!(run_main(vec![(0, code, vec![Var::U8(5)])]), Ok(Var::U32(5)));
    let code = vec![28, 0, 30, 1, 12];
    assert_eq!(run_main(vec![(0, code, vec![Var::U16(7)])]), Ok(Var::U16(7)));
    let code = vec![28, 0, 30, 1, 12];
    let r = run_main(vec![(0, code, vec![Var::U32(7)])]);
    assert!(matches!(r, Err(e) if matches!(e.error, Error::InvalidType(_))));
    let r = run_main(vec![(0, vec![30, 2], vec![])]);
    assert!(matches!(r, Err(e) if matches!(e.error, Error::NotFound(_))));
}

#[test]
fn jmp_moves_to_a_byte_of_the_code() {
    // Byte 11 (counting from 1) is the `ldc` at index 10.
    let code = vec![13, 11, 0, 0, 0, 0, 0, 0, 0, 10, 28, 0, 12];
    assert_eq!(run_main(vec![(0, code, vec![Var::U64(77)])]), Ok(Var::U64(77)));
    // A jump to 0 lands on the first byte like a jump to 1: here it jumps
    // to itself once more, so the test only runs one step of it.
    let mut m = machine_with(vec![(0, vec![13, 0, 0, 0, 0, 0, 0, 0, 0], vec![])]);
    m.call(FuncPtr(0), Vec::new()).unwrap();
    assert!(matches!(m.step(), Step::Continue));
    assert!(matches!(m.step(), Step::Continue));
}

#[test]
fn a_called_function_sees_a_copy_of_the_stack_and_its_result_is_pushed() {
    let main = vec![28, 0, 23, 1, 0, 0, 0, 0, 12];
    let callee = vec![12];
    let r = run_main(vec![(0, main, vec![Var::U32(20)]), (1, callee, vec![])]);
    assert_eq!(r, Ok(Var::U32(40)));
}

#[test]
fn a_called_function_reads_the_caller_variables() {
    // main: newv u32 0; movc 0 0; call 1; popret. callee: retv 0
    let main = vec![18, 2, 0, 0, 16, 0, 0, 0, 0, 23, 1, 0, 0, 0, 12];
    let callee = vec![11, 0, 0];
    let r = run_main(vec![(0, main, vec![Var::U32(11)]), (1, callee, vec![])]);
    assert_eq!(r, Ok(Var::U32(11)));
}

#[test]
fn calling_a_missing_function_is_not_found_at_its_start() {
    let r = run_main(vec![(0, vec![23, 9, 0, 0, 0], vec![])]);
    assert!(matches!(r, Err(e) if matches!(e.error, Error::NotFound(_)) && e.pos == CursorPos::new(FuncPtr(9))));
    let mut m = machine_with(vec![]);
    let r = m.call(FuncPtr(0), Vec::new());
    assert!(matches!(r, Err(e) if matches!(e.error, Error::NotFound(_)) && e.pos == CursorPos::new(FuncPtr(0))));
}

#[test]
fn running_off_the_end_is_eof() {
    let r = run_main(vec![(0, vec![], vec![])]);
    assert!(matches!(r, Err(e) if matches!(e.error, Error::EOFError(_)) && e.pos == CursorPos::new(FuncPtr(0))));
    let r = run_main(vec![(0, vec![22], vec![])]);
    assert!(matches!(r, Err(e) if matches!(e.error, Error::EOFError(_)) && e.pos.pos == 3));
    let r = run_main(vec![(0, vec![24, 1], vec![])]);
    assert!(matches!(r, Err(e) if matches!(e.error, Error::EOFError(_))));
}

#[test]
fn unknown_opcodes_are_invalid_operations() {
    let r = run_main(vec![(0, vec![14], vec![])]);
    assert!(matches!(r, Err(e) if e.error == Error::InvalidOperation("bin '0xE'".to_string())));
    let r = run_main(vec![(0, vec![0xA5], vec![])]);
    assert!(matches!(r, Err(e) if e.error == Error::InvalidOperation("bin '0xA5'".to_string())));
    for op in [14u8, 15, 17, 19, 31, 255] {
        let r = run_main(vec![(0, vec![op], vec![])]);
        assert!(matches!(r, Err(e) if matches!(e.error, Error::InvalidOperation(_))));
    }
}

#[test]
fn ldc_past_the_constant_pool_aborts() {
    let message = abort_of(vec![(0, vec![28, 3], vec![Var::U8(0)])]);
    assert_eq!(message, "index out of bounds: the len is 1 but the index is 3");
    assert_eq!(abort_of(vec![(0, vec![18, 13, 0, 0], vec![])]), "not yet implemented");
}

#[test]
fn the_main_result_must_be_a_u32() {
    assert_eq!(run(Ok(Var::U32(5))), Ok(5));
    let r = run(Ok(Var::I64(5)));
    assert!(matches!(r, Err(e) if matches!(e.error, Error::InvalidType(_)) && e.pos == CursorPos::with_pos(0, FuncPtr(0))));
    let failure = ExecError::new(Error::NotFound("x".to_string()), CursorPos::new(FuncPtr(2)));
    assert_eq!(run(Err(failure.clone())), Err(failure));
}

#[test]
fn the_environment_comes_back_after_a_run() {
    let mut m = machine_with(vec![(0, vec![28, 0, 12], vec![Var::U32(1)])]);
    m.call(FuncPtr(0), Vec::new()).unwrap();
    assert_eq!(finish(&mut m), Ok(Var::U32(1)));
    let (env, _pool) = m.into_parts();
    assert!(env.parent.is_none());
    assert!(env.get_func(&FuncPtr(0)).is_ok());
}

#[test]
fn an_unfinished_run_gives_back_the_outer_environment() {
    let mut m = machine_with(vec![(0, vec![22, 22], vec![])]);
    m.call(FuncPtr(0), Vec::new()).unwrap();
    assert!(matches!(m.step(), Step::Continue));
    let (env, _pool) = m.into_parts();
    assert!(env.parent.is_none());
    assert!(env.get_func(&FuncPtr(0)).is_ok());
}

#[test]
fn dup_then_pop_leaves_the_stack_as_it_was() {
    let code = vec![28, 0, 27, 29, 12];
    assert_eq!(run_main(vec![(0, code, vec![Var::I8(-5)])]), Ok(Var::I8(-5)));
}

#[test]
fn instruction_errors_say_what_went_wrong() {
    let err = |code: Vec<u8>, constants: Vec<Var>| run_main(vec![(0, code, constants)]).unwrap_err().error;
    assert_eq!(err(vec![29], vec![]), Error::OutOfIndex("(POP) Operand stack underflow".to_string()));
    assert_eq!(err(vec![27], vec![]), Error::NotFound("(DUP) Operand stack is empty".to_string()));
    assert_eq!(err(vec![12], vec![]), Error::OutOfIndex("popret from empty constant pool".to_string()));
    assert_eq!(err(vec![10, 3], vec![]), Error::OutOfIndex("Constant pool, 3".to_string()));
    assert_eq!(err(vec![10], vec![]), Error::EOFError("val_id of retc requires 4 bytes, got 0".to_string()));
    assert_eq!(err(vec![0], vec![]), Error::OutOfIndex("(ADD src1) operand stack underflow".to_string()));
    assert_eq!(err(vec![28, 0, 1], vec![Var::U8(1)]), Error::OutOfIndex("(SUB src2) operand stack underflow".to_string()));
    assert_eq!(err(vec![28, 0, 28, 1, 0], vec![Var::U8(1), Var::U16(2)]),
        Error::InvalidType("(ADD) Type 'U16(2)' and type 'U8(1)' doesn't support this operator".to_string()));
    assert_eq!(err(vec![16, 5, 0, 0, 0], vec![]), Error::OutOfIndex("(MOVC val_index) 5 out of index".to_string()));
    assert_eq!(err(vec![25, 0, 0], vec![]), Error::NotFound("(POPVAR) Operand stack is empty".to_string()));
    assert_eq!(err(vec![26, 0, 0], vec![]), Error::NotFound("(STOREVAR) Operand stack is empty".to_string()));
    assert_eq!(err(vec![30, 1], vec![]), Error::NotFound("(CONV_TOP) Operand stack is empty".to_string()));
    assert_eq!(err(vec![28, 0, 30, 1], vec![Var::U32(7)]), Error::InvalidType("(CONV_TOP!) Cannot convert U32(7) to [U8, U16]".to_string()));
    assert_eq!(err(vec![31], vec![]), Error::InvalidOperation("bin '0x1F'".to_string()));
    assert_eq!(err(vec![13], vec![]), Error::EOFError("pos of jmp requires 4 bytes, got 0".to_string()));
    assert_eq!(err(vec![23, 1], vec![]), Error::EOFError("func_id of call requires 4 bytes, got 1".to_string()));
    assert_eq!(err(vec![16, 1, 0, 2], vec![]), Error::EOFError("dest_var_id of movc requires 4 bytes, got 1".to_string()));
    assert_eq!(err(vec![24, 7], vec![]), Error::EOFError("var_id of loadvar requires 4 bytes, got 1".to_string()));
    assert_eq!(err(vec![22], vec![]), Error::EOFError("Unexpected EOF when running VM, at 3".to_string()));
}

#[test]
fn newv_errors_say_what_went_wrong() {
    let err = |code: Vec<u8>| run_main(vec![(0, code, vec![])]).unwrap_err().error;
    assert_eq!(err(vec![18]), Error::EOFError("failed to fill whole buffer".to_string()));
    assert_eq!(err(vec![18, 1, 0]), Error::EOFError("var_id of newv requires 4 bytes, got 1".to_string()));
    let mut env = Env::new(None);
    env.register_func(FuncPtr(0), vec![18, 11, 0, 0], Vec::new(), Vec::new()).unwrap();
    let mut m = Machine::new(env, MemoryPool::new(0, 0));
    m.call(FuncPtr(0), Vec::new()).unwrap();
    let e = finish(&mut m).unwrap_err();
    assert_eq!(e.error, Error::OutOfMemory("free_list has been exhausted before allocating".to_string()));
}
