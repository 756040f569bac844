use tinkervm::env::{Env, FuncPtr, Pos, SymbolTable};
use tinkervm::exceptions::Error;
use tinkervm::memory::MemoryPool;
use tinkervm::value::{TypedPtr, ValueSlot, ValueType, Var, VarId};

#[test]
fn inserted_values_are_looked_up_and_read() {
    let pool = MemoryPool::new(0, 8);
    let mut env = Env::new(None);
    assert_eq!(env.insert_primitive(VarId(3), Var::U32(5)), None);
    assert_eq!(env.lookup_slot(&VarId(3)), Some(ValueSlot::Primitive(Var::U32(5))));
    assert_eq!(env.get_var(&pool, &VarId(3)), Ok(Var::U32(5)));
    assert_eq!(env.vars.len(), 4);
    assert!(matches!(env.get_var(&pool, &VarId(1)), Err(Error::NotFound(_))));
}

#[test]
fn writes_go_to_the_slot_or_to_its_pool_block() {
    let mut pool = MemoryPool::new(0, 8);
    let mut env = Env::new(None);
    env.insert_primitive(VarId(0), Var::U8(1));
    assert_eq!(env.set_var_value(&mut pool, VarId(0), Var::U8(9)), Ok(()));
    assert_eq!(env.get_var(&pool, &VarId(0)), Ok(Var::U8(9)));
    let p = pool.allocate().unwrap();
    env.insert_var(VarId(1), TypedPtr { pos: p, ty: ValueType::String });
    assert_eq!(env.set_var_value(&mut pool, VarId(1), Var::String("hi".to_string())), Ok(()));
    assert_eq!(env.get_var(&pool, &VarId(1)), Ok(Var::String("hi".to_string())));
    assert_eq!(pool.get(p), Ok(&Var::String("hi".to_string())));
    assert!(matches!(env.set_var_value(&mut pool, VarId(7), Var::U8(0)), Err(Error::NotFound(_))));
}

#[test]
fn lookups_continue_in_the_enclosing_environment() {
    let pool = MemoryPool::new(0, 8);
    let mut outer = Env::new(None);
    outer.insert_primitive(VarId(0), Var::I32(-1));
    outer.register_func(FuncPtr(4), vec![12], vec![], vec![]).unwrap();
    let mut inner = Env::new(Some(Box::new(outer)));
    assert_eq!(inner.get_var(&pool, &VarId(0)), Ok(Var::I32(-1)));
    inner.insert_primitive(VarId(0), Var::I32(2));
    assert_eq!(inner.get_var(&pool, &VarId(0)), Ok(Var::I32(2)));
    assert_eq!(inner.get_func(&FuncPtr(4)).unwrap().code, vec![12]);
    assert!(matches!(inner.get_func(&FuncPtr(5)), Err(Error::NotFound(_))));
}

#[test]
fn dropping_a_variable_frees_its_block() {
    let mut pool = MemoryPool::new(0, 8);
    let mut env = Env::new(None);
    let p = pool.allocate().unwrap();
    env.insert_var(VarId(0), TypedPtr { pos: p, ty: ValueType::String });
    assert_eq!(env.drop_var(&mut pool, VarId(0)), Ok(()));
    assert_eq!(env.lookup_slot(&VarId(0)), None);
    assert!(matches!(pool.get(p), Err(Error::SegFault(_))));
    assert!(matches!(env.drop_var(&mut pool, VarId(0)), Err(Error::NotFound(_))));
    env.insert_primitive(VarId(2), Var::Bool(true));
    assert_eq!(env.remove_var(VarId(2)), Ok(()));
    assert!(matches!(env.remove_var(VarId(2)), Err(Error::NotFound(_))));
}

#[test]
fn reference_slots_take_only_reference_types() {
    let mut env = Env::new(None);
    env.insert_primitive(VarId(0), Var::U8(0));
    let r = env.set_var_ref(VarId(0), TypedPtr { pos: Pos(0), ty: ValueType::U8 });
    assert!(matches!(r, Err(Error::InvalidOperation(_))));
    let r = env.set_var_ref(VarId(5), TypedPtr { pos: Pos(0), ty: ValueType::String });
    assert!(matches!(r, Err(Error::NotFound(_))));
    let r = env.set_var_ref(VarId(0), TypedPtr { pos: Pos(2), ty: ValueType::String });
    assert_eq!(r, Ok(()));
    assert_eq!(env.lookup_slot(&VarId(0)), Some(ValueSlot::Reference(TypedPtr { pos: Pos(2), ty: ValueType::String })));
}

#[test]
fn with_var_applies_a_function_to_a_pooled_value() {
    let mut pool = MemoryPool::new(0, 8);
    let env = Env::new(None);
    let p = pool.allocate().unwrap();
    pool.set(p, Var::U16(4)).unwrap();
    let r = env.with_var(&pool, TypedPtr { pos: p, ty: ValueType::U16 }, |v| matches!(v, Var::U16(4)));
    assert_eq!(r, Ok(true));
    let r = env.with_var(&pool, TypedPtr { pos: Pos(100), ty: ValueType::U16 }, |_| 0);
    assert!(matches!(r, Err(Error::WildPointer(_))));
}

#[test]
fn with_var_mut_changes_a_pooled_value() {
    let mut pool = MemoryPool::new(0, 8);
    let env = Env::new(None);
    let p = pool.allocate().unwrap();
    pool.set(p, Var::U16(4)).unwrap();
    let r = env.with_var_mut(&mut pool, TypedPtr { pos: p, ty: ValueType::U16 }, |v| {
        *v = Var::U16(9);
        3u8
    });
    assert_eq!(r, Ok(3));
    assert_eq!(pool.get(p), Ok(&Var::U16(9)));
    let r = env.with_var_mut(&mut pool, TypedPtr { pos: Pos(100), ty: ValueType::U16 }, |_| 0);
    assert_eq!(r, Err(Error::NotFound("position invalid".to_string())));
    pool.dealloc(p).unwrap();
    let r = env.with_var_mut(&mut pool, TypedPtr { pos: p, ty: ValueType::U16 }, |_| 0);
    assert_eq!(r, Err(Error::NotFound("position invalid".to_string())));
}

#[test]
fn a_function_number_is_registered_once() {
    let mut env = Env::new(None);
    assert_eq!(env.register_func(FuncPtr(0), vec![1], vec![], vec![]), Ok(()));
    assert!(matches!(env.register_func(FuncPtr(0), vec![2], vec![], vec![]), Err(Error::Duplicated(_))));
    assert_eq!(env.get_func(&FuncPtr(0)).unwrap().code, vec![1]);
}

#[test]
fn symbol_tables_start_empty() {
    let _table = SymbolTable::new();
}
