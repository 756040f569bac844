use tinkervm::env::Pos;
use tinkervm::exceptions::Error;
use tinkervm::memory::MemoryPool;
use tinkervm::value::Var;

fn is_kind(r: &Result<(), Error>, want: fn(&Error) -> bool) -> bool {
    match r {
        Err(e) => want(e),
        Ok(()) => false,
    }
}

#[test]
fn new_pool_allocates_from_the_end_of_its_free_list() {
    let mut pool = MemoryPool::new(0, 1024);
    assert_eq!(pool.allocate(), Ok(Pos(511)));
    assert_eq!(pool.allocate(), Ok(Pos(510)));
    assert_eq!(pool.get(Pos(511)), Ok(&Var::Null));
}

#[test]
fn set_then_get_reads_the_value_back() {
    let mut pool = MemoryPool::new(0, 16);
    let p = pool.allocate().unwrap();
    assert_eq!(pool.set(p, Var::U32(7)), Ok(()));
    assert_eq!(pool.get(p), Ok(&Var::U32(7)));
    *pool.get_mut(p).unwrap() = Var::I8(-3);
    assert_eq!(pool.get(p), Ok(&Var::I8(-3)));
}

#[test]
fn freed_block_reads_as_segfault_and_is_handed_out_again() {
    let mut pool = MemoryPool::new(0, 16);
    let p = pool.allocate().unwrap();
    let q = pool.allocate().unwrap();
    assert_ne!(p, q);
    assert_eq!(pool.dealloc(p), Ok(()));
    assert!(matches!(pool.get(p), Err(Error::SegFault(_))));
    assert_eq!(pool.allocate(), Ok(p));
}

#[test]
fn double_free_and_wild_free_are_refused() {
    let mut pool = MemoryPool::new(0, 4);
    let p = pool.allocate().unwrap();
    assert_eq!(pool.dealloc(p), Ok(()));
    assert!(is_kind(&pool.dealloc(p), |e| matches!(e, Error::OutOfMemory(_))));
    assert!(is_kind(&pool.dealloc(Pos(100)), |e| matches!(e, Error::SegFault(_))));
}

#[test]
fn reads_and_writes_past_the_end_are_wild() {
    let mut pool = MemoryPool::new(2, 4);
    assert!(matches!(pool.get(Pos(3)), Err(Error::WildPointer(_))));
    assert!(is_kind(&pool.set(Pos(3), Var::Null), |e| matches!(e, Error::WildPointer(_))));
    assert!(is_kind(&pool.set(Pos(0), Var::Null), |e| matches!(e, Error::SegFault(_))));
    assert!(matches!(pool.get_mut(Pos(9)), Err(Error::WildPointer(_))));
}

#[test]
fn resize_refuses_shrinking_and_growing_past_the_maximum() {
    let mut pool = MemoryPool::new(2, 8);
    assert!(is_kind(&pool.resize(1), |e| matches!(e, Error::SizeMismatch(_))));
    assert!(is_kind(&pool.resize(9), |e| matches!(e, Error::OutOfMemory(_))));
    assert_eq!(pool.resize(5), Ok(()));
    assert_eq!(pool.resize(5), Ok(()));
    assert_eq!(pool.extend(3), Ok(()));
    assert!(is_kind(&pool.extend(1), |e| matches!(e, Error::OutOfMemory(_))));
    assert_eq!(pool.allocate(), Ok(Pos(7)));
}

#[test]
fn allocation_grows_the_pool_up_to_its_maximum() {
    let mut pool = MemoryPool::new(0, 2);
    assert_eq!(pool.allocate(), Ok(Pos(0)));
    assert_eq!(pool.allocate(), Ok(Pos(1)));
    assert!(matches!(pool.allocate(), Err(Error::OutOfMemory(_))));
}

#[test]
fn empty_pool_without_room_cannot_allocate() {
    let mut pool = MemoryPool::new(0, 0);
    assert!(matches!(pool.allocate(), Err(Error::OutOfMemory(_))));
}

#[test]
fn growth_adds_at_most_sixty_four_blocks() {
    let mut pool = MemoryPool::new(0, 200);
    for _ in 0..100 {
        pool.allocate().unwrap();
    }
    assert_eq!(pool.allocate(), Ok(Pos(163)));
}

#[test]
fn reset_gives_a_fresh_pool() {
    let mut pool = MemoryPool::new(0, 8);
    let p = pool.allocate().unwrap();
    pool.set(p, Var::U8(1)).unwrap();
    pool.reset(3);
    assert!(matches!(pool.get(p), Err(Error::WildPointer(_))));
    assert_eq!(pool.allocate(), Ok(Pos(2)));
}
