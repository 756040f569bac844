//! The memory pool: numbered blocks that each hold one value or are free,
//! and a list of the free block numbers from which allocation takes.
use vstd::prelude::*;
use crate::env::Pos;
use crate::exceptions::{Error, ErrorCode};
use crate::text::{message_with_number, numbered};
use crate::exceptions::spec_message;
use vstd::string::*;
use crate::value::Var;

verus! {

pub type MemBlock = Var;

pub struct MemoryPool {
    mem_blocks: Vec<Option<Box<MemBlock>>>,
    free_list: Vec<Pos>,
    min_capacity: usize,
    max_capacity: usize,
}

/// The abstract state of a memory pool: the content of each block (`None`
/// for a free block), the free list in order (allocation takes from its
/// end), and the capacity bounds it was made with.
pub struct PoolView {
    pub blocks: Seq<Option<Var>>,
    pub free: Seq<usize>,
    pub min_capacity: usize,
    pub max_capacity: usize,
}

/// The sequence `lo, lo + 1, ..., hi - 1`.
pub open spec fn index_range(lo: int, hi: int) -> Seq<usize> {
    Seq::new((hi - lo) as nat, |i: int| (lo + i) as usize)
}

/// `n` free blocks.
pub open spec fn free_blocks(n: nat) -> Seq<Option<Var>> {
    Seq::new(n, |i: int| None::<Var>)
}

impl PoolView {
    /// The pool's invariant: the free list names, each once, exactly the
    /// blocks that hold no value.
    pub open spec fn wf(self) -> bool {
        &&& self.blocks.len() <= usize::MAX
        &&& forall|i: int| 0 <= i < self.free.len() ==> #[trigger] self.free[i] < self.blocks.len()
        &&& forall|i: int| 0 <= i < self.free.len() ==> self.blocks[#[trigger] self.free[i] as int] is None
        &&& forall|i: int, j: int| 0 <= i < self.free.len() && 0 <= j < self.free.len() && i != j
                ==> self.free[i] != self.free[j]
        &&& forall|p: int| 0 <= p < self.blocks.len() && #[trigger] self.blocks[p] is None
                ==> self.free.contains(p as usize)
    }

    /// Whether a block holds a value.
    pub open spec fn is_live(self, p: int) -> bool {
        0 <= p < self.blocks.len() && self.blocks[p] is Some
    }
}

/// A fresh pool of `n` free blocks whose free list is `0, 1, ..., n - 1`.
pub open spec fn spec_fresh(n: nat, min_capacity: usize, max_capacity: usize) -> PoolView {
    PoolView {
        blocks: free_blocks(n),
        free: index_range(0, n as int),
        min_capacity,
        max_capacity,
    }
}

/// Reading a block: its value, `SegFault` for a free block, `WildPointer`
/// past the end.
pub open spec fn spec_get(v: PoolView, p: usize) -> Result<Var, ErrorCode> {
    if p < v.blocks.len() {
        match v.blocks[p as int] {
            Some(x) => Ok(x),
            None => Err(ErrorCode::SegFault),
        }
    } else {
        Err(ErrorCode::WildPointer)
    }
}

/// Overwriting the value of a live block.
pub open spec fn spec_set(v: PoolView, p: usize, x: Var) -> (PoolView, Result<(), ErrorCode>) {
    if p < v.blocks.len() {
        match v.blocks[p as int] {
            Some(_) => (PoolView { blocks: v.blocks.update(p as int, Some(x)), ..v }, Ok(())),
            None => (v, Err(ErrorCode::SegFault)),
        }
    } else {
        (v, Err(ErrorCode::WildPointer))
    }
}

/// Growing the pool to `new_len` blocks: shrinking is refused, the same
/// length changes nothing, more than the maximum capacity is refused, and
/// otherwise free blocks are added and their numbers appended to the free
/// list in increasing order.
pub open spec fn spec_resize(v: PoolView, new_len: usize) -> (PoolView, Result<(), ErrorCode>) {
    let old_len = v.blocks.len();
    if new_len < old_len {
        (v, Err(ErrorCode::SizeMismatch))
    } else if new_len == old_len {
        (v, Ok(()))
    } else if new_len > v.max_capacity {
        (v, Err(ErrorCode::OutOfMemory))
    } else {
        (PoolView {
            blocks: v.blocks + free_blocks((new_len - old_len) as nat),
            free: v.free + index_range(old_len as int, new_len as int),
            ..v
        }, Ok(()))
    }
}

/// The number of blocks the pool grows by when it allocates with an empty
/// free list: 64, or what is left below the maximum capacity.
pub open spec fn spec_growth(v: PoolView) -> int {
    if v.max_capacity - v.blocks.len() < 64 { v.max_capacity - v.blocks.len() } else { 64 }
}

/// Allocation: the last free block is taken and set to `Null`. With an empty
/// free list the pool grows by `spec_growth` blocks (refused with
/// `OutOfMemory` at the maximum capacity), and the last new block is taken.
pub open spec fn spec_alloc(v: PoolView) -> (PoolView, Result<usize, ErrorCode>) {
    if v.free.len() > 0 {
        let p = v.free.last();
        (PoolView { blocks: v.blocks.update(p as int, Some(Var::Null)), free: v.free.drop_last(), ..v }, Ok(p))
    } else if spec_growth(v) <= 0 {
        (v, Err(ErrorCode::OutOfMemory))
    } else {
        let old_len = v.blocks.len() as int;
        let new_len = old_len + spec_growth(v);
        (PoolView {
            blocks: (v.blocks + free_blocks(spec_growth(v) as nat)).update(new_len - 1, Some(Var::Null)),
            free: index_range(old_len, new_len - 1),
            ..v
        }, Ok((new_len - 1) as usize))
    }
}

/// Freeing a live block: it becomes free and its number goes to the end of
/// the free list. Freeing a free block is refused with `OutOfMemory`, a
/// number past the end with `SegFault`.
pub open spec fn spec_dealloc(v: PoolView, p: usize) -> (PoolView, Result<(), ErrorCode>) {
    if p < v.blocks.len() {
        match v.blocks[p as int] {
            Some(_) => (PoolView { blocks: v.blocks.update(p as int, None), free: v.free.push(p), ..v }, Ok(())),
            None => (v, Err(ErrorCode::OutOfMemory)),
        }
    } else {
        (v, Err(ErrorCode::SegFault))
    }
}

/// The message of the error of reading block `p`: `Wild pointer p` for a
/// free block, the bare number past the end.
pub open spec fn get_error_text(v: PoolView, p: usize, text: Seq<char>) -> bool {
    if p < v.blocks.len() {
        numbered("Wild pointer "@, p as u64, text)
    } else {
        numbered(""@, p as u64, text)
    }
}

/// The message of the error of freeing block `p`: `can't deallocate
/// memory` for a free block, `Dealloc wild pointer p` past the end.
pub open spec fn dealloc_error_text(v: PoolView, p: usize, text: Seq<char>) -> bool {
    if p < v.blocks.len() {
        text == "can't deallocate memory"@
    } else {
        numbered("Dealloc wild pointer "@, p as u64, text)
    }
}

/// The kind of a result, forgetting the message of an error.
pub open spec fn kind_of<T>(r: Result<T, Error>) -> Result<T, ErrorCode> {
    match r {
        Ok(x) => Ok(x),
        Err(e) => Err(crate::exceptions::spec_error_kind(e)),
    }
}

/// The value a block holds, if any.
pub open spec fn block_value(b: Option<Box<Var>>) -> Option<Var> {
    match b {
        Some(x) => Some(*x),
        None => None,
    }
}

/// The values of a sequence of blocks.
pub open spec fn blocks_view(s: Seq<Option<Box<Var>>>) -> Seq<Option<Var>> {
    s.map_values(|b: Option<Box<Var>>| block_value(b))
}

broadcast proof fn lemma_blocks_update(s: Seq<Option<Box<Var>>>, i: int, b: Option<Box<Var>>)
    requires
        0 <= i < s.len(),
    ensures
        #[trigger] blocks_view(s.update(i, b)) == blocks_view(s).update(i, block_value(b)),
{
    assert(blocks_view(s.update(i, b)) =~= blocks_view(s).update(i, block_value(b)));
}

broadcast proof fn lemma_blocks_push(s: Seq<Option<Box<Var>>>, b: Option<Box<Var>>)
    ensures
        #[trigger] blocks_view(s.push(b)) == blocks_view(s).push(block_value(b)),
{
    assert(blocks_view(s.push(b)) =~= blocks_view(s).push(block_value(b)));
}

/// The numbers of a sequence of positions.
pub open spec fn positions_view(s: Seq<Pos>) -> Seq<usize> {
    s.map_values(|p: Pos| p.0)
}

broadcast proof fn lemma_positions_push(s: Seq<Pos>, p: Pos)
    ensures
        #[trigger] positions_view(s.push(p)) == positions_view(s).push(p.0),
{
    assert(positions_view(s.push(p)) =~= positions_view(s).push(p.0));
}

broadcast proof fn lemma_positions_drop_last(s: Seq<Pos>)
    requires
        s.len() > 0,
    ensures
        #[trigger] positions_view(s.drop_last()) == positions_view(s).drop_last(),
{
    assert(positions_view(s.drop_last()) =~= positions_view(s).drop_last());
}

impl View for MemoryPool {
    type V = PoolView;

    closed spec fn view(&self) -> PoolView {
        PoolView {
            blocks: blocks_view(self.mem_blocks@),
            free: positions_view(self.free_list@),
            min_capacity: self.min_capacity,
            max_capacity: self.max_capacity,
        }
    }
}

/// Reading a value or an error kind out of a result, forgetting a message.
pub open spec fn outcome<T>(r: Result<T, Error>) -> Result<T, ErrorCode> {
    kind_of(r)
}

/// The block number or error kind of an allocation result.
pub open spec fn pos_outcome(r: Result<Pos, Error>) -> Result<usize, ErrorCode> {
    match r {
        Ok(p) => Ok(p.0),
        Err(e) => Err(crate::exceptions::spec_error_kind(e)),
    }
}

proof fn lemma_fresh_wf(n: nat, min_capacity: usize, max_capacity: usize)
    requires
        n <= usize::MAX,
    ensures
        spec_fresh(n, min_capacity, max_capacity).wf(),
{
    let v = spec_fresh(n, min_capacity, max_capacity);
    assert forall|i: int| 0 <= i < v.free.len() implies #[trigger] v.free[i] < v.blocks.len()
        && v.blocks[v.free[i] as int] is None by {
        assert(v.free[i] == i);
    }
    assert forall|i: int, j: int| 0 <= i < v.free.len() && 0 <= j < v.free.len() && i != j
        implies v.free[i] != v.free[j] by {
        assert(v.free[i] == i);
        assert(v.free[j] == j);
    }
    assert forall|p: int| 0 <= p < v.blocks.len() && #[trigger] v.blocks[p] is None
        implies v.free.contains(p as usize) by {
        assert(v.free[p] == p as usize);
    }
}

impl MemoryPool {
    /// Makes a pool of `(min_capacity + max_capacity) / 2` free blocks whose
    /// free list is `0, 1, ..., n - 1`.
    #[must_use]
    pub fn new(min_capacity: usize, max_capacity: usize) -> (res: Self)
        requires
            min_capacity <= max_capacity,
            min_capacity + max_capacity <= usize::MAX,
        ensures
            res@ == spec_fresh(((min_capacity + max_capacity) / 2) as nat, min_capacity, max_capacity),
            res@.wf(),
    {
        let mid_capacity = (min_capacity + max_capacity) / 2;
        let mut mem_blocks: Vec<Option<Box<MemBlock>>> = Vec::new();
        let mut free_list: Vec<Pos> = Vec::with_capacity(mid_capacity);
        let mut i: usize = 0;
        while i < mid_capacity
            invariant
                i <= mid_capacity,
                mem_blocks@.len() == i,
                free_list@.len() == i,
                forall|j: int| 0 <= j < i ==> mem_blocks@[j] is None,
                forall|j: int| 0 <= j < i ==> free_list@[j].0 == j,
            decreases mid_capacity - i,
        {
            mem_blocks.push(None);
            free_list.push(Pos(i));
            i = i + 1;
        }
        let res = Self { mem_blocks, free_list, min_capacity, max_capacity };
        proof {
            let n = mid_capacity as nat;
            assert(res@.blocks =~= free_blocks(n));
            assert(res@.free =~= index_range(0, n as int));
            lemma_fresh_wf(n, min_capacity, max_capacity);
        }
        res
    }

    /// The value held in block `pos`.
    pub fn get(&self, pos: Pos) -> (res: Result<&MemBlock, Error>)
        ensures
            match res {
                Ok(r) => spec_get(self@, pos.0) == Ok::<Var, ErrorCode>(*r),
                Err(e) => spec_get(self@, pos.0) == Err::<Var, ErrorCode>(crate::exceptions::spec_error_kind(e))
                    && get_error_text(self@, pos.0, spec_message(e)@),
            },
    {
        if pos.0 < self.mem_blocks.len() {
            return match &self.mem_blocks[pos.0] {
                Some(block) => Ok(&**block),
                None => Err(Error::SegFault(message_with_number("Wild pointer ", pos.0 as u64))),
            };
        }
        Err(Error::WildPointer(message_with_number("", pos.0 as u64)))
    }

    /// Overwrites the value of the live block `pos`.
    pub fn set(&mut self, pos: Pos, value: MemBlock) -> (res: Result<(), Error>)
        ensures
            (final(self)@, outcome(res)) == spec_set(old(self)@, pos.0, value),
            old(self)@.wf() ==> final(self)@.wf(),
            res matches Err(e) ==> if pos.0 < old(self)@.blocks.len() {
                spec_message(e)@ == "write to unallocated memory"@
            } else {
                numbered(""@, pos.0 as u64, spec_message(e)@)
            },
    {
        if pos.0 < self.mem_blocks.len() {
            match &self.mem_blocks[pos.0] {
                Some(_) => {
                    self.mem_blocks[pos.0] = Some(Box::new(value));
                    proof {
                        assert(self@.blocks =~= old(self)@.blocks.update(pos.0 as int, Some(value)));
                        assert(self@.free =~= old(self)@.free);
                    }
                    Ok(())
                },
                None => Err(Error::SegFault(String::from_str("write to unallocated memory"))),
            }
        } else {
            Err(Error::WildPointer(message_with_number("", pos.0 as u64)))
        }
    }

    /// A mutable reference to the value held in block `pos`; what is written
    /// through it becomes the block's value.
    pub fn get_mut(&mut self, pos: Pos) -> (res: Result<&mut MemBlock, Error>)
        ensures
            res matches Ok(r) ==> spec_get(old(self)@, pos.0) == Ok::<Var, ErrorCode>(*r)
                && final(self)@ == (PoolView {
                    blocks: old(self)@.blocks.update(pos.0 as int, Some(*final(r))),
                    ..old(self)@
                }),
            res matches Err(e) ==> spec_get(old(self)@, pos.0)
                == Err::<Var, ErrorCode>(crate::exceptions::spec_error_kind(e))
                && final(self)@ == old(self)@
                && get_error_text(old(self)@, pos.0, spec_message(e)@),
    {
        if pos.0 < self.mem_blocks.len() {
            broadcast use lemma_blocks_update;
            let slot = &mut self.mem_blocks[pos.0];
            return match slot {
                Some(block) => Ok(&mut **block),
                None => {
                    proof {
                        assert(blocks_view(old(self).mem_blocks@).update(pos.0 as int, None)
                            =~= blocks_view(old(self).mem_blocks@));
                    }
                    Err(Error::SegFault(message_with_number("Wild pointer ", pos.0 as u64)))
                },
            };
        }
        Err(Error::WildPointer(message_with_number("", pos.0 as u64)))
    }

    /// Grows the pool by `len` blocks.
    pub fn extend(&mut self, len: usize) -> (res: Result<(), Error>)
        requires
            old(self)@.blocks.len() + len <= usize::MAX,
        ensures
            (final(self)@, outcome(res)) == spec_resize(old(self)@, (old(self)@.blocks.len() + len) as usize),
            res matches Err(e) ==> numbered("Exceeds max_capacity "@, old(self)@.max_capacity as u64, spec_message(e)@),
    {
        self.resize(self.mem_blocks.len() + len)?;
        Ok(())
    }

    /// Grows the pool to `new_len` blocks; see [`spec_resize`].
    pub fn resize(&mut self, new_len: usize) -> (res: Result<(), Error>)
        ensures
            (final(self)@, outcome(res)) == spec_resize(old(self)@, new_len),
            res matches Err(e) ==> if new_len < old(self)@.blocks.len() {
                spec_message(e)@ == "Shrinking is not allowed"@
            } else {
                numbered("Exceeds max_capacity "@, old(self)@.max_capacity as u64, spec_message(e)@)
            },
    {
        let old_len = self.mem_blocks.len();
        if new_len < old_len {
            return Err(Error::SizeMismatch(String::from_str("Shrinking is not allowed")));
        } else if new_len == old_len {
            return Ok(());
        } else if new_len > self.max_capacity {
            return Err(Error::OutOfMemory(message_with_number("Exceeds max_capacity ", self.max_capacity as u64)));
        }
        broadcast use lemma_blocks_push, lemma_positions_push;
        let mut idx: usize = old_len;
        while idx < new_len
            invariant
                old_len <= idx <= new_len,
                self.min_capacity == old(self).min_capacity,
                self.max_capacity == old(self).max_capacity,
                self.mem_blocks@.len() == idx,
                blocks_view(self.mem_blocks@) =~= old(self)@.blocks + free_blocks((idx - old_len) as nat),
                self.free_list@.len() == old(self).free_list@.len() + (idx - old_len),
                self@.free =~= old(self)@.free + index_range(old_len as int, idx as int),
            decreases new_len - idx,
        {
            let ghost prev_blocks = self.mem_blocks@;
            let ghost prev_free = self.free_list@;
            self.mem_blocks.push(None);
            self.free_list.push(Pos(idx));
            proof {
                assert(blocks_view(self.mem_blocks@) == blocks_view(prev_blocks).push(None));
                assert(positions_view(self.free_list@) == positions_view(prev_free).push(idx));
                assert(old(self)@.blocks + free_blocks((idx + 1 - old_len) as nat)
                    =~= (old(self)@.blocks + free_blocks((idx - old_len) as nat)).push(None));
                assert(old(self)@.free + index_range(old_len as int, idx + 1)
                    =~= (old(self)@.free + index_range(old_len as int, idx as int)).push(idx));
            }
            idx = idx + 1;
        }
        Ok(())
    }

    /// Empties the pool and gives it `capacity` free blocks, numbered in
    /// order in the free list. The capacity bounds are kept as they were.
    pub fn reset(&mut self, capacity: usize)
        ensures
            final(self)@ == spec_fresh(capacity as nat, old(self)@.min_capacity, old(self)@.max_capacity),
            final(self)@.wf(),
    {
        self.mem_blocks.clear();
        self.free_list.clear();
        let mut i: usize = 0;
        while i < capacity
            invariant
                i <= capacity,
                self.min_capacity == old(self).min_capacity,
                self.max_capacity == old(self).max_capacity,
                self.mem_blocks@.len() == i,
                self.free_list@.len() == i,
                forall|j: int| 0 <= j < i ==> self.mem_blocks@[j] is None,
                forall|j: int| 0 <= j < i ==> self.free_list@[j].0 == j,
            decreases capacity - i,
        {
            self.mem_blocks.push(None);
            self.free_list.push(Pos(i));
            i = i + 1;
        }
        proof {
            assert(self@.blocks =~= free_blocks(capacity as nat));
            assert(self@.free =~= index_range(0, capacity as int));
            lemma_fresh_wf(capacity as nat, self.min_capacity, self.max_capacity);
        }
    }

    /// Allocates a block holding `Null`; see [`spec_alloc`].
    pub fn allocate(&mut self) -> (res: Result<Pos, Error>)
        requires
            old(self)@.wf(),
            old(self)@.free.len() > 0 || old(self)@.blocks.len() <= old(self)@.max_capacity,
        ensures
            (final(self)@, pos_outcome(res)) == spec_alloc(old(self)@),
            res matches Err(e) ==> spec_message(e)@ == "free_list has been exhausted before allocating"@,
    {
        broadcast use lemma_blocks_update, lemma_blocks_push, lemma_positions_push, lemma_positions_drop_last;
        if let Some(pos) = self.free_list.pop() {
            proof {
                assert(old(self)@.free.last() == pos.0);
                assert(self@.free =~= old(self)@.free.drop_last());
            }
            self.mem_blocks[pos.0] = Some(Box::new(Var::Null));
            return Ok(pos);
        }
        let current_len = self.mem_blocks.len();
        let remaining = self.max_capacity - current_len;
        if remaining == 0 {
            return Err(Error::OutOfMemory(String::from_str("free_list has been exhausted before allocating")));
        }
        let grow_by: usize = if 64 < remaining { 64 } else { remaining };
        let new_len = current_len + grow_by;
        let mut idx: usize = current_len;
        while idx < new_len
            invariant
                current_len <= idx <= new_len,
                self.min_capacity == old(self).min_capacity,
                self.max_capacity == old(self).max_capacity,
                self.mem_blocks@.len() == idx,
                blocks_view(self.mem_blocks@) =~= old(self)@.blocks + free_blocks((idx - current_len) as nat),
                self.free_list@.len() == idx - current_len,
                self@.free =~= index_range(current_len as int, idx as int),
            decreases new_len - idx,
        {
            let ghost prev_blocks = self.mem_blocks@;
            let ghost prev_free = self.free_list@;
            self.mem_blocks.push(None);
            self.free_list.push(Pos(idx));
            proof {
                assert(blocks_view(self.mem_blocks@) == blocks_view(prev_blocks).push(None));
                assert(positions_view(self.free_list@) == positions_view(prev_free).push(idx));
                assert(old(self)@.blocks + free_blocks((idx + 1 - current_len) as nat)
                    =~= (old(self)@.blocks + free_blocks((idx - current_len) as nat)).push(None));
                assert(index_range(current_len as int, idx + 1) =~= index_range(current_len as int, idx as int).push(idx));
            }
            idx = idx + 1;
        }
        proof {
            assert(self@.free.len() == new_len - current_len);
            assert(self@.free[self@.free.len() - 1] == new_len - 1);
            assert(self.free_list@.last().0 == self@.free.last());
        }
        let ghost before_pop = self.free_list@;
        let pos = self.free_list.pop().unwrap();
        proof {
            assert(self.free_list@ == before_pop.drop_last());
            assert(positions_view(self.free_list@) == positions_view(before_pop).drop_last());
            assert(index_range(current_len as int, new_len as int).drop_last()
                =~= index_range(current_len as int, new_len - 1));
            assert(pos.0 == new_len - 1);
            assert(self@.free =~= index_range(current_len as int, new_len - 1));
        }
        self.mem_blocks[pos.0] = Some(Box::new(Var::Null));
        Ok(pos)
    }

    /// Frees block `pos`; see [`spec_dealloc`].
    pub fn dealloc(&mut self, pos: Pos) -> (res: Result<(), Error>)
        ensures
            (final(self)@, outcome(res)) == spec_dealloc(old(self)@, pos.0),
            res matches Err(e) ==> dealloc_error_text(old(self)@, pos.0, spec_message(e)@),
    {
        broadcast use lemma_blocks_update, lemma_positions_push;
        if pos.0 < self.mem_blocks.len() {
            match &self.mem_blocks[pos.0] {
                Some(_) => {
                    self.mem_blocks[pos.0] = None;
                    self.free_list.push(pos);
                    Ok(())
                },
                None => Err(Error::OutOfMemory(String::from_str("can't deallocate memory"))),
            }
        } else {
            Err(Error::SegFault(message_with_number("Dealloc wild pointer ", pos.0 as u64)))
        }
    }
}

/// Writing a live block keeps the pool's invariant.
pub proof fn lemma_set_keeps_wf(v: PoolView, p: usize, x: Var)
    requires
        v.wf(),
    ensures
        spec_set(v, p, x).0.wf(),
{
    let w = spec_set(v, p, x).0;
    if p < v.blocks.len() && v.blocks[p as int] is Some {
        assert forall|q: int| 0 <= q < w.blocks.len() && #[trigger] w.blocks[q] is None
            implies w.free.contains(q as usize) by {
            assert(v.blocks[q] is None);
        }
    }
}

/// Growing the pool keeps its invariant.
pub proof fn lemma_resize_keeps_wf(v: PoolView, new_len: usize)
    requires
        v.wf(),
    ensures
        spec_resize(v, new_len).0.wf(),
{
    let old_len = v.blocks.len();
    if old_len < new_len && new_len <= v.max_capacity {
        let w = spec_resize(v, new_len).0;
        let added = index_range(old_len as int, new_len as int);
        assert forall|i: int| 0 <= i < w.free.len() implies #[trigger] w.free[i] < w.blocks.len()
            && w.blocks[w.free[i] as int] is None by {
            if i >= v.free.len() {
                assert(w.free[i] == added[i - v.free.len()]);
            }
        }
        assert forall|i: int, j: int| 0 <= i < w.free.len() && 0 <= j < w.free.len() && i != j
            implies w.free[i] != w.free[j] by {
            if i >= v.free.len() {
                assert(w.free[i] == added[i - v.free.len()]);
            }
            if j >= v.free.len() {
                assert(w.free[j] == added[j - v.free.len()]);
            }
        }
        assert forall|q: int| 0 <= q < w.blocks.len() && #[trigger] w.blocks[q] is None
            implies w.free.contains(q as usize) by {
            if q < old_len {
                assert(v.blocks[q] is None);
                let k = choose|k: int| 0 <= k < v.free.len() && v.free[k] == q as usize;
                assert(w.free[k] == q as usize);
            } else {
                let k = v.free.len() + (q - old_len);
                assert(w.free[k] == added[q - old_len]);
            }
        }
    }
}

/// Allocation keeps the pool's invariant.
pub proof fn lemma_alloc_keeps_wf(v: PoolView)
    requires
        v.wf(),
        v.free.len() > 0 || v.blocks.len() <= v.max_capacity,
    ensures
        spec_alloc(v).0.wf(),
{
    let w = spec_alloc(v).0;
    if v.free.len() > 0 {
        let p = v.free.last();
        let n = v.free.len() - 1;
        assert forall|i: int| 0 <= i < w.free.len() implies #[trigger] w.free[i] < w.blocks.len()
            && w.blocks[w.free[i] as int] is None by {
            assert(w.free[i] == v.free[i]);
            assert(v.free[i] != v.free[n]);
        }
        assert forall|q: int| 0 <= q < w.blocks.len() && #[trigger] w.blocks[q] is None
            implies w.free.contains(q as usize) by {
            assert(w.blocks[p as int] is Some);
            assert(q != p as int);
            assert(v.blocks[q] is None);
            assert(v.free.contains(q as usize));
            let k = choose|k: int| 0 <= k < v.free.len() && v.free[k] == q as usize;
            assert(v.free[k] == q as usize);
            assert(v.free[n] == p);
            assert(k != n);
            assert(w.free[k] == q as usize);
        }
    } else if spec_growth(v) > 0 {
        let old_len = v.blocks.len() as int;
        let new_len = old_len + spec_growth(v);
        assert forall|i: int| 0 <= i < w.free.len() implies #[trigger] w.free[i] < w.blocks.len()
            && w.blocks[w.free[i] as int] is None by {
            assert(w.free[i] == old_len + i);
        }
        assert forall|i: int, j: int| 0 <= i < w.free.len() && 0 <= j < w.free.len() && i != j
            implies w.free[i] != w.free[j] by {
            assert(w.free[i] == old_len + i);
            assert(w.free[j] == old_len + j);
        }
        assert forall|q: int| 0 <= q < w.blocks.len() && #[trigger] w.blocks[q] is None
            implies w.free.contains(q as usize) by {
            if q < old_len {
                assert(v.blocks[q] is None);
                assert(v.free.contains(q as usize));
            } else {
                assert(w.free[q - old_len] == q as usize);
            }
        }
    }
}

/// Freeing a block keeps the pool's invariant.
pub proof fn lemma_dealloc_keeps_wf(v: PoolView, p: usize)
    requires
        v.wf(),
    ensures
        spec_dealloc(v, p).0.wf(),
{
    let w = spec_dealloc(v, p).0;
    if p < v.blocks.len() && v.blocks[p as int] is Some {
        let n = v.free.len() as int;
        assert forall|i: int| 0 <= i < w.free.len() implies #[trigger] w.free[i] < w.blocks.len()
            && w.blocks[w.free[i] as int] is None by {
            if i < n {
                assert(w.free[i] == v.free[i]);
                assert(v.blocks[v.free[i] as int] is None);
            }
        }
        assert forall|i: int, j: int| 0 <= i < w.free.len() && 0 <= j < w.free.len() && i != j
            implies w.free[i] != w.free[j] by {
            if i < n {
                assert(v.blocks[v.free[i] as int] is None);
            }
            if j < n {
                assert(v.blocks[v.free[j] as int] is None);
            }
        }
        assert forall|q: int| 0 <= q < w.blocks.len() && #[trigger] w.blocks[q] is None
            implies w.free.contains(q as usize) by {
            if q == p {
                assert(w.free[n] == p);
            } else {
                assert(v.blocks[q] is None);
                let k = choose|k: int| 0 <= k < v.free.len() && v.free[k] == q as usize;
                assert(w.free[k] == q as usize);
            }
        }
    }
}

/// Allocation hands out a block that held no value, leaves it holding
/// `Null`, and leaves every other existing block as it was.
pub proof fn lemma_alloc_takes_free_block(v: PoolView)
    requires
        v.wf(),
        v.free.len() > 0 || v.blocks.len() <= v.max_capacity,
    ensures
        spec_alloc(v).1 matches Ok(p) ==> {
            &&& !v.is_live(p as int)
            &&& spec_get(spec_alloc(v).0, p) == Ok::<Var, ErrorCode>(Var::Null)
            &&& forall|q: int| 0 <= q < v.blocks.len() && q != p ==> spec_alloc(v).0.blocks[q] == v.blocks[q]
        },
{
    if v.free.len() > 0 {
        assert(v.free[v.free.len() - 1] == v.free.last());
    }
}

/// A block that was just freed is the next one allocated.
pub proof fn lemma_dealloc_then_alloc(v: PoolView, p: usize)
    requires
        v.wf(),
        v.is_live(p as int),
    ensures
        spec_dealloc(v, p).1 is Ok,
        spec_alloc(spec_dealloc(v, p).0).1 == Ok::<usize, ErrorCode>(p),
        spec_alloc(spec_dealloc(v, p).0).0.blocks == v.blocks.update(p as int, Some(Var::Null)),
{
}

/// After a write to a live block, reading it gives the written value.
pub proof fn lemma_set_then_get(v: PoolView, p: usize, x: Var)
    requires
        v.is_live(p as int),
    ensures
        spec_set(v, p, x).1 is Ok,
        spec_get(spec_set(v, p, x).0, p) == Ok::<Var, ErrorCode>(x),
{
}

/// After a block is freed, reading it is a segmentation fault and freeing it
/// again is refused.
pub proof fn lemma_dealloc_then_get(v: PoolView, p: usize)
    requires
        v.is_live(p as int),
    ensures
        spec_get(spec_dealloc(v, p).0, p) == Err::<Var, ErrorCode>(ErrorCode::SegFault),
        spec_dealloc(spec_dealloc(v, p).0, p).1 == Err::<(), ErrorCode>(ErrorCode::OutOfMemory),
{
}

/// Two allocations in a row give two different blocks.
pub proof fn lemma_two_allocs_differ(v: PoolView)
    requires
        v.wf(),
        v.free.len() > 1 || v.blocks.len() <= v.max_capacity,
    ensures
        spec_alloc(v).1 matches Ok(p) ==> (spec_alloc(spec_alloc(v).0).1 matches Ok(q) ==> p != q),
{
    lemma_alloc_keeps_wf(v);
    lemma_alloc_takes_free_block(v);
    let w = spec_alloc(v).0;
    if let Ok(p) = spec_alloc(v).1 {
        if v.free.len() > 1 {
            assert(w.free.len() > 0);
        } else if v.free.len() == 1 {
            assert(w.free.len() == 0);
            assert(w.blocks.len() == v.blocks.len());
        }
        lemma_alloc_takes_free_block(w);
    }
}

} // verus!
