//! Variable environments: slots for local variables, a chain of enclosing
//! environments, and the table of compiled functions.
use vstd::prelude::*;
use std::sync::Arc;
use dashmap::DashMap;
use crate::exceptions::{Error, ErrorCode, spec_error_kind};
use crate::memory::{MemoryPool, PoolView, spec_get, spec_set, spec_dealloc};
use crate::tables::{func_table_default, func_table_entries, func_table_get, func_table_insert_vacant};
use crate::text::{message_with_number, message_with_number_then, numbered, numbered_then};
use crate::exceptions::spec_message;
use crate::memory::{get_error_text, dealloc_error_text};
use vstd::string::*;
use crate::value::{ValueSlot, Var, VarId, TypedPtr};

verus! {

/// A position in the memory pool.
#[derive(Debug, Clone, Copy, PartialEq, Eq, Hash)]
pub struct Pos(pub usize);

/// The number of a compiled function.
#[derive(Debug, Clone, Copy, PartialEq, Eq, Hash)]
pub struct FuncPtr(pub u32);

/// A compiled function: its bytecode, the output positions of its labels,
/// and its constant pool.
#[derive(Debug)]
pub struct FuncInfo {
    pub code: Vec<u8>,
    pub labels: Vec<u64>,
    pub constants: Vec<Var>,
}

/// A variable environment. Its slots are indexed by variable number; a
/// lookup that finds no value here continues in the enclosing environment,
/// and so does a function lookup. The values of reference slots live in a
/// memory pool that every operation needing it is given explicitly.
pub struct Env {
    pub vars: Vec<Option<ValueSlot>>,
    pub parent: Option<Box<Env>>,
    pub funcs: DashMap<FuncPtr, Arc<FuncInfo>>,
}

/// A table of variable names and numbers.
pub struct SymbolTable {
    string_to_id: DashMap<String, VarId>,
    id_to_string: DashMap<VarId, String>,
}

impl SymbolTable {
    pub closed spec fn ids(&self) -> Map<Seq<char>, u32> {
        crate::tables::symbol_ids(self.string_to_id)
    }

    pub closed spec fn names(&self) -> Map<u32, Seq<char>> {
        crate::tables::symbol_names(self.id_to_string)
    }

    /// An empty table.
    pub fn new() -> (res: SymbolTable)
        ensures
            res.ids() == crate::tables::no_symbol_ids(),
            res.names() == crate::tables::no_symbol_names(),
    {
        SymbolTable {
            string_to_id: crate::tables::symbol_ids_new(),
            id_to_string: crate::tables::symbol_names_new(),
        }
    }
}

/// The slot of variable `id`: the environment's own slot when it holds
/// something, else the enclosing environment's.
pub open spec fn spec_lookup(env: Env, id: u32) -> Option<ValueSlot>
    decreases env,
{
    if id < env.vars@.len() && env.vars@[id as int] is Some {
        env.vars@[id as int]
    } else {
        match env.parent {
            Some(p) => spec_lookup(*p, id),
            None => None,
        }
    }
}

/// The function registered under `id` in the nearest environment of the
/// chain that has one.
pub open spec fn spec_find_func(env: Env, id: u32) -> Option<FuncInfo>
    decreases env,
{
    if func_table_entries(env.funcs).contains_key(id) {
        Some(func_table_entries(env.funcs)[id])
    } else {
        match env.parent {
            Some(p) => spec_find_func(*p, id),
            None => None,
        }
    }
}

/// The value of variable `id`: inline for a basic slot, read from the pool
/// for a reference slot; `NotFound` when no environment of the chain has it.
pub open spec fn spec_get_var(env: Env, pool: PoolView, id: u32) -> Result<Var, ErrorCode> {
    match spec_lookup(env, id) {
        None => Err(ErrorCode::NotFound),
        Some(ValueSlot::Primitive(v)) => Ok(v),
        Some(ValueSlot::Reference(p)) => spec_get(pool, p.pos.0),
    }
}

/// Writing variable `id` of this environment (never an enclosing one): a
/// basic slot takes the value, a reference slot's pool block does; a missing
/// slot or an unusable block gives `NotFound`.
pub open spec fn spec_set_var_value(vars: Seq<Option<ValueSlot>>, pool: PoolView, id: u32, value: Var)
    -> (Seq<Option<ValueSlot>>, PoolView, Result<(), ErrorCode>)
{
    if id >= vars.len() {
        (vars, pool, Err(ErrorCode::NotFound))
    } else {
        match vars[id as int] {
            None => (vars, pool, Err(ErrorCode::NotFound)),
            Some(ValueSlot::Primitive(_)) => (vars.update(id as int, Some(ValueSlot::Primitive(value))), pool, Ok(())),
            Some(ValueSlot::Reference(p)) => match spec_get(pool, p.pos.0) {
                Ok(_) => (vars, spec_set(pool, p.pos.0, value).0, Ok(())),
                Err(_) => (vars, pool, Err(ErrorCode::NotFound)),
            },
        }
    }
}

/// The slots after putting `slot` at `index`, growing with empty slots as
/// needed.
pub open spec fn spec_insert_slot(vars: Seq<Option<ValueSlot>>, index: int, slot: ValueSlot) -> Seq<Option<ValueSlot>> {
    let grown = if index < vars.len() {
        vars
    } else {
        vars + Seq::new((index + 1 - vars.len()) as nat, |i: int| None::<ValueSlot>)
    };
    grown.update(index, Some(slot))
}

/// Emptying slot `id` of this environment: `NotFound` when it is empty or
/// missing; a reference slot's pool block is freed as well (the slot is
/// emptied even when freeing fails).
pub open spec fn spec_drop_var(vars: Seq<Option<ValueSlot>>, pool: PoolView, id: u32)
    -> (Seq<Option<ValueSlot>>, PoolView, Result<(), ErrorCode>)
{
    match spec_slot_at(vars, id as int) {
        None => (vars, pool, Err(ErrorCode::NotFound)),
        Some(ValueSlot::Primitive(_)) => (vars.update(id as int, None), pool, Ok(())),
        Some(ValueSlot::Reference(p)) => {
            let (freed, r) = spec_dealloc(pool, p.pos.0);
            (vars.update(id as int, None), freed, r)
        },
    }
}

/// The slot at `index`, or nothing past the end.
pub open spec fn spec_slot_at(vars: Seq<Option<ValueSlot>>, index: int) -> Option<ValueSlot> {
    if 0 <= index < vars.len() { vars[index] } else { None }
}

impl Env {
    /// An environment with no variables and no functions, enclosed by
    /// `parent`.
    pub fn new(parent: Option<Box<Env>>) -> (res: Self)
        ensures
            res.vars@ == Seq::<Option<ValueSlot>>::empty(),
            res.parent == parent,
            func_table_entries(res.funcs) == crate::tables::no_funcs(),
    {
        Self { vars: Vec::new(), parent, funcs: func_table_default() }
    }

    /// Makes sure slot `index` exists, adding empty slots.
    fn ensure_capacity(&mut self, index: usize)
        requires
            index < usize::MAX,
        ensures
            final(self).vars@.len() == if index < old(self).vars@.len() { old(self).vars@.len() } else { (index + 1) as nat },
            final(self).vars@ == if index < old(self).vars@.len() {
                old(self).vars@
            } else {
                old(self).vars@ + Seq::new((index + 1 - old(self).vars@.len()) as nat, |i: int| None::<ValueSlot>)
            },
            final(self).parent == old(self).parent,
            final(self).funcs == old(self).funcs,
    {
        if index >= self.vars.len() {
            let start = self.vars.len();
            while self.vars.len() < index + 1
                invariant
                    start == old(self).vars@.len(),
                    start <= self.vars@.len() <= index + 1,
                    index < usize::MAX,
                    self.vars@ =~= old(self).vars@ + Seq::new((self.vars@.len() - start) as nat, |i: int| None::<ValueSlot>),
                    self.parent == old(self).parent,
                    self.funcs == old(self).funcs,
                decreases index + 1 - self.vars@.len(),
            {
                self.vars.push(None);
            }
        }
    }

    /// The slot of variable `id`, looking through enclosing environments.
    pub fn lookup_slot(&self, id: &VarId) -> (res: Option<ValueSlot>)
        ensures
            res == spec_lookup(*self, id.0),
        decreases self,
    {
        let index = id.0 as usize;
        if index < self.vars.len() {
            if let Some(slot) = &self.vars[index] {
                return Some(slot.clone());
            }
        }
        match &self.parent {
            Some(parent) => parent.lookup_slot(id),
            None => None,
        }
    }

    /// The value of variable `id`; see [`spec_get_var`].
    pub fn get_var(&self, pool: &MemoryPool, id: &VarId) -> (res: Result<Var, Error>)
        ensures
            crate::memory::outcome(res) == spec_get_var(*self, pool@, id.0),
            res matches Err(e) ==> match spec_lookup(*self, id.0) {
                Some(ValueSlot::Reference(p)) => get_error_text(pool@, p.pos.0, spec_message(e)@),
                _ => numbered("Var "@, id.0 as u64, spec_message(e)@),
            },
    {
        match self.lookup_slot(id) {
            None => Err(Error::NotFound(message_with_number("Var ", id.0 as u64))),
            Some(ValueSlot::Primitive(v)) => Ok(v),
            Some(ValueSlot::Reference(ptr)) => match pool.get(ptr.pos) {
                Ok(v) => Ok(v.clone()),
                Err(e) => Err(e),
            },
        }
    }

    /// Writes variable `id` of this environment; see [`spec_set_var_value`].
    pub fn set_var_value(&mut self, pool: &mut MemoryPool, id: VarId, value: Var) -> (res: Result<(), Error>)
        ensures
            (final(self).vars@, final(pool)@, crate::memory::outcome(res))
                == spec_set_var_value(old(self).vars@, old(pool)@, id.0, value),
            final(self).parent == old(self).parent,
            final(self).funcs == old(self).funcs,
            res matches Err(e) ==> match spec_slot_at(old(self).vars@, id.0 as int) {
                Some(ValueSlot::Reference(_)) => spec_message(e)@ == "position invalid"@,
                _ => numbered("Failed to set var "@, id.0 as u64, spec_message(e)@),
            },
    {
        let index = id.0 as usize;
        if index >= self.vars.len() {
            return Err(Error::NotFound(message_with_number("Failed to set var ", id.0 as u64)));
        }
        let slot = match &self.vars[index] {
            Some(slot) => slot.clone(),
            None => {
                return Err(Error::NotFound(message_with_number("Failed to set var ", id.0 as u64)));
            },
        };
        match slot {
            ValueSlot::Primitive(_) => {
                self.vars[index] = Some(ValueSlot::Primitive(value));
                Ok(())
            },
            ValueSlot::Reference(ptr) => {
                match pool.get_mut(ptr.pos) {
                    Ok(var) => {
                        *var = value;
                        Ok(())
                    },
                    Err(_) => Err(Error::NotFound(String::from_str("position invalid"))),
                }
            },
        }
    }

    /// Points slot `id` of this environment at a value of a reference type,
    /// replacing what it held; the pool is not touched.
    pub fn set_var_ref(&mut self, id: VarId, ptr: TypedPtr) -> (res: Result<(), Error>)
        ensures
            !(ptr.ty is String || ptr.ty is Ptr) ==> (res matches Err(Error::InvalidOperation(_))) && final(self).vars@ == old(self).vars@,
            (ptr.ty is String || ptr.ty is Ptr) && id.0 >= old(self).vars@.len() ==> (res matches Err(Error::NotFound(_))) && final(self).vars@ == old(self).vars@,
            (ptr.ty is String || ptr.ty is Ptr) && id.0 < old(self).vars@.len() ==> res is Ok
                && final(self).vars@ == old(self).vars@.update(id.0 as int, Some(ValueSlot::Reference(ptr))),
            res matches Err(e) ==> if ptr.ty is String || ptr.ty is Ptr {
                numbered_then("Failed to set var "@, id.0 as u64, ": index out of bounds"@, spec_message(e)@)
            } else {
                spec_message(e)@ == "set_var_ref can only be used with reference types"@
            },
            final(self).parent == old(self).parent,
            final(self).funcs == old(self).funcs,
    {
        if !ptr.ty.is_reference_type() {
            return Err(Error::InvalidOperation(String::from_str("set_var_ref can only be used with reference types")));
        }
        let index = id.0 as usize;
        if index >= self.vars.len() {
            return Err(Error::NotFound(message_with_number_then("Failed to set var ", id.0 as u64, ": index out of bounds")));
        }
        self.vars[index] = Some(ValueSlot::Reference(ptr));
        Ok(())
    }

    /// Applies `f` to the value that `ptr` points to.
    pub fn with_var<F, R>(&self, pool: &MemoryPool, ptr: TypedPtr, f: F) -> (res: Result<R, Error>)
        where
            F: FnOnce(&Var) -> R,
        requires
            forall|v: &Var| #[trigger] f.requires((v,)),
        ensures
            match spec_get(pool@, ptr.pos.0) {
                Ok(v) => res matches Ok(r) && f.ensures((&v,), r),
                Err(k) => res matches Err(e) && spec_error_kind(e) == k
                    && get_error_text(pool@, ptr.pos.0, spec_message(e)@),
            },
    {
        let var = pool.get(ptr.pos)?;
        Ok(f(var))
    }

    /// Applies `f` to the value that `ptr` points to, which `f` may change;
    /// the changed value is what the block then holds. A position that holds
    /// no value is refused with `NotFound("position invalid")`, and the pool
    /// is left as it was.
    pub fn with_var_mut<F, R>(&self, pool: &mut MemoryPool, ptr: TypedPtr, f: F) -> (res: Result<R, Error>)
        where
            F: FnOnce(&mut Var) -> R,
        requires
            forall|v: &mut Var| #[trigger] f.requires((v,)),
        ensures
            spec_get(old(pool)@, ptr.pos.0) is Ok ==> (res matches Ok(r) && exists|m: &mut Var|
                *m == spec_get(old(pool)@, ptr.pos.0)->Ok_0 && #[trigger] f.ensures((m,), r)
                && final(pool)@ == (PoolView { blocks: old(pool)@.blocks.update(ptr.pos.0 as int, Some(*final(m))), ..old(pool)@ })),
            spec_get(old(pool)@, ptr.pos.0) is Err ==> (res matches Err(Error::NotFound(msg)) && msg@ == "position invalid"@
                && final(pool)@ == old(pool)@),
    {
        let mut value = match pool.get(ptr.pos) {
            Ok(v) => v.clone(),
            Err(_) => {
                return Err(Error::NotFound(String::from_str("position invalid")));
            },
        };
        let ghost before = value;
        let r = f(&mut value);
        // The reference handed to `f` witnesses the `exists` of the contract.
        assert(exists|m: &mut Var| #[trigger] f.ensures((m,), r) && *m == before && *final(m) == value);
        let ghost after = value;
        let _ = pool.set(ptr.pos, value);
        let ghost m = choose|m: &mut Var| #[trigger] f.ensures((m,), r) && *m == before && *final(m) == after;
        let res: Result<R, Error> = Ok(r);
        assert(f.ensures((m,), res->Ok_0));
        res
    }

    /// Empties slot `id` of this environment without touching the pool.
    pub fn remove_var(&mut self, id: VarId) -> (res: Result<(), Error>)
        ensures
            res is Ok <==> spec_slot_at(old(self).vars@, id.0 as int) is Some,
            res matches Err(e) ==> e is NotFound && numbered("Delete undefined var "@, id.0 as u64, spec_message(e)@),
            final(self).vars@ == if res is Ok { old(self).vars@.update(id.0 as int, None) } else { old(self).vars@ },
            final(self).parent == old(self).parent,
            final(self).funcs == old(self).funcs,
    {
        let index = id.0 as usize;
        if index >= self.vars.len() {
            return Err(Error::NotFound(message_with_number("Delete undefined var ", id.0 as u64)));
        }
        match &self.vars[index] {
            Some(_) => {
                self.vars[index] = None;
                Ok(())
            },
            None => Err(Error::NotFound(message_with_number("Delete undefined var ", id.0 as u64))),
        }
    }

    /// Empties slot `id` of this environment and frees the pool block of a
    /// reference slot. The slot is emptied even when freeing fails.
    pub fn drop_var(&mut self, pool: &mut MemoryPool, id: VarId) -> (res: Result<(), Error>)
        ensures
            (final(self).vars@, final(pool)@, crate::memory::outcome(res)) == spec_drop_var(old(self).vars@, old(pool)@, id.0),
            spec_slot_at(old(self).vars@, id.0 as int) is None ==> (res matches Err(Error::NotFound(_))),
            res matches Err(e) ==> match spec_slot_at(old(self).vars@, id.0 as int) {
                Some(ValueSlot::Reference(p)) => dealloc_error_text(old(pool)@, p.pos.0, spec_message(e)@),
                _ => numbered("Delete undefined var and its memory "@, id.0 as u64, spec_message(e)@),
            },
            final(self).parent == old(self).parent,
            final(self).funcs == old(self).funcs,
    {
        let index = id.0 as usize;
        if index >= self.vars.len() {
            return Err(Error::NotFound(message_with_number("Delete undefined var and its memory ", id.0 as u64)));
        }
        let slot = match &self.vars[index] {
            Some(slot) => slot.clone(),
            None => {
                return Err(Error::NotFound(message_with_number("Delete undefined var and its memory ", id.0 as u64)));
            },
        };
        self.vars[index] = None;
        if let ValueSlot::Reference(ptr) = slot {
            pool.dealloc(ptr.pos)?;
        }
        Ok(())
    }

    /// Puts `slot` at `id`, growing the slots as needed, and returns what the
    /// slot held before.
    pub fn insert_slot(&mut self, id: VarId, slot: ValueSlot) -> (res: Option<ValueSlot>)
        requires
            id.0 < usize::MAX,
        ensures
            res == spec_slot_at(old(self).vars@, id.0 as int),
            final(self).vars@ == spec_insert_slot(old(self).vars@, id.0 as int, slot),
            final(self).parent == old(self).parent,
            final(self).funcs == old(self).funcs,
    {
        let index = id.0 as usize;
        self.ensure_capacity(index);
        let old_slot = match &self.vars[index] {
            Some(s) => Some(s.clone()),
            None => None,
        };
        self.vars[index] = Some(slot);
        old_slot
    }

    /// Puts a reference slot at `id`; see [`Env::insert_slot`].
    pub fn insert_var(&mut self, id: VarId, ptr: TypedPtr) -> (res: Option<ValueSlot>)
        requires
            id.0 < usize::MAX,
        ensures
            res == spec_slot_at(old(self).vars@, id.0 as int),
            final(self).vars@ == spec_insert_slot(old(self).vars@, id.0 as int, ValueSlot::Reference(ptr)),
            final(self).parent == old(self).parent,
            final(self).funcs == old(self).funcs,
    {
        self.insert_slot(id, ValueSlot::Reference(ptr))
    }

    /// Puts a basic slot at `id`; see [`Env::insert_slot`].
    pub fn insert_primitive(&mut self, id: VarId, value: Var) -> (res: Option<ValueSlot>)
        requires
            id.0 < usize::MAX,
        ensures
            res == spec_slot_at(old(self).vars@, id.0 as int),
            final(self).vars@ == spec_insert_slot(old(self).vars@, id.0 as int, ValueSlot::Primitive(value)),
            final(self).parent == old(self).parent,
            final(self).funcs == old(self).funcs,
    {
        self.insert_slot(id, ValueSlot::Primitive(value))
    }

    /// The function registered under `id` here or in an enclosing
    /// environment; `NotFound` when none has it.
    pub fn get_func(&self, id: &FuncPtr) -> (res: Result<Arc<FuncInfo>, Error>)
        ensures
            match spec_find_func(*self, id.0) {
                Some(info) => res matches Ok(r) && *r == info,
                None => res matches Err(Error::NotFound(m))
                    && numbered_then("Function "@, id.0 as u64, " not found"@, m@),
            },
        decreases self,
    {
        if let Some(func) = func_table_get(&self.funcs, id) {
            return Ok(func);
        }
        if let Some(parent) = &self.parent {
            return parent.get_func(id);
        }
        Err(Error::NotFound(message_with_number_then("Function ", id.0 as u64, " not found")))
    }

    /// Registers a compiled function under `id`; refused with `Duplicated`
    /// when this environment already has one under that number.
    pub fn register_func(&mut self, id: FuncPtr, input: Vec<u8>, labels: Vec<u64>, constants: Vec<Var>) -> (res: Result<(), Error>)
        ensures
            func_table_entries(old(self).funcs).contains_key(id.0) ==> (res matches Err(Error::Duplicated(m))
                    && numbered_then("func "@, id.0 as u64, " already registered"@, m@))
                && func_table_entries(final(self).funcs) == func_table_entries(old(self).funcs),
            !func_table_entries(old(self).funcs).contains_key(id.0) ==> res is Ok
                && func_table_entries(final(self).funcs) == func_table_entries(old(self).funcs).insert(
                    id.0, FuncInfo { code: input, labels, constants }),
            final(self).vars == old(self).vars,
            final(self).parent == old(self).parent,
    {
        let func_info = FuncInfo { code: input, labels, constants };
        if func_table_insert_vacant(&mut self.funcs, id, func_info) {
            Ok(())
        } else {
            Err(Error::Duplicated(message_with_number_then("func ", id.0 as u64, " already registered")))
        }
    }
}

/// A slot put at `id` is what a lookup of `id` finds.
pub proof fn lemma_insert_then_lookup(env: Env, before: Seq<Option<ValueSlot>>, id: u32, slot: ValueSlot)
    requires
        env.vars@ == spec_insert_slot(before, id as int, slot),
    ensures
        spec_lookup(env, id) == Some(slot),
{
}

/// A value written to a variable of the current environment is what
/// reading the variable gives back.
pub proof fn lemma_set_then_get_var(env: Env, vars: Seq<Option<ValueSlot>>, pool: PoolView, id: u32, value: Var)
    requires
        spec_set_var_value(vars, pool, id, value).2 is Ok,
        env.vars@ == spec_set_var_value(vars, pool, id, value).0,
    ensures
        spec_get_var(env, spec_set_var_value(vars, pool, id, value).1, id) == Ok::<Var, ErrorCode>(value),
{
}

/// Once variable `id` of the current environment is dropped, a lookup of
/// `id` finds what the enclosing environments hold.
pub proof fn lemma_drop_then_lookup(env: Env, vars: Seq<Option<ValueSlot>>, pool: PoolView, id: u32)
    requires
        env.vars@ == spec_drop_var(vars, pool, id).0,
    ensures
        spec_lookup(env, id) == match env.parent {
            Some(p) => spec_lookup(*p, id),
            None => None,
        },
{
}

/// A function registered under `id` is what looking up `id` finds.
pub proof fn lemma_register_then_find(env: Env, before: Map<u32, FuncInfo>, id: u32, info: FuncInfo)
    requires
        func_table_entries(env.funcs) == before.insert(id, info),
    ensures
        spec_find_func(env, id) == Some(info),
{
}

} // verus!
