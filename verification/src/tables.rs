//! The concurrent hash maps of the `dashmap` crate that hold the compiled
//! functions, the assembler's labels and the symbol table. Verus sees these
//! maps only through the names for their contents and the wrappers below,
//! whose contracts restate what the `dashmap` source does.
use vstd::prelude::*;
use std::sync::Arc;
use dashmap::DashMap;
use crate::env::{FuncInfo, FuncPtr};
use crate::value::VarId;

verus! {

#[verifier::external_type_specification]
#[verifier::external_body]
#[verifier::reject_recursive_types(K)]
#[verifier::reject_recursive_types(V)]
#[verifier::reject_recursive_types(S)]
pub struct ExDashMap<K, V, S>(DashMap<K, V, S>);

/// The functions a function table holds, by function number.
pub uninterp spec fn func_table_entries(t: DashMap<FuncPtr, Arc<FuncInfo>>) -> Map<u32, FuncInfo>;

/// The labels a label table holds: output position by label name.
pub uninterp spec fn label_table_entries(t: DashMap<Vec<u8>, u64>) -> Map<Seq<u8>, u64>;

/// The variable numbers of a symbol table, by name.
pub uninterp spec fn symbol_ids(t: DashMap<String, VarId>) -> Map<Seq<char>, u32>;

/// The names of a symbol table, by variable number.
pub uninterp spec fn symbol_names(t: DashMap<VarId, String>) -> Map<u32, Seq<char>>;

/// No functions.
pub open spec fn no_funcs() -> Map<u32, FuncInfo> { Map::empty() }

/// No labels.
pub open spec fn no_labels() -> Map<Seq<u8>, u64> { Map::empty() }

/// No names.
pub open spec fn no_symbol_ids() -> Map<Seq<char>, u32> { Map::empty() }

/// No variable numbers.
pub open spec fn no_symbol_names() -> Map<u32, Seq<char>> { Map::empty() }

/// Whether a list of label positions lists the positions of a label map:
/// as many entries as labels, each a position of some label, and every
/// label's position among them. The order is that of a hash map's walk.
pub open spec fn labels_listed(v: Seq<u64>, m: Map<Seq<u8>, u64>) -> bool {
    &&& v.len() == m.dom().len()
    &&& forall|i: int| 0 <= i < v.len() ==> exists|k: Seq<u8>| #[trigger] m.contains_key(k) && m[k] == #[trigger] v[i]
    &&& forall|k: Seq<u8>| #[trigger] m.contains_key(k) ==> v.contains(m[k])
}

/// An empty function table, made by `DashMap::default`.
#[verifier::external_body]
pub(crate) fn func_table_default() -> (t: DashMap<FuncPtr, Arc<FuncInfo>>)
    ensures
        func_table_entries(t) == no_funcs(),
{
    DashMap::default()
}

/// The function registered under `key`, by `DashMap::get`; the `Arc` is
/// cloned out of the map's guard.
#[verifier::external_body]
pub(crate) fn func_table_get(t: &DashMap<FuncPtr, Arc<FuncInfo>>, key: &FuncPtr) -> (res: Option<Arc<FuncInfo>>)
    ensures
        res is Some <==> func_table_entries(*t).contains_key(key.0),
        res matches Some(info) ==> *info == func_table_entries(*t)[key.0],
{
    t.get(key).map(|entry| entry.value().clone())
}

/// Registers `info` under `key` through `DashMap::entry` when the key is
/// vacant, and reports whether it did; an occupied entry is left as it was.
#[verifier::external_body]
pub(crate) fn func_table_insert_vacant(t: &mut DashMap<FuncPtr, Arc<FuncInfo>>, key: FuncPtr, info: FuncInfo) -> (inserted: bool)
    ensures
        inserted == !func_table_entries(*old(t)).contains_key(key.0),
        inserted ==> func_table_entries(*final(t)) == func_table_entries(*old(t)).insert(key.0, info),
        !inserted ==> func_table_entries(*final(t)) == func_table_entries(*old(t)),
{
    match t.entry(key) {
        dashmap::Entry::Occupied(_) => false,
        dashmap::Entry::Vacant(entry) => {
            entry.insert(Arc::new(info));
            true
        },
    }
}

/// An empty label table with room for `capacity` labels, made by
/// `DashMap::with_capacity`.
#[verifier::external_body]
pub(crate) fn label_table_with_capacity(capacity: usize) -> (t: DashMap<Vec<u8>, u64>)
    ensures
        label_table_entries(t) == no_labels(),
{
    DashMap::with_capacity(capacity)
}

/// Empties a label table, by `DashMap::clear`.
#[verifier::external_body]
pub(crate) fn label_table_clear(t: &mut DashMap<Vec<u8>, u64>)
    ensures
        label_table_entries(*final(t)) == no_labels(),
{
    t.clear()
}

/// Sets the position of a label, by `DashMap::insert`, and returns the
/// position it had before.
#[verifier::external_body]
pub(crate) fn label_table_insert(t: &mut DashMap<Vec<u8>, u64>, name: Vec<u8>, pos: u64) -> (previous: Option<u64>)
    ensures
        label_table_entries(*final(t)) == label_table_entries(*old(t)).insert(name@, pos),
        previous == (if label_table_entries(*old(t)).contains_key(name@) {
            Some(label_table_entries(*old(t))[name@])
        } else {
            None
        }),
{
    t.insert(name, pos)
}

/// The position of a label, by `DashMap::get`.
#[verifier::external_body]
pub(crate) fn label_table_get(t: &DashMap<Vec<u8>, u64>, name: &[u8]) -> (res: Option<u64>)
    ensures
        res == (if label_table_entries(*t).contains_key(name@) {
            Some(label_table_entries(*t)[name@])
        } else {
            None
        }),
{
    t.get(name).map(|entry| *entry.value())
}

/// The positions of all labels, in the order in which `DashMap::iter`
/// walks the map; that order depends on the hasher, which each process
/// seeds, and is left unsaid.
#[verifier::external_body]
pub(crate) fn label_table_positions(t: &DashMap<Vec<u8>, u64>) -> (res: Vec<u64>)
    ensures
        labels_listed(res@, label_table_entries(*t)),
{
    t.iter().map(|pair| *pair.value()).collect()
}

/// An empty name-to-number table, made by `DashMap::new`.
#[verifier::external_body]
pub(crate) fn symbol_ids_new() -> (t: DashMap<String, VarId>)
    ensures
        symbol_ids(t) == no_symbol_ids(),
{
    DashMap::new()
}

/// An empty number-to-name table, made by `DashMap::new`.
#[verifier::external_body]
pub(crate) fn symbol_names_new() -> (t: DashMap<VarId, String>)
    ensures
        symbol_names(t) == no_symbol_names(),
{
    DashMap::new()
}

} // verus!
