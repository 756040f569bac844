//! Values of the virtual machine, their types, and the variable slots that
//! hold them.
use vstd::prelude::*;
use crate::env::Pos;
use crate::exceptions::{Error, ErrorCode, Fault, fixed_fault, is_fault};
use vstd::string::*;
use crate::parser::exec::{CursorPos, ExecError};

pub mod var_type_code;

verus! {

/// A value. Floating-point values are held as their IEEE-754 bit patterns.
#[derive(Debug, PartialEq)]
pub enum Var {
    U8(u8),
    U16(u16),
    U32(u32),
    U64(u64),
    I8(i8),
    I16(i16),
    I32(i32),
    I64(i64),
    F32(u32),
    F64(u64),
    Bool(bool),
    String(String),
    Pointer(TypedPtr),
    Null,
}

impl Clone for Var {
    fn clone(&self) -> (res: Self)
        ensures
            res == *self,
    {
        match self {
            Var::U8(v) => Var::U8(*v),
            Var::U16(v) => Var::U16(*v),
            Var::U32(v) => Var::U32(*v),
            Var::U64(v) => Var::U64(*v),
            Var::I8(v) => Var::I8(*v),
            Var::I16(v) => Var::I16(*v),
            Var::I32(v) => Var::I32(*v),
            Var::I64(v) => Var::I64(*v),
            Var::F32(v) => Var::F32(*v),
            Var::F64(v) => Var::F64(*v),
            Var::Bool(v) => Var::Bool(*v),
            Var::String(s) => Var::String(s.clone()),
            Var::Pointer(p) => Var::Pointer(p.clone()),
            Var::Null => Var::Null,
        }
    }
}

/// What a variable slot holds: a value of a basic type inline, or a typed
/// pointer into the memory pool for a reference type.
#[derive(Debug, PartialEq)]
pub enum ValueSlot {
    Primitive(Var),
    Reference(TypedPtr),
}

impl Clone for ValueSlot {
    fn clone(&self) -> (res: Self)
        ensures
            res == *self,
    {
        match self {
            ValueSlot::Primitive(v) => ValueSlot::Primitive(v.clone()),
            ValueSlot::Reference(p) => ValueSlot::Reference(p.clone()),
        }
    }
}

impl ValueSlot {
    pub fn is_primitive(&self) -> (res: bool)
        ensures
            res == (*self is Primitive),
    {
        match self {
            ValueSlot::Primitive(_) => true,
            _ => false,
        }
    }

    pub fn is_reference(&self) -> (res: bool)
        ensures
            res == (*self is Reference),
    {
        match self {
            ValueSlot::Reference(_) => true,
            _ => false,
        }
    }

    /// The typed pointer of a reference slot.
    pub fn as_ref(&self) -> (res: Option<&TypedPtr>)
        ensures
            match *self {
                ValueSlot::Reference(p) => res == Some(&p),
                ValueSlot::Primitive(_) => res is None,
            },
    {
        match self {
            ValueSlot::Reference(r) => Some(r),
            _ => None,
        }
    }
}

/// The type of a value; pointer types nest.
#[derive(Debug, PartialEq, Eq, Hash)]
pub enum ValueType {
    U8,
    U16,
    U32,
    U64,
    I8,
    I16,
    I32,
    I64,
    F32,
    F64,
    Bool,
    String,
    Ptr(Box<ValueType>),
    Null,
}

impl Clone for ValueType {
    fn clone(&self) -> (res: Self)
        ensures
            res == *self,
        decreases self,
    {
        match self {
            ValueType::U8 => ValueType::U8,
            ValueType::U16 => ValueType::U16,
            ValueType::U32 => ValueType::U32,
            ValueType::U64 => ValueType::U64,
            ValueType::I8 => ValueType::I8,
            ValueType::I16 => ValueType::I16,
            ValueType::I32 => ValueType::I32,
            ValueType::I64 => ValueType::I64,
            ValueType::F32 => ValueType::F32,
            ValueType::F64 => ValueType::F64,
            ValueType::Bool => ValueType::Bool,
            ValueType::String => ValueType::String,
            ValueType::Ptr(inner) => {
                let inner_copy: ValueType = (**inner).clone();
                ValueType::Ptr(Box::new(inner_copy))
            },
            ValueType::Null => ValueType::Null,
        }
    }
}

/// How many pointer layers a type has.
pub open spec fn spec_ptr_depth(t: ValueType) -> nat
    decreases t,
{
    match t {
        ValueType::Ptr(inner) => 1 + spec_ptr_depth(*inner),
        _ => 0,
    }
}

impl ValueType {
    /// The type a pointer type points to.
    pub fn target_type(&self) -> (res: Option<&ValueType>)
        ensures
            match *self {
                ValueType::Ptr(inner) => res == Some(&*inner),
                _ => res is None,
            },
    {
        match self {
            ValueType::Ptr(inner) => Some(&**inner),
            _ => None,
        }
    }

    pub fn is_ptr(&self) -> (res: bool)
        ensures
            res == (*self is Ptr),
    {
        match self {
            ValueType::Ptr(_) => true,
            _ => false,
        }
    }

    /// Whether values of this type live in the memory pool and are held in
    /// slots by pointer: strings and pointers.
    pub fn is_reference_type(&self) -> (res: bool)
        ensures
            res == (*self is String || *self is Ptr),
    {
        match self {
            ValueType::String => true,
            ValueType::Ptr(_) => true,
            _ => false,
        }
    }

    /// The number of pointer layers of this type.
    pub fn ptr_depth(&self) -> (res: usize)
        requires
            spec_ptr_depth(*self) <= usize::MAX,
        ensures
            res == spec_ptr_depth(*self),
        decreases self,
    {
        match self {
            ValueType::Ptr(inner) => 1 + inner.ptr_depth(),
            _ => 0,
        }
    }
}

/// The depth of a pointer type is one more than that of the type it points
/// to, and every other type has depth 0.
pub proof fn lemma_ptr_depth(t: ValueType)
    ensures
        t matches ValueType::Ptr(inner) ==> spec_ptr_depth(t) == 1 + spec_ptr_depth(*inner),
        !(t is Ptr) ==> spec_ptr_depth(t) == 0,
{
}

/// A pointer into the memory pool together with the type it points to.
#[derive(Debug, PartialEq, Eq)]
pub struct TypedPtr {
    pub pos: Pos,
    pub ty: ValueType,
}

impl Clone for TypedPtr {
    fn clone(&self) -> (res: Self)
        ensures
            res == *self,
    {
        TypedPtr { pos: self.pos, ty: self.ty.clone() }
    }
}

pub type VarTypeCodeType = u8;

/// The number of a local variable.
#[derive(Debug, Clone, Copy, PartialEq, Eq, Hash)]
pub struct VarId(pub u32);

/// Whether two byte strings are equal.
pub fn bytes_eq(a: &[u8], b: &[u8]) -> (res: bool)
    ensures
        res == (a@ == b@),
{
    if a.len() != b.len() {
        return false;
    }
    let mut i: usize = 0;
    while i < a.len()
        invariant
            a@.len() == b@.len(),
            i <= a@.len(),
            forall|j: int| 0 <= j < i ==> a@[j] == b@[j],
        decreases a@.len() - i,
    {
        if a[i] != b[i] {
            return false;
        }
        i = i + 1;
    }
    assert(a@ =~= b@);
    true
}

/// The basic type that an assembly type name stands for.
pub open spec fn spec_basic_type_of_name(name: Seq<u8>) -> Option<ValueType> {
    if name == seq![0x75u8, 0x38] { Some(ValueType::U8) }                          // u8
    else if name == seq![0x75u8, 0x31, 0x36] { Some(ValueType::U16) }              // u16
    else if name == seq![0x75u8, 0x33, 0x32] { Some(ValueType::U32) }              // u32
    else if name == seq![0x75u8, 0x36, 0x34] { Some(ValueType::U64) }              // u64
    else if name == seq![0x69u8, 0x38] { Some(ValueType::I8) }                     // i8
    else if name == seq![0x69u8, 0x31, 0x36] { Some(ValueType::I16) }              // i16
    else if name == seq![0x69u8, 0x33, 0x32] { Some(ValueType::I32) }              // i32
    else if name == seq![0x69u8, 0x36, 0x34] { Some(ValueType::I64) }              // i64
    else if name == seq![0x66u8, 0x33, 0x32] { Some(ValueType::F32) }              // f32
    else if name == seq![0x66u8, 0x36, 0x34] { Some(ValueType::F64) }              // f64
    else if name == seq![0x62u8, 0x6f, 0x6f, 0x6c] { Some(ValueType::Bool) }       // bool
    else if name == seq![0x73u8, 0x74, 0x72] { Some(ValueType::String) }           // str
    else { None }
}

/// The number that a value of an integer type stands for.
pub open spec fn int_of(v: Var) -> Option<int> {
    match v {
        Var::U8(x) => Some(x as int),
        Var::U16(x) => Some(x as int),
        Var::U32(x) => Some(x as int),
        Var::U64(x) => Some(x as int),
        Var::I8(x) => Some(x as int),
        Var::I16(x) => Some(x as int),
        Var::I32(x) => Some(x as int),
        Var::I64(x) => Some(x as int),
        _ => None,
    }
}

/// The type of a value of a basic type (or a string).
pub open spec fn type_of_var(v: Var) -> Option<ValueType> {
    match v {
        Var::U8(_) => Some(ValueType::U8),
        Var::U16(_) => Some(ValueType::U16),
        Var::U32(_) => Some(ValueType::U32),
        Var::U64(_) => Some(ValueType::U64),
        Var::I8(_) => Some(ValueType::I8),
        Var::I16(_) => Some(ValueType::I16),
        Var::I32(_) => Some(ValueType::I32),
        Var::I64(_) => Some(ValueType::I64),
        Var::F32(_) => Some(ValueType::F32),
        Var::F64(_) => Some(ValueType::F64),
        Var::Bool(_) => Some(ValueType::Bool),
        Var::String(_) => Some(ValueType::String),
        _ => None,
    }
}

/// The bytes of an ASCII text.
pub open spec fn ascii(s: Seq<char>) -> Seq<u8> {
    Seq::new(s.len(), |i: int| s[i] as u8)
}

/// Each type name of the assembly language names the type it spells, and
/// each of those types has the bytecode of the same name; `ptr` names no
/// basic type.
pub proof fn lemma_type_names()
    ensures
        spec_basic_type_of_name(ascii("u8"@)) == Some(ValueType::U8),
        spec_basic_type_code(ValueType::U8) == Some(var_type_code::U8),
        spec_basic_type_of_name(ascii("u16"@)) == Some(ValueType::U16),
        spec_basic_type_code(ValueType::U16) == Some(var_type_code::U16),
        spec_basic_type_of_name(ascii("u32"@)) == Some(ValueType::U32),
        spec_basic_type_code(ValueType::U32) == Some(var_type_code::U32),
        spec_basic_type_of_name(ascii("u64"@)) == Some(ValueType::U64),
        spec_basic_type_code(ValueType::U64) == Some(var_type_code::U64),
        spec_basic_type_of_name(ascii("i8"@)) == Some(ValueType::I8),
        spec_basic_type_code(ValueType::I8) == Some(var_type_code::I8),
        spec_basic_type_of_name(ascii("i16"@)) == Some(ValueType::I16),
        spec_basic_type_code(ValueType::I16) == Some(var_type_code::I16),
        spec_basic_type_of_name(ascii("i32"@)) == Some(ValueType::I32),
        spec_basic_type_code(ValueType::I32) == Some(var_type_code::I32),
        spec_basic_type_of_name(ascii("i64"@)) == Some(ValueType::I64),
        spec_basic_type_code(ValueType::I64) == Some(var_type_code::I64),
        spec_basic_type_of_name(ascii("f32"@)) == Some(ValueType::F32),
        spec_basic_type_code(ValueType::F32) == Some(var_type_code::F32),
        spec_basic_type_of_name(ascii("f64"@)) == Some(ValueType::F64),
        spec_basic_type_code(ValueType::F64) == Some(var_type_code::F64),
        spec_basic_type_of_name(ascii("bool"@)) == Some(ValueType::Bool),
        spec_basic_type_code(ValueType::Bool) == Some(var_type_code::Bool),
        spec_basic_type_of_name(ascii("str"@)) == Some(ValueType::String),
        spec_basic_type_code(ValueType::String) == Some(var_type_code::String),
        spec_basic_type_of_name(ascii("ptr"@)) is None,
{
    reveal_strlit("u8");
    assert(ascii("u8"@) =~= seq![0x75u8, 0x38u8]);
    reveal_strlit("u16");
    assert(ascii("u16"@) =~= seq![0x75u8, 0x31u8, 0x36u8]);
    reveal_strlit("u32");
    assert(ascii("u32"@) =~= seq![0x75u8, 0x33u8, 0x32u8]);
    reveal_strlit("u64");
    assert(ascii("u64"@) =~= seq![0x75u8, 0x36u8, 0x34u8]);
    reveal_strlit("i8");
    assert(ascii("i8"@) =~= seq![0x69u8, 0x38u8]);
    reveal_strlit("i16");
    assert(ascii("i16"@) =~= seq![0x69u8, 0x31u8, 0x36u8]);
    reveal_strlit("i32");
    assert(ascii("i32"@) =~= seq![0x69u8, 0x33u8, 0x32u8]);
    reveal_strlit("i64");
    assert(ascii("i64"@) =~= seq![0x69u8, 0x36u8, 0x34u8]);
    reveal_strlit("f32");
    assert(ascii("f32"@) =~= seq![0x66u8, 0x33u8, 0x32u8]);
    reveal_strlit("f64");
    assert(ascii("f64"@) =~= seq![0x66u8, 0x36u8, 0x34u8]);
    reveal_strlit("bool");
    assert(ascii("bool"@) =~= seq![0x62u8, 0x6fu8, 0x6fu8, 0x6cu8]);
    reveal_strlit("str");
    assert(ascii("str"@) =~= seq![0x73u8, 0x74u8, 0x72u8]);
    reveal_strlit("ptr");
    assert(ascii("ptr"@) =~= seq![0x70u8, 0x74u8, 0x72u8]);
}

/// The one-byte code of a basic type; pointer and null types have none
/// here.
pub open spec fn spec_basic_type_code(t: ValueType) -> Option<u8> {
    match t {
        ValueType::U8 => Some(0u8),
        ValueType::U16 => Some(1u8),
        ValueType::U32 => Some(2u8),
        ValueType::U64 => Some(3u8),
        ValueType::I8 => Some(4u8),
        ValueType::I16 => Some(5u8),
        ValueType::I32 => Some(6u8),
        ValueType::I64 => Some(7u8),
        ValueType::F32 => Some(8u8),
        ValueType::F64 => Some(9u8),
        ValueType::Bool => Some(10u8),
        ValueType::String => Some(11u8),
        _ => None,
    }
}

/// What `String::from_utf8_lossy` gives for a byte string.
pub uninterp spec fn lossy_text_of(bytes: Seq<u8>) -> Seq<char>;

/// Whether every byte is ASCII.
pub open spec fn all_ascii(bytes: Seq<u8>) -> bool {
    forall|i: int| 0 <= i < bytes.len() ==> bytes[i] < 0x80
}

/// Text of a byte string for messages, by `String::from_utf8_lossy`:
/// valid UTF-8 is kept and each invalid sequence becomes U+FFFD. The result
/// is named by [`lossy_text_of`]; of ASCII input, which is valid UTF-8 of
/// one character per byte, it is stated that each byte is its own
/// character. What it gives for other bytes is not stated.
#[verifier::external_body]
pub(crate) fn lossy_text(bytes: &[u8]) -> (res: String)
    ensures
        res@ == lossy_text_of(bytes@),
        all_ascii(bytes@) ==> res@ == bytes@.map_values(|b: u8| b as char),
{
    String::from_utf8_lossy(bytes).into_owned()
}

/// Text of a value for messages, as its `Debug` rendering. Wraps
/// `format!` with `{:?}`; the text is used in messages only and nothing is
/// stated of it.
#[verifier::external_body]
pub(crate) fn debug_text(value: &Var) -> String {
    format!("{:?}", value)
}

/// Text of a type for messages, as its `Debug` rendering. Wraps `format!`
/// with `{:?}`; the text is used in messages only and nothing is stated of
/// it.
#[verifier::external_body]
pub(crate) fn debug_type_text(value: &ValueType) -> String {
    format!("{:?}", value)
}

/// The basic type that an assembly type name stands for.
fn basic_type_of_name(var_type: &[u8]) -> (res: Option<ValueType>)
    ensures
        res == spec_basic_type_of_name(var_type@),
{
    if bytes_eq(var_type, &[0x75u8, 0x38u8]) {
        Some(ValueType::U8)
    } else if bytes_eq(var_type, &[0x75u8, 0x31u8, 0x36u8]) {
        Some(ValueType::U16)
    } else if bytes_eq(var_type, &[0x75u8, 0x33u8, 0x32u8]) {
        Some(ValueType::U32)
    } else if bytes_eq(var_type, &[0x75u8, 0x36u8, 0x34u8]) {
        Some(ValueType::U64)
    } else if bytes_eq(var_type, &[0x69u8, 0x38u8]) {
        Some(ValueType::I8)
    } else if bytes_eq(var_type, &[0x69u8, 0x31u8, 0x36u8]) {
        Some(ValueType::I16)
    } else if bytes_eq(var_type, &[0x69u8, 0x33u8, 0x32u8]) {
        Some(ValueType::I32)
    } else if bytes_eq(var_type, &[0x69u8, 0x36u8, 0x34u8]) {
        Some(ValueType::I64)
    } else if bytes_eq(var_type, &[0x66u8, 0x33u8, 0x32u8]) {
        Some(ValueType::F32)
    } else if bytes_eq(var_type, &[0x66u8, 0x36u8, 0x34u8]) {
        Some(ValueType::F64)
    } else if bytes_eq(var_type, &[0x62u8, 0x6fu8, 0x6fu8, 0x6cu8]) {
        Some(ValueType::Bool)
    } else if bytes_eq(var_type, &[0x73u8, 0x74u8, 0x72u8]) {
        Some(ValueType::String)
    } else {
        None
    }
}

/// The error for a type name that names no basic type: `ptr` is named but
/// not supported here, any other name is unknown and is quoted.
pub open spec fn type_name_fault(name: Seq<u8>) -> Fault {
    if name == seq![0x70u8, 0x74, 0x72] {
        fixed_fault(ErrorCode::InvalidType, "ptr is not supported yet"@)
    } else {
        fixed_fault(ErrorCode::InvalidType, lossy_text_of(name))
    }
}

/// The error for a type name that names no basic type; see
/// [`type_name_fault`].
fn unknown_type_name(var_type: &[u8]) -> (res: Error)
    ensures
        res is InvalidType,
        is_fault(res, type_name_fault(var_type@)),
{
    if bytes_eq(var_type, &[0x70u8, 0x74u8, 0x72u8]) {
        proof { assert(seq![0x70u8, 0x74u8, 0x72u8] =~= seq![0x70u8, 0x74, 0x72]); }
        Error::InvalidType(String::from_str("ptr is not supported yet"))
    } else {
        proof { assert(seq![0x70u8, 0x74u8, 0x72u8] =~= seq![0x70u8, 0x74, 0x72]); }
        Error::InvalidType(lossy_text(var_type))
    }
}

/// The bytecode of the basic type that an assembly type name stands for.
pub fn var_type_asm_to_code(var_type: &[u8]) -> (res: Result<VarTypeCodeType, Error>)
    ensures
        match spec_basic_type_of_name(var_type@) {
            Some(t) => res == Ok::<u8, Error>(spec_basic_type_code(t).unwrap()),
            None => res matches Err(e) && e is InvalidType && is_fault(e, type_name_fault(var_type@)),
        },
{
    match basic_type_of_name(var_type) {
        Some(t) => {
            let code: u8 = match t {
                ValueType::U8 => var_type_code::U8,
                ValueType::U16 => var_type_code::U16,
                ValueType::U32 => var_type_code::U32,
                ValueType::U64 => var_type_code::U64,
                ValueType::I8 => var_type_code::I8,
                ValueType::I16 => var_type_code::I16,
                ValueType::I32 => var_type_code::I32,
                ValueType::I64 => var_type_code::I64,
                ValueType::F32 => var_type_code::F32,
                ValueType::F64 => var_type_code::F64,
                ValueType::Bool => var_type_code::Bool,
                _ => var_type_code::String,
            };
            Ok(code)
        },
        None => Err(unknown_type_name(var_type)),
    }
}

/// The basic type that an assembly type name stands for.
pub fn var_type_asm_to_type(var_type: &[u8]) -> (res: Result<ValueType, Error>)
    ensures
        match spec_basic_type_of_name(var_type@) {
            Some(t) => res == Ok::<ValueType, Error>(t),
            None => res matches Err(e) && e is InvalidType && is_fault(e, type_name_fault(var_type@)),
        },
{
    match basic_type_of_name(var_type) {
        Some(t) => Ok(t),
        None => Err(unknown_type_name(var_type)),
    }
}

/// The basic type of a one-byte type code below the pointer code.
pub open spec fn spec_basic_type_of_code(c: u8) -> Option<ValueType> {
    if c == 0 { Some(ValueType::U8) }
    else if c == 1 { Some(ValueType::U16) }
    else if c == 2 { Some(ValueType::U32) }
    else if c == 3 { Some(ValueType::U64) }
    else if c == 4 { Some(ValueType::I8) }
    else if c == 5 { Some(ValueType::I16) }
    else if c == 6 { Some(ValueType::I32) }
    else if c == 7 { Some(ValueType::I64) }
    else if c == 8 { Some(ValueType::F32) }
    else if c == 9 { Some(ValueType::F64) }
    else if c == 10 { Some(ValueType::Bool) }
    else if c == 11 { Some(ValueType::String) }
    else { None }
}

/// Whether the type written at `at` uses only codes the reader knows: a run
/// of pointer codes (12) ends at the end of the input or at a basic code
/// (below 12). The null code (13) and higher ones are not read.
pub open spec fn bin_type_supported(input: Seq<u8>, at: int) -> bool
    decreases input.len() - at,
{
    if at < 0 || at >= input.len() {
        true
    } else if input[at] == 12 {
        bin_type_supported(input, at + 1)
    } else {
        input[at] < 12
    }
}

/// The type written at `at`: each pointer code wraps the type that follows
/// it. `None` when the input ends first.
pub open spec fn spec_type_from_bin(input: Seq<u8>, at: int) -> Option<ValueType>
    decreases input.len() - at,
{
    if at < 0 || at >= input.len() {
        None
    } else if input[at] == 12 {
        match spec_type_from_bin(input, at + 1) {
            Some(t) => Some(ValueType::Ptr(Box::new(t))),
            None => None,
        }
    } else {
        spec_basic_type_of_code(input[at])
    }
}

/// Where reading the type written at `at` stops: after its last code, or
/// at the end of the input.
pub open spec fn spec_type_bin_end(input: Seq<u8>, at: int) -> int
    decreases input.len() - at,
{
    if at < 0 || at >= input.len() {
        input.len() as int
    } else if input[at] == 12 {
        spec_type_bin_end(input, at + 1)
    } else {
        at + 1
    }
}

pub proof fn lemma_type_bin_end_bounds(input: Seq<u8>, at: int)
    requires
        0 <= at <= input.len(),
    ensures
        at <= spec_type_bin_end(input, at) <= input.len(),
        bin_type_supported(input, at) && spec_type_from_bin(input, at) is None ==> spec_type_bin_end(input, at) == input.len(),
    decreases input.len() - at,
{
    if at < input.len() && input[at] == 12 {
        lemma_type_bin_end_bounds(input, at + 1);
    }
}

/// The code of every basic type reads back as that type.
pub proof fn lemma_basic_type_code_round_trip(t: ValueType, rest: Seq<u8>)
    requires
        spec_basic_type_code(t) is Some,
    ensures
        spec_type_from_bin(seq![spec_basic_type_code(t).unwrap()] + rest, 0) == Some(t),
        spec_type_bin_end(seq![spec_basic_type_code(t).unwrap()] + rest, 0) == 1,
        bin_type_supported(seq![spec_basic_type_code(t).unwrap()] + rest, 0),
{
    let s = seq![spec_basic_type_code(t).unwrap()] + rest;
    assert(s[0] == spec_basic_type_code(t).unwrap());
}

/// Whether the type written at `at` uses only codes the reader knows; see
/// [`bin_type_supported`].
pub fn type_from_bin_supported(input: &[u8], at: usize) -> (res: bool)
    ensures
        res == bin_type_supported(input@, at as int),
{
    let mut i = at;
    while i < input.len() && input[i] == var_type_code::Ptr
        invariant
            input@.len() == input.len(),
            at <= i,
            bin_type_supported(input@, i as int) == bin_type_supported(input@, at as int),
        decreases input@.len() - i,
    {
        i = i + 1;
    }
    i >= input.len() || input[i] < var_type_code::Ptr
}

/// Reads a type written in bytecode at `*at`; see [`spec_type_from_bin`].
/// The cursor counts the codes read; when the input ends first the result is
/// an `EOFError` at the cursor.
pub fn get_type_from_bin(input: &[u8], at: &mut usize, cursor: &mut CursorPos) -> (res: Result<ValueType, ExecError>)
    requires
        *old(at) <= input@.len(),
        bin_type_supported(input@, *old(at) as int),
        old(cursor).pos + (input@.len() - *old(at)) <= usize::MAX,
    ensures
        *final(at) == spec_type_bin_end(input@, *old(at) as int),
        final(cursor).pos == old(cursor).pos + (*final(at) - *old(at)),
        final(cursor).func == old(cursor).func,
        match spec_type_from_bin(input@, *old(at) as int) {
            Some(t) => res == Ok::<ValueType, ExecError>(t),
            None => res matches Err(e) && e.error is EOFError && e.pos == *final(cursor)
                && crate::exceptions::spec_message(e.error)@ == "failed to fill whole buffer"@,
        },
    decreases input@.len() - *old(at),
{
    let mut buf = [0u8; 1];
    let ghost start = *at as int;
    let r = cursor.read_exact(input, at, &mut buf);
    match r {
        Err(e) => {
            return Err(e);
        },
        Ok(()) => {},
    }
    let code = buf[0];
    assert(code == input@[start]);
    if code == var_type_code::U8 { Ok(ValueType::U8) }
    else if code == var_type_code::U16 { Ok(ValueType::U16) }
    else if code == var_type_code::U32 { Ok(ValueType::U32) }
    else if code == var_type_code::U64 { Ok(ValueType::U64) }
    else if code == var_type_code::I8 { Ok(ValueType::I8) }
    else if code == var_type_code::I16 { Ok(ValueType::I16) }
    else if code == var_type_code::I32 { Ok(ValueType::I32) }
    else if code == var_type_code::I64 { Ok(ValueType::I64) }
    else if code == var_type_code::F32 { Ok(ValueType::F32) }
    else if code == var_type_code::F64 { Ok(ValueType::F64) }
    else if code == var_type_code::Bool { Ok(ValueType::Bool) }
    else if code == var_type_code::String { Ok(ValueType::String) }
    else {
        let inner = get_type_from_bin(input, at, cursor)?;
        Ok(ValueType::Ptr(Box::new(inner)))
    }
}

} // verus!
