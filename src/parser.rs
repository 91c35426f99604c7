//! The shapes of types, declarations and commands that the fact extraction
//! hands to the resolver and the collector.

pub mod command;
pub mod types;

pub use crate::models::command::{CommandArg, TauriCommand};
use vstd::prelude::*;

verus! {

/// A type as written in a signature or a field.
#[derive(Debug)]
pub enum RustType {
    /// A built-in or well-known value type, by name.
    Primitive(String),
    /// A list of the inner type.
    Vec(Box<RustType>),
    /// An optional value of the inner type.
    Option(Box<RustType>),
    /// A fallible value: only its success type is kept.
    Result(Box<RustType>),
    /// A map from keys to values.
    HashMap { key: Box<RustType>, value: Box<RustType> },
    /// A tuple of the listed types.
    Tuple(Vec<RustType>),
    /// A reference to a declared type, by its written path.
    Custom(String),
    /// A generic parameter of the enclosing declaration.
    Generic(String),
    /// `()`
    Unit,
    /// Anything else, with a description.
    Unknown(String),
}

/// A serializable struct declaration.
#[derive(Debug)]
pub struct RustStruct {
    pub name: String,
    /// Generic type parameters.
    pub generics: Vec<String>,
    pub fields: Vec<StructField>,
    /// File in which the struct is declared.
    pub source_file: String,
}

/// One named field (tuple fields are named `field0`, `field1`, ...).
#[derive(Debug)]
pub struct StructField {
    pub name: String,
    pub ty: RustType,
}

/// A serializable enum declaration.
#[derive(Debug)]
pub struct RustEnum {
    pub name: String,
    pub variants: Vec<EnumVariant>,
    /// File in which the enum is declared.
    pub source_file: String,
}

#[derive(Debug)]
pub struct EnumVariant {
    pub name: String,
    pub data: VariantData,
}

/// The payload of an enum variant.
#[derive(Debug)]
pub enum VariantData {
    Unit,
    Tuple(Vec<RustType>),
    Struct(Vec<StructField>),
}

/// Everything extracted from the scanned files.
#[derive(Debug)]
pub struct ParseResult {
    pub commands: Vec<TauriCommand>,
    pub structs: Vec<RustStruct>,
    pub enums: Vec<RustEnum>,
}

impl ParseResult {
    pub fn new() -> (r: Self)
        ensures
            r.commands@.len() == 0,
            r.structs@.len() == 0,
            r.enums@.len() == 0,
    {
        ParseResult { commands: Vec::new(), structs: Vec::new(), enums: Vec::new() }
    }
}

/// The written paths of the declared types that a type refers to, in the
/// order met, repeats included. Lists, options, fallible values, maps and
/// tuples are looked through; only the success type of a fallible value
/// counts.
pub open spec fn custom_refs(ty: RustType) -> Seq<Seq<char>>
    decreases ty, 0int,
{
    match ty {
        RustType::Custom(name) => seq![name@],
        RustType::Vec(inner) => custom_refs(*inner),
        RustType::Option(inner) => custom_refs(*inner),
        RustType::Result(ok) => custom_refs(*ok),
        RustType::HashMap { key, value } => custom_refs(*key) + custom_refs(*value),
        RustType::Tuple(ts) => list_refs(ts, ts.len() as int),
        _ => seq![],
    }
}

/// The references of the first `n` types of a list, in order.
pub open spec fn list_refs(ts: Vec<RustType>, n: int) -> Seq<Seq<char>>
    decreases ts, n,
{
    if n <= 0 || n > ts.len() {
        seq![]
    } else {
        list_refs(ts, n - 1) + custom_refs(ts@[n - 1])
    }
}

/// `acc` extended by the names of `names` that it does not hold yet.
pub open spec fn add_names(acc: Seq<Seq<char>>, names: Seq<Seq<char>>) -> Seq<Seq<char>>
    decreases names.len(),
{
    if names.len() == 0 {
        acc
    } else {
        let a = add_names(acc, names.drop_last());
        if a.contains(names.last()) {
            a
        } else {
            a.push(names.last())
        }
    }
}

pub proof fn lemma_add_names_concat(acc: Seq<Seq<char>>, a: Seq<Seq<char>>, b: Seq<Seq<char>>)
    ensures
        add_names(acc, a + b) == add_names(add_names(acc, a), b),
    decreases b.len(),
{
    if b.len() == 0 {
        assert(a + b =~= a);
    } else {
        assert((a + b).drop_last() =~= a + b.drop_last());
        lemma_add_names_concat(acc, a, b.drop_last());
    }
}

} // verus!
