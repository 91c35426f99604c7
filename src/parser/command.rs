//! Reading commands and types out of written signatures: the rules that
//! decide what a written type means and which functions are commands.

use crate::parser::RustType;
use crate::paths::segs_of;
use crate::text::str_eq;
use vstd::prelude::*;
use vstd::string::*;

verus! {

/// A type as written in source, before it is interpreted.
#[derive(Debug)]
pub enum WrittenType {
    /// A path such as `std::vec::Vec<T>`: its segments, and the generic
    /// arguments of its last segment.
    Path { segments: Vec<String>, args: Vec<WrittenType> },
    /// A generic argument that is not a type (a lifetime, a constant).
    NotAType,
    /// `(A, B, ...)`
    Tuple(Vec<WrittenType>),
    /// `&T` or `&mut T`
    Reference(Box<WrittenType>),
    /// `[T]`
    Slice(Box<WrittenType>),
    /// Any other form, with a description.
    Other(String),
}

/// Names read as text.
pub open spec fn is_string_name(n: Seq<char>) -> bool {
    n == "String"@ || n == "str"@ || n == "char"@
}

/// Names kept as primitives under their own name: integers, floats,
/// booleans, and well-known value types of other libraries.
pub open spec fn is_named_primitive(n: Seq<char>) -> bool {
    n == "i8"@ || n == "i16"@ || n == "i32"@ || n == "i64"@ || n == "i128"@ || n == "isize"@ || n
        == "u8"@ || n == "u16"@ || n == "u32"@ || n == "u64"@ || n == "u128"@ || n == "usize"@
        || n == "f32"@ || n == "f64"@ || n == "bool"@ || n == "DateTime"@ || n
        == "NaiveDateTime"@ || n == "NaiveDate"@ || n == "NaiveTime"@ || n == "OffsetDateTime"@
        || n == "PrimitiveDateTime"@ || n == "Date"@ || n == "Time"@ || n == "Uuid"@ || n
        == "Decimal"@ || n == "BigDecimal"@ || n == "PathBuf"@ || n == "Path"@ || n == "Url"@
        || n == "IpAddr"@ || n == "Ipv4Addr"@ || n == "Ipv6Addr"@ || n == "Duration"@ || n
        == "Value"@ || n == "Bytes"@
}

/// The segments joined by `::`, for the first `n` of them.
pub open spec fn join_path(segs: Seq<Seq<char>>, n: int) -> Seq<char>
    decreases n,
{
    if n <= 0 {
        Seq::empty()
    } else if n == 1 {
        segs[0]
    } else {
        join_path(segs, n - 1) + "::"@ + segs[n - 1]
    }
}

/// Whether `arg` is a type argument.
pub open spec fn is_type_arg(arg: WrittenType) -> bool {
    !(arg is NotAType)
}

/// Whether `r` is what the written type `ty` means, where `gp` are the
/// generic parameters in scope: generic parameters stay generic; text,
/// numbers and well-known value types are primitives; lists, slices,
/// options, fallible values (their success type) and maps are read through
/// their type arguments, and are unknown without them; references are read
/// as what they refer to; the empty tuple is the unit; any other path is a
/// declared type, by its written path.
pub open spec fn parses_to(ty: WrittenType, gp: Seq<Seq<char>>, r: RustType) -> bool
    decreases ty,
{
    match ty {
        WrittenType::Path { segments, args } => {
            if segments.len() == 0 {
                r matches RustType::Unknown(d) && d@ == "unknown path"@
            } else {
                let name = segments@.last()@;
                if gp.contains(name) {
                    r matches RustType::Generic(g) && g@ == name
                } else if is_string_name(name) {
                    r matches RustType::Primitive(p) && p@ == "String"@
                } else if is_named_primitive(name) {
                    r matches RustType::Primitive(p) && p@ == name
                } else if name == "Vec"@ {
                    if args.len() >= 1 && is_type_arg(args@[0]) {
                        r matches RustType::Vec(x) && parses_to(args@[0], gp, *x)
                    } else {
                        r matches RustType::Unknown(d) && d@ == "Vec<?>"@
                    }
                } else if name == "Option"@ {
                    if args.len() >= 1 && is_type_arg(args@[0]) {
                        r matches RustType::Option(x) && parses_to(args@[0], gp, *x)
                    } else {
                        r matches RustType::Unknown(d) && d@ == "Option<?>"@
                    }
                } else if name == "Result"@ {
                    if args.len() >= 1 && is_type_arg(args@[0]) {
                        r matches RustType::Result(x) && parses_to(args@[0], gp, *x)
                    } else {
                        r matches RustType::Unknown(d) && d@ == "Result<?>"@
                    }
                } else if name == "HashMap"@ || name == "BTreeMap"@ {
                    if args.len() >= 2 && is_type_arg(args@[0]) && is_type_arg(args@[1]) {
                        r matches RustType::HashMap { key, value } && parses_to(args@[0], gp, *key)
                            && parses_to(args@[1], gp, *value)
                    } else {
                        r matches RustType::Unknown(d) && d@ == "HashMap<?, ?>"@
                    }
                } else {
                    r matches RustType::Custom(c) && c@ == join_path(segs_of(segments), segments.len() as int)
                }
            }
        },
        WrittenType::Tuple(ts) => {
            if ts.len() == 0 {
                r is Unit
            } else {
                r matches RustType::Tuple(rs) && rs.len() == ts.len() && forall|i: int|
                    0 <= i < ts.len() ==> parses_to(#[trigger] ts@[i], gp, rs@[i])
            }
        },
        WrittenType::Reference(inner) => parses_to(*inner, gp, r),
        WrittenType::Slice(inner) => r matches RustType::Vec(x) && parses_to(*inner, gp, *x),
        WrittenType::NotAType => r matches RustType::Unknown(d) && d@ == "not a type"@,
        WrittenType::Other(d) => r matches RustType::Unknown(u) && u@ == d@,
    }
}

fn is_string_name_exec(n: &str) -> (r: bool)
    ensures
        r == is_string_name(n@),
{
    str_eq(n, "String") || str_eq(n, "str") || str_eq(n, "char")
}

fn is_named_primitive_exec(n: &str) -> (r: bool)
    ensures
        r == is_named_primitive(n@),
{
    str_eq(n, "i8") || str_eq(n, "i16") || str_eq(n, "i32") || str_eq(n, "i64") || str_eq(n, "i128")
        || str_eq(n, "isize") || str_eq(n, "u8") || str_eq(n, "u16") || str_eq(n, "u32") || str_eq(
        n,
        "u64",
    ) || str_eq(n, "u128") || str_eq(n, "usize") || str_eq(n, "f32") || str_eq(n, "f64")
        || str_eq(n, "bool") || str_eq(n, "DateTime") || str_eq(n, "NaiveDateTime") || str_eq(
        n,
        "NaiveDate",
    ) || str_eq(n, "NaiveTime") || str_eq(n, "OffsetDateTime") || str_eq(n, "PrimitiveDateTime")
        || str_eq(n, "Date") || str_eq(n, "Time") || str_eq(n, "Uuid") || str_eq(n, "Decimal")
        || str_eq(n, "BigDecimal") || str_eq(n, "PathBuf") || str_eq(n, "Path") || str_eq(n, "Url")
        || str_eq(n, "IpAddr") || str_eq(n, "Ipv4Addr") || str_eq(n, "Ipv6Addr") || str_eq(
        n,
        "Duration",
    ) || str_eq(n, "Value") || str_eq(n, "Bytes")
}

/// The segments joined by `::`.
pub fn join_segments(segs: &Vec<String>) -> (r: String)
    ensures
        r@ == join_path(segs_of(*segs), segs.len() as int),
{
    if segs.len() == 0 {
        return String::new();
    }
    let mut out = segs[0].clone();
    let mut i: usize = 1;
    while i < segs.len()
        invariant
            1 <= i <= segs.len(),
            out@ == join_path(segs_of(*segs), i as int),
        decreases segs.len() - i,
    {
        out.append("::");
        out.append(segs[i].as_str());
        i = i + 1;
    }
    out
}

fn is_type_arg_exec(arg: &WrittenType) -> (r: bool)
    ensures
        r == is_type_arg(*arg),
{
    match arg {
        WrittenType::NotAType => false,
        _ => true,
    }
}

/// What the written type means, where `generic_params` are the generic
/// parameters in scope.
pub fn parse_type_with_context(ty: &WrittenType, generic_params: &Vec<String>) -> (r: RustType)
    ensures
        parses_to(*ty, segs_of(*generic_params), r),
    decreases ty,
{
    let ghost gp = segs_of(*generic_params);
    match ty {
        WrittenType::Path { segments, args } => {
            if segments.len() == 0 {
                return RustType::Unknown(String::from_str("unknown path"));
            }
            let name = &segments[segments.len() - 1];
            assert(segments@.last()@ == name@);
            if crate::paths::contains_segment(generic_params, name) {
                return RustType::Generic(name.clone());
            }
            let n = name.as_str();
            if is_string_name_exec(n) {
                RustType::Primitive(String::from_str("String"))
            } else if is_named_primitive_exec(n) {
                RustType::Primitive(name.clone())
            } else if str_eq(n, "Vec") {
                if args.len() >= 1 && is_type_arg_exec(&args[0]) {
                    RustType::Vec(Box::new(parse_type_with_context(&args[0], generic_params)))
                } else {
                    RustType::Unknown(String::from_str("Vec<?>"))
                }
            } else if str_eq(n, "Option") {
                if args.len() >= 1 && is_type_arg_exec(&args[0]) {
                    RustType::Option(Box::new(parse_type_with_context(&args[0], generic_params)))
                } else {
                    RustType::Unknown(String::from_str("Option<?>"))
                }
            } else if str_eq(n, "Result") {
                if args.len() >= 1 && is_type_arg_exec(&args[0]) {
                    RustType::Result(Box::new(parse_type_with_context(&args[0], generic_params)))
                } else {
                    RustType::Unknown(String::from_str("Result<?>"))
                }
            } else if str_eq(n, "HashMap") || str_eq(n, "BTreeMap") {
                if args.len() >= 2 && is_type_arg_exec(&args[0]) && is_type_arg_exec(&args[1]) {
                    let key = parse_type_with_context(&args[0], generic_params);
                    let value = parse_type_with_context(&args[1], generic_params);
                    RustType::HashMap { key: Box::new(key), value: Box::new(value) }
                } else {
                    RustType::Unknown(String::from_str("HashMap<?, ?>"))
                }
            } else {
                RustType::Custom(join_segments(segments))
            }
        },
        WrittenType::Tuple(ts) => {
            if ts.len() == 0 {
                return RustType::Unit;
            }
            let mut rs: Vec<RustType> = Vec::new();
            let mut i: usize = 0;
            while i < ts.len()
                invariant
                    i <= ts.len(),
                    rs.len() == i,
                    *ty == WrittenType::Tuple(*ts),
                    gp == segs_of(*generic_params),
                    forall|j: int| 0 <= j < i ==> parses_to(#[trigger] ts@[j], gp, rs@[j]),
                decreases ts.len() - i,
            {
                proof {
                    assert(decreases_to!(*ts => ts[i as int]));
                    assert(decreases_to!(*ty => (*ty)->Tuple_0));
                    assert(decreases_to!(*ty => ts[i as int]));
                }
                let t = parse_type_with_context(&ts[i], generic_params);
                rs.push(t);
                i = i + 1;
            }
            RustType::Tuple(rs)
        },
        WrittenType::Reference(inner) => parse_type_with_context(inner, generic_params),
        WrittenType::Slice(inner) => RustType::Vec(Box::new(parse_type_with_context(inner, generic_params))),
        WrittenType::NotAType => RustType::Unknown(String::from_str("not a type")),
        WrittenType::Other(d) => RustType::Unknown(d.clone()),
    }
}

/// What the written type means, with no generic parameters in scope.
pub fn parse_type(ty: &WrittenType) -> (r: RustType)
    ensures
        parses_to(*ty, seq![], r),
{
    let none: Vec<String> = Vec::new();
    assert(segs_of(none) =~= Seq::<Seq<char>>::empty());
    parse_type_with_context(ty, &none)
}

/// The return type of a command: none where the function returns nothing or
/// the unit.
pub fn parse_return_type(written: Option<RustType>) -> (r: Option<RustType>)
    ensures
        match written {
            Some(t) => if t is Unit {
                r is None
            } else {
                r == Some(t)
            },
            None => r is None,
        },
{
    match written {
        Some(RustType::Unit) => None,
        Some(t) => Some(t),
        None => None,
    }
}

/// Whether an attribute path marks a command: `tauri::command` or `command`.
pub fn is_tauri_command_attr(segments: &Vec<String>) -> (r: bool)
    ensures
        r == (segs_of(*segments) == seq!["tauri"@, "command"@] || segs_of(*segments) == seq![
            "command"@,
        ]),
{
    if segments.len() == 2 {
        let r = str_eq(segments[0].as_str(), "tauri") && str_eq(segments[1].as_str(), "command");
        proof {
            if segs_of(*segments) == seq!["tauri"@, "command"@] {
                assert(segs_of(*segments)[0] == segments@[0]@);
                assert(segs_of(*segments)[1] == segments@[1]@);
            }
            if r {
                assert(segs_of(*segments) =~= seq!["tauri"@, "command"@]);
            }
        }
        r
    } else if segments.len() == 1 {
        let r = str_eq(segments[0].as_str(), "command");
        proof {
            if segs_of(*segments) == seq!["command"@] {
                assert(segs_of(*segments)[0] == segments@[0]@);
            }
            if r {
                assert(segs_of(*segments) =~= seq!["command"@]);
            }
        }
        r
    } else {
        false
    }
}

/// Whether the last segment of an argument's type names a value that the
/// host injects (`State`, `Window`, `AppHandle`, `Webview`,
/// `WebviewWindow`), which clients do not pass.
pub fn is_tauri_special_type(name: &str) -> (r: bool)
    ensures
        r == (name@ == "State"@ || name@ == "Window"@ || name@ == "AppHandle"@ || name@ == "Webview"@
            || name@ == "WebviewWindow"@),
{
    str_eq(name, "State") || str_eq(name, "Window") || str_eq(name, "AppHandle") || str_eq(
        name,
        "Webview",
    ) || str_eq(name, "WebviewWindow")
}

} // verus!
