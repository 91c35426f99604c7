use crate::text::{ascii_lower, ascii_upper, push_char, str_eq, to_ascii_lower, to_ascii_upper};
use vstd::prelude::*;
use vstd::string::*;

verus! {

/// Camel case of the first `n` characters of `s`: underscores are dropped, a
/// character right after an underscore is upper-cased, the first character
/// is lower-cased, the rest is kept.
pub open spec fn camel_prefix(s: Seq<char>, n: int) -> Seq<char>
    decreases n,
{
    if n <= 0 {
        Seq::empty()
    } else {
        let i = n - 1;
        let c = s[i];
        if c == '_' {
            camel_prefix(s, i)
        } else if i > 0 && s[i - 1] == '_' {
            camel_prefix(s, i).push(ascii_upper(c))
        } else if i == 0 {
            camel_prefix(s, i).push(ascii_lower(c))
        } else {
            camel_prefix(s, i).push(c)
        }
    }
}

/// Converts `snake_case` to `camelCase`.
pub fn to_camel_case(s: &str) -> (r: String)
    ensures
        r@ == camel_prefix(s@, s@.len() as int),
{
    let n = s.unicode_len();
    let mut result = String::new();
    let mut capitalize_next = false;
    let mut i: usize = 0;
    while i < n
        invariant
            n == s@.len(),
            i <= n,
            result@ == camel_prefix(s@, i as int),
            capitalize_next == (i > 0 && s@[i - 1] == '_'),
        decreases n - i,
    {
        let c = s.get_char(i);
        if c == '_' {
            capitalize_next = true;
        } else if capitalize_next {
            push_char(&mut result, to_ascii_upper(c));
            capitalize_next = false;
        } else if i == 0 {
            push_char(&mut result, to_ascii_lower(c));
        } else {
            push_char(&mut result, c);
        }
        i = i + 1;
    }
    result
}

/// Primitive names written as text.
pub open spec fn is_text_primitive(n: Seq<char>) -> bool {
    n == "String"@ || n == "str"@ || n == "char"@ || n == "DateTime"@ || n == "NaiveDateTime"@
        || n == "NaiveDate"@ || n == "NaiveTime"@ || n == "OffsetDateTime"@ || n
        == "PrimitiveDateTime"@ || n == "Date"@ || n == "Time"@ || n == "Uuid"@ || n
        == "Decimal"@ || n == "BigDecimal"@ || n == "PathBuf"@ || n == "Path"@ || n
        == "IpAddr"@ || n == "Ipv4Addr"@ || n == "Ipv6Addr"@ || n == "Url"@
}

/// Primitive names written as numbers.
pub open spec fn is_number_primitive(n: Seq<char>) -> bool {
    n == "i8"@ || n == "i16"@ || n == "i32"@ || n == "i64"@ || n == "i128"@ || n == "isize"@ || n
        == "u8"@ || n == "u16"@ || n == "u32"@ || n == "u64"@ || n == "u128"@ || n == "usize"@
        || n == "f32"@ || n == "f64"@ || n == "Duration"@
}

/// The target type of a primitive.
pub open spec fn target_of_primitive(n: Seq<char>) -> Seq<char> {
    if is_text_primitive(n) {
        "string"@
    } else if is_number_primitive(n) {
        "number"@
    } else if n == "bool"@ {
        "boolean"@
    } else if n == "Bytes"@ {
        "number[]"@
    } else {
        "unknown"@
    }
}

fn is_text_primitive_exec(n: &str) -> (r: bool)
    ensures
        r == is_text_primitive(n@),
{
    str_eq(n, "String") || str_eq(n, "str") || str_eq(n, "char") || str_eq(n, "DateTime")
        || str_eq(n, "NaiveDateTime") || str_eq(n, "NaiveDate") || str_eq(n, "NaiveTime")
        || str_eq(n, "OffsetDateTime") || str_eq(n, "PrimitiveDateTime") || str_eq(n, "Date")
        || str_eq(n, "Time") || str_eq(n, "Uuid") || str_eq(n, "Decimal") || str_eq(
        n,
        "BigDecimal",
    ) || str_eq(n, "PathBuf") || str_eq(n, "Path") || str_eq(n, "IpAddr") || str_eq(n, "Ipv4Addr")
        || str_eq(n, "Ipv6Addr") || str_eq(n, "Url")
}

fn is_number_primitive_exec(n: &str) -> (r: bool)
    ensures
        r == is_number_primitive(n@),
{
    str_eq(n, "i8") || str_eq(n, "i16") || str_eq(n, "i32") || str_eq(n, "i64") || str_eq(n, "i128")
        || str_eq(n, "isize") || str_eq(n, "u8") || str_eq(n, "u16") || str_eq(n, "u32") || str_eq(
        n,
        "u64",
    ) || str_eq(n, "u128") || str_eq(n, "usize") || str_eq(n, "f32") || str_eq(n, "f64")
        || str_eq(n, "Duration")
}

/// The target type of a primitive: text for strings, characters, dates,
/// times, identifiers, decimals, paths and addresses; a number for integers,
/// floats and durations; a boolean; a number list for bytes; `unknown` for
/// a JSON value and anything else.
pub fn primitive_to_typescript(name: &str) -> (r: String)
    ensures
        r@ == target_of_primitive(name@),
{
    if is_text_primitive_exec(name) {
        String::from_str("string")
    } else if is_number_primitive_exec(name) {
        String::from_str("number")
    } else if str_eq(name, "bool") {
        String::from_str("boolean")
    } else if str_eq(name, "Bytes") {
        String::from_str("number[]")
    } else {
        String::from_str("unknown")
    }
}

} // verus!
