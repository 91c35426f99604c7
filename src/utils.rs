//! Identifier case conversions used when naming generated bindings.

use crate::text::{
    ascii_lower, ascii_upper, is_upper_char, is_uppercase, push_char, replace_char, replace_char_exec,
    to_ascii_lower, to_ascii_upper, to_uppercase, upper_of,
};
use vstd::prelude::*;
use vstd::string::*;

verus! {

/// Whether some character before position `i` is not an underscore.
pub open spec fn has_word_char_before(s: Seq<char>, i: int) -> bool {
    exists|j: int| 0 <= j < i && s[j] != '_'
}

/// The camel-case form of the non-underscore character at position `i`:
/// lower-cased while no word character precedes it, upper-cased right after
/// an underscore, unchanged otherwise.
pub open spec fn camel_char(s: Seq<char>, i: int) -> char {
    if !has_word_char_before(s, i) {
        ascii_lower(s[i])
    } else if s[i - 1] == '_' {
        ascii_upper(s[i])
    } else {
        s[i]
    }
}

/// Camel case of the first `n` characters of `s`: underscores are dropped and
/// every other character is mapped by `camel_char`.
pub open spec fn camel_prefix(s: Seq<char>, n: int) -> Seq<char>
    decreases n,
{
    if n <= 0 {
        Seq::empty()
    } else if s[n - 1] == '_' {
        camel_prefix(s, n - 1)
    } else {
        camel_prefix(s, n - 1).push(camel_char(s, n - 1))
    }
}

pub open spec fn camel_of(s: Seq<char>) -> Seq<char> {
    camel_prefix(s, s.len() as int)
}

/// Converts `snake_case` to `camelCase`. Underscores are removed; the first
/// word character is lower-cased (leading underscores do not capitalise it);
/// a character that follows an underscore is upper-cased; the rest is kept.
pub fn to_camel_case(s: &str) -> (r: String)
    ensures
        r@ == camel_of(s@),
{
    let n = s.unicode_len();
    let mut result = String::new();
    let mut capitalize_next = false;
    let mut seen_non_underscore = false;
    let mut i: usize = 0;
    while i < n
        invariant
            n == s@.len(),
            i <= n,
            result@ == camel_prefix(s@, i as int),
            seen_non_underscore == has_word_char_before(s@, i as int),
            capitalize_next == (seen_non_underscore && i > 0 && s@[i - 1] == '_'),
        decreases n - i,
    {
        let c = s.get_char(i);
        proof {
            if has_word_char_before(s@, i as int) {
                let j = choose|j: int| 0 <= j < i && s@[j] != '_';
                assert(0 <= j < i + 1 && s@[j] != '_');
            }
            if c != '_' {
                assert(0 <= i < i + 1 && s@[i as int] != '_');
            }
        }
        if c == '_' {
            if seen_non_underscore {
                capitalize_next = true;
            }
        } else if capitalize_next {
            push_char(&mut result, to_ascii_upper(c));
            capitalize_next = false;
            seen_non_underscore = true;
        } else if !seen_non_underscore {
            push_char(&mut result, to_ascii_lower(c));
            seen_non_underscore = true;
        } else {
            push_char(&mut result, c);
        }
        i = i + 1;
        proof {
            if c == '_' && !has_word_char_before(s@, i - 1) {
                assert(!has_word_char_before(s@, i as int)) by {
                    if has_word_char_before(s@, i as int) {
                        let j = choose|j: int| 0 <= j < i && s@[j] != '_';
                        assert(j != i - 1);
                    }
                }
            }
            if c == '_' && has_word_char_before(s@, i - 1) {
                assert(has_word_char_before(s@, i as int)) by {
                    let j = choose|j: int| 0 <= j < i - 1 && s@[j] != '_';
                    assert(0 <= j < i && s@[j] != '_');
                }
            }
        }
    }
    result
}

/// Snake case of the first `n` characters of `s`: each character is
/// ASCII lower-cased, and one that is upper case and not first is preceded by
/// an underscore.
pub open spec fn snake_prefix(s: Seq<char>, n: int) -> Seq<char>
    decreases n,
{
    if n <= 0 {
        Seq::empty()
    } else if is_upper_char(s[n - 1]) && n - 1 > 0 {
        snake_prefix(s, n - 1).push('_').push(ascii_lower(s[n - 1]))
    } else {
        snake_prefix(s, n - 1).push(ascii_lower(s[n - 1]))
    }
}

pub open spec fn snake_of(s: Seq<char>) -> Seq<char> {
    snake_prefix(s, s.len() as int)
}

/// Converts `PascalCase` to `snake_case`.
pub fn to_snake_case(s: &str) -> (r: String)
    ensures
        r@ == snake_of(s@),
{
    let n = s.unicode_len();
    let mut result = String::new();
    let mut i: usize = 0;
    while i < n
        invariant
            n == s@.len(),
            i <= n,
            result@ == snake_prefix(s@, i as int),
        decreases n - i,
    {
        let c = s.get_char(i);
        if is_uppercase(c) && i > 0 {
            push_char(&mut result, '_');
        }
        push_char(&mut result, to_ascii_lower(c));
        i = i + 1;
    }
    result
}

/// Converts `PascalCase` to `SCREAMING_SNAKE_CASE`.
pub fn to_screaming_snake_case(s: &str) -> (r: String)
    ensures
        r@ == upper_of(snake_of(s@)),
{
    let snake = to_snake_case(s);
    to_uppercase(snake.as_str())
}

/// Converts `PascalCase` to `kebab-case`.
pub fn to_kebab_case(s: &str) -> (r: String)
    ensures
        r@ == replace_char(snake_of(s@), '_', '-'),
{
    let snake = to_snake_case(s);
    replace_char_exec(snake.as_str(), '_', '-')
}

/// Converts `PascalCase` to `SCREAMING-KEBAB-CASE`.
pub fn to_screaming_kebab_case(s: &str) -> (r: String)
    ensures
        r@ == upper_of(replace_char(snake_of(s@), '_', '-')),
{
    let kebab = to_kebab_case(s);
    to_uppercase(kebab.as_str())
}

} // verus!
