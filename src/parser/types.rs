//! Reading serialization attributes of declarations.

use crate::text::{contains_seq, contains_str, find_str, first_from, lemma_first_from};
use vstd::prelude::*;
use vstd::string::*;

verus! {

/// Whether the token text of a `derive` list names `Serialize` or
/// `Deserialize`, which marks a type that is exported.
pub fn is_serializable_derive(tokens: &str) -> (r: bool)
    ensures
        r == (contains_seq(tokens@, "Serialize"@) || contains_seq(tokens@, "Deserialize"@)),
{
    contains_str(tokens, "Serialize") || contains_str(tokens, "Deserialize")
}

/// The value given to `rename` in the token text of a `serde` attribute:
/// from the first `rename`, past the next `=`, the text between the next two
/// double quotes.
pub open spec fn rename_value(t: Seq<char>) -> Option<Seq<char>> {
    match first_from(t, "rename"@, 0) {
        None => None,
        Some(a) => {
            let rest = t.subrange(a, t.len() as int);
            match first_from(rest, "="@, 0) {
                None => None,
                Some(e) => {
                    let after = rest.subrange(e + 1, rest.len() as int);
                    match first_from(after, "\""@, 0) {
                        None => None,
                        Some(q) => {
                            let quoted = after.subrange(q + 1, after.len() as int);
                            match first_from(quoted, "\""@, 0) {
                                None => None,
                                Some(q2) => Some(quoted.subrange(0, q2)),
                            }
                        },
                    }
                },
            }
        },
    }
}

/// The tail of `s` from character `k` on.
fn tail(s: &str, k: usize) -> (r: &str)
    requires
        k <= s@.len(),
    ensures
        r@ == s@.subrange(k as int, s@.len() as int),
{
    let n = s.unicode_len();
    s.substring_char(k, n)
}

/// The value given to `rename` in a `serde` attribute's token text.
pub fn get_serde_rename(tokens: &str) -> (r: Option<String>)
    ensures
        match r {
            Some(v) => rename_value(tokens@) == Some(v@),
            None => rename_value(tokens@) is None,
        },
{
    let a = match find_str(tokens, "rename") {
        Some(a) => a,
        None => return None,
    };
    proof {
        lemma_first_from(tokens@, "rename"@, 0);
    }
    let rest = tail(tokens, a);
    let e = match find_str(rest, "=") {
        Some(e) => e,
        None => return None,
    };
    proof {
        lemma_first_from(rest@, "="@, 0);
        reveal_strlit("=");
    }
    let after = tail(rest, e + 1);
    let q = match find_str(after, "\"") {
        Some(q) => q,
        None => return None,
    };
    proof {
        lemma_first_from(after@, "\""@, 0);
        reveal_strlit("\"");
    }
    let quoted = tail(after, q + 1);
    let q2 = match find_str(quoted, "\"") {
        Some(q2) => q2,
        None => return None,
    };
    proof {
        lemma_first_from(quoted@, "\""@, 0);
    }
    Some(String::from_str(quoted.substring_char(0, q2)))
}

} // verus!
