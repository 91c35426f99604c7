//! Following chains of type aliases to the type they finally name.

use crate::lookup::{keys_of, lemma_last_index_of, lookup};
use crate::resolver::{find_last, str_keys, ModuleResolver, ResolverModel, ScopeModel};
use vstd::prelude::*;

verus! {

pub open spec fn opt_str(o: Option<String>) -> Option<Seq<char>> {
    match o {
        Some(s) => Some(s@),
        None => None,
    }
}

pub open spec fn opt_idx(o: Option<usize>) -> Option<int> {
    match o {
        Some(i) => Some(i as int),
        None => None,
    }
}

/// How many alias hops are followed at most.
pub const MAX_ALIAS_HOPS: usize = 10;

/// The base recorded for alias `name` by the first of the first `n` scopes
/// that has one.
pub open spec fn first_alias(files: Seq<ScopeModel>, name: Seq<char>, n: int) -> Option<Seq<char>>
    decreases n,
{
    if n <= 0 {
        None
    } else {
        match first_alias(files, name, n - 1) {
            Some(b) => Some(b),
            None => lookup(files[n - 1].type_aliases, name),
        }
    }
}

impl ResolverModel {
    /// The base of alias `name`: as recorded in scope `from`, else in the
    /// first scope that records one.
    pub open spec fn alias_base(self, name: Seq<char>, from: Option<int>) -> Option<Seq<char>> {
        match from {
            Some(f) => match lookup(self.files[f].type_aliases, name) {
                Some(b) => Some(b),
                None => first_alias(self.files, name, self.files.len() as int),
            },
            None => first_alias(self.files, name, self.files.len() as int),
        }
    }

    /// Follows aliases from `cur` for at most `hops` more hops.
    pub open spec fn chase_alias(self, cur: Seq<char>, from: Option<int>, hops: int) -> Seq<char>
        decreases hops,
    {
        if hops <= 0 {
            cur
        } else {
            match self.alias_base(cur, from) {
                Some(b) => self.chase_alias(b, from, hops - 1),
                None => cur,
            }
        }
    }

    /// The type that alias `name`, written in `from_file`, finally names;
    /// `None` where `name` is no alias.
    pub open spec fn resolve_alias(self, name: Seq<char>, from_file: Seq<char>) -> Option<Seq<char>> {
        match self.alias_base(name, self.scope_index(from_file)) {
            Some(b) => Some(self.chase_alias(b, self.scope_index(from_file), MAX_ALIAS_HOPS - 1)),
            None => None,
        }
    }
}

impl ModuleResolver {
    fn alias_in_scope(&self, f: usize, name: &str) -> (r: Option<String>)
        requires
            f < self.files.len(),
        ensures
            opt_str(r) == lookup(self@.files[f as int].type_aliases, name@),
    {
        let sc = &self.files[f];
        assert(self@.files[f as int] == sc@);
        proof {
            assert(keys_of(sc@.type_aliases) =~= str_keys(sc.type_aliases@));
            lemma_last_index_of(keys_of(sc@.type_aliases), name@);
        }
        match find_last(&sc.type_aliases, name) {
            Some(i) => Some(sc.type_aliases[i].1.clone()),
            None => None,
        }
    }

    fn alias_base(&self, name: &str, from: Option<usize>) -> (r: Option<String>)
        requires
            from matches Some(f) ==> f < self.files.len(),
        ensures
            opt_str(r) == self@.alias_base(name@, opt_idx(from)),
    {
        if let Some(f) = from {
            if let Some(b) = self.alias_in_scope(f, name) {
                return Some(b);
            }
        }
        let mut i: usize = 0;
        while i < self.files.len()
            invariant
                i <= self.files.len(),
                first_alias(self@.files, name@, i as int) is None,
                from matches Some(f) ==> f < self.files.len() && lookup(self@.files[f as int].type_aliases, name@) is None,
            decreases self.files.len() - i,
        {
            if let Some(b) = self.alias_in_scope(i, name) {
                proof {
                    let n = self.files.len() as int;
                    assert(first_alias(self@.files, name@, i + 1) == Some(b@));
                    lemma_first_alias_stable(self@.files, name@, i + 1, n);
                }
                return Some(b);
            }
            i = i + 1;
        }
        None
    }

    /// The type that the alias `name`, written in `from_file`, finally names,
    /// following at most `MAX_ALIAS_HOPS` hops; `None` where `name` is no
    /// alias. The base of an alias is taken from the file's own scope, else
    /// from the first scanned file that declares such an alias.
    pub fn resolve_alias_target(&self, name: &str, from_file: &str) -> (r: Option<String>)
        ensures
            opt_str(r) == self@.resolve_alias(name@, from_file@),
    {
        let from = self.scope_index(from_file);
        let ghost fm = opt_idx(from);
        assert(fm == self@.scope_index(from_file@));
        let mut cur = match self.alias_base(name, from) {
            Some(b) => b,
            None => return None,
        };
        let mut hops: usize = MAX_ALIAS_HOPS - 1;
        while hops > 0
            invariant
                fm == opt_idx(from),
                fm == self@.scope_index(from_file@),
                self@.alias_base(name@, fm) is Some,
                from matches Some(f) ==> f < self.files.len(),
                self@.chase_alias(cur@, fm, hops as int) == self@.chase_alias(
                    self@.alias_base(name@, fm)->0,
                    fm,
                    MAX_ALIAS_HOPS - 1,
                ),
            decreases hops,
        {
            match self.alias_base(cur.as_str(), from) {
                Some(b) => {
                    cur = b;
                },
                None => {
                    assert(self@.chase_alias(cur@, fm, hops as int) == cur@);
                    return Some(cur);
                },
            }
            hops = hops - 1;
        }
        Some(cur)
    }
}

pub proof fn lemma_first_alias_stable(files: Seq<ScopeModel>, name: Seq<char>, k: int, n: int)
    requires
        0 <= k <= n,
        first_alias(files, name, k) is Some,
    ensures
        first_alias(files, name, n) == first_alias(files, name, k),
    decreases n - k,
{
    if k < n {
        lemma_first_alias_stable(files, name, k, n - 1);
    }
}

} // verus!
