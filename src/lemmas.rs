//! Properties of resolution, alias chasing and collection that hold for
//! every scope table.

use crate::alias::first_alias;
use crate::collector::{collected, CollectionModel};
use crate::lookup::{lemma_last_index_of, lookup};
use crate::parser::ParseResult;
use crate::paths::{is_plain_name, lemma_split_plain, normalize};
use crate::resolver::{declares, ImportModel, Resolution, ResolverModel, ScopeModel};
use vstd::prelude::*;

verus! {

/// The scope found for a file is that file's scope.
pub proof fn lemma_scope_index(r: ResolverModel, file: Seq<char>)
    ensures
        r.scope_index(file) matches Some(k) ==> 0 <= k < r.files.len() && r.files[k].path == file,
{
    let paths = r.files.map_values(|s: ScopeModel| s.path);
    lemma_last_index_of(paths, file);
}

/// The scope found for a module is a scope of the table.
pub proof fn lemma_module_scope(r: ResolverModel, mp: Seq<Seq<char>>)
    ensures
        r.module_scope(mp) matches Some(k) ==> 0 <= k < r.files.len(),
{
    if let Some(f) = lookup(r.module_to_file, mp) {
        lemma_scope_index(r, f);
    }
}

/// A type declared in a file and referenced there by its bare name resolves
/// to that file.
pub proof fn lemma_local_type_found(r: ResolverModel, file: Seq<char>, name: Seq<char>)
    requires
        r.scope_index(file) is Some,
        declares(r.files[r.scope_index(file)->0], name),
        is_plain_name(name),
    ensures
        r.resolve(name, file) == Resolution::Found(file),
{
    lemma_scope_index(r, file);
    lemma_split_plain(name);
}

/// A name imported under an alias (`use prefix::original as local`), where
/// the module that `prefix` names declares `original`, resolves to that
/// module's file, together with the original name.
pub proof fn lemma_renamed_import_found(
    r: ResolverModel,
    file: Seq<char>,
    k: int,
    local: Seq<char>,
    original: Seq<char>,
    prefix: Seq<Seq<char>>,
    mp: Seq<Seq<char>>,
    target: int,
)
    requires
        r.scope_index(file) == Some(k),
        !declares(r.files[k], local),
        lookup(r.files[k].imports, local) == Some(ImportModel { path: prefix.push(original), original_name: original }),
        normalize(prefix, r.files[k].mod_path) == Some(mp),
        r.module_scope(mp) == Some(target),
        declares(r.files[target], original),
        original != local,
        is_plain_name(local),
    ensures
        r.resolve(local, file) == Resolution::FoundWithAlias(r.files[target].path, original),
{
    lemma_scope_index(r, file);
    lemma_module_scope(r, mp);
    lemma_split_plain(local);
    let path = prefix.push(original);
    assert(path.drop_last() =~= prefix);
    assert(!Seq::<int>::empty().contains(target));
    assert(r.follow_path(path, r.files[k].mod_path, Seq::empty()) == Resolution::Found(r.files[target].path));
}

/// A bare name that the querying file neither declares nor imports, and that
/// its wildcard imports do not lead to, with two declaring files in the
/// global index: ambiguous between both, in the order first seen, when the
/// querying module is a sibling of neither; the one file when it is a
/// sibling of exactly that one.
pub proof fn lemma_global_tie_break(
    r: ResolverModel,
    file: Seq<char>,
    k: int,
    name: Seq<char>,
    f1: Seq<char>,
    f2: Seq<char>,
)
    requires
        r.scope_index(file) == Some(k),
        !declares(r.files[k], name),
        lookup(r.files[k].imports, name) is None,
        !r.search_wildcards(k, name, seq![k], 0).is_success(),
        lookup(r.type_definitions, name) == Some(seq![f1, f2]),
        is_plain_name(name),
    ensures
        ({
            let mp = r.files[k].mod_path;
            &&& !r.is_sibling_file(f1, mp) && !r.is_sibling_file(f2, mp) ==> r.resolve(name, file)
                == Resolution::Ambiguous(seq![f1, f2])
            &&& r.is_sibling_file(f1, mp) && !r.is_sibling_file(f2, mp) ==> r.resolve(name, file)
                == Resolution::Found(f1)
            &&& !r.is_sibling_file(f1, mp) && r.is_sibling_file(f2, mp) ==> r.resolve(name, file)
                == Resolution::Found(f2)
        }),
{
    lemma_scope_index(r, file);
    lemma_split_plain(name);
    let mp = r.files[k].mod_path;
    let locs = seq![f1, f2];
    assert(locs.drop_last() =~= seq![f1]);
    assert(seq![f1].drop_last() =~= Seq::<Seq<char>>::empty());
    let s1 = r.sibling_files(seq![f1], mp);
    assert(r.sibling_files(Seq::empty(), mp) == Seq::<Seq<char>>::empty());
    if r.is_sibling_file(f1, mp) {
        assert(s1 =~= seq![f1]);
    } else {
        assert(s1 =~= Seq::<Seq<char>>::empty());
    }
}

/// A name that no scope records as an alias has no alias target.
pub proof fn lemma_non_alias(r: ResolverModel, name: Seq<char>, file: Seq<char>)
    requires
        forall|i: int| 0 <= i < r.files.len() ==> lookup(#[trigger] r.files[i].type_aliases, name) is None,
    ensures
        r.resolve_alias(name, file) is None,
{
    lemma_scope_index(r, file);
    lemma_no_alias_anywhere(r.files, name, r.files.len() as int);
}

proof fn lemma_no_alias_anywhere(files: Seq<ScopeModel>, name: Seq<char>, n: int)
    requires
        n <= files.len(),
        forall|i: int| 0 <= i < files.len() ==> lookup(#[trigger] files[i].type_aliases, name) is None,
    ensures
        first_alias(files, name, n) is None,
    decreases n,
{
    if n > 0 {
        lemma_no_alias_anywhere(files, name, n - 1);
    }
}

/// Two aliases chained in the querying file (`a2` names `a1`, which names
/// `base`), where `base` is no alias anywhere, lead to `base`.
pub proof fn lemma_alias_two_hops(
    r: ResolverModel,
    file: Seq<char>,
    k: int,
    a2: Seq<char>,
    a1: Seq<char>,
    base: Seq<char>,
)
    requires
        r.scope_index(file) == Some(k),
        lookup(r.files[k].type_aliases, a2) == Some(a1),
        lookup(r.files[k].type_aliases, a1) == Some(base),
        forall|i: int| 0 <= i < r.files.len() ==> lookup(#[trigger] r.files[i].type_aliases, base) is None,
    ensures
        r.resolve_alias(a2, file) == Some(base),
{
    lemma_scope_index(r, file);
    lemma_no_alias_anywhere(r.files, base, r.files.len() as int);
    assert(r.alias_base(base, Some(k)) is None);
    assert(r.chase_alias(base, Some(k), 8) == base);
    assert(r.chase_alias(a1, Some(k), 9) == r.chase_alias(base, Some(k), 8));
}

/// Collecting twice over the same facts gives the same result.
pub proof fn lemma_collect_idempotent(r: ResolverModel, pr: ParseResult, first: CollectionModel, second: CollectionModel)
    requires
        first == collected(r, pr),
        second == collected(r, pr),
    ensures
        first == second,
{
}

/// Whether `ch` is a chain of wildcard imports towards `name`: each scope
/// before the last neither declares nor explicitly imports `name`, and its
/// first wildcard import names the module held by the next scope of `ch`.
pub open spec fn is_wildcard_chain(r: ResolverModel, ch: Seq<int>, name: Seq<char>) -> bool {
    forall|i: int|
        #![trigger ch[i]]
        0 <= i < ch.len() - 1 ==> {
            let sc = r.files[ch[i]];
            &&& !declares(sc, name)
            &&& lookup(sc.imports, name) is None
            &&& sc.wildcard_imports.len() >= 1
            &&& normalize(sc.wildcard_imports[0], sc.mod_path) is Some
            &&& r.module_scope(normalize(sc.wildcard_imports[0], sc.mod_path)->0) == Some(ch[i + 1])
        }
}

proof fn lemma_chain_len(r: ResolverModel, ch: Seq<int>)
    requires
        ch.no_duplicates(),
        forall|i: int| 0 <= i < ch.len() ==> 0 <= #[trigger] ch[i] < r.files.len(),
    ensures
        ch.len() <= r.files.len(),
{
    ch.unique_seq_to_set();
    vstd::set_lib::lemma_int_range(0, r.files.len() as int);
    assert(ch.to_set().subset_of(vstd::set_lib::set_int_range(0, r.files.len() as int)));
    vstd::set_lib::lemma_len_subset(ch.to_set(), vstd::set_lib::set_int_range(0, r.files.len() as int));
}

proof fn lemma_chain_from(r: ResolverModel, ch: Seq<int>, name: Seq<char>, i: int)
    requires
        1 <= i < ch.len(),
        ch.len() <= r.files.len(),
        ch.no_duplicates(),
        forall|j: int| 0 <= j < ch.len() ==> 0 <= #[trigger] ch[j] < r.files.len(),
        is_wildcard_chain(r, ch, name),
        declares(r.files[ch.last()], name),
    ensures
        r.find_in_module(ch[i], name, ch.subrange(0, i)) == Resolution::Found(r.files[ch.last()].path),
    decreases ch.len() - i,
{
    let v = ch.subrange(0, i);
    assert(!v.contains(ch[i])) by {
        if v.contains(ch[i]) {
            let j = choose|j: int| 0 <= j < v.len() && v[j] == ch[i];
            assert(ch[j] == ch[i]);
        }
    }
    let v2 = v.push(ch[i]);
    assert(v2 =~= ch.subrange(0, i + 1));
    if i < ch.len() - 1 {
        lemma_chain_from(r, ch, name, i + 1);
        let sc = r.files[ch[i]];
        assert(!declares(sc, name));
        assert(r.search_wildcards(ch[i], name, v2, 0) == Resolution::Found(r.files[ch.last()].path));
    }
}

/// A bare name that the querying file reaches through a chain of wildcard
/// imports of any depth, where only the last module of the chain declares
/// it, resolves to that module's file.
pub proof fn lemma_wildcard_chain(r: ResolverModel, file: Seq<char>, name: Seq<char>, ch: Seq<int>)
    requires
        ch.len() >= 2,
        r.scope_index(file) == Some(ch[0]),
        ch.no_duplicates(),
        forall|j: int| 0 <= j < ch.len() ==> 0 <= #[trigger] ch[j] < r.files.len(),
        is_wildcard_chain(r, ch, name),
        declares(r.files[ch.last()], name),
        is_plain_name(name),
    ensures
        r.resolve(name, file) == Resolution::Found(r.files[ch.last()].path),
{
    lemma_scope_index(r, file);
    lemma_split_plain(name);
    lemma_chain_len(r, ch);
    lemma_chain_from(r, ch, name, 1);
    assert(ch.subrange(0, 1) =~= seq![ch[0]]);
    let sc = r.files[ch[0]];
    assert(!declares(sc, name));
    assert(r.search_wildcards(ch[0], name, seq![ch[0]], 0) == Resolution::Found(r.files[ch.last()].path));
}

} // verus!
