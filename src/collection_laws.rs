//! What the result of a collection run is, stated without the order in
//! which it is computed: it is closed under references, everything in it is
//! justified by a reference, and each conflict list starts with the name's
//! resolution and repeats no file.

use crate::collector::{
    close, collected, command_refs, count_false, decl_count, decl_file, decl_name, decl_refs, first_ready,
    lemma_count_false_update, lemma_first_ready, note, note_all, reached, record, result_key, seed,
    CollectionModel,
};
use crate::lookup::{keys_of, last_index_of, lemma_last_index_of, lemma_lookup_push, lemma_lookup_update_value, lookup};
use crate::parser::ParseResult;
use crate::resolver::ResolverModel;
use vstd::prelude::*;

verus! {

/// Whether `written`, resolved from `ctx`, reaches a definition, and the
/// pair (name, file) that records it.
pub open spec fn hit(m: ResolverModel, written: Seq<char>, ctx: Seq<char>) -> Option<(Seq<char>, Seq<char>)> {
    let r = m.resolve(written, ctx);
    if r.is_success() {
        Some((result_key(r, written), r.file()))
    } else {
        None
    }
}

/// Whether every reference of `names` that resolves from `ctx` has been found.
pub open spec fn all_reached(m: ResolverModel, c: CollectionModel, names: Seq<Seq<char>>, ctx: Seq<char>) -> bool {
    forall|j: int|
        0 <= j < names.len() ==> (#[trigger] hit(m, names[j], ctx) matches Some(p) ==> reached(c, p.0, p.1))
}

/// Whether each conflict list starts with its name's resolution, has at
/// least two files, and repeats none.
pub open spec fn conflicts_well_formed(c: CollectionModel) -> bool {
    forall|j: int|
        0 <= j < c.conflicts.len() ==> {
            let e = #[trigger] c.conflicts[j];
            &&& e.1.len() >= 2
            &&& e.1.no_duplicates()
            &&& lookup(c.resolved, e.0) == Some(e.1[0])
        }
}

proof fn lemma_record_reaches(c: CollectionModel, k: Seq<char>, f: Seq<char>)
    ensures
        reached(record(c, k, f), k, f),
        forall|n: Seq<char>, g: Seq<char>| #[trigger] reached(c, n, g) ==> reached(record(c, k, f), n, g),
{
    let c2 = record(c, k, f);
    lemma_last_index_of(keys_of(c.conflicts), k);
    match lookup(c.resolved, k) {
        None => {
            assert forall|n: Seq<char>| true implies lookup(c2.resolved, n) == (if k == n { Some(f) } else { lookup(c.resolved, n) }) by {
                lemma_lookup_push(c.resolved, (k, f), n);
            }
            assert forall|n: Seq<char>, g: Seq<char>| #[trigger] reached(c, n, g) implies reached(c2, n, g) by {
                if n == k {
                    assert(lookup(c.resolved, n) != Some(g));
                }
            }
        },
        Some(first) => {
            if first != f {
                match last_index_of(keys_of(c.conflicts), k) {
                    None => {
                        assert forall|n: Seq<char>| true implies lookup(c2.conflicts, n) == (if k == n {
                            Some(seq![first, f])
                        } else {
                            lookup(c.conflicts, n)
                        }) by {
                            lemma_lookup_push(c.conflicts, (k, seq![first, f]), n);
                        }
                        assert(seq![first, f][1] == f);
                        assert forall|n: Seq<char>, g: Seq<char>| #[trigger] reached(c, n, g) implies reached(c2, n, g) by {
                            if n == k && !(lookup(c.resolved, n) == Some(g)) {
                                assert(lookup(c.conflicts, n) is None);
                            }
                        }
                    },
                    Some(i) => {
                        assert(keys_of(c.conflicts)[i] == c.conflicts[i].0);
                        let l = c.conflicts[i].1;
                        assert(lookup(c.conflicts, k) == Some(l));
                        if !l.contains(f) {
                            assert forall|n: Seq<char>| true implies lookup(c2.conflicts, n) == (if k == n {
                                Some(l.push(f))
                            } else {
                                lookup(c.conflicts, n)
                            }) by {
                                lemma_lookup_update_value(c.conflicts, i, l.push(f), n);
                            }
                            assert(l.push(f)[l.len() as int] == f);
                            assert forall|n: Seq<char>, g: Seq<char>| #[trigger] reached(c, n, g) implies reached(c2, n, g) by {
                                if n == k && l.contains(g) {
                                    let x = choose|x: int| 0 <= x < l.len() && l[x] == g;
                                    assert(l.push(f)[x] == g);
                                }
                            }
                        }
                    },
                }
            }
        },
    }
}

proof fn lemma_note_all_reaches(m: ResolverModel, c: CollectionModel, names: Seq<Seq<char>>, ctx: Seq<char>)
    ensures
        all_reached(m, note_all(m, c, names, ctx), names, ctx),
        forall|n: Seq<char>, g: Seq<char>| #[trigger] reached(c, n, g) ==> reached(note_all(m, c, names, ctx), n, g),
    decreases names.len(),
{
    if names.len() > 0 {
        let prev = names.drop_last();
        lemma_note_all_reaches(m, c, prev, ctx);
        let c1 = note_all(m, c, prev, ctx);
        let w = names.last();
        let r = m.resolve(w, ctx);
        if r.is_success() {
            lemma_record_reaches(c1, result_key(r, w), r.file());
        }
        let c2 = note_all(m, c, names, ctx);
        assert(c2 == note(m, c1, w, ctx));
        assert forall|j: int| 0 <= j < names.len() implies (#[trigger] hit(m, names[j], ctx) matches Some(p) ==> reached(c2, p.0, p.1)) by {
            if j < names.len() - 1 {
                assert(names[j] == prev[j]);
                assert(hit(m, prev[j], ctx) matches Some(p) ==> reached(c1, p.0, p.1));
            }
        }
    }
}

/// Recording keeps every conflict list well formed.
proof fn lemma_record_well_formed(c: CollectionModel, k: Seq<char>, f: Seq<char>)
    requires
        conflicts_well_formed(c),
    ensures
        conflicts_well_formed(record(c, k, f)),
{
    let c2 = record(c, k, f);
    lemma_last_index_of(keys_of(c.conflicts), k);
    match lookup(c.resolved, k) {
        None => {
            assert forall|j: int| 0 <= j < c2.conflicts.len() implies {
                let e = #[trigger] c2.conflicts[j];
                &&& e.1.len() >= 2
                &&& e.1.no_duplicates()
                &&& lookup(c2.resolved, e.0) == Some(e.1[0])
            } by {
                let e = c2.conflicts[j];
                lemma_lookup_push(c.resolved, (k, f), e.0);
                assert(lookup(c.resolved, e.0) == Some(e.1[0]));
            }
        },
        Some(first) => {
            if first != f {
                match last_index_of(keys_of(c.conflicts), k) {
                    None => {
                        let l = seq![first, f];
                        assert forall|j: int| 0 <= j < c2.conflicts.len() implies {
                            let e = #[trigger] c2.conflicts[j];
                            &&& e.1.len() >= 2
                            &&& e.1.no_duplicates()
                            &&& lookup(c2.resolved, e.0) == Some(e.1[0])
                        } by {
                            if j == c.conflicts.len() {
                                assert(c2.conflicts[j] == (k, l));
                                assert(l.no_duplicates());
                            } else {
                                assert(c2.conflicts[j] == c.conflicts[j]);
                            }
                        }
                    },
                    Some(i) => {
                        assert(keys_of(c.conflicts)[i] == c.conflicts[i].0);
                        let l = c.conflicts[i].1;
                        if !l.contains(f) {
                            assert forall|j: int| 0 <= j < c2.conflicts.len() implies {
                                let e = #[trigger] c2.conflicts[j];
                                &&& e.1.len() >= 2
                                &&& e.1.no_duplicates()
                                &&& lookup(c2.resolved, e.0) == Some(e.1[0])
                            } by {
                                if j == i {
                                    let e0 = c.conflicts[i];
                                    assert(e0.1.len() >= 2 && e0.1.no_duplicates());
                                    assert(c2.conflicts[j] == (k, l.push(f)));
                                    assert(l.push(f)[0] == l[0]);
                                    assert forall|x: int, y: int| 0 <= x < l.push(f).len() && 0 <= y < l.push(f).len() && x != y
                                        implies l.push(f)[x] != l.push(f)[y] by {
                                        if x == l.len() {
                                            assert(!l.contains(f));
                                        } else if y == l.len() {
                                            assert(!l.contains(f));
                                        }
                                    }
                                } else {
                                    assert(c2.conflicts[j] == c.conflicts[j]);
                                }
                            }
                        }
                    },
                }
            }
        },
    }
}

proof fn lemma_note_all_well_formed(m: ResolverModel, c: CollectionModel, names: Seq<Seq<char>>, ctx: Seq<char>)
    requires
        conflicts_well_formed(c),
    ensures
        conflicts_well_formed(note_all(m, c, names, ctx)),
    decreases names.len(),
{
    if names.len() > 0 {
        lemma_note_all_well_formed(m, c, names.drop_last(), ctx);
        let c1 = note_all(m, c, names.drop_last(), ctx);
        let r = m.resolve(names.last(), ctx);
        if r.is_success() {
            lemma_record_well_formed(c1, result_key(r, names.last()), r.file());
        }
    }
}

/// Whether the seed references of the first `n` commands have been found.
pub open spec fn seeds_reached(m: ResolverModel, pr: ParseResult, c: CollectionModel, n: int) -> bool {
    forall|k: int|
        0 <= k < n ==> all_reached(m, c, command_refs(#[trigger] pr.commands@[k]), pr.commands@[k].source_file@)
}

proof fn lemma_all_reached_kept(m: ResolverModel, c: CollectionModel, c2: CollectionModel, names: Seq<Seq<char>>, ctx: Seq<char>)
    requires
        all_reached(m, c, names, ctx),
        forall|n: Seq<char>, g: Seq<char>| #[trigger] reached(c, n, g) ==> reached(c2, n, g),
    ensures
        all_reached(m, c2, names, ctx),
{
    assert forall|j: int| 0 <= j < names.len() implies (#[trigger] hit(m, names[j], ctx) matches Some(p) ==> reached(c2, p.0, p.1)) by {
        if let Some(p) = hit(m, names[j], ctx) {
            assert(reached(c, p.0, p.1));
        }
    }
}

proof fn lemma_seed(m: ResolverModel, pr: ParseResult, n: int)
    requires
        0 <= n <= pr.commands@.len(),
    ensures
        seeds_reached(m, pr, seed(m, pr.commands@, n), n),
        conflicts_well_formed(seed(m, pr.commands@, n)),
    decreases n,
{
    if n > 0 {
        lemma_seed(m, pr, n - 1);
        let c1 = seed(m, pr.commands@, n - 1);
        let cmd = pr.commands@[n - 1];
        lemma_note_all_reaches(m, c1, command_refs(cmd), cmd.source_file@);
        lemma_note_all_well_formed(m, c1, command_refs(cmd), cmd.source_file@);
        let c2 = seed(m, pr.commands@, n);
        assert forall|k: int| 0 <= k < n implies all_reached(m, c2, command_refs(#[trigger] pr.commands@[k]), pr.commands@[k].source_file@) by {
            if k < n - 1 {
                lemma_all_reached_kept(m, c1, c2, command_refs(pr.commands@[k]), pr.commands@[k].source_file@);
            }
        }
    }
}

/// Whether every expanded declaration has all its references found.
pub open spec fn expansions_reached(m: ResolverModel, pr: ParseResult, c: CollectionModel, expanded: Seq<bool>) -> bool {
    forall|i: int|
        0 <= i < expanded.len() && #[trigger] expanded[i] ==> all_reached(m, c, decl_refs(pr, i), decl_file(pr, i))
}

proof fn lemma_close(m: ResolverModel, pr: ParseResult, c: CollectionModel, expanded: Seq<bool>)
    requires
        expanded.len() == decl_count(pr),
        seeds_reached(m, pr, c, pr.commands@.len() as int),
        conflicts_well_formed(c),
        expansions_reached(m, pr, c, expanded),
    ensures
        seeds_reached(m, pr, close(m, pr, c, expanded), pr.commands@.len() as int),
        conflicts_well_formed(close(m, pr, c, expanded)),
        forall|i: int|
            0 <= i < decl_count(pr) && reached(close(m, pr, c, expanded), decl_name(pr, i), decl_file(pr, i))
                ==> all_reached(m, close(m, pr, c, expanded), #[trigger] decl_refs(pr, i), decl_file(pr, i)),
    decreases count_false(expanded),
{
    lemma_first_ready(pr, c, expanded, 0);
    match first_ready(pr, c, expanded, 0) {
        None => {
            assert forall|i: int|
                0 <= i < decl_count(pr) && reached(c, decl_name(pr, i), decl_file(pr, i)) implies all_reached(
                m,
                c,
                #[trigger] decl_refs(pr, i),
                decl_file(pr, i),
            ) by {
                assert(expanded[i]);
            }
        },
        Some(i) => {
            lemma_count_false_update(expanded, i);
            let c2 = note_all(m, c, decl_refs(pr, i), decl_file(pr, i));
            let e2 = expanded.update(i, true);
            lemma_note_all_reaches(m, c, decl_refs(pr, i), decl_file(pr, i));
            lemma_note_all_well_formed(m, c, decl_refs(pr, i), decl_file(pr, i));
            assert forall|k: int| 0 <= k < pr.commands@.len() implies all_reached(m, c2, command_refs(#[trigger] pr.commands@[k]), pr.commands@[k].source_file@) by {
                lemma_all_reached_kept(m, c, c2, command_refs(pr.commands@[k]), pr.commands@[k].source_file@);
            }
            assert forall|j: int| 0 <= j < e2.len() && #[trigger] e2[j] implies all_reached(m, c2, decl_refs(pr, j), decl_file(pr, j)) by {
                if j != i {
                    lemma_all_reached_kept(m, c, c2, decl_refs(pr, j), decl_file(pr, j));
                }
            }
            lemma_close(m, pr, c2, e2);
        },
    }
}

/// The result of a collection run is closed under references: every
/// reference in a command's signature that resolves, from the command's
/// file, is found (as its name's resolution or in the name's conflict
/// list); and so is every reference in the fields or payloads of a found
/// declaration that resolves from the declaration's file. Each conflict list
/// starts with the name's resolution, holds at least two files, and repeats
/// none.
pub proof fn lemma_collected_closed(m: ResolverModel, pr: ParseResult)
    ensures
        forall|k: int|
            0 <= k < pr.commands@.len() ==> all_reached(
                m,
                collected(m, pr),
                command_refs(#[trigger] pr.commands@[k]),
                pr.commands@[k].source_file@,
            ),
        forall|i: int|
            0 <= i < decl_count(pr) && reached(collected(m, pr), decl_name(pr, i), decl_file(pr, i))
                ==> all_reached(m, collected(m, pr), #[trigger] decl_refs(pr, i), decl_file(pr, i)),
        conflicts_well_formed(collected(m, pr)),
{
    let n = pr.commands@.len() as int;
    lemma_seed(m, pr, n);
    let e = Seq::new(decl_count(pr) as nat, |i: int| false);
    lemma_close(m, pr, seed(m, pr.commands@, n), e);
}

/// Whether `(n, f)` is what a reference of some command's signature
/// resolves to.
pub open spec fn seeded(m: ResolverModel, pr: ParseResult, n: Seq<char>, f: Seq<char>) -> bool {
    exists|k: int, j: int|
        0 <= k < pr.commands@.len() && 0 <= j < command_refs(pr.commands@[k]).len() && #[trigger] hit(
            m,
            command_refs(pr.commands@[k])[j],
            pr.commands@[k].source_file@,
        ) == Some((n, f))
}

/// Whether `(n, f)` is what a reference in the fields or payloads of
/// declaration `i` resolves to.
pub open spec fn referenced_by(m: ResolverModel, pr: ParseResult, i: int, n: Seq<char>, f: Seq<char>) -> bool {
    exists|j: int| 0 <= j < decl_refs(pr, i).len() && #[trigger] hit(m, decl_refs(pr, i)[j], decl_file(pr, i)) == Some((n, f))
}

proof fn lemma_record_only(c: CollectionModel, k: Seq<char>, f: Seq<char>, n: Seq<char>, g: Seq<char>)
    ensures
        reached(record(c, k, f), n, g) ==> reached(c, n, g) || (n == k && g == f),
{
    let c2 = record(c, k, f);
    lemma_last_index_of(keys_of(c.conflicts), k);
    match lookup(c.resolved, k) {
        None => {
            lemma_lookup_push(c.resolved, (k, f), n);
        },
        Some(first) => {
            if first != f {
                match last_index_of(keys_of(c.conflicts), k) {
                    None => {
                        lemma_lookup_push(c.conflicts, (k, seq![first, f]), n);
                        if n == k && seq![first, f].contains(g) && g != f {
                            let x = choose|x: int| 0 <= x < 2 && seq![first, f][x] == g;
                            assert(x == 0);
                        }
                    },
                    Some(i) => {
                        assert(keys_of(c.conflicts)[i] == c.conflicts[i].0);
                        let l = c.conflicts[i].1;
                        assert(lookup(c.conflicts, k) == Some(l));
                        if !l.contains(f) {
                            lemma_lookup_update_value(c.conflicts, i, l.push(f), n);
                            if n == k && l.push(f).contains(g) && g != f {
                                let x = choose|x: int| 0 <= x < l.len() + 1 && l.push(f)[x] == g;
                                assert(l[x] == g);
                            }
                        }
                    },
                }
            }
        },
    }
}

proof fn lemma_note_all_only(m: ResolverModel, c: CollectionModel, names: Seq<Seq<char>>, ctx: Seq<char>, n: Seq<char>, g: Seq<char>)
    ensures
        reached(note_all(m, c, names, ctx), n, g) ==> reached(c, n, g) || exists|j: int|
            0 <= j < names.len() && #[trigger] hit(m, names[j], ctx) == Some((n, g)),
    decreases names.len(),
{
    if names.len() > 0 {
        let prev = names.drop_last();
        lemma_note_all_only(m, c, prev, ctx, n, g);
        let c1 = note_all(m, c, prev, ctx);
        let w = names.last();
        let r = m.resolve(w, ctx);
        if r.is_success() {
            lemma_record_only(c1, result_key(r, w), r.file(), n, g);
        }
        if reached(note_all(m, c, names, ctx), n, g) && !reached(c, n, g) {
            if reached(c1, n, g) {
                let j = choose|j: int| 0 <= j < prev.len() && #[trigger] hit(m, prev[j], ctx) == Some((n, g));
                assert(names[j] == prev[j]);
            } else {
                assert(hit(m, names[names.len() - 1], ctx) == Some((n, g)));
            }
        }
    }
}

proof fn lemma_seed_only(m: ResolverModel, pr: ParseResult, n: int, x: Seq<char>, y: Seq<char>)
    requires
        0 <= n <= pr.commands@.len(),
    ensures
        reached(seed(m, pr.commands@, n), x, y) ==> seeded(m, pr, x, y),
    decreases n,
{
    if n > 0 {
        lemma_seed_only(m, pr, n - 1, x, y);
        let c1 = seed(m, pr.commands@, n - 1);
        let cmd = pr.commands@[n - 1];
        lemma_note_all_only(m, c1, command_refs(cmd), cmd.source_file@, x, y);
        if reached(seed(m, pr.commands@, n), x, y) && !reached(c1, x, y) {
            let j = choose|j: int| 0 <= j < command_refs(cmd).len() && #[trigger] hit(m, command_refs(cmd)[j], cmd.source_file@) == Some((x, y));
            assert(hit(m, command_refs(pr.commands@[n - 1])[j], pr.commands@[n - 1].source_file@) == Some((x, y)));
        }
    }
}

/// Whether every found pair is justified: by a command's signature, or by a
/// declaration already expanded, and every expanded declaration is found.
pub open spec fn justified(m: ResolverModel, pr: ParseResult, c: CollectionModel, expanded: Seq<bool>) -> bool {
    &&& forall|n: Seq<char>, g: Seq<char>|
        #[trigger] reached(c, n, g) ==> seeded(m, pr, n, g) || exists|i: int|
            0 <= i < expanded.len() && expanded[i] && #[trigger] referenced_by(m, pr, i, n, g)
    &&& forall|i: int| 0 <= i < expanded.len() && #[trigger] expanded[i] ==> reached(c, decl_name(pr, i), decl_file(pr, i))
}

proof fn lemma_expand_justified(m: ResolverModel, pr: ParseResult, c: CollectionModel, expanded: Seq<bool>, i: int)
    requires
        expanded.len() == decl_count(pr),
        0 <= i < expanded.len(),
        !expanded[i],
        reached(c, decl_name(pr, i), decl_file(pr, i)),
        justified(m, pr, c, expanded),
    ensures
        justified(
            m,
            pr,
            note_all(m, c, decl_refs(pr, i), decl_file(pr, i)),
            expanded.update(i, true),
        ),
{
    let names = decl_refs(pr, i);
    let ctx = decl_file(pr, i);
    let c2 = note_all(m, c, names, ctx);
    let e2 = expanded.update(i, true);
    lemma_note_all_reaches(m, c, names, ctx);
    assert forall|n: Seq<char>, g: Seq<char>| #[trigger] reached(c2, n, g) implies seeded(m, pr, n, g) || exists|k: int|
        0 <= k < e2.len() && e2[k] && #[trigger] referenced_by(m, pr, k, n, g) by {
        lemma_note_all_only(m, c, names, ctx, n, g);
        if reached(c, n, g) {
            if !seeded(m, pr, n, g) {
                let k = choose|k: int| 0 <= k < expanded.len() && expanded[k] && #[trigger] referenced_by(m, pr, k, n, g);
                assert(e2[k]);
            }
        } else {
            let j = choose|j: int| 0 <= j < names.len() && #[trigger] hit(m, names[j], ctx) == Some((n, g));
            assert(referenced_by(m, pr, i, n, g));
            assert(e2[i]);
        }
    }
    assert forall|k: int| 0 <= k < e2.len() && #[trigger] e2[k] implies reached(c2, decl_name(pr, k), decl_file(pr, k)) by {
        if k != i {
            assert(expanded[k]);
        }
    }
}

/// Where no reached declaration is left to expand, justification by an
/// expanded declaration is justification by a found one.
proof fn lemma_justified_done(m: ResolverModel, pr: ParseResult, c: CollectionModel, expanded: Seq<bool>)
    requires
        expanded.len() == decl_count(pr),
        justified(m, pr, c, expanded),
    ensures
        forall|n: Seq<char>, g: Seq<char>|
            #[trigger] reached(c, n, g) ==> seeded(m, pr, n, g) || exists|i: int|
                0 <= i < decl_count(pr) && reached(c, decl_name(pr, i), decl_file(pr, i))
                    && #[trigger] referenced_by(m, pr, i, n, g),
{
    assert forall|n: Seq<char>, g: Seq<char>| #[trigger] reached(c, n, g) implies seeded(m, pr, n, g) || exists|i: int|
        0 <= i < decl_count(pr) && reached(c, decl_name(pr, i), decl_file(pr, i)) && #[trigger] referenced_by(m, pr, i, n, g) by {
        if !seeded(m, pr, n, g) {
            let i = choose|i: int| 0 <= i < expanded.len() && expanded[i] && #[trigger] referenced_by(m, pr, i, n, g);
            assert(reached(c, decl_name(pr, i), decl_file(pr, i)));
        }
    }
}

proof fn lemma_close_only(m: ResolverModel, pr: ParseResult, c: CollectionModel, expanded: Seq<bool>)
    requires
        expanded.len() == decl_count(pr),
        justified(m, pr, c, expanded),
    ensures
        forall|n: Seq<char>, g: Seq<char>|
            #[trigger] reached(close(m, pr, c, expanded), n, g) ==> seeded(m, pr, n, g) || exists|i: int|
                0 <= i < decl_count(pr) && reached(close(m, pr, c, expanded), decl_name(pr, i), decl_file(pr, i))
                    && #[trigger] referenced_by(m, pr, i, n, g),
    decreases count_false(expanded),
{
    lemma_first_ready(pr, c, expanded, 0);
    match first_ready(pr, c, expanded, 0) {
        None => {
            lemma_justified_done(m, pr, c, expanded);
        },
        Some(i) => {
            lemma_count_false_update(expanded, i);
            lemma_expand_justified(m, pr, c, expanded, i);
            let c2 = note_all(m, c, decl_refs(pr, i), decl_file(pr, i));
            let e2 = expanded.update(i, true);
            lemma_close_only(m, pr, c2, e2);
            assert(close(m, pr, c, expanded) == close(m, pr, c2, e2));
        },
    }
}

/// Everything in the result of a collection run is justified: each found
/// pair (name, file) is what a reference of some command's signature
/// resolves to, or what a reference in the fields or payloads of some found
/// declaration resolves to.
pub proof fn lemma_collected_justified(m: ResolverModel, pr: ParseResult)
    ensures
        forall|n: Seq<char>, g: Seq<char>|
            #[trigger] reached(collected(m, pr), n, g) ==> seeded(m, pr, n, g) || exists|i: int|
                0 <= i < decl_count(pr) && reached(collected(m, pr), decl_name(pr, i), decl_file(pr, i))
                    && #[trigger] referenced_by(m, pr, i, n, g),
{
    let k = pr.commands@.len() as int;
    let c = seed(m, pr.commands@, k);
    let e = Seq::new(decl_count(pr) as nat, |i: int| false);
    assert forall|n: Seq<char>, g: Seq<char>| #[trigger] reached(c, n, g) implies seeded(m, pr, n, g) || exists|i: int|
        0 <= i < e.len() && e[i] && #[trigger] referenced_by(m, pr, i, n, g) by {
        lemma_seed_only(m, pr, k, n, g);
    }
    lemma_close_only(m, pr, c, e);
}

} // verus!
