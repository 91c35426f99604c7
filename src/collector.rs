//! The usage collector: every declared type reachable from an exported
//! signature, each with its defining file, and the names that reach more
//! than one definition.

use crate::collection_laws::{
    all_reached, conflicts_well_formed, lemma_collected_closed, lemma_collected_justified, referenced_by, seeded,
};
use crate::lookup::{keys_of, last_index_of, lemma_last_index_of, lookup};
use crate::parser::{
    add_names, custom_refs, lemma_add_names_concat, list_refs, CommandArg, EnumVariant,
    ParseResult, RustType, StructField, TauriCommand, VariantData,
};
use crate::paths::{clone_segs, contains_segment, segs_of, split_path, split_type_path};
use crate::resolver::{
    find_last, str_keys, ModuleResolver, Resolution, ResolutionResult, ResolverModel,
};
use vstd::prelude::*;

verus! {

/// The outcome of a collection run.
#[derive(Debug)]
pub struct TypeCollectionResult {
    /// Each reachable type name with the file of its definition.
    pub resolved: Vec<(String, String)>,
    /// Each name that reached more than one definition, with all of their
    /// files in the order met.
    pub conflicts: Vec<(String, Vec<String>)>,
}

#[verifier::ext_equal]
pub struct CollectionModel {
    pub resolved: Seq<(Seq<char>, Seq<char>)>,
    pub conflicts: Seq<(Seq<char>, Seq<Seq<char>>)>,
}

impl View for TypeCollectionResult {
    type V = CollectionModel;

    open spec fn view(&self) -> CollectionModel {
        CollectionModel {
            resolved: self.resolved@.map_values(|e: (String, String)| (e.0@, e.1@)),
            conflicts: self.conflicts@.map_values(|e: (String, Vec<String>)| (e.0@, segs_of(e.1))),
        }
    }
}

pub open spec fn empty_collection() -> CollectionModel {
    CollectionModel { resolved: seq![], conflicts: seq![] }
}

/// The name under which a successful resolution of the written path is
/// recorded: that of the declaration it reached.
pub open spec fn result_key(r: Resolution, written: Seq<char>) -> Seq<char> {
    match r {
        Resolution::FoundWithAlias(_, original) => original,
        _ => split_path(written).last(),
    }
}

/// Records that `key` was found defined in `file`: the first file found for
/// a name is its resolution; a different one starts, or extends, the name's
/// conflict list, which begins with the first file and holds no repeats.
pub open spec fn record(c: CollectionModel, key: Seq<char>, file: Seq<char>) -> CollectionModel {
    match lookup(c.resolved, key) {
        None => CollectionModel { resolved: c.resolved.push((key, file)), ..c },
        Some(first) => if first == file {
            c
        } else {
            match last_index_of(keys_of(c.conflicts), key) {
                None => CollectionModel { conflicts: c.conflicts.push((key, seq![first, file])), ..c },
                Some(i) => if c.conflicts[i].1.contains(file) {
                    c
                } else {
                    CollectionModel { conflicts: c.conflicts.update(i, (key, c.conflicts[i].1.push(file))), ..c }
                },
            }
        },
    }
}

/// Resolves the written path in `ctx` and records a success; a name that is
/// not found or ambiguous leaves the collection as it is.
pub open spec fn note(m: ResolverModel, c: CollectionModel, written: Seq<char>, ctx: Seq<char>) -> CollectionModel {
    let r = m.resolve(written, ctx);
    if r.is_success() {
        record(c, result_key(r, written), r.file())
    } else {
        c
    }
}

/// `note` for each of `names` in turn.
pub open spec fn note_all(m: ResolverModel, c: CollectionModel, names: Seq<Seq<char>>, ctx: Seq<char>) -> CollectionModel
    decreases names.len(),
{
    if names.len() == 0 {
        c
    } else {
        note(m, note_all(m, c, names.drop_last(), ctx), names.last(), ctx)
    }
}

pub proof fn lemma_note_all_concat(m: ResolverModel, c: CollectionModel, a: Seq<Seq<char>>, b: Seq<Seq<char>>, ctx: Seq<char>)
    ensures
        note_all(m, c, a + b, ctx) == note_all(m, note_all(m, c, a, ctx), b, ctx),
    decreases b.len(),
{
    if b.len() == 0 {
        assert(a + b =~= a);
    } else {
        assert((a + b).drop_last() =~= a + b.drop_last());
        lemma_note_all_concat(m, c, a, b.drop_last(), ctx);
    }
}

/// The references of the first `n` arguments.
pub open spec fn args_refs(args: Seq<CommandArg>, n: int) -> Seq<Seq<char>>
    decreases n,
{
    if n <= 0 {
        seq![]
    } else {
        args_refs(args, n - 1) + custom_refs(args[n - 1].ty)
    }
}

/// The references of a command's signature: its arguments, then its return
/// type.
pub open spec fn command_refs(cmd: TauriCommand) -> Seq<Seq<char>> {
    args_refs(cmd.args@, cmd.args@.len() as int) + match cmd.return_type {
        Some(t) => custom_refs(t),
        None => seq![],
    }
}

/// The collection after the signatures of the first `n` commands, each
/// resolved in its own file.
pub open spec fn seed(m: ResolverModel, cmds: Seq<TauriCommand>, n: int) -> CollectionModel
    decreases n,
{
    if n <= 0 {
        empty_collection()
    } else {
        note_all(m, seed(m, cmds, n - 1), command_refs(cmds[n - 1]), cmds[n - 1].source_file@)
    }
}

/// The names a field list refers to: for each field, its references
/// without repeats.
pub open spec fn fields_refs(fields: Seq<StructField>, n: int) -> Seq<Seq<char>>
    decreases n,
{
    if n <= 0 {
        seq![]
    } else {
        fields_refs(fields, n - 1) + add_names(seq![], custom_refs(fields[n - 1].ty))
    }
}

/// The names a list of payload types refers to, each type without repeats.
pub open spec fn types_refs(ts: Seq<RustType>, n: int) -> Seq<Seq<char>>
    decreases n,
{
    if n <= 0 {
        seq![]
    } else {
        types_refs(ts, n - 1) + add_names(seq![], custom_refs(ts[n - 1]))
    }
}

pub open spec fn variant_refs(v: EnumVariant) -> Seq<Seq<char>> {
    match v.data {
        VariantData::Unit => seq![],
        VariantData::Tuple(ts) => types_refs(ts@, ts@.len() as int),
        VariantData::Struct(fs) => fields_refs(fs@, fs@.len() as int),
    }
}

pub open spec fn variants_refs(vs: Seq<EnumVariant>, n: int) -> Seq<Seq<char>>
    decreases n,
{
    if n <= 0 {
        seq![]
    } else {
        variants_refs(vs, n - 1) + variant_refs(vs[n - 1])
    }
}

/// Declarations are numbered: the structs first, then the enums.
pub open spec fn decl_count(pr: ParseResult) -> int {
    (pr.structs@.len() + pr.enums@.len()) as int
}

pub open spec fn decl_name(pr: ParseResult, i: int) -> Seq<char> {
    if i < pr.structs@.len() {
        pr.structs@[i].name@
    } else {
        pr.enums@[i - pr.structs@.len()].name@
    }
}

pub open spec fn decl_file(pr: ParseResult, i: int) -> Seq<char> {
    if i < pr.structs@.len() {
        pr.structs@[i].source_file@
    } else {
        pr.enums@[i - pr.structs@.len()].source_file@
    }
}

/// The names that declaration `i` refers to in its fields or payloads.
pub open spec fn decl_refs(pr: ParseResult, i: int) -> Seq<Seq<char>> {
    if i < pr.structs@.len() {
        let f = pr.structs@[i].fields@;
        fields_refs(f, f.len() as int)
    } else {
        let v = pr.enums@[i - pr.structs@.len()].variants@;
        variants_refs(v, v.len() as int)
    }
}

/// Whether `(name, file)` has been found: as the resolution of the name or
/// in its conflict list.
pub open spec fn reached(c: CollectionModel, name: Seq<char>, file: Seq<char>) -> bool {
    lookup(c.resolved, name) == Some(file) || (lookup(c.conflicts, name) matches Some(l) && l.contains(file))
}

/// The first declaration, from the `i`-th on, that has been reached and not
/// yet expanded.
pub open spec fn first_ready(pr: ParseResult, c: CollectionModel, expanded: Seq<bool>, i: int) -> Option<int>
    decreases expanded.len() - i,
{
    if i < 0 || i >= expanded.len() {
        None
    } else if !expanded[i] && reached(c, decl_name(pr, i), decl_file(pr, i)) {
        Some(i)
    } else {
        first_ready(pr, c, expanded, i + 1)
    }
}

pub open spec fn count_false(s: Seq<bool>) -> nat
    decreases s.len(),
{
    if s.len() == 0 {
        0
    } else {
        count_false(s.drop_last()) + if s.last() {
            0nat
        } else {
            1nat
        }
    }
}

pub proof fn lemma_count_false_update(s: Seq<bool>, i: int)
    requires
        0 <= i < s.len(),
        !s[i],
    ensures
        count_false(s.update(i, true)) + 1 == count_false(s),
    decreases s.len(),
{
    let t = s.update(i, true);
    if i < s.len() - 1 {
        assert(t.drop_last() =~= s.drop_last().update(i, true));
        lemma_count_false_update(s.drop_last(), i);
    } else {
        assert(t.drop_last() =~= s.drop_last());
    }
}

pub proof fn lemma_first_ready(pr: ParseResult, c: CollectionModel, expanded: Seq<bool>, i: int)
    ensures
        first_ready(pr, c, expanded, i) matches Some(k) ==> i <= k < expanded.len() && !expanded[k]
            && reached(c, decl_name(pr, k), decl_file(pr, k)),
        first_ready(pr, c, expanded, i) is None ==> forall|k: int|
            #![trigger expanded[k]]
            0 <= i <= k < expanded.len() ==> expanded[k] || !reached(c, decl_name(pr, k), decl_file(pr, k)),
    decreases expanded.len() - i,
{
    if 0 <= i < expanded.len() {
        lemma_first_ready(pr, c, expanded, i + 1);
    }
}

#[via_fn]
proof fn close_decreases(m: ResolverModel, pr: ParseResult, c: CollectionModel, expanded: Seq<bool>) {
    if let Some(i) = first_ready(pr, c, expanded, 0) {
        lemma_first_ready(pr, c, expanded, 0);
        lemma_count_false_update(expanded, i);
    }
}

/// The closure: the first reached declaration not yet expanded is expanded
/// (the references of its fields are noted, resolved in the declaration's
/// own file), until every reached declaration has been.
pub open spec fn close(m: ResolverModel, pr: ParseResult, c: CollectionModel, expanded: Seq<bool>) -> CollectionModel
    decreases count_false(expanded)
    via close_decreases

{
    match first_ready(pr, c, expanded, 0) {
        None => c,
        Some(i) => close(m, pr, note_all(m, c, decl_refs(pr, i), decl_file(pr, i)), expanded.update(i, true)),
    }
}

/// The result of a collection run over the extracted facts.
pub open spec fn collected(m: ResolverModel, pr: ParseResult) -> CollectionModel {
    close(
        m,
        pr,
        seed(m, pr.commands@, pr.commands@.len() as int),
        Seq::new(decl_count(pr) as nat, |i: int| false),
    )
}

impl TypeCollectionResult {
    /// An empty collection.
    pub fn new() -> (r: Self)
        ensures
            r@ == empty_collection(),
    {
        let r = TypeCollectionResult { resolved: Vec::new(), conflicts: Vec::new() };
        assert(r@ =~= empty_collection());
        r
    }

    /// Records that `key` was found defined in `file`.
    pub fn record(&mut self, key: String, file: String)
        ensures
            final(self)@ == record(old(self)@, key@, file@),
    {
        let ghost c = self@;
        proof {
            assert(keys_of(c.resolved) =~= str_keys(self.resolved@));
            assert(keys_of(c.conflicts) =~= str_keys(self.conflicts@));
            lemma_last_index_of(keys_of(c.resolved), key@);
            lemma_last_index_of(keys_of(c.conflicts), key@);
        }
        match find_last(&self.resolved, key.as_str()) {
            None => {
                self.resolved.push((key, file));
                assert(self@ =~= record(c, key@, file@));
            },
            Some(i) => {
                assert(c.resolved[i as int].1 == self.resolved@[i as int].1@);
                if self.resolved[i].1 == file {
                    return;
                }
                match find_last(&self.conflicts, key.as_str()) {
                    None => {
                        let mut list: Vec<String> = Vec::new();
                        list.push(self.resolved[i].1.clone());
                        list.push(file);
                        assert(segs_of(list) =~= seq![c.resolved[i as int].1, file@]);
                        self.conflicts.push((key, list));
                        assert(self@ =~= record(c, key@, file@));
                    },
                    Some(j) => {
                        assert(c.conflicts[j as int].1 == segs_of(self.conflicts@[j as int].1));
                        if contains_segment(&self.conflicts[j].1, &file) {
                            return;
                        }
                        let mut list = clone_segs(&self.conflicts[j].1);
                        let ghost before = segs_of(list);
                        let ghost f = file@;
                        list.push(file);
                        assert(segs_of(list) =~= before.push(f));
                        self.conflicts.set(j, (key, list));
                        assert(self@ =~= record(c, key@, f));
                    },
                }
            },
        }
    }
}

/// Resolves `written` in `ctx` and records a success.
fn note_exec(resolver: &ModuleResolver, c: &mut TypeCollectionResult, written: &String, ctx: &String)
    ensures
        final(c)@ == note(resolver@, old(c)@, written@, ctx@),
{
    let r = resolver.resolve_type(written.as_str(), ctx.as_str());
    match r {
        ResolutionResult::Found(file) => {
            let segs = split_type_path(written.as_str());
            let n = segs.len();
            assert(split_path(written@).last() == segs@[n - 1]@);
            c.record(segs[n - 1].clone(), file);
        },
        ResolutionResult::FoundWithAlias(file, original) => {
            c.record(original, file);
        },
        _ => {},
    }
}

/// Notes every name of `names`, in order, as written in `ctx`.
fn note_names(resolver: &ModuleResolver, c: &mut TypeCollectionResult, names: &Vec<String>, ctx: &String)
    ensures
        final(c)@ == note_all(resolver@, old(c)@, segs_of(*names), ctx@),
{
    let ghost c0 = c@;
    let mut i: usize = 0;
    assert(segs_of(*names).subrange(0, 0) =~= Seq::<Seq<char>>::empty());
    while i < names.len()
        invariant
            i <= names.len(),
            c@ == note_all(resolver@, c0, segs_of(*names).subrange(0, i as int), ctx@),
        decreases names.len() - i,
    {
        note_exec(resolver, c, &names[i], ctx);
        assert(segs_of(*names).subrange(0, i + 1).drop_last() =~= segs_of(*names).subrange(0, i as int));
        i = i + 1;
    }
    assert(segs_of(*names).subrange(0, names.len() as int) =~= segs_of(*names));
}

/// Resolves, in `from_file`, every declared type that `ty` refers to, and
/// records each success.
pub fn collect_types_with_resolver(ty: &RustType, from_file: &String, resolver: &ModuleResolver, c: &mut TypeCollectionResult)
    ensures
        final(c)@ == note_all(resolver@, old(c)@, custom_refs(*ty), from_file@),
    decreases ty,
{
    let ghost c0 = c@;
    match ty {
        RustType::Custom(name) => {
            note_exec(resolver, c, name, from_file);
            assert(seq![name@].drop_last() =~= Seq::<Seq<char>>::empty());
            assert(seq![name@].last() == name@);
            assert(custom_refs(*ty) == seq![name@]);
            assert(note_all(resolver@, c0, Seq::<Seq<char>>::empty(), from_file@) == c0);
            assert(note_all(resolver@, c0, seq![name@], from_file@) == note(resolver@, c0, name@, from_file@));
        },
        RustType::Vec(inner) => collect_types_with_resolver(inner, from_file, resolver, c),
        RustType::Option(inner) => collect_types_with_resolver(inner, from_file, resolver, c),
        RustType::Result(ok) => collect_types_with_resolver(ok, from_file, resolver, c),
        RustType::HashMap { key, value } => {
            collect_types_with_resolver(key, from_file, resolver, c);
            collect_types_with_resolver(value, from_file, resolver, c);
            proof {
                lemma_note_all_concat(resolver@, c0, custom_refs(**key), custom_refs(**value), from_file@);
            }
        },
        RustType::Tuple(ts) => {
            let mut i: usize = 0;
            while i < ts.len()
                invariant
                    i <= ts.len(),
                    *ty == RustType::Tuple(*ts),
                    c@ == note_all(resolver@, c0, list_refs(*ts, i as int), from_file@),
                decreases ts.len() - i,
            {
                proof {
                    assert(decreases_to!(*ts => ts[i as int]));
                    assert(decreases_to!(*ty => (*ty)->Tuple_0));
                    assert(decreases_to!(*ty => ts[i as int]));
                }
                let ghost mid = c@;
                collect_types_with_resolver(&ts[i], from_file, resolver, c);
                proof {
                    lemma_note_all_concat(resolver@, c0, list_refs(*ts, i as int), custom_refs(ts@[i as int]), from_file@);
                }
                i = i + 1;
            }
        },
        _ => {},
    }
}

/// Appends to `types` each declared type that `ty` refers to and that
/// `types` does not hold yet, in the order met.
pub fn collect_custom_types_recursive(ty: &RustType, types: &mut Vec<String>)
    ensures
        segs_of(*final(types)) == add_names(segs_of(*old(types)), custom_refs(*ty)),
    decreases ty,
{
    let ghost t0 = segs_of(*types);
    match ty {
        RustType::Custom(name) => {
            assert(seq![name@].drop_last() =~= Seq::<Seq<char>>::empty());
            assert(seq![name@].last() == name@);
            assert(custom_refs(*ty) == seq![name@]);
            assert(add_names(t0, Seq::<Seq<char>>::empty()) == t0);
            assert(add_names(t0, seq![name@]) == if t0.contains(name@) { t0 } else { t0.push(name@) });
            if !contains_segment(types, name) {
                let ghost before = segs_of(*types);
                types.push(name.clone());
                assert(segs_of(*types) =~= before.push(name@));
            }
        },
        RustType::Vec(inner) => collect_custom_types_recursive(inner, types),
        RustType::Option(inner) => collect_custom_types_recursive(inner, types),
        RustType::Result(ok) => collect_custom_types_recursive(ok, types),
        RustType::HashMap { key, value } => {
            collect_custom_types_recursive(key, types);
            collect_custom_types_recursive(value, types);
            proof {
                lemma_add_names_concat(t0, custom_refs(**key), custom_refs(**value));
            }
        },
        RustType::Tuple(ts) => {
            let mut i: usize = 0;
            while i < ts.len()
                invariant
                    i <= ts.len(),
                    *ty == RustType::Tuple(*ts),
                    segs_of(*types) == add_names(t0, list_refs(*ts, i as int)),
                decreases ts.len() - i,
            {
                proof {
                    assert(decreases_to!(*ts => ts[i as int]));
                    assert(decreases_to!(*ty => (*ty)->Tuple_0));
                    assert(decreases_to!(*ty => ts[i as int]));
                }
                collect_custom_types_recursive(&ts[i], types);
                proof {
                    lemma_add_names_concat(t0, list_refs(*ts, i as int), custom_refs(ts@[i as int]));
                }
                i = i + 1;
            }
        },
        _ => {},
    }
}

/// The declared types that `ty` refers to, without repeats, in the order met.
pub fn collect_custom_types_from_rust_type(ty: &RustType) -> (r: Vec<String>)
    ensures
        segs_of(r) == add_names(seq![], custom_refs(*ty)),
{
    let mut types: Vec<String> = Vec::new();
    assert(segs_of(types) =~= Seq::<Seq<char>>::empty());
    collect_custom_types_recursive(ty, &mut types);
    types
}

/// Notes the references of each field, each field's without repeats.
fn note_fields(resolver: &ModuleResolver, c: &mut TypeCollectionResult, fields: &Vec<StructField>, file: &String)
    ensures
        final(c)@ == note_all(resolver@, old(c)@, fields_refs(fields@, fields@.len() as int), file@),
{
    let ghost c0 = c@;
    let mut j: usize = 0;
    while j < fields.len()
        invariant
            j <= fields.len(),
            c@ == note_all(resolver@, c0, fields_refs(fields@, j as int), file@),
        decreases fields.len() - j,
    {
        let names = collect_custom_types_from_rust_type(&fields[j].ty);
        note_names(resolver, c, &names, file);
        proof {
            lemma_note_all_concat(resolver@, c0, fields_refs(fields@, j as int), segs_of(names), file@);
        }
        j = j + 1;
    }
}

/// Notes the references of each payload type, each type's without repeats.
fn note_types(resolver: &ModuleResolver, c: &mut TypeCollectionResult, ts: &Vec<RustType>, file: &String)
    ensures
        final(c)@ == note_all(resolver@, old(c)@, types_refs(ts@, ts@.len() as int), file@),
{
    let ghost c0 = c@;
    let mut j: usize = 0;
    while j < ts.len()
        invariant
            j <= ts.len(),
            c@ == note_all(resolver@, c0, types_refs(ts@, j as int), file@),
        decreases ts.len() - j,
    {
        let names = collect_custom_types_from_rust_type(&ts[j]);
        note_names(resolver, c, &names, file);
        proof {
            lemma_note_all_concat(resolver@, c0, types_refs(ts@, j as int), segs_of(names), file@);
        }
        j = j + 1;
    }
}

/// Expands declaration `i`: notes what its fields or variant payloads refer
/// to, resolved in the declaration's own file.
fn expand_decl(pr: &ParseResult, resolver: &ModuleResolver, c: &mut TypeCollectionResult, i: usize)
    requires
        i < decl_count(*pr),
    ensures
        final(c)@ == note_all(resolver@, old(c)@, decl_refs(*pr, i as int), decl_file(*pr, i as int)),
{
    if i < pr.structs.len() {
        let st = &pr.structs[i];
        note_fields(resolver, c, &st.fields, &st.source_file);
    } else {
        let en = &pr.enums[i - pr.structs.len()];
        let ghost c0 = c@;
        let mut j: usize = 0;
        while j < en.variants.len()
            invariant
                j <= en.variants.len(),
                c@ == note_all(resolver@, c0, variants_refs(en.variants@, j as int), en.source_file@),
            decreases en.variants.len() - j,
        {
            let ghost mid = c@;
            match &en.variants[j].data {
                VariantData::Unit => {
                    assert(variant_refs(en.variants@[j as int]) =~= Seq::<Seq<char>>::empty());
                    assert(variants_refs(en.variants@, j + 1) =~= variants_refs(en.variants@, j as int));
                },
                VariantData::Tuple(ts) => {
                    note_types(resolver, c, ts, &en.source_file);
                    proof {
                        lemma_note_all_concat(resolver@, c0, variants_refs(en.variants@, j as int), variant_refs(en.variants@[j as int]), en.source_file@);
                    }
                },
                VariantData::Struct(fs) => {
                    note_fields(resolver, c, fs, &en.source_file);
                    proof {
                        lemma_note_all_concat(resolver@, c0, variants_refs(en.variants@, j as int), variant_refs(en.variants@[j as int]), en.source_file@);
                    }
                },
            }
            j = j + 1;
        }
    }
}

/// Whether `(name, file)` has been found.
fn reached_exec(c: &TypeCollectionResult, name: &String, file: &String) -> (r: bool)
    ensures
        r == reached(c@, name@, file@),
{
    proof {
        assert(keys_of(c@.resolved) =~= str_keys(c.resolved@));
        assert(keys_of(c@.conflicts) =~= str_keys(c.conflicts@));
        lemma_last_index_of(keys_of(c@.resolved), name@);
        lemma_last_index_of(keys_of(c@.conflicts), name@);
    }
    let a = match find_last(&c.resolved, name.as_str()) {
        Some(i) => {
            assert(c@.resolved[i as int].1 == c.resolved@[i as int].1@);
            c.resolved[i].1 == *file
        },
        None => false,
    };
    if a {
        return true;
    }
    match find_last(&c.conflicts, name.as_str()) {
        Some(j) => {
            assert(c@.conflicts[j as int].1 == segs_of(c.conflicts@[j as int].1));
            contains_segment(&c.conflicts[j].1, file)
        },
        None => false,
    }
}

/// The name and the file of declaration `i`.
fn decl_key(pr: &ParseResult, i: usize) -> (r: (&String, &String))
    requires
        i < decl_count(*pr),
    ensures
        r.0@ == decl_name(*pr, i as int),
        r.1@ == decl_file(*pr, i as int),
{
    if i < pr.structs.len() {
        (&pr.structs[i].name, &pr.structs[i].source_file)
    } else {
        let e = &pr.enums[i - pr.structs.len()];
        (&e.name, &e.source_file)
    }
}

fn first_ready_exec(pr: &ParseResult, c: &TypeCollectionResult, expanded: &Vec<bool>) -> (r: Option<usize>)
    requires
        expanded@.len() == decl_count(*pr),
    ensures
        match r {
            Some(i) => first_ready(*pr, c@, expanded@, 0) == Some(i as int),
            None => first_ready(*pr, c@, expanded@, 0) is None,
        },
{
    let mut i: usize = 0;
    while i < expanded.len()
        invariant
            i <= expanded.len(),
            expanded@.len() == decl_count(*pr),
            first_ready(*pr, c@, expanded@, 0) == first_ready(*pr, c@, expanded@, i as int),
        decreases expanded.len() - i,
    {
        if !expanded[i] {
            let (name, file) = decl_key(pr, i);
            if reached_exec(c, name, file) {
                return Some(i);
            }
        }
        i = i + 1;
    }
    None
}

/// Collects every declared type reachable from the commands' signatures.
/// The signatures are resolved first, each in its command's file; then each
/// reached declaration is expanded once, its field and payload references
/// resolved in the declaration's own file, until nothing new is reached.
/// A name that reaches a second definition is a conflict. The result holds
/// exactly what is reachable: every resolvable reference of a signature, or
/// of a found declaration, is found; everything found is such a reference.
pub fn collect_used_types(parse_result: &ParseResult, resolver: &ModuleResolver) -> (r: TypeCollectionResult)
    ensures
        r@ == collected(resolver@, *parse_result),
        forall|k: int|
            0 <= k < parse_result.commands@.len() ==> all_reached(
                resolver@,
                r@,
                command_refs(#[trigger] parse_result.commands@[k]),
                parse_result.commands@[k].source_file@,
            ),
        forall|i: int|
            0 <= i < decl_count(*parse_result) && reached(r@, decl_name(*parse_result, i), decl_file(*parse_result, i))
                ==> all_reached(resolver@, r@, #[trigger] decl_refs(*parse_result, i), decl_file(*parse_result, i)),
        forall|n: Seq<char>, g: Seq<char>|
            #[trigger] reached(r@, n, g) ==> seeded(resolver@, *parse_result, n, g) || exists|i: int|
                0 <= i < decl_count(*parse_result) && reached(r@, decl_name(*parse_result, i), decl_file(*parse_result, i))
                    && #[trigger] referenced_by(resolver@, *parse_result, i, n, g),
        conflicts_well_formed(r@),
{
    proof {
        lemma_collected_closed(resolver@, *parse_result);
        lemma_collected_justified(resolver@, *parse_result);
    }
    let pr = parse_result;
    let ghost m = resolver@;
    let ghost cmds = pr.commands@;
    let mut c = TypeCollectionResult::new();
    let mut k: usize = 0;
    while k < pr.commands.len()
        invariant
            k <= pr.commands.len(),
            cmds == pr.commands@,
            m == resolver@,
            c@ == seed(m, cmds, k as int),
        decreases pr.commands.len() - k,
    {
        let cmd = &pr.commands[k];
        let ghost c0 = c@;
        let mut j: usize = 0;
        while j < cmd.args.len()
            invariant
                j <= cmd.args.len(),
                m == resolver@,
                c@ == note_all(m, c0, args_refs(cmd.args@, j as int), cmd.source_file@),
            decreases cmd.args.len() - j,
        {
            collect_types_with_resolver(&cmd.args[j].ty, &cmd.source_file, resolver, &mut c);
            proof {
                lemma_note_all_concat(m, c0, args_refs(cmd.args@, j as int), custom_refs(cmd.args@[j as int].ty), cmd.source_file@);
            }
            j = j + 1;
        }
        let ghost a = args_refs(cmd.args@, cmd.args@.len() as int);
        match &cmd.return_type {
            Some(t) => {
                collect_types_with_resolver(t, &cmd.source_file, resolver, &mut c);
                proof {
                    lemma_note_all_concat(m, c0, a, custom_refs(*t), cmd.source_file@);
                }
            },
            None => {
                assert(a + Seq::<Seq<char>>::empty() =~= a);
            },
        }
        assert(command_refs(cmds[k as int]) == a + match cmd.return_type {
            Some(t) => custom_refs(t),
            None => seq![],
        });
        k = k + 1;
    }
    let mut expanded: Vec<bool> = Vec::new();
    let mut i: usize = 0;
    while i < pr.structs.len()
        invariant
            i <= pr.structs.len(),
            expanded@ =~= Seq::new(i as nat, |x: int| false),
        decreases pr.structs.len() - i,
    {
        expanded.push(false);
        i = i + 1;
    }
    let mut i: usize = 0;
    while i < pr.enums.len()
        invariant
            i <= pr.enums.len(),
            expanded@ =~= Seq::new((pr.structs@.len() + i) as nat, |x: int| false),
        decreases pr.enums.len() - i,
    {
        expanded.push(false);
        i = i + 1;
    }
    assert(c@ == seed(m, pr.commands@, pr.commands@.len() as int));
    loop
        invariant
            m == resolver@,
            expanded@.len() == decl_count(*pr),
            close(m, *pr, c@, expanded@) == collected(m, *pr),
        ensures
            c@ == collected(m, *pr),
        decreases count_false(expanded@),
    {
        match first_ready_exec(pr, &c, &expanded) {
            None => {
                assert(close(m, *pr, c@, expanded@) == c@);
                break;
            },
            Some(i) => {
                proof {
                    lemma_first_ready(*pr, c@, expanded@, 0);
                    lemma_count_false_update(expanded@, i as int);
                }
                expand_decl(pr, resolver, &mut c, i);
                expanded.set(i, true);
            },
        }
    }
    c
}

/// Whether the pair `(name, file)` is the resolution of `name`.
pub open spec fn is_used(c: CollectionModel, name: Seq<char>, file: Seq<char>) -> bool {
    lookup(c.resolved, name) == Some(file)
}

/// Whether declaration `i` of `keys` (name and file) is the first one that
/// is the resolution of its name.
pub open spec fn is_first_used(keys: Seq<(Seq<char>, Seq<char>)>, c: CollectionModel, i: int) -> bool {
    &&& is_used(c, keys[i].0, keys[i].1)
    &&& forall|k: int| 0 <= k < i ==> !(keys[k].0 == keys[i].0 && is_used(c, #[trigger] keys[k].0, keys[k].1))
}

/// The positions among the first `n` declarations that `is_first_used`
/// selects, in order.
pub open spec fn used_positions(keys: Seq<(Seq<char>, Seq<char>)>, c: CollectionModel, n: int) -> Seq<int>
    decreases n,
{
    if n <= 0 {
        seq![]
    } else if is_first_used(keys, c, n - 1) {
        used_positions(keys, c, n - 1).push(n - 1)
    } else {
        used_positions(keys, c, n - 1)
    }
}

pub open spec fn struct_keys(structs: Seq<crate::parser::RustStruct>) -> Seq<(Seq<char>, Seq<char>)> {
    structs.map_values(|s: crate::parser::RustStruct| (s.name@, s.source_file@))
}

pub open spec fn enum_keys(enums: Seq<crate::parser::RustEnum>) -> Seq<(Seq<char>, Seq<char>)> {
    enums.map_values(|e: crate::parser::RustEnum| (e.name@, e.source_file@))
}

pub open spec fn positions_of(v: Seq<usize>) -> Seq<int> {
    v.map_values(|x: usize| x as int)
}

fn is_used_exec(c: &TypeCollectionResult, name: &String, file: &String) -> (r: bool)
    ensures
        r == is_used(c@, name@, file@),
{
    proof {
        assert(keys_of(c@.resolved) =~= str_keys(c.resolved@));
        lemma_last_index_of(keys_of(c@.resolved), name@);
    }
    match find_last(&c.resolved, name.as_str()) {
        Some(i) => {
            assert(c@.resolved[i as int].1 == c.resolved@[i as int].1@);
            c.resolved[i].1 == *file
        },
        None => false,
    }
}

/// Whether a declaration before position `i` has the name of the `i`-th and
/// is the resolution of that name.
fn has_earlier_used(keys: &Vec<(String, String)>, c: &TypeCollectionResult, i: usize) -> (r: bool)
    requires
        i < keys.len(),
    ensures
        ({
            let ks = keys@.map_values(|e: (String, String)| (e.0@, e.1@));
            r == exists|k: int| 0 <= k < i && ks[k].0 == ks[i as int].0 && is_used(c@, #[trigger] ks[k].0, ks[k].1)
        }),
{
    let ghost ks = keys@.map_values(|e: (String, String)| (e.0@, e.1@));
    assert(ks[i as int] == (keys@[i as int].0@, keys@[i as int].1@));
    let mut k: usize = 0;
    while k < i
        invariant
            k <= i < keys.len(),
            ks == keys@.map_values(|e: (String, String)| (e.0@, e.1@)),
            ks[i as int] == (keys@[i as int].0@, keys@[i as int].1@),
            forall|j: int| 0 <= j < k ==> !(ks[j].0 == ks[i as int].0 && is_used(c@, #[trigger] ks[j].0, ks[j].1)),
        decreases i - k,
    {
        assert(ks[k as int] == (keys@[k as int].0@, keys@[k as int].1@));
        if keys[k].0 == keys[i].0 && is_used_exec(c, &keys[k].0, &keys[k].1) {
            assert(ks[k as int].0 == ks[i as int].0 && is_used(c@, ks[k as int].0, ks[k as int].1));
            return true;
        }
        k = k + 1;
    }
    false
}

/// The positions of the declarations (name and file) that are the first to
/// be the resolution of their name.
fn select_used(keys: &Vec<(String, String)>, c: &TypeCollectionResult) -> (r: Vec<usize>)
    ensures
        positions_of(r@) == used_positions(
            keys@.map_values(|e: (String, String)| (e.0@, e.1@)),
            c@,
            keys@.len() as int,
        ),
{
    let ghost ks = keys@.map_values(|e: (String, String)| (e.0@, e.1@));
    let mut out: Vec<usize> = Vec::new();
    let mut i: usize = 0;
    assert(positions_of(out@) =~= Seq::<int>::empty());
    while i < keys.len()
        invariant
            i <= keys.len(),
            ks == keys@.map_values(|e: (String, String)| (e.0@, e.1@)),
            positions_of(out@) == used_positions(ks, c@, i as int),
        decreases keys.len() - i,
    {
        assert(ks[i as int] == (keys@[i as int].0@, keys@[i as int].1@));
        if is_used_exec(c, &keys[i].0, &keys[i].1) && !has_earlier_used(keys, c, i) {
            let ghost before = positions_of(out@);
            out.push(i);
            assert(positions_of(out@) =~= before.push(i as int));
        }
        i = i + 1;
    }
    out
}

/// The positions of the structs that the collection resolved: the first
/// struct, by position, whose name and file are the resolution of its name.
pub fn used_structs(structs: &Vec<crate::parser::RustStruct>, c: &TypeCollectionResult) -> (r: Vec<usize>)
    ensures
        positions_of(r@) == used_positions(struct_keys(structs@), c@, structs@.len() as int),
{
    let mut keys: Vec<(String, String)> = Vec::new();
    let mut i: usize = 0;
    while i < structs.len()
        invariant
            i <= structs.len(),
            keys@.map_values(|e: (String, String)| (e.0@, e.1@)) =~= struct_keys(structs@).subrange(0, i as int),
        decreases structs.len() - i,
    {
        let ghost before = keys@.map_values(|e: (String, String)| (e.0@, e.1@));
        keys.push((structs[i].name.clone(), structs[i].source_file.clone()));
        assert(keys@.map_values(|e: (String, String)| (e.0@, e.1@)) =~= before.push(struct_keys(structs@)[i as int]));
        assert(struct_keys(structs@).subrange(0, i + 1) =~= struct_keys(structs@).subrange(0, i as int).push(struct_keys(structs@)[i as int]));
        i = i + 1;
    }
    assert(struct_keys(structs@).subrange(0, structs@.len() as int) =~= struct_keys(structs@));
    select_used(&keys, c)
}

/// The positions of the enums that the collection resolved, as for structs.
pub fn used_enums(enums: &Vec<crate::parser::RustEnum>, c: &TypeCollectionResult) -> (r: Vec<usize>)
    ensures
        positions_of(r@) == used_positions(enum_keys(enums@), c@, enums@.len() as int),
{
    let mut keys: Vec<(String, String)> = Vec::new();
    let mut i: usize = 0;
    while i < enums.len()
        invariant
            i <= enums.len(),
            keys@.map_values(|e: (String, String)| (e.0@, e.1@)) =~= enum_keys(enums@).subrange(0, i as int),
        decreases enums.len() - i,
    {
        let ghost before = keys@.map_values(|e: (String, String)| (e.0@, e.1@));
        keys.push((enums[i].name.clone(), enums[i].source_file.clone()));
        assert(keys@.map_values(|e: (String, String)| (e.0@, e.1@)) =~= before.push(enum_keys(enums@)[i as int]));
        assert(enum_keys(enums@).subrange(0, i + 1) =~= enum_keys(enums@).subrange(0, i as int).push(enum_keys(enums@)[i as int]));
        i = i + 1;
    }
    assert(enum_keys(enums@).subrange(0, enums@.len() as int) =~= enum_keys(enums@));
    select_used(&keys, c)
}

} // verus!
