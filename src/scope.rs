//! Building the scope table and the global index from per-file facts.

use crate::lookup::{keys_of, last_index_of, lemma_last_index_of, lookup};
use crate::paths::{clone_segs, contains_segment, segs_of};
use crate::resolver::{
    find_last, str_keys, FileScope, ImportModel, ImportedType, ModuleResolver, ResolverModel,
    ScopeModel, TypeKind,
};
use vstd::prelude::*;

verus! {

/// A `use` tree as written: `a::b::{C, D as E, f::*}`.
#[derive(Debug)]
pub enum UseTree {
    /// `seg::rest`
    Path(String, Box<UseTree>),
    /// `Name`
    Name(String),
    /// `Name as alias`
    Rename(String, String),
    /// `*`
    Glob,
    /// `{a, b, ...}`
    Group(Vec<UseTree>),
}

/// One top-level item of a file, as far as scopes are concerned.
#[derive(Debug)]
pub enum ItemFact {
    Use(UseTree),
    Struct(String),
    Enum(String),
    /// `type Name = Base<...>;` with the outermost name of its target.
    TypeAlias(String, String),
    /// A child module kept in a file of its own (`mod name;`).
    Mod(String),
}

/// The explicit imports and the wildcard imports that a use tree adds under
/// the path prefix `prefix`, in the order written.
pub open spec fn use_entries(tree: UseTree, prefix: Seq<Seq<char>>) -> (Seq<(Seq<char>, ImportModel)>, Seq<Seq<Seq<char>>>)
    decreases tree, 0int,
{
    match tree {
        UseTree::Path(seg, sub) => use_entries(*sub, prefix.push(seg@)),
        UseTree::Name(n) => (seq![(n@, ImportModel { path: prefix.push(n@), original_name: n@ })], seq![]),
        UseTree::Rename(n, alias) => (
            seq![(alias@, ImportModel { path: prefix.push(n@), original_name: n@ })],
            seq![],
        ),
        UseTree::Glob => (seq![], seq![prefix]),
        UseTree::Group(items) => group_entries(items, prefix, items.len() as int),
    }
}

/// The entries of the first `n` trees of a group, in order.
pub open spec fn group_entries(items: Vec<UseTree>, prefix: Seq<Seq<char>>, n: int) -> (Seq<(Seq<char>, ImportModel)>, Seq<Seq<Seq<char>>>)
    decreases items, n,
{
    if n <= 0 || n > items.len() {
        (seq![], seq![])
    } else {
        let a = group_entries(items, prefix, n - 1);
        let b = use_entries(items@[n - 1], prefix);
        (a.0 + b.0, a.1 + b.1)
    }
}

/// `sc` with the entries of a use tree appended.
pub open spec fn with_use(sc: ScopeModel, tree: UseTree, prefix: Seq<Seq<char>>) -> ScopeModel {
    let e = use_entries(tree, prefix);
    ScopeModel { imports: sc.imports + e.0, wildcard_imports: sc.wildcard_imports + e.1, ..sc }
}

impl ModuleResolver {
    /// Records the imports of a use tree in `scope`, under the path prefix
    /// `prefix`: a name is imported under itself, a rename under its alias,
    /// a glob imports the whole module that the prefix names.
    pub fn parse_use_tree(tree: &UseTree, scope: &mut FileScope, prefix: Vec<String>)
        ensures
            final(scope)@ == with_use(old(scope)@, *tree, segs_of(prefix)),
        decreases tree,
    {
        match tree {
            UseTree::Path(seg, sub) => {
                let mut p = prefix;
                let ghost before = segs_of(p);
                p.push(seg.clone());
                assert(segs_of(p) =~= before.push(seg@));
                ModuleResolver::parse_use_tree(sub, scope, p);
            },
            UseTree::Name(n) => {
                let mut p = prefix;
                let ghost before = segs_of(p);
                p.push(n.clone());
                assert(segs_of(p) =~= before.push(n@));
                let ghost imps = old(scope)@.imports;
                scope.imports.push((n.clone(), ImportedType { path: p, original_name: n.clone() }));
                assert(scope@.imports =~= imps + use_entries(*tree, segs_of(prefix)).0);
                assert(scope@.wildcard_imports =~= old(scope)@.wildcard_imports + use_entries(*tree, segs_of(prefix)).1);
            },
            UseTree::Rename(n, alias) => {
                let mut p = prefix;
                let ghost before = segs_of(p);
                p.push(n.clone());
                assert(segs_of(p) =~= before.push(n@));
                let ghost imps = old(scope)@.imports;
                scope.imports.push((alias.clone(), ImportedType { path: p, original_name: n.clone() }));
                assert(scope@.imports =~= imps + use_entries(*tree, segs_of(prefix)).0);
                assert(scope@.wildcard_imports =~= old(scope)@.wildcard_imports + use_entries(*tree, segs_of(prefix)).1);
            },
            UseTree::Glob => {
                let ghost p = segs_of(prefix);
                let ghost ws = old(scope)@.wildcard_imports;
                scope.wildcard_imports.push(prefix);
                assert(scope@.wildcard_imports =~= ws + use_entries(*tree, p).1);
                assert(scope@.imports =~= old(scope)@.imports + use_entries(*tree, p).0);
            },
            UseTree::Group(items) => {
                let ghost sc0 = old(scope)@;
                let mut i: usize = 0;
                assert(scope@.imports =~= sc0.imports + group_entries(*items, segs_of(prefix), 0).0);
                assert(scope@.wildcard_imports =~= sc0.wildcard_imports + group_entries(*items, segs_of(prefix), 0).1);
                while i < items.len()
                    invariant
                        i <= items.len(),
                        *tree == UseTree::Group(*items),
                        scope@.path == sc0.path,
                        scope@.mod_path == sc0.mod_path,
                        scope@.local_types == sc0.local_types,
                        scope@.type_aliases == sc0.type_aliases,
                        scope@.imports == sc0.imports + group_entries(*items, segs_of(prefix), i as int).0,
                        scope@.wildcard_imports == sc0.wildcard_imports + group_entries(*items, segs_of(prefix), i as int).1,
                    decreases items.len() - i,
                {
                    proof {
                        assert(decreases_to!(*items => items[i as int]));
                        assert(decreases_to!(*tree => (*tree)->Group_0));
                        assert(decreases_to!(*tree => items[i as int]));
                    }
                    ModuleResolver::parse_use_tree(&items[i], scope, clone_segs(&prefix));
                    let ghost b = use_entries(items@[i as int], segs_of(prefix));
                    let ghost a = group_entries(*items, segs_of(prefix), i as int);
                    assert(group_entries(*items, segs_of(prefix), i + 1) == (a.0 + b.0, a.1 + b.1));
                    assert(scope@.imports =~= sc0.imports + (a.0 + b.0));
                    assert(scope@.wildcard_imports =~= sc0.wildcard_imports + (a.1 + b.1));
                    i = i + 1;
                }
            },
        }
    }
}

/// The scope of a file with no items yet.
pub open spec fn empty_scope(path: Seq<char>, mp: Seq<Seq<char>>) -> ScopeModel {
    ScopeModel {
        path,
        mod_path: mp,
        local_types: seq![],
        imports: seq![],
        wildcard_imports: seq![],
        type_aliases: seq![],
    }
}

/// `sc` after one more item of the file.
pub open spec fn item_scope(sc: ScopeModel, item: ItemFact) -> ScopeModel {
    match item {
        ItemFact::Use(t) => with_use(sc, t, seq![]),
        ItemFact::Struct(n) => ScopeModel { local_types: sc.local_types.push((n@, TypeKind::Struct)), ..sc },
        ItemFact::Enum(n) => ScopeModel { local_types: sc.local_types.push((n@, TypeKind::Enum)), ..sc },
        ItemFact::TypeAlias(n, b) => ScopeModel {
            local_types: sc.local_types.push((n@, TypeKind::Alias)),
            type_aliases: sc.type_aliases.push((n@, b@)),
            ..sc
        },
        ItemFact::Mod(_) => sc,
    }
}

/// `sc` after the first `n` items.
pub open spec fn items_scope(sc: ScopeModel, items: Seq<ItemFact>, n: int) -> ScopeModel
    decreases n,
{
    if n <= 0 {
        sc
    } else {
        item_scope(items_scope(sc, items, n - 1), items[n - 1])
    }
}

/// The type name that an item declares, if any.
pub open spec fn declared_name(item: ItemFact) -> Option<Seq<char>> {
    match item {
        ItemFact::Struct(n) => Some(n@),
        ItemFact::Enum(n) => Some(n@),
        ItemFact::TypeAlias(n, _) => Some(n@),
        _ => None,
    }
}

/// The global index with `file` listed for `name`, once.
pub open spec fn register(defs: Seq<(Seq<char>, Seq<Seq<char>>)>, name: Seq<char>, file: Seq<char>) -> Seq<(Seq<char>, Seq<Seq<char>>)> {
    match last_index_of(keys_of(defs), name) {
        Some(i) => if defs[i].1.contains(file) {
            defs
        } else {
            defs.update(i, (name, defs[i].1.push(file)))
        },
        None => defs.push((name, seq![file])),
    }
}

/// The global index after registering the declarations among the first `n`
/// items of `file`.
pub open spec fn items_defs(defs: Seq<(Seq<char>, Seq<Seq<char>>)>, items: Seq<ItemFact>, file: Seq<char>, n: int) -> Seq<(Seq<char>, Seq<Seq<char>>)>
    decreases n,
{
    if n <= 0 {
        defs
    } else {
        match declared_name(items[n - 1]) {
            Some(name) => register(items_defs(defs, items, file, n - 1), name, file),
            None => items_defs(defs, items, file, n - 1),
        }
    }
}

impl ModuleResolver {
    /// An empty scope table and index.
    pub fn new() -> (r: Self)
        ensures
            r@.files.len() == 0,
            r@.type_definitions.len() == 0,
            r@.module_to_file.len() == 0,
    {
        ModuleResolver { files: Vec::new(), type_definitions: Vec::new(), module_to_file: Vec::new() }
    }

    /// Lists `file` among the declaring files of `name`, unless it is there.
    pub fn register_location(&mut self, name: &String, file: &String)
        ensures
            final(self)@.type_definitions == register(old(self)@.type_definitions, name@, file@),
            final(self)@.files == old(self)@.files,
            final(self)@.module_to_file == old(self)@.module_to_file,
    {
        let ghost defs = old(self)@.type_definitions;
        proof {
            assert(keys_of(defs) =~= str_keys(self.type_definitions@));
            lemma_last_index_of(keys_of(defs), name@);
        }
        match find_last(&self.type_definitions, name.as_str()) {
            Some(i) => {
                assert(defs[i as int].1 == segs_of(self.type_definitions@[i as int].1));
                if !contains_segment(&self.type_definitions[i].1, file) {
                    let mut locs = clone_segs(&self.type_definitions[i].1);
                    locs.push(file.clone());
                    let ghost before = segs_of(self.type_definitions@[i as int].1);
                    assert(segs_of(locs) =~= before.push(file@));
                    self.type_definitions.set(i, (name.clone(), locs));
                    assert(self@.type_definitions =~= register(defs, name@, file@));
                }
            },
            None => {
                let mut locs: Vec<String> = Vec::new();
                locs.push(file.clone());
                assert(segs_of(locs) =~= seq![file@]);
                self.type_definitions.push((name.clone(), locs));
                assert(self@.type_definitions =~= register(defs, name@, file@));
            },
        }
    }
}

impl ModuleResolver {
    /// Adds the scope of one scanned file, given its module path and its
    /// top-level items: its declarations, imports and aliases make up the
    /// scope (which replaces an earlier scope of the same file), each
    /// declaration lists the file in the global index, and the module path
    /// is registered as held by the file.
    pub fn add_file(&mut self, path: String, mod_path: Vec<String>, items: &Vec<ItemFact>)
        ensures
            ({
                let sc = items_scope(empty_scope(path@, segs_of(mod_path)), items@, items@.len() as int);
                final(self)@.files == match old(self)@.scope_index(path@) {
                    Some(i) => old(self)@.files.update(i, sc),
                    None => old(self)@.files.push(sc),
                }
            }),
            final(self)@.type_definitions == items_defs(
                old(self)@.type_definitions,
                items@,
                path@,
                items@.len() as int,
            ),
            final(self)@.module_to_file == old(self)@.module_to_file.push((segs_of(mod_path), path@)),
    {
        let ghost sc0 = empty_scope(path@, segs_of(mod_path));
        let mut scope = FileScope {
            path: path.clone(),
            mod_path: clone_segs(&mod_path),
            local_types: Vec::new(),
            imports: Vec::new(),
            wildcard_imports: Vec::new(),
            type_aliases: Vec::new(),
            submodules: Vec::new(),
        };
        assert(scope@ =~= sc0);
        let mut i: usize = 0;
        while i < items.len()
            invariant
                i <= items.len(),
                scope@ == items_scope(sc0, items@, i as int),
                self@.type_definitions == items_defs(old(self)@.type_definitions, items@, path@, i as int),
                self@.files == old(self)@.files,
                self@.module_to_file == old(self)@.module_to_file,
            decreases items.len() - i,
        {
            let ghost before = scope@;
            match &items[i] {
                ItemFact::Use(t) => {
                    let empty: Vec<String> = Vec::new();
                    assert(segs_of(empty) =~= Seq::<Seq<char>>::empty());
                    ModuleResolver::parse_use_tree(t, &mut scope, empty);
                },
                ItemFact::Struct(n) => {
                    scope.local_types.push((n.clone(), TypeKind::Struct));
                    assert(scope@ =~= item_scope(before, items@[i as int]));
                    self.register_location(n, &path);
                },
                ItemFact::Enum(n) => {
                    scope.local_types.push((n.clone(), TypeKind::Enum));
                    assert(scope@ =~= item_scope(before, items@[i as int]));
                    self.register_location(n, &path);
                },
                ItemFact::TypeAlias(n, b) => {
                    scope.local_types.push((n.clone(), TypeKind::Alias));
                    scope.type_aliases.push((n.clone(), b.clone()));
                    assert(scope@ =~= item_scope(before, items@[i as int]));
                    self.register_location(n, &path);
                },
                ItemFact::Mod(n) => {
                    scope.submodules.push(n.clone());
                    assert(scope@ =~= item_scope(before, items@[i as int]));
                },
            }
            i = i + 1;
        }
        let ghost files0 = self@.files;
        self.module_to_file.push((mod_path, path.clone()));
        assert(self@.module_to_file =~= old(self)@.module_to_file.push((segs_of(mod_path), path@)));
        let ghost sc = scope@;
        match self.scope_index(path.as_str()) {
            Some(k) => {
                self.files.set(k, scope);
                assert(self@.files =~= files0.update(k as int, sc));
            },
            None => {
                self.files.push(scope);
                assert(self@.files =~= files0.push(sc));
            },
        }
    }
}

/// Whether the index lists, for `name`, some file that has a scope.
pub open spec fn has_scanned_location(m: ResolverModel, name: Seq<char>) -> bool {
    match lookup(m.type_definitions, name) {
        Some(locs) => exists|i: int| 0 <= i < locs.len() && (#[trigger] m.scope_index(locs[i])) is Some,
        None => false,
    }
}

impl ModuleResolver {
    /// Registers a declaration that comes from a source with no scope of its
    /// own (such as expanded macro output): it enters the index only where no
    /// scanned file is listed for the name yet.
    pub fn register_synthetic_type(&mut self, name: &String, file: &String)
        ensures
            final(self)@.type_definitions == if has_scanned_location(old(self)@, name@) {
                old(self)@.type_definitions
            } else {
                register(old(self)@.type_definitions, name@, file@)
            },
            final(self)@.files == old(self)@.files,
            final(self)@.module_to_file == old(self)@.module_to_file,
    {
        let ghost m = self@;
        proof {
            assert(keys_of(m.type_definitions) =~= str_keys(self.type_definitions@));
            lemma_last_index_of(keys_of(m.type_definitions), name@);
        }
        if let Some(i) = find_last(&self.type_definitions, name.as_str()) {
            let locs = &self.type_definitions[i].1;
            assert(m.type_definitions[i as int].1 == segs_of(*locs));
            assert(lookup(m.type_definitions, name@) == Some(segs_of(*locs)));
            let mut j: usize = 0;
            while j < locs.len()
                invariant
                    j <= locs.len(),
                    m == self@,
                    lookup(m.type_definitions, name@) == Some(segs_of(*locs)),
                    forall|k: int| 0 <= k < j ==> m.scope_index(#[trigger] segs_of(*locs)[k]) is None,
                decreases locs.len() - j,
            {
                if self.scope_index(locs[j].as_str()).is_some() {
                    assert(segs_of(*locs)[j as int] == locs@[j as int]@);
                    assert(m.scope_index(segs_of(*locs)[j as int]) is Some);
                    assert(has_scanned_location(m, name@));
                    return;
                }
                assert(segs_of(*locs)[j as int] == locs@[j as int]@);
                j = j + 1;
            }
        }
        self.register_location(name, file);
    }
}

/// Whether `t` ends in `.rs`.
pub open spec fn ends_rs(t: Seq<char>) -> bool {
    t.len() >= 3 && t[t.len() - 3] == '.' && t[t.len() - 2] == 'r' && t[t.len() - 1] == 's'
}

/// `s` with every trailing `.rs` removed.
pub open spec fn trim_rs(s: Seq<char>) -> Seq<char>
    decreases s.len(),
{
    if ends_rs(s) {
        trim_rs(s.subrange(0, s.len() - 3))
    } else {
        s
    }
}

/// Whether a file name is one that stands for its directory's module.
pub open spec fn is_module_root_file(s: Seq<char>) -> bool {
    s == seq!['m', 'o', 'd', '.', 'r', 's'] || s == seq!['l', 'i', 'b', '.', 'r', 's'] || s == seq![
        'm',
        'a',
        'i',
        'n',
        '.',
        'r',
        's',
    ]
}

/// Module path of a file from the components of its path relative to the
/// source root, for the first `n` components.
pub open spec fn module_of_prefix(comps: Seq<Seq<char>>, n: int) -> Seq<Seq<char>>
    decreases n,
{
    if n <= 0 {
        crate::paths::root_path()
    } else if is_module_root_file(comps[n - 1]) {
        module_of_prefix(comps, n - 1)
    } else {
        module_of_prefix(comps, n - 1).push(trim_rs(comps[n - 1]))
    }
}

fn trim_rs_exec(s: &String) -> (r: String)
    ensures
        r@ == trim_rs(s@),
{
    let st = s.as_str();
    let mut end = st.unicode_len();
    proof {
        assert(s@.subrange(0, end as int) =~= s@);
    }
    while end >= 3 && st.get_char(end - 3) == '.' && st.get_char(end - 2) == 'r' && st.get_char(end - 1) == 's'
        invariant
            end <= s@.len(),
            st@ == s@,
            trim_rs(s@) == trim_rs(s@.subrange(0, end as int)),
        decreases end,
    {
        let ghost t = s@.subrange(0, end as int);
        assert(ends_rs(t));
        assert(t.subrange(0, t.len() - 3) =~= s@.subrange(0, end - 3));
        end = end - 3;
    }
    String::from_str(st.substring_char(0, end))
}

fn is_module_root_file_exec(s: &String) -> (r: bool)
    ensures
        r == is_module_root_file(s@),
{
    proof {
        reveal_strlit("mod.rs");
        reveal_strlit("lib.rs");
        reveal_strlit("main.rs");
        assert("mod.rs"@ =~= seq!['m', 'o', 'd', '.', 'r', 's']);
        assert("lib.rs"@ =~= seq!['l', 'i', 'b', '.', 'r', 's']);
        assert("main.rs"@ =~= seq!['m', 'a', 'i', 'n', '.', 'r', 's']);
    }
    crate::text::str_eq(s.as_str(), "mod.rs") || crate::text::str_eq(s.as_str(), "lib.rs")
        || crate::text::str_eq(s.as_str(), "main.rs")
}

impl ModuleResolver {
    /// The module path of a file, from the components of its path relative
    /// to the source root: `crate`, then each component with its `.rs`
    /// removed, where `mod.rs`, `lib.rs` and `main.rs` add nothing.
    pub fn path_to_module(relative_components: &Vec<String>) -> (r: Vec<String>)
        ensures
            segs_of(r) == module_of_prefix(segs_of(*relative_components), relative_components.len() as int),
    {
        let mut parts: Vec<String> = Vec::new();
        parts.push(String::from_str("crate"));
        proof {
            reveal_strlit("crate");
            assert("crate"@ =~= crate::paths::crate_seg());
            assert(segs_of(parts) =~= crate::paths::root_path());
        }
        let mut i: usize = 0;
        while i < relative_components.len()
            invariant
                i <= relative_components.len(),
                segs_of(parts) == module_of_prefix(segs_of(*relative_components), i as int),
            decreases relative_components.len() - i,
        {
            let c = &relative_components[i];
            assert(segs_of(*relative_components)[i as int] == c@);
            if !is_module_root_file_exec(c) {
                let ghost before = segs_of(parts);
                parts.push(trim_rs_exec(c));
                assert(segs_of(parts) =~= before.push(trim_rs(c@)));
            }
            i = i + 1;
        }
        parts
    }
}

} // verus!
