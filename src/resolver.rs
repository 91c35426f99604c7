//! Module-aware symbol resolution: which file defines a type name written in
//! a given file, following the host language's shadowing, re-export and path
//! rules.

use crate::lookup::{keys_of, last_index_of, lemma_last_index_of, lookup};
use crate::paths::{
    clone_segs, normalize, normalize_path, segs_eq, segs_of, split_path, split_type_path,
};
use crate::text::str_eq;
use vstd::prelude::*;

verus! {

/// What a local declaration introduces.
#[derive(Clone, Copy, Debug, PartialEq, Eq, Structural)]
pub enum TypeKind {
    Struct,
    Enum,
    Alias,
}

/// One explicit import: the path it names, and the name that the imported
/// item has in its own module.
#[derive(Debug)]
pub struct ImportedType {
    pub path: Vec<String>,
    pub original_name: String,
}

#[verifier::ext_equal]
pub struct ImportModel {
    pub path: Seq<Seq<char>>,
    pub original_name: Seq<char>,
}

impl View for ImportedType {
    type V = ImportModel;

    open spec fn view(&self) -> ImportModel {
        ImportModel { path: segs_of(self.path), original_name: self.original_name@ }
    }
}

/// What one scanned file declares and brings into scope.
#[derive(Debug)]
pub struct FileScope {
    /// The file.
    pub path: String,
    /// Its module path, such as `crate::commands`.
    pub mod_path: Vec<String>,
    /// Types declared in the file.
    pub local_types: Vec<(String, TypeKind)>,
    /// Explicit imports, by the name under which they are visible.
    pub imports: Vec<(String, ImportedType)>,
    /// Modules whose items are all imported, as written.
    pub wildcard_imports: Vec<Vec<String>>,
    /// Type aliases: alias name and the outermost name of its target.
    pub type_aliases: Vec<(String, String)>,
    /// Child modules declared as separate files.
    pub submodules: Vec<String>,
}

#[verifier::ext_equal]
pub struct ScopeModel {
    pub path: Seq<char>,
    pub mod_path: Seq<Seq<char>>,
    pub local_types: Seq<(Seq<char>, TypeKind)>,
    pub imports: Seq<(Seq<char>, ImportModel)>,
    pub wildcard_imports: Seq<Seq<Seq<char>>>,
    pub type_aliases: Seq<(Seq<char>, Seq<char>)>,
}

impl View for FileScope {
    type V = ScopeModel;

    open spec fn view(&self) -> ScopeModel {
        ScopeModel {
            path: self.path@,
            mod_path: segs_of(self.mod_path),
            local_types: self.local_types@.map_values(|e: (String, TypeKind)| (e.0@, e.1)),
            imports: self.imports@.map_values(|e: (String, ImportedType)| (e.0@, e.1@)),
            wildcard_imports: self.wildcard_imports@.map_values(|w: Vec<String>| segs_of(w)),
            type_aliases: self.type_aliases@.map_values(|e: (String, String)| (e.0@, e.1@)),
        }
    }
}

/// Whether the scope declares `name` itself.
pub open spec fn declares(sc: ScopeModel, name: Seq<char>) -> bool {
    keys_of(sc.local_types).contains(name)
}

/// The outcome of resolving one written type reference.
#[derive(Debug)]
pub enum ResolutionResult {
    /// Defined in this file.
    Found(String),
    /// Defined in this file under the given name, imported under another.
    FoundWithAlias(String, String),
    /// Defined in each of these files, and nothing tells them apart.
    Ambiguous(Vec<String>),
    NotFound,
}

pub enum Resolution {
    Found(Seq<char>),
    FoundWithAlias(Seq<char>, Seq<char>),
    Ambiguous(Seq<Seq<char>>),
    NotFound,
}

impl View for ResolutionResult {
    type V = Resolution;

    open spec fn view(&self) -> Resolution {
        match self {
            ResolutionResult::Found(f) => Resolution::Found(f@),
            ResolutionResult::FoundWithAlias(f, n) => Resolution::FoundWithAlias(f@, n@),
            ResolutionResult::Ambiguous(fs) => Resolution::Ambiguous(segs_of(*fs)),
            ResolutionResult::NotFound => Resolution::NotFound,
        }
    }
}

impl Resolution {
    /// Whether a defining file was found.
    pub open spec fn is_success(self) -> bool {
        self is Found || self is FoundWithAlias
    }

    /// The defining file of a successful resolution.
    pub open spec fn file(self) -> Seq<char> {
        match self {
            Resolution::Found(f) => f,
            Resolution::FoundWithAlias(f, _) => f,
            _ => Seq::empty(),
        }
    }
}

/// A result reached through an import of `original` under the local name
/// `local`: a plain hit is marked as aliased where the two names differ.
pub open spec fn wrap_alias(r: Resolution, original: Seq<char>, local: Seq<char>) -> Resolution {
    match r {
        Resolution::Found(f) => if original != local {
            Resolution::FoundWithAlias(f, original)
        } else {
            Resolution::Found(f)
        },
        _ => r,
    }
}

/// Two module paths of equal depth under the same parent.
pub open spec fn is_sibling(a: Seq<Seq<char>>, b: Seq<Seq<char>>) -> bool {
    a.len() == b.len() && a.len() >= 1 && a.drop_last() == b.drop_last()
}

/// The frozen scope table and global index.
#[derive(Debug)]
pub struct ModuleResolver {
    /// One scope per scanned file.
    pub files: Vec<FileScope>,
    /// For each type name, the files that declare it, in the order first seen.
    pub type_definitions: Vec<(String, Vec<String>)>,
    /// For each module path, the file that holds the module.
    pub module_to_file: Vec<(Vec<String>, String)>,
}

#[verifier::ext_equal]
pub struct ResolverModel {
    pub files: Seq<ScopeModel>,
    pub type_definitions: Seq<(Seq<char>, Seq<Seq<char>>)>,
    pub module_to_file: Seq<(Seq<Seq<char>>, Seq<char>)>,
}

impl View for ModuleResolver {
    type V = ResolverModel;

    open spec fn view(&self) -> ResolverModel {
        ResolverModel {
            files: self.files@.map_values(|s: FileScope| s@),
            type_definitions: self.type_definitions@.map_values(
                |e: (String, Vec<String>)| (e.0@, segs_of(e.1)),
            ),
            module_to_file: self.module_to_file@.map_values(
                |e: (Vec<String>, String)| (segs_of(e.0), e.1@),
            ),
        }
    }
}

pub open spec fn vis(v: Seq<usize>) -> Seq<int> {
    v.map_values(|x: usize| x as int)
}

impl ResolverModel {
    /// Index of the scope of `file`.
    pub open spec fn scope_index(self, file: Seq<char>) -> Option<int> {
        last_index_of(self.files.map_values(|s: ScopeModel| s.path), file)
    }

    /// Index of the scope of the file that holds module `m`.
    pub open spec fn module_scope(self, m: Seq<Seq<char>>) -> Option<int> {
        match lookup(self.module_to_file, m) {
            Some(f) => self.scope_index(f),
            None => None,
        }
    }

    /// Looks for `name` in the module whose scope is `m`: a local declaration,
    /// else the explicit import of that name, else the wildcard imports in
    /// order. `visited` holds the modules already on this chain; coming back
    /// to one of them ends the chain.
    pub open spec fn find_in_module(self, m: int, name: Seq<char>, visited: Seq<int>) -> Resolution
        decreases self.files.len() - visited.len(), 0int,
    {
        if m < 0 || m >= self.files.len() || visited.contains(m) || visited.len() >= self.files.len() {
            Resolution::NotFound
        } else {
            let sc = self.files[m];
            let v2 = visited.push(m);
            if declares(sc, name) {
                Resolution::Found(sc.path)
            } else {
                match lookup(sc.imports, name) {
                    Some(imp) => wrap_alias(
                        self.follow_path(imp.path, sc.mod_path, v2),
                        imp.original_name,
                        name,
                    ),
                    None => self.search_wildcards(m, name, v2, 0),
                }
            }
        }
    }

    /// Resolves the item path `path`, written in module `base`: its last
    /// segment is looked for in the module that the other segments denote.
    pub open spec fn follow_path(self, path: Seq<Seq<char>>, base: Seq<Seq<char>>, visited: Seq<int>) -> Resolution
        decreases self.files.len() - visited.len(), 1int,
    {
        if path.len() == 0 {
            Resolution::NotFound
        } else {
            match normalize(path.drop_last(), base) {
                None => Resolution::NotFound,
                Some(mp) => match self.module_scope(mp) {
                    None => Resolution::NotFound,
                    Some(m) => self.find_in_module(m, path.last(), visited),
                },
            }
        }
    }

    /// The first wildcard import of scope `m`, from the `k`-th on, whose
    /// target module leads to `name`.
    pub open spec fn search_wildcards(self, m: int, name: Seq<char>, visited: Seq<int>, k: int) -> Resolution
        decreases self.files.len() - visited.len(), 1 + self.files[m].wildcard_imports.len() - k,
    {
        if m < 0 || m >= self.files.len() || k < 0 || k >= self.files[m].wildcard_imports.len() {
            Resolution::NotFound
        } else {
            let sc = self.files[m];
            let r = match normalize(sc.wildcard_imports[k], sc.mod_path) {
                Some(mp) => match self.module_scope(mp) {
                    Some(t) => self.find_in_module(t, name, visited),
                    None => Resolution::NotFound,
                },
                None => Resolution::NotFound,
            };
            if r.is_success() {
                r
            } else {
                self.search_wildcards(m, name, visited, k + 1)
            }
        }
    }

    /// Whether `file` is scanned and its module is a sibling of `mp`.
    pub open spec fn is_sibling_file(self, file: Seq<char>, mp: Seq<Seq<char>>) -> bool {
        match self.scope_index(file) {
            Some(k) => is_sibling(self.files[k].mod_path, mp),
            None => false,
        }
    }

    /// The files among `locs` whose modules are siblings of `mp`, in order.
    pub open spec fn sibling_files(self, locs: Seq<Seq<char>>, mp: Seq<Seq<char>>) -> Seq<Seq<char>>
        decreases locs.len(),
    {
        if locs.len() == 0 {
            Seq::empty()
        } else if self.is_sibling_file(locs.last(), mp) {
            self.sibling_files(locs.drop_last(), mp).push(locs.last())
        } else {
            self.sibling_files(locs.drop_last(), mp)
        }
    }

    /// Lookup of `name` in the global index, from the scope `from` if there
    /// is one: a single candidate is the answer; among several, a single one
    /// whose module is a sibling of the querying module is; otherwise all of
    /// them are ambiguous.
    pub open spec fn global(self, name: Seq<char>, from: Option<int>) -> Resolution {
        match lookup(self.type_definitions, name) {
            None => Resolution::NotFound,
            Some(locs) => if locs.len() == 0 {
                Resolution::NotFound
            } else if locs.len() == 1 {
                Resolution::Found(locs[0])
            } else {
                match from {
                    None => Resolution::Ambiguous(locs),
                    Some(f) => {
                        let sibs = self.sibling_files(locs, self.files[f].mod_path);
                        if sibs.len() == 1 {
                            Resolution::Found(sibs[0])
                        } else {
                            Resolution::Ambiguous(locs)
                        }
                    },
                }
            },
        }
    }

    /// A single-segment name written in scope `f`: local declaration, else
    /// its explicit import, else the wildcard imports, else the global index.
    pub open spec fn resolve_name(self, f: int, name: Seq<char>) -> Resolution {
        let sc = self.files[f];
        if declares(sc, name) {
            Resolution::Found(sc.path)
        } else {
            match lookup(sc.imports, name) {
                Some(imp) => {
                    let r = self.follow_path(imp.path, sc.mod_path, Seq::empty());
                    if r.is_success() {
                        wrap_alias(r, imp.original_name, name)
                    } else {
                        wrap_alias(self.global(imp.original_name, Some(f)), imp.original_name, name)
                    }
                },
                None => {
                    let r = self.search_wildcards(f, name, seq![f], 0);
                    if r.is_success() {
                        r
                    } else {
                        self.global(name, Some(f))
                    }
                },
            }
        }
    }

    /// The module part of a qualified path written in scope `f`: an imported
    /// first segment stands for the path it was imported from.
    pub open spec fn qualified_prefix(self, f: int, segs: Seq<Seq<char>>) -> Seq<Seq<char>> {
        match lookup(self.files[f].imports, segs[0]) {
            Some(imp) => imp.path + segs.subrange(1, segs.len() - 1),
            None => segs.drop_last(),
        }
    }

    /// A qualified path written in scope `f`.
    pub open spec fn resolve_qualified(self, f: int, segs: Seq<Seq<char>>) -> Resolution {
        let sc = self.files[f];
        let name = segs.last();
        match normalize(self.qualified_prefix(f, segs), sc.mod_path) {
            None => Resolution::NotFound,
            Some(mp) => {
                let r = match self.module_scope(mp) {
                    Some(m) => self.find_in_module(m, name, Seq::empty()),
                    None => Resolution::NotFound,
                };
                if r.is_success() {
                    r
                } else {
                    self.global(name, Some(f))
                }
            },
        }
    }

    /// The resolution of the written type path `type_path` in `from_file`.
    pub open spec fn resolve(self, type_path: Seq<char>, from_file: Seq<char>) -> Resolution {
        let segs = split_path(type_path);
        match self.scope_index(from_file) {
            None => self.global(segs.last(), None),
            Some(f) => if segs.len() == 1 {
                self.resolve_name(f, segs[0])
            } else {
                self.resolve_qualified(f, segs)
            },
        }
    }
}

/// The keys of an association list keyed by strings.
pub open spec fn str_keys<V>(s: Seq<(String, V)>) -> Seq<Seq<char>> {
    s.map_values(|e: (String, V)| e.0@)
}

/// Position of the last pair of `s` whose key is `k`.
pub fn find_last<V>(s: &Vec<(String, V)>, k: &str) -> (r: Option<usize>)
    ensures
        match r {
            Some(i) => last_index_of(str_keys(s@), k@) == Some(i as int),
            None => last_index_of(str_keys(s@), k@) is None,
        },
{
    let mut i = s.len();
    assert(str_keys(s@).subrange(0, i as int) =~= str_keys(s@));
    while i > 0
        invariant
            i <= s.len(),
            last_index_of(str_keys(s@), k@) == last_index_of(str_keys(s@).subrange(0, i as int), k@),
        decreases i,
    {
        let ghost ks = str_keys(s@).subrange(0, i as int);
        assert(ks.drop_last() =~= str_keys(s@).subrange(0, i - 1));
        if str_eq(s[i - 1].0.as_str(), k) {
            return Some(i - 1);
        }
        i = i - 1;
    }
    None
}

fn contains_index(v: &Vec<usize>, m: usize) -> (r: bool)
    ensures
        r == vis(v@).contains(m as int),
{
    let mut i: usize = 0;
    while i < v.len()
        invariant
            i <= v.len(),
            forall|j: int| 0 <= j < i ==> v@[j] != m,
        decreases v.len() - i,
    {
        if v[i] == m {
            assert(vis(v@)[i as int] == m as int);
            return true;
        }
        i = i + 1;
    }
    assert(!vis(v@).contains(m as int)) by {
        if vis(v@).contains(m as int) {
            let j = choose|j: int| 0 <= j < vis(v@).len() && vis(v@)[j] == m as int;
            assert(v@[j] == m);
        }
    }
    false
}

fn clone_result(r: &ResolutionResult) -> (c: ResolutionResult)
    ensures
        c@ == r@,
{
    match r {
        ResolutionResult::Found(f) => ResolutionResult::Found(f.clone()),
        ResolutionResult::FoundWithAlias(f, n) => ResolutionResult::FoundWithAlias(f.clone(), n.clone()),
        ResolutionResult::Ambiguous(fs) => ResolutionResult::Ambiguous(clone_segs(fs)),
        ResolutionResult::NotFound => ResolutionResult::NotFound,
    }
}

impl ResolutionResult {
    /// Whether a defining file was found.
    pub fn is_success(&self) -> (r: bool)
        ensures
            r == self@.is_success(),
    {
        match self {
            ResolutionResult::Found(_) => true,
            ResolutionResult::FoundWithAlias(_, _) => true,
            _ => false,
        }
    }
}

fn wrap_alias_exec(r: ResolutionResult, original: &String, local: &String) -> (w: ResolutionResult)
    ensures
        w@ == wrap_alias(r@, original@, local@),
{
    match r {
        ResolutionResult::Found(f) => if *original != *local {
            ResolutionResult::FoundWithAlias(f, original.clone())
        } else {
            ResolutionResult::Found(f)
        },
        other => other,
    }
}

impl FileScope {
    /// Whether the file declares `name` itself.
    pub fn declares(&self, name: &str) -> (r: bool)
        ensures
            r == declares(self@, name@),
    {
        let i = find_last(&self.local_types, name);
        proof {
            assert(keys_of(self@.local_types) =~= str_keys(self.local_types@));
            lemma_last_index_of(keys_of(self@.local_types), name@);
        }
        i.is_some()
    }

    /// Position of the explicit import visible under `name`.
    pub fn import_index(&self, name: &str) -> (r: Option<usize>)
        ensures
            match r {
                Some(i) => i < self.imports.len() && lookup(self@.imports, name@) == Some(self.imports@[i as int].1@),
                None => lookup(self@.imports, name@) is None,
            },
    {
        let i = find_last(&self.imports, name);
        proof {
            assert(keys_of(self@.imports) =~= str_keys(self.imports@));
            lemma_last_index_of(keys_of(self@.imports), name@);
        }
        i
    }
}

impl ModuleResolver {
    /// Index of the scope of `file`.
    pub fn scope_index(&self, file: &str) -> (r: Option<usize>)
        ensures
            match r {
                Some(i) => i < self.files.len() && self@.scope_index(file@) == Some(i as int),
                None => self@.scope_index(file@) is None,
            },
    {
        let ghost paths = self@.files.map_values(|sc: ScopeModel| sc.path);
        let mut i = self.files.len();
        assert(paths.subrange(0, i as int) =~= paths);
        while i > 0
            invariant
                i <= self.files.len(),
                paths == self@.files.map_values(|sc: ScopeModel| sc.path),
                last_index_of(paths, file@) == last_index_of(paths.subrange(0, i as int), file@),
            decreases i,
        {
            assert(paths.subrange(0, i as int).drop_last() =~= paths.subrange(0, i - 1));
            assert(paths[i - 1] == self.files@[i - 1].path@);
            if str_eq(self.files[i - 1].path.as_str(), file) {
                return Some(i - 1);
            }
            i = i - 1;
        }
        None
    }

    /// Index of the scope of the file that holds module `m`.
    pub fn module_scope(&self, m: &Vec<String>) -> (r: Option<usize>)
        ensures
            match r {
                Some(i) => i < self.files.len() && self@.module_scope(segs_of(*m)) == Some(i as int),
                None => self@.module_scope(segs_of(*m)) is None,
            },
    {
        let ghost keys = keys_of(self@.module_to_file);
        let mut i = self.module_to_file.len();
        assert(keys.subrange(0, i as int) =~= keys);
        while i > 0
            invariant
                i <= self.module_to_file.len(),
                keys == keys_of(self@.module_to_file),
                last_index_of(keys, segs_of(*m)) == last_index_of(keys.subrange(0, i as int), segs_of(*m)),
            decreases i,
        {
            assert(keys.subrange(0, i as int).drop_last() =~= keys.subrange(0, i - 1));
            assert(keys[i - 1] == segs_of(self.module_to_file@[i - 1].0));
            if segs_eq(&self.module_to_file[i - 1].0, m) {
                assert(self@.module_to_file[i - 1].1 == self.module_to_file@[i - 1].1@);
                return self.scope_index(self.module_to_file[i - 1].1.as_str());
            }
            i = i - 1;
        }
        None
    }

    /// Looks for `name` in the module whose scope is `m`, following its
    /// explicit import of that name, else its wildcard imports; modules in
    /// `visited` are not entered again.
    pub fn find_type_in_module(&self, m: usize, name: &String, visited: &Vec<usize>) -> (r: ResolutionResult)
        ensures
            r@ == self@.find_in_module(m as int, name@, vis(visited@)),
        decreases self.files@.len() - visited@.len(), 0int,
    {
        if m >= self.files.len() || visited.len() >= self.files.len() || contains_index(visited, m) {
            return ResolutionResult::NotFound;
        }
        let sc = &self.files[m];
        let mut v2 = visited.clone();
        v2.push(m);
        assert(vis(v2@) =~= vis(visited@).push(m as int));
        assert(self@.files[m as int] == sc@);
        if sc.declares(name.as_str()) {
            return ResolutionResult::Found(sc.path.clone());
        }
        match sc.import_index(name.as_str()) {
            Some(i) => {
                let imp = &sc.imports[i].1;
                let r = self.find_type_by_module_path(&imp.path, &sc.mod_path, &v2);
                wrap_alias_exec(r, &imp.original_name, name)
            },
            None => self.search_wildcards(m, name, &v2, 0),
        }
    }

    /// Resolves the item path `path`, written in module `base`.
    pub fn find_type_by_module_path(&self, path: &Vec<String>, base: &Vec<String>, visited: &Vec<usize>) -> (r: ResolutionResult)
        ensures
            r@ == self@.follow_path(segs_of(*path), segs_of(*base), vis(visited@)),
        decreases self.files@.len() - visited@.len(), 1int,
    {
        if path.len() == 0 {
            return ResolutionResult::NotFound;
        }
        let mut prefix = clone_segs(path);
        let name = prefix.pop().unwrap();
        assert(segs_of(prefix) =~= segs_of(*path).drop_last());
        match normalize_path(&prefix, base) {
            None => ResolutionResult::NotFound,
            Some(mp) => match self.module_scope(&mp) {
                None => ResolutionResult::NotFound,
                Some(m) => self.find_type_in_module(m, &name, visited),
            },
        }
    }

    /// The first wildcard import of scope `m`, from the `k`-th on, whose
    /// target module leads to `name`.
    pub fn search_wildcards(&self, m: usize, name: &String, visited: &Vec<usize>, k: usize) -> (r: ResolutionResult)
        ensures
            r@ == self@.search_wildcards(m as int, name@, vis(visited@), k as int),
        decreases self.files@.len() - visited@.len(), 1 + self@.files[m as int].wildcard_imports.len() - k,
    {
        if m >= self.files.len() || k >= self.files[m].wildcard_imports.len() {
            return ResolutionResult::NotFound;
        }
        let sc = &self.files[m];
        assert(self@.files[m as int] == sc@);
        let r = match normalize_path(&sc.wildcard_imports[k], &sc.mod_path) {
            Some(mp) => match self.module_scope(&mp) {
                Some(t) => self.find_type_in_module(t, name, visited),
                None => ResolutionResult::NotFound,
            },
            None => ResolutionResult::NotFound,
        };
        if r.is_success() {
            r
        } else {
            self.search_wildcards(m, name, visited, k + 1)
        }
    }
}

/// Whether two module paths have equal depth and the same parent.
pub fn are_siblings(a: &Vec<String>, b: &Vec<String>) -> (r: bool)
    ensures
        r == is_sibling(segs_of(*a), segs_of(*b)),
{
    if a.len() != b.len() || a.len() == 0 {
        return false;
    }
    let n = a.len() - 1;
    let mut i: usize = 0;
    while i < n
        invariant
            a.len() == b.len(),
            n == a.len() - 1,
            i <= n,
            forall|j: int| 0 <= j < i ==> segs_of(*a)[j] == segs_of(*b)[j],
        decreases n - i,
    {
        if a[i] != b[i] {
            assert(segs_of(*a).drop_last()[i as int] != segs_of(*b).drop_last()[i as int]);
            return false;
        }
        i = i + 1;
    }
    assert(segs_of(*a).drop_last() =~= segs_of(*b).drop_last());
    true
}

impl ModuleResolver {
    fn is_sibling_file(&self, file: &String, mp: &Vec<String>) -> (r: bool)
        ensures
            r == self@.is_sibling_file(file@, segs_of(*mp)),
    {
        match self.scope_index(file.as_str()) {
            Some(k) => {
                assert(self@.files[k as int] == self.files@[k as int]@);
                are_siblings(&self.files[k].mod_path, mp)
            },
            None => false,
        }
    }

    fn sibling_files(&self, locs: &Vec<String>, mp: &Vec<String>) -> (r: Vec<String>)
        ensures
            segs_of(r) == self@.sibling_files(segs_of(*locs), segs_of(*mp)),
    {
        let mut out: Vec<String> = Vec::new();
        let mut i: usize = 0;
        assert(segs_of(out) =~= self@.sibling_files(segs_of(*locs).subrange(0, 0), segs_of(*mp)));
        while i < locs.len()
            invariant
                i <= locs.len(),
                segs_of(out) == self@.sibling_files(segs_of(*locs).subrange(0, i as int), segs_of(*mp)),
            decreases locs.len() - i,
        {
            let ghost pre = segs_of(*locs).subrange(0, i + 1);
            assert(pre.drop_last() =~= segs_of(*locs).subrange(0, i as int));
            assert(pre.last() == locs@[i as int]@);
            let ghost before = segs_of(out);
            if self.is_sibling_file(&locs[i], mp) {
                out.push(locs[i].clone());
                assert(segs_of(out) =~= before.push(locs@[i as int]@));
            }
            i = i + 1;
        }
        assert(segs_of(*locs).subrange(0, locs.len() as int) =~= segs_of(*locs));
        out
    }

    /// Lookup of `name` in the global index, with the sibling tie-break
    /// relative to scope `from` where there is one.
    pub fn global_lookup(&self, name: &String, from: Option<usize>) -> (r: ResolutionResult)
        requires
            from matches Some(f) ==> f < self.files.len(),
        ensures
            r@ == self@.global(name@, match from { Some(f) => Some(f as int), None => None }),
    {
        let i = match find_last(&self.type_definitions, name.as_str()) {
            Some(i) => i,
            None => {
                proof {
                    assert(keys_of(self@.type_definitions) =~= str_keys(self.type_definitions@));
                }
                return ResolutionResult::NotFound;
            },
        };
        proof {
            assert(keys_of(self@.type_definitions) =~= str_keys(self.type_definitions@));
            lemma_last_index_of(keys_of(self@.type_definitions), name@);
            assert(self@.type_definitions[i as int].1 == segs_of(self.type_definitions@[i as int].1));
        }
        let locs = &self.type_definitions[i].1;
        if locs.len() == 0 {
            return ResolutionResult::NotFound;
        }
        if locs.len() == 1 {
            return ResolutionResult::Found(locs[0].clone());
        }
        match from {
            None => ResolutionResult::Ambiguous(clone_segs(locs)),
            Some(f) => {
                assert(self@.files[f as int] == self.files@[f as int]@);
                let sibs = self.sibling_files(locs, &self.files[f].mod_path);
                if sibs.len() == 1 {
                    ResolutionResult::Found(sibs[0].clone())
                } else {
                    ResolutionResult::Ambiguous(clone_segs(locs))
                }
            },
        }
    }

    fn resolve_name(&self, f: usize, name: &String) -> (r: ResolutionResult)
        requires
            f < self.files.len(),
        ensures
            r@ == self@.resolve_name(f as int, name@),
    {
        let sc = &self.files[f];
        assert(self@.files[f as int] == sc@);
        if sc.declares(name.as_str()) {
            return ResolutionResult::Found(sc.path.clone());
        }
        match sc.import_index(name.as_str()) {
            Some(i) => {
                let imp = &sc.imports[i].1;
                let none: Vec<usize> = Vec::new();
                assert(vis(none@) =~= Seq::<int>::empty());
                let r = self.find_type_by_module_path(&imp.path, &sc.mod_path, &none);
                if r.is_success() {
                    wrap_alias_exec(r, &imp.original_name, name)
                } else {
                    let g = self.global_lookup(&imp.original_name, Some(f));
                    wrap_alias_exec(g, &imp.original_name, name)
                }
            },
            None => {
                let mut start: Vec<usize> = Vec::new();
                start.push(f);
                assert(vis(start@) =~= seq![f as int]);
                let r = self.search_wildcards(f, name, &start, 0);
                if r.is_success() {
                    r
                } else {
                    self.global_lookup(name, Some(f))
                }
            },
        }
    }

    fn resolve_qualified(&self, f: usize, segs: &Vec<String>) -> (r: ResolutionResult)
        requires
            f < self.files.len(),
            segs.len() >= 2,
        ensures
            r@ == self@.resolve_qualified(f as int, segs_of(*segs)),
    {
        let sc = &self.files[f];
        assert(self@.files[f as int] == sc@);
        let n = segs.len();
        let name = &segs[n - 1];
        let mut prefix: Vec<String>;
        match sc.import_index(segs[0].as_str()) {
            Some(i) => {
                prefix = clone_segs(&sc.imports[i].1.path);
                let mut j: usize = 1;
                while j < n - 1
                    invariant
                        1 <= j <= n - 1,
                        n == segs.len(),
                        segs_of(prefix) =~= segs_of(sc.imports@[i as int].1.path) + segs_of(*segs).subrange(1, j as int),
                    decreases n - 1 - j,
                {
                    let ghost before = segs_of(prefix);
                    prefix.push(segs[j].clone());
                    assert(segs_of(prefix) =~= before.push(segs@[j as int]@));
                    assert(segs_of(*segs).subrange(1, j + 1) =~= segs_of(*segs).subrange(1, j as int).push(segs@[j as int]@));
                    j = j + 1;
                }
            },
            None => {
                prefix = clone_segs(segs);
                prefix.pop();
                assert(segs_of(prefix) =~= segs_of(*segs).drop_last());
            },
        }
        assert(segs_of(prefix) == self@.qualified_prefix(f as int, segs_of(*segs)));
        match normalize_path(&prefix, &sc.mod_path) {
            None => ResolutionResult::NotFound,
            Some(mp) => {
                let none: Vec<usize> = Vec::new();
                assert(vis(none@) =~= Seq::<int>::empty());
                let r = match self.module_scope(&mp) {
                    Some(m) => self.find_type_in_module(m, name, &none),
                    None => ResolutionResult::NotFound,
                };
                if r.is_success() {
                    r
                } else {
                    self.global_lookup(name, Some(f))
                }
            },
        }
    }

    /// Resolves the written type path `type_path` (segments joined by `::`)
    /// as it appears in `from_file`. A file without a scope is answered from
    /// the global index alone.
    pub fn resolve_type(&self, type_path: &str, from_file: &str) -> (r: ResolutionResult)
        ensures
            r@ == self@.resolve(type_path@, from_file@),
    {
        let segs = split_type_path(type_path);
        let n = segs.len();
        assert(segs_of(segs).last() == segs@[n - 1]@);
        match self.scope_index(from_file) {
            None => self.global_lookup(&segs[n - 1], None),
            Some(f) => if n == 1 {
                self.resolve_name(f, &segs[0])
            } else {
                self.resolve_qualified(f, &segs)
            },
        }
    }
}

} // verus!
