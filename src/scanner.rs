//! Which paths under the source root are scanned.

use crate::paths::segs_of;
use crate::text::{contains_seq, contains_str};
use vstd::prelude::*;
use vstd::string::*;

verus! {

/// The source root and the exclusion patterns of a scan.
#[derive(Debug)]
pub struct Scanner {
    /// Root directory to scan.
    pub source_dir: String,
    /// Patterns that exclude a path.
    pub exclude_patterns: Vec<String>,
}

/// The text of `path` after its last `/`.
pub open spec fn file_name_of(path: Seq<char>) -> Seq<char>
    decreases path.len(),
{
    if path.len() == 0 {
        path
    } else if path.last() == '/' {
        Seq::empty()
    } else {
        file_name_of(path.drop_last()).push(path.last())
    }
}

/// Whether a path names a Rust source file: its file name is longer than
/// `.rs` and ends in `.rs`.
pub open spec fn is_rust_path(path: Seq<char>) -> bool {
    let name = file_name_of(path);
    name.len() > 3 && crate::scope::ends_rs(name)
}

impl Scanner {
    pub fn new(source_dir: String, exclude_patterns: Vec<String>) -> (r: Self)
        ensures
            r.source_dir@ == source_dir@,
            segs_of(r.exclude_patterns) == segs_of(exclude_patterns),
    {
        Scanner { source_dir, exclude_patterns }
    }

    /// Whether `path` has the `rs` extension.
    pub fn is_rust_file(&self, path: &str) -> (r: bool)
        ensures
            r == is_rust_path(path@),
    {
        let n = path.unicode_len();
        let mut start: usize = 0;
        let mut i: usize = 0;
        while i < n
            invariant
                n == path@.len(),
                start <= i <= n,
                file_name_of(path@.subrange(0, i as int)) == path@.subrange(start as int, i as int),
            decreases n - i,
        {
            let ghost pre = path@.subrange(0, i + 1);
            assert(pre.drop_last() =~= path@.subrange(0, i as int));
            if path.get_char(i) == '/' {
                start = i + 1;
                assert(path@.subrange(start as int, i + 1) =~= Seq::<char>::empty());
            } else {
                assert(path@.subrange(start as int, i + 1) =~= path@.subrange(start as int, i as int).push(path@[i as int]));
            }
            i = i + 1;
        }
        assert(path@.subrange(0, n as int) =~= path@);
        let len = n - start;
        if len <= 3 {
            return false;
        }
        let ghost name = path@.subrange(start as int, n as int);
        assert(name[name.len() - 3] == path@[n - 3]);
        assert(name[name.len() - 2] == path@[n - 2]);
        assert(name[name.len() - 1] == path@[n - 1]);
        path.get_char(n - 3) == '.' && path.get_char(n - 2) == 'r' && path.get_char(n - 1) == 's'
    }

    /// Whether `path` is excluded: some exclusion pattern occurs in it (a
    /// component or the file name equal to a pattern is such an occurrence).
    pub fn is_excluded(&self, path: &str) -> (r: bool)
        ensures
            r == exists|i: int|
                0 <= i < self.exclude_patterns@.len() && contains_seq(path@, #[trigger] self.exclude_patterns@[i]@),
    {
        let mut i: usize = 0;
        while i < self.exclude_patterns.len()
            invariant
                i <= self.exclude_patterns.len(),
                forall|j: int| 0 <= j < i ==> !contains_seq(path@, #[trigger] self.exclude_patterns@[j]@),
            decreases self.exclude_patterns.len() - i,
        {
            if contains_str(path, self.exclude_patterns[i].as_str()) {
                return true;
            }
            i = i + 1;
        }
        false
    }
}

} // verus!
