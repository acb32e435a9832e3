//! Resolution of a requested file name to a path confined to the share root.
//!
//! Validation interleaves decisions with filesystem queries, so it is laid out
//! as steps: each step decides on what the previous query returned and names
//! the next query to make, until a path is accepted or refused.

use path_clean::clean;
use vstd::prelude::*;

verus! {

/// At position `i` of `name` stands `/`, `\`, or the first dot of `..`.
pub open spec fn forbidden_at(name: Seq<char>, i: int) -> bool {
    name[i] == '/' || name[i] == '\\' || (i + 1 < name.len() && name[i] == '.' && name[i
        + 1] == '.')
}

/// A name that could leave its directory: it holds `..`, `/` or `\`.
pub open spec fn forbidden_name(name: Seq<char>) -> bool {
    exists|i: int| 0 <= i < name.len() && #[trigger] forbidden_at(name, i)
}

/// A hidden entry: its name starts with a dot.
pub open spec fn hidden_name(name: Seq<char>) -> bool {
    name.len() > 0 && name[0] == '.'
}

/// `base` joined with a relative name, as `Path::join` does it.
pub open spec fn joined(base: Seq<char>, name: Seq<char>) -> Seq<char> {
    if base.len() == 0 {
        name
    } else if base.last() == '/' {
        base + name
    } else {
        base + seq!['/'] + name
    }
}

/// The path that path_clean makes of `p`.
pub uninterp spec fn cleaned(p: Seq<char>) -> Seq<char>;

/// `root` followed by exactly one separator.
pub open spec fn dir_prefix(root: Seq<char>) -> Seq<char> {
    if root.len() > 0 && root.last() == '/' {
        root
    } else {
        root.push('/')
    }
}

/// For canonical absolute paths: `path` is `root` or lies below it.
pub open spec fn within(path: Seq<char>, root: Seq<char>) -> bool {
    path == root || dir_prefix(root).is_prefix_of(path)
}

/// Relies on `path_clean::clean`, which normalises a path lexically (drops `.`
/// segments, folds `..` into its parent, merges repeated separators) without
/// touching the filesystem.
#[verifier::external_body]
fn clean_path(p: &str) -> (r: String)
    ensures
        r@ == cleaned(p@),
{
    clean(p).to_string_lossy().into_owned()
}

/// What the filesystem reports of an entry, read without following a link.
#[derive(Clone, Copy, Debug, PartialEq, Eq)]
pub struct EntryKind {
    pub is_file: bool,
    pub is_symlink: bool,
}

/// Where the validation of one requested name stands.
#[derive(Debug)]
pub enum Validation {
    /// Refused: the name does not denote a regular file directly inside the root.
    Invalid,
    /// Next: resolve `candidate` and the root to canonical form, then call `confine`.
    Resolve { candidate: String },
    /// Next: read the metadata of `candidate` without following links, then call
    /// `inspect`; an I/O error there is an error, not a refusal.
    Inspect { candidate: String },
    /// Accepted: `path` may be opened.
    Valid { path: String },
}

/// Whether `name` holds `..`, `/` or `\`.
pub fn is_forbidden_name(name: &str) -> (r: bool)
    ensures
        r == forbidden_name(name@),
{
    let n = name.unicode_len();
    let mut i: usize = 0;
    let mut prev_dot = false;
    while i < n
        invariant
            n == name@.len(),
            i <= n,
            prev_dot == (i > 0 && name@[i - 1] == '.'),
            forall|j: int|
                0 <= j < i && (j + 1 < i || name@[j] != '.') ==> !#[trigger] forbidden_at(
                    name@,
                    j,
                ),
        decreases n - i,
    {
        let c = name.get_char(i);
        if c == '/' || c == '\\' || (prev_dot && c == '.') {
            assert(forbidden_name(name@)) by {
                if c == '/' || c == '\\' {
                    assert(forbidden_at(name@, i as int));
                } else {
                    assert(forbidden_at(name@, i - 1));
                }
            }
            return true;
        }
        prev_dot = c == '.';
        i = i + 1;
    }
    false
}

/// Whether a directory entry named `name` is hidden.
pub fn is_hidden_name(name: &str) -> (r: bool)
    ensures
        r == hidden_name(name@),
{
    name.unicode_len() > 0 && name.get_char(0) == '.'
}

/// Joins `base` with a relative name.
pub fn join_name(base: &str, name: &str) -> (r: String)
    requires
        !(name@.len() > 0 && name@[0] == '/'),
    ensures
        r@ == joined(base@, name@),
{
    let n = base.unicode_len();
    if n == 0 {
        name.to_owned()
    } else if base.get_char(n - 1) == '/' {
        base.to_owned().concat(name)
    } else {
        proof {
            reveal_strlit("/");
        }
        base.to_owned().concat("/").concat(name)
    }
}

/// First step: refuses a name holding `..`, `/` or `\` without any filesystem
/// access; otherwise asks to resolve the cleaned join of root and name.
pub fn validate_path(base_dir: &str, filename: &str) -> (r: Validation)
    ensures
        forbidden_name(filename@) ==> r is Invalid,
        !forbidden_name(filename@) ==> (r matches Validation::Resolve { candidate }
            && candidate@ == cleaned(joined(base_dir@, filename@))),
{
    if is_forbidden_name(filename) {
        return Validation::Invalid;
    }
    proof {
        if filename@.len() > 0 {
            assert(!forbidden_at(filename@, 0));
        }
    }
    let joined_path = join_name(base_dir, filename);
    Validation::Resolve { candidate: clean_path(joined_path.as_str()) }
}

/// Whether `path` is `root` or lies below it; both are canonical absolute paths,
/// so this agrees with `Path::starts_with` on them.
pub fn is_within(path: &str, root: &str) -> (r: bool)
    ensures
        r == within(path@, root@),
{
    let np = path.unicode_len();
    let nr = root.unicode_len();
    let slash_ended = nr > 0 && root.get_char(nr - 1) == '/';
    if np == nr {
        // Equal lengths: within exactly when equal, as a longer prefix cannot fit.
        let mut i: usize = 0;
        while i < np
            invariant
                np == path@.len(),
                nr == root@.len(),
                np == nr,
                i <= np,
                forall|j: int| 0 <= j < i ==> path@[j] == root@[j],
            decreases np - i,
        {
            if path.get_char(i) != root.get_char(i) {
                assert(!dir_prefix(root@).is_prefix_of(path@)) by {
                    if dir_prefix(root@).is_prefix_of(path@) {
                        assert(dir_prefix(root@)[i as int] == root@[i as int]);
                    }
                }
                return false;
            }
            i = i + 1;
        }
        assert(path@ =~= root@);
        return true;
    }
    if np < nr {
        return false;
    }
    let mut i: usize = 0;
    while i < nr
        invariant
            np == path@.len(),
            nr == root@.len(),
            nr <= np,
            i <= nr,
            forall|j: int| 0 <= j < i ==> path@[j] == root@[j],
        decreases nr - i,
    {
        if path.get_char(i) != root.get_char(i) {
            assert(!dir_prefix(root@).is_prefix_of(path@)) by {
                if dir_prefix(root@).is_prefix_of(path@) {
                    assert(dir_prefix(root@)[i as int] == root@[i as int]);
                }
            }
            return false;
        }
        i = i + 1;
    }
    if slash_ended {
        assert(dir_prefix(root@).is_prefix_of(path@)) by {
            assert(path@.subrange(0, nr as int) =~= root@);
        }
        true
    } else {
        let ok = path.get_char(nr) == '/';
        proof {
            if ok {
                assert(path@.subrange(0, nr + 1) =~= root@.push('/'));
            } else {
                assert(dir_prefix(root@)[nr as int] == '/');
            }
        }
        ok
    }
}

/// Second step: takes the canonical forms of the candidate and of the root, or
/// `None` where resolving failed. Asks to inspect the candidate only when both
/// resolved and the candidate lies within the root.
pub fn confine(
    candidate: String,
    canonical_candidate: Option<&str>,
    canonical_root: Option<&str>,
) -> (r: Validation)
    ensures
        (canonical_candidate.is_some() && canonical_root.is_some() && within(
            canonical_candidate.unwrap()@,
            canonical_root.unwrap()@,
        )) ==> (r matches Validation::Inspect { candidate: c } && c@ == candidate@),
        !(canonical_candidate.is_some() && canonical_root.is_some() && within(
            canonical_candidate.unwrap()@,
            canonical_root.unwrap()@,
        )) ==> r is Invalid,
{
    match (canonical_candidate, canonical_root) {
        (Some(c), Some(root)) => {
            if is_within(c, root) {
                Validation::Inspect { candidate }
            } else {
                Validation::Invalid
            }
        },
        _ => Validation::Invalid,
    }
}

/// Last step: accepts the candidate only when it is a regular file and not a
/// symbolic link.
pub fn inspect(candidate: String, kind: EntryKind) -> (r: Validation)
    ensures
        (kind.is_file && !kind.is_symlink) ==> (r matches Validation::Valid { path }
            && path@ == candidate@),
        !(kind.is_file && !kind.is_symlink) ==> r is Invalid,
{
    if kind.is_file && !kind.is_symlink {
        Validation::Valid { path: candidate }
    } else {
        Validation::Invalid
    }
}

/// Whether a directory entry may appear in the listing and the archive before
/// its path is validated: it needs a UTF-8 name that is not hidden.
pub fn should_include_name(name: Option<&str>) -> (r: bool)
    ensures
        r == (name.is_some() && !hidden_name(name.unwrap()@)),
{
    match name {
        Some(n) => !is_hidden_name(n),
        None => false,
    }
}

} // verus!
