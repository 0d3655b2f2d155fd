//! Workspace directories and the depth guard for destructive path operations.

use vstd::prelude::*;

use crate::text::{split_on, split_str};

verus! {

/// Why a path was refused by the depth guard.
#[derive(Debug, Clone, Copy, PartialEq, Eq, Structural)]
pub enum PathError {
    /// The path is relative; it has to be canonicalized before it can be judged.
    Relative,
    /// The path has fewer than four components.
    TooShallow,
}

/// Minimum number of components (the root included) of an accepted path.
pub const MIN_PATH_COMPONENTS: usize = 4;

/// Whether a piece between slashes names a component of an absolute path:
/// empty pieces and `.` are normalised away.
pub open spec fn is_normal_piece(p: Seq<char>) -> bool {
    p.len() != 0 && p != seq!['.']
}

/// Number of pieces of `ps` that are components.
pub open spec fn count_normal(ps: Seq<Seq<char>>) -> nat
    decreases ps.len(),
{
    if ps.len() == 0 {
        0
    } else {
        count_normal(ps.drop_last()) + if is_normal_piece(ps.last()) { 1nat } else { 0nat }
    }
}

/// Whether the path is absolute (starts at the root directory).
pub open spec fn is_absolute(p: Seq<char>) -> bool {
    p.len() > 0 && p[0] == '/'
}

/// The number of components of an absolute path: the root and each named piece.
pub open spec fn component_count(p: Seq<char>) -> nat {
    1 + count_normal(split_on(p, '/'))
}

/// Whether the guard accepts the path.
pub open spec fn path_is_safe(p: Seq<char>) -> bool {
    is_absolute(p) && component_count(p) >= MIN_PATH_COMPONENTS
}

/// Joins a relative path onto a base directory, as `Path::join` does for a
/// relative argument.
pub open spec fn join_path(base: Seq<char>, rel: Seq<char>) -> Seq<char> {
    if base.len() == 0 {
        rel
    } else if base.last() == '/' {
        base + rel
    } else {
        base + seq!['/'] + rel
    }
}

/// Whether an absolute path has at least the minimum number of components.
pub fn has_min_components(path: &str) -> (r: bool)
    requires
        is_absolute(path@),
    ensures
        r == (component_count(path@) >= MIN_PATH_COMPONENTS),
{
    let pieces = split_str(path, '/');
    let ghost views = pieces@.map_values(|p: String| p@);
    // named pieces seen so far, counted up to the number the root leaves to find
    let mut named: usize = 0;
    let mut i: usize = 0;
    proof {
        assert(views.subrange(0, 0) =~= Seq::<Seq<char>>::empty());
    }
    while i < pieces.len()
        invariant
            views == pieces@.map_values(|p: String| p@),
            i <= pieces.len(),
            named <= MIN_PATH_COMPONENTS - 1,
            named == if count_normal(views.subrange(0, i as int)) < MIN_PATH_COMPONENTS - 1 {
                count_normal(views.subrange(0, i as int))
            } else {
                (MIN_PATH_COMPONENTS - 1) as nat
            },
        decreases pieces.len() - i,
    {
        let piece: &str = pieces[i].as_str();
        proof {
            assert(views.subrange(0, i + 1).drop_last() == views.subrange(0, i as int));
            assert(views[i as int] == pieces@[i as int]@);
        }
        let n = piece.unicode_len();
        if n != 0 && !(n == 1 && piece.get_char(0) == '.') {
            proof {
                assert(piece@ != seq!['.']) by {
                    if n == 1 {
                        assert(seq!['.'][0] == '.');
                    }
                }
            }
            if named < MIN_PATH_COMPONENTS - 1 {
                named = named + 1;
            }
        } else {
            proof {
                if n == 1 {
                    assert(piece@ =~= seq!['.']);
                }
            }
        }
        i = i + 1;
    }
    proof {
        assert(views.subrange(0, pieces.len() as int) == views);
    }
    named == MIN_PATH_COMPONENTS - 1
}

/// Checks a path before a destructive or build operation: an absolute path with
/// fewer than four components (such as `/`, `/etc` or `/etc/subdir`) is refused,
/// and so is a relative one, which the caller canonicalizes first. An accepted
/// path is returned unchanged.
pub fn panic_on_dangerous_path(path: &str) -> (r: Result<String, PathError>)
    ensures
        match r {
            Ok(p) => path_is_safe(path@) && p@ == path@,
            Err(PathError::Relative) => !is_absolute(path@),
            Err(PathError::TooShallow) => is_absolute(path@) && !path_is_safe(path@),
        },
{
    if path.unicode_len() == 0 || path.get_char(0) != '/' {
        return Err(PathError::Relative);
    }
    if !has_min_components(path) {
        Err(PathError::TooShallow)
    } else {
        Ok(path.to_owned())
    }
}

/// Joins a relative path onto a base directory.
pub fn join(base: &str, rel: &str) -> (r: String)
    ensures
        r@ == join_path(base@, rel@),
{
    proof {
        reveal_strlit("/");
    }
    let n = base.unicode_len();
    if n == 0 {
        rel.to_owned()
    } else if base.get_char(n - 1) == '/' {
        base.to_owned().concat(rel)
    } else {
        base.to_owned().concat("/").concat(rel)
    }
}

/// The directory holding the sources of the crates to build: `build/` under the workspace.
pub fn path_sources(workspace_path: &str) -> (r: String)
    ensures
        r@ == join_path(workspace_path@, "build/"@),
{
    join(workspace_path, "build/")
}

/// The directory receiving the packaged artifacts: `artifacts/` under the workspace.
pub fn path_binaries(workspace_path: &str) -> (r: String)
    ensures
        r@ == join_path(workspace_path@, "artifacts/"@),
{
    join(workspace_path, "artifacts/")
}

} // verus!
