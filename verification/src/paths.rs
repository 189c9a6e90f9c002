//! Path validation: every manifest entry must name a file with the required
//! `.yaml` extension before any source file is processed.

use vstd::prelude::*;
use vstd::string::*;

use crate::errors::EnvError;
use crate::scan::{lemma_rfind_char_bounds, rfind, rfind_char};

verus! {

/// The extension every source path must carry.
pub open spec fn required_extension() -> Seq<char> {
    "yaml"@
}

/// The extension of a path: the part of the final component (after the last
/// `'/'`) that follows the component's last `'.'`. A component without a
/// `'.'`, or whose only `'.'` is its first character, has no extension.
pub open spec fn spec_extension(p: Seq<char>) -> Option<Seq<char>> {
    let sl = rfind_char(p, '/');
    let dot = rfind_char(p, '.');
    if dot > sl + 1 {
        Some(p.skip(dot + 1))
    } else {
        None
    }
}

/// Whether the path carries the required extension (case-sensitive, exact).
pub open spec fn path_is_yaml(p: Seq<char>) -> bool {
    spec_extension(p) == Some(required_extension())
}

/// Whether every path in the sequence carries the required extension.
pub open spec fn all_paths_yaml(ps: Seq<Seq<char>>) -> bool {
    forall|i: int| 0 <= i < ps.len() ==> path_is_yaml(#[trigger] ps[i])
}

/// Checks one path for the required extension.
pub fn has_yaml_extension(p: &str) -> (r: bool)
    ensures
        r == path_is_yaml(p@),
{
    let n = p.unicode_len();
    proof {
        lemma_rfind_char_bounds(p@, '/');
    }
    let dot = match rfind(p, '.') {
        Some(d) => d,
        None => {
            return false;
        },
    };
    let in_final_component = match rfind(p, '/') {
        Some(s) => dot > s + 1,
        None => dot > 0,
    };
    if !in_final_component {
        return false;
    }
    let ext = p.substring_char(dot + 1, n);
    let ext_owned = String::from_str(ext);
    let yaml = String::from_str("yaml");
    proof {
        assert(ext@ =~= p@.skip(dot + 1));
    }
    ext_owned == yaml
}

/// Confirms that every path in the manifest has the required extension: the
/// sequence passes through unchanged when all do, and no path is handed on
/// when any one fails.
pub fn assert_paths_are_yaml_files(paths: Vec<String>) -> (r: Result<Vec<String>, EnvError>)
    ensures
        r is Ok <==> all_paths_yaml(paths.deep_view()),
        r matches Ok(ps) ==> ps == paths,
        r is Err ==> r matches Err(EnvError::PathValidation),
{
    let mut i: usize = 0;
    while i < paths.len()
        invariant
            i <= paths.len(),
            forall|k: int| 0 <= k < i ==> path_is_yaml(#[trigger] paths.deep_view()[k]),
        decreases paths.len() - i,
    {
        if !has_yaml_extension(paths[i].as_str()) {
            proof {
                assert(paths.deep_view()[i as int] == paths@[i as int]@);
            }
            return Err(EnvError::PathValidation);
        }
        proof {
            assert(paths.deep_view()[i as int] == paths@[i as int]@);
        }
        i = i + 1;
    }
    Ok(paths)
}

} // verus!
