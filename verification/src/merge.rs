//! Merging every source file's pairs into one mapping.
//!
//! Files are processed in manifest order and each file's pairs in line order;
//! a later pair for a key overwrites an earlier one. A single malformed line
//! anywhere aborts the merge: the first offending file is reported and no
//! mapping is produced.

use vstd::prelude::*;

use crate::entry::{entries_of, extract_entries, file_ok};
use crate::env_map::{map_of_seq, EnvMap};
use crate::errors::EnvError;

verus! {

/// All pairs the (path, content) files contribute, in manifest order, then
/// each file's line order.
pub open spec fn all_entries(files: Seq<(Seq<char>, Seq<char>)>) -> Seq<(Seq<char>, Seq<char>)>
    decreases files.len(),
{
    if files.len() == 0 {
        Seq::empty()
    } else {
        all_entries(files.drop_last()) + entries_of(files.last().1)
    }
}

/// The mapping the files denote: every pair merged in order, last write wins.
pub open spec fn merged_map(files: Seq<(Seq<char>, Seq<char>)>) -> Map<Seq<char>, Seq<char>> {
    map_of_seq(all_entries(files))
}

/// Whether every file's content is line-oriented `key:value` text.
pub open spec fn all_files_ok(files: Seq<(Seq<char>, Seq<char>)>) -> bool {
    forall|i: int| 0 <= i < files.len() ==> file_ok((#[trigger] files[i]).1)
}

/// Whether `p` names the first file whose content is malformed.
pub open spec fn names_first_bad_file(files: Seq<(Seq<char>, Seq<char>)>, p: Seq<char>) -> bool {
    exists|i: int|
        0 <= i < files.len() && !file_ok((#[trigger] files[i]).1) && p == files[i].0 && (forall|
            j: int,
        |
            0 <= j < i ==> file_ok((#[trigger] files[j]).1))
}

/// Builds the environment mapping from the validated source files, given as
/// (path, content) pairs in manifest order. The whole merge fails on the
/// first file with a malformed line, naming that file; nothing of it or of
/// later files is contributed.
pub fn create_env_hashmap(files: Vec<(String, String)>) -> (r: Result<EnvMap, EnvError>)
    ensures
        r is Ok <==> all_files_ok(files.deep_view()),
        r matches Ok(m) ==> m.wf() && m@ == merged_map(files.deep_view()),
        r matches Err(e) ==> e matches EnvError::ContentValidation(p) && names_first_bad_file(
            files.deep_view(),
            p@,
        ),
{
    let ghost fv = files.deep_view();
    let mut m = EnvMap::new();
    let mut fi: usize = 0;
    proof {
        assert(fv.take(0) =~= Seq::<(Seq<char>, Seq<char>)>::empty());
        assert(m@ == map_of_seq(all_entries(fv.take(0))));
    }
    while fi < files.len()
        invariant
            fi <= files.len(),
            fv == files.deep_view(),
            m.wf(),
            m@ == map_of_seq(all_entries(fv.take(fi as int))),
            forall|j: int| 0 <= j < fi ==> file_ok((#[trigger] fv[j]).1),
        decreases files.len() - fi,
    {
        proof {
            let ii = fi as int;
            assert(fv[ii] == (files@[ii].0@, files@[ii].1@));
        }
        match extract_entries(files[fi].1.as_str()) {
            Some(pairs) => {
                let ghost pv = pairs.deep_view();
                proof {
                    assert(pv == entries_of(fv[fi as int].1));
                }
                let mut ei: usize = 0;
                while ei < pairs.len()
                    invariant
                        ei <= pairs.len(),
                        pv == pairs.deep_view(),
                        m.wf(),
                        m@ == map_of_seq(all_entries(fv.take(fi as int)) + pv.take(ei as int)),
                    decreases pairs.len() - ei,
                {
                    let ghost before = all_entries(fv.take(fi as int)) + pv.take(ei as int);
                    proof {
                        let ii = ei as int;
                        assert(pv[ii] == (pairs@[ii].0@, pairs@[ii].1@));
                    }
                    let k = pairs[ei].0.clone();
                    let v = pairs[ei].1.clone();
                    m.insert(k, v);
                    proof {
                        let after = all_entries(fv.take(fi as int)) + pv.take(ei + 1);
                        assert(after.drop_last() =~= before);
                        assert(after.last() == pv[ei as int]);
                        assert(map_of_seq(after) == map_of_seq(before).insert(
                            pv[ei as int].0,
                            pv[ei as int].1,
                        ));
                    }
                    ei = ei + 1;
                }
                proof {
                    assert(pv.take(pairs@.len() as int) =~= pv);
                    let next = fv.take(fi + 1);
                    assert(next.drop_last() =~= fv.take(fi as int));
                    assert(next.last() == fv[fi as int]);
                    assert(all_entries(next) == all_entries(fv.take(fi as int)) + entries_of(
                        fv[fi as int].1,
                    ));
                }
            },
            None => {
                let path = files[fi].0.clone();
                proof {
                    let ii = fi as int;
                    assert(!file_ok(fv[ii].1));
                    assert(names_first_bad_file(fv, path@));
                }
                return Err(EnvError::ContentValidation(path));
            },
        }
        fi = fi + 1;
    }
    proof {
        assert(fv.take(files@.len() as int) =~= fv);
    }
    Ok(m)
}

} // verus!
