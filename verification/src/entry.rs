//! Key/value extraction from a source file's lines.
//!
//! A line splits at its first colon into the raw key (before) and the raw
//! value (after); neither side is trimmed here. A line without a colon is
//! malformed and rejects its whole file: a file contributes either one pair
//! per line or nothing at all.

use vstd::prelude::*;
use vstd::string::*;

use crate::lines::{spec_lines, split_lines};
use crate::scan::{find_char, lemma_find_char_is_first};

verus! {

/// Whether the line holds a colon separator.
pub open spec fn line_has_colon(l: Seq<char>) -> bool {
    find_char(l, ':') < l.len()
}

/// The raw key of a line: everything before the first colon.
pub open spec fn key_of(l: Seq<char>) -> Seq<char> {
    l.take(find_char(l, ':'))
}

/// The raw value of a line: everything after the first colon.
pub open spec fn value_of(l: Seq<char>) -> Seq<char> {
    l.skip(find_char(l, ':') + 1)
}

/// Whether every line of the text holds a colon.
pub open spec fn file_ok(s: Seq<char>) -> bool {
    forall|i: int| 0 <= i < spec_lines(s).len() ==> line_has_colon(#[trigger] spec_lines(s)[i])
}

/// The (key, value) pairs of the text, one per line, in line order.
pub open spec fn entries_of(s: Seq<char>) -> Seq<(Seq<char>, Seq<char>)> {
    spec_lines(s).map_values(|l: Seq<char>| (key_of(l), value_of(l)))
}

/// Splits a line at its first colon; a line without one yields nothing.
pub fn split_first_colon(l: &str) -> (r: Option<(String, String)>)
    ensures
        r is Some <==> line_has_colon(l@),
        r matches Some(p) ==> p.0@ == key_of(l@) && p.1@ == value_of(l@),
{
    let n = l.unicode_len();
    let mut j: usize = 0;
    while j < n && l.get_char(j) != ':'
        invariant
            j <= n,
            n == l@.len(),
            forall|k: int| 0 <= k < j ==> l@[k] != ':',
        decreases n - j,
    {
        j = j + 1;
    }
    proof {
        lemma_find_char_is_first(l@, ':', j as int);
    }
    if j < n {
        let key = String::from_str(l.substring_char(0, j));
        let value = String::from_str(l.substring_char(j + 1, n));
        proof {
            assert(l@.subrange(0, j as int) =~= key_of(l@));
            assert(l@.subrange(j + 1, n as int) =~= value_of(l@));
        }
        Some((key, value))
    } else {
        None
    }
}

/// Extracts one (key, value) pair from each line of `content`, split at the
/// first colon; a single malformed line rejects the whole text.
pub fn extract_entries(content: &str) -> (r: Option<Vec<(String, String)>>)
    ensures
        r is Some <==> file_ok(content@),
        r matches Some(es) ==> es.deep_view() == entries_of(content@),
{
    let lines = split_lines(content);
    let mut res: Vec<(String, String)> = Vec::new();
    let mut i: usize = 0;
    proof {
        assert(res.deep_view() =~= entries_of(content@).take(0));
    }
    while i < lines.len()
        invariant
            i <= lines.len(),
            lines.deep_view() == spec_lines(content@),
            forall|k: int| 0 <= k < i ==> line_has_colon(#[trigger] spec_lines(content@)[k]),
            res.deep_view() == entries_of(content@).take(i as int),
        decreases lines.len() - i,
    {
        proof {
            assert(lines.deep_view()[i as int] == lines@[i as int]@);
        }
        match split_first_colon(lines[i].as_str()) {
            Some(p) => {
                let ghost old_dv = res.deep_view();
                res.push(p);
                proof {
                    assert(res.deep_view() =~= old_dv.push((p.0@, p.1@)));
                    assert(entries_of(content@)[i as int] == (key_of(spec_lines(content@)[i as int]),
                    value_of(spec_lines(content@)[i as int])));
                    assert(res.deep_view() =~= entries_of(content@).take(i + 1));
                }
            },
            None => {
                return None;
            },
        }
        i = i + 1;
    }
    proof {
        assert(entries_of(content@).take(lines@.len() as int) =~= entries_of(content@));
    }
    Some(res)
}

} // verus!
