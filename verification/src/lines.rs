//! Splitting text into lines.
//!
//! A line ends at a `'\n'`; a `"\r\n"` pair ends the line as well, with the
//! `'\r'` not part of the line. The final line needs no terminator, and text
//! ending in a terminator yields no extra empty line. The manifest's lines are
//! the source-file paths, and a source file's lines carry its `key:value`
//! entries.

use vstd::prelude::*;
use vstd::string::*;

use crate::scan::{find_char, lemma_find_char_bounds, lemma_find_char_is_first};

verus! {

/// Drops a single trailing `'\r'`, if present.
pub open spec fn strip_cr(l: Seq<char>) -> Seq<char> {
    if l.len() > 0 && l.last() == '\r' {
        l.drop_last()
    } else {
        l
    }
}

/// The lines of `s`: split at each `'\n'`, with a `'\r'` just before the
/// `'\n'` removed; the last line may be unterminated, and empty text has no
/// lines.
pub open spec fn spec_lines(s: Seq<char>) -> Seq<Seq<char>>
    decreases s.len(),
    via spec_lines_decreases
{
    if s.len() == 0 {
        Seq::empty()
    } else {
        let i = find_char(s, '\n');
        if i == s.len() {
            seq![s]
        } else {
            seq![strip_cr(s.take(i))] + spec_lines(s.skip(i + 1))
        }
    }
}

#[via_fn]
proof fn spec_lines_decreases(s: Seq<char>) {
    if s.len() != 0 {
        lemma_find_char_bounds(s, '\n');
    }
}

/// Splits `s` into its lines, as `spec_lines` describes.
pub fn split_lines(s: &str) -> (r: Vec<String>)
    ensures
        r.deep_view() == spec_lines(s@),
{
    let n = s.unicode_len();
    let mut res: Vec<String> = Vec::new();
    let mut start: usize = 0;
    proof {
        assert(s@.skip(0) =~= s@);
    }
    while start < n
        invariant
            start <= n,
            n == s@.len(),
            spec_lines(s@) == res.deep_view() + spec_lines(s@.skip(start as int)),
        decreases n - start,
    {
        let ghost suf = s@.skip(start as int);
        let ghost old_dv = res.deep_view();
        let mut j = start;
        while j < n && s.get_char(j) != '\n'
            invariant
                start <= j <= n,
                n == s@.len(),
                forall|k: int| start <= k < j ==> s@[k] != '\n',
            decreases n - j,
        {
            j = j + 1;
        }
        proof {
            assert forall|k: int| 0 <= k < j - start implies suf[k] != '\n' by {
                assert(suf[k] == s@[k + start]);
            }
            if j < n {
                assert(suf[j - start] == s@[j as int]);
            }
            lemma_find_char_is_first(suf, '\n', j - start);
        }
        if j < n {
            let end = if j > start && s.get_char(j - 1) == '\r' {
                j - 1
            } else {
                j
            };
            let line = s.substring_char(start, end);
            let owned = String::from_str(line);
            res.push(owned);
            proof {
                let i = find_char(suf, '\n');
                assert(suf.take(i) =~= s@.subrange(start as int, j as int));
                if end < j {
                    assert(s@[j - 1] == '\r');
                    assert(suf.take(i).last() == '\r');
                    assert(strip_cr(suf.take(i)) =~= s@.subrange(start as int, end as int));
                } else {
                    if suf.take(i).len() > 0 && suf.take(i).last() == '\r' {
                        assert(s@[j - 1] == '\r');
                        assert(false);
                    }
                    assert(strip_cr(suf.take(i)) =~= s@.subrange(start as int, end as int));
                }
                assert(suf.skip(i + 1) =~= s@.skip(j + 1));
                assert(spec_lines(suf) == seq![strip_cr(suf.take(i))] + spec_lines(suf.skip(i + 1)));
                assert(res.deep_view() =~= old_dv.push(line@));
                assert(old_dv.push(line@) + spec_lines(s@.skip(j + 1)) =~= old_dv + (seq![
                    strip_cr(suf.take(i)),
                ] + spec_lines(suf.skip(i + 1))));
            }
            start = j + 1;
        } else {
            let line = s.substring_char(start, n);
            let owned = String::from_str(line);
            res.push(owned);
            proof {
                let i = find_char(suf, '\n');
                assert(i == suf.len());
                assert(suf =~= s@.subrange(start as int, n as int));
                assert(spec_lines(suf) == seq![suf]);
                assert(res.deep_view() =~= old_dv.push(line@));
                assert(s@.skip(n as int) =~= Seq::<char>::empty());
                assert(spec_lines(s@.skip(n as int)) == Seq::<Seq<char>>::empty());
                assert(old_dv.push(line@) + Seq::<Seq<char>>::empty() =~= old_dv + seq![suf]);
            }
            start = n;
        }
    }
    proof {
        assert(s@.skip(n as int) =~= Seq::<char>::empty());
        assert(spec_lines(s@.skip(n as int)) == Seq::<Seq<char>>::empty());
        assert(res.deep_view() + Seq::<Seq<char>>::empty() =~= res.deep_view());
    }
    res
}

} // verus!
