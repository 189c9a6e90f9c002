//! Rendering the merged mapping as `key=value` lines.
//!
//! Keys and values are trimmed of surrounding white space only here, at
//! serialization time; extraction keeps them raw. Entries are rendered in the
//! mapping's iteration order.

use vstd::prelude::*;
use vstd::string::*;

use crate::env_map::EnvMap;

verus! {

/// Whether `c` is white space (the Unicode `White_Space` property, the set
/// `str::trim` removes).
pub open spec fn is_ws_char(c: char) -> bool {
    let u = c as u32;
    u == 0x09 || u == 0x0A || u == 0x0B || u == 0x0C || u == 0x0D || u == 0x20 || u == 0x85 || u
        == 0xA0 || u == 0x1680 || (0x2000 <= u && u <= 0x200A) || u == 0x2028 || u == 0x2029 || u
        == 0x202F || u == 0x205F || u == 0x3000
}

/// Checks one character for white space.
pub fn is_whitespace_char(c: char) -> (r: bool)
    ensures
        r == is_ws_char(c),
{
    let u = c as u32;
    u == 0x09 || u == 0x0A || u == 0x0B || u == 0x0C || u == 0x0D || u == 0x20 || u == 0x85 || u
        == 0xA0 || u == 0x1680 || (0x2000 <= u && u <= 0x200A) || u == 0x2028 || u == 0x2029 || u
        == 0x202F || u == 0x205F || u == 0x3000
}

/// `s` without its leading white space.
pub open spec fn trim_start(s: Seq<char>) -> Seq<char>
    decreases s.len(),
{
    if s.len() > 0 && is_ws_char(s[0]) {
        trim_start(s.drop_first())
    } else {
        s
    }
}

/// `s` without its trailing white space.
pub open spec fn trim_end(s: Seq<char>) -> Seq<char>
    decreases s.len(),
{
    if s.len() > 0 && is_ws_char(s.last()) {
        trim_end(s.drop_last())
    } else {
        s
    }
}

/// `s` without leading and trailing white space.
pub open spec fn spec_trim(s: Seq<char>) -> Seq<char> {
    trim_end(trim_start(s))
}

/// Dropping everything before the first non-white-space position is exactly
/// `trim_start`.
proof fn lemma_trim_start_skip(s: Seq<char>, a: int)
    requires
        0 <= a <= s.len(),
        forall|k: int| 0 <= k < a ==> is_ws_char(s[k]),
        a < s.len() ==> !is_ws_char(s[a]),
    ensures
        trim_start(s) == s.skip(a),
    decreases a,
{
    if a == 0 {
        assert(s.skip(0) =~= s);
    } else {
        assert(is_ws_char(s[0]));
        assert forall|k: int| 0 <= k < a - 1 implies is_ws_char(s.drop_first()[k]) by {
            assert(s.drop_first()[k] == s[k + 1]);
        }
        if a - 1 < s.drop_first().len() {
            assert(s.drop_first()[a - 1] == s[a]);
        }
        lemma_trim_start_skip(s.drop_first(), a - 1);
        assert(s.drop_first().skip(a - 1) =~= s.skip(a));
    }
}

/// Keeping everything up to the last non-white-space position is exactly
/// `trim_end`.
proof fn lemma_trim_end_take(s: Seq<char>, b: int)
    requires
        0 <= b <= s.len(),
        forall|k: int| b <= k < s.len() ==> is_ws_char(s[k]),
        b > 0 ==> !is_ws_char(s[b - 1]),
    ensures
        trim_end(s) == s.take(b),
    decreases s.len(),
{
    if b == s.len() {
        assert(s.take(b) =~= s);
    } else {
        assert(is_ws_char(s.last()));
        assert forall|k: int| b <= k < s.drop_last().len() implies is_ws_char(
            s.drop_last()[k],
        ) by {
            assert(s.drop_last()[k] == s[k]);
        }
        if b > 0 {
            assert(s.drop_last()[b - 1] == s[b - 1]);
        }
        lemma_trim_end_take(s.drop_last(), b);
        assert(s.drop_last().take(b) =~= s.take(b));
    }
}

/// Removes leading and trailing white space.
pub fn trim(s: &str) -> (r: String)
    ensures
        r@ == spec_trim(s@),
{
    let n = s.unicode_len();
    let mut a: usize = 0;
    while a < n && is_whitespace_char(s.get_char(a))
        invariant
            a <= n,
            n == s@.len(),
            forall|k: int| 0 <= k < a ==> is_ws_char(s@[k]),
        decreases n - a,
    {
        a = a + 1;
    }
    proof {
        lemma_trim_start_skip(s@, a as int);
    }
    if a == n {
        proof {
            assert(s@.skip(a as int) =~= Seq::<char>::empty());
            assert(trim_end(Seq::<char>::empty()) =~= Seq::<char>::empty());
        }
        return String::new();
    }
    let mut b: usize = n;
    while b > a && is_whitespace_char(s.get_char(b - 1))
        invariant
            a < b <= n,
            n == s@.len(),
            a < n,
            !is_ws_char(s@[a as int]),
            forall|k: int| b <= k < n ==> is_ws_char(s@[k]),
        decreases b,
    {
        b = b - 1;
    }
    proof {
        let suf = s@.skip(a as int);
        assert forall|k: int| b - a <= k < suf.len() implies is_ws_char(suf[k]) by {
            assert(suf[k] == s@[k + a]);
        }
        assert(suf[b - a - 1] == s@[b - 1]);
        lemma_trim_end_take(suf, b - a);
        assert(suf.take(b - a) =~= s@.subrange(a as int, b as int));
    }
    let r = s.substring_char(a, b);
    String::from_str(r)
}

/// One rendered entry: trimmed key, `'='`, trimmed value, `'\n'`.
pub open spec fn render_entry(k: Seq<char>, v: Seq<char>) -> Seq<char> {
    spec_trim(k) + seq!['='] + spec_trim(v) + seq!['\n']
}

/// The rendered entries, concatenated in order.
pub open spec fn spec_serialize(entries: Seq<(Seq<char>, Seq<char>)>) -> Seq<char>
    decreases entries.len(),
{
    if entries.len() == 0 {
        Seq::empty()
    } else {
        spec_serialize(entries.drop_last()) + render_entry(entries.last().0, entries.last().1)
    }
}

/// Renders the mapping, one `key=value` line per entry in iteration order,
/// with key and value trimmed of surrounding white space.
pub fn convert_map_to_string(env_map: EnvMap) -> (r: String)
    ensures
        r@ == spec_serialize(env_map.seq_view()),
{
    let mut out = String::new();
    let n = env_map.len();
    let mut i: usize = 0;
    proof {
        assert(env_map.seq_view().take(0) =~= Seq::<(Seq<char>, Seq<char>)>::empty());
    }
    while i < n
        invariant
            i <= n,
            n == env_map.seq_view().len(),
            out@ == spec_serialize(env_map.seq_view().take(i as int)),
        decreases n - i,
    {
        let ghost sv = env_map.seq_view();
        let ghost out0 = out@;
        let (k, v) = env_map.entry_at(i);
        let tk = trim(k.as_str());
        let tv = trim(v.as_str());
        out.append(tk.as_str());
        out.append("=");
        out.append(tv.as_str());
        out.append("\n");
        proof {
            reveal_strlit("=");
            reveal_strlit("\n");
            assert("="@ =~= seq!['=']);
            assert("\n"@ =~= seq!['\n']);
            assert(out@ =~= out0 + render_entry(sv[i as int].0, sv[i as int].1));
            assert(sv.take(i + 1).drop_last() =~= sv.take(i as int));
            assert(sv.take(i + 1).last() == sv[i as int]);
            assert(spec_serialize(sv.take(i + 1)) == spec_serialize(sv.take(i as int))
                + render_entry(sv[i as int].0, sv[i as int].1));
        }
        i = i + 1;
    }
    proof {
        assert(env_map.seq_view().take(n as int) =~= env_map.seq_view());
    }
    out
}

} // verus!
