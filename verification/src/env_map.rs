//! The merged environment mapping.
//!
//! Entries are kept as a vector of (key, value) pairs with pairwise distinct
//! keys, so the mapping also has a definite iteration order (first insertion
//! of each key; the value is the one merged last). The mapping a pair
//! sequence denotes is `map_of_seq`: inserting in order, last write wins.

use vstd::prelude::*;

verus! {

/// The mapping that a sequence of (key, value) pairs builds when inserted in
/// order: a later pair overwrites an earlier one with the same key.
pub open spec fn map_of_seq(s: Seq<(Seq<char>, Seq<char>)>) -> Map<Seq<char>, Seq<char>>
    decreases s.len(),
{
    if s.len() == 0 {
        Map::empty()
    } else {
        map_of_seq(s.drop_last()).insert(s.last().0, s.last().1)
    }
}

/// A key is in the mapping of a pair sequence exactly when some pair carries
/// it.
pub proof fn lemma_map_of_seq_contains(s: Seq<(Seq<char>, Seq<char>)>, k: Seq<char>)
    ensures
        map_of_seq(s).dom().contains(k) <==> exists|i: int| 0 <= i < s.len() && s[i].0 == k,
    decreases s.len(),
{
    if s.len() == 0 {
    } else {
        lemma_map_of_seq_contains(s.drop_last(), k);
        if s.last().0 == k {
            assert(s[s.len() - 1].0 == k);
        } else if map_of_seq(s).dom().contains(k) {
            let i = choose|i: int| 0 <= i < s.drop_last().len() && s.drop_last()[i].0 == k;
            assert(s[i].0 == k);
        } else if exists|i: int| 0 <= i < s.len() && s[i].0 == k {
            let i = choose|i: int| 0 <= i < s.len() && s[i].0 == k;
            assert(i < s.len() - 1);
            assert(s.drop_last()[i].0 == k);
        }
    }
}

/// Overwriting the value of the pair that carries `k` denotes the same
/// mapping as inserting (`k`, `v`), provided keys are pairwise distinct.
pub proof fn lemma_map_of_seq_update(s: Seq<(Seq<char>, Seq<char>)>, i: int, v: Seq<char>)
    requires
        0 <= i < s.len(),
        forall|a: int, b: int| 0 <= a < b < s.len() ==> s[a].0 != s[b].0,
    ensures
        map_of_seq(s.update(i, (s[i].0, v))) == map_of_seq(s).insert(s[i].0, v),
    decreases s.len(),
{
    let t = s.update(i, (s[i].0, v));
    if i == s.len() - 1 {
        assert(t.drop_last() =~= s.drop_last());
        assert(map_of_seq(t) == map_of_seq(s.drop_last()).insert(s[i].0, v));
        assert(map_of_seq(s.drop_last()).insert(s[i].0, s[i].1).insert(s[i].0, v)
            =~= map_of_seq(s.drop_last()).insert(s[i].0, v));
    } else {
        assert(t.drop_last() =~= s.drop_last().update(i, (s[i].0, v)));
        assert(s.drop_last()[i] == s[i]);
        lemma_map_of_seq_update(s.drop_last(), i, v);
        assert(t.last() == s.last());
        assert(map_of_seq(t) == map_of_seq(s.drop_last()).insert(s[i].0, v).insert(
            s.last().0,
            s.last().1,
        ));
        assert(s[i].0 != s.last().0);
        assert(map_of_seq(s.drop_last()).insert(s[i].0, v).insert(s.last().0, s.last().1)
            =~= map_of_seq(s.drop_last()).insert(s.last().0, s.last().1).insert(s[i].0, v));
    }
}

/// The merged environment mapping.
#[derive(Debug)]
pub struct EnvMap {
    entries: Vec<(String, String)>,
}

impl View for EnvMap {
    type V = Map<Seq<char>, Seq<char>>;

    /// The mapping the entries denote.
    open spec fn view(&self) -> Map<Seq<char>, Seq<char>> {
        map_of_seq(self.seq_view())
    }
}

impl EnvMap {
    /// The entries in iteration order.
    pub closed spec fn seq_view(&self) -> Seq<(Seq<char>, Seq<char>)> {
        self.entries.deep_view()
    }

    /// Keys are pairwise distinct.
    pub open spec fn wf(&self) -> bool {
        forall|a: int, b: int|
            0 <= a < b < self.seq_view().len() ==> (#[trigger] self.seq_view()[a]).0 != (
            #[trigger] self.seq_view()[b]).0
    }

    /// The empty mapping.
    pub fn new() -> (r: EnvMap)
        ensures
            r.wf(),
            r.seq_view() == Seq::<(Seq<char>, Seq<char>)>::empty(),
            r@ == Map::<Seq<char>, Seq<char>>::empty(),
    {
        let r = EnvMap { entries: Vec::new() };
        proof {
            assert(r.seq_view() =~= Seq::<(Seq<char>, Seq<char>)>::empty());
        }
        r
    }

    /// The number of entries.
    pub fn len(&self) -> (r: usize)
        ensures
            r == self.seq_view().len(),
    {
        self.entries.len()
    }

    /// The entry at a position of the iteration order.
    pub fn entry_at(&self, i: usize) -> (r: (&String, &String))
        requires
            i < self.seq_view().len(),
        ensures
            (r.0@, r.1@) == self.seq_view()[i as int],
    {
        let p = &self.entries[i];
        (&p.0, &p.1)
    }

    /// Merges one pair into the mapping: an entry with an equal key is
    /// overwritten in place, any other key gains a new entry, so the entry
    /// count grows exactly when the key is new.
    pub fn insert(&mut self, k: String, v: String)
        requires
            old(self).wf(),
        ensures
            final(self).wf(),
            final(self)@ == old(self)@.insert(k@, v@),
            old(self)@.dom().contains(k@) ==> final(self).seq_view().len() == old(
                self,
            ).seq_view().len(),
            !old(self)@.dom().contains(k@) ==> final(self).seq_view().len() == old(
                self,
            ).seq_view().len() + 1,
    {
        let ghost s0 = self.seq_view();
        let mut i: usize = 0;
        while i < self.entries.len()
            invariant
                i <= self.entries.len(),
                s0 == old(self).seq_view(),
                self.seq_view() == s0,
                self.wf(),
                forall|a: int| 0 <= a < i ==> (#[trigger] self.seq_view()[a]).0 != k@,
            decreases self.entries.len() - i,
        {
            proof {
                let ii = i as int;
                assert(self.seq_view()[ii] == (self.entries@[ii].0@, self.entries@[ii].1@));
            }
            if self.entries[i].0 == k {
                self.entries[i] = (k, v);
                proof {
                    assert(self.seq_view() =~= s0.update(i as int, (s0[i as int].0, v@)));
                    lemma_map_of_seq_update(s0, i as int, v@);
                    lemma_map_of_seq_contains(s0, k@);
                    assert forall|a: int, b: int|
                        0 <= a < b < self.seq_view().len() implies (
                    #[trigger] self.seq_view()[a]).0 != (#[trigger] self.seq_view()[b]).0 by {
                        assert(s0[a].0 != s0[b].0);
                    }
                }
                return ;
            }
            i = i + 1;
        }
        proof {
            lemma_map_of_seq_contains(s0, k@);
        }
        self.entries.push((k, v));
        proof {
            assert(self.seq_view() =~= s0.push((k@, v@)));
            assert(self.seq_view().drop_last() =~= s0);
        }
    }
}

/// Merging the same (key, value) pair twice leaves the same mapping as
/// merging it once.
pub proof fn lemma_merge_idempotent(m: Map<Seq<char>, Seq<char>>, k: Seq<char>, v: Seq<char>)
    ensures
        m.insert(k, v).insert(k, v) == m.insert(k, v),
{
    assert(m.insert(k, v).insert(k, v) =~= m.insert(k, v));
}

/// Merging two values for one key keeps exactly one entry for that key, whose
/// value is the one merged last; no other key is touched.
pub proof fn lemma_merge_last_wins(
    m: Map<Seq<char>, Seq<char>>,
    k: Seq<char>,
    v1: Seq<char>,
    v2: Seq<char>,
)
    ensures
        m.insert(k, v1).insert(k, v2) == m.insert(k, v2),
        m.insert(k, v1).insert(k, v2)[k] == v2,
        m.insert(k, v1).insert(k, v2).dom() == m.dom().insert(k),
{
    assert(m.insert(k, v1).insert(k, v2) =~= m.insert(k, v2));
    assert(m.insert(k, v1).insert(k, v2).dom() =~= m.dom().insert(k));
}

} // verus!
