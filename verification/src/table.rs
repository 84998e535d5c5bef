use vstd::prelude::*;

use crate::cascade::{StateModel, TargetState, fresh_state};

verus! {

/// The keys of an association list, no two alike.
pub open spec fn keys_unique(s: Seq<(String, TargetState)>) -> bool {
    forall|i: int, j: int| 0 <= i < j < s.len() ==> (#[trigger] s[i]).0@ != (#[trigger] s[j]).0@
}

/// The map an association list stands for.
pub open spec fn assoc_map(s: Seq<(String, TargetState)>) -> Map<Seq<char>, StateModel>
    decreases s.len(),
{
    if s.len() == 0 {
        Map::empty()
    } else {
        assoc_map(s.drop_last()).insert(s.last().0@, s.last().1.model())
    }
}

/// Membership in the map is occurrence in the list; with unique keys
/// the bound value is the one at the occurrence.
pub proof fn lemma_assoc_char(s: Seq<(String, TargetState)>, k: Seq<char>)
    ensures
        assoc_map(s).contains_key(k) <==> exists|i: int| 0 <= i < s.len() && (#[trigger] s[i]).0@
            == k,
        keys_unique(s) ==> forall|i: int|
            0 <= i < s.len() && (#[trigger] s[i]).0@ == k ==> assoc_map(s)[k] == s[i].1.model(),
    decreases s.len(),
{
    if s.len() == 0 {
    } else {
        lemma_assoc_char(s.drop_last(), k);
        let last = s.last();
        if last.0@ == k {
            assert(s[s.len() - 1].0@ == k);
        } else {
            if assoc_map(s).contains_key(k) {
                let i = choose|i: int|
                    0 <= i < s.drop_last().len() && (#[trigger] s.drop_last()[i]).0@ == k;
                assert(s[i].0@ == k);
            }
            if exists|i: int| 0 <= i < s.len() && (#[trigger] s[i]).0@ == k {
                let i = choose|i: int| 0 <= i < s.len() && (#[trigger] s[i]).0@ == k;
                assert(i < s.len() - 1);
                assert(s.drop_last()[i].0@ == k);
            }
        }
        if keys_unique(s) {
            assert(keys_unique(s.drop_last()));
            assert forall|i: int|
                0 <= i < s.len() && (#[trigger] s[i]).0@ == k implies assoc_map(s)[k]
                == s[i].1.model() by {
                if last.0@ == k {
                    // the key can only occur at the last position
                    if i < s.len() - 1 {
                        assert(s[i].0@ != s[s.len() - 1].0@);
                    }
                } else {
                    assert(i < s.len() - 1);
                    assert(s.drop_last()[i].0@ == k);
                }
            }
        }
    }
}

/// Per-target cascade states, keyed by the detector's target key.
pub struct StateTable {
    entries: Vec<(String, TargetState)>,
}

impl StateTable {
    /// Well-formed: one entry per target.
    pub closed spec fn wf(&self) -> bool {
        keys_unique(self.entries@)
    }

    /// The map of target keys to cascade states this table holds.
    pub closed spec fn view(&self) -> Map<Seq<char>, StateModel> {
        assoc_map(self.entries@)
    }

    pub fn new() -> (r: StateTable)
        ensures
            r.wf(),
            r@ == Map::<Seq<char>, StateModel>::empty(),
    {
        let r = StateTable { entries: Vec::new() };
        proof {
            assert(r@ =~= Map::<Seq<char>, StateModel>::empty());
        }
        r
    }

    /// Remove and return the state of `key`, or a fresh state when the
    /// target was never seen. The caller puts the stepped state back.
    pub fn take(&mut self, key: &String) -> (r: TargetState)
        requires
            old(self).wf(),
        ensures
            final(self).wf(),
            !final(self)@.contains_key(key@),
            final(self)@ == old(self)@.remove(key@),
            r.model() == if old(self)@.contains_key(key@) {
                old(self)@[key@]
            } else {
                fresh_state()
            },
    {
        let ghost s0 = self.entries@;
        let n = self.entries.len();
        let mut i: usize = 0;
        while i < n
            invariant
                n == self.entries@.len(),
                i <= n,
                self.entries@ == s0,
                s0 == old(self).entries@,
                keys_unique(s0),
                forall|j: int| 0 <= j < i ==> (#[trigger] s0[j]).0@ != key@,
            decreases n - i,
        {
            if self.entries[i].0 == *key {
                let (_k, st) = self.entries.swap_remove(i);
                proof {
                    let s1 = self.entries@;
                    assert(s1 =~= s0.update(i as int, s0[s0.len() - 1]).drop_last());
                    lemma_assoc_char(s0, key@);
                    assert(assoc_map(s0)[key@] == st.model());
                    // s1 holds exactly the entries of s0 other than i
                    assert(keys_unique(s1)) by {
                        assert forall|p: int, q: int|
                            0 <= p < q < s1.len() implies (#[trigger] s1[p]).0@ != (
                        #[trigger] s1[q]).0@ by {
                            let p0: int = if p == i { s0.len() - 1 } else { p };
                            let q0: int = if q == i { s0.len() - 1 } else { q };
                            assert(s1[p] == s0[p0]);
                            assert(s1[q] == s0[q0]);
                        }
                    }
                    assert forall|k2: Seq<char>| #[trigger]
                        assoc_map(s1).contains_key(k2) implies assoc_map(s0).remove(
                        key@,
                    ).contains_key(k2) && assoc_map(s1)[k2] == assoc_map(s0).remove(key@)[k2] by {
                        lemma_assoc_char(s1, k2);
                        lemma_assoc_char(s0, k2);
                        let j = choose|j: int| 0 <= j < s1.len() && (#[trigger] s1[j]).0@ == k2;
                        let j0: int = if j == i {
                            s0.len() - 1
                        } else {
                            j
                        };
                        assert(s1[j] == s0[j0]);
                        assert(s0[j0].0@ == k2);
                        assert(j0 != i) by {
                            if j == i {
                                assert(i < s0.len() - 1);
                            }
                        }
                        assert(k2 != key@) by {
                            if j0 < i {
                                assert(s0[j0].0@ != s0[i as int].0@);
                            } else {
                                assert(s0[i as int].0@ != s0[j0].0@);
                            }
                        }
                    }
                    assert forall|k2: Seq<char>| #[trigger]
                        assoc_map(s0).remove(key@).contains_key(k2) implies assoc_map(
                        s1,
                    ).contains_key(k2) by {
                        lemma_assoc_char(s1, k2);
                        lemma_assoc_char(s0, k2);
                        let j0 = choose|j0: int| 0 <= j0 < s0.len() && (#[trigger] s0[j0]).0@ == k2;
                        assert(j0 != i);
                        let j: int = if j0 == s0.len() - 1 {
                            i as int
                        } else {
                            j0
                        };
                        if j0 == s0.len() - 1 && i as int == s0.len() - 1 {
                            // removed the last entry; k2 still occurs earlier
                            assert(false) by {
                                assert(s0[j0].0@ == key@);
                            }
                        } else {
                            assert(s1[j] == s0[j0]);
                        }
                    }
                    assert(assoc_map(s1) =~= assoc_map(s0).remove(key@));
                    assert(!assoc_map(s1).contains_key(key@));
                }
                return st;
            }
            i = i + 1;
        }
        proof {
            lemma_assoc_char(s0, key@);
            assert(!assoc_map(s0).contains_key(key@));
            assert(assoc_map(s0) =~= assoc_map(s0).remove(key@));
        }
        TargetState::new()
    }

    /// Insert the state of a target not currently present.
    pub fn put(&mut self, key: String, st: TargetState)
        requires
            old(self).wf(),
            !old(self)@.contains_key(key@),
        ensures
            final(self).wf(),
            final(self)@ == old(self)@.insert(key@, st.model()),
    {
        proof {
            lemma_assoc_char(self.entries@, key@);
        }
        let ghost s0 = self.entries@;
        self.entries.push((key, st));
        proof {
            assert(self.entries@.drop_last() =~= s0);
            assert forall|p: int, q: int|
                0 <= p < q < self.entries@.len() implies (#[trigger] self.entries@[p]).0@ != (
            #[trigger] self.entries@[q]).0@ by {
                if q < self.entries@.len() - 1 {
                    assert(s0[p] == self.entries@[p]);
                    assert(s0[q] == self.entries@[q]);
                } else {
                    assert(self.entries@[p] == s0[p]);
                }
            }
        }
    }
}

} // verus!
