//! The token registry: a deduplicating, insertion-ordered store of normalized
//! values. Ordinals are 0-based first-insertion positions, stable for the
//! lifetime of a run. Backed by `indexmap::IndexSet`, used through trusted
//! wrappers whose contracts state what the crate's documentation promises.

use vstd::prelude::*;

verus! {

#[verifier::external_type_specification]
#[verifier::external_body]
#[verifier::reject_recursive_types(T)]
#[verifier::reject_recursive_types(S)]
pub struct ExIndexSet<T, S>(indexmap::IndexSet<T, S>);

/// The values held by an `IndexSet` of strings, in insertion order.
pub uninterp spec fn index_set_elems(s: indexmap::IndexSet<String>) -> Seq<Seq<char>>;

/// Relies on IndexSet::new: creates an empty set.
#[verifier::external_body]
fn index_set_new() -> (s: indexmap::IndexSet<String>)
    ensures
        index_set_elems(s) == Seq::<Seq<char>>::empty(),
{
    indexmap::IndexSet::new()
}

/// Relies on IndexSet::insert: appends a new value at the end of the
/// insertion order, or leaves the set unchanged (including the order) when an
/// equal value is already present.
#[verifier::external_body]
fn index_set_insert(s: &mut indexmap::IndexSet<String>, v: &String)
    ensures
        index_set_elems(*final(s)) == if index_set_elems(*old(s)).contains(v@) {
            index_set_elems(*old(s))
        } else {
            index_set_elems(*old(s)).push(v@)
        },
{
    s.insert(v.clone());
}

/// Relies on IndexSet::get_index_of: returns the index of the value equal to
/// `v`, or `None` if no such value is in the set.
#[verifier::external_body]
fn index_set_get_index_of(s: &indexmap::IndexSet<String>, v: &String) -> (r: Option<usize>)
    ensures
        match r {
            Some(i) => i < index_set_elems(*s).len() && index_set_elems(*s)[i as int] == v@,
            None => !index_set_elems(*s).contains(v@),
        },
{
    s.get_index_of(v)
}

/// The registry contents after an idempotent insert of `v`.
pub open spec fn reg_insert_spec(s: Seq<Seq<char>>, v: Seq<char>) -> Seq<Seq<char>> {
    if s.contains(v) {
        s
    } else {
        s.push(v)
    }
}

/// The index of the first occurrence of `v` in `s`, or -1 if absent.
pub open spec fn first_idx(s: Seq<Seq<char>>, v: Seq<char>) -> int
    decreases s.len(),
{
    if s.len() == 0 {
        -1
    } else if s[0] == v {
        0
    } else {
        let r = first_idx(s.drop_first(), v);
        if r < 0 {
            -1
        } else {
            r + 1
        }
    }
}

/// The ordinal that an idempotent insert of `v` into `s` yields: the position
/// of the existing equal value, or the position at which `v` is appended.
pub open spec fn reg_ordinal(s: Seq<Seq<char>>, v: Seq<char>) -> int {
    if s.contains(v) {
        first_idx(s, v)
    } else {
        s.len() as int
    }
}

/// No value occurs twice.
pub open spec fn distinct_seq(s: Seq<Seq<char>>) -> bool {
    forall|i: int, j: int| 0 <= i < j < s.len() ==> s[i] != s[j]
}

/// `first_idx` finds the first occurrence, and is -1 exactly when absent.
pub proof fn lemma_first_idx(s: Seq<Seq<char>>, v: Seq<char>)
    ensures
        -1 <= first_idx(s, v) < s.len(),
        s.contains(v) <==> first_idx(s, v) >= 0,
        first_idx(s, v) >= 0 ==> s[first_idx(s, v)] == v,
        first_idx(s, v) >= 0 ==> forall|j: int| 0 <= j < first_idx(s, v) ==> s[j] != v,
    decreases s.len(),
{
    if s.len() == 0 {
        assert(!s.contains(v));
    } else if s[0] == v {
        assert(s.contains(v));
    } else {
        lemma_first_idx(s.drop_first(), v);
        let r = first_idx(s.drop_first(), v);
        assert forall|j: int| 0 <= j < s.len() implies s[j] == s.drop_first()[j - 1] || j == 0 by {
            if j > 0 {
                assert(s.drop_first()[j - 1] == s[j]);
            }
        }
        if r >= 0 {
            assert(s[r + 1] == s.drop_first()[r]);
            assert(s.contains(v));
            assert forall|j: int| 0 <= j < r + 1 implies s[j] != v by {
                if j > 0 {
                    assert(s[j] == s.drop_first()[j - 1]);
                }
            }
        } else {
            if s.contains(v) {
                let w = choose|k: int| 0 <= k < s.len() && s[k] == v;
                assert(w > 0);
                assert(s.drop_first()[w - 1] == s[w]);
                assert(s.drop_first().contains(v));
                assert(false);
            }
        }
    }
}

/// The token registry.
pub struct Registry {
    set: indexmap::IndexSet<String>,
}

impl Registry {
    /// The stored normalized values, in insertion order.
    pub closed spec fn view(&self) -> Seq<Seq<char>> {
        index_set_elems(self.set)
    }

    /// The registry never holds a value twice.
    pub open spec fn inv(&self) -> bool {
        distinct_seq(self.view())
    }

    /// Creates an empty registry.
    pub fn new() -> (r: Registry)
        ensures
            r.inv(),
            r.view() == Seq::<Seq<char>>::empty(),
    {
        Registry { set: index_set_new() }
    }

    /// Inserts a normalized value if absent and returns its stable ordinal:
    /// the 0-based position of its first insertion.
    pub fn insert_if_absent(&mut self, v: &String) -> (ordinal: usize)
        requires
            old(self).inv(),
        ensures
            final(self).inv(),
            final(self).view() == reg_insert_spec(old(self).view(), v@),
            ordinal as int == reg_ordinal(old(self).view(), v@),
    {
        proof {
            lemma_first_idx(index_set_elems(self.set), v@);
        }
        let ghost s1 = index_set_elems(self.set);
        index_set_insert(&mut self.set, v);
        let ghost s2 = index_set_elems(self.set);
        proof {
            if !s1.contains(v@) {
                assert(s2 == s1.push(v@));
                assert(s2[s1.len() as int] == v@);
                assert(s2.contains(v@));
                assert forall|i: int, j: int| 0 <= i < j < s2.len() implies s2[i] != s2[j] by {
                    if j < s1.len() {
                        assert(s2[i] == s1[i] && s2[j] == s1[j]);
                    } else {
                        assert(s2[j] == v@);
                        assert(s2[i] == s1[i]);
                        if s1[i] == v@ {
                            assert(s1.contains(v@));
                        }
                    }
                }
            }
        }
        let r = index_set_get_index_of(&self.set, v);
        match r {
            Some(i) => {
                proof {
                    lemma_first_idx(s1, v@);
                    if s1.contains(v@) {
                        let fi = first_idx(s1, v@);
                        assert(s2 == s1);
                        assert(s2[i as int] == v@);
                        assert(s1[fi] == v@);
                        if fi != i as int {
                            assert(false);
                        }
                    } else {
                        assert(s2 == s1.push(v@));
                        if (i as int) < s1.len() {
                            assert(s2[i as int] == s1[i as int]);
                            assert(s1.contains(v@));
                            assert(false);
                        }
                        assert(i as int == s1.len());
                    }
                }
                i
            },
            None => {
                proof {
                    assert(s2.contains(v@));
                    assert(false);
                }
                0
            },
        }
    }
}

} // verus!
