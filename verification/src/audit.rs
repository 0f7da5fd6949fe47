//! The audit log: a sorted, duplicate-eliminating collection of audit-record
//! lines. Iteration order is lexicographic over the record text, independent
//! of insertion order.

use vstd::prelude::*;
use crate::text::{
    lex_lt,
    str_lex_lt,
    lemma_lex_lt_irrefl,
    lemma_lex_lt_connex,
    lemma_lex_lt_asym,
    lemma_lex_lt_trans,
};

verus! {

/// The records are strictly sorted (so also duplicate-free).
pub open spec fn log_sorted(s: Seq<Seq<char>>) -> bool {
    forall|i: int, j: int| 0 <= i < j < s.len() ==> lex_lt(s[i], s[j])
}

/// The log contents after inserting `v` into its sorted position, unless an
/// equal record is already present.
pub open spec fn sorted_insert(s: Seq<Seq<char>>, v: Seq<char>) -> Seq<Seq<char>>
    decreases s.len(),
{
    if s.len() == 0 {
        seq![v]
    } else if lex_lt(v, s[0]) {
        seq![v] + s
    } else if v == s[0] {
        s
    } else {
        seq![s[0]] + sorted_insert(s.drop_first(), v)
    }
}

/// Inserting into a sorted log keeps it sorted, and the result holds exactly
/// the old records and `v`.
pub proof fn lemma_sorted_insert(s: Seq<Seq<char>>, v: Seq<char>)
    requires
        log_sorted(s),
    ensures
        log_sorted(sorted_insert(s, v)),
        forall|x: Seq<char>|
            #[trigger] sorted_insert(s, v).contains(x) <==> (s.contains(x) || x == v),
    decreases s.len(),
{
    let out = sorted_insert(s, v);
    if s.len() == 0 {
        assert(out =~= seq![v]);
        assert(out[0] == v);
        assert forall|x: Seq<char>| #[trigger] out.contains(x) implies (s.contains(x) || x == v)
        by {}
        assert(out.contains(v));
    } else if lex_lt(v, s[0]) {
        assert(out =~= seq![v] + s);
        assert forall|i: int, j: int| 0 <= i < j < out.len() implies lex_lt(out[i], out[j]) by {
            if i == 0 {
                if j == 1 {
                    assert(out[j] == s[0]);
                } else {
                    assert(lex_lt(s[0], s[j - 1]));
                    lemma_lex_lt_trans(v, s[0], s[j - 1]);
                }
            } else {
                assert(out[i] == s[i - 1] && out[j] == s[j - 1]);
            }
        }
        assert forall|x: Seq<char>| #[trigger] out.contains(x) implies (s.contains(x) || x == v)
        by {
            let k = choose|k: int| 0 <= k < out.len() && out[k] == x;
            if k > 0 {
                assert(s[k - 1] == x);
            }
        }
        assert forall|x: Seq<char>| s.contains(x) || x == v implies #[trigger] out.contains(x) by {
            if s.contains(x) {
                let k = choose|k: int| 0 <= k < s.len() && s[k] == x;
                assert(out[k + 1] == x);
            } else {
                assert(out[0] == x);
            }
        }
    } else if v == s[0] {
        assert(out =~= s);
        assert(out.contains(v)) by {
            assert(out[0] == v);
        }
    } else {
        let t = s.drop_first();
        assert forall|i: int, j: int| 0 <= i < j < t.len() implies lex_lt(t[i], t[j]) by {
            assert(t[i] == s[i + 1] && t[j] == s[j + 1]);
        }
        lemma_sorted_insert(t, v);
        let rest = sorted_insert(t, v);
        assert(out =~= seq![s[0]] + rest);
        lemma_lex_lt_irrefl(v);
        if !lex_lt(s[0], v) {
            lemma_lex_lt_connex(v, s[0]);
            assert(false);
        }
        assert(lex_lt(s[0], v));
        assert forall|i: int, j: int| 0 <= i < j < out.len() implies lex_lt(out[i], out[j]) by {
            if i == 0 {
                let x = out[j];
                assert(rest.contains(x)) by {
                    assert(rest[j - 1] == x);
                }
                if x == v {
                    assert(lex_lt(s[0], v));
                } else {
                    assert(t.contains(x));
                    let k = choose|k: int| 0 <= k < t.len() && t[k] == x;
                    assert(t[k] == s[k + 1]);
                    assert(lex_lt(s[0], s[k + 1]));
                }
            } else {
                assert(out[i] == rest[i - 1] && out[j] == rest[j - 1]);
            }
        }
        assert forall|x: Seq<char>| #[trigger] out.contains(x) implies (s.contains(x) || x == v)
        by {
            let k = choose|k: int| 0 <= k < out.len() && out[k] == x;
            if k == 0 {
                assert(s[0] == x);
            } else {
                assert(rest[k - 1] == x);
                assert(rest.contains(x));
                if x != v {
                    assert(t.contains(x));
                    let m = choose|m: int| 0 <= m < t.len() && t[m] == x;
                    assert(s[m + 1] == x);
                }
            }
        }
        assert forall|x: Seq<char>| s.contains(x) || x == v implies #[trigger] out.contains(x) by {
            if s.contains(x) {
                let k = choose|k: int| 0 <= k < s.len() && s[k] == x;
                if k == 0 {
                    assert(out[0] == x);
                } else {
                    assert(t[k - 1] == x);
                    assert(t.contains(x));
                    assert(rest.contains(x));
                    let m = choose|m: int| 0 <= m < rest.len() && rest[m] == x;
                    assert(out[m + 1] == x);
                }
            } else {
                assert(rest.contains(x));
                let m = choose|m: int| 0 <= m < rest.len() && rest[m] == x;
                assert(out[m + 1] == x);
            }
        }
    }
}

/// If every record before position `i` precedes `v`, inserting `v` only
/// touches the part of the log from `i` on.
proof fn lemma_sorted_insert_skip(s: Seq<Seq<char>>, v: Seq<char>, i: int)
    requires
        0 <= i <= s.len(),
        forall|j: int| 0 <= j < i ==> lex_lt(s[j], v),
    ensures
        sorted_insert(s, v) == s.take(i) + sorted_insert(s.skip(i), v),
    decreases i,
{
    if i == 0 {
        assert(s.take(0) =~= Seq::<Seq<char>>::empty());
        assert(s.skip(0) =~= s);
        assert(s.take(0) + sorted_insert(s, v) =~= sorted_insert(s, v));
    } else {
        assert(lex_lt(s[0], v));
        lemma_lex_lt_asym(s[0], v);
        assert(!lex_lt(v, s[0]));
        assert(v != s[0]) by {
            if v == s[0] {
                lemma_lex_lt_irrefl(v);
            }
        }
        let t = s.drop_first();
        assert forall|j: int| 0 <= j < i - 1 implies lex_lt(t[j], v) by {
            assert(t[j] == s[j + 1]);
        }
        lemma_sorted_insert_skip(t, v, i - 1);
        assert(t.skip(i - 1) =~= s.skip(i));
        assert(seq![s[0]] + (t.take(i - 1) + sorted_insert(s.skip(i), v)) =~= s.take(i)
            + sorted_insert(s.skip(i), v));
    }
}

/// The audit log.
pub struct AuditLog {
    entries: Vec<String>,
}

impl AuditLog {
    /// The record texts, in their sorted order.
    pub closed spec fn view(&self) -> Seq<Seq<char>> {
        Seq::new(self.entries@.len(), |i: int| self.entries@[i]@)
    }

    /// Creates an empty log.
    pub fn new() -> (r: AuditLog)
        ensures
            r.view() == Seq::<Seq<char>>::empty(),
            log_sorted(r.view()),
    {
        let r = AuditLog { entries: Vec::new() };
        proof {
            assert(r.view() =~= Seq::<Seq<char>>::empty());
        }
        r
    }

    /// Adds a record at its sorted position; an already-present record is
    /// dropped, so the log stays sorted and duplicate-free.
    pub fn add(&mut self, rec: String)
        requires
            log_sorted(old(self).view()),
        ensures
            final(self).view() == sorted_insert(old(self).view(), rec@),
            log_sorted(final(self).view()),
    {
        let ghost s0 = self.view();
        let mut i: usize = 0;
        let n = self.entries.len();
        loop
            invariant_except_break
                n == self.entries@.len(),
                s0 == self.view(),
                i <= n,
                forall|j: int| 0 <= j < i ==> lex_lt(s0[j], rec@),
            ensures
                n == self.entries@.len(),
                s0 == self.view(),
                i <= n,
                forall|j: int| 0 <= j < i ==> lex_lt(s0[j], rec@),
                i == n || !lex_lt(s0[i as int], rec@),
            decreases n - i,
        {
            if i >= n {
                break ;
            }
            if !str_lex_lt(self.entries[i].as_str(), rec.as_str()) {
                proof {
                    assert(s0[i as int] == self.entries@[i as int]@);
                }
                break ;
            }
            proof {
                assert(s0[i as int] == self.entries@[i as int]@);
            }
            i = i + 1;
        }
        proof {
            lemma_sorted_insert_skip(s0, rec@, i as int);
            lemma_sorted_insert(s0, rec@);
        }
        if i < n {
            let same = {
                let e: &String = &self.entries[i];
                e.eq(&rec)
            };
            proof {
                let m = s0.skip(i as int);
                assert(m[0] == s0[i as int]);
                assert(s0[i as int] == self.entries@[i as int]@);
            }
            if same {
                proof {
                    lemma_lex_lt_irrefl(rec@);
                    let m = s0.skip(i as int);
                    assert(sorted_insert(m, rec@) == m);
                    assert(s0.take(i as int) + s0.skip(i as int) =~= s0);
                    assert(final(self).view() == sorted_insert(s0, rec@));
                }
            } else {
                proof {
                    let m = s0.skip(i as int);
                    if !lex_lt(rec@, s0[i as int]) {
                        lemma_lex_lt_connex(s0[i as int], rec@);
                        assert(false);
                    }
                    assert(lex_lt(rec@, m[0]));
                    assert(sorted_insert(m, rec@) == seq![rec@] + m);
                }
                self.entries.insert(i, rec);
                proof {
                    assert(self.view() =~= s0.take(i as int) + (seq![rec@] + s0.skip(i as int)));
                }
            }
        } else {
            proof {
                let m = s0.skip(i as int);
                assert(m.len() == 0);
                assert(sorted_insert(m, rec@) == seq![rec@]);
            }
            self.entries.insert(i, rec);
            proof {
                assert(self.view() =~= s0.take(i as int) + seq![rec@]);
            }
        }
    }

    /// Hands the sorted record lines out.
    pub fn into_lines(self) -> (r: Vec<String>)
        ensures
            r@.len() == self.view().len(),
            forall|i: int| 0 <= i < r@.len() ==> r@[i]@ == self.view()[i],
    {
        self.entries
    }
}

} // verus!
