//! The label store: a mapping from item strings (an address, a transaction
//! id, or an outpoint) to user-assigned text, created or overwritten by
//! explicit update, read by query, never auto-expired.

use vstd::prelude::*;

use crate::engine::WalletEngine;

verus! {

/// The value stored under key `k`, if any.
pub open spec fn label_of(s: Seq<(String, String)>, k: Seq<char>) -> Option<Seq<char>>
    decreases s.len(),
{
    if s.len() == 0 {
        None
    } else {
        let r = label_of(s.drop_last(), k);
        if r is Some {
            r
        } else if s.last().0@ == k {
            Some(s.last().1@)
        } else {
            None
        }
    }
}

/// A key that occurs nowhere maps to nothing.
pub proof fn lemma_label_of_absent(s: Seq<(String, String)>, k: Seq<char>)
    requires
        forall|j: int| 0 <= j < s.len() ==> (#[trigger] s[j]).0@ != k,
    ensures
        label_of(s, k) is None,
    decreases s.len(),
{
    if s.len() > 0 {
        lemma_label_of_absent(s.drop_last(), k);
        assert(s[s.len() - 1] == s.last());
    }
}

/// A value found in a prefix is the store's answer.
pub proof fn lemma_label_of_extend(s: Seq<(String, String)>, t: int, k: Seq<char>)
    requires
        0 <= t <= s.len(),
        label_of(s.take(t), k) is Some,
    ensures
        label_of(s, k) == label_of(s.take(t), k),
    decreases s.len() - t,
{
    if t == s.len() {
        assert(s.take(t) =~= s);
    } else {
        assert(s.take(t + 1).drop_last() =~= s.take(t));
        lemma_label_of_extend(s, t + 1, k);
    }
}

/// Overwriting the pair at `i` with one under the same key changes exactly
/// that key's answer.
pub proof fn lemma_label_of_update(
    s: Seq<(String, String)>,
    i: int,
    p: (String, String),
    k: Seq<char>,
)
    requires
        0 <= i < s.len(),
        forall|a: int, b: int| 0 <= a < b < s.len() ==> (#[trigger] s[a]).0@ != (#[trigger] s[b]).0@,
        p.0@ == s[i].0@,
    ensures
        label_of(s.update(i, p), k) == (if k == s[i].0@ {
            Some(p.1@)
        } else {
            label_of(s, k)
        }),
    decreases s.len(),
{
    let s2 = s.update(i, p);
    if i == s.len() - 1 {
        assert(s2.drop_last() =~= s.drop_last());
        if k == s[i].0@ {
            assert forall|j: int|
                0 <= j < s.drop_last().len() implies (#[trigger] s.drop_last()[j]).0@ != k by {
                assert(s.drop_last()[j] == s[j]);
            }
            lemma_label_of_absent(s.drop_last(), k);
        }
        assert(s2.last() == p);
    } else {
        assert(s2.drop_last() =~= s.drop_last().update(i, p));
        assert forall|a: int, b: int|
            0 <= a < b < s.drop_last().len() implies (#[trigger] s.drop_last()[a]).0@ != (
        #[trigger] s.drop_last()[b]).0@ by {
            assert(s.drop_last()[a] == s[a] && s.drop_last()[b] == s[b]);
        }
        assert(s.drop_last()[i] == s[i]);
        lemma_label_of_update(s.drop_last(), i, p, k);
        assert(s2.last() == s.last());
        if k == s[i].0@ {
            assert(s.last().0@ != k);
        }
    }
}

impl WalletEngine {
    /// Creates or overwrites the label under `item`.
    pub fn set_label(&mut self, item: &String, value: &String)
        requires
            old(self).wf(),
        ensures
            final(self).wf(),
            label_of(final(self).labels@, item@) == Some(value@),
            forall|k: Seq<char>|
                k != item@ ==> #[trigger] label_of(final(self).labels@, k) == label_of(
                    old(self).labels@,
                    k,
                ),
            final(self).store == old(self).store,
            final(self).drafts@ == old(self).drafts@,
            final(self).txs@ == old(self).txs@,
            final(self).rescan == old(self).rescan,
            final(self).tip_height == old(self).tip_height,
            final(self).recovery_timelock == old(self).recovery_timelock,
            final(self).mainnet == old(self).mainnet,
            final(self).change_address == old(self).change_address,
            final(self).next_derivation_index == old(self).next_derivation_index,
    {
        let n = self.labels.len();
        let mut i: usize = 0;
        while i < n
            invariant
                *self == *old(self),
                self.wf(),
                n == self.labels@.len(),
                i <= n,
                forall|j: int| 0 <= j < i ==> (#[trigger] self.labels@[j]).0@ != item@,
            decreases n - i,
        {
            if self.labels[i].0 == *item {
                let p = (item.clone(), value.clone());
                proof {
                    assert(p.0@ == self.labels@[i as int].0@);
                    assert forall|k: Seq<char>| true implies #[trigger] label_of(
                        self.labels@.update(i as int, p),
                        k,
                    ) == (if k == self.labels@[i as int].0@ {
                        Some(p.1@)
                    } else {
                        label_of(self.labels@, k)
                    }) by {
                        lemma_label_of_update(self.labels@, i as int, p, k);
                    }
                }
                self.labels[i] = p;
                return ;
            }
            i = i + 1;
        }
        let p = (item.clone(), value.clone());
        proof {
            lemma_label_of_absent(self.labels@, item@);
            assert(self.labels@.push(p).drop_last() =~= self.labels@);
            assert forall|k: Seq<char>|
                k != item@ implies #[trigger] label_of(self.labels@.push(p), k) == label_of(
                self.labels@,
                k,
            ) by {
                assert(self.labels@.push(p).last() == p);
            }
        }
        self.labels.push(p);
    }

    /// The label stored under `item`, if any.
    pub fn get_label(&self, item: &String) -> (r: Option<String>)
        requires
            self.wf(),
        ensures
            match r {
                Some(v) => label_of(self.labels@, item@) == Some(v@),
                None => label_of(self.labels@, item@) is None,
            },
    {
        let n = self.labels.len();
        let mut i: usize = 0;
        while i < n
            invariant
                self.wf(),
                n == self.labels@.len(),
                i <= n,
                label_of(self.labels@.take(i as int), item@) is None,
            decreases n - i,
        {
            proof {
                assert(self.labels@.take(i + 1).drop_last() =~= self.labels@.take(i as int));
                assert(self.labels@.take(i + 1).last() == self.labels@[i as int]);
            }
            if self.labels[i].0 == *item {
                proof {
                    lemma_label_of_extend(self.labels@, i + 1, item@);
                }
                return Some(self.labels[i].1.clone());
            }
            i = i + 1;
        }
        proof {
            assert(self.labels@.take(n as int) =~= self.labels@);
        }
        None
    }
}

} // verus!
