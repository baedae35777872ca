//! The balance table: account/amount pairs held in insertion order.
//!
//! A lookup reads the first pair whose key matches; an absent key reads as
//! zero.  The table also carries a total: the sum of all stored amounts,
//! which the ledger's conservation invariant ties to the total supply.

use vstd::pervasive::VecAdditionalExecFns;
use vstd::prelude::*;

verus! {

/// The amount recorded for `key`, zero when no pair carries it.
pub open spec fn bal_get(s: Seq<(u64, u128)>, key: u64) -> u128
    decreases s.len(),
{
    if s.len() == 0 {
        0
    } else if s[0].0 == key {
        s[0].1
    } else {
        bal_get(s.drop_first(), key)
    }
}

/// The sum of every stored amount, duplicates included.
pub open spec fn bal_sum(s: Seq<(u64, u128)>) -> int
    decreases s.len(),
{
    if s.len() == 0 {
        0
    } else {
        s[0].1 + bal_sum(s.drop_first())
    }
}

pub proof fn lemma_bal_sum_nonneg(s: Seq<(u64, u128)>)
    ensures
        bal_sum(s) >= 0,
    decreases s.len(),
{
    if s.len() > 0 {
        lemma_bal_sum_nonneg(s.drop_first());
    }
}

/// A single recorded amount never exceeds the sum of all of them.
pub proof fn lemma_bal_get_le_sum(s: Seq<(u64, u128)>, key: u64)
    ensures
        bal_get(s, key) <= bal_sum(s),
    decreases s.len(),
{
    if s.len() == 0 {
    } else if s[0].0 == key {
        lemma_bal_sum_nonneg(s.drop_first());
    } else {
        lemma_bal_get_le_sum(s.drop_first(), key);
        lemma_bal_sum_nonneg(s.drop_first());
    }
}

proof fn lemma_bal_get_found(s: Seq<(u64, u128)>, key: u64, i: int)
    requires
        0 <= i < s.len(),
        s[i].0 == key,
        forall|j: int| 0 <= j < i ==> s[j].0 != key,
    ensures
        bal_get(s, key) == s[i].1,
    decreases i,
{
    if i > 0 {
        lemma_bal_get_found(s.drop_first(), key, i - 1);
    }
}

proof fn lemma_bal_get_absent(s: Seq<(u64, u128)>, key: u64)
    requires
        forall|j: int| 0 <= j < s.len() ==> s[j].0 != key,
    ensures
        bal_get(s, key) == 0,
    decreases s.len(),
{
    if s.len() > 0 {
        lemma_bal_get_absent(s.drop_first(), key);
    }
}

proof fn lemma_bal_get_update(s: Seq<(u64, u128)>, i: int, key: u64, amount: u128, k: u64)
    requires
        0 <= i < s.len(),
        s[i].0 == key,
        forall|j: int| 0 <= j < i ==> s[j].0 != key,
    ensures
        bal_get(s.update(i, (key, amount)), k) == if k == key {
            amount
        } else {
            bal_get(s, k)
        },
    decreases i,
{
    let t = s.update(i, (key, amount));
    if i == 0 {
        if k != key {
            assert(t.drop_first() =~= s.drop_first());
        }
    } else {
        assert(t.drop_first() =~= s.drop_first().update(i - 1, (key, amount)));
        lemma_bal_get_update(s.drop_first(), i - 1, key, amount, k);
    }
}

proof fn lemma_bal_sum_update(s: Seq<(u64, u128)>, i: int, key: u64, amount: u128)
    requires
        0 <= i < s.len(),
    ensures
        bal_sum(s.update(i, (key, amount))) == bal_sum(s) - s[i].1 + amount,
    decreases i,
{
    let t = s.update(i, (key, amount));
    if i == 0 {
        assert(t.drop_first() =~= s.drop_first());
    } else {
        assert(t.drop_first() =~= s.drop_first().update(i - 1, (key, amount)));
        lemma_bal_sum_update(s.drop_first(), i - 1, key, amount);
    }
}

proof fn lemma_bal_get_push(s: Seq<(u64, u128)>, key: u64, amount: u128, k: u64)
    requires
        forall|j: int| 0 <= j < s.len() ==> s[j].0 != key,
    ensures
        bal_get(s.push((key, amount)), k) == if k == key {
            amount
        } else {
            bal_get(s, k)
        },
    decreases s.len(),
{
    let t = s.push((key, amount));
    if s.len() == 0 {
        assert(t.len() == 1);
        assert(t[0] == (key, amount));
        if k != key {
            assert(t.drop_first() =~= Seq::<(u64, u128)>::empty());
            assert(bal_get(t.drop_first(), k) == 0);
            assert(bal_get(s, k) == 0);
        }
    } else {
        assert(t.drop_first() =~= s.drop_first().push((key, amount)));
        lemma_bal_get_push(s.drop_first(), key, amount, k);
        assert(t[0] == s[0]);
        assert(bal_get(t, k) == if t[0].0 == k {
            t[0].1
        } else {
            bal_get(t.drop_first(), k)
        });
        assert(bal_get(s, k) == if s[0].0 == k {
            s[0].1
        } else {
            bal_get(s.drop_first(), k)
        });
    }
}

proof fn lemma_bal_sum_push(s: Seq<(u64, u128)>, key: u64, amount: u128)
    ensures
        bal_sum(s.push((key, amount))) == bal_sum(s) + amount,
    decreases s.len(),
{
    let t = s.push((key, amount));
    if s.len() == 0 {
        assert(t.drop_first() =~= Seq::<(u64, u128)>::empty());
        assert(t.len() == 1);
        assert(t[0] == (key, amount));
        assert(bal_sum(t.drop_first()) == 0);
        assert(bal_sum(t) == amount);
        assert(bal_sum(s) == 0);
    } else {
        assert(t.drop_first() =~= s.drop_first().push((key, amount)));
        lemma_bal_sum_push(s.drop_first(), key, amount);
        assert(t[0] == s[0]);
        assert(bal_sum(t) == t[0].1 + bal_sum(t.drop_first()));
        assert(bal_sum(s) == s[0].1 + bal_sum(s.drop_first()));
    }
}

/// The recorded amount for `key`, zero when `key` is absent.
pub(crate) fn lookup(v: &Vec<(u64, u128)>, key: u64) -> (amount: u128)
    ensures
        amount == bal_get(v@, key),
{
    let mut i: usize = 0;
    while i < v.len()
        invariant
            i <= v@.len(),
            forall|j: int| 0 <= j < i ==> v@[j].0 != key,
        decreases v@.len() - i,
    {
        if v[i].0 == key {
            proof {
                lemma_bal_get_found(v@, key, i as int);
            }
            return v[i].1;
        }
        i = i + 1;
    }
    proof {
        lemma_bal_get_absent(v@, key);
    }
    0
}

/// Records `amount` for `key`: overwrites the pair that carries `key`, or
/// appends one when none does.
pub(crate) fn store(v: &mut Vec<(u64, u128)>, key: u64, amount: u128)
    ensures
        forall|k: u64| bal_get(final(v)@, k) == if k == key {
            amount
        } else {
            bal_get(old(v)@, k)
        },
        bal_sum(final(v)@) == bal_sum(old(v)@) - bal_get(old(v)@, key) + amount,
{
    let mut i: usize = 0;
    let n = v.len();
    while i < n
        invariant
            n == v@.len(),
            v@ == old(v)@,
            i <= n,
            forall|j: int| 0 <= j < i ==> v@[j].0 != key,
        decreases n - i,
    {
        if v[i].0 == key {
            proof {
                lemma_bal_get_found(v@, key, i as int);
                lemma_bal_sum_update(v@, i as int, key, amount);
                assert forall|k: u64|
                    bal_get(v@.update(i as int, (key, amount)), k) == if k == key {
                        amount
                    } else {
                        bal_get(v@, k)
                    } by {
                    lemma_bal_get_update(v@, i as int, key, amount, k);
                }
            }
            v.set(i, (key, amount));
            return;
        }
        i = i + 1;
    }
    proof {
        lemma_bal_get_absent(v@, key);
        lemma_bal_sum_push(v@, key, amount);
        assert forall|k: u64|
            bal_get(v@.push((key, amount)), k) == if k == key {
                amount
            } else {
                bal_get(v@, k)
            } by {
            lemma_bal_get_push(v@, key, amount, k);
        }
    }
    v.push((key, amount));
}

} // verus!
