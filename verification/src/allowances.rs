//! The allowance table: (owner, spender, amount) triples held in insertion
//! order.
//!
//! A lookup reads the first triple whose (owner, spender) pair matches; an
//! absent pair reads as zero.

use vstd::pervasive::VecAdditionalExecFns;
use vstd::prelude::*;

verus! {

/// The amount that `owner` has granted `spender`, zero when no triple
/// carries the pair.
pub open spec fn alw_get(s: Seq<(u64, u64, u128)>, owner: u64, spender: u64) -> u128
    decreases s.len(),
{
    if s.len() == 0 {
        0
    } else if s[0].0 == owner && s[0].1 == spender {
        s[0].2
    } else {
        alw_get(s.drop_first(), owner, spender)
    }
}

proof fn lemma_alw_get_found(s: Seq<(u64, u64, u128)>, owner: u64, spender: u64, i: int)
    requires
        0 <= i < s.len(),
        s[i].0 == owner && s[i].1 == spender,
        forall|j: int| 0 <= j < i ==> !(s[j].0 == owner && s[j].1 == spender),
    ensures
        alw_get(s, owner, spender) == s[i].2,
    decreases i,
{
    if i > 0 {
        lemma_alw_get_found(s.drop_first(), owner, spender, i - 1);
    }
}

proof fn lemma_alw_get_absent(s: Seq<(u64, u64, u128)>, owner: u64, spender: u64)
    requires
        forall|j: int| 0 <= j < s.len() ==> !(s[j].0 == owner && s[j].1 == spender),
    ensures
        alw_get(s, owner, spender) == 0,
    decreases s.len(),
{
    if s.len() > 0 {
        lemma_alw_get_absent(s.drop_first(), owner, spender);
    }
}

proof fn lemma_alw_get_update(
    s: Seq<(u64, u64, u128)>,
    i: int,
    owner: u64,
    spender: u64,
    amount: u128,
    o: u64,
    p: u64,
)
    requires
        0 <= i < s.len(),
        s[i].0 == owner && s[i].1 == spender,
        forall|j: int| 0 <= j < i ==> !(s[j].0 == owner && s[j].1 == spender),
    ensures
        alw_get(s.update(i, (owner, spender, amount)), o, p) == if o == owner && p == spender {
            amount
        } else {
            alw_get(s, o, p)
        },
    decreases i,
{
    let t = s.update(i, (owner, spender, amount));
    if i == 0 {
        if !(o == owner && p == spender) {
            assert(t.drop_first() =~= s.drop_first());
        }
    } else {
        assert(t.drop_first() =~= s.drop_first().update(i - 1, (owner, spender, amount)));
        lemma_alw_get_update(s.drop_first(), i - 1, owner, spender, amount, o, p);
    }
}

proof fn lemma_alw_get_push(
    s: Seq<(u64, u64, u128)>,
    owner: u64,
    spender: u64,
    amount: u128,
    o: u64,
    p: u64,
)
    requires
        forall|j: int| 0 <= j < s.len() ==> !(s[j].0 == owner && s[j].1 == spender),
    ensures
        alw_get(s.push((owner, spender, amount)), o, p) == if o == owner && p == spender {
            amount
        } else {
            alw_get(s, o, p)
        },
    decreases s.len(),
{
    let t = s.push((owner, spender, amount));
    if s.len() == 0 {
        assert(t.len() == 1);
        assert(t[0] == (owner, spender, amount));
        if !(o == owner && p == spender) {
            assert(t.drop_first() =~= Seq::<(u64, u64, u128)>::empty());
            assert(alw_get(t.drop_first(), o, p) == 0);
            assert(alw_get(s, o, p) == 0);
        }
    } else {
        assert(t.drop_first() =~= s.drop_first().push((owner, spender, amount)));
        lemma_alw_get_push(s.drop_first(), owner, spender, amount, o, p);
        assert(t[0] == s[0]);
        assert(alw_get(t, o, p) == if t[0].0 == o && t[0].1 == p {
            t[0].2
        } else {
            alw_get(t.drop_first(), o, p)
        });
        assert(alw_get(s, o, p) == if s[0].0 == o && s[0].1 == p {
            s[0].2
        } else {
            alw_get(s.drop_first(), o, p)
        });
    }
}

/// The recorded amount for the pair, zero when the pair is absent.
pub(crate) fn lookup(v: &Vec<(u64, u64, u128)>, owner: u64, spender: u64) -> (amount: u128)
    ensures
        amount == alw_get(v@, owner, spender),
{
    let mut i: usize = 0;
    while i < v.len()
        invariant
            i <= v@.len(),
            forall|j: int| 0 <= j < i ==> !(v@[j].0 == owner && v@[j].1 == spender),
        decreases v@.len() - i,
    {
        if v[i].0 == owner && v[i].1 == spender {
            proof {
                lemma_alw_get_found(v@, owner, spender, i as int);
            }
            return v[i].2;
        }
        i = i + 1;
    }
    proof {
        lemma_alw_get_absent(v@, owner, spender);
    }
    0
}

/// Records `amount` for the pair: overwrites the triple that carries it, or
/// appends one when none does.
pub(crate) fn store(v: &mut Vec<(u64, u64, u128)>, owner: u64, spender: u64, amount: u128)
    ensures
        forall|o: u64, p: u64| alw_get(final(v)@, o, p) == if o == owner && p == spender {
            amount
        } else {
            alw_get(old(v)@, o, p)
        },
{
    let mut i: usize = 0;
    let n = v.len();
    while i < n
        invariant
            n == v@.len(),
            v@ == old(v)@,
            i <= n,
            forall|j: int| 0 <= j < i ==> !(v@[j].0 == owner && v@[j].1 == spender),
        decreases n - i,
    {
        if v[i].0 == owner && v[i].1 == spender {
            proof {
                assert forall|o: u64, p: u64|
                    alw_get(v@.update(i as int, (owner, spender, amount)), o, p) == if o == owner
                        && p == spender {
                        amount
                    } else {
                        alw_get(v@, o, p)
                    } by {
                    lemma_alw_get_update(v@, i as int, owner, spender, amount, o, p);
                }
            }
            v.set(i, (owner, spender, amount));
            return;
        }
        i = i + 1;
    }
    proof {
        assert forall|o: u64, p: u64|
            alw_get(v@.push((owner, spender, amount)), o, p) == if o == owner && p == spender {
                amount
            } else {
                alw_get(v@, o, p)
            } by {
            lemma_alw_get_push(v@, owner, spender, amount, o, p);
        }
    }
    v.push((owner, spender, amount));
}

} // verus!
