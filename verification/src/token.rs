//! The token ledger: a fixed total supply, per-account balances,
//! per-(owner, spender) allowances, and a log of notification events.
//!
//! Every mutating operation takes the caller's identity as an explicit
//! argument, checks before it writes, and records a [`Transfer`] or
//! [`Approval`] event on success.  The conservation invariant
//! ([`Token::well_formed`]) — the balances sum to the total supply — is
//! established at construction and preserved by every operation.

use crate::allowances;
use crate::balances;
use vstd::prelude::*;

verus! {

/// An account: an opaque identity with equality, nothing more is assumed.
pub type AccountId = u64;

/// An amount of tokens; wide enough that a supply never overflows it.
pub type Balance = u128;

/// Notification of a movement of tokens; `from` is `None` on the mint at
/// construction.
#[derive(Debug, PartialEq, Eq)]
pub struct Transfer {
    pub from: Option<AccountId>,
    pub to: Option<AccountId>,
    pub value: Balance,
}

/// Notification that `owner` allows `spender` to withdraw up to `value`.
#[derive(Debug, PartialEq, Eq)]
pub struct Approval {
    pub owner: AccountId,
    pub spender: AccountId,
    pub value: Balance,
}

/// One entry of the ledger's event log.
#[derive(Debug, PartialEq, Eq)]
pub enum Event {
    Transfer(Transfer),
    Approval(Approval),
}

/// The two ways an operation can fail; every failure leaves the ledger
/// unchanged.
#[derive(Debug, Clone, Copy, PartialEq, Eq, Structural)]
pub enum Error {
    /// The source account holds less than the requested amount.
    InsufficientBalance,
    /// The spender's allowance is less than the requested amount.
    InsufficientAllowance,
}

/// The transfer event recorded for a movement from `from` to `to`.
pub open spec fn transfer_event(from: Option<AccountId>, to: Option<AccountId>, value: Balance) -> Event {
    Event::Transfer(Transfer { from, to, value })
}

/// The approval event recorded when `owner` grants `spender` up to `value`.
pub open spec fn approval_event(owner: AccountId, spender: AccountId, value: Balance) -> Event {
    Event::Approval(Approval { owner, spender, value })
}

/// The fungible-token ledger.
pub struct Token {
    /// Number of tokens in circulation; fixed at construction.
    total_supply: Balance,
    /// Account/amount pairs; an absent account holds zero.
    balances: Vec<(AccountId, Balance)>,
    /// (owner, spender, amount) triples; an absent pair grants zero.
    allowances: Vec<(AccountId, AccountId, Balance)>,
    /// Every event recorded so far, oldest first.
    events: Vec<Event>,
}

impl Token {
    /// The total supply fixed at construction.
    pub closed spec fn spec_total_supply(self) -> Balance {
        self.total_supply
    }

    /// The stored balance table.
    pub closed spec fn spec_balances(self) -> Seq<(AccountId, Balance)> {
        self.balances@
    }

    /// The stored allowance table.
    pub closed spec fn spec_allowances(self) -> Seq<(AccountId, AccountId, Balance)> {
        self.allowances@
    }

    /// The events recorded so far, oldest first.
    pub closed spec fn spec_events(self) -> Seq<Event> {
        self.events@
    }

    /// The balance of `owner`; zero for an account never seen.
    pub open spec fn spec_balance_of(self, owner: AccountId) -> Balance {
        balances::bal_get(self.spec_balances(), owner)
    }

    /// The allowance `owner` has granted `spender`; zero when never granted.
    pub open spec fn spec_allowance_of(self, owner: AccountId, spender: AccountId) -> Balance {
        allowances::alw_get(self.spec_allowances(), owner, spender)
    }

    /// Conservation of supply: the stored balances sum to the total supply.
    pub open spec fn well_formed(self) -> bool {
        balances::bal_sum(self.spec_balances()) == self.spec_total_supply() as int
    }
}

/// The balance `account` ends with when `amount` moves from `from` to `to`
/// and it started with `before`.
pub open spec fn shifted(
    before: Balance,
    account: AccountId,
    from: AccountId,
    to: AccountId,
    amount: Balance,
) -> int {
    before - (if account == from { amount as int } else { 0 }) + (
    if account == to {
        amount as int
    } else {
        0
    })
}

/// Every balance of `post` is the one of `pre` shifted by the movement of
/// `amount` from `from` to `to`; a self-transfer shifts nothing.
pub open spec fn balances_shifted(
    pre: Token,
    post: Token,
    from: AccountId,
    to: AccountId,
    amount: Balance,
) -> bool {
    forall|account: AccountId| #[trigger]
        post.spec_balance_of(account) == shifted(
            pre.spec_balance_of(account),
            account,
            from,
            to,
            amount,
        )
}

/// How a successful transfer of `amount` from `from` to `to` relates the
/// ledger before (`pre`) and after (`post`): the source covered the amount,
/// the balances shifted by it, and everything else is unchanged but for the
/// recorded [`Transfer`] event.
pub open spec fn transfer_ok_post(
    pre: Token,
    post: Token,
    from: AccountId,
    to: AccountId,
    amount: Balance,
) -> bool {
    &&& amount <= pre.spec_balance_of(from)
    &&& balances_shifted(pre, post, from, to, amount)
    &&& post.spec_total_supply() == pre.spec_total_supply()
    &&& post.spec_allowances() == pre.spec_allowances()
    &&& post.spec_events() == pre.spec_events().push(
        transfer_event(Some(from), Some(to), amount),
    )
}

/// How an approval of `value` from `owner` to `spender` relates the ledger
/// before and after: that one allowance is overwritten — not added to — and
/// everything else is unchanged but for the recorded [`Approval`] event.
pub open spec fn approve_post(
    pre: Token,
    post: Token,
    owner: AccountId,
    spender: AccountId,
    value: Balance,
) -> bool {
    &&& forall|o: AccountId, s: AccountId| #[trigger]
        post.spec_allowance_of(o, s) == if o == owner && s == spender {
            value
        } else {
            pre.spec_allowance_of(o, s)
        }
    &&& post.spec_balances() == pre.spec_balances()
    &&& post.spec_total_supply() == pre.spec_total_supply()
    &&& post.spec_events() == pre.spec_events().push(approval_event(owner, spender, value))
}

/// How a successful delegated transfer relates the ledger before and after:
/// a transfer of `amount` from `from` to `to`, and the consumption of that
/// much of the allowance `from` granted `caller`; no other allowance moves.
pub open spec fn transfer_from_ok_post(
    pre: Token,
    post: Token,
    caller: AccountId,
    from: AccountId,
    to: AccountId,
    amount: Balance,
) -> bool {
    &&& amount <= pre.spec_allowance_of(from, caller)
    &&& amount <= pre.spec_balance_of(from)
    &&& balances_shifted(pre, post, from, to, amount)
    &&& post.spec_total_supply() == pre.spec_total_supply()
    &&& forall|o: AccountId, s: AccountId| #[trigger]
        post.spec_allowance_of(o, s) == if o == from && s == caller {
            (pre.spec_allowance_of(from, caller) - amount) as Balance
        } else {
            pre.spec_allowance_of(o, s)
        }
    &&& post.spec_events() == pre.spec_events().push(
        transfer_event(Some(from), Some(to), amount),
    )
}

impl Token {
    /// Creates the ledger, crediting the whole `initial_supply` to `caller`
    /// and recording the mint as a transfer from no account.
    pub fn new(caller: AccountId, initial_supply: Balance) -> (token: Token)
        ensures
            token.well_formed(),
            token.spec_total_supply() == initial_supply,
            forall|a: AccountId| #[trigger]
                token.spec_balance_of(a) == if a == caller {
                    initial_supply
                } else {
                    0u128
                },
            forall|o: AccountId, s: AccountId| #[trigger] token.spec_allowance_of(o, s) == 0u128,
            token.spec_events() == seq![transfer_event(None, Some(caller), initial_supply)],
    {
        let mut token = Token {
            total_supply: 0,
            balances: Vec::new(),
            allowances: Vec::new(),
            events: Vec::new(),
        };
        token.init(caller, initial_supply);
        token
    }

    /// Fills a freshly allocated ledger: sets the supply, credits `caller`,
    /// and records the mint event.
    fn init(&mut self, caller: AccountId, initial_supply: Balance)
        requires
            old(self).spec_balances().len() == 0,
            old(self).spec_allowances().len() == 0,
            old(self).spec_events().len() == 0,
        ensures
            final(self).well_formed(),
            final(self).spec_total_supply() == initial_supply,
            forall|a: AccountId| #[trigger]
                final(self).spec_balance_of(a) == if a == caller {
                    initial_supply
                } else {
                    0u128
                },
            forall|o: AccountId, s: AccountId| #[trigger]
                final(self).spec_allowance_of(o, s) == 0u128,
            final(self).spec_events() == seq![transfer_event(None, Some(caller), initial_supply)],
    {
        self.total_supply = initial_supply;
        balances::store(&mut self.balances, caller, initial_supply);
        self.events.push(
            Event::Transfer(Transfer { from: None, to: Some(caller), value: initial_supply }),
        );
        proof {
            assert forall|a: AccountId| #[trigger]
                self.spec_balance_of(a) == if a == caller {
                    initial_supply
                } else {
                    0u128
                } by {
                assert(balances::bal_get(old(self).spec_balances(), a) == 0);
            }
            assert forall|o: AccountId, s: AccountId| #[trigger]
                self.spec_allowance_of(o, s) == 0u128 by {
                assert(self.spec_allowances().len() == 0);
            }
            assert(balances::bal_get(old(self).spec_balances(), caller) == 0);
            assert(balances::bal_sum(old(self).spec_balances()) == 0);
            assert(self.spec_events() =~= seq![
                transfer_event(None, Some(caller), initial_supply),
            ]);
        }
    }

    /// The total number of tokens in circulation.
    pub fn get_total_supply(&self) -> (total: Balance)
        ensures
            total == self.spec_total_supply(),
    {
        self.total_supply
    }

    /// The balance of `owner`; zero for an account never seen.
    pub fn get_balance_of(&self, owner: AccountId) -> (amount: Balance)
        ensures
            amount == self.spec_balance_of(owner),
    {
        balances::lookup(&self.balances, owner)
    }

    /// The allowance `owner` has granted `spender`; zero when never granted.
    pub fn get_allowance_of(&self, owner: AccountId, spender: AccountId) -> (amount: Balance)
        ensures
            amount == self.spec_allowance_of(owner, spender),
    {
        allowances::lookup(&self.allowances, owner, spender)
    }

    /// Every event recorded so far, oldest first.
    pub fn get_events(&self) -> (events: &Vec<Event>)
        ensures
            events@ == self.spec_events(),
    {
        &self.events
    }

    /// `caller` grants `spender` an allowance of exactly `value`,
    /// overwriting any prior grant.  Never fails.
    pub fn approve(&mut self, caller: AccountId, spender: AccountId, value: Balance) -> (result:
        Result<(), Error>)
        ensures
            result == Ok::<(), Error>(()),
            approve_post(*old(self), *final(self), caller, spender, value),
            old(self).well_formed() ==> final(self).well_formed(),
    {
        allowances::store(&mut self.allowances, caller, spender, value);
        self.events.push(Event::Approval(Approval { owner: caller, spender, value }));
        proof {
            assert(self.spec_events() =~= old(self).spec_events().push(
                approval_event(caller, spender, value),
            ));
        }
        Ok(())
    }

    /// `caller` sends `amount` of its own tokens to `to`.
    pub fn transfer(&mut self, caller: AccountId, to: AccountId, amount: Balance) -> (result:
        Result<(), Error>)
        requires
            old(self).well_formed(),
        ensures
            final(self).well_formed(),
            match result {
                Ok(()) => transfer_ok_post(*old(self), *final(self), caller, to, amount),
                Err(e) => {
                    &&& e == Error::InsufficientBalance
                    &&& old(self).spec_balance_of(caller) < amount
                    &&& *final(self) == *old(self)
                },
            },
    {
        self.transfer_from_to(caller, to, amount)
    }

    /// Moves `amount` from `from` to `to`: fails, changing nothing, iff
    /// `from`'s balance is short; debits and credits otherwise, and records
    /// the transfer — a self-transfer too, though it moves nothing.
    pub fn transfer_from_to(&mut self, from: AccountId, to: AccountId, amount: Balance) -> (result:
        Result<(), Error>)
        requires
            old(self).well_formed(),
        ensures
            final(self).well_formed(),
            match result {
                Ok(()) => transfer_ok_post(*old(self), *final(self), from, to, amount),
                Err(e) => {
                    &&& e == Error::InsufficientBalance
                    &&& old(self).spec_balance_of(from) < amount
                    &&& *final(self) == *old(self)
                },
            },
    {
        let ghost pre_balances = self.balances@;
        let from_balance = balances::lookup(&self.balances, from);
        if from_balance < amount {
            return Err(Error::InsufficientBalance);
        }
        balances::store(&mut self.balances, from, from_balance - amount);
        let ghost mid_balances = self.balances@;
        let to_balance = balances::lookup(&self.balances, to);
        proof {
            balances::lemma_bal_get_le_sum(mid_balances, to);
            assert(balances::bal_sum(mid_balances) == old(self).spec_total_supply() - amount);
            assert(to_balance + amount <= old(self).spec_total_supply());
        }
        balances::store(&mut self.balances, to, to_balance + amount);
        self.events.push(Event::Transfer(Transfer { from: Some(from), to: Some(to), value: amount }));
        proof {
            assert forall|account: AccountId| #[trigger]
                self.spec_balance_of(account) == shifted(
                    old(self).spec_balance_of(account),
                    account,
                    from,
                    to,
                    amount,
                ) by {
                assert(balances::bal_get(mid_balances, account) == if account == from {
                    (from_balance - amount) as u128
                } else {
                    balances::bal_get(pre_balances, account)
                });
                assert(balances::bal_get(self.balances@, account) == if account == to {
                    (to_balance + amount) as u128
                } else {
                    balances::bal_get(mid_balances, account)
                });
            }
            assert(self.spec_events() =~= old(self).spec_events().push(
                transfer_event(Some(from), Some(to), amount),
            ));
        }
        Ok(())
    }

    /// `caller` spends its allowance from `from`: checks the allowance,
    /// moves `amount` from `from` to `to`, and only then consumes that much
    /// of the allowance.  A failed move leaves the allowance untouched.
    pub fn transfer_from(
        &mut self,
        caller: AccountId,
        from: AccountId,
        to: AccountId,
        amount: Balance,
    ) -> (result: Result<(), Error>)
        requires
            old(self).well_formed(),
        ensures
            final(self).well_formed(),
            match result {
                Ok(()) => transfer_from_ok_post(*old(self), *final(self), caller, from, to, amount),
                Err(e) => match e {
                    Error::InsufficientAllowance => {
                        &&& old(self).spec_allowance_of(from, caller) < amount
                        &&& *final(self) == *old(self)
                    },
                    Error::InsufficientBalance => {
                        &&& amount <= old(self).spec_allowance_of(from, caller)
                        &&& old(self).spec_balance_of(from) < amount
                        &&& *final(self) == *old(self)
                    },
                },
            },
    {
        let allowance = allowances::lookup(&self.allowances, from, caller);
        if allowance < amount {
            return Err(Error::InsufficientAllowance);
        }
        match self.transfer_from_to(from, to, amount) {
            Ok(()) => {},
            Err(e) => {
                return Err(e);
            },
        }
        let ghost moved = *self;
        allowances::store(&mut self.allowances, from, caller, allowance - amount);
        proof {
            assert forall|o: AccountId, s: AccountId| #[trigger]
                self.spec_allowance_of(o, s) == if o == from && s == caller {
                    (old(self).spec_allowance_of(from, caller) - amount) as Balance
                } else {
                    old(self).spec_allowance_of(o, s)
                } by {
                assert(allowances::alw_get(moved.spec_allowances(), o, s) == allowances::alw_get(
                    old(self).spec_allowances(),
                    o,
                    s,
                ));
            }
            assert forall|account: AccountId| #[trigger]
                self.spec_balance_of(account) == shifted(
                    old(self).spec_balance_of(account),
                    account,
                    from,
                    to,
                    amount,
                ) by {
                assert(moved.spec_balance_of(account) == shifted(
                    old(self).spec_balance_of(account),
                    account,
                    from,
                    to,
                    amount,
                ));
            }
        }
        Ok(())
    }
}

/// No account can hold more than was ever created: while the ledger is well
/// formed, every balance is at most the total supply.
pub proof fn lemma_balance_bounded(token: Token, owner: AccountId)
    requires
        token.well_formed(),
    ensures
        token.spec_balance_of(owner) <= token.spec_total_supply(),
{
    balances::lemma_bal_get_le_sum(token.spec_balances(), owner);
}

/// Approvals overwrite: after two approvals from the same owner to the same
/// spender, the allowance is the second value, not the sum.
pub proof fn lemma_approve_overwrites(
    t0: Token,
    t1: Token,
    t2: Token,
    owner: AccountId,
    spender: AccountId,
    first: Balance,
    second: Balance,
)
    requires
        approve_post(t0, t1, owner, spender, first),
        approve_post(t1, t2, owner, spender, second),
    ensures
        t2.spec_allowance_of(owner, spender) == second,
{
}

/// Allowance consumption: an approval of `granted` followed by a successful
/// delegated transfer of `amount` leaves the allowance at exactly
/// `granted - amount`; the transfer could only succeed with
/// `amount <= granted`.
pub proof fn lemma_allowance_consumption(
    t0: Token,
    t1: Token,
    t2: Token,
    owner: AccountId,
    spender: AccountId,
    to: AccountId,
    granted: Balance,
    amount: Balance,
)
    requires
        approve_post(t0, t1, owner, spender, granted),
        transfer_from_ok_post(t1, t2, spender, owner, to, amount),
    ensures
        amount <= granted,
        t2.spec_allowance_of(owner, spender) == granted - amount,
{
    assert(t1.spec_allowance_of(owner, spender) == granted);
}

/// Self-transfer idempotence: a successful transfer from an account to
/// itself leaves every balance as it was, yet still records the transfer
/// event.
pub proof fn lemma_self_transfer(pre: Token, post: Token, account: AccountId, amount: Balance)
    requires
        transfer_ok_post(pre, post, account, account, amount),
    ensures
        forall|a: AccountId| #[trigger] post.spec_balance_of(a) == pre.spec_balance_of(a),
        post.spec_events() == pre.spec_events().push(
            transfer_event(Some(account), Some(account), amount),
        ),
{
    assert forall|a: AccountId| #[trigger] post.spec_balance_of(a) == pre.spec_balance_of(a) by {
        assert(post.spec_balance_of(a) == shifted(
            pre.spec_balance_of(a),
            a,
            account,
            account,
            amount,
        ));
    }
}

} // verus!
