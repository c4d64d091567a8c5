//! An account that keeps every balance it had before each change.
use vstd::prelude::*;

verus! {

/// A balance together with the balances it replaced, oldest first.
pub struct AccountWithHistory<B> {
    balance: B,
    history: Vec<B>,
}

impl<B: Copy> AccountWithHistory<B> {
    /// The current balance.
    pub closed spec fn spec_balance(self) -> B {
        self.balance
    }

    /// The balances replaced so far, oldest first.
    pub closed spec fn spec_history(self) -> Seq<B> {
        self.history@
    }

    /// An account with this balance and an empty history.
    pub fn new(balance: B) -> (r: Self)
        ensures
            r.spec_balance() == balance,
            r.spec_history() == Seq::<B>::empty(),
    {
        AccountWithHistory { balance, history: Vec::new() }
    }

    /// The current balance.
    pub fn get_balance(&self) -> (r: B)
        ensures
            r == self.spec_balance(),
    {
        self.balance
    }

    /// Changes the balance; the balance it replaces joins the end of the history.
    pub fn set_balance(&mut self, balance: B)
        ensures
            final(self).spec_balance() == balance,
            final(self).spec_history() == old(self).spec_history().push(old(self).spec_balance()),
    {
        let current: B = self.balance;
        self.balance = balance;
        self.history.push(current);
    }

    /// A copy of the history, oldest first.
    pub fn history(&self) -> (r: Vec<B>)
        ensures
            r@ == self.spec_history(),
    {
        let mut copy: Vec<B> = Vec::new();
        let mut i: usize = 0;
        while i < self.history.len()
            invariant
                i <= self.history@.len(),
                copy@ == self.history@.take(i as int),
            decreases self.history@.len() - i,
        {
            copy.push(self.history[i]);
            assert(self.history@.take(i + 1) =~= self.history@.take(i as int).push(self.history@[i as int]));
            i += 1;
        }
        assert(self.history@.take(self.history@.len() as int) =~= self.history@);
        copy
    }
}

} // verus!
