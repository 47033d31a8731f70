//! The ledger of fungible balances, one amount per account and denomination.
use vstd::prelude::*;
use crate::revertable::{Revertable, StoreValue};
use crate::types::{coins_copy, Coin, StdError};

verus! {

/// An account and a denomination, as the ledger keys its amounts.
pub type BalanceKey = (Seq<char>, Seq<char>);

/// The amount that `m` holds for `address` in `denom`; zero when it holds none.
pub open spec fn balance_in(m: Map<BalanceKey, u128>, address: Seq<char>, denom: Seq<char>) -> nat {
    if m.contains_key((address, denom)) {
        m[(address, denom)] as nat
    } else {
        0
    }
}

/// `m` after crediting `amount` of `denom` to `address`; `None` when the amount would
/// overflow. Zero changes nothing.
pub open spec fn credit_denom(
    m: Map<BalanceKey, u128>,
    address: Seq<char>,
    denom: Seq<char>,
    amount: u128,
) -> Option<Map<BalanceKey, u128>> {
    let now = balance_in(m, address, denom);
    if amount == 0 {
        Some(m)
    } else if now + amount > u128::MAX {
        None
    } else {
        Some(m.insert((address, denom), (now + amount) as u128))
    }
}

/// `m` after crediting one coin to `address`; `None` when the amount would overflow.
/// A coin of zero changes nothing.
pub open spec fn credit_one(m: Map<BalanceKey, u128>, address: Seq<char>, c: Coin) -> Option<
    Map<BalanceKey, u128>,
> {
    credit_denom(m, address, c.denom@, c.amount)
}

/// `m` after debiting one coin from `address`; `None` when the balance is short.
/// A coin of zero changes nothing.
pub open spec fn debit_one(m: Map<BalanceKey, u128>, address: Seq<char>, c: Coin) -> Option<
    Map<BalanceKey, u128>,
> {
    let now = balance_in(m, address, c.denom@);
    if c.amount == 0 {
        Some(m)
    } else if now < c.amount {
        None
    } else {
        Some(m.insert((address, c.denom@), (now - c.amount) as u128))
    }
}

/// `m` after crediting each coin of `coins` in turn; `None` when one overflows.
pub open spec fn credit(m: Map<BalanceKey, u128>, address: Seq<char>, coins: Seq<Coin>) -> Option<
    Map<BalanceKey, u128>,
>
    decreases coins.len(),
{
    if coins.len() == 0 {
        Some(m)
    } else {
        match credit(m, address, coins.drop_last()) {
            Some(m2) => credit_one(m2, address, coins.last()),
            None => None,
        }
    }
}

/// `m` after debiting each coin of `coins` in turn; `None` when a balance is short.
pub open spec fn debit(m: Map<BalanceKey, u128>, address: Seq<char>, coins: Seq<Coin>) -> Option<
    Map<BalanceKey, u128>,
>
    decreases coins.len(),
{
    if coins.len() == 0 {
        Some(m)
    } else {
        match debit(m, address, coins.drop_last()) {
            Some(m2) => debit_one(m2, address, coins.last()),
            None => None,
        }
    }
}

/// `m` after moving `coins` from `from` to `to`: all debits first, then all credits.
pub open spec fn transfer_spec(
    m: Map<BalanceKey, u128>,
    from: Seq<char>,
    to: Seq<char>,
    coins: Seq<Coin>,
) -> Option<Map<BalanceKey, u128>> {
    match debit(m, from, coins) {
        Some(m2) => credit(m2, to, coins),
        None => None,
    }
}

/// Each coin of `coins` is what `m` holds for `address` in the coin's denomination.
pub open spec fn held_by(m: Map<BalanceKey, u128>, address: Seq<char>, coins: Seq<Coin>) -> bool {
    forall|i: int|
        #![trigger coins[i]]
        0 <= i < coins.len() ==> m.contains_key((address, coins[i].denom@)) && m[(
            address,
            coins[i].denom@,
        )] == coins[i].amount
}

/// Every denomination that `m` holds for `address` has a coin in `coins`.
pub open spec fn lists_all(m: Map<BalanceKey, u128>, address: Seq<char>, coins: Seq<Coin>) -> bool {
    forall|d: Seq<char>|
        #[trigger] m.contains_key((address, d)) ==> exists|i: int|
            0 <= i < coins.len() && coins[i].denom@ == d
}

/// A transfer as the engine reports it.
#[derive(Debug, PartialEq, Eq)]
pub struct BankResponse {
    pub sender: String,
    pub receiver: String,
    pub coins: Vec<Coin>,
}

/// Balances, checkpointed.
pub struct Bank {
    store: Revertable<(String, String), u128>,
}

impl View for Bank {
    type V = Map<BalanceKey, u128>;

    closed spec fn view(&self) -> Map<BalanceKey, u128> {
        self.store@
    }
}

impl Bank {
    pub closed spec fn wf(&self) -> bool {
        self.store.wf()
    }

    pub closed spec fn depth(&self) -> nat {
        self.store.depth()
    }

    pub closed spec fn saved(&self) -> Seq<Map<BalanceKey, u128>> {
        self.store.saved()
    }

    /// There is one saved snapshot per live checkpoint.
    pub proof fn lemma_saved_len(&self)
        ensures
            self.saved().len() == self.depth(),
    {
        self.store.lemma_saved_len();
    }

    /// Opens a checkpoint.
    pub fn checkpoint(&mut self)
        requires
            old(self).wf(),
        ensures
            final(self).wf(),
            final(self)@ == old(self)@,
            final(self).depth() == old(self).depth() + 1,
            final(self).saved() == old(self).saved().push(old(self)@),
    {
        self.store.checkpoint();
    }

    /// Closes the innermost checkpoint, keeping what was written since.
    pub fn commit(&mut self)
        requires
            old(self).wf(),
            old(self).depth() > 0,
        ensures
            final(self).wf(),
            final(self)@ == old(self)@,
            final(self).depth() == old(self).depth() - 1,
            final(self).saved() == old(self).saved().drop_last(),
    {
        self.store.commit();
    }

    /// Restores what the innermost checkpoint captured, and closes it.
    pub fn revert(&mut self)
        requires
            old(self).wf(),
            old(self).depth() > 0,
        ensures
            final(self).wf(),
            final(self)@ == old(self).saved().last(),
            final(self).depth() == old(self).depth() - 1,
            final(self).saved() == old(self).saved().drop_last(),
    {
        self.store.revert();
    }

    /// An empty ledger.
    pub fn new() -> (r: Bank)
        ensures
            r.wf(),
            r@ == Map::<BalanceKey, u128>::empty(),
            r.depth() == 0,
    {
        Bank { store: Revertable::new() }
    }

    /// What `address` holds of `denom`.
    pub fn balance(&self, address: &str, denom: &str) -> (r: u128)
        requires
            self.wf(),
        ensures
            r == balance_in(self@, address@, denom@),
    {
        let key = (address.to_owned(), denom.to_owned());
        match self.store.get(&key) {
            Some(v) => *v,
            None => 0,
        }
    }

    fn credit_coin(&mut self, address: &str, c: &Coin) -> (r: Result<(), StdError>)
        requires
            old(self).wf(),
        ensures
            final(self).wf(),
            final(self).depth() == old(self).depth(),
            final(self).saved() == old(self).saved(),
            match credit_one(old(self)@, address@, *c) {
                Some(m) => r is Ok && final(self)@ == m,
                None => r == Err::<(), StdError>(StdError::Overflow) && final(self)@ == old(self)@,
            },
    {
        if c.amount == 0 {
            return Ok(());
        }
        let now = self.balance(address, c.denom.as_str());
        match now.checked_add(c.amount) {
            Some(sum) => {
                self.store.set((address.to_owned(), c.denom.clone()), sum);
                Ok(())
            },
            None => Err(StdError::Overflow),
        }
    }

    fn debit_coin(&mut self, address: &str, c: &Coin) -> (r: Result<(), StdError>)
        requires
            old(self).wf(),
        ensures
            final(self).wf(),
            final(self).depth() == old(self).depth(),
            final(self).saved() == old(self).saved(),
            match debit_one(old(self)@, address@, *c) {
                Some(m) => r is Ok && final(self)@ == m,
                None => r is Err && final(self)@ == old(self)@,
            },
            r is Err ==> r->Err_0 is InsufficientFunds,
    {
        if c.amount == 0 {
            return Ok(());
        }
        let now = self.balance(address, c.denom.as_str());
        if now < c.amount {
            return Err(
                StdError::InsufficientFunds { address: address.to_owned(), denom: c.denom.clone() },
            );
        }
        self.store.set((address.to_owned(), c.denom.clone()), now - c.amount);
        Ok(())
    }

    /// Credits each coin in turn, leaving the balances unchanged when one overflows.
    fn credit_all(&mut self, address: &str, coins: &Vec<Coin>) -> (r: Result<(), StdError>)
        requires
            old(self).wf(),
        ensures
            final(self).wf(),
            final(self).depth() == old(self).depth(),
            final(self).saved() == old(self).saved(),
            match credit(old(self)@, address@, coins@) {
                Some(m) => r is Ok && final(self)@ == m,
                None => r == Err::<(), StdError>(StdError::Overflow),
            },
    {
        let ghost start = self@;
        let mut i: usize = 0;
        while i < coins.len()
            invariant
                self.wf(),
                self.depth() == old(self).depth(),
                self.saved() == old(self).saved(),
                start == old(self)@,
                i <= coins@.len(),
                credit(start, address@, coins@.subrange(0, i as int)) == Some(self@),
            decreases coins@.len() - i,
        {
            assert(coins@.subrange(0, i + 1).drop_last() =~= coins@.subrange(0, i as int));
            let r = self.credit_coin(address, &coins[i]);
            if r.is_err() {
                proof {
                    lemma_credit_none_extends(start, address@, coins@, i as int + 1);
                }
                return Err(StdError::Overflow);
            }
            i = i + 1;
        }
        assert(coins@.subrange(0, i as int) =~= coins@);
        Ok(())
    }

    /// Debits each coin in turn.
    fn debit_all(&mut self, address: &str, coins: &Vec<Coin>) -> (r: Result<(), StdError>)
        requires
            old(self).wf(),
        ensures
            final(self).wf(),
            final(self).depth() == old(self).depth(),
            final(self).saved() == old(self).saved(),
            match debit(old(self)@, address@, coins@) {
                Some(m) => r is Ok && final(self)@ == m,
                None => r is Err,
            },
            r is Err ==> r->Err_0 is InsufficientFunds,
    {
        let ghost start = self@;
        let mut i: usize = 0;
        while i < coins.len()
            invariant
                self.wf(),
                self.depth() == old(self).depth(),
                self.saved() == old(self).saved(),
                start == old(self)@,
                i <= coins@.len(),
                debit(start, address@, coins@.subrange(0, i as int)) == Some(self@),
            decreases coins@.len() - i,
        {
            assert(coins@.subrange(0, i + 1).drop_last() =~= coins@.subrange(0, i as int));
            let r = self.debit_coin(address, &coins[i]);
            if r.is_err() {
                proof {
                    lemma_debit_none_extends(start, address@, coins@, i as int + 1);
                }
                return r;
            }
            i = i + 1;
        }
        assert(coins@.subrange(0, i as int) =~= coins@);
        Ok(())
    }

    /// Credits `coins` to `address`. Fails with `Overflow`, and changes nothing, when a
    /// balance would exceed the largest amount.
    pub fn add_funds(&mut self, address: &str, coins: &Vec<Coin>) -> (r: Result<(), StdError>)
        requires
            old(self).wf(),
        ensures
            final(self).wf(),
            final(self).depth() == old(self).depth(),
            final(self).saved() == old(self).saved(),
            match credit(old(self)@, address@, coins@) {
                Some(m) => r is Ok && final(self)@ == m,
                None => r == Err::<(), StdError>(StdError::Overflow) && final(self)@ == old(self)@,
            },
    {
        self.store.checkpoint();
        let r = self.credit_all(address, coins);
        if r.is_ok() {
            self.store.commit();
        } else {
            self.store.revert();
        }
        r
    }

    /// Debits `coins` from `address`. Fails with `InsufficientFunds`, and changes
    /// nothing, when a balance is short.
    pub fn remove_funds(&mut self, address: &str, coins: &Vec<Coin>) -> (r: Result<(), StdError>)
        requires
            old(self).wf(),
        ensures
            final(self).wf(),
            final(self).depth() == old(self).depth(),
            final(self).saved() == old(self).saved(),
            match debit(old(self)@, address@, coins@) {
                Some(m) => r is Ok && final(self)@ == m,
                None => r is Err && final(self)@ == old(self)@,
            },
            r is Err ==> r->Err_0 is InsufficientFunds,
    {
        self.store.checkpoint();
        let r = self.debit_all(address, coins);
        if r.is_ok() {
            self.store.commit();
        } else {
            self.store.revert();
        }
        r
    }

    /// Moves `coins` from `from` to `to`. Fails, and changes nothing, when `from` is
    /// short (`InsufficientFunds`) or a balance of `to` would overflow (`Overflow`).
    pub fn transfer(&mut self, from: &str, to: &str, coins: &Vec<Coin>) -> (r: Result<
        BankResponse,
        StdError,
    >)
        requires
            old(self).wf(),
        ensures
            final(self).wf(),
            final(self).depth() == old(self).depth(),
            final(self).saved() == old(self).saved(),
            match transfer_spec(old(self)@, from@, to@, coins@) {
                Some(m) => r is Ok && final(self)@ == m,
                None => r is Err && final(self)@ == old(self)@,
            },
            r is Err ==> r->Err_0 is InsufficientFunds || r->Err_0 is Overflow,
            r is Ok ==> r->Ok_0.sender@ == from@ && r->Ok_0.receiver@ == to@ && r->Ok_0.coins@
                == coins@,
    {
        self.store.checkpoint();
        let d = self.debit_all(from, coins);
        if let Err(e) = d {
            self.store.revert();
            return Err(e);
        }
        let c = self.credit_all(to, coins);
        if let Err(e) = c {
            self.store.revert();
            return Err(e);
        }
        self.store.commit();
        Ok(BankResponse { sender: from.to_owned(), receiver: to.to_owned(), coins: coins_copy(coins) })
    }

    /// The coins that `address` holds, one per denomination that it has an amount of;
    /// `None` when the ledger has no amount for it.
    pub fn balances_of(&self, address: &str) -> (r: Option<Vec<Coin>>)
        requires
            self.wf(),
        ensures
            r is None <==> forall|d: Seq<char>| !#[trigger] self@.contains_key((address@, d)),
            r is Some ==> held_by(self@, address@, r->Some_0@) && lists_all(
                self@,
                address@,
                r->Some_0@,
            ),
    {
        let keys = self.store.keys();
        let who = address.to_owned();
        let mut out: Vec<Coin> = Vec::new();
        let mut i: usize = 0;
        while i < keys.len()
            invariant
                self.wf(),
                who@ == address@,
                i <= keys@.len(),
                forall|j: int| 0 <= j < keys@.len() ==> #[trigger] self@.contains_key(keys@[j].model()),
                forall|k: BalanceKey| #[trigger] self@.contains_key(k) ==> exists|j: int|
                    0 <= j < keys@.len() && keys@[j].model() == k,
                held_by(self@, address@, out@),
                out@.len() == 0 ==> forall|j: int| 0 <= j < i ==> (#[trigger] keys@[j]).0@ != address@,
                forall|j: int|
                    0 <= j < i && (#[trigger] keys@[j]).0@ == address@ ==> exists|o: int|
                        0 <= o < out@.len() && out@[o].denom@ == keys@[j].1@,
            decreases keys@.len() - i,
        {
            let k = &keys[i];
            assert(self@.contains_key(keys@[i as int].model()));
            if k.0 == who {
                let amount = self.balance(address, k.1.as_str());
                assert(keys@[i as int].model() == (address@, k.1@));
                let ghost before = out@;
                out.push(Coin { denom: k.1.clone(), amount });
                assert forall|j: int|
                    0 <= j < out@.len() implies self@.contains_key(
                    (address@, (#[trigger] out@[j]).denom@),
                ) && self@[(address@, out@[j].denom@)] == out@[j].amount by {
                    if j < before.len() {
                        assert(out@[j] == before[j]);
                    }
                }
                assert forall|j: int|
                    0 <= j < i + 1 && (#[trigger] keys@[j]).0@ == address@ implies exists|o: int|
                        0 <= o < out@.len() && out@[o].denom@ == keys@[j].1@ by {
                    if j < i {
                        let o = choose|o: int|
                            0 <= o < before.len() && before[o].denom@ == keys@[j].1@;
                        assert(out@[o] == before[o]);
                    } else {
                        assert(out@[before.len() as int].denom@ == keys@[j].1@);
                    }
                }
            } else {
                assert(k.0@ != address@);
            }
            i = i + 1;
        }
        if out.len() == 0 {
            assert forall|d: Seq<char>| !#[trigger] self@.contains_key((address@, d)) by {
                if self@.contains_key((address@, d)) {
                    let j = choose|j: int| 0 <= j < keys@.len() && keys@[j].model() == (address@, d);
                    assert(keys@[j].0@ == address@);
                }
            }
            None
        } else {
            assert(self@.contains_key((address@, out@[0].denom@)));
            assert forall|i: int| 0 <= i < out@.len() implies #[trigger] self@.contains_key(
                (address@, out@[i].denom@),
            ) && self@[(address@, out@[i].denom@)] == out@[i].amount by {}
            assert forall|d: Seq<char>| #[trigger] self@.contains_key((address@, d)) implies exists|
                o: int,
            | 0 <= o < out@.len() && out@[o].denom@ == d by {
                let j = choose|j: int| 0 <= j < keys@.len() && keys@[j].model() == (address@, d);
                assert(keys@[j].0@ == address@);
            }
            Some(out)
        }
    }
}

/// Crediting a list of one coin credits that coin.
pub proof fn lemma_credit_single(m: Map<BalanceKey, u128>, a: Seq<char>, c: Coin)
    ensures
        credit(m, a, seq![c]) == credit_one(m, a, c),
{
    let one = seq![c];
    assert(one.drop_last() =~= Seq::<Coin>::empty());
    assert(one.last() == c);
    assert(credit(m, a, Seq::<Coin>::empty()) == Some(m));
    assert(credit(m, a, one) == credit_one(m, a, c));
}

/// Debiting a list of one coin debits that coin.
pub proof fn lemma_debit_single(m: Map<BalanceKey, u128>, a: Seq<char>, c: Coin)
    ensures
        debit(m, a, seq![c]) == debit_one(m, a, c),
{
    let one = seq![c];
    assert(one.drop_last() =~= Seq::<Coin>::empty());
    assert(one.last() == c);
    assert(debit(m, a, Seq::<Coin>::empty()) == Some(m));
    assert(debit(m, a, one) == debit_one(m, a, c));
}

proof fn lemma_credit_none_extends(m: Map<BalanceKey, u128>, a: Seq<char>, coins: Seq<Coin>, n: int)
    requires
        0 < n <= coins.len(),
        credit(m, a, coins.subrange(0, n)) is None,
    ensures
        credit(m, a, coins) is None,
    decreases coins.len() - n,
{
    if n < coins.len() {
        assert(coins.subrange(0, n + 1).drop_last() =~= coins.subrange(0, n));
        lemma_credit_none_extends(m, a, coins, n + 1);
    } else {
        assert(coins.subrange(0, n) =~= coins);
    }
}

proof fn lemma_debit_none_extends(m: Map<BalanceKey, u128>, a: Seq<char>, coins: Seq<Coin>, n: int)
    requires
        0 < n <= coins.len(),
        debit(m, a, coins.subrange(0, n)) is None,
    ensures
        debit(m, a, coins) is None,
    decreases coins.len() - n,
{
    if n < coins.len() {
        assert(coins.subrange(0, n + 1).drop_last() =~= coins.subrange(0, n));
        lemma_debit_none_extends(m, a, coins, n + 1);
    } else {
        assert(coins.subrange(0, n) =~= coins);
    }
}

} // verus!
