//! What a contract sees during a call: its own store, through a buffer that holds the
//! call's writes until the engine applies them, and a read-only view of the ledger.
use vstd::prelude::*;
use crate::bank::{balance_in, Bank};
use crate::revertable::{lookup, opt_model, overwrite, Revertable, StoreKey, StoreValue};
use crate::types::{bytes_of, Coin, Env, MessageInfo, Reply, Response, StdError};

verus! {

/// A contract's private store.
pub type ContractStore = Revertable<Vec<u8>, Vec<u8>>;

/// The model of a write: a key, and its new value or `None` for a removal.
pub type WriteModel = (Seq<u8>, Option<Seq<u8>>);

/// `m` after each write of `w`, in order.
pub open spec fn apply_writes(m: Map<Seq<u8>, Seq<u8>>, w: Seq<WriteModel>) -> Map<Seq<u8>, Seq<u8>>
    decreases w.len(),
{
    if w.len() == 0 {
        m
    } else {
        overwrite(apply_writes(m, w.drop_last()), w.last().0, w.last().1)
    }
}

/// The models of a list of writes.
pub open spec fn writes_model(w: Seq<(Vec<u8>, Option<Vec<u8>>)>) -> Seq<WriteModel> {
    w.map_values(|e: (Vec<u8>, Option<Vec<u8>>)| (e.0@, opt_model(e.1)))
}

/// A contract's store as the contract sees it during a call: reads find the call's own
/// writes first, then the stored contents.
pub struct Storage<'a> {
    base: &'a ContractStore,
    pending: Vec<(Vec<u8>, Option<Vec<u8>>)>,
}

impl<'a> View for Storage<'a> {
    type V = Map<Seq<u8>, Seq<u8>>;

    closed spec fn view(&self) -> Map<Seq<u8>, Seq<u8>> {
        apply_writes(self.base@, writes_model(self.pending@))
    }
}

impl<'a> Storage<'a> {
    #[verifier::type_invariant]
    closed spec fn inv(&self) -> bool {
        self.base.wf()
    }

    /// What the store held when the call began.
    pub closed spec fn base(&self) -> Map<Seq<u8>, Seq<u8>> {
        self.base@
    }

    /// The writes of the call so far, in order.
    pub closed spec fn pending(&self) -> Seq<WriteModel> {
        writes_model(self.pending@)
    }

    pub(crate) fn new(base: &'a ContractStore) -> (r: Storage<'a>)
        requires
            base.wf(),
        ensures
            r@ == base@,
            r.base() == base@,
            r.pending() == Seq::<WriteModel>::empty(),
    {
        let r = Storage { base, pending: Vec::new() };
        assert(writes_model(r.pending@) =~= Seq::<WriteModel>::empty());
        r
    }

    /// The value under `key`, if any.
    pub fn get(&self, key: &[u8]) -> (r: Option<Vec<u8>>)
        ensures
            opt_model(r) == lookup(self@, key@),
    {
        proof {
            use_type_invariant(self);
        }
        let ghost w = writes_model(self.pending@);
        let mut i: usize = self.pending.len();
        assert(w.subrange(0, i as int) =~= w);
        while i > 0
            invariant
                i <= self.pending@.len(),
                w == writes_model(self.pending@),
                lookup(self@, key@) == lookup(apply_writes(self.base@, w.subrange(0, i as int)), key@),
            decreases i,
        {
            let ghost pre = w.subrange(0, i as int);
            assert(pre.drop_last() =~= w.subrange(0, i - 1));
            let e = &self.pending[i - 1];
            if e.0.same_key(&bytes_of(key)) {
                let out = match &e.1 {
                    Some(v) => Some(v.duplicate()),
                    None => None,
                };
                return out;
            }
            i = i - 1;
        }
        assert(w.subrange(0, 0) =~= Seq::<WriteModel>::empty());
        match self.base.get(&bytes_of(key)) {
            Some(v) => Some(v.duplicate()),
            None => None,
        }
    }

    /// Stores `value` under `key`.
    pub fn set(&mut self, key: &[u8], value: &[u8])
        ensures
            final(self)@ == old(self)@.insert(key@, value@),
            final(self).base() == old(self).base(),
            final(self).pending() == old(self).pending().push((key@, Some(value@))),
    {
        proof {
            use_type_invariant(&*self);
        }
        let mut p: Vec<(Vec<u8>, Option<Vec<u8>>)> = Vec::new();
        std::mem::swap(&mut p, &mut self.pending);
        let ghost before = p@;
        p.push((bytes_of(key), Some(bytes_of(value))));
        assert(writes_model(p@) =~= writes_model(before).push((key@, Some(value@))));
        assert(writes_model(p@).drop_last() =~= writes_model(before));
        self.pending = p;
    }

    /// Removes `key`.
    pub fn remove(&mut self, key: &[u8])
        ensures
            final(self)@ == old(self)@.remove(key@),
            final(self).base() == old(self).base(),
            final(self).pending() == old(self).pending().push((key@, None)),
    {
        proof {
            use_type_invariant(&*self);
        }
        let mut p: Vec<(Vec<u8>, Option<Vec<u8>>)> = Vec::new();
        std::mem::swap(&mut p, &mut self.pending);
        let ghost before = p@;
        p.push((bytes_of(key), None));
        assert(writes_model(p@) =~= writes_model(before).push((key@, None)));
        assert(writes_model(p@).drop_last() =~= writes_model(before));
        self.pending = p;
    }

    /// The writes of the call, in order; the store itself is left untouched.
    pub(crate) fn into_writes(self) -> (r: Vec<(Vec<u8>, Option<Vec<u8>>)>)
        ensures
            writes_model(r@) == self.pending(),
    {
        self.pending
    }
}

/// Read-only access to the ledger during a call. It reads balances only: the contract
/// programs live in the registry, and a view of the registry handed to a program would
/// make the program type contain itself.
pub struct Querier<'a> {
    bank: &'a Bank,
}

impl<'a> Querier<'a> {
    #[verifier::type_invariant]
    closed spec fn inv(&self) -> bool {
        self.bank.wf()
    }

    /// The balances that the querier reads.
    pub closed spec fn balances(&self) -> Map<(Seq<char>, Seq<char>), u128> {
        self.bank@
    }

    pub(crate) fn new(bank: &'a Bank) -> (r: Querier<'a>)
        requires
            bank.wf(),
        ensures
            r.balances() == bank@,
    {
        Querier { bank }
    }

    /// What `address` holds of `denom`.
    pub fn query_balance(&self, address: &str, denom: &str) -> (r: Coin)
        ensures
            r.denom@ == denom@,
            r.amount == balance_in(self.balances(), address@, denom@),
    {
        proof {
            use_type_invariant(self);
        }
        Coin { denom: denom.to_owned(), amount: self.bank.balance(address, denom) }
    }
}

/// What a contract call gets besides its environment and payload.
pub struct Deps<'a> {
    pub storage: Storage<'a>,
    pub querier: Querier<'a>,
}

/// A contract program: the four entry points that the engine calls.
pub trait ContractHarness {
    fn instantiate(&self, deps: &mut Deps, env: Env, info: MessageInfo, msg: &[u8]) -> Result<
        Response,
        StdError,
    >;

    fn execute(&self, deps: &mut Deps, env: Env, info: MessageInfo, msg: &[u8]) -> Result<
        Response,
        StdError,
    >;

    fn query(&self, deps: &Deps, env: Env, msg: &[u8]) -> Result<Vec<u8>, StdError>;

    fn reply(&self, deps: &mut Deps, env: Env, reply: Reply) -> Result<Response, StdError>;
}

} // verus!
