//! The ensemble: contract programs registered by id, instances by address, a ledger,
//! a delegation ledger and a block, driven by top-level instantiate, execute and query
//! calls.
use vstd::prelude::*;
use crate::bank::{credit, debit, held_by, transfer_spec, BalanceKey};
use crate::context::{store_written, ProgramCall, executed_alone, instantiated_alone, written_at, Context, StateModel, MAX_CALL_DEPTH};
use crate::protocol::well_traced;
use crate::response::ResponseVariants;
use crate::response::{ExecuteResponse, InstantiateResponse};
use crate::staking::{mature, unbondings_of, Delegation, FullDelegation, Unbonding, Validator};
use crate::storage::{ContractHarness, Deps};
use crate::types::{block_after, decimal, decimal_digits, Block, Coin, MockEnv, StdError};

verus! {

/// The address length that an ensemble made without one uses.
pub const DEFAULT_CANONICAL_LENGTH: usize = 54;

/// The id and code hash under which a contract program was registered.
#[derive(Debug, PartialEq, Eq)]
pub struct ContractInstantiationInfo {
    pub id: u64,
    pub code_hash: String,
}

/// A simulated chain of contracts, ledger and delegation ledger.
pub struct ContractEnsemble {
    ctx: Context,
}

impl ContractEnsemble {
    /// The ensemble's invariant: its stores are well formed and no call is running.
    pub closed spec fn wf(&self) -> bool {
        self.ctx.wf() && self.ctx.depth() == 0
    }

    /// The instances with their stores, the balances, the stakes and the pending
    /// undelegations.
    pub closed spec fn state(&self) -> StateModel {
        self.ctx.state()
    }

    /// The current block.
    pub closed spec fn block_view(&self) -> Block {
        self.ctx.block()
    }

    /// How many contract programs are registered.
    pub closed spec fn code_count(&self) -> nat {
        self.ctx.code_count()
    }

    /// The denomination that delegations are made in.
    pub closed spec fn denom(&self) -> Seq<char> {
        self.ctx.denom()
    }

    /// The chain id that contracts see.
    pub closed spec fn chain_id(&self) -> Seq<char> {
        self.ctx.chain_id()
    }

    /// Every call of a contract program's entry point made so far, in order.
    pub closed spec fn calls(&self) -> Seq<ProgramCall> {
        self.ctx.calls()
    }

    /// The registered validators.
    pub closed spec fn validators(&self) -> Seq<Seq<char>> {
        self.ctx.validators()
    }

    /// Whether an instance lives at `address`.
    pub open spec fn instantiated(&self, address: Seq<char>) -> bool {
        exists|j: int| 0 <= j < self.state().0.len() && (#[trigger] self.state().0[j]).0 == address
    }

    /// An empty ensemble whose delegations are made in `uscrt`.
    pub fn new(canonical_length: usize) -> (r: Self)
        ensures
            r.wf(),
            r.state() == (
                Seq::<(Seq<char>, Seq<char>, nat, Map<Seq<u8>, Seq<u8>>)>::empty(),
                Map::<BalanceKey, u128>::empty(),
                Map::<BalanceKey, (u128, u128)>::empty(),
                Map::<BalanceKey, u128>::empty(),
            ),
            r.code_count() == 0,
            r.denom() == "uscrt"@,
            r.block_view() == (Block { height: 1, time: 1 }),
    {
        ContractEnsemble { ctx: Context::new(canonical_length, "uscrt") }
    }

    /// An empty ensemble whose delegations are made in `native_denom`.
    pub fn new_with_denom(native_denom: &str) -> (r: Self)
        ensures
            r.wf(),
            r.state() == (
                Seq::<(Seq<char>, Seq<char>, nat, Map<Seq<u8>, Seq<u8>>)>::empty(),
                Map::<BalanceKey, u128>::empty(),
                Map::<BalanceKey, (u128, u128)>::empty(),
                Map::<BalanceKey, u128>::empty(),
            ),
            r.code_count() == 0,
            r.denom() == native_denom@,
            r.block_view() == (Block { height: 1, time: 1 }),
    {
        ContractEnsemble { ctx: Context::new(DEFAULT_CANONICAL_LENGTH, native_denom) }
    }

    /// Registers a contract program under the next id.
    pub fn register(&mut self, harness: Box<dyn ContractHarness>) -> (r: ContractInstantiationInfo)
        requires
            old(self).wf(),
        ensures
            final(self).wf(),
            final(self).state() == old(self).state(),
            final(self).block_view() == old(self).block_view(),
            final(self).code_count() == old(self).code_count() + 1,
            r.id == old(self).code_count(),
            r.code_hash@ == "test_contract_"@ + decimal_digits(r.id as nat),
    {
        let id = self.ctx.register(harness);
        let mut code_hash = "test_contract_".to_owned();
        let digits = decimal(id);
        code_hash.append(digits.as_str());
        proof {
            reveal_strlit("test_contract_");
        }
        ContractInstantiationInfo { id, code_hash }
    }

    /// The current block.
    pub fn block(&self) -> (r: &Block)
        ensures
            *r == self.block_view(),
    {
        self.ctx.block_ref()
    }

    /// The current block, to move or set.
    pub fn block_mut(&mut self) -> (r: &mut Block)
        requires
            old(self).wf(),
        ensures
            *r == old(self).block_view(),
            final(self).wf(),
            final(self).block_view() == *final(r),
            final(self).state() == old(self).state(),
            final(self).code_count() == old(self).code_count(),
    {
        self.ctx.block_mut()
    }

    /// Sets the chain id that contracts see.
    pub fn set_chain_id(&mut self, id: &str)
        requires
            old(self).wf(),
        ensures
            final(self).wf(),
            final(self).state() == old(self).state(),
            final(self).block_view() == old(self).block_view(),
            final(self).code_count() == old(self).code_count(),
            final(self).chain_id() == id@,
    {
        self.ctx.set_chain_id(id);
    }

    /// Credits `coins` to `address`. Fails with `Overflow`, changing nothing, when a
    /// balance would exceed the largest amount.
    pub fn add_funds(&mut self, address: &str, coins: Vec<Coin>) -> (r: Result<(), StdError>)
        requires
            old(self).wf(),
        ensures
            final(self).wf(),
            final(self).block_view() == old(self).block_view(),
            final(self).code_count() == old(self).code_count(),
            match credit(old(self).state().1, address@, coins@) {
                Some(m) => r is Ok && final(self).state() == (
                    old(self).state().0,
                    m,
                    old(self).state().2,
                    old(self).state().3,
                ),
                None => r is Err && r->Err_0 is Overflow && final(self).state() == old(self).state(),
            },
    {
        self.ctx.add_funds(address, &coins)
    }

    /// Debits `coins` from `address`. Fails with `InsufficientFunds`, changing nothing,
    /// when a balance is short.
    pub fn remove_funds(&mut self, address: &str, coins: Vec<Coin>) -> (r: Result<(), StdError>)
        requires
            old(self).wf(),
        ensures
            final(self).wf(),
            final(self).block_view() == old(self).block_view(),
            final(self).code_count() == old(self).code_count(),
            match debit(old(self).state().1, address@, coins@) {
                Some(m) => r is Ok && final(self).state() == (
                    old(self).state().0,
                    m,
                    old(self).state().2,
                    old(self).state().3,
                ),
                None => r is Err && r->Err_0 is InsufficientFunds && final(self).state() == old(
                    self
                ).state(),
            },
    {
        self.ctx.remove_funds(address, &coins)
    }

    /// The coins that `address` holds; `None` when it has never held any.
    pub fn balances(&self, address: &str) -> (r: Option<Vec<Coin>>)
        requires
            self.wf(),
        ensures
            r is None <==> forall|d: Seq<char>| !#[trigger] self.state().1.contains_key((address@, d)),
            r is Some ==> held_by(self.state().1, address@, r->Some_0@)
                && crate::bank::lists_all(self.state().1, address@, r->Some_0@),
    {
        let r = self.ctx.balances(address);
        assert(self.state() == self.ctx.state());
        r
    }

    /// The delegations of `address`, one per validator.
    pub fn delegations(&self, address: &str) -> (r: Vec<Delegation>)
        requires
            self.wf(),
        ensures
            forall|i: int|
                #![trigger r@[i]]
                0 <= i < r@.len() ==> r@[i].delegator@ == address@ && self.state().2.contains_key(
                    (address@, r@[i].validator@),
                ) && r@[i].amount.amount == self.state().2[(address@, r@[i].validator@)].0
                    && r@[i].amount.denom@ == self.denom(),
            forall|v: Seq<char>| #[trigger]
                self.state().2.contains_key((address@, v)) ==> exists|i: int|
                    0 <= i < r@.len() && r@[i].validator@ == v,
    {
        self.ctx.delegations_of(address)
    }

    /// The delegation of `delegator` to `validator`, if there is one.
    pub fn delegation(&self, delegator: &str, validator: &str) -> (r: Option<FullDelegation>)
        requires
            self.wf(),
        ensures
            r is Some <==> self.state().2.contains_key((delegator@, validator@)),
            r is Some ==> {
                let d = r->Some_0;
                let s = self.state().2[(delegator@, validator@)];
                &&& d.delegator@ == delegator@
                &&& d.validator@ == validator@
                &&& d.amount.amount == s.0 && d.amount.denom@ == self.denom()
                &&& d.accumulated_rewards.amount == s.1
                &&& d.can_redelegate.amount == if self.state().3.contains_key(
                    (delegator@, validator@),
                ) {
                    0
                } else {
                    s.0
                }
            },
    {
        self.ctx.delegation(delegator, validator)
    }

    /// Registers a validator.
    pub fn add_validator(&mut self, validator: Validator)
        requires
            old(self).wf(),
        ensures
            final(self).wf(),
            final(self).state() == old(self).state(),
            final(self).block_view() == old(self).block_view(),
            final(self).code_count() == old(self).code_count(),
            forall|v: Seq<char>|
                final(self).validators().contains(v) <==> (old(self).validators().contains(v)
                    || v == validator.address@),
    {
        self.ctx.add_validator(validator);
    }

    /// Adds `amount` to the rewards of every delegation.
    pub fn add_rewards(&mut self, amount: u128)
        requires
            old(self).wf(),
        ensures
            final(self).wf(),
            final(self).state().0 == old(self).state().0,
            final(self).state().1 == old(self).state().1,
            final(self).state().3 == old(self).state().3,
            final(self).block_view() == old(self).block_view(),
            final(self).code_count() == old(self).code_count(),
            final(self).state().2.dom() == old(self).state().2.dom(),
            forall|k: BalanceKey| #[trigger]
                old(self).state().2.contains_key(k) ==> final(self).state().2[k].0 == old(
                    self
                ).state().2[k].0 && final(self).state().2[k].1 == if old(self).state().2[k].1
                    + amount <= u128::MAX {
                    (old(self).state().2[k].1 + amount) as u128
                } else {
                    u128::MAX
                },
    {
        self.ctx.add_rewards(amount);
    }

    /// Matures every pending undelegation and credits it back to its delegator in the
    /// bonded denomination, which also lifts every redelegation lockout. With nothing
    /// pending it changes nothing. All or nothing: when a credit would overflow, it fails
    /// with `Overflow` and changes nothing.
    pub fn fast_forward_delegation_waits(&mut self) -> (r: Result<(), StdError>)
        requires
            old(self).wf(),
        ensures
            final(self).wf(),
            final(self).block_view() == old(self).block_view(),
            final(self).code_count() == old(self).code_count(),
            final(self).chain_id() == old(self).chain_id(),
            exists|list: Seq<Unbonding>|
                #[trigger] unbondings_of(old(self).state().3, list) && (forall|i: int|
                    0 <= i < list.len() ==> (#[trigger] list[i]).amount.denom@ == old(self).denom())
                    && match mature(old(self).state().1, list) {
                    Some(m) => r is Ok && final(self).state() == (
                        old(self).state().0,
                        m,
                        old(self).state().2,
                        Map::<BalanceKey, u128>::empty(),
                    ),
                    None => r == Err::<(), StdError>(StdError::Overflow) && final(self).state()
                        == old(self).state(),
                },
            old(self).state().3.dom() == Set::<BalanceKey>::empty() ==> r is Ok && final(
                self
            ).state() == old(self).state(),
    {
        let r = self.ctx.fast_forward_waits();
        assert(old(self).state() == old(self).ctx.state());
        assert(self.state() == self.ctx.state());
        r
    }

    /// Hands `borrow` read access to the store and querier of the instance at
    /// `address`; fails when no instance lives there.
    pub fn deps<F: FnOnce(&Deps)>(&self, address: &str, borrow: F) -> (r: Result<(), String>)
        requires
            self.wf(),
            forall|d: &Deps| #[trigger] borrow.requires((d,)),
        ensures
            r is Ok == self.instantiated(address@),
            r is Err ==> r->Err_0@ == "Contract not found: "@ + address@,
            r is Ok ==> exists|j: int, d: &Deps|
                #![trigger self.state().0[j], borrow.ensures((d,), ())]
                0 <= j < self.state().0.len() && self.state().0[j].0 == address@ && d.storage@
                    == self.state().0[j].3 && d.storage.pending().len() == 0 && borrow.ensures(
                    (d,),
                    (),
                ),
    {
        assert(self.state() == self.ctx.state());
        match self.ctx.with_deps(address, borrow) {
            Ok(()) => Ok(()),
            Err(_) => Err(not_found(address)),
        }
    }

    /// Hands `mutate` write access to the store of the instance at `address`, then keeps
    /// what it wrote; fails when no instance lives there.
    pub fn deps_mut<F: FnOnce(&mut Deps)>(&mut self, address: &str, mutate: F) -> (r: Result<
        (),
        String,
    >)
        requires
            old(self).wf(),
            forall|d: &mut Deps| #[trigger] mutate.requires((d,)),
        ensures
            final(self).wf(),
            final(self).block_view() == old(self).block_view(),
            final(self).code_count() == old(self).code_count(),
            final(self).state().1 == old(self).state().1,
            final(self).state().2 == old(self).state().2,
            final(self).state().3 == old(self).state().3,
            r is Ok == old(self).instantiated(address@),
            r is Err ==> final(self).state() == old(self).state() && r->Err_0@
                == "Contract not found: "@ + address@,
            r is Ok ==> written_at(old(self).state(), address@, final(self).state()),
            r is Ok ==> exists|j: int, d: &mut Deps|
                #![trigger old(self).state().0[j], mutate.ensures((d,), ())]
                0 <= j < old(self).state().0.len() && old(self).state().0[j].0 == address@
                    && (*d).storage@ == old(self).state().0[j].3 && (*d).storage.pending().len() == 0
                    && mutate.ensures((d,), ()) && final(self).state() == store_written(
                    old(self).state(),
                    j,
                    final(d).storage.pending(),
                ),
    {
        assert(old(self).state() == old(self).ctx.state());
        match self.ctx.with_deps_mut(address, mutate) {
            Ok(()) => Ok(()),
            Err(_) => Err(not_found(address)),
        }
    }

    /// Instantiates code `id` at `env.contract.address`, called by `env.sender` with
    /// `env.sent_funds`, and carries out the messages it returns. On success the block
    /// advances; on failure every store is as it was before the call. Messages nested
    /// deeper than `MAX_CALL_DEPTH` levels fail with `CallDepthExceeded`.
    pub fn instantiate(&mut self, id: u64, msg: &[u8], env: MockEnv) -> (r: Result<
        InstantiateResponse,
        StdError,
    >)
        requires
            old(self).wf(),
        ensures
            final(self).wf(),
            final(self).code_count() == old(self).code_count(),
            final(self).chain_id() == old(self).chain_id(),
            final(self).validators() == old(self).validators(),
            r is Err ==> final(self).state() == old(self).state() && final(self).block_view()
                == old(self).block_view(),
            r is Ok ==> final(self).block_view() == block_after(old(self).block_view()),
            id >= old(self).code_count() ==> r is Err && r->Err_0 is CodeNotFound,
            id < old(self).code_count() && old(self).instantiated(env.contract.address@) ==> r is Err
                && r->Err_0 is AddressInUse,
            transfer_spec(old(self).state().1, env.sender@, env.contract.address@, env.sent_funds@)
                is None ==> r is Err && (r->Err_0 is CodeNotFound || r->Err_0 is AddressInUse
                || r->Err_0 is InsufficientFunds || r->Err_0 is Overflow),
            r is Ok ==> r->Ok_0.sender@ == env.sender@ && r->Ok_0.instance.address@
                == env.contract.address@ && r->Ok_0.instance.code_hash@ == env.contract.code_hash@
                && well_traced(ResponseVariants::Instantiate(r->Ok_0)),
            r is Ok ==> final(self).state().0.len() > old(self).state().0.len() && final(
                self
            ).state().0[old(self).state().0.len() as int].0 == env.contract.address@ && final(
                self
            ).state().0[old(self).state().0.len() as int].1 == env.contract.code_hash@ && final(
                self
            ).state().0[old(self).state().0.len() as int].2 == id as nat,
            r is Ok && r->Ok_0.response.messages@.len() == 0 ==> instantiated_alone(
                old(self).state(),
                env.sender@,
                env.contract.address@,
                env.contract.code_hash@,
                id as nat,
                env.sent_funds@,
                final(self).state(),
            ),
            id < old(self).code_count() && !old(self).instantiated(env.contract.address@)
                && transfer_spec(
                old(self).state().1,
                env.sender@,
                env.contract.address@,
                env.sent_funds@,
            ) is Some ==> final(self).calls().len() > old(self).calls().len() && final(self).calls()[old(
                self
            ).calls().len() as int] == (ProgramCall::Instantiate {
                contract: env.contract.address@,
                sender: env.sender@,
                funds: env.sent_funds@,
                balances: transfer_spec(
                    old(self).state().1,
                    env.sender@,
                    env.contract.address@,
                    env.sent_funds@,
                )->Some_0,
            }),
            !(id < old(self).code_count() && !old(self).instantiated(env.contract.address@)
                && transfer_spec(
                old(self).state().1,
                env.sender@,
                env.contract.address@,
                env.sent_funds@,
            ) is Some) ==> final(self).calls() == old(self).calls() && r is Err,
    {
        self.ctx.instantiate_top(id, msg, &env)
    }

    /// Executes the contract at `env.contract.address`, called by `env.sender` with
    /// `env.sent_funds`, and carries out the messages it returns. On success the block
    /// advances; on failure every store is as it was before the call. Messages nested
    /// deeper than `MAX_CALL_DEPTH` levels fail with `CallDepthExceeded`.
    pub fn execute(&mut self, msg: &[u8], env: MockEnv) -> (r: Result<ExecuteResponse, StdError>)
        requires
            old(self).wf(),
        ensures
            final(self).wf(),
            final(self).code_count() == old(self).code_count(),
            final(self).chain_id() == old(self).chain_id(),
            final(self).validators() == old(self).validators(),
            r is Err ==> final(self).state() == old(self).state() && final(self).block_view()
                == old(self).block_view(),
            r is Ok ==> final(self).block_view() == block_after(old(self).block_view()),
            !old(self).instantiated(env.contract.address@) ==> r is Err && r->Err_0 is ContractNotFound,
            transfer_spec(old(self).state().1, env.sender@, env.contract.address@, env.sent_funds@)
                is None ==> r is Err && (r->Err_0 is ContractNotFound || r->Err_0 is InsufficientFunds
                || r->Err_0 is Overflow),
            r is Ok ==> r->Ok_0.sender@ == env.sender@ && r->Ok_0.address@ == env.contract.address@
                && well_traced(ResponseVariants::Execute(r->Ok_0)),
            r is Ok && r->Ok_0.response.messages@.len() == 0 ==> executed_alone(
                old(self).state(),
                env.sender@,
                env.contract.address@,
                env.sent_funds@,
                final(self).state(),
            ),
            old(self).instantiated(env.contract.address@) && transfer_spec(
                old(self).state().1,
                env.sender@,
                env.contract.address@,
                env.sent_funds@,
            ) is Some ==> final(self).calls().len() > old(self).calls().len() && final(self).calls()[old(
                self
            ).calls().len() as int] == (ProgramCall::Execute {
                contract: env.contract.address@,
                sender: env.sender@,
                funds: env.sent_funds@,
                balances: transfer_spec(
                    old(self).state().1,
                    env.sender@,
                    env.contract.address@,
                    env.sent_funds@,
                )->Some_0,
            }),
            !old(self).instantiated(env.contract.address@) || transfer_spec(
                old(self).state().1,
                env.sender@,
                env.contract.address@,
                env.sent_funds@,
            ) is None ==> final(self).calls() == old(self).calls(),
    {
        self.ctx.execute_top(msg, &env)
    }

    /// Queries the contract at `address` and returns what its query entry point
    /// returns; fails with `ContractNotFound` when no instance lives there.
    pub fn query(&self, address: &str, msg: &[u8]) -> (r: Result<Vec<u8>, StdError>)
        requires
            self.wf(),
        ensures
            !self.instantiated(address@) ==> r is Err && r->Err_0 is ContractNotFound
                && r->Err_0->ContractNotFound_address@ == address@,
    {
        let r = self.ctx.query(address, msg);
        assert(self.state() == self.ctx.state());
        r
    }
}

/// "Contract not found: " followed by the address.
fn not_found(address: &str) -> (r: String)
    ensures
        r@ == "Contract not found: "@ + address@,
{
    let mut s = "Contract not found: ".to_owned();
    s.append(address);
    s
}

} // verus!
