//! The registry of contracts and instances, with the ledgers, checkpointed together.
use vstd::prelude::*;
use crate::bank::{credit, debit, transfer_spec, Bank, BalanceKey};
use crate::protocol::{
    dispatch_effect, plain, plain_run, plain_step, lemma_plain_run_none_extends, payee, staking_after, staking_succeeds, entry_matches, follows, is_reply_to,
    well_traced, all_well_traced, lemma_all_well_traced_push, next_step, one_entry, step_spec, two_entries, Step,
};
use crate::response::{ExecuteResponse, InstantiateResponse, ReplyResponse, ResponseVariants};
use crate::revertable::{Revertable, StoreValue};
use crate::staking::{
    lemma_mature_none_extends, mature, unbondings_of, Delegation, Delegations, FullDelegation,
    Stake, StakingResponse, Unbonding, Validator,
};
use crate::storage::{apply_writes, writes_model, WriteModel, ContractHarness, ContractStore, Deps, Querier, Storage};
use crate::types::{
    bytes_of, coins_copy, opt_bytes_copy, BankMsg, Block, BlockInfo, Coin, ContractLink, CosmosMsg,
    Env, MessageInfo, MockEnv, block_after, Reply, Response, StakingMsg, StdError, SubMsg, SubMsgResult, WasmMsg,
};


verus! {

/// How deeply the engine follows messages that cause further messages.
pub const MAX_CALL_DEPTH: u32 = 64;

/// An instantiated contract: its address, code hash, code id and private store.
pub struct ContractInstance {
    pub(crate) address: String,
    pub(crate) code_hash: String,
    pub(crate) index: usize,
    pub(crate) store: ContractStore,
}

/// What an instance is, for the engine's contracts: address, code hash, code id and the
/// contents of its store.
pub type InstanceModel = (Seq<char>, Seq<char>, nat, Map<Seq<u8>, Seq<u8>>);

/// Everything that a call can change: the instances, the balances, the stakes and the
/// pending undelegations.
pub type StateModel = (
    Seq<InstanceModel>,
    Map<BalanceKey, u128>,
    Map<BalanceKey, Stake>,
    Map<BalanceKey, u128>,
);

pub closed spec fn instance_model(i: ContractInstance) -> InstanceModel {
    (i.address@, i.code_hash@, i.index as nat, i.store@)
}

/// The instances as they were at checkpoint `level`: those that existed then, with
/// their stores as that checkpoint captured them.
pub closed spec fn instances_at(insts: Seq<ContractInstance>, n: int, level: int) -> Seq<InstanceModel> {
    insts.subrange(0, n).map_values(
        |i: ContractInstance| (i.address@, i.code_hash@, i.index as nat, i.store.saved()[level]),
    )
}

/// `s` with the writes `w` applied to the store of instance `j`.
pub open spec fn store_written(s: StateModel, j: int, w: Seq<WriteModel>) -> StateModel {
    (s.0.update(j, (s.0[j].0, s.0[j].1, s.0[j].2, apply_writes(s.0[j].3, w))), s.1, s.2, s.3)
}

/// `after` is `before` with `funds` moved from `sender` to the instance at `address`,
/// then the call's writes applied to that instance's store: what a call of it that
/// returns no message does.
pub open spec fn executed_alone(
    before: StateModel,
    sender: Seq<char>,
    address: Seq<char>,
    funds: Seq<Coin>,
    after: StateModel,
) -> bool {
    exists|j: int, w: Seq<WriteModel>|
        0 <= j < before.0.len() && before.0[j].0 == address && after == #[trigger] store_written(
            (before.0, transfer_spec(before.1, sender, address, funds)->Some_0, before.2, before.3),
            j,
            w,
        )
}

/// `after` is `before` with a new instance of code `code_id` at `address`, `funds` moved
/// from `sender` to it, and the call's writes in its store: what an instantiation that
/// returns no message does.
pub open spec fn instantiated_alone(
    before: StateModel,
    sender: Seq<char>,
    address: Seq<char>,
    code_hash: Seq<char>,
    code_id: nat,
    funds: Seq<Coin>,
    after: StateModel,
) -> bool {
    exists|w: Seq<WriteModel>|
        #[trigger] store_written(
            (
                before.0.push((address, code_hash, code_id, Map::empty())),
                transfer_spec(before.1, sender, address, funds)->Some_0,
                before.2,
                before.3,
            ),
            before.0.len() as int,
            w,
        ) == after
}

/// `after` is `before` with some writes applied to the store of an instance at
/// `address`, and nothing else changed.
pub open spec fn written_at(before: StateModel, address: Seq<char>, after: StateModel) -> bool {
    exists|j: int, w: Seq<WriteModel>|
        0 <= j < before.0.len() && before.0[j].0 == address && after == #[trigger] store_written(
            before,
            j,
            w,
        )
}

/// A call of a contract program's entry point, as the engine made it: which contract,
/// for whom, with which funds, and the balances the program could read.
pub ghost enum ProgramCall {
    Instantiate {
        contract: Seq<char>,
        sender: Seq<char>,
        funds: Seq<Coin>,
        balances: Map<BalanceKey, u128>,
    },
    Execute {
        contract: Seq<char>,
        sender: Seq<char>,
        funds: Seq<Coin>,
        balances: Map<BalanceKey, u128>,
    },
    Reply { contract: Seq<char>, id: u64, ok: bool },
}

/// Same address, code hash and code id.
pub closed spec fn same_identity(a: ContractInstance, b: ContractInstance) -> bool {
    a.address == b.address && a.code_hash == b.code_hash && a.index == b.index
}

/// The engine's registry and ledgers.
pub struct Context {
    pub(crate) instances: Vec<ContractInstance>,
    pub(crate) contracts: Vec<Box<dyn ContractHarness>>,
    pub(crate) bank: Bank,
    pub(crate) delegations: Delegations,
    pub(crate) block: Block,
    pub(crate) chain_id: String,
    pub(crate) canonical_length: usize,
    pub(crate) marks: Vec<usize>,
    /// Every call of a contract program's entry point made so far, in order.
    pub(crate) calls: Ghost<Seq<ProgramCall>>,
}

impl Context {
    /// The context's invariant: every store is well formed and holds one checkpoint per
    /// live level; each level records how many instances existed when it opened.
    pub closed spec fn wf(&self) -> bool {
        &&& self.bank.wf()
        &&& self.delegations.wf()
        &&& self.bank.depth() == self.marks@.len()
        &&& self.delegations.depth() == self.marks@.len()
        &&& forall|j: int|
            #![trigger self.instances@[j]]
            0 <= j < self.instances@.len() ==> self.instances@[j].store.wf()
                && self.instances@[j].store.depth() == self.marks@.len()
                && self.instances@[j].index < self.contracts@.len()
        &&& forall|l: int| 0 <= l < self.marks@.len() ==> #[trigger] self.marks@[l] <= self.instances@.len()
        &&& forall|l: int, m: int| 0 <= l <= m < self.marks@.len() ==> self.marks@[l] <= self.marks@[m]
    }

    /// How many contract codes are registered.
    pub closed spec fn code_count(&self) -> nat {
        self.contracts@.len()
    }

    /// The bonded denomination.
    pub closed spec fn denom(&self) -> Seq<char> {
        self.delegations.denom()
    }

    /// The registered validators.
    pub closed spec fn validators(&self) -> Seq<Seq<char>> {
        self.delegations.validators()
    }

    /// The current block.
    pub closed spec fn block(&self) -> Block {
        self.block
    }

    /// The chain id that contracts see.
    pub closed spec fn chain_id(&self) -> Seq<char> {
        self.chain_id@
    }

    /// The address length that the context was made with.
    pub closed spec fn canonical_length(&self) -> usize {
        self.canonical_length
    }

    /// Every call of a contract program's entry point made so far, in order.
    pub closed spec fn calls(&self) -> Seq<ProgramCall> {
        self.calls@
    }

    /// Since `before`, `caller`'s reply was called for sub-message `id` with the given
    /// outcome, before any other program call.
    pub open spec fn replied(&self, before: &Self, caller: Seq<char>, id: u64, ok: bool) -> bool {
        &&& self.calls().len() > before.calls().len()
        &&& self.calls()[before.calls().len() as int] == (ProgramCall::Reply {
            contract: caller,
            id,
            ok,
        })
    }

    /// Whether an instance lives at `address`.
    pub open spec fn has(&self, address: Seq<char>) -> bool {
        exists|j: int| 0 <= j < self.state().0.len() && (#[trigger] self.state().0[j]).0 == address
    }

    /// How many checkpoints are live.
    pub closed spec fn depth(&self) -> nat {
        self.marks@.len()
    }

    /// The current state.
    pub closed spec fn state(&self) -> StateModel {
        (
            self.instances@.map_values(|i: ContractInstance| instance_model(i)),
            self.bank@,
            self.delegations.stakes(),
            self.delegations.unbonding(),
        )
    }

    /// The state that each live checkpoint captured, oldest first.
    pub closed spec fn saved(&self) -> Seq<StateModel> {
        Seq::new(
            self.marks@.len(),
            |l: int|
                (
                    instances_at(self.instances@, self.marks@[l] as int, l),
                    self.bank.saved()[l],
                    self.delegations.saved()[l].0,
                    self.delegations.saved()[l].1,
                ),
        )
    }

    /// What no call changes: the registered code, the block, the chain id, the
    /// validators and bonded denomination, and the checkpoints below the call.
    pub closed spec fn same_frame(&self, other: &Self) -> bool {
        &&& self.contracts == other.contracts
        &&& self.block == other.block
        &&& self.chain_id == other.chain_id
        &&& self.canonical_length == other.canonical_length
        &&& self.delegations.denom() == other.delegations.denom()
        &&& self.delegations.validators() == other.delegations.validators()
        &&& self.depth() == other.depth()
        &&& self.saved() == other.saved()
        &&& other.state().0.len() <= self.state().0.len()
        &&& forall|j: int|
            0 <= j < other.state().0.len() ==> (#[trigger] self.state().0[j]).0 == other.state().0[j].0
                && self.state().0[j].1 == other.state().0[j].1 && self.state().0[j].2
                == other.state().0[j].2
        &&& other.calls().len() <= self.calls().len()
        &&& forall|i: int|
            0 <= i < other.calls().len() ==> #[trigger] self.calls()[i] == other.calls()[i]
    }

    /// An empty context whose staking ledger bonds `native_denom`.
    pub fn new(canonical_length: usize, native_denom: &str) -> (r: Context)
        ensures
            r.wf(),
            r.depth() == 0,
            r.state() == (
                Seq::<InstanceModel>::empty(),
                Map::<BalanceKey, u128>::empty(),
                Map::<BalanceKey, Stake>::empty(),
                Map::<BalanceKey, u128>::empty(),
            ),
            r.code_count() == 0,
            r.denom() == native_denom@,
            r.validators() == Seq::<Seq<char>>::empty(),
            r.block() == (Block { height: 1, time: 1 }),
            r.chain_id() == "fadroma-ensemble-testnet"@,
            r.canonical_length() == canonical_length,
    {
        proof {
            reveal_strlit("fadroma-ensemble-testnet");
        }
        let r = Context {
            instances: Vec::new(),
            contracts: Vec::new(),
            bank: Bank::new(),
            delegations: Delegations::new(native_denom),
            block: Block::new(),
            chain_id: "fadroma-ensemble-testnet".to_owned(),
            canonical_length,
            marks: Vec::new(),
            calls: Ghost(Seq::empty()),
        };
        assert(r.state().0 =~= Seq::<InstanceModel>::empty());
        r
    }

    /// The index of the instance at `address`, if there is one.
    pub(crate) fn find_instance(&self, address: &str) -> (r: Option<usize>)
        ensures
            match r {
                Some(i) => i < self.instances@.len() && self.instances@[i as int].address@
                    == address@,
                None => forall|j: int|
                    0 <= j < self.instances@.len() ==> (#[trigger] self.instances@[j]).address@
                        != address@,
            },
    {
        let who = address.to_owned();
        let mut i: usize = 0;
        while i < self.instances.len()
            invariant
                who@ == address@,
                i <= self.instances@.len(),
                forall|j: int| 0 <= j < i ==> (#[trigger] self.instances@[j]).address@ != address@,
            decreases self.instances@.len() - i,
        {
            if self.instances[i].address == who {
                return Some(i);
            }
            i = i + 1;
        }
        None
    }

    /// Applies the writes of a call to the store of instance `idx`, in order.
    pub(crate) fn apply_writes(&mut self, idx: usize, writes: &Vec<(Vec<u8>, Option<Vec<u8>>)>)
        requires
            old(self).wf(),
            idx < old(self).instances@.len(),
        ensures
            final(self).wf(),
            final(self).same_frame(old(self)),
            final(self).bank@ == old(self).bank@,
            final(self).delegations.stakes() == old(self).delegations.stakes(),
            final(self).delegations.unbonding() == old(self).delegations.unbonding(),
            final(self).instances@.len() == old(self).instances@.len(),
            forall|j: int|
                0 <= j < final(self).instances@.len() && j != idx ==> #[trigger] final(self).instances@[j] == old(self).instances@[j],
            same_identity(final(self).instances@[idx as int], old(self).instances@[idx as int]),
            final(self).instances@[idx as int].store@ == apply_writes(
                old(self).instances@[idx as int].store@,
                writes_model(writes@),
            ),
    {
        let ghost start = old(self).instances@[idx as int].store@;
        let mut i: usize = 0;
        while i < writes.len()
            invariant
                self.wf(),
                self.same_frame(old(self)),
                self.bank@ == old(self).bank@,
                self.delegations.stakes() == old(self).delegations.stakes(),
                self.delegations.unbonding() == old(self).delegations.unbonding(),
                idx < self.instances@.len(),
                self.instances@.len() == old(self).instances@.len(),
                forall|j: int|
                    0 <= j < self.instances@.len() && j != idx ==> #[trigger] self.instances@[j]
                        == old(self).instances@[j],
                same_identity(self.instances@[idx as int], old(self).instances@[idx as int]),
                start == old(self).instances@[idx as int].store@,
                i <= writes@.len(),
                self.instances@[idx as int].store@ == apply_writes(
                    start,
                    writes_model(writes@.subrange(0, i as int)),
                ),
            decreases writes@.len() - i,
        {
            let ghost prev = *self;
            let w = &writes[i];
            let key = w.0.duplicate();
            match &w.1 {
                Some(v) => {
                    let val = v.duplicate();
                    self.instances[idx].store.set(key, val);
                },
                None => {
                    self.instances[idx].store.remove(key);
                },
            }
            proof {
                let wm = writes_model(writes@.subrange(0, i + 1));
                assert(wm.drop_last() =~= writes_model(writes@.subrange(0, i as int)));
                assert(wm.last() == (w.0@, crate::revertable::opt_model(w.1)));
                assert(self.instances@[idx as int].store@ =~= apply_writes(start, wm));
                assert forall|l: int| 0 <= l < self.marks@.len() implies instances_at(
                    self.instances@,
                    #[trigger] self.marks@[l] as int,
                    l,
                ) == instances_at(prev.instances@, prev.marks@[l] as int, l) by {
                    assert(instances_at(self.instances@, self.marks@[l] as int, l) =~= instances_at(
                        prev.instances@,
                        prev.marks@[l] as int,
                        l,
                    ));
                }
                assert(self.saved() =~= prev.saved());
            }
            i = i + 1;
        }
        assert(writes@.subrange(0, i as int) =~= writes@);
    }

    proof fn lemma_saved_lens(&self)
        requires
            self.wf(),
        ensures
            self.bank.saved().len() == self.depth(),
            self.delegations.saved().len() == self.depth(),
            forall|j: int|
                0 <= j < self.instances@.len() ==> (#[trigger] self.instances@[j]).store.saved().len()
                    == self.depth(),
    {
        self.bank.lemma_saved_len();
        self.delegations.lemma_saved_len();
        assert forall|j: int|
            0 <= j < self.instances@.len() implies (#[trigger] self.instances@[j]).store.saved().len()
                == self.depth() by {
            self.instances@[j].store.lemma_saved_len();
        }
    }

    /// Opens a checkpoint on every store.
    pub(crate) fn checkpoint(&mut self)
        requires
            old(self).wf(),
        ensures
            final(self).wf(),
            final(self).state() == old(self).state(),
            final(self).depth() == old(self).depth() + 1,
            final(self).saved() == old(self).saved().push(old(self).state()),
            final(self).contracts == old(self).contracts,
            final(self).block == old(self).block,
            final(self).chain_id == old(self).chain_id,
            final(self).calls == old(self).calls,
            final(self).canonical_length == old(self).canonical_length,
            final(self).delegations.denom() == old(self).delegations.denom(),
            final(self).delegations.validators() == old(self).delegations.validators(),
    {
        proof {
            self.lemma_saved_lens();
        }
        let n = self.instances.len();
        let mut i: usize = 0;
        while i < n
            invariant
                n == self.instances@.len(),
                n == old(self).instances@.len(),
                i <= n,
                self.marks == old(self).marks,
                self.bank == old(self).bank,
                self.delegations == old(self).delegations,
                self.contracts == old(self).contracts,
                self.block == old(self).block,
                self.chain_id == old(self).chain_id,
                self.calls == old(self).calls,
                self.canonical_length == old(self).canonical_length,
                old(self).wf(),
                forall|j: int|
                    #![trigger self.instances@[j]]
                    0 <= j < n ==> same_identity(self.instances@[j], old(self).instances@[j])
                        && self.instances@[j].store.wf() && self.instances@[j].store@ == old(self).instances@[j].store@,
                forall|j: int|
                    #![trigger self.instances@[j]]
                    0 <= j < i ==> self.instances@[j].store.depth() == old(self).depth() + 1
                        && self.instances@[j].store.saved() == old(self).instances@[j].store.saved().push(
                        old(self).instances@[j].store@,
                    ),
                forall|j: int|
                    #![trigger self.instances@[j]]
                    i <= j < n ==> self.instances@[j] == old(self).instances@[j],
            decreases n - i,
        {
            self.instances[i].store.checkpoint();
            i = i + 1;
        }
        self.bank.checkpoint();
        self.delegations.checkpoint();
        self.marks.push(n);
        proof {
            old(self).lemma_saved_lens();
            let o = old(self);
            assert forall|l: int| 0 <= l < self.saved().len() implies self.saved()[l]
                == o.saved().push(o.state())[l] by {
                if l < o.marks@.len() {
                    assert(instances_at(self.instances@, self.marks@[l] as int, l) =~= instances_at(
                        o.instances@,
                        o.marks@[l] as int,
                        l,
                    ));
                } else {
                    assert(instances_at(self.instances@, self.marks@[l] as int, l) =~= o.state().0);
                }
            }
            assert(self.saved() =~= o.saved().push(o.state()));
            assert(self.state().0 =~= o.state().0);
            assert forall|l: int, m: int| 0 <= l <= m < self.marks@.len() implies self.marks@[l]
                <= self.marks@[m] by {
                if m < o.marks@.len() {
                    assert(o.marks@[l] <= o.marks@[m]);
                } else if l < o.marks@.len() {
                    assert(o.marks@[l] <= o.instances@.len());
                }
            }
        }
    }

    /// Closes the innermost checkpoint of every store, keeping what was written since.
    pub(crate) fn commit(&mut self)
        requires
            old(self).wf(),
            old(self).depth() > 0,
        ensures
            final(self).wf(),
            final(self).state() == old(self).state(),
            final(self).depth() == old(self).depth() - 1,
            final(self).saved() == old(self).saved().drop_last(),
            final(self).contracts == old(self).contracts,
            final(self).block == old(self).block,
            final(self).chain_id == old(self).chain_id,
            final(self).calls == old(self).calls,
            final(self).canonical_length == old(self).canonical_length,
            final(self).delegations.denom() == old(self).delegations.denom(),
            final(self).delegations.validators() == old(self).delegations.validators(),
    {
        proof {
            self.lemma_saved_lens();
        }
        let n = self.instances.len();
        let mut i: usize = 0;
        while i < n
            invariant
                n == self.instances@.len(),
                n == old(self).instances@.len(),
                i <= n,
                self.marks == old(self).marks,
                self.bank == old(self).bank,
                self.delegations == old(self).delegations,
                self.contracts == old(self).contracts,
                self.block == old(self).block,
                self.chain_id == old(self).chain_id,
                self.calls == old(self).calls,
                self.canonical_length == old(self).canonical_length,
                old(self).wf(),
                old(self).depth() > 0,
                forall|j: int|
                    #![trigger self.instances@[j]]
                    0 <= j < n ==> same_identity(self.instances@[j], old(self).instances@[j])
                        && self.instances@[j].store.wf() && self.instances@[j].store@ == old(self).instances@[j].store@,
                forall|j: int|
                    #![trigger self.instances@[j]]
                    0 <= j < i ==> self.instances@[j].store.depth() == old(self).depth() - 1
                        && self.instances@[j].store.saved() == old(self).instances@[j].store.saved().drop_last(),
                forall|j: int|
                    #![trigger self.instances@[j]]
                    i <= j < n ==> self.instances@[j] == old(self).instances@[j],
            decreases n - i,
        {
            self.instances[i].store.commit();
            i = i + 1;
        }
        self.bank.commit();
        self.delegations.commit();
        self.marks.pop();
        proof {
            let o = old(self);
            assert forall|l: int| 0 <= l < self.saved().len() implies self.saved()[l]
                == o.saved().drop_last()[l] by {
                assert(instances_at(self.instances@, self.marks@[l] as int, l) =~= instances_at(
                    o.instances@,
                    o.marks@[l] as int,
                    l,
                ));
            }
            assert(self.saved() =~= o.saved().drop_last());
            assert(self.state().0 =~= o.state().0);
        }
    }

    /// Restores every store to what the innermost checkpoint captured, drops the
    /// instances created since, and closes the checkpoint.
    pub(crate) fn revert(&mut self)
        requires
            old(self).wf(),
            old(self).depth() > 0,
        ensures
            final(self).wf(),
            final(self).state() == old(self).saved().last(),
            final(self).depth() == old(self).depth() - 1,
            final(self).saved() == old(self).saved().drop_last(),
            final(self).contracts == old(self).contracts,
            final(self).block == old(self).block,
            final(self).chain_id == old(self).chain_id,
            final(self).calls == old(self).calls,
            final(self).canonical_length == old(self).canonical_length,
            final(self).delegations.denom() == old(self).delegations.denom(),
            final(self).delegations.validators() == old(self).delegations.validators(),
    {
        proof {
            self.lemma_saved_lens();
        }
        let top = self.marks[self.marks.len() - 1];
        assert(old(self).marks@[old(self).marks@.len() - 1] <= old(self).instances@.len());
        self.instances.truncate(top);
        let ghost cut = *self;
        let n = self.instances.len();
        let mut i: usize = 0;
        while i < n
            invariant
                n == self.instances@.len(),
                n == top,
                top <= old(self).instances@.len(),
                top == old(self).marks@[old(self).marks@.len() - 1],
                cut.instances@ == old(self).instances@.subrange(0, top as int),
                i <= n,
                self.marks == old(self).marks,
                self.bank == old(self).bank,
                self.delegations == old(self).delegations,
                self.contracts == old(self).contracts,
                self.block == old(self).block,
                self.chain_id == old(self).chain_id,
                self.calls == old(self).calls,
                self.canonical_length == old(self).canonical_length,
                old(self).wf(),
                old(self).depth() > 0,
                forall|j: int|
                    #![trigger self.instances@[j]]
                    0 <= j < n ==> same_identity(self.instances@[j], old(self).instances@[j])
                        && self.instances@[j].store.wf(),
                forall|j: int|
                    #![trigger self.instances@[j]]
                    0 <= j < i ==> self.instances@[j].store.depth() == old(self).depth() - 1
                        && self.instances@[j].store@ == old(self).instances@[j].store.saved().last()
                        && self.instances@[j].store.saved() == old(self).instances@[j].store.saved().drop_last(),
                forall|j: int|
                    #![trigger self.instances@[j]]
                    i <= j < n ==> self.instances@[j] == old(self).instances@[j],
            decreases n - i,
        {
            assert(old(self).instances@[i as int].store.depth() == old(self).depth());
            self.instances[i].store.revert();
            i = i + 1;
        }
        self.bank.revert();
        self.delegations.revert();
        self.marks.pop();
        proof {
            let o = old(self);
            let d = o.marks@.len() - 1;
            assert forall|l: int| 0 <= l < self.saved().len() implies self.saved()[l]
                == o.saved().drop_last()[l] by {
                assert(o.marks@[l] <= o.marks@[d]);
                assert(instances_at(self.instances@, self.marks@[l] as int, l) =~= instances_at(
                    o.instances@,
                    o.marks@[l] as int,
                    l,
                ));
            }
            assert(self.saved() =~= o.saved().drop_last());
            assert(self.state().0 =~= instances_at(o.instances@, o.marks@[d] as int, d));
            assert forall|l: int| 0 <= l < self.marks@.len() implies #[trigger] self.marks@[l]
                <= self.instances@.len() by {
                assert(o.marks@[l] <= o.marks@[d]);
            }
        }
    }
}


/// The data of a contract call's response, which a reply to it carries.
fn entry_data(e: &ResponseVariants) -> (r: Option<Vec<u8>>) {
    match e {
        ResponseVariants::Execute(x) => opt_bytes_copy(&x.response.data),
        ResponseVariants::Instantiate(x) => opt_bytes_copy(&x.response.data),
        _ => None,
    }
}

impl Context {
    proof fn lemma_has_kept(a: &Context, b: &Context, address: Seq<char>)
        requires
            a.same_frame(b),
            b.has(address),
        ensures
            a.has(address),
    {
        let j = choose|j: int| 0 <= j < b.state().0.len() && (#[trigger] b.state().0[j]).0 == address;
        assert(a.state().0[j].0 == address);
    }

    proof fn lemma_saved_same(a: &Context, b: &Context)
        requires
            a.instances == b.instances,
            a.marks == b.marks,
            a.bank.saved() == b.bank.saved(),
            a.delegations.saved() == b.delegations.saved(),
        ensures
            a.saved() == b.saved(),
    {
        assert(a.saved() =~= b.saved());
    }

    proof fn lemma_state_same(a: &Context, b: &Context)
        requires
            a.instances == b.instances,
            a.bank@ == b.bank@,
            a.delegations.stakes() == b.delegations.stakes(),
            a.delegations.unbonding() == b.delegations.unbonding(),
        ensures
            a.state() == b.state(),
    {
        assert(a.state().0 =~= b.state().0);
    }

    proof fn lemma_state_tuple(c: &Context)
        ensures
            c.state().0 == c.instances@.map_values(|i: ContractInstance| instance_model(i)),
            c.state().1 == c.bank@,
            c.state().2 == c.delegations.stakes(),
            c.state().3 == c.delegations.unbonding(),
            c.denom() == c.delegations.denom(),
            c.validators() == c.delegations.validators(),
    {
    }

    fn create_env(&self, idx: usize) -> (r: Env)
        requires
            idx < self.instances@.len(),
        ensures
            r.contract.address@ == self.state().0[idx as int].0,
            r.contract.code_hash@ == self.state().0[idx as int].1,
            r.block.height == self.block().height,
            r.block.time == self.block().time,
            r.block.chain_id@ == self.chain_id(),
    {
        Env {
            block: BlockInfo {
                height: self.block.height,
                time: self.block.time,
                chain_id: self.chain_id.clone(),
            },
            contract: ContractLink {
                address: self.instances[idx].address.clone(),
                code_hash: self.instances[idx].code_hash.clone(),
            },
        }
    }

    /// Calls the instantiate entry point of instance `idx`; returns its result and the
    /// writes it made, which are not applied yet.
    fn call_instantiate(&self, idx: usize, env: Env, info: MessageInfo, msg: &[u8]) -> (r: (
        Result<Response, StdError>,
        Vec<(Vec<u8>, Option<Vec<u8>>)>,
    ))
        requires
            self.wf(),
            idx < self.instances@.len(),
    {
        let inst = &self.instances[idx];
        let harness = &self.contracts[inst.index];
        let mut deps = Deps { storage: Storage::new(&inst.store), querier: Querier::new(&self.bank) };
        let result = harness.instantiate(&mut deps, env, info, msg);
        (result, deps.storage.into_writes())
    }

    /// Calls the execute entry point of instance `idx`.
    fn call_execute(&self, idx: usize, env: Env, info: MessageInfo, msg: &[u8]) -> (r: (
        Result<Response, StdError>,
        Vec<(Vec<u8>, Option<Vec<u8>>)>,
    ))
        requires
            self.wf(),
            idx < self.instances@.len(),
    {
        let inst = &self.instances[idx];
        let harness = &self.contracts[inst.index];
        let mut deps = Deps { storage: Storage::new(&inst.store), querier: Querier::new(&self.bank) };
        let result = harness.execute(&mut deps, env, info, msg);
        (result, deps.storage.into_writes())
    }

    /// Calls the reply entry point of instance `idx`.
    fn call_reply(&self, idx: usize, env: Env, reply: Reply) -> (r: (
        Result<Response, StdError>,
        Vec<(Vec<u8>, Option<Vec<u8>>)>,
    ))
        requires
            self.wf(),
            idx < self.instances@.len(),
    {
        let inst = &self.instances[idx];
        let harness = &self.contracts[inst.index];
        let mut deps = Deps { storage: Storage::new(&inst.store), querier: Querier::new(&self.bank) };
        let result = harness.reply(&mut deps, env, reply);
        (result, deps.storage.into_writes())
    }

    /// Calls the query entry point of the instance at `address`.
    pub(crate) fn query(&self, address: &str, msg: &[u8]) -> (r: Result<Vec<u8>, StdError>)
        requires
            self.wf(),
        ensures
            (forall|j: int|
                0 <= j < self.state().0.len() ==> (#[trigger] self.state().0[j]).0 != address@)
                ==> r is Err && r->Err_0 is ContractNotFound && r->Err_0->ContractNotFound_address@
                == address@,
    {
        match self.find_instance(address) {
            None => Err(StdError::ContractNotFound { address: address.to_owned() }),
            Some(idx) => {
                let env = self.create_env(idx);
                let inst = &self.instances[idx];
                let harness = &self.contracts[inst.index];
                let deps = Deps { storage: Storage::new(&inst.store), querier: Querier::new(&self.bank) };
                assert(self.state().0[idx as int].0 == address@);
                harness.query(&deps, env, msg)
            },
        }
    }

    /// Carries out what `sub`'s reply policy calls for once its dispatch has ended with
    /// `outcome`: keep the entry and go on; call `caller`'s reply with the success or with
    /// the error; or fail with the dispatch's own error. Nothing else is called, and a
    /// step that calls no reply changes no state.
    fn settle_submessage(
        &mut self,
        sub: &SubMsg,
        caller: &str,
        outcome: Result<ResponseVariants, StdError>,
        fuel: u32,
    ) -> (r: Result<Vec<ResponseVariants>, StdError>)
        requires
            old(self).wf(),
            outcome is Ok ==> entry_matches(sub.msg, caller@, outcome->Ok_0) && well_traced(
                outcome->Ok_0,
            ),
            old(self).has(caller@),
        ensures
            final(self).wf(),
            final(self).same_frame(old(self)),
            r is Ok ==> all_well_traced(r->Ok_0@),
            r is Ok ==> (r->Ok_0@.len() == 1 && one_entry(*sub, caller@, r->Ok_0@[0])) || (
            r->Ok_0@.len() == 2 && two_entries(*sub, caller@, r->Ok_0@[0], r->Ok_0@[1])),
            step_spec(sub.reply_on, outcome is Ok) == Step::Continue ==> r is Ok && r->Ok_0@
                == seq![outcome->Ok_0] && final(self).state() == old(self).state()
                && final(self).calls() == old(self).calls(),
            step_spec(sub.reply_on, outcome is Ok) == Step::Fail ==> r == Err::<
                Vec<ResponseVariants>,
                StdError,
            >(outcome->Err_0) && final(self).state() == old(self).state() && final(self).calls()
                == old(self).calls(),
            step_spec(sub.reply_on, outcome is Ok) == Step::ReplySuccess ==> final(self).replied(
                old(self),
                caller@,
                sub.id,
                true,
            ),
            step_spec(sub.reply_on, outcome is Ok) == Step::ReplySuccess && r is Ok ==> r->Ok_0@.len()
                == 2 && r->Ok_0@[0] == outcome->Ok_0 && is_reply_to(r->Ok_0@[1], caller@, sub.id, true),
            step_spec(sub.reply_on, outcome is Ok) == Step::ReplyError ==> final(self).replied(
                old(self),
                caller@,
                sub.id,
                false,
            ),
            step_spec(sub.reply_on, outcome is Ok) == Step::ReplyError && r is Ok ==> r->Ok_0@.len()
                == 1 && is_reply_to(r->Ok_0@[0], caller@, sub.id, false),
        decreases fuel, 5nat,
    {
        let step = next_step(sub.reply_on, outcome.is_ok());
        match outcome {
            Ok(entry) => {
                if step == Step::ReplySuccess {
                    let data = entry_data(&entry);
                    let reply = Reply { id: sub.id, result: SubMsgResult::Success { data } };
                    match self.reply_to(caller, reply, fuel) {
                        Ok(rr) => {
                            let ghost e2 = ResponseVariants::Reply(rr);
                            let out = vec![entry, ResponseVariants::Reply(rr)];
                            proof {
                                assert(out@ =~= seq![entry].push(e2));
                                lemma_all_well_traced_push(Seq::empty(), entry);
                                assert(seq![entry] =~= Seq::<ResponseVariants>::empty().push(entry));
                                lemma_all_well_traced_push(seq![entry], e2);
                            }
                            Ok(out)
                        },
                        Err(e) => Err(e),
                    }
                } else {
                    let out = vec![entry];
                    proof {
                        assert(out@ =~= Seq::<ResponseVariants>::empty().push(entry));
                        lemma_all_well_traced_push(Seq::empty(), entry);
                    }
                    Ok(out)
                }
            },
            Err(e) => {
                if step == Step::Fail {
                    return Err(e);
                }
                let reply = Reply { id: sub.id, result: SubMsgResult::Failure(e.to_string()) };
                match self.reply_to(caller, reply, fuel) {
                    Ok(rr) => {
                        let ghost e1 = ResponseVariants::Reply(rr);
                        let out = vec![ResponseVariants::Reply(rr)];
                        proof {
                            assert(out@ =~= Seq::<ResponseVariants>::empty().push(e1));
                            lemma_all_well_traced_push(Seq::empty(), e1);
                        }
                        Ok(out)
                    },
                    Err(e2) => Err(e2),
                }
            },
        }
    }

    /// Runs `caller`'s sub-messages in order, as the reply protocol says: each is
    /// dispatched (a failed dispatch leaves the state as it was), then settled by
    /// `settle_submessage`. An empty list changes nothing.
    fn run_submessages(&mut self, msgs: &Vec<SubMsg>, caller: &str, fuel: u32) -> (r: Result<
        Vec<ResponseVariants>,
        StdError,
    >)
        requires
            old(self).wf(),
            old(self).has(caller@),
        ensures
            final(self).wf(),
            final(self).same_frame(old(self)),
            r is Ok ==> follows(msgs@, caller@, r->Ok_0@) && all_well_traced(r->Ok_0@),
            msgs@.len() == 0 ==> r is Ok && r->Ok_0@.len() == 0 && final(self).state() == old(self).state() && final(self).calls() == old(self).calls(),
            plain(msgs@) ==> match plain_run(
                msgs@,
                caller@,
                old(self).state(),
                old(self).denom(),
                old(self).validators(),
            ) {
                Some(after) => r is Ok && final(self).state() == after && final(self).calls() == old(
                    self
                ).calls(),
                None => r is Err && final(self).calls() == old(self).calls(),
            },
        decreases fuel, 6nat,
    {
        let mut sent: Vec<ResponseVariants> = Vec::new();
        let mut i: usize = 0;
        assert(msgs@.subrange(0, 0) =~= Seq::<SubMsg>::empty());
        while i < msgs.len()
            invariant
                self.wf(),
                self.same_frame(old(self)),
                self.has(caller@),
                plain(msgs@) ==> plain_run(
                    msgs@.subrange(0, i as int),
                    caller@,
                    old(self).state(),
                    old(self).denom(),
                    old(self).validators(),
                ) == Some(self.state()) && self.calls() == old(self).calls(),
                i <= msgs@.len(),
                follows(msgs@.subrange(0, i as int), caller@, sent@),
                all_well_traced(sent@),
                msgs@.len() == 0 ==> self.state() == old(self).state() && self.calls() == old(self).calls(),
            decreases msgs@.len() - i,
        {
            let sub = &msgs[i];
            let ghost before = sent@;
            let ghost subs = msgs@.subrange(0, i + 1);
            assert(subs.drop_last() =~= msgs@.subrange(0, i as int));
            assert(subs.last() == *sub);
            let ghost pre = *self;
            let ghost pre_run = plain_run(
                msgs@.subrange(0, i as int),
                caller@,
                old(self).state(),
                old(self).denom(),
                old(self).validators(),
            );
            assert(plain(msgs@) ==> plain_run(
                msgs@.subrange(0, i + 1),
                caller@,
                old(self).state(),
                old(self).denom(),
                old(self).validators(),
            ) == plain_step(sub.msg, caller@, self.state(), old(self).denom(), old(self).validators()));
            let outcome = self.dispatch(&sub.msg, caller, fuel);
            let ghost mid = *self;
            proof {
                Context::lemma_has_kept(self, &pre, caller@);
            }
            let mut part = match self.settle_submessage(sub, caller, outcome, fuel) {
                Ok(p) => p,
                Err(e) => {
                    proof {
                        if plain(msgs@) {
                            assert(plain_run(
                                msgs@.subrange(0, i + 1),
                                caller@,
                                old(self).state(),
                                old(self).denom(),
                                old(self).validators(),
                            ) is None);
                            lemma_plain_run_none_extends(
                                msgs@,
                                caller@,
                                old(self).state(),
                                old(self).denom(),
                                old(self).validators(),
                                i + 1,
                            );
                        }
                    }
                    return Err(e);
                },
            };
            proof {
                Context::lemma_has_kept(self, &mid, caller@);
            }
            let ghost added = part@;
            sent.append(&mut part);
            proof {
                assert(sent@ =~= before + added);
                if added.len() == 1 {
                    assert(sent@.drop_last() =~= before);
                    assert(sent@[sent@.len() - 1] == added[0]);
                    assert(sent@ =~= before.push(added[0]));
                    lemma_all_well_traced_push(before, added[0]);
                } else {
                    assert(sent@.subrange(0, sent@.len() - 2) =~= before);
                    assert(sent@[sent@.len() - 2] == added[0]);
                    assert(sent@[sent@.len() - 1] == added[1]);
                    assert(all_well_traced(added.drop_last()));
                    assert(added.drop_last() =~= Seq::<ResponseVariants>::empty().push(added[0]));
                    assert(well_traced(added[0]));
                    lemma_all_well_traced_push(before, added[0]);
                    assert(before.push(added[0]).push(added[1]) =~= sent@);
                    lemma_all_well_traced_push(before.push(added[0]), added[1]);
                }
            }
            i = i + 1;
        }
        assert(msgs@.subrange(0, i as int) =~= msgs@);
        Ok(sent)
    }

    /// Runs the sub-messages of a response that `caller` returned, if it has any.
    fn run_response(&mut self, response: &Response, caller: &str, fuel: u32) -> (r: Result<
        Vec<ResponseVariants>,
        StdError,
    >)
        requires
            old(self).wf(),
            old(self).has(caller@),
        ensures
            final(self).wf(),
            final(self).same_frame(old(self)),
            r is Ok ==> follows(response.messages@, caller@, r->Ok_0@) && all_well_traced(
                r->Ok_0@,
            ),
            response.messages@.len() == 0 ==> r is Ok && r->Ok_0@.len() == 0 && *final(self)
                == *old(self),
        decreases fuel, 0nat,
    {
        if response.messages.len() == 0 {
            let sent: Vec<ResponseVariants> = Vec::new();
            assert(follows(response.messages@, caller@, sent@));
            assert(all_well_traced(sent@));
            return Ok(sent);
        }
        if fuel == 0 {
            return Err(StdError::CallDepthExceeded);
        }
        self.run_submessages(&response.messages, caller, fuel - 1)
    }

    /// What follows a call of the contract program at instance `idx`, which returned
    /// `result` and wrote `writes`: an error comes back as it is, with nothing changed;
    /// otherwise the writes go to the instance's store, then the messages of the response
    /// run. A response without messages changes nothing else.
    fn settle_call(
        &mut self,
        idx: usize,
        caller: &str,
        result: Result<Response, StdError>,
        writes: &Vec<(Vec<u8>, Option<Vec<u8>>)>,
        fuel: u32,
    ) -> (r: Result<(Response, Vec<ResponseVariants>), StdError>)
        requires
            old(self).wf(),
            idx < old(self).instances@.len(),
            old(self).instances@[idx as int].address@ == caller@,
        ensures
            final(self).wf(),
            final(self).same_frame(old(self)),
            result is Err ==> r == Err::<(Response, Vec<ResponseVariants>), StdError>(
                result->Err_0,
            ) && final(self).state() == old(self).state(),
            r is Ok ==> result is Ok && r->Ok_0.0 == result->Ok_0 && follows(
                r->Ok_0.0.messages@,
                caller@,
                r->Ok_0.1@,
            ) && all_well_traced(r->Ok_0.1@),
            result is Ok && result->Ok_0.messages@.len() == 0 ==> r is Ok && r->Ok_0.1@.len() == 0
                && final(self).state() == store_written(
                old(self).state(),
                idx as int,
                writes_model(writes@),
            ),
        decreases fuel, 1nat,
    {
        let response = match result {
            Ok(res) => res,
            Err(e) => {
                return Err(e);
            },
        };
        self.apply_writes(idx, writes);
        proof {
            let o = old(self).state();
            assert(self.state().0 =~= o.0.update(
                idx as int,
                (o.0[idx as int].0, o.0[idx as int].1, o.0[idx as int].2, apply_writes(
                    o.0[idx as int].3,
                    writes_model(writes@),
                )),
            ));
        }
        assert(self.state().0[idx as int].0 == caller@);
        match self.run_response(&response, caller, fuel) {
            Ok(sent) => Ok((response, sent)),
            Err(e) => Err(e),
        }
    }

    /// Calls `caller` back with the outcome of one of its sub-messages, then runs the
    /// sub-messages that the reply returns.
    fn reply_to(&mut self, caller: &str, reply: Reply, fuel: u32) -> (r: Result<ReplyResponse, StdError>)
        requires
            old(self).wf(),
        ensures
            final(self).wf(),
            final(self).same_frame(old(self)),
            r is Ok ==> is_reply_to(
                ResponseVariants::Reply(r->Ok_0),
                caller@,
                reply.id,
                reply.result is Success,
            ) && well_traced(ResponseVariants::Reply(r->Ok_0)),
            old(self).has(caller@) ==> final(self).replied(
                old(self),
                caller@,
                reply.id,
                reply.result is Success,
            ),
            !old(self).has(caller@) ==> r is Err && r->Err_0 is ContractNotFound && *final(self)
                == *old(self),
        decreases fuel, 4nat,
    {
        let idx = match self.find_instance(caller) {
            Some(i) => i,
            None => {
                assert forall|j: int| 0 <= j < self.state().0.len() implies (#[trigger] self.state().0[j]).0 != caller@ by {
                    assert(self.instances@[j].address@ != caller@);
                }
                return Err(StdError::ContractNotFound { address: caller.to_owned() });
            },
        };
        let env = self.create_env(idx);
        let kept = reply.duplicate();
        let ghost record = ProgramCall::Reply {
            contract: caller@,
            id: kept.id,
            ok: kept.result is Success,
        };
        let (result, writes) = self.call_reply(idx, env, reply);
        self.calls = Ghost(self.calls@.push(record));
        let (response, sent) = match self.settle_call(idx, caller, result, &writes, fuel) {
            Ok(done) => done,
            Err(e) => {
                return Err(e);
            },
        };
        Ok(ReplyResponse { address: caller.to_owned(), reply: kept, response, sent })
    }

    /// Carries out one message for `sender`. A failure leaves the state as it was.
    fn dispatch(&mut self, msg: &CosmosMsg, sender: &str, fuel: u32) -> (r: Result<
        ResponseVariants,
        StdError,
    >)
        requires
            old(self).wf(),
        ensures
            !(msg is Wasm) ==> final(self).calls() == old(self).calls(),
            final(self).wf(),
            final(self).same_frame(old(self)),
            r is Err ==> final(self).state() == old(self).state(),
            r is Ok ==> entry_matches(*msg, sender@, r->Ok_0) && well_traced(r->Ok_0),
            dispatch_effect(
                *msg,
                sender@,
                old(self).state(),
                final(self).state(),
                old(self).denom(),
                old(self).validators(),
                r,
            ),
        decreases fuel, 4nat,
    {
        match msg {
            CosmosMsg::Wasm(WasmMsg::Execute { contract_addr, msg: payload, funds, .. }) => {
                match self.execute_contract(
                    sender,
                    contract_addr.as_str(),
                    payload.as_slice(),
                    funds,
                    fuel,
                ) {
                    Ok(x) => Ok(ResponseVariants::Execute(x)),
                    Err(e) => Err(e),
                }
            },
            CosmosMsg::Wasm(WasmMsg::Instantiate { code_id, code_hash, msg: payload, funds, label }) => {
                match self.instantiate_contract(
                    sender,
                    *code_id,
                    label.as_str(),
                    code_hash.as_str(),
                    payload.as_slice(),
                    funds,
                    fuel,
                ) {
                    Ok(x) => Ok(ResponseVariants::Instantiate(x)),
                    Err(e) => Err(e),
                }
            },
            CosmosMsg::Bank(BankMsg::Send { to_address, amount }) => {
                let ghost before = *self;
                let r = self.bank.transfer(sender, to_address.as_str(), amount);
                proof {
                    Context::lemma_saved_same(self, &before);
                    if r is Err {
                        Context::lemma_state_same(self, &before);
                    } else {
                        assert(self.state().0 =~= before.state().0);
                    }
                }
                match r {
                    Ok(x) => Ok(ResponseVariants::Bank(x)),
                    Err(e) => Err(e),
                }
            },
            CosmosMsg::Staking(m) => {
                match self.staking_message(sender, m) {
                    Ok(x) => Ok(ResponseVariants::Staking(x)),
                    Err(e) => Err(e),
                }
            },
        }
    }

    /// Carries out a delegation message for `sender`, all or nothing.
    fn staking_message(&mut self, sender: &str, msg: &StakingMsg) -> (r: Result<
        StakingResponse,
        StdError,
    >)
        requires
            old(self).wf(),
        ensures
            final(self).calls() == old(self).calls(),
            final(self).wf(),
            final(self).same_frame(old(self)),
            r is Err ==> final(self).state() == old(self).state(),
            r is Ok <==> staking_succeeds(
                *msg,
                sender@,
                old(self).state(),
                old(self).denom(),
                old(self).validators(),
            ),
            r is Ok ==> final(self).state() == staking_after(
                *msg,
                sender@,
                old(self).state(),
                old(self).denom(),
            ),
    {
        self.checkpoint();
        let r = self.staking_in_scope(sender, msg);
        if r.is_ok() {
            self.commit();
            assert(old(self).saved().push(old(self).state()).drop_last() =~= old(self).saved());
        } else {
            self.revert();
            assert(old(self).saved().push(old(self).state()).drop_last() =~= old(self).saved());
        }
        r
    }

    fn staking_in_scope(&mut self, sender: &str, msg: &StakingMsg) -> (r: Result<
        StakingResponse,
        StdError,
    >)
        requires
            old(self).wf(),
        ensures
            final(self).calls() == old(self).calls(),
            final(self).wf(),
            final(self).same_frame(old(self)),
            r is Ok <==> staking_succeeds(
                *msg,
                sender@,
                old(self).state(),
                old(self).denom(),
                old(self).validators(),
            ),
            r is Ok ==> final(self).state() == staking_after(
                *msg,
                sender@,
                old(self).state(),
                old(self).denom(),
            ),
    {
        let ghost start = *self;
        let r = match msg {
            StakingMsg::Delegate { validator, amount } => {
                let coins = vec![amount.duplicate()];
                assert(coins@ =~= seq![*amount]);
                proof {
                    crate::bank::lemma_debit_single(self.bank@, sender@, *amount);
                }
                match self.bank.remove_funds(sender, &coins) {
                    Ok(_) => self.delegations.delegate(sender, validator.as_str(), amount),
                    Err(e) => Err(e),
                }
            },
            StakingMsg::Undelegate { validator, amount } => {
                self.delegations.undelegate(sender, validator.as_str(), amount)
            },
            StakingMsg::Redelegate { src_validator, dst_validator, amount } => {
                self.delegations.redelegate(
                    sender,
                    src_validator.as_str(),
                    dst_validator.as_str(),
                    amount,
                )
            },
            StakingMsg::Withdraw { validator, recipient } => {
                match self.delegations.delegation(sender, validator.as_str()) {
                    None => Err(StdError::DelegationNotFound),
                    Some(d) => {
                        let to = match recipient {
                            Some(who) => who.as_str(),
                            None => sender,
                        };
                        let ghost reward = d.accumulated_rewards;
                        let coins = vec![d.accumulated_rewards];
                        assert(coins@ =~= seq![reward]);
                        assert(to@ == payee(sender@, *recipient));
                        proof {
                            crate::bank::lemma_credit_single(self.bank@, to@, reward);
                        }
                        match self.bank.add_funds(to, &coins) {
                            Ok(_) => match self.delegations.withdraw(sender, validator.as_str()) {
                                Ok(_) => Ok(
                                    StakingResponse::Withdraw {
                                        delegator: sender.to_owned(),
                                        validator: validator.clone(),
                                    },
                                ),
                                Err(e) => Err(e),
                            },
                            Err(e) => Err(e),
                        }
                    },
                }
            },
        };
        proof {
            Context::lemma_saved_same(self, &start);
            Context::lemma_state_tuple(self);
            Context::lemma_state_tuple(&start);
        }
        r
    }

    /// Executes the contract at `address` for `sender`, with `funds` attached, and runs
    /// the sub-messages it returns. A failure leaves the state as it was.
    pub(crate) fn execute_contract(
        &mut self,
        sender: &str,
        address: &str,
        msg: &[u8],
        funds: &Vec<Coin>,
        fuel: u32,
    ) -> (r: Result<ExecuteResponse, StdError>)
        requires
            old(self).wf(),
        ensures
            final(self).wf(),
            final(self).same_frame(old(self)),
            r is Err ==> final(self).state() == old(self).state(),
            (forall|j: int|
                0 <= j < old(self).state().0.len() ==> (#[trigger] old(self).state().0[j]).0
                    != address@) ==> r is Err && r->Err_0 is ContractNotFound,
            transfer_spec(old(self).state().1, sender@, address@, funds@) is None ==> r is Err && (
            r->Err_0 is ContractNotFound || r->Err_0 is InsufficientFunds || r->Err_0 is Overflow),
            r is Ok && r->Ok_0.response.messages@.len() == 0 ==> executed_alone(
                old(self).state(),
                sender@,
                address@,
                funds@,
                final(self).state(),
            ),
            r is Ok ==> r->Ok_0.sender@ == sender@ && r->Ok_0.address@ == address@ && follows(
                r->Ok_0.response.messages@,
                address@,
                r->Ok_0.sent@,
            ),
            r is Ok ==> well_traced(ResponseVariants::Execute(r->Ok_0)),
            old(self).has(address@) && transfer_spec(old(self).state().1, sender@, address@, funds@)
                is Some ==> final(self).calls().len() > old(self).calls().len() && final(self).calls()[old(
                self
            ).calls().len() as int] == (ProgramCall::Execute {
                contract: address@,
                sender: sender@,
                funds: funds@,
                balances: transfer_spec(old(self).state().1, sender@, address@, funds@)->Some_0,
            }),
            !old(self).has(address@) || transfer_spec(old(self).state().1, sender@, address@, funds@)
                is None ==> final(self).calls() == old(self).calls(),
        decreases fuel, 3nat,
    {
        self.checkpoint();
        let r = self.execute_in_scope(sender, address, msg, funds, fuel);
        if r.is_ok() {
            self.commit();
        } else {
            self.revert();
        }
        assert(old(self).saved().push(old(self).state()).drop_last() =~= old(self).saved());
        r
    }

    fn execute_in_scope(
        &mut self,
        sender: &str,
        address: &str,
        msg: &[u8],
        funds: &Vec<Coin>,
        fuel: u32,
    ) -> (r: Result<ExecuteResponse, StdError>)
        requires
            old(self).wf(),
        ensures
            final(self).wf(),
            final(self).same_frame(old(self)),
            (forall|j: int|
                0 <= j < old(self).state().0.len() ==> (#[trigger] old(self).state().0[j]).0
                    != address@) ==> r is Err && r->Err_0 is ContractNotFound,
            transfer_spec(old(self).state().1, sender@, address@, funds@) is None ==> r is Err && (
            r->Err_0 is ContractNotFound || r->Err_0 is InsufficientFunds || r->Err_0 is Overflow),
            r is Ok && r->Ok_0.response.messages@.len() == 0 ==> executed_alone(
                old(self).state(),
                sender@,
                address@,
                funds@,
                final(self).state(),
            ),
            r is Ok ==> r->Ok_0.sender@ == sender@ && r->Ok_0.address@ == address@ && follows(
                r->Ok_0.response.messages@,
                address@,
                r->Ok_0.sent@,
            ),
            r is Ok ==> well_traced(ResponseVariants::Execute(r->Ok_0)),
            old(self).has(address@) && transfer_spec(old(self).state().1, sender@, address@, funds@)
                is Some ==> final(self).calls().len() > old(self).calls().len() && final(self).calls()[old(
                self
            ).calls().len() as int] == (ProgramCall::Execute {
                contract: address@,
                sender: sender@,
                funds: funds@,
                balances: transfer_spec(old(self).state().1, sender@, address@, funds@)->Some_0,
            }),
            !old(self).has(address@) || transfer_spec(old(self).state().1, sender@, address@, funds@)
                is None ==> final(self).calls() == old(self).calls(),
        decreases fuel, 2nat,
    {
        let idx = match self.find_instance(address) {
            Some(i) => i,
            None => {
                return Err(StdError::ContractNotFound { address: address.to_owned() });
            },
        };
        assert(old(self).state().0[idx as int].0 == address@);
        let ghost before = *self;
        let moved = self.bank.transfer(sender, address, funds);
        proof {
            Context::lemma_saved_same(self, &before);
        }
        if let Err(e) = moved {
            return Err(e);
        }
        let ghost mid = self.state();
        assert(mid.0 =~= old(self).state().0);
        let env = self.create_env(idx);
        let info = MessageInfo::new(sender, funds);
        let ghost record = ProgramCall::Execute {
            contract: self.state().0[idx as int].0,
            sender: info.sender@,
            funds: info.funds@,
            balances: self.state().1,
        };
        self.calls = Ghost(self.calls@.push(record));
        let (result, writes) = self.call_execute(idx, env, info, msg);
        let (response, sent) = match self.settle_call(idx, address, result, &writes, fuel) {
            Ok(done) => done,
            Err(e) => {
                return Err(e);
            },
        };
        proof {
            if response.messages@.len() == 0 {
                assert(old(self).state().0[idx as int].0 == address@);
                assert(self.state() == store_written(mid, idx as int, writes_model(writes@)));
            }
        }
        Ok(
            ExecuteResponse {
                sender: sender.to_owned(),
                address: address.to_owned(),
                msg: bytes_of(msg),
                response,
                sent,
            },
        )
    }

    /// Instantiates code `code_id` at `address` for `sender`, with `funds` attached, and
    /// runs the sub-messages it returns. A failure leaves the state as it was, and no
    /// instance at `address`.
    pub(crate) fn instantiate_contract(
        &mut self,
        sender: &str,
        code_id: u64,
        address: &str,
        code_hash: &str,
        msg: &[u8],
        funds: &Vec<Coin>,
        fuel: u32,
    ) -> (r: Result<InstantiateResponse, StdError>)
        requires
            old(self).wf(),
        ensures
            final(self).wf(),
            final(self).same_frame(old(self)),
            r is Err ==> final(self).state() == old(self).state(),
            code_id >= old(self).code_count() ==> r is Err && r->Err_0 is CodeNotFound,
            code_id < old(self).code_count() && (exists|j: int|
                0 <= j < old(self).state().0.len() && (#[trigger] old(self).state().0[j]).0
                    == address@) ==> r is Err && r->Err_0 is AddressInUse,
            transfer_spec(old(self).state().1, sender@, address@, funds@) is None ==> r is Err && (
            r->Err_0 is CodeNotFound || r->Err_0 is AddressInUse || r->Err_0 is InsufficientFunds
                || r->Err_0 is Overflow),
            r is Ok ==> final(self).state().0.len() > old(self).state().0.len() && final(
                self
            ).state().0[old(self).state().0.len() as int].0 == address@ && final(self).state().0[old(
                self
            ).state().0.len() as int].1 == code_hash@ && final(self).state().0[old(
                self
            ).state().0.len() as int].2 == code_id as nat,
            r is Ok && r->Ok_0.response.messages@.len() == 0 ==> instantiated_alone(
                old(self).state(),
                sender@,
                address@,
                code_hash@,
                code_id as nat,
                funds@,
                final(self).state(),
            ),
            r is Ok ==> r->Ok_0.instance.code_hash@ == code_hash@,
            r is Ok ==> r->Ok_0.sender@ == sender@ && r->Ok_0.instance.address@ == address@
                && follows(r->Ok_0.response.messages@, address@, r->Ok_0.sent@),
            r is Ok ==> well_traced(ResponseVariants::Instantiate(r->Ok_0)),
            code_id < old(self).code_count() && !old(self).has(address@) && transfer_spec(
                old(self).state().1,
                sender@,
                address@,
                funds@,
            ) is Some ==> final(self).calls().len() > old(self).calls().len() && final(self).calls()[old(
                self
            ).calls().len() as int] == (ProgramCall::Instantiate {
                contract: address@,
                sender: sender@,
                funds: funds@,
                balances: transfer_spec(old(self).state().1, sender@, address@, funds@)->Some_0,
            }),
            !(code_id < old(self).code_count() && !old(self).has(address@) && transfer_spec(
                old(self).state().1,
                sender@,
                address@,
                funds@,
            ) is Some) ==> final(self).calls() == old(self).calls() && r is Err,
        decreases fuel, 3nat,
    {
        self.checkpoint();
        let r = self.instantiate_in_scope(sender, code_id, address, code_hash, msg, funds, fuel);
        if r.is_ok() {
            self.commit();
        } else {
            self.revert();
        }
        assert(old(self).saved().push(old(self).state()).drop_last() =~= old(self).saved());
        r
    }

    fn instantiate_in_scope(
        &mut self,
        sender: &str,
        code_id: u64,
        address: &str,
        code_hash: &str,
        msg: &[u8],
        funds: &Vec<Coin>,
        fuel: u32,
    ) -> (r: Result<InstantiateResponse, StdError>)
        requires
            old(self).wf(),
            old(self).depth() > 0,
        ensures
            final(self).wf(),
            final(self).same_frame(old(self)),
            code_id >= old(self).code_count() ==> r is Err && r->Err_0 is CodeNotFound,
            code_id < old(self).code_count() && (exists|j: int|
                0 <= j < old(self).state().0.len() && (#[trigger] old(self).state().0[j]).0
                    == address@) ==> r is Err && r->Err_0 is AddressInUse,
            transfer_spec(old(self).state().1, sender@, address@, funds@) is None ==> r is Err && (
            r->Err_0 is CodeNotFound || r->Err_0 is AddressInUse || r->Err_0 is InsufficientFunds
                || r->Err_0 is Overflow),
            r is Ok ==> final(self).state().0.len() > old(self).state().0.len() && final(
                self
            ).state().0[old(self).state().0.len() as int].0 == address@ && final(self).state().0[old(
                self
            ).state().0.len() as int].1 == code_hash@ && final(self).state().0[old(
                self
            ).state().0.len() as int].2 == code_id as nat,
            r is Ok && r->Ok_0.response.messages@.len() == 0 ==> instantiated_alone(
                old(self).state(),
                sender@,
                address@,
                code_hash@,
                code_id as nat,
                funds@,
                final(self).state(),
            ),
            r is Ok ==> r->Ok_0.instance.code_hash@ == code_hash@,
            r is Ok ==> r->Ok_0.sender@ == sender@ && r->Ok_0.instance.address@ == address@
                && follows(r->Ok_0.response.messages@, address@, r->Ok_0.sent@),
            r is Ok ==> well_traced(ResponseVariants::Instantiate(r->Ok_0)),
            code_id < old(self).code_count() && !old(self).has(address@) && transfer_spec(
                old(self).state().1,
                sender@,
                address@,
                funds@,
            ) is Some ==> final(self).calls().len() > old(self).calls().len() && final(self).calls()[old(
                self
            ).calls().len() as int] == (ProgramCall::Instantiate {
                contract: address@,
                sender: sender@,
                funds: funds@,
                balances: transfer_spec(old(self).state().1, sender@, address@, funds@)->Some_0,
            }),
            !(code_id < old(self).code_count() && !old(self).has(address@) && transfer_spec(
                old(self).state().1,
                sender@,
                address@,
                funds@,
            ) is Some) ==> final(self).calls() == old(self).calls() && r is Err,
        decreases fuel, 2nat,
    {
        let codes = self.contracts.len();
        if code_id >= codes as u64 {
            return Err(StdError::CodeNotFound { id: code_id });
        }
        if let Some(taken) = self.find_instance(address) {
            assert(self.state().0[taken as int].0 == address@);
            return Err(StdError::AddressInUse { address: address.to_owned() });
        }
        proof {
            assert forall|j: int| 0 <= j < old(self).state().0.len() implies (#[trigger] old(
                self
            ).state().0[j]).0 != address@ by {
                assert(old(self).instances@[j].address@ != address@);
            }
        }
        let ghost before = *self;
        let moved = self.bank.transfer(sender, address, funds);
        proof {
            Context::lemma_saved_same(self, &before);
        }
        if let Err(e) = moved {
            return Err(e);
        }
        let depth = self.marks.len();
        let ghost pre = *self;
        self.instances.push(
            ContractInstance {
                address: address.to_owned(),
                code_hash: code_hash.to_owned(),
                index: code_id as usize,
                store: Revertable::new_at_depth(depth),
            },
        );
        proof {
            assert forall|l: int| 0 <= l < self.marks@.len() implies instances_at(
                self.instances@,
                #[trigger] self.marks@[l] as int,
                l,
            ) == instances_at(pre.instances@, pre.marks@[l] as int, l) by {
                assert(pre.marks@[l] <= pre.instances@.len());
                assert(instances_at(self.instances@, self.marks@[l] as int, l) =~= instances_at(
                    pre.instances@,
                    pre.marks@[l] as int,
                    l,
                ));
            }
            assert(self.saved() =~= pre.saved());
            assert forall|j: int| 0 <= j < self.instances@.len() implies (#[trigger] self.instances@[j]).store.wf()
                && self.instances@[j].store.depth() == self.marks@.len()
                && self.instances@[j].index < self.contracts@.len() by {
                if j < pre.instances@.len() {
                    assert(self.instances@[j] == pre.instances@[j]);
                }
            }
            assert forall|l: int| 0 <= l < self.marks@.len() implies #[trigger] self.marks@[l]
                <= self.instances@.len() by {
                assert(pre.marks@[l] <= pre.instances@.len());
            }
        }
        let ghost mid = self.state();
        assert(mid.0 =~= old(self).state().0.push(
            (address@, code_hash@, code_id as nat, Map::<Seq<u8>, Seq<u8>>::empty()),
        ));
        let idx = self.instances.len() - 1;
        let env = self.create_env(idx);
        let info = MessageInfo::new(sender, funds);
        let ghost record = ProgramCall::Instantiate {
            contract: self.state().0[idx as int].0,
            sender: info.sender@,
            funds: info.funds@,
            balances: self.state().1,
        };
        self.calls = Ghost(self.calls@.push(record));
        let (result, writes) = self.call_instantiate(idx, env, info, msg);
        let (response, sent) = match self.settle_call(idx, address, result, &writes, fuel) {
            Ok(done) => done,
            Err(e) => {
                return Err(e);
            },
        };
        proof {
            assert(mid.1 == transfer_spec(old(self).state().1, sender@, address@, funds@)->Some_0);
            if response.messages@.len() == 0 {
                assert(store_written(
                    (
                        old(self).state().0.push(
                            (address@, code_hash@, code_id as nat, Map::<Seq<u8>, Seq<u8>>::empty()),
                        ),
                        transfer_spec(old(self).state().1, sender@, address@, funds@)->Some_0,
                        old(self).state().2,
                        old(self).state().3,
                    ),
                    old(self).state().0.len() as int,
                    writes_model(writes@),
                ) == self.state());
            }
        }
        Ok(
            InstantiateResponse {
                sender: sender.to_owned(),
                instance: ContractLink { address: address.to_owned(), code_hash: code_hash.to_owned() },
                msg: bytes_of(msg),
                response,
                sent,
            },
        )
    }
}


impl Context {
    /// Registers a contract program; returns its code id.
    pub(crate) fn register(&mut self, harness: Box<dyn ContractHarness>) -> (r: u64)
        requires
            old(self).wf(),
        ensures
            final(self).wf(),
            final(self).state() == old(self).state(),
            final(self).depth() == old(self).depth(),
            final(self).block() == old(self).block(),
            final(self).denom() == old(self).denom(),
            final(self).code_count() == old(self).code_count() + 1,
            r == old(self).code_count(),
    {
        let id = self.contracts.len() as u64;
        let ghost before = self.contracts@;
        self.contracts.push(harness);
        proof {
            vstd::seq::axiom_seq_push_len(before, harness);
        }
        assert(self.contracts@.len() == before.len() + 1);
        assert forall|j: int| 0 <= j < self.instances@.len() implies (#[trigger] self.instances@[j]).store.wf()
            && self.instances@[j].store.depth() == self.marks@.len()
            && self.instances@[j].index < self.contracts@.len() by {
            assert(self.instances@[j] == old(self).instances@[j]);
            assert(old(self).instances@[j].index < old(self).contracts@.len());
        }
        id
    }

    /// The block that calls see.
    pub(crate) fn block_ref(&self) -> (r: &Block)
        ensures
            *r == self.block(),
    {
        &self.block
    }

    /// The block, for an administrator to move.
    pub(crate) fn block_mut(&mut self) -> (r: &mut Block)
        requires
            old(self).wf(),
        ensures
            *r == old(self).block(),
            final(self).wf(),
            final(self).block() == *final(r),
            final(self).state() == old(self).state(),
            final(self).depth() == old(self).depth(),
            final(self).code_count() == old(self).code_count(),
            final(self).denom() == old(self).denom(),
    {
        &mut self.block
    }

    /// Moves to the next block.
    pub(crate) fn next_block(&mut self)
        requires
            old(self).wf(),
        ensures
            final(self).wf(),
            final(self).state() == old(self).state(),
            final(self).depth() == old(self).depth(),
            final(self).code_count() == old(self).code_count(),
            final(self).denom() == old(self).denom(),
            final(self).validators() == old(self).validators(),
            final(self).chain_id() == old(self).chain_id(),
            final(self).calls() == old(self).calls(),
            final(self).block() == block_after(old(self).block()),
    {
        self.block.next();
    }

    /// Sets the chain id that calls see.
    pub(crate) fn set_chain_id(&mut self, id: &str)
        requires
            old(self).wf(),
        ensures
            final(self).wf(),
            final(self).state() == old(self).state(),
            final(self).depth() == old(self).depth(),
            final(self).block() == old(self).block(),
            final(self).code_count() == old(self).code_count(),
            final(self).denom() == old(self).denom(),
            final(self).chain_id() == id@,
    {
        self.chain_id = id.to_owned();
    }

    /// Credits `coins` to `address`, outside any call.
    pub(crate) fn add_funds(&mut self, address: &str, coins: &Vec<Coin>) -> (r: Result<(), StdError>)
        requires
            old(self).wf(),
        ensures
            final(self).wf(),
            final(self).depth() == old(self).depth(),
            final(self).block() == old(self).block(),
            final(self).code_count() == old(self).code_count(),
            final(self).denom() == old(self).denom(),
            match credit(old(self).state().1, address@, coins@) {
                Some(m) => r is Ok && final(self).state() == (
                    old(self).state().0,
                    m,
                    old(self).state().2,
                    old(self).state().3,
                ),
                None => r is Err && r->Err_0 is Overflow && final(self).state() == old(self).state(),
            },
    {
        let r = self.bank.add_funds(address, coins);
        assert(self.state().0 =~= old(self).state().0);
        r
    }

    /// Debits `coins` from `address`, outside any call.
    pub(crate) fn remove_funds(&mut self, address: &str, coins: &Vec<Coin>) -> (r: Result<(), StdError>)
        requires
            old(self).wf(),
        ensures
            final(self).wf(),
            final(self).depth() == old(self).depth(),
            final(self).block() == old(self).block(),
            final(self).code_count() == old(self).code_count(),
            final(self).denom() == old(self).denom(),
            match debit(old(self).state().1, address@, coins@) {
                Some(m) => r is Ok && final(self).state() == (
                    old(self).state().0,
                    m,
                    old(self).state().2,
                    old(self).state().3,
                ),
                None => r is Err && r->Err_0 is InsufficientFunds && final(self).state() == old(
                    self
                ).state(),
            },
    {
        let r = self.bank.remove_funds(address, coins);
        assert(self.state().0 =~= old(self).state().0);
        r
    }

    pub(crate) fn balances(&self, address: &str) -> (r: Option<Vec<Coin>>)
        requires
            self.wf(),
        ensures
            r is None <==> forall|d: Seq<char>| !#[trigger] self.state().1.contains_key((address@, d)),
            r is Some ==> crate::bank::held_by(self.state().1, address@, r->Some_0@)
                && crate::bank::lists_all(self.state().1, address@, r->Some_0@),
    {
        let r = self.bank.balances_of(address);
        assert(self.state().1 == self.bank@);
        r
    }

    pub(crate) fn delegations_of(&self, address: &str) -> (r: Vec<Delegation>)
        requires
            self.wf(),
        ensures
            forall|i: int|
                #![trigger r@[i]]
                0 <= i < r@.len() ==> r@[i].delegator@ == address@ && self.state().2.contains_key(
                    (address@, r@[i].validator@),
                ) && r@[i].amount.amount == self.state().2[(address@, r@[i].validator@)].0
                    && r@[i].amount.denom@ == self.denom(),
            forall|v: Seq<char>| #[trigger]
                self.state().2.contains_key((address@, v)) ==> exists|i: int|
                    0 <= i < r@.len() && r@[i].validator@ == v,
    {
        self.delegations.all_delegations(address)
    }

    pub(crate) fn delegation(&self, delegator: &str, validator: &str) -> (r: Option<FullDelegation>)
        requires
            self.wf(),
        ensures
            r is Some <==> self.state().2.contains_key((delegator@, validator@)),
            r is Some ==> {
                let d = r->Some_0;
                let s = self.state().2[(delegator@, validator@)];
                &&& d.delegator@ == delegator@
                &&& d.validator@ == validator@
                &&& d.amount.amount == s.0 && d.amount.denom@ == self.denom()
                &&& d.accumulated_rewards.amount == s.1
                &&& d.can_redelegate.amount == if self.state().3.contains_key(
                    (delegator@, validator@),
                ) {
                    0
                } else {
                    s.0
                }
            },
    {
        self.delegations.delegation(delegator, validator)
    }

    pub(crate) fn add_validator(&mut self, validator: Validator)
        requires
            old(self).wf(),
        ensures
            final(self).wf(),
            final(self).state() == old(self).state(),
            final(self).depth() == old(self).depth(),
            final(self).block() == old(self).block(),
            final(self).code_count() == old(self).code_count(),
            final(self).denom() == old(self).denom(),
            forall|v: Seq<char>|
                final(self).validators().contains(v) <==> (old(self).validators().contains(v)
                    || v == validator.address@),
    {
        let ghost name = validator.address@;
        self.delegations.add_validator(validator);
        assert(self.state().0 =~= old(self).state().0);
        assert forall|v: Seq<char>|
            self.validators().contains(v) <==> (old(self).validators().contains(v) || v == name) by {
            assert(self.delegations.is_validator(v) == self.validators().contains(v));
            assert(old(self).delegations.is_validator(v) == old(self).validators().contains(v));
        }
    }

    pub(crate) fn add_rewards(&mut self, amount: u128)
        requires
            old(self).wf(),
        ensures
            final(self).wf(),
            final(self).state().0 == old(self).state().0,
            final(self).state().1 == old(self).state().1,
            final(self).state().3 == old(self).state().3,
            final(self).depth() == old(self).depth(),
            final(self).block() == old(self).block(),
            final(self).code_count() == old(self).code_count(),
            final(self).denom() == old(self).denom(),
            final(self).state().2.dom() == old(self).state().2.dom(),
            forall|k: BalanceKey| #[trigger]
                old(self).state().2.contains_key(k) ==> final(self).state().2[k].0 == old(
                    self
                ).state().2[k].0 && final(self).state().2[k].1 == if old(self).state().2[k].1
                    + amount <= u128::MAX {
                    (old(self).state().2[k].1 + amount) as u128
                } else {
                    u128::MAX
                },
    {
        self.delegations.distribute_rewards(amount);
        proof {
            Context::lemma_saved_same(self, old(self));
        }
        assert(self.state().0 =~= old(self).state().0);
    }

    /// Matures every pending undelegation and credits it back to its delegator, in the
    /// bonded denomination. Only outside a call. All or nothing: when a credit would
    /// overflow, it fails with `Overflow` and changes nothing.
    pub(crate) fn fast_forward_waits(&mut self) -> (r: Result<(), StdError>)
        requires
            old(self).wf(),
            old(self).depth() == 0,
        ensures
            final(self).wf(),
            final(self).depth() == 0,
            final(self).block() == old(self).block(),
            final(self).code_count() == old(self).code_count(),
            final(self).denom() == old(self).denom(),
            final(self).validators() == old(self).validators(),
            final(self).chain_id() == old(self).chain_id(),
            exists|list: Seq<Unbonding>|
                #[trigger] unbondings_of(old(self).state().3, list) && (forall|i: int|
                    0 <= i < list.len() ==> (#[trigger] list[i]).amount.denom@ == old(self).denom())
                    && match mature(old(self).state().1, list) {
                    Some(m) => r is Ok && final(self).state() == (
                        old(self).state().0,
                        m,
                        old(self).state().2,
                        Map::<BalanceKey, u128>::empty(),
                    ),
                    None => r == Err::<(), StdError>(StdError::Overflow) && final(self).state()
                        == old(self).state(),
                },
            old(self).state().3.dom() == Set::<BalanceKey>::empty() ==> r is Ok && final(
                self
            ).state() == old(self).state(),
    {
        self.checkpoint();
        let ghost opened = *self;
        let unbondings = self.delegations.fast_forward_waits();
        proof {
            Context::lemma_saved_same(self, &opened);
            if old(self).state().3.dom() == Set::<BalanceKey>::empty() && unbondings@.len() > 0 {
                let u = unbondings@[0];
                assert(old(self).state().3.contains_key((u.delegator@, u.validator@)));
                assert(old(self).state().3.dom().contains((u.delegator@, u.validator@)));
            }
        }
        let ghost start = self.bank@;
        let mut i: usize = 0;
        assert(unbondings@.subrange(0, 0) =~= Seq::<Unbonding>::empty());
        assert(unbondings_of(old(self).state().3, unbondings@));
        while i < unbondings.len()
            invariant
                self.wf(),
                self.depth() == 1,
                self.saved() == old(self).saved().push(old(self).state()),
                self.block() == old(self).block(),
                self.code_count() == old(self).code_count(),
                self.denom() == old(self).denom(),
                self.validators() == old(self).validators(),
                self.chain_id() == old(self).chain_id(),
                self.calls == old(self).calls,
                self.state().0 == old(self).state().0,
                self.state().2 == old(self).state().2,
                self.state().3 == Map::<BalanceKey, u128>::empty(),
                start == old(self).state().1,
                i <= unbondings@.len(),
                mature(start, unbondings@.subrange(0, i as int)) == Some(self.bank@),
                unbondings_of(old(self).state().3, unbondings@),
                forall|k: int|
                    0 <= k < unbondings@.len() ==> (#[trigger] unbondings@[k]).amount.denom@
                        == old(self).denom(),
                old(self).state().3.dom() == Set::<BalanceKey>::empty() ==> unbondings@.len() == 0,
            decreases unbondings@.len() - i,
        {
            let ghost before = *self;
            let u: &Unbonding = &unbondings[i];
            let coins = vec![u.amount.duplicate()];
            proof {
                assert(coins@ =~= seq![u.amount]);
                crate::bank::lemma_credit_single(self.bank@, u.delegator@, u.amount);
                assert(unbondings@.subrange(0, i + 1).drop_last() =~= unbondings@.subrange(
                    0,
                    i as int,
                ));
                assert(unbondings@.subrange(0, i + 1).last() == *u);
            }
            let added = self.bank.add_funds(u.delegator.as_str(), &coins);
            proof {
                Context::lemma_saved_same(self, &before);
                assert(self.state().0 =~= before.state().0);
            }
            if added.is_err() {
                proof {
                    lemma_mature_none_extends(start, unbondings@, i + 1);
                }
                self.revert();
                assert(old(self).saved().push(old(self).state()).last() == old(self).state());
                return Err(StdError::Overflow);
            }
            i = i + 1;
        }
        assert(unbondings@.subrange(0, i as int) =~= unbondings@);
        self.commit();
        proof {
            if old(self).state().3.dom() == Set::<BalanceKey>::empty() {
                assert(unbondings@ =~= Seq::<Unbonding>::empty());
                assert(old(self).state().3 =~= Map::<BalanceKey, u128>::empty());
            }
        }
        Ok(())
    }

    /// Whether an instance lives at `address`.
    pub(crate) fn has_instance(&self, address: &str) -> (r: bool)
        ensures
            r == exists|j: int| 0 <= j < self.state().0.len() && (#[trigger] self.state().0[j]).0 == address@,
    {
        match self.find_instance(address) {
            Some(i) => {
                assert(self.state().0[i as int].0 == address@);
                true
            },
            None => {
                assert forall|j: int| 0 <= j < self.state().0.len() implies (#[trigger] self.state().0[j]).0 != address@ by {
                    assert(self.instances@[j].address@ != address@);
                }
                false
            },
        }
    }
}


impl Context {
    /// A top-level execute: from `env.sender` to the contract at `env.contract.address`
    /// with `env.sent_funds`. On success the block advances; on failure nothing changes.
    pub(crate) fn execute_top(&mut self, msg: &[u8], env: &MockEnv) -> (r: Result<
        ExecuteResponse,
        StdError,
    >)
        requires
            old(self).wf(),
            old(self).depth() == 0,
        ensures
            final(self).wf(),
            final(self).depth() == 0,
            final(self).code_count() == old(self).code_count(),
            final(self).denom() == old(self).denom(),
            final(self).validators() == old(self).validators(),
            final(self).chain_id() == old(self).chain_id(),
            r is Err ==> final(self).state() == old(self).state() && final(self).block()
                == old(self).block(),
            r is Ok ==> final(self).block() == block_after(old(self).block()),
            (forall|j: int|
                0 <= j < old(self).state().0.len() ==> (#[trigger] old(self).state().0[j]).0
                    != env.contract.address@) ==> r is Err && r->Err_0 is ContractNotFound,
            transfer_spec(old(self).state().1, env.sender@, env.contract.address@, env.sent_funds@)
                is None ==> r is Err && (r->Err_0 is ContractNotFound || r->Err_0 is InsufficientFunds
                || r->Err_0 is Overflow),
            r is Ok ==> r->Ok_0.sender@ == env.sender@ && r->Ok_0.address@ == env.contract.address@
                && well_traced(ResponseVariants::Execute(r->Ok_0)),
            r is Ok && r->Ok_0.response.messages@.len() == 0 ==> executed_alone(
                old(self).state(),
                env.sender@,
                env.contract.address@,
                env.sent_funds@,
                final(self).state(),
            ),
            old(self).has(env.contract.address@) && transfer_spec(
                old(self).state().1,
                env.sender@,
                env.contract.address@,
                env.sent_funds@,
            ) is Some ==> final(self).calls().len() > old(self).calls().len() && final(self).calls()[old(
                self
            ).calls().len() as int] == (ProgramCall::Execute {
                contract: env.contract.address@,
                sender: env.sender@,
                funds: env.sent_funds@,
                balances: transfer_spec(
                    old(self).state().1,
                    env.sender@,
                    env.contract.address@,
                    env.sent_funds@,
                )->Some_0,
            }),
            !old(self).has(env.contract.address@) || transfer_spec(
                old(self).state().1,
                env.sender@,
                env.contract.address@,
                env.sent_funds@,
            ) is None ==> final(self).calls() == old(self).calls(),
    {
        let r = self.execute_contract(
            env.sender.as_str(),
            env.contract.address.as_str(),
            msg,
            &env.sent_funds,
            MAX_CALL_DEPTH,
        );
        if r.is_ok() {
            self.next_block();
        }
        r
    }

    /// A top-level instantiate of code `id` at `env.contract.address`. On success the
    /// block advances; on failure nothing changes.
    pub(crate) fn instantiate_top(&mut self, id: u64, msg: &[u8], env: &MockEnv) -> (r: Result<
        InstantiateResponse,
        StdError,
    >)
        requires
            old(self).wf(),
            old(self).depth() == 0,
        ensures
            final(self).wf(),
            final(self).depth() == 0,
            final(self).code_count() == old(self).code_count(),
            final(self).denom() == old(self).denom(),
            final(self).validators() == old(self).validators(),
            final(self).chain_id() == old(self).chain_id(),
            r is Err ==> final(self).state() == old(self).state() && final(self).block()
                == old(self).block(),
            r is Ok ==> final(self).block() == block_after(old(self).block()),
            id >= old(self).code_count() ==> r is Err && r->Err_0 is CodeNotFound,
            id < old(self).code_count() && (exists|j: int|
                0 <= j < old(self).state().0.len() && (#[trigger] old(self).state().0[j]).0
                    == env.contract.address@) ==> r is Err && r->Err_0 is AddressInUse,
            transfer_spec(old(self).state().1, env.sender@, env.contract.address@, env.sent_funds@)
                is None ==> r is Err && (r->Err_0 is CodeNotFound || r->Err_0 is AddressInUse
                || r->Err_0 is InsufficientFunds || r->Err_0 is Overflow),
            r is Ok ==> r->Ok_0.sender@ == env.sender@ && r->Ok_0.instance.address@
                == env.contract.address@ && r->Ok_0.instance.code_hash@ == env.contract.code_hash@
                && well_traced(ResponseVariants::Instantiate(r->Ok_0)),
            r is Ok ==> final(self).state().0.len() > old(self).state().0.len() && final(
                self
            ).state().0[old(self).state().0.len() as int].0 == env.contract.address@ && final(
                self
            ).state().0[old(self).state().0.len() as int].1 == env.contract.code_hash@ && final(
                self
            ).state().0[old(self).state().0.len() as int].2 == id as nat,
            r is Ok && r->Ok_0.response.messages@.len() == 0 ==> instantiated_alone(
                old(self).state(),
                env.sender@,
                env.contract.address@,
                env.contract.code_hash@,
                id as nat,
                env.sent_funds@,
                final(self).state(),
            ),
            id < old(self).code_count() && !old(self).has(env.contract.address@) && transfer_spec(
                old(self).state().1,
                env.sender@,
                env.contract.address@,
                env.sent_funds@,
            ) is Some ==> final(self).calls().len() > old(self).calls().len() && final(self).calls()[old(
                self
            ).calls().len() as int] == (ProgramCall::Instantiate {
                contract: env.contract.address@,
                sender: env.sender@,
                funds: env.sent_funds@,
                balances: transfer_spec(
                    old(self).state().1,
                    env.sender@,
                    env.contract.address@,
                    env.sent_funds@,
                )->Some_0,
            }),
            !(id < old(self).code_count() && !old(self).has(env.contract.address@) && transfer_spec(
                old(self).state().1,
                env.sender@,
                env.contract.address@,
                env.sent_funds@,
            ) is Some) ==> final(self).calls() == old(self).calls() && r is Err,
    {
        let r = self.instantiate_contract(
            env.sender.as_str(),
            id,
            env.contract.address.as_str(),
            env.contract.code_hash.as_str(),
            msg,
            &env.sent_funds,
            MAX_CALL_DEPTH,
        );
        if r.is_ok() {
            self.next_block();
        }
        r
    }

    /// Hands `borrow` read access to the instance at `address`.
    pub(crate) fn with_deps<F: FnOnce(&Deps)>(&self, address: &str, borrow: F) -> (r: Result<
        (),
        StdError,
    >)
        requires
            self.wf(),
            forall|d: &Deps| #[trigger] borrow.requires((d,)),
        ensures
            r is Ok == exists|j: int|
                0 <= j < self.state().0.len() && (#[trigger] self.state().0[j]).0 == address@,
            r is Ok ==> exists|j: int, d: &Deps|
                #![trigger self.state().0[j], borrow.ensures((d,), ())]
                0 <= j < self.state().0.len() && self.state().0[j].0 == address@ && d.storage@
                    == self.state().0[j].3 && d.storage.pending().len() == 0 && borrow.ensures(
                    (d,),
                    (),
                ),
    {
        match self.find_instance(address) {
            None => {
                assert forall|j: int| 0 <= j < self.state().0.len() implies (#[trigger] self.state().0[j]).0 != address@ by {
                    assert(self.instances@[j].address@ != address@);
                }
                Err(StdError::ContractNotFound { address: address.to_owned() })
            },
            Some(idx) => {
                let inst = &self.instances[idx];
                let deps = Deps { storage: Storage::new(&inst.store), querier: Querier::new(&self.bank) };
                borrow(&deps);
                assert(self.state().0[idx as int].0 == address@);
                assert(deps.storage@ == self.state().0[idx as int].3);
                Ok(())
            },
        }
    }

    /// Hands `mutate` write access to the instance at `address`, then stores what it
    /// wrote. Only outside a call.
    pub(crate) fn with_deps_mut<F: FnOnce(&mut Deps)>(&mut self, address: &str, mutate: F) -> (r: Result<
        (),
        StdError,
    >)
        requires
            old(self).wf(),
            old(self).depth() == 0,
            forall|d: &mut Deps| #[trigger] mutate.requires((d,)),
        ensures
            final(self).wf(),
            final(self).depth() == 0,
            final(self).code_count() == old(self).code_count(),
            final(self).denom() == old(self).denom(),
            final(self).block() == old(self).block(),
            final(self).state().1 == old(self).state().1,
            final(self).state().2 == old(self).state().2,
            final(self).state().3 == old(self).state().3,
            final(self).state().0.len() == old(self).state().0.len(),
            r is Ok == exists|j: int|
                0 <= j < old(self).state().0.len() && (#[trigger] old(self).state().0[j]).0 == address@,
            r is Err ==> final(self).state() == old(self).state(),
            r is Ok ==> written_at(old(self).state(), address@, final(self).state()),
            r is Ok ==> exists|j: int, d: &mut Deps|
                #![trigger old(self).state().0[j], mutate.ensures((d,), ())]
                0 <= j < old(self).state().0.len() && old(self).state().0[j].0 == address@
                    && (*d).storage@ == old(self).state().0[j].3 && (*d).storage.pending().len() == 0
                    && mutate.ensures((d,), ()) && final(self).state() == store_written(
                    old(self).state(),
                    j,
                    final(d).storage.pending(),
                ),
    {
        match self.find_instance(address) {
            None => {
                assert forall|j: int| 0 <= j < self.state().0.len() implies (#[trigger] self.state().0[j]).0 != address@ by {
                    assert(self.instances@[j].address@ != address@);
                }
                Err(StdError::ContractNotFound { address: address.to_owned() })
            },
            Some(idx) => {
                let writes = {
                    let inst = &self.instances[idx];
                    let mut deps = Deps { storage: Storage::new(&inst.store), querier: Querier::new(&self.bank) };
                    let handle = &mut deps;
                    assert((*handle).storage@ == old(self).state().0[idx as int].3);
                    mutate(handle);
                    deps.storage.into_writes()
                };
                assert(old(self).state().0[idx as int].0 == address@);
                self.apply_writes(idx, &writes);
                assert(self.state().0.len() == old(self).state().0.len());
                proof {
                    let o = old(self).state();
                    assert(self.state().0 =~= o.0.update(
                        idx as int,
                        (o.0[idx as int].0, o.0[idx as int].1, o.0[idx as int].2, apply_writes(
                            o.0[idx as int].3,
                            writes_model(writes@),
                        )),
                    ));
                    assert(self.state() == store_written(o, idx as int, writes_model(writes@)));
                }
                Ok(())
            },
        }
    }
}

} // verus!
