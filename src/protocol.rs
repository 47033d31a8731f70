//! The reply protocol: what follows the dispatch of a sub-message, and the shape of
//! the trace that a list of sub-messages leaves.
use vstd::prelude::*;
use crate::bank::{credit_denom, debit, transfer_spec};
use crate::context::StateModel;
use crate::response::{flatten, ResponseVariants};
use crate::staking::{pending, rewards, staked};
use crate::types::{
    replies_on_error, replies_on_success, BankMsg, CosmosMsg, ReplyOn, StakingMsg, StdError,
    SubMsg, WasmMsg,
};

verus! {

/// What the engine does once the dispatch of a sub-message has ended.
#[derive(Debug, Clone, Copy, PartialEq, Eq, Structural)]
pub enum Step {
    /// Keep its effects and go on with the next sub-message.
    Continue,
    /// Keep its effects and call the sender's reply with the success.
    ReplySuccess,
    /// Its effects are gone; call the sender's reply with the error.
    ReplyError,
    /// Its effects are gone; the whole enclosing scope fails with its error.
    Fail,
}

/// The step that a reply policy calls for after a dispatch that succeeded or failed.
pub open spec fn step_spec(reply_on: ReplyOn, succeeded: bool) -> Step {
    if succeeded {
        if replies_on_success(reply_on) {
            Step::ReplySuccess
        } else {
            Step::Continue
        }
    } else {
        if replies_on_error(reply_on) {
            Step::ReplyError
        } else {
            Step::Fail
        }
    }
}

/// The step that `reply_on` calls for after a dispatch that succeeded or failed.
pub fn next_step(reply_on: ReplyOn, succeeded: bool) -> (r: Step)
    ensures
        r == step_spec(reply_on, succeeded),
{
    match (reply_on, succeeded) {
        (ReplyOn::Success, true) | (ReplyOn::Always, true) => Step::ReplySuccess,
        (_, true) => Step::Continue,
        (ReplyOn::Error, false) | (ReplyOn::Always, false) => Step::ReplyError,
        (_, false) => Step::Fail,
    }
}

/// Who receives the rewards that `sender` withdraws.
pub open spec fn payee(sender: Seq<char>, recipient: Option<String>) -> Seq<char> {
    match recipient {
        Some(r) => r@,
        None => sender,
    }
}

/// Whether a delegation message of `sender` goes through on the state `before`, where
/// the ledger bonds `denom` and knows `validators`.
pub open spec fn staking_succeeds(
    msg: StakingMsg,
    sender: Seq<char>,
    before: StateModel,
    denom: Seq<char>,
    validators: Seq<Seq<char>>,
) -> bool {
    match msg {
        StakingMsg::Delegate { validator, amount } => {
            &&& debit(before.1, sender, seq![amount]) is Some
            &&& validators.contains(validator@)
            &&& amount.denom@ == denom
            &&& staked(before.2, sender, validator@) + amount.amount <= u128::MAX
        },
        StakingMsg::Undelegate { validator, amount } => {
            &&& validators.contains(validator@)
            &&& amount.denom@ == denom
            &&& before.2.contains_key((sender, validator@))
            &&& amount.amount <= staked(before.2, sender, validator@)
            &&& pending(before.3, sender, validator@) + amount.amount <= u128::MAX
        },
        StakingMsg::Redelegate { src_validator, dst_validator, amount } => {
            &&& validators.contains(src_validator@)
            &&& validators.contains(dst_validator@)
            &&& amount.denom@ == denom
            &&& before.2.contains_key((sender, src_validator@))
            &&& !before.3.contains_key((sender, src_validator@))
            &&& amount.amount <= staked(before.2, sender, src_validator@)
            &&& src_validator@ != dst_validator@ ==> staked(before.2, sender, dst_validator@)
                + amount.amount <= u128::MAX
        },
        StakingMsg::Withdraw { validator, recipient } => {
            &&& before.2.contains_key((sender, validator@))
            &&& credit_denom(
                before.1,
                payee(sender, recipient),
                denom,
                rewards(before.2, sender, validator@),
            ) is Some
        },
    }
}

/// The state after a delegation message of `sender` that went through on `before`.
pub open spec fn staking_after(
    msg: StakingMsg,
    sender: Seq<char>,
    before: StateModel,
    denom: Seq<char>,
) -> StateModel {
    match msg {
        StakingMsg::Delegate { validator, amount } => (
            before.0,
            debit(before.1, sender, seq![amount])->Some_0,
            before.2.insert(
                (sender, validator@),
                (
                    (staked(before.2, sender, validator@) + amount.amount) as u128,
                    rewards(before.2, sender, validator@),
                ),
            ),
            before.3,
        ),
        StakingMsg::Undelegate { validator, amount } => (
            before.0,
            before.1,
            before.2.insert(
                (sender, validator@),
                (
                    (staked(before.2, sender, validator@) - amount.amount) as u128,
                    rewards(before.2, sender, validator@),
                ),
            ),
            before.3.insert(
                (sender, validator@),
                (pending(before.3, sender, validator@) + amount.amount) as u128,
            ),
        ),
        StakingMsg::Redelegate { src_validator, dst_validator, amount } => if src_validator@
            == dst_validator@ {
            before
        } else {
            (
                before.0,
                before.1,
                before.2.insert(
                    (sender, src_validator@),
                    (
                        (staked(before.2, sender, src_validator@) - amount.amount) as u128,
                        rewards(before.2, sender, src_validator@),
                    ),
                ).insert(
                    (sender, dst_validator@),
                    (
                        (staked(before.2, sender, dst_validator@) + amount.amount) as u128,
                        rewards(before.2, sender, dst_validator@),
                    ),
                ),
                before.3,
            )
        },
        StakingMsg::Withdraw { validator, recipient } => (
            before.0,
            credit_denom(
                before.1,
                payee(sender, recipient),
                denom,
                rewards(before.2, sender, validator@),
            )->Some_0,
            before.2.insert((sender, validator@), (staked(before.2, sender, validator@), 0)),
            before.3,
        ),
    }
}

/// What carrying out a ledger or delegation message of `sender` does, from `before` to
/// `after` with result `r`: a transfer goes through exactly when the sender holds the
/// coins and no balance of the receiver overflows, and moves them; a delegation message
/// goes through exactly when `staking_succeeds`, and leaves `staking_after`. Contract
/// calls are left to the contracts' own programs.
pub open spec fn dispatch_effect(
    msg: CosmosMsg,
    sender: Seq<char>,
    before: StateModel,
    after: StateModel,
    denom: Seq<char>,
    validators: Seq<Seq<char>>,
    r: Result<ResponseVariants, StdError>,
) -> bool {
    match msg {
        CosmosMsg::Bank(BankMsg::Send { to_address, amount }) => match transfer_spec(
            before.1,
            sender,
            to_address@,
            amount@,
        ) {
            Some(m) => r is Ok && after == (before.0, m, before.2, before.3) && r->Ok_0 is Bank
                && r->Ok_0->Bank_0.coins@ == amount@,
            None => r is Err && (r->Err_0 is InsufficientFunds || r->Err_0 is Overflow),
        },
        CosmosMsg::Staking(m) => (r is Ok <==> staking_succeeds(m, sender, before, denom, validators))
            && (r is Ok ==> after == staking_after(m, sender, before, denom)),
        CosmosMsg::Wasm(_) => true,
    }
}


/// `e` and every entry below it hold the trace that their own sub-messages leave: an
/// executed or instantiated contract's entries follow the messages of its response, a
/// reply's entries follow the messages that the reply returned.
pub open spec fn well_traced(e: ResponseVariants) -> bool
    decreases e,
{
    match e {
        ResponseVariants::Execute(x) => {
            proof {
                assert(decreases_to!(x.sent => x.sent@));
            }
            follows(x.response.messages@, x.address@, x.sent@) && all_well_traced(x.sent@)
        },
        ResponseVariants::Instantiate(x) => {
            proof {
                assert(decreases_to!(x.sent => x.sent@));
            }
            follows(x.response.messages@, x.instance.address@, x.sent@) && all_well_traced(
                x.sent@,
            )
        },
        ResponseVariants::Reply(x) => {
            proof {
                assert(decreases_to!(x.sent => x.sent@));
            }
            follows(x.response.messages@, x.address@, x.sent@) && all_well_traced(x.sent@)
        },
        _ => true,
    }
}

/// Every entry of `s` is `well_traced`.
pub open spec fn all_well_traced(s: Seq<ResponseVariants>) -> bool
    decreases s,
{
    if s.len() == 0 {
        true
    } else {
        proof {
            assert(decreases_to!(s => s[s.len() - 1]));
            assert(s.drop_last() =~= s.subrange(0, s.len() - 1));
        }
        all_well_traced(s.drop_last()) && well_traced(s[s.len() - 1])
    }
}

/// Appending a well-traced entry keeps a trace well traced.
pub proof fn lemma_all_well_traced_push(s: Seq<ResponseVariants>, e: ResponseVariants)
    requires
        all_well_traced(s),
        well_traced(e),
    ensures
        all_well_traced(s.push(e)),
{
    assert(s.push(e).drop_last() =~= s);
}

/// Every sub-message of `subs` is a ledger or delegation message that is never
/// replied to: running the list calls no contract program.
pub open spec fn plain(subs: Seq<SubMsg>) -> bool {
    forall|i: int|
        0 <= i < subs.len() ==> (#[trigger] subs[i]).reply_on == ReplyOn::Never && !(
        subs[i].msg is Wasm)
}

/// The state after carrying out one ledger or delegation message of `sender` on `s`;
/// `None` when it fails.
pub open spec fn plain_step(
    msg: CosmosMsg,
    sender: Seq<char>,
    s: StateModel,
    denom: Seq<char>,
    validators: Seq<Seq<char>>,
) -> Option<StateModel> {
    match msg {
        CosmosMsg::Bank(BankMsg::Send { to_address, amount }) => match transfer_spec(
            s.1,
            sender,
            to_address@,
            amount@,
        ) {
            Some(m) => Some((s.0, m, s.2, s.3)),
            None => None,
        },
        CosmosMsg::Staking(m) => if staking_succeeds(m, sender, s, denom, validators) {
            Some(staking_after(m, sender, s, denom))
        } else {
            None
        },
        CosmosMsg::Wasm(_) => None,
    }
}

/// The state after carrying out the messages of `subs` in order; `None` once one fails.
pub open spec fn plain_run(
    subs: Seq<SubMsg>,
    sender: Seq<char>,
    s: StateModel,
    denom: Seq<char>,
    validators: Seq<Seq<char>>,
) -> Option<StateModel>
    decreases subs.len(),
{
    if subs.len() == 0 {
        Some(s)
    } else {
        match plain_run(subs.drop_last(), sender, s, denom, validators) {
            Some(s2) => plain_step(subs.last().msg, sender, s2, denom, validators),
            None => None,
        }
    }
}

/// Once a prefix of `subs` fails, all of `subs` fails.
pub proof fn lemma_plain_run_none_extends(
    subs: Seq<SubMsg>,
    sender: Seq<char>,
    s: StateModel,
    denom: Seq<char>,
    validators: Seq<Seq<char>>,
    n: int,
)
    requires
        0 < n <= subs.len(),
        plain_run(subs.subrange(0, n), sender, s, denom, validators) is None,
    ensures
        plain_run(subs, sender, s, denom, validators) is None,
    decreases subs.len() - n,
{
    if n < subs.len() {
        assert(subs.subrange(0, n + 1).drop_last() =~= subs.subrange(0, n));
        lemma_plain_run_none_extends(subs, sender, s, denom, validators, n + 1);
    } else {
        assert(subs.subrange(0, n) =~= subs);
    }
}

/// `e` is what carrying out `msg` for `sender` reports: an entry of the message's kind,
/// naming the sender and the target.
pub open spec fn entry_matches(msg: CosmosMsg, sender: Seq<char>, e: ResponseVariants) -> bool {
    match msg {
        CosmosMsg::Wasm(WasmMsg::Execute { contract_addr, .. }) => e is Execute
            && e->Execute_0.sender@ == sender && e->Execute_0.address@ == contract_addr@,
        CosmosMsg::Wasm(WasmMsg::Instantiate { label, .. }) => e is Instantiate
            && e->Instantiate_0.sender@ == sender && e->Instantiate_0.instance.address@ == label@,
        CosmosMsg::Bank(BankMsg::Send { to_address, .. }) => e is Bank && e->Bank_0.sender@
            == sender && e->Bank_0.receiver@ == to_address@,
        CosmosMsg::Staking(_) => e is Staking,
    }
}

/// `e` is a reply of `caller` for the sub-message `id`, reporting success or failure.
pub open spec fn is_reply_to(e: ResponseVariants, caller: Seq<char>, id: u64, ok: bool) -> bool {
    &&& e is Reply
    &&& e->Reply_0.address@ == caller
    &&& e->Reply_0.reply.id == id
    &&& (e->Reply_0.reply.result is Success) == ok
}

/// A sub-message that left one entry: it succeeded without a reply owed, or it failed
/// and its reply ran.
pub open spec fn one_entry(s: SubMsg, caller: Seq<char>, e: ResponseVariants) -> bool {
    ||| entry_matches(s.msg, caller, e) && step_spec(s.reply_on, true) == Step::Continue
    ||| step_spec(s.reply_on, false) == Step::ReplyError && is_reply_to(e, caller, s.id, false)
}

/// A sub-message that left two entries: it succeeded, then its reply ran.
pub open spec fn two_entries(
    s: SubMsg,
    caller: Seq<char>,
    e1: ResponseVariants,
    e2: ResponseVariants,
) -> bool {
    &&& entry_matches(s.msg, caller, e1)
    &&& step_spec(s.reply_on, true) == Step::ReplySuccess
    &&& is_reply_to(e2, caller, s.id, true)
}

/// `sent` is the trace that `caller`'s sub-messages `subs` leave when they all come
/// through: for each in order, its own entry, then the entry of its reply when one is
/// owed; or, for one that failed with a reply owed, the entry of that reply alone.
pub open spec fn follows(subs: Seq<SubMsg>, caller: Seq<char>, sent: Seq<ResponseVariants>) -> bool
    decreases subs.len(),
{
    if subs.len() == 0 {
        sent.len() == 0
    } else {
        let s = subs.last();
        let n = sent.len();
        ||| n >= 1 && one_entry(s, caller, sent[n - 1]) && follows(
            subs.drop_last(),
            caller,
            sent.drop_last(),
        )
        ||| n >= 2 && two_entries(s, caller, sent[n - 2], sent[n - 1]) && follows(
            subs.drop_last(),
            caller,
            sent.subrange(0, n - 2),
        )
    }
}


/// A completed list of sub-messages leaves at least one and at most two entries per
/// sub-message: the trace is empty exactly when there was no sub-message.
pub proof fn lemma_trace_length(subs: Seq<SubMsg>, caller: Seq<char>, sent: Seq<ResponseVariants>)
    requires
        follows(subs, caller, sent),
    ensures
        subs.len() <= sent.len() <= 2 * subs.len(),
        sent.len() == 0 <==> subs.len() == 0,
    decreases subs.len(),
{
    if subs.len() > 0 {
        let n = sent.len();
        if n >= 1 && one_entry(subs.last(), caller, sent[n - 1]) && follows(
            subs.drop_last(),
            caller,
            sent.drop_last(),
        ) {
            lemma_trace_length(subs.drop_last(), caller, sent.drop_last());
        } else {
            lemma_trace_length(subs.drop_last(), caller, sent.subrange(0, n - 2));
        }
    }
}

/// In a completed list, sub-message `i` owns the entries from some position `k` on:
/// the entries before `k` are the trace of the sub-messages before it, and at `k` stands
/// its own entry (and its reply's), or its error reply.
pub proof fn lemma_segment(subs: Seq<SubMsg>, caller: Seq<char>, sent: Seq<ResponseVariants>, i: int)
    requires
        follows(subs, caller, sent),
        0 <= i < subs.len(),
    ensures
        exists|k: int|
            0 <= k < sent.len() && follows(subs.subrange(0, i), caller, sent.subrange(0, k)) && (
            one_entry(subs[i], caller, sent[k]) || (k + 1 < sent.len() && two_entries(
                subs[i],
                caller,
                sent[k],
                sent[k + 1],
            ))),
    decreases subs.len(),
{
    let n = sent.len();
    let m = subs.len();
    let one = n >= 1 && one_entry(subs.last(), caller, sent[n - 1]) && follows(
        subs.drop_last(),
        caller,
        sent.drop_last(),
    );
    let rest = if one {
        sent.drop_last()
    } else {
        sent.subrange(0, n - 2)
    };
    assert(follows(subs.drop_last(), caller, rest));
    if i == m - 1 {
        assert(subs.drop_last() =~= subs.subrange(0, i));
        if one {
            assert(sent.drop_last() =~= sent.subrange(0, n - 1));
            assert(follows(subs.subrange(0, i), caller, sent.subrange(0, n - 1)));
        } else {
            assert(follows(subs.subrange(0, i), caller, sent.subrange(0, n - 2)));
            assert(two_entries(subs[i], caller, sent[n - 2], sent[n - 1]));
        }
    } else {
        lemma_segment(subs.drop_last(), caller, rest, i);
        let k = choose|k: int|
            0 <= k < rest.len() && follows(
                subs.drop_last().subrange(0, i),
                caller,
                rest.subrange(0, k),
            ) && (one_entry(subs.drop_last()[i], caller, rest[k]) || (k + 1 < rest.len()
                && two_entries(subs.drop_last()[i], caller, rest[k], rest[k + 1])));
        assert(subs.drop_last().subrange(0, i) =~= subs.subrange(0, i));
        assert(rest.subrange(0, k) =~= sent.subrange(0, k));
        assert(subs.drop_last()[i] == subs[i]);
        assert(rest[k] == sent[k]);
        if k + 1 < rest.len() {
            assert(rest[k + 1] == sent[k + 1]);
        }
    }
}

/// In a completed list, a sub-message that is never replied to stands as the entry of
/// its own dispatch, of its kind and target: the trace holds no error reply for it, and
/// its failure would have been the step `Fail`. That such a failure makes the list fail
/// with the dispatch's error is what `settle_submessage` in the engine promises.
pub proof fn lemma_never_replied_entry(
    subs: Seq<SubMsg>,
    caller: Seq<char>,
    sent: Seq<ResponseVariants>,
    i: int,
)
    requires
        follows(subs, caller, sent),
        0 <= i < subs.len(),
        subs[i].reply_on == ReplyOn::Never,
    ensures
        step_spec(subs[i].reply_on, false) == Step::Fail,
        exists|k: int|
            0 <= k < sent.len() && follows(subs.subrange(0, i), caller, sent.subrange(0, k))
                && entry_matches(subs[i].msg, caller, sent[k]),
{
    lemma_segment(subs, caller, sent, i);
}

/// In a completed list, a sub-message replied to on error stands either as the entry of
/// its own dispatch, or as an error reply of its sender for it with no entry of its own
/// dispatch; its failure is the step `ReplyError`. That the failed dispatch's effects are
/// gone when the reply runs is what the engine's dispatch promises.
pub proof fn lemma_error_replied_entry(
    subs: Seq<SubMsg>,
    caller: Seq<char>,
    sent: Seq<ResponseVariants>,
    i: int,
)
    requires
        follows(subs, caller, sent),
        0 <= i < subs.len(),
        replies_on_error(subs[i].reply_on),
    ensures
        step_spec(subs[i].reply_on, false) == Step::ReplyError,
        exists|k: int|
            0 <= k < sent.len() && follows(subs.subrange(0, i), caller, sent.subrange(0, k)) && (
            entry_matches(subs[i].msg, caller, sent[k]) || is_reply_to(
                sent[k],
                caller,
                subs[i].id,
                false,
            )),
{
    lemma_segment(subs, caller, sent, i);
}


/// The trace that a call emits, flattened in pre-order, is empty exactly when the call
/// returned no sub-message; otherwise it starts with the first sub-message's entry.
pub proof fn lemma_emitted_trace_empty(subs: Seq<SubMsg>, caller: Seq<char>, sent: Seq<ResponseVariants>)
    requires
        follows(subs, caller, sent),
    ensures
        flatten(sent).len() == 0 <==> subs.len() == 0,
        sent.len() > 0 ==> flatten(sent)[0] == sent[0],
{
    lemma_trace_length(subs, caller, sent);
    if sent.len() > 0 {
        assert(flatten(sent) == seq![sent[0]] + flatten(crate::response::children(sent[0])) + flatten(
            sent.subrange(1, sent.len() as int),
        ));
        assert((seq![sent[0]] + flatten(crate::response::children(sent[0])))[0] == sent[0]);
    }
}

} // verus!
