use fadroma::bin_serde::{Deserializer, Serializer};
use fadroma::ensemble::ContractEnsemble;
use fadroma::response::ResponseVariants;
use fadroma::staking::Validator;
use fadroma::storage::{ContractHarness, Deps};
use fadroma::types::{
    coin, BankMsg, CosmosMsg, Env, MessageInfo, MockEnv, Reply, Response, StakingMsg, StdError,
    SubMsg, WasmMsg,
};

/// Carries out the messages that its payload lists: each is a kind byte and its fields.
struct Relay;

fn put_str(ser: &mut Serializer, s: &str) {
    ser.write_byte(s.len() as u8);
    ser.write(s.as_bytes());
}

fn get_str(de: &mut Deserializer) -> String {
    let n = de.read_byte().unwrap() as usize;
    String::from_utf8(de.read(n).unwrap().to_vec()).unwrap()
}

fn get_amount(de: &mut Deserializer) -> u128 {
    u128::from_le_bytes(de.read(16).unwrap().try_into().unwrap())
}

enum Op<'a> {
    Delegate(&'a str, u128),
    Undelegate(&'a str, u128),
    Redelegate(&'a str, &'a str, u128),
    Withdraw(&'a str, Option<&'a str>),
    Send(&'a str, u128),
    Write(&'a str, &'a str),
    Fail,
    Call(&'a str, Vec<u8>, ReplyPolicy),
    Instantiate(u64, &'a str),
    RecordChainId,
}

#[derive(Clone, Copy)]
enum ReplyPolicy {
    Never,
    Always,
}

fn payload(ops: &[Op]) -> Vec<u8> {
    let mut ser = Serializer::new();
    for op in ops {
        match op {
            Op::Delegate(v, a) => {
                ser.write_byte(1);
                put_str(&mut ser, v);
                ser.write(&a.to_le_bytes());
            }
            Op::Undelegate(v, a) => {
                ser.write_byte(2);
                put_str(&mut ser, v);
                ser.write(&a.to_le_bytes());
            }
            Op::Redelegate(s, d, a) => {
                ser.write_byte(3);
                put_str(&mut ser, s);
                put_str(&mut ser, d);
                ser.write(&a.to_le_bytes());
            }
            Op::Withdraw(v, r) => {
                ser.write_byte(4);
                put_str(&mut ser, v);
                put_str(&mut ser, r.unwrap_or(""));
            }
            Op::Send(to, a) => {
                ser.write_byte(5);
                put_str(&mut ser, to);
                ser.write(&a.to_le_bytes());
            }
            Op::Write(k, v) => {
                ser.write_byte(6);
                put_str(&mut ser, k);
                put_str(&mut ser, v);
            }
            Op::Fail => ser.write_byte(7),
            Op::Call(to, msg, policy) => {
                ser.write_byte(8);
                put_str(&mut ser, to);
                ser.write(&(msg.len() as u32).to_le_bytes());
                ser.write(msg);
                ser.write_byte(match policy {
                    ReplyPolicy::Never => 0,
                    ReplyPolicy::Always => 1,
                });
            }
            Op::Instantiate(code, label) => {
                ser.write_byte(9);
                ser.write(&code.to_le_bytes());
                put_str(&mut ser, label);
            }
            Op::RecordChainId => ser.write_byte(10),
        }
    }
    ser.finish()
}

impl ContractHarness for Relay {
    fn instantiate(&self, deps: &mut Deps, env: Env, info: MessageInfo, msg: &[u8]) -> Result<Response, StdError> {
        self.execute(deps, env, info, msg)
    }

    fn execute(&self, deps: &mut Deps, env: Env, _info: MessageInfo, msg: &[u8]) -> Result<Response, StdError> {
        let mut de = Deserializer::from(msg);
        let mut resp = Response::new();
        while !de.is_finished() {
            let m = match de.read_byte().unwrap() {
                1 => {
                    let validator = get_str(&mut de);
                    CosmosMsg::Staking(StakingMsg::Delegate { validator, amount: coin(get_amount(&mut de), "uscrt") })
                }
                2 => {
                    let validator = get_str(&mut de);
                    CosmosMsg::Staking(StakingMsg::Undelegate { validator, amount: coin(get_amount(&mut de), "uscrt") })
                }
                3 => {
                    let src_validator = get_str(&mut de);
                    let dst_validator = get_str(&mut de);
                    CosmosMsg::Staking(StakingMsg::Redelegate {
                        src_validator,
                        dst_validator,
                        amount: coin(get_amount(&mut de), "uscrt"),
                    })
                }
                4 => {
                    let validator = get_str(&mut de);
                    let r = get_str(&mut de);
                    CosmosMsg::Staking(StakingMsg::Withdraw { validator, recipient: if r.is_empty() { None } else { Some(r) } })
                }
                5 => {
                    let to_address = get_str(&mut de);
                    CosmosMsg::Bank(BankMsg::Send { to_address, amount: vec![coin(get_amount(&mut de), "uscrt")] })
                }
                6 => {
                    let k = get_str(&mut de);
                    let v = get_str(&mut de);
                    deps.storage.set(k.as_bytes(), v.as_bytes());
                    continue;
                }
                7 => return Err(StdError::generic_err("Fail")),
                10 => {
                    deps.storage.set(b"chain", env.block.chain_id.as_bytes());
                    continue;
                }
                8 => {
                    let contract_addr = get_str(&mut de);
                    let n = u32::from_le_bytes(de.read(4).unwrap().try_into().unwrap()) as usize;
                    let msg = de.read(n).unwrap().to_vec();
                    let call = CosmosMsg::Wasm(WasmMsg::Execute { contract_addr, code_hash: String::new(), msg, funds: vec![] });
                    resp = match de.read_byte().unwrap() {
                        0 => resp.add_submessage(SubMsg::new(call)),
                        _ => resp.add_submessage(SubMsg::reply_always(call, 7)),
                    };
                    continue;
                }
                _ => {
                    let code_id = u64::from_le_bytes(de.read(8).unwrap().try_into().unwrap());
                    let label = get_str(&mut de);
                    CosmosMsg::Wasm(WasmMsg::Instantiate { code_id, code_hash: String::new(), msg: vec![], funds: vec![], label })
                }
            };
            resp = resp.add_message(m);
        }
        Ok(resp)
    }

    fn query(&self, deps: &Deps, _env: Env, msg: &[u8]) -> Result<Vec<u8>, StdError> {
        Ok(deps.storage.get(msg).unwrap_or_default())
    }

    fn reply(&self, deps: &mut Deps, _env: Env, reply: Reply) -> Result<Response, StdError> {
        let text: &[u8] = if reply.result.is_ok() { b"ok" } else { b"err" };
        deps.storage.set(b"replied", text);
        Ok(Response::new())
    }
}

fn setup() -> ContractEnsemble {
    let mut e = ContractEnsemble::new_with_denom("uscrt");
    let code = e.register(Box::new(Relay));
    assert_eq!(code.id, 0);
    assert_eq!(code.code_hash, "test_contract_0");
    e.instantiate(code.id, &[], MockEnv::new("admin", "relay")).unwrap();
    e.instantiate(code.id, &[], MockEnv::new("admin", "other")).unwrap();
    e.add_validator(Validator { address: "val1".to_string() });
    e.add_validator(Validator { address: "val2".to_string() });
    e
}

fn run(e: &mut ContractEnsemble, ops: &[Op]) -> Result<fadroma::response::ExecuteResponse, StdError> {
    e.execute(&payload(ops), MockEnv::new("admin", "relay"))
}

fn balance(e: &ContractEnsemble, address: &str) -> u128 {
    match e.balances(address) {
        Some(coins) => coins.iter().filter(|c| c.denom == "uscrt").map(|c| c.amount).sum(),
        None => 0,
    }
}

fn stored(e: &ContractEnsemble, address: &str, key: &str) -> Vec<u8> {
    e.query(address, key.as_bytes()).unwrap()
}

#[test]
fn register_numbers_codes_in_order() {
    let mut e = ContractEnsemble::new(54);
    assert_eq!(e.register(Box::new(Relay)).code_hash, "test_contract_0");
    let second = e.register(Box::new(Relay));
    assert_eq!(second.id, 1);
    assert_eq!(second.code_hash, "test_contract_1");
}

#[test]
fn instantiate_errors() {
    let mut e = setup();
    let err = e.instantiate(5, &[], MockEnv::new("admin", "x")).unwrap_err();
    assert!(matches!(err, StdError::CodeNotFound { id: 5 }));
    let err = e.instantiate(0, &[], MockEnv::new("admin", "relay")).unwrap_err();
    assert!(matches!(err, StdError::AddressInUse { .. }));
    assert_eq!(err.to_string(), "Address already instantiated: relay");
}

#[test]
fn failed_instantiate_leaves_no_instance() {
    let mut e = setup();
    let err = e.instantiate(0, &payload(&[Op::Write("k", "v"), Op::Fail]), MockEnv::new("admin", "gone")).unwrap_err();
    assert_eq!(err.to_string(), "Generic error: Fail");
    assert!(matches!(e.query("gone", b"k"), Err(StdError::ContractNotFound { .. })));
    e.instantiate(0, &payload(&[Op::Write("k", "v")]), MockEnv::new("admin", "gone")).unwrap();
    assert_eq!(stored(&e, "gone", "k"), b"v".to_vec());
}

#[test]
fn query_of_unknown_address_fails() {
    let e = setup();
    let err = e.query("nobody", &[]).unwrap_err();
    assert_eq!(err.to_string(), "Contract not found: nobody");
}

#[test]
fn execute_of_unknown_address_fails() {
    let mut e = setup();
    let err = e.execute(&[], MockEnv::new("admin", "nobody")).unwrap_err();
    assert!(matches!(err, StdError::ContractNotFound { .. }));
}

#[test]
fn block_advances_only_on_success() {
    let mut e = setup();
    let before = e.block().height;
    run(&mut e, &[Op::Write("a", "b")]).unwrap();
    assert_eq!(e.block().height, before + 1);
    run(&mut e, &[Op::Fail]).unwrap_err();
    assert_eq!(e.block().height, before + 1);
    e.block_mut().height = 100;
    assert_eq!(e.block().height, 100);
}

#[test]
fn failed_call_restores_every_store() {
    let mut e = setup();
    e.add_funds("relay", vec![coin(500, "uscrt")]).unwrap();
    run(&mut e, &[Op::Write("k", "old")]).unwrap();
    let err = run(&mut e, &[
        Op::Write("k", "new"),
        Op::Send("other", 200),
        Op::Delegate("val1", 100),
        Op::Instantiate(0, "fresh"),
        Op::Call("other", payload(&[Op::Write("k", "touched")]), ReplyPolicy::Never),
        Op::Send("other", 10_000),
    ])
    .unwrap_err();
    assert!(matches!(err, StdError::InsufficientFunds { .. }));
    assert_eq!(stored(&e, "relay", "k"), b"old".to_vec());
    assert_eq!(stored(&e, "other", "k"), Vec::<u8>::new());
    assert_eq!(balance(&e, "relay"), 500);
    assert_eq!(balance(&e, "other"), 0);
    assert!(e.delegation("relay", "val1").is_none());
    assert!(e.query("fresh", &[]).is_err());
}

#[test]
fn bank_messages_move_funds_and_report_them() {
    let mut e = setup();
    e.add_funds("relay", vec![coin(300, "uscrt")]).unwrap();
    let resp = run(&mut e, &[Op::Send("other", 120), Op::Send("other", 0)]).unwrap();
    let entries = resp.iter();
    assert_eq!(entries.len(), 2);
    if let ResponseVariants::Bank(b) = entries[0] {
        assert_eq!(b.sender, "relay");
        assert_eq!(b.receiver, "other");
        assert_eq!(b.coins, vec![coin(120, "uscrt")]);
    } else {
        panic!("expected a transfer");
    }
    assert_eq!(balance(&e, "relay"), 180);
    assert_eq!(balance(&e, "other"), 120);
}

#[test]
fn remove_funds_fails_on_short_balance() {
    let mut e = setup();
    e.add_funds("acct", vec![coin(10, "uscrt")]).unwrap();
    let err = e.remove_funds("acct", vec![coin(11, "uscrt")]).unwrap_err();
    assert!(matches!(err, StdError::InsufficientFunds { .. }));
    assert_eq!(balance(&e, "acct"), 10);
    e.remove_funds("acct", vec![coin(4, "uscrt")]).unwrap();
    assert_eq!(balance(&e, "acct"), 6);
}

#[test]
fn add_funds_overflow_changes_nothing() {
    let mut e = setup();
    e.add_funds("acct", vec![coin(u128::MAX, "uscrt")]).unwrap();
    let err = e.add_funds("acct", vec![coin(1, "uatom"), coin(1, "uscrt")]).unwrap_err();
    assert_eq!(err, StdError::Overflow);
    assert_eq!(balance(&e, "acct"), u128::MAX);
    let held = e.balances("acct").unwrap();
    assert_eq!(held, vec![coin(u128::MAX, "uscrt")]);
}

#[test]
fn balances_of_unknown_account_is_none() {
    let e = setup();
    assert!(e.balances("ghost").is_none());
}

#[test]
fn delegate_undelegate_and_fast_forward() {
    let mut e = setup();
    e.add_funds("relay", vec![coin(1000, "uscrt")]).unwrap();
    run(&mut e, &[Op::Delegate("val1", 400)]).unwrap();
    assert_eq!(balance(&e, "relay"), 600);
    let d = e.delegation("relay", "val1").unwrap();
    assert_eq!(d.amount, coin(400, "uscrt"));
    assert_eq!(d.can_redelegate, coin(400, "uscrt"));

    run(&mut e, &[Op::Undelegate("val1", 150)]).unwrap();
    let d = e.delegation("relay", "val1").unwrap();
    assert_eq!(d.amount.amount, 250);
    assert_eq!(d.can_redelegate.amount, 0);
    assert_eq!(balance(&e, "relay"), 600);

    let err = run(&mut e, &[Op::Redelegate("val1", "val2", 50)]).unwrap_err();
    assert_eq!(err, StdError::RedelegationLocked);

    e.fast_forward_delegation_waits().unwrap();
    assert_eq!(balance(&e, "relay"), 750);
    run(&mut e, &[Op::Redelegate("val1", "val2", 50)]).unwrap();
    assert_eq!(e.delegation("relay", "val1").unwrap().amount.amount, 200);
    assert_eq!(e.delegation("relay", "val2").unwrap().amount.amount, 50);
    assert_eq!(e.delegations("relay").len(), 2);
}

#[test]
fn fast_forward_without_pending_unbondings_changes_nothing() {
    let mut e = setup();
    e.add_funds("relay", vec![coin(100, "uscrt")]).unwrap();
    run(&mut e, &[Op::Delegate("val1", 40)]).unwrap();
    e.fast_forward_delegation_waits().unwrap();
    assert_eq!(balance(&e, "relay"), 60);
    assert_eq!(e.delegation("relay", "val1").unwrap().amount.amount, 40);
    e.fast_forward_delegation_waits().unwrap();
    assert_eq!(balance(&e, "relay"), 60);
}

#[test]
fn delegation_errors() {
    let mut e = setup();
    e.add_funds("relay", vec![coin(100, "uscrt")]).unwrap();
    let err = run(&mut e, &[Op::Delegate("nobody", 10)]).unwrap_err();
    assert!(matches!(err, StdError::ValidatorNotFound { .. }));
    assert_eq!(balance(&e, "relay"), 100);
    let err = run(&mut e, &[Op::Withdraw("val1", None)]).unwrap_err();
    assert_eq!(err, StdError::DelegationNotFound);
    let err = run(&mut e, &[Op::Undelegate("val1", 1)]).unwrap_err();
    assert_eq!(err, StdError::DelegationNotFound);
}

#[test]
fn rewards_are_paid_to_the_recipient() {
    let mut e = setup();
    e.add_funds("relay", vec![coin(100, "uscrt")]).unwrap();
    run(&mut e, &[Op::Delegate("val1", 100)]).unwrap();
    e.add_rewards(30);
    assert_eq!(e.delegation("relay", "val1").unwrap().accumulated_rewards.amount, 30);
    run(&mut e, &[Op::Withdraw("val1", Some("other"))]).unwrap();
    assert_eq!(balance(&e, "other"), 30);
    assert_eq!(e.delegation("relay", "val1").unwrap().accumulated_rewards.amount, 0);
    e.add_rewards(5);
    run(&mut e, &[Op::Withdraw("val1", None)]).unwrap();
    assert_eq!(balance(&e, "relay"), 5);
}

#[test]
fn reply_runs_on_the_state_before_a_failed_sub_message() {
    let mut e = setup();
    e.add_funds("relay", vec![coin(100, "uscrt")]).unwrap();
    let resp = run(&mut e, &[
        Op::Send("other", 30),
        Op::Call("other", payload(&[Op::Write("k", "lost"), Op::Fail]), ReplyPolicy::Always),
    ])
    .unwrap();
    let entries = resp.iter();
    assert_eq!(entries.len(), 2);
    assert!(entries[0].is_bank());
    assert!(entries[1].is_reply());
    assert_eq!(stored(&e, "relay", "replied"), b"err".to_vec());
    assert_eq!(stored(&e, "other", "k"), Vec::<u8>::new());
    assert_eq!(balance(&e, "other"), 30);
}

#[test]
fn never_policy_failure_discards_earlier_siblings() {
    let mut e = setup();
    e.add_funds("relay", vec![coin(100, "uscrt")]).unwrap();
    let err = run(&mut e, &[
        Op::Send("other", 30),
        Op::Call("other", payload(&[Op::Write("k", "v")]), ReplyPolicy::Never),
        Op::Call("other", payload(&[Op::Fail]), ReplyPolicy::Never),
    ])
    .unwrap_err();
    assert_eq!(err.to_string(), "Generic error: Fail");
    assert_eq!(balance(&e, "other"), 0);
    assert_eq!(stored(&e, "other", "k"), Vec::<u8>::new());
}

#[test]
fn instantiate_message_registers_a_new_instance() {
    let mut e = setup();
    let resp = run(&mut e, &[Op::Instantiate(0, "child")]).unwrap();
    let entries = resp.iter();
    assert_eq!(entries.len(), 1);
    assert!(entries[0].is_instantiate());
    if let ResponseVariants::Instantiate(i) = entries[0] {
        assert_eq!(i.instance.address, "child");
        assert_eq!(i.sender, "relay");
    }
    assert!(e.query("child", &[]).is_ok());
}

#[test]
fn deps_reads_and_deps_mut_writes() {
    let mut e = setup();
    e.deps_mut("relay", |deps| deps.storage.set(b"x", b"1")).unwrap();
    let mut seen = None;
    e.deps("relay", |deps| seen = deps.storage.get(b"x")).unwrap();
    assert_eq!(seen, Some(b"1".to_vec()));
    assert_eq!(e.deps("nobody", |_| {}).unwrap_err(), "Contract not found: nobody");
    assert_eq!(e.deps_mut("nobody", |_| {}).unwrap_err(), "Contract not found: nobody");
}

#[test]
fn self_calling_contract_stops_at_the_depth_limit() {
    let mut e = setup();
    let mut msg = payload(&[Op::Write("k", "v")]);
    for _ in 0..80 {
        msg = payload(&[Op::Call("relay", msg, ReplyPolicy::Never)]);
    }
    let err = e.execute(&msg, MockEnv::new("admin", "relay")).unwrap_err();
    assert_eq!(err, StdError::CallDepthExceeded);
    assert_eq!(stored(&e, "relay", "k"), Vec::<u8>::new());
}

#[test]
fn set_chain_id_is_seen_by_contracts() {
    let mut e = setup();
    run(&mut e, &[Op::RecordChainId]).unwrap();
    assert_eq!(stored(&e, "relay", "chain"), b"fadroma-ensemble-testnet".to_vec());
    e.set_chain_id("testnet-2");
    run(&mut e, &[Op::RecordChainId]).unwrap();
    assert_eq!(stored(&e, "relay", "chain"), b"testnet-2".to_vec());
}

#[test]
fn fast_forward_overflow_changes_nothing() {
    let mut e = setup();
    e.add_funds("relay", vec![coin(100, "uscrt")]).unwrap();
    run(&mut e, &[Op::Delegate("val1", 100)]).unwrap();
    run(&mut e, &[Op::Undelegate("val1", 60)]).unwrap();
    e.add_funds("relay", vec![coin(u128::MAX, "uscrt")]).unwrap();
    assert_eq!(e.fast_forward_delegation_waits().unwrap_err(), StdError::Overflow);
    assert_eq!(balance(&e, "relay"), u128::MAX);
    assert_eq!(e.delegation("relay", "val1").unwrap().can_redelegate.amount, 0);
}

#[test]
fn balances_lists_every_denomination() {
    let mut e = setup();
    e.add_funds("acct", vec![coin(3, "uatom"), coin(5, "uscrt")]).unwrap();
    let mut held = e.balances("acct").unwrap();
    held.sort_by(|a, b| a.denom.cmp(&b.denom));
    assert_eq!(held, vec![coin(3, "uatom"), coin(5, "uscrt")]);
}

#[test]
fn instantiate_reports_the_code_hash_and_moves_funds() {
    let mut e = setup();
    e.add_funds("admin", vec![coin(50, "uscrt")]).unwrap();
    let env = MockEnv::new("admin", "funded").sent_funds(vec![coin(20, "uscrt")]);
    let resp = e.instantiate(0, &[], env).unwrap();
    assert_eq!(resp.instance.address, "funded");
    assert_eq!(resp.instance.code_hash, "");
    assert_eq!(balance(&e, "admin"), 30);
    assert_eq!(balance(&e, "funded"), 20);
    let env = MockEnv::new("admin", "poor").sent_funds(vec![coin(31, "uscrt")]);
    assert!(matches!(e.instantiate(0, &[], env).unwrap_err(), StdError::InsufficientFunds { .. }));
    assert!(e.query("poor", &[]).is_err());
}

#[test]
fn block_time_advances_with_height() {
    let mut e = setup();
    let before = *e.block();
    run(&mut e, &[]).unwrap();
    assert_eq!(e.block().height, before.height + 1);
    assert_eq!(e.block().time, before.time + 1);
}
