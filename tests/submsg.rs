use fadroma::bin_serde::{Deserializer, Serializer};
use fadroma::ensemble::ContractEnsemble;
use fadroma::response::ResponseVariants;
use fadroma::storage::{ContractHarness, Deps};
use fadroma::types::{
    coin, BankMsg, Coin, ContractLink, CosmosMsg, Env, MessageInfo, MockEnv, Reply, ReplyOn,
    Response, StdError, SubMsg, WasmMsg,
};

const SENDER: &str = "sender";
const A_ADDR: &str = "A";
const B_ADDR: &str = "B";
const C_ADDR: &str = "C";

struct Contract;

struct InstantiateMsg {
    reply_fail_id: Option<u64>,
}

enum ExecuteMsg {
    RunMsgs(Vec<SubMsg>),
    IncrNumber(u32),
    IncrAndSend { amount: u32, recipient: String },
    Fail,
    ReplyResponse(SubMsg),
}

struct QueryResponse {
    num: u32,
    balance: u128,
}

fn write_bytes(ser: &mut Serializer, bytes: &[u8]) {
    ser.write(&(bytes.len() as u32).to_le_bytes());
    ser.write(bytes);
}

fn read_bytes(de: &mut Deserializer) -> Vec<u8> {
    let len = u32::from_le_bytes(de.read(4).unwrap().try_into().unwrap()) as usize;
    de.read(len).unwrap().to_vec()
}

fn read_string(de: &mut Deserializer) -> String {
    String::from_utf8(read_bytes(de)).unwrap()
}

fn write_submsg(ser: &mut Serializer, msg: &SubMsg) {
    ser.write(&msg.id.to_le_bytes());
    ser.write_byte(match msg.reply_on {
        ReplyOn::Never => 0,
        ReplyOn::Success => 1,
        ReplyOn::Error => 2,
        ReplyOn::Always => 3,
    });
    match &msg.msg {
        CosmosMsg::Wasm(WasmMsg::Execute { contract_addr, code_hash, msg, funds }) => {
            write_bytes(ser, contract_addr.as_bytes());
            write_bytes(ser, code_hash.as_bytes());
            write_bytes(ser, msg);
            ser.write(&(funds.len() as u32).to_le_bytes());
            for c in funds {
                write_bytes(ser, c.denom.as_bytes());
                ser.write(&c.amount.to_le_bytes());
            }
        }
        _ => panic!("only contract calls are encoded"),
    }
}

fn read_submsg(de: &mut Deserializer) -> SubMsg {
    let id = u64::from_le_bytes(de.read(8).unwrap().try_into().unwrap());
    let reply_on = match de.read_byte().unwrap() {
        0 => ReplyOn::Never,
        1 => ReplyOn::Success,
        2 => ReplyOn::Error,
        _ => ReplyOn::Always,
    };
    let contract_addr = read_string(de);
    let code_hash = read_string(de);
    let msg = read_bytes(de);
    let n = u32::from_le_bytes(de.read(4).unwrap().try_into().unwrap());
    let mut funds = Vec::new();
    for _ in 0..n {
        let denom = read_string(de);
        let amount = u128::from_le_bytes(de.read(16).unwrap().try_into().unwrap());
        funds.push(Coin { denom, amount });
    }
    SubMsg { id, msg: CosmosMsg::Wasm(WasmMsg::Execute { contract_addr, code_hash, msg, funds }), reply_on }
}

fn encode_submsg(msg: &SubMsg) -> Vec<u8> {
    let mut ser = Serializer::new();
    write_submsg(&mut ser, msg);
    ser.finish()
}

fn encode_instantiate(msg: &InstantiateMsg) -> Vec<u8> {
    let mut ser = Serializer::new();
    match msg.reply_fail_id {
        Some(id) => {
            ser.write_byte(1);
            ser.write(&id.to_le_bytes());
        }
        None => ser.write_byte(0),
    }
    ser.finish()
}

fn encode(msg: &ExecuteMsg) -> Vec<u8> {
    let mut ser = Serializer::new();
    match msg {
        ExecuteMsg::RunMsgs(msgs) => {
            ser.write_byte(0);
            ser.write(&(msgs.len() as u32).to_le_bytes());
            for m in msgs {
                write_submsg(&mut ser, m);
            }
        }
        ExecuteMsg::IncrNumber(amount) => {
            ser.write_byte(1);
            ser.write(&amount.to_le_bytes());
        }
        ExecuteMsg::IncrAndSend { amount, recipient } => {
            ser.write_byte(2);
            ser.write(&amount.to_le_bytes());
            write_bytes(&mut ser, recipient.as_bytes());
        }
        ExecuteMsg::Fail => ser.write_byte(3),
        ExecuteMsg::ReplyResponse(m) => {
            ser.write_byte(4);
            write_submsg(&mut ser, m);
        }
    }
    ser.finish()
}

fn decode(bytes: &[u8]) -> ExecuteMsg {
    let mut de = Deserializer::from(bytes);
    match de.read_byte().unwrap() {
        0 => {
            let n = u32::from_le_bytes(de.read(4).unwrap().try_into().unwrap());
            ExecuteMsg::RunMsgs((0..n).map(|_| read_submsg(&mut de)).collect())
        }
        1 => ExecuteMsg::IncrNumber(u32::from_le_bytes(de.read(4).unwrap().try_into().unwrap())),
        2 => {
            let amount = u32::from_le_bytes(de.read(4).unwrap().try_into().unwrap());
            let recipient = read_string(&mut de);
            ExecuteMsg::IncrAndSend { amount, recipient }
        }
        3 => ExecuteMsg::Fail,
        _ => ExecuteMsg::ReplyResponse(read_submsg(&mut de)),
    }
}

fn load_u32(deps: &Deps, key: &[u8]) -> Option<u32> {
    deps.storage.get(key).map(|v| u32::from_le_bytes(v.as_slice().try_into().unwrap()))
}

fn load_u64(deps: &Deps, key: &[u8]) -> Option<u64> {
    deps.storage.get(key).map(|v| u64::from_le_bytes(v.as_slice().try_into().unwrap()))
}

fn increment(deps: &mut Deps, amount: u32) -> Result<(), StdError> {
    let mut num: u32 = load_u32(deps, b"num").unwrap_or_default();
    num += amount;

    deps.storage.set(b"num", &num.to_le_bytes());

    if num > 10 {
        Err(StdError::generic_err("Number is bigger than 10."))
    } else {
        Ok(())
    }
}

impl ContractHarness for Contract {
    fn instantiate(&self, deps: &mut Deps, _env: Env, _info: MessageInfo, msg: &[u8]) -> Result<Response, StdError> {
        let mut de = Deserializer::from(msg);
        if de.read_byte().unwrap() == 1 {
            let id = de.read(8).unwrap().to_vec();
            deps.storage.set(b"fail", &id);
        }

        Ok(Response::new())
    }

    fn execute(&self, deps: &mut Deps, _env: Env, _info: MessageInfo, msg: &[u8]) -> Result<Response, StdError> {
        let mut resp = Response::new();

        match decode(msg) {
            ExecuteMsg::RunMsgs(msgs) => {
                for m in msgs {
                    resp = resp.add_submessage(m);
                }
            }
            ExecuteMsg::IncrNumber(amount) => {
                increment(deps, amount)?;
            }
            ExecuteMsg::IncrAndSend { amount, recipient } => {
                increment(deps, amount)?;

                resp = resp.add_message(CosmosMsg::Bank(BankMsg::Send {
                    to_address: recipient,
                    amount: vec![coin(100, "uscrt")],
                }))
            }
            ExecuteMsg::ReplyResponse(m) => {
                deps.storage.set(b"reply", &encode_submsg(&m));
            }
            ExecuteMsg::Fail => return Err(StdError::generic_err("Fail")),
        }

        Ok(resp)
    }

    fn query(&self, deps: &Deps, env: Env, _msg: &[u8]) -> Result<Vec<u8>, StdError> {
        let num: u32 = load_u32(deps, b"num").unwrap_or_default();
        let balance = deps.querier.query_balance(&env.contract.address, "uscrt");

        let mut ser = Serializer::new();
        ser.write(&num.to_le_bytes());
        ser.write(&balance.amount.to_le_bytes());
        Ok(ser.finish())
    }

    fn reply(&self, deps: &mut Deps, env: Env, reply: Reply) -> Result<Response, StdError> {
        let fail_id: Option<u64> = load_u64(deps, b"fail");

        if let Some(id) = fail_id {
            if id == reply.id {
                return Err(StdError::generic_err("Failed in reply."));
            }
        }

        let mut response = Response::new().add_attribute(
            "submsg_reply",
            &format!(
                "address: {}, id: {}, success: {}",
                env.contract.address,
                reply.id,
                reply.result.is_ok()
            ),
        );

        if let Some(bytes) = deps.storage.get(b"reply") {
            let mut de = Deserializer::from(&bytes);
            response = response.add_submessage(read_submsg(&mut de));
            deps.storage.remove(b"reply");
        }

        Ok(response)
    }
}

struct TestContracts {
    ensemble: ContractEnsemble,
    a: ContractLink,
    b: ContractLink,
    c: ContractLink,
}

impl TestContracts {
    fn state_of(&self, address: &str) -> QueryResponse {
        let bytes = self.ensemble.query(address, &[]).unwrap();
        let mut de = Deserializer::from(&bytes);
        let num = u32::from_le_bytes(de.read(4).unwrap().try_into().unwrap());
        let balance = u128::from_le_bytes(de.read(16).unwrap().try_into().unwrap());

        QueryResponse { num, balance }
    }

    fn a_state(&self) -> QueryResponse {
        self.state_of(&self.a.address)
    }

    fn b_state(&self) -> QueryResponse {
        self.state_of(&self.b.address)
    }

    fn c_state(&self) -> QueryResponse {
        self.state_of(&self.c.address)
    }
}

fn init(msgs: [Option<u64>; 3]) -> TestContracts {
    let mut ensemble = ContractEnsemble::new_with_denom("uscrt");
    let contract = ensemble.register(Box::new(Contract));

    let a = ensemble.instantiate(
        contract.id,
        &encode_instantiate(&InstantiateMsg { reply_fail_id: msgs[0] }),
        MockEnv::new(SENDER, A_ADDR),
    ).unwrap();

    let b = ensemble.instantiate(
        contract.id,
        &encode_instantiate(&InstantiateMsg { reply_fail_id: msgs[1] }),
        MockEnv::new(SENDER, B_ADDR),
    ).unwrap();

    let c = ensemble.instantiate(
        contract.id,
        &encode_instantiate(&InstantiateMsg { reply_fail_id: msgs[2] }),
        MockEnv::new(SENDER, C_ADDR),
    ).unwrap();

    TestContracts { ensemble, a: a.instance, b: b.instance, c: c.instance }
}

fn contract_msg(address: &str, msg: &ExecuteMsg) -> CosmosMsg {
    CosmosMsg::Wasm(WasmMsg::Execute {
        contract_addr: address.into(),
        code_hash: "test_contract_0".into(),
        msg: encode(msg),
        funds: vec![],
    })
}

fn a_msg(msg: &ExecuteMsg) -> CosmosMsg {
    contract_msg(A_ADDR, msg)
}

fn b_msg(msg: &ExecuteMsg) -> CosmosMsg {
    contract_msg(B_ADDR, msg)
}

fn c_msg(msg: &ExecuteMsg) -> CosmosMsg {
    contract_msg(C_ADDR, msg)
}

fn expect_execute(next: &ResponseVariants, address: &str, sender: &str) {
    assert!(next.is_execute());

    if let ResponseVariants::Execute(resp) = next {
        assert_eq!(resp.address, address);
        assert_eq!(resp.sender, sender);
    }
}

fn expect_reply(next: &ResponseVariants, address: &str, id: u64) {
    assert!(next.is_reply());

    if let ResponseVariants::Reply(resp) = next {
        assert_eq!(resp.address, address);
        assert_eq!(resp.reply.id, id);
    }
}

#[test]
fn correct_message_order() {
    let mut c = init([None, None, None]);

    let msg = ExecuteMsg::RunMsgs(vec![
        SubMsg::reply_always(
            b_msg(&ExecuteMsg::RunMsgs(vec![SubMsg::new(a_msg(&ExecuteMsg::IncrNumber(1)))])),
            0,
        ),
        SubMsg::reply_always(b_msg(&ExecuteMsg::IncrNumber(2)), 1),
        SubMsg::new(c_msg(&ExecuteMsg::IncrNumber(3))),
    ]);

    // Contract A returns submessages S1 and S2, and message M1.
    // Submessage S1 returns message N1.
    // The order will be: S1, N1, reply(S1), S2, reply(S2), M1

    let resp = c.ensemble.execute(&encode(&msg), MockEnv::new(SENDER, &c.a.address)).unwrap();
    let mut resp = resp.iter().into_iter();

    expect_execute(resp.next().unwrap(), B_ADDR, A_ADDR); // S1
    expect_execute(resp.next().unwrap(), A_ADDR, B_ADDR); // N1
    expect_reply(resp.next().unwrap(), A_ADDR, 0); // reply(S1)
    expect_execute(resp.next().unwrap(), B_ADDR, A_ADDR); // S2
    expect_reply(resp.next().unwrap(), A_ADDR, 1); // reply(S2)
    expect_execute(resp.next().unwrap(), C_ADDR, A_ADDR); // M1

    assert_eq!(resp.next(), None);

    assert_eq!(c.a_state().num, 1);
    assert_eq!(c.b_state().num, 2);
    assert_eq!(c.c_state().num, 3);
}

#[test]
fn replies_chain_correctly() {
    let mut c = init([None, None, None]);

    let msg = ExecuteMsg::RunMsgs(vec![
        SubMsg::reply_always(
            b_msg(&ExecuteMsg::RunMsgs(vec![SubMsg::reply_always(
                a_msg(&ExecuteMsg::IncrNumber(1)),
                0,
            )])),
            1,
        ),
        SubMsg::reply_always(b_msg(&ExecuteMsg::IncrNumber(2)), 2),
        SubMsg::new(c_msg(&ExecuteMsg::IncrNumber(3))),
    ]);

    let resp = c.ensemble.execute(&encode(&msg), MockEnv::new(SENDER, &c.a.address)).unwrap();
    let mut resp = resp.iter().into_iter();

    expect_execute(resp.next().unwrap(), B_ADDR, A_ADDR);
    expect_execute(resp.next().unwrap(), A_ADDR, B_ADDR);
    expect_reply(resp.next().unwrap(), B_ADDR, 0);
    expect_reply(resp.next().unwrap(), A_ADDR, 1);
    expect_execute(resp.next().unwrap(), B_ADDR, A_ADDR);
    expect_reply(resp.next().unwrap(), A_ADDR, 2);
    expect_execute(resp.next().unwrap(), C_ADDR, A_ADDR);

    assert_eq!(resp.next(), None);

    assert_eq!(c.a_state().num, 1);
    assert_eq!(c.b_state().num, 2);
    assert_eq!(c.c_state().num, 3);
}

#[test]
fn reverts_state_when_a_single_message_in_a_submsg_chain_fails() {
    let mut c = init([None, None, None]);

    let msg = ExecuteMsg::RunMsgs(vec![
        SubMsg::reply_always(
            b_msg(&ExecuteMsg::RunMsgs(vec![
                SubMsg::new(c_msg(&ExecuteMsg::IncrNumber(1))),
                SubMsg::new(c_msg(&ExecuteMsg::Fail)),
            ])),
            0,
        ),
        SubMsg::reply_always(b_msg(&ExecuteMsg::IncrNumber(2)), 1),
    ]);

    let resp = c.ensemble.execute(&encode(&msg), MockEnv::new(SENDER, &c.a.address)).unwrap();
    let mut resp = resp.iter().into_iter();

    // reply(A) - ID: 0 - notice that even though it was successful,
    // the first sub-message is not included because all state was reverted
    expect_reply(resp.next().unwrap(), A_ADDR, 0);
    expect_execute(resp.next().unwrap(), B_ADDR, A_ADDR);
    expect_reply(resp.next().unwrap(), A_ADDR, 1);

    assert_eq!(resp.next(), None);

    assert_eq!(c.a_state().num, 0);
    assert_eq!(c.b_state().num, 2);
    assert_eq!(c.c_state().num, 0);
}

#[test]
fn only_successful_submsg_state_is_committed() {
    let mut c = init([None, None, None]);

    let msg = ExecuteMsg::RunMsgs(vec![
        SubMsg::reply_always(
            b_msg(&ExecuteMsg::RunMsgs(vec![
                SubMsg::reply_always(c_msg(&ExecuteMsg::IncrNumber(1)), 0),
                SubMsg::reply_always(c_msg(&ExecuteMsg::IncrNumber(12)), 1), // This will fail
            ])),
            2,
        ),
        SubMsg::new(b_msg(&ExecuteMsg::IncrNumber(2))),
    ]);

    let resp = c.ensemble.execute(&encode(&msg), MockEnv::new(SENDER, &c.a.address)).unwrap();
    let mut resp = resp.iter().into_iter();

    expect_execute(resp.next().unwrap(), B_ADDR, A_ADDR);
    expect_execute(resp.next().unwrap(), C_ADDR, B_ADDR);
    expect_reply(resp.next().unwrap(), B_ADDR, 0);
    expect_reply(resp.next().unwrap(), B_ADDR, 1);
    expect_reply(resp.next().unwrap(), A_ADDR, 2);
    expect_execute(resp.next().unwrap(), B_ADDR, A_ADDR);

    assert_eq!(resp.next(), None);

    assert_eq!(c.a_state().num, 0);
    assert_eq!(c.b_state().num, 2);
    assert_eq!(c.c_state().num, 1);
}

#[test]
fn reverts_state_when_reply_in_submsg_fails() {
    let mut c = init([None, Some(1), None]);

    let msg = ExecuteMsg::RunMsgs(vec![
        SubMsg::reply_always(
            b_msg(&ExecuteMsg::RunMsgs(vec![
                SubMsg::reply_always(c_msg(&ExecuteMsg::IncrNumber(1)), 0),
                SubMsg::reply_always(c_msg(&ExecuteMsg::IncrNumber(1)), 1),
                SubMsg::reply_always(c_msg(&ExecuteMsg::IncrNumber(1)), 2),
            ])),
            3,
        ),
        SubMsg::reply_always(b_msg(&ExecuteMsg::IncrNumber(2)), 4),
    ]);

    let resp = c.ensemble.execute(&encode(&msg), MockEnv::new(SENDER, &c.a.address)).unwrap();
    let mut resp = resp.iter().into_iter();

    expect_reply(resp.next().unwrap(), A_ADDR, 3);
    expect_execute(resp.next().unwrap(), B_ADDR, A_ADDR);
    expect_reply(resp.next().unwrap(), A_ADDR, 4);

    assert_eq!(resp.next(), None);

    assert_eq!(c.a_state().num, 0);
    assert_eq!(c.b_state().num, 2);
    assert_eq!(c.c_state().num, 0);
}

#[test]
fn reply_err_in_root_level_fails_tx() {
    let mut c = init([Some(2), None, None]);
    c.ensemble.add_funds(C_ADDR, vec![coin(200, "uscrt")]).unwrap();

    let msg = ExecuteMsg::RunMsgs(vec![
        SubMsg::reply_always(
            b_msg(&ExecuteMsg::RunMsgs(vec![
                SubMsg::reply_always(
                    c_msg(&ExecuteMsg::IncrAndSend { amount: 1, recipient: A_ADDR.into() }),
                    0,
                ),
                SubMsg::reply_always(c_msg(&ExecuteMsg::Fail), 1),
            ])),
            2,
        ),
        SubMsg::reply_always(b_msg(&ExecuteMsg::IncrNumber(2)), 3),
        SubMsg::new(c_msg(&ExecuteMsg::IncrNumber(5))),
    ]);

    let err = c.ensemble.execute(&encode(&msg), MockEnv::new(SENDER, &c.a.address)).unwrap_err();
    assert_eq!(err.to_string(), "Generic error: Failed in reply.");

    let state = c.a_state();
    assert_eq!(state.num, 0);
    assert_eq!(state.balance, 0);

    let state = c.b_state();
    assert_eq!(state.num, 0);
    assert_eq!(state.balance, 0);

    let state = c.c_state();
    assert_eq!(state.num, 0);
    assert_eq!(state.balance, 200);
}

#[test]
fn errors_are_handled_in_submsg_reply_state_is_committed() {
    let mut c = init([None, None, None]);

    let msg = ExecuteMsg::RunMsgs(vec![
        SubMsg::new(b_msg(&ExecuteMsg::RunMsgs(vec![
            SubMsg::reply_always(c_msg(&ExecuteMsg::IncrNumber(1)), 0),
            SubMsg::reply_always(c_msg(&ExecuteMsg::Fail), 1),
        ]))),
        SubMsg::new(b_msg(&ExecuteMsg::IncrNumber(3))),
    ]);

    let resp = c.ensemble.execute(&encode(&msg), MockEnv::new(SENDER, &c.a.address)).unwrap();
    let mut resp = resp.iter().into_iter();

    expect_execute(resp.next().unwrap(), B_ADDR, A_ADDR);
    expect_execute(resp.next().unwrap(), C_ADDR, B_ADDR);
    expect_reply(resp.next().unwrap(), B_ADDR, 0);
    expect_reply(resp.next().unwrap(), B_ADDR, 1);
    expect_execute(resp.next().unwrap(), B_ADDR, A_ADDR);

    assert_eq!(resp.next(), None);

    assert_eq!(c.a_state().num, 0);
    assert_eq!(c.b_state().num, 3);
    assert_eq!(c.c_state().num, 1);
}

#[test]
fn errors_in_middle_of_submsg_scope_are_handled_and_execution_continues() {
    let mut c = init([None, None, None]);

    let msg = ExecuteMsg::RunMsgs(vec![
        SubMsg::new(b_msg(&ExecuteMsg::RunMsgs(vec![
            SubMsg::reply_always(c_msg(&ExecuteMsg::Fail), 0),
            SubMsg::reply_always(c_msg(&ExecuteMsg::IncrNumber(1)), 1),
        ]))),
        SubMsg::new(b_msg(&ExecuteMsg::IncrNumber(3))),
    ]);

    let resp = c.ensemble.execute(&encode(&msg), MockEnv::new(SENDER, &c.a.address)).unwrap();
    let mut resp = resp.iter().into_iter();

    expect_execute(resp.next().unwrap(), B_ADDR, A_ADDR);
    expect_reply(resp.next().unwrap(), B_ADDR, 0);
    expect_execute(resp.next().unwrap(), C_ADDR, B_ADDR);
    expect_reply(resp.next().unwrap(), B_ADDR, 1);
    expect_execute(resp.next().unwrap(), B_ADDR, A_ADDR);

    assert_eq!(resp.next(), None);

    assert_eq!(c.a_state().num, 0);
    assert_eq!(c.b_state().num, 3);
    assert_eq!(c.c_state().num, 1);
}

#[test]
fn unhandled_error_in_submsg_is_bubbled_up_to_the_caller() {
    let mut c = init([None, None, None]);
    c.ensemble.add_funds(C_ADDR, vec![coin(200, "uscrt")]).unwrap();

    let msg = ExecuteMsg::RunMsgs(vec![
        SubMsg::reply_always(
            b_msg(&ExecuteMsg::RunMsgs(vec![
                SubMsg::reply_always(
                    c_msg(&ExecuteMsg::IncrAndSend { amount: 1, recipient: A_ADDR.into() }),
                    0,
                ),
                SubMsg::new(c_msg(&ExecuteMsg::Fail)),
                SubMsg::reply_always(c_msg(&ExecuteMsg::IncrNumber(1)), 1),
            ])),
            2,
        ),
        SubMsg::new(c_msg(&ExecuteMsg::IncrAndSend { amount: 3, recipient: B_ADDR.into() })),
    ]);

    let resp = c.ensemble.execute(&encode(&msg), MockEnv::new(SENDER, &c.a.address)).unwrap();
    let mut resp = resp.iter().into_iter();

    expect_reply(resp.next().unwrap(), A_ADDR, 2);
    expect_execute(resp.next().unwrap(), C_ADDR, A_ADDR);

    let next = resp.next().unwrap();
    assert!(next.is_bank());

    if let ResponseVariants::Bank(resp) = next {
        assert_eq!(resp.receiver, B_ADDR);
        assert_eq!(resp.sender, C_ADDR);
        assert_eq!(resp.coins, vec![coin(100, "uscrt")]);
    }

    assert_eq!(resp.next(), None);

    let state = c.a_state();
    assert_eq!(state.num, 0);
    assert_eq!(state.balance, 0);

    let state = c.b_state();
    assert_eq!(state.num, 0);
    assert_eq!(state.balance, 100);

    let state = c.c_state();
    assert_eq!(state.num, 3);
    assert_eq!(state.balance, 100);
}

#[test]
fn unhandled_error_in_nested_message_fails_tx() {
    let mut c = init([None, None, None]);

    let msg = ExecuteMsg::RunMsgs(vec![
        SubMsg::new(b_msg(&ExecuteMsg::RunMsgs(vec![
            SubMsg::reply_always(c_msg(&ExecuteMsg::IncrNumber(1)), 0),
            SubMsg::new(c_msg(&ExecuteMsg::Fail)),
        ]))),
        SubMsg::new(b_msg(&ExecuteMsg::IncrNumber(3))),
    ]);

    let err = c.ensemble.execute(&encode(&msg), MockEnv::new(SENDER, &c.a.address)).unwrap_err();
    assert_eq!(err.to_string(), "Generic error: Fail");

    assert_eq!(c.a_state().num, 0);
    assert_eq!(c.b_state().num, 0);
    assert_eq!(c.c_state().num, 0);
}

#[test]
fn error_bubbles_multiple_levels_up_the_stack() {
    let mut c = init([None, None, None]);

    let msg = ExecuteMsg::RunMsgs(vec![
        SubMsg::reply_on_error(
            b_msg(&ExecuteMsg::RunMsgs(vec![
                SubMsg::reply_always(c_msg(&ExecuteMsg::IncrNumber(1)), 0),
                SubMsg::new(c_msg(&ExecuteMsg::RunMsgs(vec![
                    SubMsg::new(b_msg(&ExecuteMsg::IncrNumber(1))),
                    SubMsg::reply_on_success(
                        a_msg(&ExecuteMsg::RunMsgs(vec![
                            SubMsg::new(b_msg(&ExecuteMsg::IncrNumber(15))), // This will fail
                        ])),
                        1,
                    ),
                ]))),
                SubMsg::reply_always(c_msg(&ExecuteMsg::IncrNumber(1)), 2),
            ])),
            3,
        ),
        SubMsg::new(b_msg(&ExecuteMsg::IncrNumber(3))),
    ]);

    let resp = c.ensemble.execute(&encode(&msg), MockEnv::new(SENDER, &c.a.address)).unwrap();
    let mut resp = resp.iter().into_iter();

    expect_reply(resp.next().unwrap(), A_ADDR, 3);
    expect_execute(resp.next().unwrap(), B_ADDR, A_ADDR);

    assert_eq!(resp.next(), None);

    assert_eq!(c.a_state().num, 0);
    assert_eq!(c.b_state().num, 3);
    assert_eq!(c.c_state().num, 0);
}

#[test]
fn unhandled_error_jumps_to_the_first_reply() {
    let mut c = init([None, None, None]);

    let msg = ExecuteMsg::RunMsgs(vec![
        SubMsg::reply_always(
            b_msg(&ExecuteMsg::RunMsgs(vec![
                SubMsg::reply_on_success(
                    c_msg(&ExecuteMsg::RunMsgs(vec![
                        SubMsg::reply_on_success(a_msg(&ExecuteMsg::IncrNumber(1)), 0),
                        SubMsg::new(b_msg(&ExecuteMsg::Fail)),
                    ])),
                    1,
                ),
                SubMsg::new(c_msg(&ExecuteMsg::IncrNumber(1))),
            ])),
            2,
        ),
        SubMsg::new(b_msg(&ExecuteMsg::IncrNumber(2))),
    ]);

    let resp = c.ensemble.execute(&encode(&msg), MockEnv::new(SENDER, &c.a.address)).unwrap();
    let mut resp = resp.iter().into_iter();

    expect_reply(resp.next().unwrap(), A_ADDR, 2);
    expect_execute(resp.next().unwrap(), B_ADDR, A_ADDR);

    assert_eq!(resp.next(), None);

    assert_eq!(c.a_state().num, 0);
    assert_eq!(c.b_state().num, 2);
    assert_eq!(c.c_state().num, 0);
}

#[test]
fn reply_responses_are_handled_correctly() {
    let mut c = init([None, None, None]);

    let msg = ExecuteMsg::ReplyResponse(SubMsg::reply_always(a_msg(&ExecuteMsg::IncrNumber(1)), 2));

    let resp = c.ensemble.execute(&encode(&msg), MockEnv::new(SENDER, &c.b.address)).unwrap();
    assert!(resp.sent.is_empty());
    assert_eq!(resp.address, B_ADDR);
    assert_eq!(resp.sender, SENDER);

    let msg = ExecuteMsg::RunMsgs(vec![
        SubMsg::reply_always(
            b_msg(&ExecuteMsg::RunMsgs(vec![
                SubMsg::reply_on_success(c_msg(&ExecuteMsg::IncrNumber(1)), 0),
                SubMsg::reply_on_success(c_msg(&ExecuteMsg::IncrNumber(1)), 1),
            ])),
            3,
        ),
        SubMsg::new(c_msg(&ExecuteMsg::IncrNumber(3))),
        SubMsg::reply_always(b_msg(&ExecuteMsg::IncrNumber(2)), 4),
    ]);

    let resp = c.ensemble.execute(&encode(&msg), MockEnv::new(SENDER, &c.a.address)).unwrap();
    let mut resp = resp.iter().into_iter();

    expect_execute(resp.next().unwrap(), B_ADDR, A_ADDR);
    expect_execute(resp.next().unwrap(), C_ADDR, B_ADDR);
    expect_reply(resp.next().unwrap(), B_ADDR, 0);
    expect_execute(resp.next().unwrap(), A_ADDR, B_ADDR);
    expect_reply(resp.next().unwrap(), B_ADDR, 2);
    expect_execute(resp.next().unwrap(), C_ADDR, B_ADDR);
    expect_reply(resp.next().unwrap(), B_ADDR, 1);
    expect_reply(resp.next().unwrap(), A_ADDR, 3);
    expect_execute(resp.next().unwrap(), C_ADDR, A_ADDR);
    expect_execute(resp.next().unwrap(), B_ADDR, A_ADDR);
    expect_reply(resp.next().unwrap(), A_ADDR, 4);

    assert_eq!(resp.next(), None);

    assert_eq!(c.a_state().num, 1);
    assert_eq!(c.b_state().num, 2);
    assert_eq!(c.c_state().num, 5);
}

#[test]
fn reply_response_error_is_handled_properly() {
    let mut c = init([None, Some(2), None]);

    let msg = ExecuteMsg::ReplyResponse(SubMsg::reply_always(
        a_msg(&ExecuteMsg::RunMsgs(vec![
            SubMsg::new(c_msg(&ExecuteMsg::IncrNumber(1))),
            SubMsg::reply_on_success(b_msg(&ExecuteMsg::IncrNumber(20)), 1), // This will fail
        ])),
        2,
    ));

    let resp = c.ensemble.execute(&encode(&msg), MockEnv::new(SENDER, &c.b.address)).unwrap();
    assert!(resp.sent.is_empty());
    assert_eq!(resp.address, B_ADDR);
    assert_eq!(resp.sender, SENDER);

    let msg = ExecuteMsg::RunMsgs(vec![
        SubMsg::reply_always(
            b_msg(&ExecuteMsg::RunMsgs(vec![
                SubMsg::reply_on_success(c_msg(&ExecuteMsg::IncrNumber(1)), 0),
                SubMsg::new(c_msg(&ExecuteMsg::IncrNumber(1))),
            ])),
            3,
        ),
        SubMsg::reply_always(b_msg(&ExecuteMsg::IncrNumber(2)), 4),
    ]);

    let resp = c.ensemble.execute(&encode(&msg), MockEnv::new(SENDER, &c.a.address)).unwrap();
    let mut resp = resp.iter().into_iter();

    expect_reply(resp.next().unwrap(), A_ADDR, 3);
    expect_execute(resp.next().unwrap(), B_ADDR, A_ADDR);
    expect_reply(resp.next().unwrap(), A_ADDR, 4);

    assert_eq!(resp.next(), None);

    assert_eq!(c.a_state().num, 0);
    assert_eq!(c.b_state().num, 2);
    assert_eq!(c.c_state().num, 0);
}
