//! Values that flow between the engine and the contracts: coins, messages, responses,
//! replies, environments and errors.
use vstd::prelude::*;

verus! {

/// The character of a decimal digit.
pub open spec fn digit_char(d: nat) -> char {
    if d == 0 {
        '0'
    } else if d == 1 {
        '1'
    } else if d == 2 {
        '2'
    } else if d == 3 {
        '3'
    } else if d == 4 {
        '4'
    } else if d == 5 {
        '5'
    } else if d == 6 {
        '6'
    } else if d == 7 {
        '7'
    } else if d == 8 {
        '8'
    } else {
        '9'
    }
}

/// The decimal digits of `n`, most significant first, without leading zeros.
pub open spec fn decimal_digits(n: nat) -> Seq<char>
    decreases n,
{
    if n < 10 {
        seq![digit_char(n)]
    } else {
        decimal_digits(n / 10).push(digit_char(n % 10))
    }
}

fn digit_str(d: u64) -> (r: &'static str)
    requires
        d < 10,
    ensures
        r@ == seq![digit_char(d as nat)],
{
    proof {
        reveal_strlit("0");
        reveal_strlit("1");
        reveal_strlit("2");
        reveal_strlit("3");
        reveal_strlit("4");
        reveal_strlit("5");
        reveal_strlit("6");
        reveal_strlit("7");
        reveal_strlit("8");
        reveal_strlit("9");
    }
    if d == 0 {
        "0"
    } else if d == 1 {
        "1"
    } else if d == 2 {
        "2"
    } else if d == 3 {
        "3"
    } else if d == 4 {
        "4"
    } else if d == 5 {
        "5"
    } else if d == 6 {
        "6"
    } else if d == 7 {
        "7"
    } else if d == 8 {
        "8"
    } else {
        "9"
    }
}

/// The decimal digits of `n`.
pub fn decimal(n: u64) -> (r: String)
    ensures
        r@ == decimal_digits(n as nat),
    decreases n,
{
    if n < 10 {
        digit_str(n).to_owned()
    } else {
        let mut s = decimal(n / 10);
        s.append(digit_str(n % 10));
        s
    }
}

/// Copies a byte slice into a vector.
pub fn bytes_of(b: &[u8]) -> (r: Vec<u8>)
    ensures
        r@ == b@,
{
    let mut out: Vec<u8> = Vec::new();
    let mut i: usize = 0;
    while i < b.len()
        invariant
            i <= b@.len(),
            out@ == b@.subrange(0, i as int),
        decreases b@.len() - i,
    {
        out.push(b[i]);
        i = i + 1;
        assert(out@ =~= b@.subrange(0, i as int));
    }
    assert(out@ =~= b@);
    out
}

/// An amount of one denomination.
#[derive(Debug, PartialEq, Eq)]
pub struct Coin {
    pub denom: String,
    pub amount: u128,
}

/// `amount` of `denom`.
pub fn coin(amount: u128, denom: &str) -> (r: Coin)
    ensures
        r.amount == amount,
        r.denom@ == denom@,
{
    Coin { denom: denom.to_owned(), amount }
}

impl Coin {
    /// A copy of this coin.
    pub fn duplicate(&self) -> (r: Coin)
        ensures
            r == *self,
    {
        Coin { denom: self.denom.clone(), amount: self.amount }
    }
}

/// A copy of a list of coins.
pub fn coins_copy(c: &Vec<Coin>) -> (r: Vec<Coin>)
    ensures
        r@ == c@,
{
    let mut out: Vec<Coin> = Vec::new();
    let mut i: usize = 0;
    while i < c.len()
        invariant
            i <= c@.len(),
            out@ == c@.subrange(0, i as int),
        decreases c@.len() - i,
    {
        out.push(c[i].duplicate());
        i = i + 1;
        assert(out@ =~= c@.subrange(0, i as int));
    }
    assert(out@ =~= c@);
    out
}

/// Errors of the engine, of its ledgers and of the contracts.
#[derive(Debug, PartialEq, Eq)]
pub enum StdError {
    /// An error that a contract raised, with its message.
    GenericErr { msg: String },
    /// No contract is registered under the address.
    ContractNotFound { address: String },
    /// No contract code is registered under the id.
    CodeNotFound { id: u64 },
    /// A contract is already instantiated under the address.
    AddressInUse { address: String },
    /// The account holds less of the denomination than the operation takes.
    InsufficientFunds { address: String, denom: String },
    /// A balance or stake would exceed the largest amount that can be held.
    Overflow,
    /// No validator is registered under the address.
    ValidatorNotFound { validator: String },
    /// The delegator has no delegation to the validator.
    DelegationNotFound,
    /// The delegator still waits on an undelegation from the source validator.
    RedelegationLocked,
    /// The coin is not of the denomination that the staking ledger bonds.
    InvalidDenom { denom: String },
    /// Messages nested deeper than the engine follows.
    CallDepthExceeded,
}

impl StdError {
    /// A contract error with the message `msg`.
    pub fn generic_err(msg: &str) -> (r: StdError)
        ensures
            r is GenericErr && r->GenericErr_msg@ == msg@,
    {
        StdError::GenericErr { msg: msg.to_owned() }
    }

    /// The error as text.
    pub fn to_string(&self) -> (r: String)
        ensures
            self is GenericErr ==> r@ == "Generic error: "@ + self->GenericErr_msg@,
            self is ContractNotFound ==> r@ == "Contract not found: "@
                + self->ContractNotFound_address@,
            self is CodeNotFound ==> r@ == "Contract code not found"@,
            self is AddressInUse ==> r@ == "Address already instantiated: "@
                + self->AddressInUse_address@,
            self is InsufficientFunds ==> r@ == "Insufficient balance: account: "@
                + self->InsufficientFunds_address@ + ", denom: "@ + self->InsufficientFunds_denom@,
            self is Overflow ==> r@ == "Amount overflow"@,
            self is ValidatorNotFound ==> r@ == "Validator not found: "@
                + self->ValidatorNotFound_validator@,
            self is DelegationNotFound ==> r@ == "Delegation not found"@,
            self is RedelegationLocked ==> r@ == "Redelegation locked by a pending undelegation"@,
            self is InvalidDenom ==> r@ == "Incorrect coin denom: "@ + self->InvalidDenom_denom@,
            self is CallDepthExceeded ==> r@ == "Call depth exceeded"@,
    {
        match self {
            StdError::GenericErr { msg } => {
                let mut s = "Generic error: ".to_owned();
                s.append(msg.as_str());
                s
            },
            StdError::ContractNotFound { address } => {
                let mut s = "Contract not found: ".to_owned();
                s.append(address.as_str());
                s
            },
            StdError::CodeNotFound { .. } => "Contract code not found".to_owned(),
            StdError::AddressInUse { address } => {
                let mut s = "Address already instantiated: ".to_owned();
                s.append(address.as_str());
                s
            },
            StdError::InsufficientFunds { address, denom } => {
                let mut s = "Insufficient balance: account: ".to_owned();
                s.append(address.as_str());
                s.append(", denom: ");
                s.append(denom.as_str());
                s
            },
            StdError::Overflow => "Amount overflow".to_owned(),
            StdError::ValidatorNotFound { validator } => {
                let mut s = "Validator not found: ".to_owned();
                s.append(validator.as_str());
                s
            },
            StdError::DelegationNotFound => "Delegation not found".to_owned(),
            StdError::RedelegationLocked => "Redelegation locked by a pending undelegation".to_owned(),
            StdError::InvalidDenom { denom } => {
                let mut s = "Incorrect coin denom: ".to_owned();
                s.append(denom.as_str());
                s
            },
            StdError::CallDepthExceeded => "Call depth exceeded".to_owned(),
        }
    }
}

/// A call of a contract.
#[derive(Debug, PartialEq, Eq)]
pub enum WasmMsg {
    /// Executes the contract at `contract_addr`.
    Execute { contract_addr: String, code_hash: String, msg: Vec<u8>, funds: Vec<Coin> },
    /// Instantiates the code `code_id` under the address `label`.
    Instantiate {
        code_id: u64,
        code_hash: String,
        msg: Vec<u8>,
        funds: Vec<Coin>,
        label: String,
    },
}

/// A transfer on the ledger, from the contract that sends the message.
#[derive(Debug, PartialEq, Eq)]
pub enum BankMsg {
    Send { to_address: String, amount: Vec<Coin> },
}

/// A delegation operation of the contract that sends the message.
#[derive(Debug, PartialEq, Eq)]
pub enum StakingMsg {
    Delegate { validator: String, amount: Coin },
    Undelegate { validator: String, amount: Coin },
    Redelegate { src_validator: String, dst_validator: String, amount: Coin },
    Withdraw { validator: String, recipient: Option<String> },
}

/// A message that a contract returns for the engine to carry out.
#[derive(Debug, PartialEq, Eq)]
pub enum CosmosMsg {
    Wasm(WasmMsg),
    Bank(BankMsg),
    Staking(StakingMsg),
}

/// When the engine calls the sender back with the outcome of a sub-message.
#[derive(Debug, Clone, Copy, PartialEq, Eq, Structural)]
pub enum ReplyOn {
    Never,
    Success,
    Error,
    Always,
}

/// Whether a reply is owed for a sub-message that succeeded.
pub open spec fn replies_on_success(r: ReplyOn) -> bool {
    r == ReplyOn::Success || r == ReplyOn::Always
}

/// Whether a reply is owed for a sub-message that failed.
pub open spec fn replies_on_error(r: ReplyOn) -> bool {
    r == ReplyOn::Error || r == ReplyOn::Always
}

/// A message with a reply policy and the id that its reply carries.
#[derive(Debug, PartialEq, Eq)]
pub struct SubMsg {
    pub id: u64,
    pub msg: CosmosMsg,
    pub reply_on: ReplyOn,
}

impl SubMsg {
    /// A sub-message that is never replied to.
    pub fn new(msg: CosmosMsg) -> (r: SubMsg)
        ensures
            r.id == 0,
            r.msg == msg,
            r.reply_on == ReplyOn::Never,
    {
        SubMsg { id: 0, msg, reply_on: ReplyOn::Never }
    }

    /// A sub-message that is replied to whatever its outcome.
    pub fn reply_always(msg: CosmosMsg, id: u64) -> (r: SubMsg)
        ensures
            r.id == id,
            r.msg == msg,
            r.reply_on == ReplyOn::Always,
    {
        SubMsg { id, msg, reply_on: ReplyOn::Always }
    }

    /// A sub-message that is replied to when it succeeds.
    pub fn reply_on_success(msg: CosmosMsg, id: u64) -> (r: SubMsg)
        ensures
            r.id == id,
            r.msg == msg,
            r.reply_on == ReplyOn::Success,
    {
        SubMsg { id, msg, reply_on: ReplyOn::Success }
    }

    /// A sub-message that is replied to when it fails.
    pub fn reply_on_error(msg: CosmosMsg, id: u64) -> (r: SubMsg)
        ensures
            r.id == id,
            r.msg == msg,
            r.reply_on == ReplyOn::Error,
    {
        SubMsg { id, msg, reply_on: ReplyOn::Error }
    }
}

/// What a contract call returns: the sub-messages to carry out, in order, and
/// attributes and data that the engine passes through.
#[derive(Debug, PartialEq, Eq)]
pub struct Response {
    pub messages: Vec<SubMsg>,
    pub attributes: Vec<(String, String)>,
    pub data: Option<Vec<u8>>,
}

impl Response {
    /// A response with no message, attribute or data.
    pub fn new() -> (r: Response)
        ensures
            r.messages@.len() == 0,
            r.attributes@.len() == 0,
            r.data is None,
    {
        Response { messages: Vec::new(), attributes: Vec::new(), data: None }
    }

    /// Appends a message that is never replied to.
    pub fn add_message(self, msg: CosmosMsg) -> (r: Response)
        ensures
            r.messages@ == self.messages@.push(SubMsg { id: 0, msg, reply_on: ReplyOn::Never }),
            r.attributes == self.attributes,
            r.data == self.data,
    {
        let mut r = self;
        r.messages.push(SubMsg::new(msg));
        r
    }

    /// Appends a sub-message.
    pub fn add_submessage(self, msg: SubMsg) -> (r: Response)
        ensures
            r.messages@ == self.messages@.push(msg),
            r.attributes == self.attributes,
            r.data == self.data,
    {
        let mut r = self;
        r.messages.push(msg);
        r
    }

    /// Appends an attribute.
    pub fn add_attribute(self, key: &str, value: &str) -> (r: Response)
        ensures
            r.messages == self.messages,
            r.attributes@.len() == self.attributes@.len() + 1,
            r.attributes@.last().0@ == key@,
            r.attributes@.last().1@ == value@,
            r.data == self.data,
    {
        let mut r = self;
        r.attributes.push((key.to_owned(), value.to_owned()));
        r
    }
}

/// The outcome of a sub-message, as its reply carries it.
#[derive(Debug, PartialEq, Eq)]
pub enum SubMsgResult {
    /// It succeeded; the data of its response, if any.
    Success { data: Option<Vec<u8>> },
    /// It failed with this error text.
    Failure(String),
}

impl SubMsgResult {
    /// Whether the sub-message succeeded.
    pub fn is_ok(&self) -> (r: bool)
        ensures
            r == (self is Success),
    {
        match self {
            SubMsgResult::Success { .. } => true,
            SubMsgResult::Failure(_) => false,
        }
    }
}

/// What the engine hands to a contract's reply entry point.
#[derive(Debug, PartialEq, Eq)]
pub struct Reply {
    pub id: u64,
    pub result: SubMsgResult,
}

/// A copy of optional bytes.
pub fn opt_bytes_copy(b: &Option<Vec<u8>>) -> (r: Option<Vec<u8>>)
    ensures
        r is Some == b is Some,
        r is Some ==> r->Some_0@ == b->Some_0@,
{
    match b {
        Some(v) => Some(bytes_of(v.as_slice())),
        None => None,
    }
}

impl Reply {
    /// A copy of this reply.
    pub fn duplicate(&self) -> (r: Reply)
        ensures
            r.id == self.id,
            (r.result is Success) == (self.result is Success),
            self.result is Failure ==> r.result->Failure_0@ == self.result->Failure_0@,
            self.result is Success ==> (r.result->Success_data is Some
                == self.result->Success_data is Some) && (self.result->Success_data is Some
                ==> r.result->Success_data->Some_0@ == self.result->Success_data->Some_0@),
    {
        let result = match &self.result {
            SubMsgResult::Success { data } => SubMsgResult::Success { data: opt_bytes_copy(data) },
            SubMsgResult::Failure(e) => SubMsgResult::Failure(e.clone()),
        };
        Reply { id: self.id, result }
    }
}

/// A contract's address and the hash of its code.
#[derive(Debug, PartialEq, Eq)]
pub struct ContractLink {
    pub address: String,
    pub code_hash: String,
}

/// The current block.
#[derive(Debug, Clone, Copy, PartialEq, Eq, Structural)]
pub struct Block {
    pub height: u64,
    pub time: u64,
}

impl Block {
    /// The first block.
    pub fn new() -> (r: Block)
        ensures
            r.height == 1,
            r.time == 1,
    {
        Block { height: 1, time: 1 }
    }

    /// Moves to the next block: height and time each advance by one, and stay at the
    /// largest value once they reach it.
    pub fn next(&mut self)
        ensures
            *final(self) == block_after(*old(self)),
    {
        self.height = self.height.saturating_add(1);
        self.time = self.time.saturating_add(1);
    }
}

/// The block after `b`: height and time one more, each staying at the largest value
/// once it reaches it.
pub open spec fn block_after(b: Block) -> Block {
    Block {
        height: if b.height < u64::MAX {
            (b.height + 1) as u64
        } else {
            b.height
        },
        time: if b.time < u64::MAX {
            (b.time + 1) as u64
        } else {
            b.time
        },
    }
}

/// Block facts that a contract can read.
#[derive(Debug, PartialEq, Eq)]
pub struct BlockInfo {
    pub height: u64,
    pub time: u64,
    pub chain_id: String,
}

/// The environment of a contract call.
#[derive(Debug, PartialEq, Eq)]
pub struct Env {
    pub block: BlockInfo,
    pub contract: ContractLink,
}

/// Who calls a contract, and with which funds.
#[derive(Debug, PartialEq, Eq)]
pub struct MessageInfo {
    pub sender: String,
    pub funds: Vec<Coin>,
}

impl MessageInfo {
    /// A call from `sender` with `funds` attached.
    pub fn new(sender: &str, funds: &Vec<Coin>) -> (r: MessageInfo)
        ensures
            r.sender@ == sender@,
            r.funds@ == funds@,
    {
        MessageInfo { sender: sender.to_owned(), funds: coins_copy(funds) }
    }
}

/// The caller, target and funds of a top-level call.
#[derive(Debug, PartialEq, Eq)]
pub struct MockEnv {
    pub sender: String,
    pub contract: ContractLink,
    pub sent_funds: Vec<Coin>,
}

impl MockEnv {
    /// A call from `sender` to the contract at `address`, with no funds.
    pub fn new(sender: &str, address: &str) -> (r: MockEnv)
        ensures
            r.sender@ == sender@,
            r.contract.address@ == address@,
            r.sent_funds@.len() == 0,
    {
        MockEnv {
            sender: sender.to_owned(),
            contract: ContractLink { address: address.to_owned(), code_hash: String::new() },
            sent_funds: Vec::new(),
        }
    }

    /// The same call, with `funds` attached.
    pub fn sent_funds(self, funds: Vec<Coin>) -> (r: MockEnv)
        ensures
            r.sender == self.sender,
            r.contract == self.contract,
            r.sent_funds == funds,
    {
        MockEnv { sender: self.sender, contract: self.contract, sent_funds: funds }
    }
}

} // verus!
