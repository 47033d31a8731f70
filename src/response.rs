//! The trace of a call: one entry per contract call, reply, transfer or delegation
//! operation, each holding the entries of the calls it caused.
use vstd::prelude::*;
use crate::bank::BankResponse;
use crate::staking::StakingResponse;
use crate::types::{ContractLink, Reply, Response};

verus! {

/// A contract instantiated: by whom, where, with which payload; what it returned, and
/// the trace of its sub-messages.
#[derive(Debug, PartialEq, Eq)]
pub struct InstantiateResponse {
    pub sender: String,
    pub instance: ContractLink,
    pub msg: Vec<u8>,
    pub response: Response,
    pub sent: Vec<ResponseVariants>,
}

/// A contract executed: by whom, which one, with which payload; what it returned, and
/// the trace of its sub-messages.
#[derive(Debug, PartialEq, Eq)]
pub struct ExecuteResponse {
    pub sender: String,
    pub address: String,
    pub msg: Vec<u8>,
    pub response: Response,
    pub sent: Vec<ResponseVariants>,
}

/// A contract called back with the outcome of one of its sub-messages; what the
/// reply returned, and the trace of its own sub-messages.
#[derive(Debug, PartialEq, Eq)]
pub struct ReplyResponse {
    pub address: String,
    pub reply: Reply,
    pub response: Response,
    pub sent: Vec<ResponseVariants>,
}

/// One entry of a trace.
#[derive(Debug, PartialEq, Eq)]
pub enum ResponseVariants {
    Instantiate(InstantiateResponse),
    Execute(ExecuteResponse),
    Reply(ReplyResponse),
    Bank(BankResponse),
    Staking(StakingResponse),
}

/// The entries that `e` holds: the trace of the calls that it caused.
pub open spec fn children(e: ResponseVariants) -> Seq<ResponseVariants> {
    match e {
        ResponseVariants::Instantiate(x) => x.sent@,
        ResponseVariants::Execute(x) => x.sent@,
        ResponseVariants::Reply(x) => x.sent@,
        _ => Seq::empty(),
    }
}

/// The entries of `s` and, after each one, the entries it holds, flattened in
/// pre-order: each entry comes before the trace of the calls it caused, and that
/// trace comes before the entry's next sibling.
pub open spec fn flatten(s: Seq<ResponseVariants>) -> Seq<ResponseVariants>
    decreases s,
{
    if s.len() == 0 {
        Seq::empty()
    } else {
        proof {
            lemma_children_decrease(s);
        }
        seq![s[0]] + flatten(children(s[0])) + flatten(s.subrange(1, s.len() as int))
    }
}

/// A trace decreases to the entries that its first entry holds, and to its tail.
pub proof fn lemma_children_decrease(s: Seq<ResponseVariants>)
    requires
        s.len() > 0,
    ensures
        decreases_to!(s => children(s[0])),
        decreases_to!(s => s.subrange(1, s.len() as int)),
{
    assert(decreases_to!(s => s[0]));
    match s[0] {
        ResponseVariants::Instantiate(x) => {
            assert(decreases_to!(x.sent => x.sent@));
        },
        ResponseVariants::Execute(x) => {
            assert(decreases_to!(x.sent => x.sent@));
        },
        ResponseVariants::Reply(x) => {
            assert(decreases_to!(x.sent => x.sent@));
        },
        _ => {
            assert(decreases_to!(s => Seq::<ResponseVariants>::empty())) by {
                vstd::seq::axiom_seq_len_decreases(s, Seq::<ResponseVariants>::empty());
            }
        },
    }
}

/// The values behind a sequence of references.
pub open spec fn derefs(s: Seq<&ResponseVariants>) -> Seq<ResponseVariants> {
    s.map_values(|r: &ResponseVariants| *r)
}

/// Appends to `out` the entries of `entries`, flattened in pre-order.
fn collect<'a>(entries: &'a Vec<ResponseVariants>, out: &mut Vec<&'a ResponseVariants>)
    ensures
        derefs(final(out)@) == derefs(old(out)@) + flatten(entries@),
    decreases entries,
{
    let ghost start = derefs(out@);
    let mut i: usize = 0;
    assert(entries@.subrange(0, entries@.len() as int) =~= entries@);
    while i < entries.len()
        invariant
            i <= entries@.len(),
            derefs(out@) + flatten(entries@.subrange(i as int, entries@.len() as int)) == start
                + flatten(entries@),
        decreases entries@.len() - i,
    {
        let e = &entries[i];
        let ghost rest = entries@.subrange(i as int, entries@.len() as int);
        let ghost before = out@;
        proof {
            assert(rest[0] == *e);
            assert(rest.subrange(1, rest.len() as int) =~= entries@.subrange(
                i + 1,
                entries@.len() as int,
            ));
        }
        out.push(e);
        assert(derefs(out@) =~= derefs(before).push(*e));
        assert(decreases_to!(entries => entries@[i as int]));
        match e {
            ResponseVariants::Instantiate(x) => {
                assert(decreases_to!(entries => x.sent));
                collect(&x.sent, out);
            },
            ResponseVariants::Execute(x) => {
                assert(decreases_to!(entries => x.sent));
                collect(&x.sent, out);
            },
            ResponseVariants::Reply(x) => {
                assert(decreases_to!(entries => x.sent));
                collect(&x.sent, out);
            },
            _ => {},
        }
        proof {
            assert(flatten(rest) == seq![rest[0]] + flatten(children(rest[0])) + flatten(
                rest.subrange(1, rest.len() as int),
            ));
            if children(*e).len() == 0 {
                assert(flatten(children(*e)) =~= Seq::<ResponseVariants>::empty());
            }
            assert(derefs(out@) + flatten(entries@.subrange(i + 1, entries@.len() as int))
                =~= derefs(before) + flatten(rest));
        }
        i = i + 1;
    }
    assert(entries@.subrange(i as int, entries@.len() as int) =~= Seq::<ResponseVariants>::empty());
    assert(flatten(Seq::<ResponseVariants>::empty()) =~= Seq::<ResponseVariants>::empty());
    assert(derefs(out@) =~= start + flatten(entries@));
}

/// The entries of a trace, flattened in pre-order.
pub fn flatten_trace(entries: &Vec<ResponseVariants>) -> (r: Vec<&ResponseVariants>)
    ensures
        derefs(r@) == flatten(entries@),
{
    let mut out: Vec<&ResponseVariants> = Vec::new();
    collect(entries, &mut out);
    assert(derefs(Seq::<&ResponseVariants>::empty()) =~= Seq::<ResponseVariants>::empty());
    assert(Seq::<ResponseVariants>::empty() + flatten(entries@) =~= flatten(entries@));
    out
}

impl ExecuteResponse {
    /// Every entry of the trace, in the order the calls were made.
    pub fn iter(&self) -> (r: Vec<&ResponseVariants>)
        ensures
            derefs(r@) == flatten(self.sent@),
    {
        flatten_trace(&self.sent)
    }
}

impl InstantiateResponse {
    /// Every entry of the trace, in the order the calls were made.
    pub fn iter(&self) -> (r: Vec<&ResponseVariants>)
        ensures
            derefs(r@) == flatten(self.sent@),
    {
        flatten_trace(&self.sent)
    }
}

impl ResponseVariants {
    pub fn is_execute(&self) -> (r: bool)
        ensures
            r == (self is Execute),
    {
        matches!(self, ResponseVariants::Execute(_))
    }

    pub fn is_instantiate(&self) -> (r: bool)
        ensures
            r == (self is Instantiate),
    {
        matches!(self, ResponseVariants::Instantiate(_))
    }

    pub fn is_reply(&self) -> (r: bool)
        ensures
            r == (self is Reply),
    {
        matches!(self, ResponseVariants::Reply(_))
    }

    pub fn is_bank(&self) -> (r: bool)
        ensures
            r == (self is Bank),
    {
        matches!(self, ResponseVariants::Bank(_))
    }

    pub fn is_staking(&self) -> (r: bool)
        ensures
            r == (self is Staking),
    {
        matches!(self, ResponseVariants::Staking(_))
    }
}

} // verus!
