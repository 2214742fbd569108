//! What a participant is going to contribute, action by action.
use std::sync::Arc;

use bitcoin::hashes::Hash as _;

use vstd::prelude::*;

verus! {

/// An output that an input spends.
#[derive(Debug, Clone, Copy, PartialEq, Eq)]
pub struct OutPoint {
    pub txid: [u8; 32],
    pub vout: u32,
}

/// A transaction input.
#[derive(Debug, PartialEq, Eq)]
pub struct TxIn {
    pub previous_output: OutPoint,
    pub script_sig: Vec<u8>,
    pub sequence: u32,
    pub witness: Vec<Vec<u8>>,
}

/// A transaction output.
#[derive(Debug, PartialEq, Eq)]
pub struct TxOut {
    /// In satoshi.
    pub value: u64,
    pub script_pubkey: Vec<u8>,
}

/// An input that a participant can contribute.
#[derive(Debug, PartialEq, Eq)]
pub struct InputPair {
    pub txin: TxIn,
}

/// One contribution to the collaborative transaction.
#[derive(Debug, PartialEq, Eq)]
pub enum Action {
    RegisterInput(InputPair),
    RegisterOutput(TxOut),
}

impl TxIn {
    /// What an unsigned input says: the output it spends and its sequence number.
    pub open spec fn unsigned_model(self) -> (Seq<u8>, u32, u32) {
        (self.previous_output.txid@, self.previous_output.vout, self.sequence)
    }

    /// Whether the input carries no signatures.
    pub open spec fn is_unsigned(self) -> bool {
        self.script_sig@.len() == 0 && self.witness@.len() == 0
    }
}

impl TxOut {
    /// What an output says.
    pub open spec fn model(self) -> (u64, Seq<u8>) {
        (self.value, self.script_pubkey@)
    }
}

/// The serialized PSBT of the unsigned transaction with the given version, lock time, input and
/// output.
pub uninterp spec fn psbt_bytes(
    version: i32,
    lock_time: u32,
    input: Option<(Seq<u8>, u32, u32)>,
    output: Option<(u64, Seq<u8>)>,
) -> Seq<u8>;

/// Whether an optional input spends an output of something that can be a transaction.
pub open spec fn spends_a_txid(input: Option<(Seq<u8>, u32, u32)>) -> bool {
    input matches Some((txid, _, _)) ==> txid.len() == 32
}

/// Whether some bytes are the serialized PSBT of at most one unsigned transaction.
pub open spec fn unambiguous(bytes: Seq<u8>) -> bool {
    forall|
        v1: i32,
        l1: u32,
        i1: Option<(Seq<u8>, u32, u32)>,
        o1: Option<(u64, Seq<u8>)>,
        v2: i32,
        l2: u32,
        i2: Option<(Seq<u8>, u32, u32)>,
        o2: Option<(u64, Seq<u8>)>,
    |
        bytes == #[trigger] psbt_bytes(v1, l1, i1, o1) && bytes == #[trigger] psbt_bytes(
            v2,
            l2,
            i2,
            o2,
        ) && spends_a_txid(i1) && spends_a_txid(i2) ==> v1 == v2 && l1 == l2 && i1 == i2 && o1
            == o2
}

/// The unsigned transaction that is read back from a serialized PSBT: its version, its lock time,
/// its input and its output.
pub open spec fn unsigned_tx(bytes: Seq<u8>) -> (
    i32,
    u32,
    Option<(Seq<u8>, u32, u32)>,
    Option<(u64, Seq<u8>)>,
) {
    choose|
        version: i32,
        lock_time: u32,
        input: Option<(Seq<u8>, u32, u32)>,
        output: Option<(u64, Seq<u8>)>,
    |
        bytes == #[trigger] psbt_bytes(version, lock_time, input, output) && spends_a_txid(input)
}

/// `bitcoin::Psbt::from_unsigned_tx` and `serialize`: the serialized PSBT of an unsigned
/// transaction, named `psbt_bytes`. The input, if there is one, has neither script nor witness. No
/// other such transaction has the same PSBT: the version, the counted inputs and outputs and the
/// lock time are written out in full.
#[verifier::external_body]
fn psbt_of_unsigned(
    version: i32,
    lock_time: u32,
    input: Option<([u8; 32], u32, u32)>,
    output: Option<(u64, Vec<u8>)>,
) -> (r: Vec<u8>)
    ensures
        r@ == psbt_bytes(version, lock_time, input_model(input), output_model(output)),
        unambiguous(r@),
{
    let input = input.map(|(txid, vout, sequence)| bitcoin::TxIn {
        previous_output: bitcoin::OutPoint { txid: bitcoin::Txid::from_byte_array(txid), vout },
        sequence: bitcoin::Sequence(sequence),
        ..Default::default()
    });
    let output = output.map(|(value, script)| bitcoin::TxOut {
        value: bitcoin::Amount::from_sat(value),
        script_pubkey: script.into(),
    });
    let (input, output) = (input.into_iter().collect(), output.into_iter().collect());
    let version = bitcoin::transaction::Version(version);
    let lock_time = bitcoin::absolute::LockTime::from_consensus(lock_time);
    let tx = bitcoin::Transaction { version, lock_time, input, output };
    bitcoin::Psbt::from_unsigned_tx(tx).expect("no signatures").serialize()
}

/// What an optional unsigned input says.
pub open spec fn input_model(input: Option<([u8; 32], u32, u32)>) -> Option<(Seq<u8>, u32, u32)> {
    match input {
        Some((txid, vout, sequence)) => Some((txid@, vout, sequence)),
        None => None,
    }
}

/// What an optional output says.
pub open spec fn output_model(output: Option<(u64, Vec<u8>)>) -> Option<(u64, Seq<u8>)> {
    match output {
        Some((value, script)) => Some((value, script@)),
        None => None,
    }
}

impl Action {
    /// Whether the contribution carries no signatures.
    pub open spec fn is_unsigned(self) -> bool {
        match self {
            Action::RegisterInput(input) => input.txin.is_unsigned(),
            Action::RegisterOutput(_) => true,
        }
    }

    /// The serialized PSBT of a version 2 transaction with this contribution alone.
    pub open spec fn fragment(self) -> Seq<u8> {
        match self {
            Action::RegisterInput(input) => psbt_bytes(
                2,
                0,
                Some(input.txin.unsigned_model()),
                None,
            ),
            Action::RegisterOutput(output) => psbt_bytes(2, 0, None, Some(output.model())),
        }
    }

    /// The serialized PSBT of a version 2 transaction with this contribution alone, and lock time
    /// zero.
    pub fn as_psbt_fragment(&self) -> (r: Vec<u8>)
        requires
            self.is_unsigned(),
        ensures
            r@ == self.fragment(),
            unambiguous(r@),
            match self {
                Action::RegisterInput(input) => r@ == psbt_bytes(
                    2,
                    0,
                    Some(
                        (
                            input.txin.previous_output.txid@,
                            input.txin.previous_output.vout,
                            input.txin.sequence,
                        ),
                    ),
                    None,
                ),
                Action::RegisterOutput(output) => r@ == psbt_bytes(
                    2,
                    0,
                    None,
                    Some((output.value, output.script_pubkey@)),
                ),
            },
    {
        match self {
            Action::RegisterInput(input) => {
                let spent = input.txin.previous_output;
                psbt_of_unsigned(2, 0, Some((spent.txid, spent.vout, input.txin.sequence)), None)
            },
            Action::RegisterOutput(output) => psbt_of_unsigned(
                2,
                0,
                None,
                Some((output.value, output.script_pubkey.clone())),
            ),
        }
    }
}

/// What a fragment says is the contribution: the transaction that is read back from it has the
/// input, or the output, and nothing else.
pub proof fn law_fragment_says_the_contribution(action: Action)
    requires
        unambiguous(action.fragment()),
    ensures
        ({
            let (version, lock_time, input, output) = unsigned_tx(action.fragment());
            &&& version == 2
            &&& lock_time == 0
            &&& match action {
                Action::RegisterInput(contributed) => {
                    &&& input matches Some((txid, vout, sequence))
                    &&& txid == contributed.txin.previous_output.txid@
                    &&& vout == contributed.txin.previous_output.vout
                    &&& sequence == contributed.txin.sequence
                    &&& output is None
                },
                Action::RegisterOutput(contributed) => {
                    &&& input is None
                    &&& output matches Some((value, script))
                    &&& value == contributed.value
                    &&& script == contributed.script_pubkey@
                },
            }
        }),
{
    let (input, output) = match action {
        Action::RegisterInput(contributed) => (Some(contributed.txin.unsigned_model()), None),
        Action::RegisterOutput(contributed) => (None, Some(contributed.model())),
    };
    assert(action.fragment() == psbt_bytes(2, 0, input, output) && spends_a_txid(input));
}

/// Contributions that differ have fragments that differ: no one else's payment, coin or sequence
/// number is read off a fragment.
pub proof fn law_fragments_tell_contributions_apart(a: Action, b: Action)
    requires
        unambiguous(a.fragment()),
        a.fragment() == b.fragment(),
    ensures
        match (a, b) {
            (Action::RegisterInput(x), Action::RegisterInput(y)) => {
                &&& x.txin.previous_output.txid@ == y.txin.previous_output.txid@
                &&& x.txin.previous_output.vout == y.txin.previous_output.vout
                &&& x.txin.sequence == y.txin.sequence
            },
            (Action::RegisterOutput(x), Action::RegisterOutput(y)) => {
                &&& x.value == y.value
                &&& x.script_pubkey@ == y.script_pubkey@
            },
            _ => false,
        },
{
    law_fragment_says_the_contribution(a);
    law_fragment_says_the_contribution(b);
}

/// Collects the actions of a plan.
pub struct PlanBuilder(Vec<Action>);

impl PlanBuilder {
    /// The actions so far.
    pub closed spec fn actions(self) -> Seq<Action> {
        self.0@
    }

    pub fn new() -> (r: Self)
        ensures
            r.actions() == Seq::<Action>::empty(),
    {
        PlanBuilder(Vec::new())
    }

    pub fn add_input(self, input: InputPair) -> (r: Self)
        ensures
            r.actions() == self.actions().push(Action::RegisterInput(input)),
    {
        let mut actions = self.0;
        actions.push(Action::RegisterInput(input));
        PlanBuilder(actions)
    }

    pub fn add_output(self, output: TxOut) -> (r: Self)
        ensures
            r.actions() == self.actions().push(Action::RegisterOutput(output)),
    {
        let mut actions = self.0;
        actions.push(Action::RegisterOutput(output));
        PlanBuilder(actions)
    }

    pub fn build(self) -> (r: Plan)
        ensures
            r@ == self.actions(),
    {
        Plan(Arc::new(self.0))
    }
}

/// A list of actions.
#[derive(Debug, PartialEq, Eq)]
pub struct Plan(pub Arc<Vec<Action>>);

impl View for Plan {
    type V = Seq<Action>;

    open spec fn view(&self) -> Seq<Action> {
        self.0@
    }
}

impl Clone for Plan {
    fn clone(&self) -> (r: Self)
        ensures
            r == *self,
    {
        Plan(self.0.clone())
    }
}

impl Plan {
    pub fn action(&self, index: usize) -> (r: Option<&Action>)
        ensures
            r == (if index < self@.len() {
                Some(&self@[index as int])
            } else {
                None
            }),
    {
        if index < self.0.len() {
            Some(&self.0[index])
        } else {
            None
        }
    }

    pub fn len(&self) -> (r: usize)
        ensures
            r == self@.len(),
    {
        self.0.len()
    }
}

} // verus!
