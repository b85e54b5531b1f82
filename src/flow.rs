//! Decisions of the signing flow: the funding check and fee of a signing
//! request, and which outputs the user must approve.

use bdk_wallet::bitcoin::{Address, Script};
use vstd::prelude::*;

use crate::descriptor::{output_index, ExtendedDescriptor, PsbtOutput};

verus! {

/// The chain a wallet works on.
#[derive(Clone, Copy, Debug, PartialEq, Eq, Structural)]
pub enum Network {
    Bitcoin,
    Testnet,
    Testnet4,
    Signet,
    Regtest,
}

/// The address that a script pays to on a network, as text; `None` for a
/// script with no address form.
pub uninterp spec fn address_of(script: Seq<u8>, network: Network) -> Option<Seq<char>>;

/// Relies on bitcoin's `Address::from_script` and the address's `Display`:
/// the text depends on the script and the network alone.
#[verifier::external_body]
fn address_from_script(script: &Vec<u8>, network: Network) -> (r: Option<String>)
    ensures
        match r {
            Some(a) => address_of(script@, network) == Some(a@),
            None => address_of(script@, network) is None,
        },
{
    let network = match network {
        Network::Bitcoin => bdk_wallet::bitcoin::Network::Bitcoin,
        Network::Testnet => bdk_wallet::bitcoin::Network::Testnet,
        Network::Testnet4 => bdk_wallet::bitcoin::Network::Testnet4,
        Network::Signet => bdk_wallet::bitcoin::Network::Signet,
        Network::Regtest => bdk_wallet::bitcoin::Network::Regtest,
    };
    Address::from_script(Script::from_bytes(script), network).ok().map(|a| a.to_string())
}

/// Errors of a request whose content cannot be used.
#[derive(Clone, Copy, Debug, PartialEq, Eq, Structural)]
pub enum MessageError {
    FailedDeserialization,
}

/// A previous transaction as an input carries it: its id and the values of
/// its outputs.
#[derive(Clone, Debug)]
pub struct PrevTx {
    pub txid: Vec<u8>,
    pub output_values: Vec<u64>,
}

/// What an input says of the coin it spends: the outpoint, and the full
/// previous transaction or the spent output's value.
#[derive(Clone, Debug)]
pub struct InputFunding {
    pub prevout_txid: Vec<u8>,
    pub prevout_vout: u32,
    pub non_witness_utxo: Option<PrevTx>,
    pub witness_utxo_value: Option<u64>,
}

/// An output of the transaction: its value, its script and its key origins.
#[derive(Clone, Debug)]
pub struct TxOutput {
    pub value: u64,
    pub script_pubkey: Vec<u8>,
    pub origins: PsbtOutput,
}

/// An output the user must approve: its address and value.
#[derive(Clone, Debug)]
pub struct ShownOutput {
    pub address: String,
    pub value: u64,
}

/// What the signing flow shows and keeps: the fee and the outputs that
/// leave the wallet.
#[derive(Clone, Debug)]
pub struct SignPsbtState {
    pub fees: u64,
    pub outputs: Vec<ShownOutput>,
}

/// The value that an input spends, where the input proves it: the previous
/// transaction must be the one the outpoint names and hold that output; the
/// spent output alone is taken only where `allow_witness_utxo` says so.
pub open spec fn input_value(inp: InputFunding, allow_witness_utxo: bool) -> Option<nat> {
    match inp.non_witness_utxo {
        Some(prev) => if prev.txid@ == inp.prevout_txid@ && inp.prevout_vout < prev.output_values@.len() {
            Some(prev.output_values@[inp.prevout_vout as int] as nat)
        } else {
            None
        },
        None => match inp.witness_utxo_value {
            Some(v) => if allow_witness_utxo {
                Some(v as nat)
            } else {
                None
            },
            None => None,
        },
    }
}

/// The total that the inputs spend; `None` where an input does not prove
/// its value.
pub open spec fn total_input(inputs: Seq<InputFunding>, allow_witness_utxo: bool) -> Option<nat>
    decreases inputs.len(),
{
    if inputs.len() == 0 {
        Some(0)
    } else {
        match (total_input(inputs.drop_last(), allow_witness_utxo), input_value(inputs.last(), allow_witness_utxo)) {
            (Some(t), Some(v)) => Some(t + v),
            _ => None,
        }
    }
}

pub open spec fn total_output(outputs: Seq<TxOutput>) -> nat
    decreases outputs.len(),
{
    if outputs.len() == 0 {
        0
    } else {
        total_output(outputs.drop_last()) + outputs.last().value as nat
    }
}

/// The fee of a transaction; `None` where an input does not prove its
/// value, a total does not fit in 64 bits, or the outputs spend more than
/// the inputs.
pub open spec fn fee_of(inputs: Seq<InputFunding>, outputs: Seq<TxOutput>, allow_witness_utxo: bool) -> Option<u64> {
    match total_input(inputs, allow_witness_utxo) {
        Some(tin) => if tin <= u64::MAX && total_output(outputs) <= u64::MAX && total_output(outputs) <= tin {
            Some((tin - total_output(outputs)) as u64)
        } else {
            None
        },
        None => None,
    }
}

/// An output is the wallet's own where it verifies against one of the
/// wallet's descriptors.
pub open spec fn is_own_output(descriptors: Seq<ExtendedDescriptor>, out: TxOutput) -> bool {
    exists|d: int| 0 <= d < descriptors.len() && (#[trigger] output_index(descriptors[d].keys@, out.origins)) is Some
}

/// Fails a request on an input that does not prove its value.
fn input_value_of(inp: &InputFunding, allow_witness_utxo: bool) -> (r: Option<u64>)
    ensures
        match input_value(*inp, allow_witness_utxo) {
            Some(v) => r == Some(v as u64),
            None => r is None,
        },
{
    match &inp.non_witness_utxo {
        Some(prev) => {
            let vout = inp.prevout_vout as usize;
            if crate::order::compare(&prev.txid, &inp.prevout_txid) == 0 && vout < prev.output_values.len() {
                Some(prev.output_values[vout])
            } else {
                None
            }
        },
        None => {
            match inp.witness_utxo_value {
                Some(v) => if allow_witness_utxo {
                    Some(v)
                } else {
                    None
                },
                None => None,
            }
        },
    }
}

/// The fee of a signing request, or the error that rejects it before any
/// signing: an input that does not prove its value, or totals that overflow
/// or spend more than they have.
pub fn compute_fees(inputs: &Vec<InputFunding>, outputs: &Vec<TxOutput>, allow_witness_utxo: bool) -> (r: Result<u64, MessageError>)
    ensures
        match fee_of(inputs@, outputs@, allow_witness_utxo) {
            Some(f) => r == Ok::<u64, MessageError>(f),
            None => r == Err::<u64, MessageError>(MessageError::FailedDeserialization),
        },
{
    let mut tin: u64 = 0;
    let mut overflow = false;
    let mut i: usize = 0;
    while i < inputs.len()
        invariant
            i <= inputs@.len(),
            total_input(inputs@.subrange(0, i as int), allow_witness_utxo) is Some,
            !overflow ==> total_input(inputs@.subrange(0, i as int), allow_witness_utxo) == Some(tin as nat),
            overflow ==> total_input(inputs@.subrange(0, i as int), allow_witness_utxo)->Some_0 > u64::MAX,
        decreases inputs@.len() - i,
    {
        let ghost sub = inputs@.subrange(0, i + 1);
        assert(sub.drop_last() =~= inputs@.subrange(0, i as int));
        let v = match input_value_of(&inputs[i], allow_witness_utxo) {
            Some(v) => v,
            None => {
                proof {
                    lemma_total_input_fails_later(inputs@, allow_witness_utxo, (i + 1) as nat);
                }
                return Err(MessageError::FailedDeserialization);
            },
        };
        if !overflow {
            match tin.checked_add(v) {
                Some(t) => {
                    tin = t;
                },
                None => {
                    overflow = true;
                },
            }
        }
        i = i + 1;
    }
    assert(inputs@.subrange(0, inputs@.len() as int) =~= inputs@);
    let mut tout: u64 = 0;
    let mut out_overflow = false;
    let mut j: usize = 0;
    while j < outputs.len()
        invariant
            j <= outputs@.len(),
            !out_overflow ==> total_output(outputs@.subrange(0, j as int)) == tout as nat,
            out_overflow ==> total_output(outputs@.subrange(0, j as int)) > u64::MAX,
        decreases outputs@.len() - j,
    {
        let ghost sub = outputs@.subrange(0, j + 1);
        assert(sub.drop_last() =~= outputs@.subrange(0, j as int));
        let v = outputs[j].value;
        if !out_overflow {
            match tout.checked_add(v) {
                Some(t) => {
                    tout = t;
                },
                None => {
                    out_overflow = true;
                },
            }
        }
        j = j + 1;
    }
    assert(outputs@.subrange(0, outputs@.len() as int) =~= outputs@);
    if overflow || out_overflow || tout > tin {
        Err(MessageError::FailedDeserialization)
    } else {
        Ok(tin - tout)
    }
}

/// Once an input fails to prove its value, the total fails whatever follows.
proof fn lemma_total_input_fails_later(inputs: Seq<InputFunding>, allow: bool, n: nat)
    requires
        1 <= n <= inputs.len(),
        total_input(inputs.subrange(0, n as int), allow) is None,
    ensures
        total_input(inputs, allow) is None,
    decreases inputs.len() - n,
{
    if n < inputs.len() {
        let sub = inputs.subrange(0, n + 1 as int);
        assert(sub.drop_last() =~= inputs.subrange(0, n as int));
        lemma_total_input_fails_later(inputs, allow, n + 1nat);
    } else {
        assert(inputs.subrange(0, n as int) =~= inputs);
    }
}

/// The outputs the user must approve, in order, as address and value:
/// every output that is not the wallet's own; `None` where one of them has
/// no address form.
pub open spec fn shown_outputs(descriptors: Seq<ExtendedDescriptor>, outputs: Seq<TxOutput>, network: Network) -> Option<
    Seq<(Seq<char>, u64)>,
>
    decreases outputs.len(),
{
    if outputs.len() == 0 {
        Some(Seq::empty())
    } else {
        match shown_outputs(descriptors, outputs.drop_last(), network) {
            None => None,
            Some(rest) => {
                let o = outputs.last();
                if is_own_output(descriptors, o) {
                    Some(rest)
                } else {
                    match address_of(o.script_pubkey@, network) {
                        Some(a) => Some(rest.push((a, o.value))),
                        None => None,
                    }
                }
            },
        }
    }
}

pub open spec fn shown_view(outs: Seq<ShownOutput>) -> Seq<(Seq<char>, u64)> {
    outs.map_values(|o: ShownOutput| (o.address@, o.value))
}

/// Whether an output verifies against one of the wallet's descriptors.
pub fn is_own(descriptors: &Vec<ExtendedDescriptor>, out: &TxOutput) -> (r: bool)
    ensures
        r == is_own_output(descriptors@, *out),
{
    let mut i: usize = 0;
    while i < descriptors.len()
        invariant
            i <= descriptors@.len(),
            forall|d: int| 0 <= d < i ==> (#[trigger] output_index(descriptors@[d].keys@, out.origins)) is None,
        decreases descriptors@.len() - i,
    {
        if descriptors[i].derive_from_psbt_output(&out.origins).is_some() {
            return true;
        }
        i = i + 1;
    }
    false
}

/// What the signing flow shows: the fee, and each output that is not the
/// wallet's own with its address; or the error that rejects the request
/// before any signing.
pub fn prepare_sign(
    inputs: &Vec<InputFunding>,
    outputs: &Vec<TxOutput>,
    allow_witness_utxo: bool,
    descriptors: &Vec<ExtendedDescriptor>,
    network: Network,
) -> (r: Result<SignPsbtState, MessageError>)
    ensures
        match (fee_of(inputs@, outputs@, allow_witness_utxo), shown_outputs(descriptors@, outputs@, network)) {
            (Some(f), Some(shown)) => r matches Ok(st) && st.fees == f && shown_view(st.outputs@) == shown,
            _ => r == Err::<SignPsbtState, MessageError>(MessageError::FailedDeserialization),
        },
{
    let fees = match compute_fees(inputs, outputs, allow_witness_utxo) {
        Ok(f) => f,
        Err(e) => {
            return Err(e);
        },
    };
    let mut shown: Vec<ShownOutput> = Vec::new();
    let mut i: usize = 0;
    while i < outputs.len()
        invariant
            i <= outputs@.len(),
            shown_outputs(descriptors@, outputs@.subrange(0, i as int), network) == Some(shown_view(shown@)),
        decreases outputs@.len() - i,
    {
        let ghost sub = outputs@.subrange(0, i + 1);
        assert(sub.drop_last() =~= outputs@.subrange(0, i as int));
        let o = &outputs[i];
        if !is_own(descriptors, o) {
            match address_from_script(&o.script_pubkey, network) {
                Some(address) => {
                    let ghost prev = shown_view(shown@);
                    let so = ShownOutput { address, value: o.value };
                    shown.push(so);
                    assert(shown_view(shown@) =~= prev.push((so.address@, o.value)));
                },
                None => {
                    proof {
                        lemma_shown_fails_later(descriptors@, outputs@, network, (i + 1) as nat);
                    }
                    return Err(MessageError::FailedDeserialization);
                },
            }
        }
        i = i + 1;
    }
    assert(outputs@.subrange(0, outputs@.len() as int) =~= outputs@);
    Ok(SignPsbtState { fees, outputs: shown })
}

proof fn lemma_shown_fails_later(descriptors: Seq<ExtendedDescriptor>, outputs: Seq<TxOutput>, network: Network, n: nat)
    requires
        1 <= n <= outputs.len(),
        shown_outputs(descriptors, outputs.subrange(0, n as int), network) is None,
    ensures
        shown_outputs(descriptors, outputs, network) is None,
    decreases outputs.len() - n,
{
    if n < outputs.len() {
        let sub = outputs.subrange(0, n + 1 as int);
        assert(sub.drop_last() =~= outputs.subrange(0, n as int));
        lemma_shown_fails_later(descriptors, outputs, network, n + 1nat);
    } else {
        assert(outputs.subrange(0, n as int) =~= outputs);
    }
}

} // verus!
