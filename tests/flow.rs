use bdk_wallet::bitcoin::bip32::{ChildNumber, Xpriv, Xpub};
use bdk_wallet::bitcoin::secp256k1::Secp256k1;
use bdk_wallet::bitcoin::{Address, NetworkKind, ScriptBuf};
use portal_core::descriptor::{DescriptorPublicKey, DescriptorType, DescriptorXKey, ExtendedDescriptor, HdKeyPath, PsbtOutput, Wildcard};
use portal_core::flow::{compute_fees, prepare_sign, InputFunding, MessageError, Network, PrevTx, TxOutput};

const H: u32 = 0x8000_0000;

fn account(seed: u8) -> (u32, Xpub) {
    let secp = Secp256k1::new();
    let m = Xpriv::new_master(NetworkKind::Main, &[seed; 32]).unwrap();
    let path: Vec<ChildNumber> = [84 | H, H, H].iter().map(|c| ChildNumber::from(*c)).collect();
    let fp = u32::from_be_bytes(m.fingerprint(&secp).to_bytes());
    (fp, Xpub::from_priv(&secp, &m.derive_priv(&secp, &path).unwrap()))
}

fn wallet_descriptor(seed: u8, change: u32) -> ExtendedDescriptor {
    let (fp, xpub) = account(seed);
    ExtendedDescriptor {
        desc_type: DescriptorType::Wpkh,
        keys: vec![DescriptorPublicKey::XPub(DescriptorXKey {
            origin: Some((fp, vec![84 | H, H, H])),
            xkey: xpub.encode().to_vec(),
            derivation_path: vec![change],
            wildcard: Wildcard::Unhardened,
        })],
    }
}

fn child(seed: u8, change: u32, index: u32) -> Xpub {
    let secp = Secp256k1::verification_only();
    account(seed).1.derive_pub(&secp, &[ChildNumber::from(change), ChildNumber::from(index)]).unwrap()
}

fn p2wpkh(x: &Xpub) -> Vec<u8> {
    ScriptBuf::new_p2wpkh(&x.to_pub().wpubkey_hash()).to_bytes()
}

fn no_origins() -> PsbtOutput {
    PsbtOutput { bip32_derivation: vec![], tap_key_origins: vec![] }
}

fn witness_input(value: u64) -> InputFunding {
    InputFunding { prevout_txid: vec![1; 32], prevout_vout: 0, non_witness_utxo: None, witness_utxo_value: Some(value) }
}

fn plain_output(value: u64) -> TxOutput {
    TxOutput { value, script_pubkey: vec![], origins: no_origins() }
}

#[test]
fn input_without_utxo_is_rejected() {
    let inputs = vec![witness_input(5000), InputFunding { prevout_txid: vec![1; 32], prevout_vout: 0, non_witness_utxo: None, witness_utxo_value: None }];
    assert_eq!(compute_fees(&inputs, &vec![plain_output(1)], true), Err(MessageError::FailedDeserialization));
    let r = prepare_sign(&inputs, &vec![plain_output(1)], true, &vec![], Network::Bitcoin);
    assert!(matches!(r, Err(MessageError::FailedDeserialization)));
}

#[test]
fn witness_utxo_needs_permission() {
    let inputs = vec![witness_input(5000)];
    assert_eq!(compute_fees(&inputs, &vec![plain_output(1000)], false), Err(MessageError::FailedDeserialization));
    assert_eq!(compute_fees(&inputs, &vec![plain_output(1000)], true), Ok(4000));
}

#[test]
fn previous_transaction_must_match_outpoint() {
    let prev = PrevTx { txid: vec![7; 32], output_values: vec![1000, 2000] };
    let good = InputFunding { prevout_txid: vec![7; 32], prevout_vout: 1, non_witness_utxo: Some(prev.clone()), witness_utxo_value: None };
    assert_eq!(compute_fees(&vec![good.clone()], &vec![plain_output(1500)], false), Ok(500));
    let wrong_txid = InputFunding { prevout_txid: vec![8; 32], ..good.clone() };
    assert_eq!(compute_fees(&vec![wrong_txid], &vec![plain_output(1500)], false), Err(MessageError::FailedDeserialization));
    let wrong_vout = InputFunding { prevout_vout: 2, ..good.clone() };
    assert_eq!(compute_fees(&vec![wrong_vout], &vec![plain_output(1500)], false), Err(MessageError::FailedDeserialization));
    let with_both = InputFunding { witness_utxo_value: Some(99_999), ..good };
    assert_eq!(compute_fees(&vec![with_both], &vec![plain_output(1500)], true), Ok(500));
}

#[test]
fn fee_arithmetic_errors_are_rejected() {
    let inputs = vec![witness_input(u64::MAX), witness_input(1)];
    assert_eq!(compute_fees(&inputs, &vec![], true), Err(MessageError::FailedDeserialization));
    assert_eq!(compute_fees(&vec![witness_input(10)], &vec![plain_output(11)], true), Err(MessageError::FailedDeserialization));
    assert_eq!(compute_fees(&vec![witness_input(10)], &vec![plain_output(u64::MAX), plain_output(1)], true), Err(MessageError::FailedDeserialization));
    assert_eq!(compute_fees(&vec![witness_input(10)], &vec![plain_output(10)], true), Ok(0));
    assert_eq!(compute_fees(&vec![], &vec![], true), Ok(0));
}

#[test]
fn own_output_is_not_shown() {
    let descriptors = vec![wallet_descriptor(1, 0), wallet_descriptor(1, 1)];
    let (fp, _) = account(1);
    let own_key = child(1, 0, 5);
    let own = TxOutput {
        value: 10_000,
        script_pubkey: p2wpkh(&own_key),
        origins: PsbtOutput {
            bip32_derivation: vec![HdKeyPath { pubkey: own_key.public_key.serialize().to_vec(), fingerprint: fp, path: vec![84 | H, H, H, 0, 5] }],
            tap_key_origins: vec![],
        },
    };
    let foreign_script = p2wpkh(&child(2, 0, 0));
    let foreign = TxOutput { value: 20_000, script_pubkey: foreign_script.clone(), origins: no_origins() };
    let state = prepare_sign(&vec![witness_input(35_000)], &vec![own, foreign], true, &descriptors, Network::Bitcoin).unwrap();
    assert_eq!(state.fees, 5_000);
    assert_eq!(state.outputs.len(), 1);
    let expected = Address::from_script(ScriptBuf::from_bytes(foreign_script).as_script(), bdk_wallet::bitcoin::Network::Bitcoin).unwrap().to_string();
    assert_eq!(state.outputs[0].address, expected);
    assert!(state.outputs[0].address.starts_with("bc1q"));
    assert_eq!(state.outputs[0].value, 20_000);
}

#[test]
fn output_with_no_address_is_rejected() {
    let out = TxOutput { value: 1, script_pubkey: vec![0x6a, 0x01], origins: no_origins() };
    let r = prepare_sign(&vec![witness_input(10)], &vec![out], true, &vec![], Network::Bitcoin);
    assert!(matches!(r, Err(MessageError::FailedDeserialization)));
}
