use bdk_wallet::bitcoin::bip32::{ChildNumber, Xpriv, Xpub};
use bdk_wallet::bitcoin::secp256k1::Secp256k1;
use bdk_wallet::bitcoin::NetworkKind;
use portal_core::descriptor::{
    DescriptorPublicKey, DescriptorType, DescriptorXKey, ExtendedDescriptor, HdKeyPath, KeyOrigin, PsbtOutput, SinglePubKey,
    TapKeyOrigin, Wildcard,
};

const H: u32 = 0x8000_0000;

fn master(seed: u8) -> Xpriv {
    Xpriv::new_master(NetworkKind::Main, &[seed; 32]).unwrap()
}

fn fingerprint(seed: u8) -> u32 {
    let secp = Secp256k1::new();
    u32::from_be_bytes(master(seed).fingerprint(&secp).to_bytes())
}

fn account_xpub(seed: u8) -> Xpub {
    let secp = Secp256k1::new();
    let path: Vec<ChildNumber> = [84 | H, H, H].iter().map(|c| ChildNumber::from(*c)).collect();
    Xpub::from_priv(&secp, &master(seed).derive_priv(&secp, &path).unwrap())
}

fn child_key(seed: u8, change: u32, index: u32) -> Vec<u8> {
    let secp = Secp256k1::verification_only();
    let path = [ChildNumber::from(change), ChildNumber::from(index)];
    account_xpub(seed).derive_pub(&secp, &path).unwrap().public_key.serialize().to_vec()
}

fn wildcard_key(seed: u8, change: u32) -> DescriptorXKey {
    DescriptorXKey {
        origin: Some((fingerprint(seed), vec![84 | H, H, H])),
        xkey: account_xpub(seed).encode().to_vec(),
        derivation_path: vec![change],
        wildcard: Wildcard::Unhardened,
    }
}

fn descriptor(keys: Vec<DescriptorXKey>) -> ExtendedDescriptor {
    ExtendedDescriptor { desc_type: DescriptorType::Wpkh, keys: keys.into_iter().map(DescriptorPublicKey::XPub).collect() }
}

fn hd(seed: u8, pubkey: Vec<u8>, change: u32, index: u32) -> HdKeyPath {
    HdKeyPath { pubkey, fingerprint: fingerprint(seed), path: vec![84 | H, H, H, change, index] }
}

#[test]
fn matching_claim_verifies_at_its_index() {
    let d = descriptor(vec![wildcard_key(1, 0)]);
    assert_eq!(d.derive_from_hd_keypaths(&vec![hd(1, child_key(1, 0, 5), 0, 5)]), Some(5));
}

#[test]
fn right_fingerprint_and_path_with_wrong_key_is_refused() {
    let d = descriptor(vec![wildcard_key(1, 0)]);
    assert_eq!(d.derive_from_hd_keypaths(&vec![hd(1, child_key(1, 0, 6), 0, 5)]), None);
    assert_eq!(d.derive_from_hd_keypaths(&vec![hd(1, child_key(2, 0, 5), 0, 5)]), None);
}

#[test]
fn claim_on_other_branch_or_root_is_refused() {
    let d = descriptor(vec![wildcard_key(1, 0)]);
    assert_eq!(d.derive_from_hd_keypaths(&vec![hd(1, child_key(1, 1, 5), 1, 5)]), None);
    assert_eq!(d.derive_from_hd_keypaths(&vec![hd(2, child_key(1, 0, 5), 0, 5)]), None);
    assert_eq!(d.derive_from_hd_keypaths(&vec![]), None);
}

#[test]
fn hardened_wildcard_step_is_refused() {
    let d = descriptor(vec![wildcard_key(1, 0)]);
    assert_eq!(d.derive_from_hd_keypaths(&vec![hd(1, child_key(1, 0, 5), 0, 5 | H)]), None);
}

#[test]
fn extra_steps_are_refused() {
    let d = descriptor(vec![wildcard_key(1, 0)]);
    let mut claim = hd(1, child_key(1, 0, 5), 0, 5);
    claim.path.push(1);
    assert_eq!(d.derive_from_hd_keypaths(&vec![claim]), None);
}

#[test]
fn x_only_claim_verifies() {
    let d = descriptor(vec![wildcard_key(1, 0)]);
    let full = child_key(1, 0, 9);
    let tap = TapKeyOrigin { xonly: full[1..33].to_vec(), fingerprint: fingerprint(1), path: vec![84 | H, H, H, 0, 9] };
    assert_eq!(d.derive_from_tap_key_origins(&vec![tap.clone()]), Some(9));
    let out = PsbtOutput { bip32_derivation: vec![], tap_key_origins: vec![tap] };
    assert_eq!(d.derive_from_psbt_output(&out), Some(9));
    let bad = TapKeyOrigin { xonly: full[0..32].to_vec(), fingerprint: fingerprint(1), path: vec![84 | H, H, H, 0, 9] };
    assert_eq!(d.derive_from_tap_key_origins(&vec![bad]), None);
}

#[test]
fn fixed_key_verifies_at_zero() {
    let k = DescriptorXKey {
        origin: Some((fingerprint(1), vec![84 | H, H, H])),
        xkey: account_xpub(1).encode().to_vec(),
        derivation_path: vec![0, 3],
        wildcard: Wildcard::Fixed,
    };
    let d = descriptor(vec![k]);
    assert_eq!(d.derive_from_hd_keypaths(&vec![hd(1, child_key(1, 0, 3), 0, 3)]), Some(0));
}

#[test]
fn key_without_origin_uses_its_own_fingerprint() {
    let xpub = account_xpub(1);
    let k = DescriptorXKey { origin: None, xkey: xpub.encode().to_vec(), derivation_path: vec![0], wildcard: Wildcard::Unhardened };
    let fp = u32::from_be_bytes(xpub.fingerprint().to_bytes());
    let claim = KeyOrigin { fingerprint: fp, path: vec![0, 4], key: SinglePubKey::FullKey(child_key(1, 0, 4)) };
    assert_eq!(k.index_for_claims(&vec![claim]), Some(4));
}

#[test]
fn later_claim_for_a_root_replaces_earlier() {
    let d = descriptor(vec![wildcard_key(1, 0)]);
    let good = hd(1, child_key(1, 0, 5), 0, 5);
    let bad = hd(1, child_key(1, 0, 6), 0, 5);
    assert_eq!(d.derive_from_hd_keypaths(&vec![good.clone(), bad.clone()]), None);
    assert_eq!(d.derive_from_hd_keypaths(&vec![bad, good]), Some(5));
}

#[test]
fn keys_must_agree_on_index() {
    let d = descriptor(vec![wildcard_key(1, 0), wildcard_key(2, 0)]);
    let agree = vec![hd(1, child_key(1, 0, 5), 0, 5), hd(2, child_key(2, 0, 5), 0, 5)];
    assert_eq!(d.derive_from_hd_keypaths(&agree), Some(5));
    let disagree = vec![hd(1, child_key(1, 0, 5), 0, 5), hd(2, child_key(2, 0, 7), 0, 7)];
    assert_eq!(d.derive_from_hd_keypaths(&disagree), None);
    let one = vec![hd(2, child_key(2, 0, 7), 0, 7)];
    assert_eq!(d.derive_from_hd_keypaths(&one), Some(7));
}

#[test]
fn descriptor_kinds_and_extended_keys() {
    let mut d = descriptor(vec![wildcard_key(1, 0)]);
    d.keys.insert(0, DescriptorPublicKey::Single(vec![2; 33]));
    assert_eq!(d.get_extended_keys(), vec![1]);
    assert!(d.is_witness());
    assert!(!d.is_taproot());
    d.desc_type = DescriptorType::Tr;
    assert!(d.is_taproot());
    assert!(!d.is_witness());
    d.desc_type = DescriptorType::ShWshSortedMulti;
    assert!(d.is_witness());
    d.desc_type = DescriptorType::Pkh;
    assert!(!d.is_witness());
}
