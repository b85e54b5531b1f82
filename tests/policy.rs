use bdk_wallet::bitcoin::bip32::{ChildNumber, Xpriv, Xpub};
use bdk_wallet::bitcoin::secp256k1::Secp256k1;
use bdk_wallet::bitcoin::NetworkKind;
use portal_core::flow::Network;
use portal_core::policy::{
    check_bsms, check_descriptor_variant, is_local_key, BsmsRound2, DescriptorVariant, ExtendedKey, MultisigKey, SetDescriptorError,
    SetDescriptorVariant, WalletKeys,
};

const H: u32 = 0x8000_0000;

fn master(seed: u8) -> Xpriv {
    Xpriv::new_master(NetworkKind::Main, &[seed; 32]).unwrap()
}

fn key_of(seed: u8, origin: &[u32]) -> ExtendedKey {
    let secp = Secp256k1::new();
    let m = master(seed);
    let path: Vec<ChildNumber> = origin.iter().map(|c| ChildNumber::from(*c)).collect();
    let xpub = Xpub::from_priv(&secp, &m.derive_priv(&secp, &path).unwrap());
    ExtendedKey {
        origin: Some((u32::from_be_bytes(m.fingerprint(&secp).to_bytes()), origin.to_vec())),
        xkey: xpub.encode().to_vec(),
        path: vec![],
    }
}

fn wallet(network: Network) -> WalletKeys {
    WalletKeys::new(master(1).encode().to_vec(), network).unwrap()
}

const MULTISIG: [u32; 4] = [48 | H, H, H, 2 | H];

#[test]
fn wallet_fingerprint_is_master_fingerprint() {
    let secp = Secp256k1::new();
    let w = wallet(Network::Bitcoin);
    assert_eq!(w.fingerprint, u32::from_be_bytes(master(1).fingerprint(&secp).to_bytes()));
    assert!(WalletKeys::new(vec![1, 2, 3], Network::Bitcoin).is_none());
}

#[test]
fn local_key_detection() {
    let w = wallet(Network::Bitcoin);
    assert_eq!(is_local_key(&key_of(1, &MULTISIG), &w), Ok(true));
    assert_eq!(is_local_key(&key_of(2, &MULTISIG), &w), Ok(false));
    let mut hardened_after = key_of(1, &MULTISIG);
    hardened_after.path = vec![0, 1 | H];
    assert_eq!(is_local_key(&hardened_after, &w), Ok(false));
    let mut forged = key_of(2, &MULTISIG);
    forged.origin = key_of(1, &MULTISIG).origin;
    assert_eq!(is_local_key(&forged, &w), Ok(false));
    let mut garbage = key_of(1, &MULTISIG);
    garbage.xkey = vec![0; 10];
    assert_eq!(is_local_key(&garbage, &w), Err(SetDescriptorError::InvalidXpub));
    assert_eq!(is_local_key(&key_of(1, &MULTISIG), &wallet(Network::Testnet)), Err(SetDescriptorError::InvalidKeyNetwork));
}

#[test]
fn multisig_with_one_local_key_is_accepted() {
    let w = wallet(Network::Bitcoin);
    let variant = SetDescriptorVariant::MultiSig { threshold: 2, keys: vec![key_of(2, &MULTISIG), key_of(1, &MULTISIG), key_of(3, &MULTISIG)], is_sorted: true };
    match check_descriptor_variant(&variant, &w).unwrap() {
        DescriptorVariant::MultiSig { threshold, keys, is_sorted } => {
            assert_eq!(threshold, 2);
            assert!(is_sorted);
            assert_eq!(keys.len(), 3);
            assert!(matches!(&keys[0], MultisigKey::External(k) if k.xkey == key_of(2, &MULTISIG).xkey));
            assert!(matches!(&keys[1], MultisigKey::Local(p) if p == &MULTISIG.to_vec()));
            assert!(matches!(&keys[2], MultisigKey::External(_)));
        }
        _ => panic!("expected a multisig descriptor"),
    }
    let first = String::from("bc1qexamplefirstaddress");
    assert_eq!(check_bsms(&Some(BsmsRound2 { first_address: first.clone() }), &first), Ok(()));
    assert_eq!(
        check_bsms(&Some(BsmsRound2 { first_address: String::from("bc1qsomethingelse") }), &first),
        Err(SetDescriptorError::BsmsAddressMismatch)
    );
    assert_eq!(check_bsms(&None, &first), Ok(()));
}

#[test]
fn multisig_refusals() {
    let w = wallet(Network::Bitcoin);
    let keys = vec![key_of(2, &MULTISIG), key_of(1, &MULTISIG), key_of(3, &MULTISIG)];
    let unsorted = SetDescriptorVariant::MultiSig { threshold: 2, keys: keys.clone(), is_sorted: false };
    assert!(matches!(check_descriptor_variant(&unsorted, &w), Err(SetDescriptorError::UnsortedMultisig)));
    let too_high = SetDescriptorVariant::MultiSig { threshold: 4, keys: keys.clone(), is_sorted: true };
    assert!(matches!(check_descriptor_variant(&too_high, &w), Err(SetDescriptorError::InvalidThreshold)));
    let foreign = SetDescriptorVariant::MultiSig { threshold: 2, keys: vec![key_of(2, &MULTISIG), key_of(3, &MULTISIG)], is_sorted: true };
    assert!(matches!(check_descriptor_variant(&foreign, &w), Err(SetDescriptorError::LocalKeyMissing)));
    let mut bad = keys;
    bad[2].xkey = vec![1; 78];
    let invalid = SetDescriptorVariant::MultiSig { threshold: 2, keys: bad, is_sorted: true };
    assert!(matches!(check_descriptor_variant(&invalid, &w), Err(SetDescriptorError::InvalidXpub)));
}

#[test]
fn single_sig_needs_local_key() {
    let w = wallet(Network::Bitcoin);
    let mut local = key_of(1, &[84 | H, H, H]);
    local.path = vec![0];
    match check_descriptor_variant(&SetDescriptorVariant::SingleSig(local), &w) {
        Ok(DescriptorVariant::SingleSig(p)) => assert_eq!(p, vec![84 | H, H, H, 0]),
        _ => panic!("expected a single-key descriptor"),
    }
    let other = SetDescriptorVariant::SingleSig(key_of(2, &[84 | H, H, H]));
    assert!(matches!(check_descriptor_variant(&other, &w), Err(SetDescriptorError::LocalKeyMissing)));
    assert_eq!(SetDescriptorError::LocalKeyMissing.message(), "Local key missing");
    assert_eq!(SetDescriptorError::BsmsAddressMismatch.message(), "BSMS address doesn't match");
    assert_eq!(SetDescriptorError::InvalidThreshold.message(), "Invalid threshold for multisig");
}
