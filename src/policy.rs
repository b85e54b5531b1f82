//! Policy checks of a new wallet descriptor: which keys are this device's
//! own, and whether the proposed descriptor can be accepted.

use bdk_wallet::bitcoin::bip32::{ChildNumber, Xpriv, Xpub};
use bdk_wallet::bitcoin::secp256k1::Secp256k1;
use vstd::prelude::*;

use crate::descriptor::{fingerprint_of, xkey_fingerprint, HARDENED};
use crate::flow::Network;

verus! {

/// Whether an encoded extended public key is a mainnet one; `None` where
/// the bytes are no extended public key.
pub uninterp spec fn mainnet_of(xkey: Seq<u8>) -> Option<bool>;

/// The 78-byte encoding of the extended public key of the extended private
/// key `xprv` derived along `path`; `None` where the key does not decode or
/// derivation fails.
pub uninterp spec fn xpub_at(xprv: Seq<u8>, path: Seq<u32>) -> Option<Seq<u8>>;

/// Relies on bitcoin's `bip32::Xpub::decode`: the network kind comes from
/// the key bytes alone.
#[verifier::external_body]
fn xkey_is_mainnet(xkey: &Vec<u8>) -> (r: Option<bool>)
    ensures
        r == mainnet_of(xkey@),
{
    Xpub::decode(xkey).ok().map(|x| x.network.is_mainnet())
}

/// Relies on bitcoin's `Xpriv::decode`, `Xpriv::derive_priv`,
/// `Xpub::from_priv` and `Xpub::encode`: the result depends on the key bytes
/// and the path alone, and an encoding is 78 bytes long.
#[verifier::external_body]
fn derive_xpub(xprv: &Vec<u8>, path: &Vec<u32>) -> (r: Option<Vec<u8>>)
    ensures
        match r {
            Some(k) => xpub_at(xprv@, path@) == Some(k@) && k@.len() == 78,
            None => xpub_at(xprv@, path@) is None,
        },
{
    let xprv = Xpriv::decode(xprv).ok()?;
    let path: Vec<ChildNumber> = path.iter().map(|c| ChildNumber::from(*c)).collect();
    let secp = Secp256k1::new();
    let derived = xprv.derive_priv(&secp, &path).ok()?;
    Some(Xpub::from_priv(&secp, &derived).encode().to_vec())
}

/// This device's key material: its encoded master private key, the
/// fingerprint of its master key, and its network.
pub struct WalletKeys {
    pub xprv: Vec<u8>,
    pub fingerprint: u32,
    pub network: Network,
}

/// Why a proposed descriptor is refused.
#[derive(Clone, Copy, Debug, PartialEq, Eq, Structural)]
pub enum SetDescriptorError {
    InvalidXpub,
    InvalidKeyNetwork,
    DerivationFailed,
    LocalKeyMissing,
    UnsortedMultisig,
    InvalidThreshold,
    BsmsAddressMismatch,
}

/// The text reported to the requester for each refusal.
pub open spec fn error_text(e: SetDescriptorError) -> Seq<char> {
    match e {
        SetDescriptorError::InvalidXpub => "Invalid xpub"@,
        SetDescriptorError::InvalidKeyNetwork => "Invalid key network"@,
        SetDescriptorError::DerivationFailed => "Error deriving key"@,
        SetDescriptorError::LocalKeyMissing => "Local key missing"@,
        SetDescriptorError::UnsortedMultisig => "Unsorted multisig descriptors are not supported yet"@,
        SetDescriptorError::InvalidThreshold => "Invalid threshold for multisig"@,
        SetDescriptorError::BsmsAddressMismatch => "BSMS address doesn't match"@,
    }
}

impl SetDescriptorError {
    /// The text reported to the requester.
    pub fn message(&self) -> (r: &'static str)
        ensures
            r@ == error_text(*self),
    {
        match self {
            SetDescriptorError::InvalidXpub => "Invalid xpub",
            SetDescriptorError::InvalidKeyNetwork => "Invalid key network",
            SetDescriptorError::DerivationFailed => "Error deriving key",
            SetDescriptorError::LocalKeyMissing => "Local key missing",
            SetDescriptorError::UnsortedMultisig => "Unsorted multisig descriptors are not supported yet",
            SetDescriptorError::InvalidThreshold => "Invalid threshold for multisig",
            SetDescriptorError::BsmsAddressMismatch => "BSMS address doesn't match",
        }
    }
}

/// A key of a proposed descriptor: where it comes from, its 78-byte
/// encoding, and the steps derived after it.
#[derive(Clone, Debug)]
pub struct ExtendedKey {
    pub origin: Option<(u32, Vec<u32>)>,
    pub xkey: Vec<u8>,
    pub path: Vec<u32>,
}

/// The kind of scripts a wallet's addresses use.
#[derive(Clone, Copy, Debug, PartialEq, Eq, Structural)]
pub enum ScriptType {
    Legacy,
    WrappedSegwit,
    NativeSegwit,
    Taproot,
}

/// A proposed descriptor.
#[derive(Clone, Debug)]
pub enum SetDescriptorVariant {
    SingleSig(ExtendedKey),
    MultiSig { threshold: usize, keys: Vec<ExtendedKey>, is_sorted: bool },
}

/// A key of an accepted multisig descriptor: this device's, by its path
/// from the master key, or another signer's.
#[derive(Clone, Debug)]
pub enum MultisigKey {
    Local(Vec<u32>),
    External(ExtendedKey),
}

/// An accepted descriptor.
#[derive(Clone, Debug)]
pub enum DescriptorVariant {
    SingleSig(Vec<u32>),
    MultiSig { threshold: usize, keys: Vec<MultisigKey>, is_sorted: bool },
}

/// The second round of a multisig setup proof: the first address that the
/// co-signers computed.
#[derive(Clone, Debug)]
pub struct BsmsRound2 {
    pub first_address: String,
}

pub open spec fn origin_path(key: ExtendedKey) -> Seq<u32> {
    match key.origin {
        Some((_, p)) => p@,
        None => Seq::empty(),
    }
}

/// The path from the master key to the key, steps after it included.
pub open spec fn full_path(key: ExtendedKey) -> Seq<u32> {
    origin_path(key) + key.path@
}

pub open spec fn has_hardened(path: Seq<u32>) -> bool {
    exists|i: int| 0 <= i < path.len() && path[i] >= HARDENED
}

/// Whether a proposed key is this device's own: it must be a key of the
/// wallet's network, come from the wallet's master key, have no hardened
/// step after it, and be the key that the master key derives along its
/// origin path.
pub open spec fn local_key(key: ExtendedKey, wallet: WalletKeys) -> Result<bool, SetDescriptorError> {
    match mainnet_of(key.xkey@) {
        None => Err(SetDescriptorError::InvalidXpub),
        Some(main) => if main != (wallet.network == Network::Bitcoin) {
            Err(SetDescriptorError::InvalidKeyNetwork)
        } else {
            let fp = match key.origin {
                Some((fp, _)) => Some(fp),
                None => fingerprint_of(key.xkey@),
            };
            match fp {
                None => Err(SetDescriptorError::InvalidXpub),
                Some(fp) => if fp != wallet.fingerprint || has_hardened(key.path@) {
                    Ok(false)
                } else {
                    match xpub_at(wallet.xprv@, origin_path(key)) {
                        None => Err(SetDescriptorError::DerivationFailed),
                        Some(d) => Ok(d == key.xkey@),
                    }
                },
            }
        },
    }
}

/// Which of the keys are this device's own, in order; the first error met.
pub open spec fn local_flags(keys: Seq<ExtendedKey>, wallet: WalletKeys) -> Result<Seq<bool>, SetDescriptorError>
    decreases keys.len(),
{
    if keys.len() == 0 {
        Ok(Seq::empty())
    } else {
        match local_flags(keys.drop_last(), wallet) {
            Err(e) => Err(e),
            Ok(fs) => match local_key(keys.last(), wallet) {
                Err(e) => Err(e),
                Ok(b) => Ok(fs.push(b)),
            },
        }
    }
}

/// The outcome of the checks: which keys are local, or why the descriptor
/// is refused.
pub open spec fn check_outcome(variant: SetDescriptorVariant, wallet: WalletKeys) -> Result<Seq<bool>, SetDescriptorError> {
    match variant {
        SetDescriptorVariant::SingleSig(key) => match local_key(key, wallet) {
            Err(e) => Err(e),
            Ok(true) => Ok(seq![true]),
            Ok(false) => Err(SetDescriptorError::LocalKeyMissing),
        },
        SetDescriptorVariant::MultiSig { threshold, keys, is_sorted } => if !is_sorted {
            Err(SetDescriptorError::UnsortedMultisig)
        } else if threshold > keys@.len() {
            Err(SetDescriptorError::InvalidThreshold)
        } else {
            match local_flags(keys@, wallet) {
                Err(e) => Err(e),
                Ok(fs) => if fs.contains(true) {
                    Ok(fs)
                } else {
                    Err(SetDescriptorError::LocalKeyMissing)
                },
            }
        },
    }
}

pub open spec fn same_key(a: ExtendedKey, b: ExtendedKey) -> bool {
    &&& a.xkey@ == b.xkey@
    &&& a.path@ == b.path@
    &&& match (a.origin, b.origin) {
        (Some((fa, pa)), Some((fb, pb))) => fa == fb && pa@ == pb@,
        (None, None) => true,
        _ => false,
    }
}

/// An accepted descriptor keeps the proposal's shape, with each key the
/// checks found local given by its full path and each other key kept.
pub open spec fn accepted_as(v: DescriptorVariant, variant: SetDescriptorVariant, flags: Seq<bool>) -> bool {
    match (v, variant) {
        (DescriptorVariant::SingleSig(p), SetDescriptorVariant::SingleSig(key)) => p@ == full_path(key),
        (
            DescriptorVariant::MultiSig { threshold: t, keys: ks, is_sorted: s },
            SetDescriptorVariant::MultiSig { threshold, keys, is_sorted },
        ) => {
            &&& t == threshold
            &&& s == is_sorted
            &&& ks@.len() == keys@.len()
            &&& flags.len() == keys@.len()
            &&& forall|i: int|
                0 <= i < ks@.len() ==> match #[trigger] ks@[i] {
                    MultisigKey::Local(p) => flags[i] && p@ == full_path(keys@[i]),
                    MultisigKey::External(k) => !flags[i] && same_key(k, keys@[i]),
                }
        },
        _ => false,
    }
}

fn copy_u32s(v: &Vec<u32>) -> (r: Vec<u32>)
    ensures
        r@ == v@,
{
    let r = v.clone();
    assert(r@ =~= v@);
    r
}

fn copy_key(k: &ExtendedKey) -> (r: ExtendedKey)
    ensures
        same_key(r, *k),
{
    let xkey = k.xkey.clone();
    assert(xkey@ =~= k.xkey@);
    let origin = match &k.origin {
        Some((fp, p)) => Some((*fp, copy_u32s(p))),
        None => None,
    };
    ExtendedKey { origin, xkey, path: copy_u32s(&k.path) }
}

fn bytes_equal(a: &Vec<u8>, b: &Vec<u8>) -> (r: bool)
    ensures
        r == (a@ == b@),
{
    crate::order::compare(a, b) == 0
}

impl WalletKeys {
    /// The fingerprint is that of the master key that `xprv` encodes.
    pub open spec fn wf(&self) -> bool {
        xpub_at(self.xprv@, Seq::empty()) matches Some(m) && fingerprint_of(m) == Some(self.fingerprint)
    }

    /// The key material of an encoded master private key; `None` exactly
    /// where it does not decode.
    pub fn new(xprv: Vec<u8>, network: Network) -> (r: Option<WalletKeys>)
        ensures
            r matches Some(w) ==> w.wf(),
            (xpub_at(xprv@, Seq::empty()) matches Some(m) && fingerprint_of(m) is Some) ==> r is Some,
            r matches Some(w) ==> (w.xprv@ == xprv@ && w.network == network && (xpub_at(
                xprv@,
                Seq::empty(),
            ) matches Some(m) && Some(w.fingerprint) == fingerprint_of(m))),
    {
        let empty: Vec<u32> = Vec::new();
        let master = match derive_xpub(&xprv, &empty) {
            Some(m) => m,
            None => {
                return None;
            },
        };
        assert(empty@ =~= Seq::<u32>::empty());
        let fingerprint = match xkey_fingerprint(&master) {
            Some(f) => f,
            None => {
                return None;
            },
        };
        Some(WalletKeys { xprv, fingerprint, network })
    }
}

fn any_hardened(path: &Vec<u32>) -> (r: bool)
    ensures
        r == has_hardened(path@),
{
    let mut i: usize = 0;
    while i < path.len()
        invariant
            i <= path@.len(),
            forall|j: int| 0 <= j < i ==> path@[j] < HARDENED,
        decreases path@.len() - i,
    {
        if path[i] >= HARDENED {
            assert(path@[i as int] >= HARDENED);
            return true;
        }
        i = i + 1;
    }
    false
}

/// Whether a proposed key is this device's own.
pub fn is_local_key(key: &ExtendedKey, wallet: &WalletKeys) -> (r: Result<bool, SetDescriptorError>)
    requires
        wallet.wf(),
    ensures
        r == local_key(*key, *wallet),
{
    let main = match xkey_is_mainnet(&key.xkey) {
        Some(m) => m,
        None => {
            return Err(SetDescriptorError::InvalidXpub);
        },
    };
    if main != (wallet.network == Network::Bitcoin) {
        return Err(SetDescriptorError::InvalidKeyNetwork);
    }
    let fp = match &key.origin {
        Some((fp, _)) => *fp,
        None => match xkey_fingerprint(&key.xkey) {
            Some(f) => f,
            None => {
                return Err(SetDescriptorError::InvalidXpub);
            },
        },
    };
    if fp != wallet.fingerprint {
        return Ok(false);
    }
    if any_hardened(&key.path) {
        return Ok(false);
    }
    let empty: Vec<u32> = Vec::new();
    let derived = match &key.origin {
        Some((_, p)) => derive_xpub(&wallet.xprv, p),
        None => derive_xpub(&wallet.xprv, &empty),
    };
    assert(empty@ =~= Seq::<u32>::empty());
    match derived {
        Some(d) => Ok(bytes_equal(&d, &key.xkey)),
        None => Err(SetDescriptorError::DerivationFailed),
    }
}

/// Checks a proposed descriptor against this device's keys: a single-key
/// descriptor must use a local key; a multisig one must be sorted, have a
/// threshold no larger than its key count, and hold at least one local key.
pub fn check_descriptor_variant(variant: &SetDescriptorVariant, wallet: &WalletKeys) -> (r: Result<DescriptorVariant, SetDescriptorError>)
    requires
        wallet.wf(),
    ensures
        match check_outcome(*variant, *wallet) {
            Ok(flags) => r matches Ok(v) && accepted_as(v, *variant, flags),
            Err(e) => r == Err::<DescriptorVariant, SetDescriptorError>(e),
        },
{
    match variant {
        SetDescriptorVariant::SingleSig(key) => {
            match is_local_key(key, wallet) {
                Err(e) => Err(e),
                Ok(true) => {
                    let p = match &key.origin {
                        Some((_, o)) => crate::descriptor::concat_u32(o, &key.path, 0),
                        None => crate::descriptor::concat_u32(&Vec::new(), &key.path, 0),
                    };
                    assert(key.path@.subrange(0, key.path@.len() as int) =~= key.path@);
                    assert(p@ =~= full_path(*key));
                    Ok(DescriptorVariant::SingleSig(p))
                },
                Ok(false) => Err(SetDescriptorError::LocalKeyMissing),
            }
        },
        SetDescriptorVariant::MultiSig { threshold, keys, is_sorted } => {
            if !*is_sorted {
                return Err(SetDescriptorError::UnsortedMultisig);
            }
            if *threshold > keys.len() {
                return Err(SetDescriptorError::InvalidThreshold);
            }
            let mut out: Vec<MultisigKey> = Vec::new();
            let mut any_local = false;
            let mut i: usize = 0;
            while i < keys.len()
                invariant
                    i <= keys@.len(),
                    *variant == (SetDescriptorVariant::MultiSig { threshold: *threshold, keys: *keys, is_sorted: *is_sorted }),
                    *is_sorted,
                    *threshold <= keys@.len(),
                    wallet.wf(),
                    out@.len() == i,
                    local_flags(keys@.subrange(0, i as int), *wallet) matches Ok(fs) && fs.len() == i && (any_local <==> fs.contains(true))
                        && forall|j: int|
                        0 <= j < i ==> match #[trigger] out@[j] {
                            MultisigKey::Local(p) => fs[j] && p@ == full_path(keys@[j]),
                            MultisigKey::External(k) => !fs[j] && same_key(k, keys@[j]),
                        },
                decreases keys@.len() - i,
            {
                let ghost sub = keys@.subrange(0, i + 1);
                assert(sub.drop_last() =~= keys@.subrange(0, i as int));
                let ghost fs = local_flags(keys@.subrange(0, i as int), *wallet)->Ok_0;
                let key = &keys[i];
                assert(sub.last() == *key);
                match is_local_key(key, wallet) {
                    Err(e) => {
                        assert(local_flags(sub, *wallet) == Err::<Seq<bool>, SetDescriptorError>(e));
                        proof {
                            lemma_flags_fail_later(keys@, *wallet, (i + 1) as nat);
                        }
                        assert(local_flags(keys@, *wallet) == Err::<Seq<bool>, SetDescriptorError>(e));
                        assert(check_outcome(*variant, *wallet) == Err::<Seq<bool>, SetDescriptorError>(e));
                        return Err(e);
                    },
                    Ok(local) => {
                        let ghost nfs = fs.push(local);
                        assert(local_flags(sub, *wallet) == Ok::<Seq<bool>, SetDescriptorError>(nfs));
                        if local {
                            let p = match &key.origin {
                                Some((_, o)) => crate::descriptor::concat_u32(o, &key.path, 0),
                                None => crate::descriptor::concat_u32(&Vec::new(), &key.path, 0),
                            };
                            assert(key.path@.subrange(0, key.path@.len() as int) =~= key.path@);
                            assert(p@ =~= full_path(*key));
                            out.push(MultisigKey::Local(p));
                            any_local = true;
                        } else {
                            out.push(MultisigKey::External(copy_key(key)));
                        }
                        assert(nfs[i as int] == local);
                        assert forall|j: int| 0 <= j < i implies nfs[j] == fs[j] by {}
                        assert(any_local <==> nfs.contains(true)) by {
                            if fs.contains(true) {
                                let w = choose|w: int| 0 <= w < fs.len() && fs[w] == true;
                                assert(nfs[w] == true);
                            }
                            if nfs.contains(true) && !local {
                                let w = choose|w: int| 0 <= w < nfs.len() && nfs[w] == true;
                                assert(fs[w] == true);
                            }
                        }
                    },
                }
                i = i + 1;
            }
            assert(keys@.subrange(0, keys@.len() as int) =~= keys@);
            if !any_local {
                return Err(SetDescriptorError::LocalKeyMissing);
            }
            Ok(DescriptorVariant::MultiSig { threshold: *threshold, keys: out, is_sorted: *is_sorted })
        },
    }
}

proof fn lemma_flags_fail_later(keys: Seq<ExtendedKey>, wallet: WalletKeys, n: nat)
    requires
        1 <= n <= keys.len(),
        local_flags(keys.subrange(0, n as int), wallet) is Err,
    ensures
        local_flags(keys, wallet) == local_flags(keys.subrange(0, n as int), wallet),
    decreases keys.len() - n,
{
    if n < keys.len() {
        let sub = keys.subrange(0, n + 1 as int);
        assert(sub.drop_last() =~= keys.subrange(0, n as int));
        lemma_flags_fail_later(keys, wallet, n + 1nat);
    } else {
        assert(keys.subrange(0, n as int) =~= keys);
    }
}

/// Checks the co-signers' first address, when they sent one, against the
/// first address of the new wallet.
pub fn check_bsms(bsms: &Option<BsmsRound2>, first_address: &String) -> (r: Result<(), SetDescriptorError>)
    ensures
        match bsms {
            Some(b) => if b.first_address@ == first_address@ {
                r is Ok
            } else {
                r == Err::<(), SetDescriptorError>(SetDescriptorError::BsmsAddressMismatch)
            },
            None => r is Ok,
        },
{
    match bsms {
        Some(b) => {
            if b.first_address == *first_address {
                Ok(())
            } else {
                Err(SetDescriptorError::BsmsAddressMismatch)
            }
        },
        None => Ok(()),
    }
}

} // verus!
