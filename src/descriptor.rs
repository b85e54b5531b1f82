//! Descriptor key-origin verification: decides whether an output's claimed
//! key origins name keys that this wallet's descriptor really derives, and
//! at which index.

use bdk_wallet::bitcoin::bip32::{ChildNumber, Xpub};
use bdk_wallet::bitcoin::secp256k1::Secp256k1;
use vstd::prelude::*;

verus! {

/// The fingerprint of an extended public key given in its 78-byte encoding:
/// the first four bytes, big-endian, of the HASH160 of its public key;
/// `None` where the bytes are no extended public key.
pub uninterp spec fn fingerprint_of(xkey: Seq<u8>) -> Option<u32>;

/// The 33-byte compressed public key reached from an extended public key by
/// public derivation along `path`; `None` where the key does not decode or
/// derivation fails.
pub uninterp spec fn derived_key_of(xkey: Seq<u8>, path: Seq<u32>) -> Option<Seq<u8>>;

/// Lowest child number of a hardened step.
pub const HARDENED: u32 = 0x8000_0000;

/// Relies on bitcoin's `bip32::Xpub::decode` and `Xpub::fingerprint`: the
/// fingerprint depends on the key bytes alone.
#[verifier::external_body]
pub(crate) fn xkey_fingerprint(xkey: &Vec<u8>) -> (r: Option<u32>)
    ensures
        r == fingerprint_of(xkey@),
{
    Xpub::decode(xkey).ok().map(
        |x| u32::from_be_bytes(x.fingerprint().to_bytes()),
    )
}

/// Relies on bitcoin's `bip32::Xpub::decode` and `Xpub::derive_pub`, and on
/// secp256k1's `PublicKey::serialize`: the derived key depends on the key
/// bytes and the path alone, public derivation fails at any hardened step,
/// and a serialized key is 33 bytes long.
#[verifier::external_body]
fn derive_public_key(xkey: &Vec<u8>, path: &Vec<u32>) -> (r: Option<Vec<u8>>)
    ensures
        match r {
            Some(k) => derived_key_of(xkey@, path@) == Some(k@) && k@.len() == 33,
            None => derived_key_of(xkey@, path@) is None,
        },
        (exists|i: int| 0 <= i < path@.len() && path@[i] >= HARDENED) ==> r is None,
{
    let xpub = Xpub::decode(xkey).ok()?;
    let path: Vec<ChildNumber> = path.iter().map(|c| ChildNumber::from(*c)).collect();
    let secp = Secp256k1::verification_only();
    xpub.derive_pub(&secp, &path).ok().map(|k| k.public_key.serialize().to_vec())
}

/// Whether a key is followed by a wildcard step, and of which kind.
#[derive(Clone, Copy, Debug, PartialEq, Eq, Structural)]
pub enum Wildcard {
    Fixed,
    Unhardened,
    Hardened,
}

/// An extended public key of a descriptor: where it comes from (root
/// fingerprint and path from the root), its 78-byte encoding, the steps
/// derived after it, and its wildcard.
#[derive(Clone, Debug)]
pub struct DescriptorXKey {
    pub origin: Option<(u32, Vec<u32>)>,
    pub xkey: Vec<u8>,
    pub derivation_path: Vec<u32>,
    pub wildcard: Wildcard,
}

/// A key of a descriptor: a single public key, or an extended one.
#[derive(Clone, Debug)]
pub enum DescriptorPublicKey {
    Single(Vec<u8>),
    XPub(DescriptorXKey),
}

/// The shape of a descriptor's script.
#[derive(Clone, Copy, Debug, PartialEq, Eq, Structural)]
pub enum DescriptorType {
    Bare,
    Sh,
    Pkh,
    Wpkh,
    ShWpkh,
    Wsh,
    ShWsh,
    ShWshSortedMulti,
    WshSortedMulti,
    ShSortedMulti,
    Tr,
}

/// A descriptor: its script shape and its keys in order.
#[derive(Clone, Debug)]
pub struct ExtendedDescriptor {
    pub desc_type: DescriptorType,
    pub keys: Vec<DescriptorPublicKey>,
}

/// A key that a claim expects: a full serialized public key, or an x-only
/// one.
#[derive(Clone, Debug)]
pub enum SinglePubKey {
    FullKey(Vec<u8>),
    XOnly(Vec<u8>),
}

/// An untrusted claim: root fingerprint, path from the root, expected key.
#[derive(Clone, Debug)]
pub struct KeyOrigin {
    pub fingerprint: u32,
    pub path: Vec<u32>,
    pub key: SinglePubKey,
}

/// A claim as plain values: fingerprint, path, whether the key is x-only,
/// key bytes.
pub type ClaimView = (u32, Seq<u32>, bool, Seq<u8>);

impl KeyOrigin {
    pub open spec fn view(&self) -> ClaimView {
        match self.key {
            SinglePubKey::FullKey(k) => (self.fingerprint, self.path@, false, k@),
            SinglePubKey::XOnly(k) => (self.fingerprint, self.path@, true, k@),
        }
    }
}

pub open spec fn claims_view(cs: Seq<KeyOrigin>) -> Seq<ClaimView> {
    cs.map_values(|c: KeyOrigin| c.view())
}

/// A public key with its origin, as an output lists it for legacy and
/// witness scripts: serialized key, root fingerprint, path.
#[derive(Clone, Debug)]
pub struct HdKeyPath {
    pub pubkey: Vec<u8>,
    pub fingerprint: u32,
    pub path: Vec<u32>,
}

/// An x-only key with its origin, as an output lists it for taproot.
#[derive(Clone, Debug)]
pub struct TapKeyOrigin {
    pub xonly: Vec<u8>,
    pub fingerprint: u32,
    pub path: Vec<u32>,
}

/// The key-origin data of one output.
#[derive(Clone, Debug)]
pub struct PsbtOutput {
    pub bip32_derivation: Vec<HdKeyPath>,
    pub tap_key_origins: Vec<TapKeyOrigin>,
}

pub open spec fn hd_claims(hd: Seq<HdKeyPath>) -> Seq<ClaimView> {
    hd.map_values(|h: HdKeyPath| (h.fingerprint, h.path@, false, h.pubkey@))
}

pub open spec fn tap_claims(tap: Seq<TapKeyOrigin>) -> Seq<ClaimView> {
    tap.map_values(|t: TapKeyOrigin| (t.fingerprint, t.path@, true, t.xonly@))
}

/// The fingerprint of the root a key comes from.
pub open spec fn root_fingerprint(k: DescriptorXKey) -> Option<u32> {
    match k.origin {
        Some((fp, _)) => Some(fp),
        None => fingerprint_of(k.xkey@),
    }
}

/// The full path from the root to the key, wildcard step excluded.
pub open spec fn full_prefix(k: DescriptorXKey) -> Seq<u32> {
    match k.origin {
        Some((_, p)) => p@ + k.derivation_path@,
        None => k.derivation_path@,
    }
}

/// Index of the last claim with that fingerprint: a later claim for a root
/// takes the place of an earlier one.
pub open spec fn claim_for(claims: Seq<ClaimView>, fp: u32) -> Option<int>
    decreases claims.len(),
{
    if claims.len() == 0 {
        None
    } else if claims.last().0 == fp {
        Some(claims.len() - 1)
    } else {
        claim_for(claims.drop_last(), fp)
    }
}

/// The steps of a claimed path beyond the key's own prefix: the last step
/// for a wildcard key, nothing for a fixed one; `None` where the path does
/// not run through the key.
pub open spec fn steps_after_key(k: DescriptorXKey, path: Seq<u32>) -> Option<Seq<u32>> {
    let head = if k.wildcard != Wildcard::Fixed && path.len() > 0 {
        path.drop_last()
    } else {
        path
    };
    if full_prefix(k) == head {
        Some(path.subrange(head.len() as int, path.len() as int))
    } else {
        None
    }
}

/// The derivation index that the steps stand for: one unhardened step for a
/// wildcard key, none (index 0) for a fixed key.
pub open spec fn index_of_steps(k: DescriptorXKey, steps: Seq<u32>) -> Option<u32> {
    if k.wildcard != Wildcard::Fixed && steps.len() == 1 && steps[0] < HARDENED {
        Some(steps[0])
    } else if k.wildcard == Wildcard::Fixed && steps.len() == 0 {
        Some(0)
    } else {
        None
    }
}

/// A derived 33-byte key is the claimed one: byte for byte, or, for an
/// x-only claim, its 32 bytes after the parity byte.
pub open spec fn key_matches(derived: Seq<u8>, xonly: bool, claimed: Seq<u8>) -> bool {
    if xonly {
        derived.len() == 33 && derived.subrange(1, 33) == claimed
    } else {
        derived == claimed
    }
}

/// The key re-derived from the descriptor key for a claimed path.
pub open spec fn rederived(k: DescriptorXKey, steps: Seq<u32>) -> Option<Seq<u8>> {
    derived_key_of(k.xkey@, k.derivation_path@ + steps)
}

/// The index at which one descriptor key accepts the claims, if it does.
pub open spec fn key_index(k: DescriptorXKey, claims: Seq<ClaimView>) -> Option<u32> {
    match root_fingerprint(k) {
        None => None,
        Some(fp) => match claim_for(claims, fp) {
            None => None,
            Some(ci) => {
                let c = claims[ci];
                match steps_after_key(k, c.1) {
                    None => None,
                    Some(steps) => match rederived(k, steps) {
                        Some(d) => if key_matches(d, c.2, c.3) {
                            index_of_steps(k, steps)
                        } else {
                            None
                        },
                        None => None,
                    },
                }
            },
        },
    }
}

/// The index at which one key of a descriptor accepts the claims: only an
/// extended key can.
pub open spec fn accepts_at(key: DescriptorPublicKey, claims: Seq<ClaimView>) -> Option<u32> {
    match key {
        DescriptorPublicKey::XPub(k) => key_index(k, claims),
        DescriptorPublicKey::Single(_) => None,
    }
}

/// Over the keys in order: the first accepted index, and whether some key
/// accepted another one.
pub open spec fn scan_keys(keys: Seq<DescriptorPublicKey>, claims: Seq<ClaimView>) -> (
    Option<u32>,
    bool,
)
    decreases keys.len(),
{
    if keys.len() == 0 {
        (None, false)
    } else {
        let (found, conflict) = scan_keys(keys.drop_last(), claims);
        match accepts_at(keys.last(), claims) {
            Some(i) => match found {
                None => (Some(i), conflict),
                Some(j) => (Some(j), conflict || i != j),
            },
            None => (found, conflict),
        }
    }
}

/// The verified index of an output: the one index that the accepting keys
/// agree on; `None` where no key accepts or two disagree.
pub open spec fn verified_index(keys: Seq<DescriptorPublicKey>, claims: Seq<ClaimView>) -> Option<
    u32,
> {
    let (found, conflict) = scan_keys(keys, claims);
    if conflict {
        None
    } else {
        found
    }
}

/// Whether `a` equals the first `n` items of `b`.
fn path_eq(a: &Vec<u32>, b: &Vec<u32>, n: usize) -> (r: bool)
    requires
        n <= b@.len(),
    ensures
        r == (a@ == b@.subrange(0, n as int)),
{
    if a.len() != n {
        return false;
    }
    let mut i: usize = 0;
    while i < n
        invariant
            i <= n,
            a@.len() == n,
            n <= b@.len(),
            a@.subrange(0, i as int) == b@.subrange(0, i as int),
        decreases n - i,
    {
        if a[i] != b[i] {
            assert(a@[i as int] != b@.subrange(0, n as int)[i as int]);
            return false;
        }
        i = i + 1;
        assert(a@.subrange(0, i as int) =~= b@.subrange(0, i as int));
    }
    assert(a@ =~= a@.subrange(0, n as int));
    true
}

/// Whether the bytes of `a` from `from` up to `to` are those of `b`.
fn bytes_eq_range(a: &Vec<u8>, from: usize, to: usize, b: &Vec<u8>) -> (r: bool)
    requires
        from <= to <= a@.len(),
    ensures
        r == (a@.subrange(from as int, to as int) == b@),
{
    if b.len() != to - from {
        return false;
    }
    let mut i: usize = 0;
    while i < b.len()
        invariant
            i <= b@.len(),
            b@.len() == to - from,
            from <= to <= a@.len(),
            a@.subrange(from as int, from + i) == b@.subrange(0, i as int),
        decreases b@.len() - i,
    {
        if a[from + i] != b[i] {
            assert(a@.subrange(from as int, to as int)[i as int] != b@[i as int]);
            return false;
        }
        i = i + 1;
        assert(a@.subrange(from as int, from + i) =~= b@.subrange(0, i as int));
    }
    assert(b@ =~= b@.subrange(0, i as int));
    true
}

pub(crate) fn concat_u32(a: &Vec<u32>, b: &Vec<u32>, from: usize) -> (r: Vec<u32>)
    requires
        from <= b@.len(),
    ensures
        r@ == a@ + b@.subrange(from as int, b@.len() as int),
{
    let mut r: Vec<u32> = Vec::new();
    let mut i: usize = 0;
    while i < a.len()
        invariant
            i <= a@.len(),
            r@ == a@.subrange(0, i as int),
        decreases a@.len() - i,
    {
        r.push(a[i]);
        i = i + 1;
        assert(r@ =~= a@.subrange(0, i as int));
    }
    let mut j: usize = from;
    while j < b.len()
        invariant
            from <= j <= b@.len(),
            r@ == a@ + b@.subrange(from as int, j as int),
        decreases b@.len() - j,
    {
        r.push(b[j]);
        j = j + 1;
        assert(r@ =~= a@ + b@.subrange(from as int, j as int));
    }
    r
}

/// Index of the last claim whose fingerprint is `fp`.
fn find_claim(claims: &Vec<KeyOrigin>, fp: u32) -> (r: Option<usize>)
    ensures
        match claim_for(claims_view(claims@), fp) {
            Some(i) => r matches Some(j) && j as int == i,
            None => r is None,
        },
        r matches Some(i) ==> i < claims@.len(),
{
    let ghost cv = claims_view(claims@);
    let mut n: usize = claims.len();
    assert(cv.subrange(0, n as int) =~= cv);
    while n > 0
        invariant
            n <= claims@.len(),
            cv == claims_view(claims@),
            claim_for(cv, fp) == claim_for(cv.subrange(0, n as int), fp),
        decreases n,
    {
        let ghost sub = cv.subrange(0, n as int);
        assert(sub.last() == claims@[n - 1].view());
        if claims[n - 1].fingerprint == fp {
            return Some(n - 1);
        }
        assert(sub.drop_last() =~= cv.subrange(0, n - 1));
        n = n - 1;
    }
    None
}

impl DescriptorXKey {
    /// The index at which this key accepts the claims: the claim for its
    /// root must run through its path, and the key re-derived for that path
    /// must be the claimed one.
    pub fn index_for_claims(&self, claims: &Vec<KeyOrigin>) -> (r: Option<u32>)
        ensures
            r == key_index(*self, claims_view(claims@)),
    {
        let ghost cv = claims_view(claims@);
        let fp = match &self.origin {
            Some((fp, _)) => *fp,
            None => match xkey_fingerprint(&self.xkey) {
                Some(f) => f,
                None => {
                    return None;
                },
            },
        };
        let ci = match find_claim(claims, fp) {
            Some(i) => i,
            None => {
                return None;
            },
        };
        let claim = &claims[ci];
        assert(cv[ci as int] == claim.view());
        let empty: Vec<u32> = Vec::new();
        let prefix = match &self.origin {
            Some((_, p)) => concat_u32(p, &self.derivation_path, 0),
            None => concat_u32(&empty, &self.derivation_path, 0),
        };
        assert(prefix@ =~= full_prefix(*self)) by {
            assert(self.derivation_path@.subrange(0, self.derivation_path@.len() as int)
                =~= self.derivation_path@);
        }
        let plen = claim.path.len();
        let head_len: usize = if self.wildcard != Wildcard::Fixed && plen > 0 {
            plen - 1
        } else {
            plen
        };
        let ghost head = if self.wildcard != Wildcard::Fixed && plen > 0 {
            claim.path@.drop_last()
        } else {
            claim.path@
        };
        assert(head =~= claim.path@.subrange(0, head_len as int));
        assert(root_fingerprint(*self) == Some(fp));
        assert(claim_for(cv, fp) == Some(ci as int));
        assert(cv[ci as int].1 == claim.path@);
        if !path_eq(&prefix, &claim.path, head_len) {
            return None;
        }
        assert(steps_after_key(*self, claim.path@) == Some(
            claim.path@.subrange(head_len as int, plen as int),
        ));
        let full = concat_u32(&self.derivation_path, &claim.path, head_len);
        let derived = match derive_public_key(&self.xkey, &full) {
            Some(d) => d,
            None => {
                return None;
            },
        };
        let ok = match &claim.key {
            SinglePubKey::FullKey(k) => bytes_eq_range(&derived, 0, derived.len(), k),
            SinglePubKey::XOnly(k) => bytes_eq_range(&derived, 1, 33, k),
        };
        assert(derived@.subrange(0, derived@.len() as int) =~= derived@);
        if !ok {
            return None;
        }
        let steps = plen - head_len;
        if self.wildcard != Wildcard::Fixed && steps == 1 {
            let step = claim.path[head_len];
            if step < HARDENED {
                Some(step)
            } else {
                None
            }
        } else if self.wildcard == Wildcard::Fixed && steps == 0 {
            Some(0)
        } else {
            None
        }
    }
}

/// What a scan over keys finds: with no disagreement, the index found is
/// one that some key accepts at, and every accepting key accepts at it.
pub proof fn lemma_scan_keys(keys: Seq<DescriptorPublicKey>, claims: Seq<ClaimView>, i: u32)
    ensures
        scan_keys(keys, claims).0 is None ==> !scan_keys(keys, claims).1,
        scan_keys(keys, claims).0 is None ==> forall|n: int|
            0 <= n < keys.len() ==> #[trigger] accepts_at(keys[n], claims) is None,
        scan_keys(keys, claims).0 == Some(i) ==> exists|n: int|
            0 <= n < keys.len() && #[trigger] accepts_at(keys[n], claims) == Some(i),
        (scan_keys(keys, claims).0 == Some(i) && !scan_keys(keys, claims).1) ==> forall|n: int|
            0 <= n < keys.len() && #[trigger] accepts_at(keys[n], claims) is Some ==> accepts_at(
                keys[n],
                claims,
            ) == Some(i),
        ((exists|n: int| 0 <= n < keys.len() && #[trigger] accepts_at(keys[n], claims) == Some(i))
            && (forall|n: int|
            0 <= n < keys.len() && #[trigger] accepts_at(keys[n], claims) is Some ==> accepts_at(
                keys[n],
                claims,
            ) == Some(i))) ==> (scan_keys(keys, claims).0 == Some(i) && !scan_keys(keys, claims).1),
    decreases keys.len(),
{
    if keys.len() > 0 {
        let init = keys.drop_last();
        let last = keys.len() - 1;
        lemma_scan_keys(init, claims, i);
        let (f, c) = scan_keys(init, claims);
        if f is Some {
            lemma_scan_keys(init, claims, f.unwrap());
        }
        assert(keys.last() == keys[last]);
        assert forall|n: int| 0 <= n < init.len() implies #[trigger] init[n] == keys[n] by {}
        let a = accepts_at(keys[last], claims);
        // the scan finds nothing only where no key accepts
        if scan_keys(keys, claims).0 is None {
            assert forall|n: int| 0 <= n < keys.len() implies #[trigger] accepts_at(keys[n], claims) is None by {
                if n < last {
                    assert(accepts_at(init[n], claims) is None);
                }
            }
        }
        // what the scan finds, some key accepts at
        if scan_keys(keys, claims).0 == Some(i) {
            if f == Some(i) {
                let n = choose|n: int| 0 <= n < init.len() && #[trigger] accepts_at(init[n], claims) == Some(i);
                assert(accepts_at(keys[n], claims) == Some(i));
            } else {
                assert(a == Some(i));
            }
        }
        // with no disagreement, every accepting key accepts at it
        if scan_keys(keys, claims).0 == Some(i) && !scan_keys(keys, claims).1 {
            assert forall|n: int|
                0 <= n < keys.len() && #[trigger] accepts_at(keys[n], claims) is Some implies accepts_at(
                keys[n],
                claims,
            ) == Some(i) by {
                if n < last {
                    assert(accepts_at(init[n], claims) is Some);
                    if f is None {
                        assert(accepts_at(init[n], claims) is None);
                    }
                }
            }
        }
        // conversely
        if (exists|n: int| 0 <= n < keys.len() && #[trigger] accepts_at(keys[n], claims) == Some(i))
            && (forall|n: int|
            0 <= n < keys.len() && #[trigger] accepts_at(keys[n], claims) is Some ==> accepts_at(
                keys[n],
                claims,
            ) == Some(i)) {
            assert forall|n: int|
                0 <= n < init.len() && #[trigger] accepts_at(init[n], claims) is Some implies accepts_at(
                init[n],
                claims,
            ) == Some(i) by {
                assert(accepts_at(keys[n], claims) is Some);
            }
            if a is Some {
                assert(accepts_at(keys[last], claims) == Some(i));
            }
            let w = choose|n: int| 0 <= n < keys.len() && #[trigger] accepts_at(keys[n], claims) == Some(i);
            if w < last {
                assert(accepts_at(init[w], claims) == Some(i));
                assert(f == Some(i) && !c);
            } else {
                assert(a == Some(i));
                if f is Some {
                    let j = f.unwrap();
                    let n = choose|n: int| 0 <= n < init.len() && #[trigger] accepts_at(init[n], claims) == Some(j);
                    assert(accepts_at(keys[n], claims) == Some(j));
                    assert(j == i);
                    assert(exists|n: int| 0 <= n < init.len() && #[trigger] accepts_at(init[n], claims) == Some(i));
                    assert(f == Some(i) && !c);
                }
            }
        }
    }
}

/// An output verifies at index `i` exactly when some key of the descriptor
/// accepts the claims at `i` and no key accepts them at another index.
pub proof fn lemma_verified_index_agreement(keys: Seq<DescriptorPublicKey>, claims: Seq<ClaimView>, i: u32)
    ensures
        verified_index(keys, claims) == Some(i) <==> (
            (exists|n: int| 0 <= n < keys.len() && #[trigger] accepts_at(keys[n], claims) == Some(i))
            && (forall|n: int|
            0 <= n < keys.len() && #[trigger] accepts_at(keys[n], claims) is Some ==> accepts_at(
                keys[n],
                claims,
            ) == Some(i))),
{
    lemma_scan_keys(keys, claims, i);
}

/// A key accepts the claims at `i` exactly when the claim for its root runs
/// through its path and the key re-derived from the descriptor's own key
/// material along that path is byte for byte the claimed one; a matching
/// fingerprint and path alone never suffice.
pub proof fn lemma_accepted_only_when_rederived(k: DescriptorXKey, claims: Seq<ClaimView>, i: u32)
    ensures
        key_index(k, claims) == Some(i) <==> exists|fp: u32, ci: int, steps: Seq<u32>, d: Seq<u8>|
            #![trigger claim_for(claims, fp), rederived(k, steps), key_matches(d, claims[ci].2, claims[ci].3)]
            {
                &&& root_fingerprint(k) == Some(fp)
                &&& claim_for(claims, fp) == Some(ci)
                &&& steps_after_key(k, claims[ci].1) == Some(steps)
                &&& rederived(k, steps) == Some(d)
                &&& key_matches(d, claims[ci].2, claims[ci].3)
                &&& index_of_steps(k, steps) == Some(i)
            },
{
    if key_index(k, claims) == Some(i) {
        let fp = root_fingerprint(k).unwrap();
        let ci = claim_for(claims, fp).unwrap();
        let steps = steps_after_key(k, claims[ci].1).unwrap();
        let d = rederived(k, steps).unwrap();
        assert(key_matches(d, claims[ci].2, claims[ci].3));
    }
}

impl ExtendedDescriptor {
    /// Whether the script is a witness script.
    pub fn is_witness(&self) -> (r: bool)
        ensures
            r == (self.desc_type == DescriptorType::Wpkh || self.desc_type == DescriptorType::ShWpkh
                || self.desc_type == DescriptorType::Wsh || self.desc_type == DescriptorType::ShWsh
                || self.desc_type == DescriptorType::ShWshSortedMulti || self.desc_type
                == DescriptorType::WshSortedMulti),
    {
        match self.desc_type {
            DescriptorType::Wpkh | DescriptorType::ShWpkh | DescriptorType::Wsh
            | DescriptorType::ShWsh | DescriptorType::ShWshSortedMulti
            | DescriptorType::WshSortedMulti => true,
            _ => false,
        }
    }

    /// Whether the script is a taproot one.
    pub fn is_taproot(&self) -> (r: bool)
        ensures
            r == (self.desc_type == DescriptorType::Tr),
    {
        self.desc_type == DescriptorType::Tr
    }

    /// The positions of the extended keys among the descriptor's keys, in
    /// order.
    pub fn get_extended_keys(&self) -> (r: Vec<usize>)
        ensures
            forall|j: int| 0 <= j < r@.len() ==> (#[trigger] r@[j]) < self.keys@.len()
                && self.keys@[r@[j] as int] is XPub,
            forall|j: int, l: int| 0 <= j < l < r@.len() ==> #[trigger] r@[j] < #[trigger] r@[l],
            forall|n: int| 0 <= n < self.keys@.len() && (#[trigger] self.keys@[n]) is XPub ==> r@.contains(n as usize),
    {
        let mut out: Vec<usize> = Vec::new();
        let mut i: usize = 0;
        while i < self.keys.len()
            invariant
                i <= self.keys@.len(),
                forall|j: int| 0 <= j < out@.len() ==> (#[trigger] out@[j]) < i
                    && self.keys@[out@[j] as int] is XPub,
                forall|j: int, l: int| 0 <= j < l < out@.len() ==> #[trigger] out@[j] < #[trigger] out@[l],
                forall|n: int| 0 <= n < i && (#[trigger] self.keys@[n]) is XPub ==> out@.contains(n as usize),
            decreases self.keys@.len() - i,
        {
            let ghost prev = out@;
            if let DescriptorPublicKey::XPub(_) = &self.keys[i] {
                out.push(i);
                assert(out@[out@.len() - 1] == i);
                assert forall|n: int| 0 <= n < i + 1 && (#[trigger] self.keys@[n]) is XPub implies out@.contains(
                    n as usize,
                ) by {
                    if n < i {
                        let j = choose|j: int| 0 <= j < prev.len() && prev[j] == n as usize;
                        assert(out@[j] == n as usize);
                    }
                }
            }
            i = i + 1;
        }
        out
    }

    /// The index at which the claims verify against this descriptor: every
    /// extended key whose root has a claim re-derives the claimed key, and
    /// the accepting keys must agree.
    pub fn derive_from_psbt_key_origins(&self, claims: &Vec<KeyOrigin>) -> (r: Option<u32>)
        ensures
            r == verified_index(self.keys@, claims_view(claims@)),
    {
        let ghost cv = claims_view(claims@);
        let mut found: Option<u32> = None;
        let mut conflict = false;
        let mut i: usize = 0;
        while i < self.keys.len()
            invariant
                i <= self.keys@.len(),
                cv == claims_view(claims@),
                (found, conflict) == scan_keys(self.keys@.subrange(0, i as int), cv),
            decreases self.keys@.len() - i,
        {
            let ghost sub = self.keys@.subrange(0, i + 1);
            assert(sub.drop_last() =~= self.keys@.subrange(0, i as int));
            assert(sub.last() == self.keys@[i as int]);
            let accepted = match &self.keys[i] {
                DescriptorPublicKey::XPub(k) => k.index_for_claims(claims),
                DescriptorPublicKey::Single(_) => None,
            };
            if let Some(idx) = accepted {
                match found {
                    None => {
                        found = Some(idx);
                    },
                    Some(j) => {
                        if idx != j {
                            conflict = true;
                        }
                    },
                }
            }
            i = i + 1;
        }
        assert(self.keys@.subrange(0, self.keys@.len() as int) =~= self.keys@);
        if conflict {
            None
        } else {
            found
        }
    }

    /// Verifies the legacy and witness key origins of an output.
    pub fn derive_from_hd_keypaths(&self, hd_keypaths: &Vec<HdKeyPath>) -> (r: Option<u32>)
        ensures
            r == verified_index(self.keys@, hd_claims(hd_keypaths@)),
    {
        let mut claims: Vec<KeyOrigin> = Vec::new();
        let mut i: usize = 0;
        while i < hd_keypaths.len()
            invariant
                i <= hd_keypaths@.len(),
                claims_view(claims@) == hd_claims(hd_keypaths@.subrange(0, i as int)),
            decreases hd_keypaths@.len() - i,
        {
            let h = &hd_keypaths[i];
            let c = KeyOrigin {
                fingerprint: h.fingerprint,
                path: clone_u32s(&h.path),
                key: SinglePubKey::FullKey(clone_u8s(&h.pubkey)),
            };
            let ghost prev = claims_view(claims@);
            claims.push(c);
            assert(claims_view(claims@) =~= prev.push(c.view()));
            assert(hd_claims(hd_keypaths@.subrange(0, i + 1)) =~= hd_claims(
                hd_keypaths@.subrange(0, i as int),
            ).push(c.view()));
            i = i + 1;
        }
        assert(hd_keypaths@.subrange(0, hd_keypaths@.len() as int) =~= hd_keypaths@);
        self.derive_from_psbt_key_origins(&claims)
    }

    /// Verifies the taproot key origins of an output.
    pub fn derive_from_tap_key_origins(&self, tap_key_origins: &Vec<TapKeyOrigin>) -> (r: Option<u32>)
        ensures
            r == verified_index(self.keys@, tap_claims(tap_key_origins@)),
    {
        let mut claims: Vec<KeyOrigin> = Vec::new();
        let mut i: usize = 0;
        while i < tap_key_origins.len()
            invariant
                i <= tap_key_origins@.len(),
                claims_view(claims@) == tap_claims(tap_key_origins@.subrange(0, i as int)),
            decreases tap_key_origins@.len() - i,
        {
            let t = &tap_key_origins[i];
            let c = KeyOrigin {
                fingerprint: t.fingerprint,
                path: clone_u32s(&t.path),
                key: SinglePubKey::XOnly(clone_u8s(&t.xonly)),
            };
            let ghost prev = claims_view(claims@);
            claims.push(c);
            assert(claims_view(claims@) =~= prev.push(c.view()));
            assert(tap_claims(tap_key_origins@.subrange(0, i + 1)) =~= tap_claims(
                tap_key_origins@.subrange(0, i as int),
            ).push(c.view()));
            i = i + 1;
        }
        assert(tap_key_origins@.subrange(0, tap_key_origins@.len() as int) =~= tap_key_origins@);
        self.derive_from_psbt_key_origins(&claims)
    }

    /// Verifies an output from either source of key origins: the legacy and
    /// witness ones first, then the taproot ones.
    pub fn derive_from_psbt_output(&self, psbt_output: &PsbtOutput) -> (r: Option<u32>)
        ensures
            r == output_index(self.keys@, *psbt_output),
    {
        if let Some(i) = self.derive_from_hd_keypaths(&psbt_output.bip32_derivation) {
            return Some(i);
        }
        self.derive_from_tap_key_origins(&psbt_output.tap_key_origins)
    }
}

/// The index at which an output verifies against a descriptor's keys.
pub open spec fn output_index(keys: Seq<DescriptorPublicKey>, out: PsbtOutput) -> Option<u32> {
    match verified_index(keys, hd_claims(out.bip32_derivation@)) {
        Some(i) => Some(i),
        None => verified_index(keys, tap_claims(out.tap_key_origins@)),
    }
}

fn clone_u32s(v: &Vec<u32>) -> (r: Vec<u32>)
    ensures
        r@ == v@,
{
    let r = v.clone();
    assert(r@ =~= v@);
    r
}

fn clone_u8s(v: &Vec<u8>) -> (r: Vec<u8>)
    ensures
        r@ == v@,
{
    let r = v.clone();
    assert(r@ =~= v@);
    r
}

} // verus!
