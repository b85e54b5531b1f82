//! Signature slots of a transaction's inputs: the snapshot taken before
//! signing, the slots that signing added, and their encoding as records.

use vstd::prelude::*;

use crate::codec::{all_fit, append_bytes, lemma_map_round_trip, map_bytes, parse_map, serialize_map, Key, Pair, Record, records};
use crate::order::{compare, contains_sorted, lemma_lex_total, lemma_lex_transitive, lex_lt, strictly_ascending};

verus! {

/// Record type of a partial ECDSA signature, keyed by the public key.
pub const PSBT_IN_PARTIAL_SIG: u8 = 0x02;

/// Record type of a key-path Schnorr signature, with no key data.
pub const PSBT_IN_TAP_KEY_SIG: u8 = 0x13;

/// Record type of a script-path Schnorr signature, keyed by the x-only key
/// followed by the leaf hash.
pub const PSBT_IN_TAP_SCRIPT_SIG: u8 = 0x14;

/// A slot and what it holds: key bytes and signature bytes.
pub type Entry = (Vec<u8>, Vec<u8>);

pub open spec fn entry_view(e: Entry) -> (Seq<u8>, Seq<u8>) {
    (e.0@, e.1@)
}

pub open spec fn entries_view(es: Seq<Entry>) -> Seq<(Seq<u8>, Seq<u8>)> {
    es.map_values(|e: Entry| entry_view(e))
}

pub open spec fn entry_keys(es: Seq<Entry>) -> Seq<Seq<u8>> {
    es.map_values(|e: Entry| e.0@)
}

pub open spec fn key_views(ks: Seq<Vec<u8>>) -> Seq<Seq<u8>> {
    ks.map_values(|k: Vec<u8>| k@)
}

pub open spec fn opt_view(o: Option<Vec<u8>>) -> Option<Seq<u8>> {
    match o {
        Some(v) => Some(v@),
        None => None,
    }
}

/// The entries of `post`, in order, whose key is not among `before`.
pub open spec fn fresh_entries(post: Seq<(Seq<u8>, Seq<u8>)>, before: Seq<Seq<u8>>) -> Seq<
    (Seq<u8>, Seq<u8>),
>
    decreases post.len(),
{
    if post.len() == 0 {
        Seq::empty()
    } else {
        let rest = fresh_entries(post.drop_last(), before);
        if before.contains(post.last().0) {
            rest
        } else {
            rest.push(post.last())
        }
    }
}

/// Signature slots of one input, each list keyed and strictly ascending by
/// key, as the input stores them.
#[derive(Clone, Debug)]
pub struct InputSigs {
    pub partial_sigs: Vec<Entry>,
    pub tap_key_sig: Option<Vec<u8>>,
    pub tap_script_sigs: Vec<Entry>,
}

impl InputSigs {
    pub open spec fn wf(&self) -> bool {
        &&& strictly_ascending(entry_keys(self.partial_sigs@))
        &&& strictly_ascending(entry_keys(self.tap_script_sigs@))
    }

    /// An input with no signature.
    pub fn new() -> (r: InputSigs)
        ensures
            r.wf(),
            r.partial_sigs@.len() == 0,
            r.tap_key_sig is None,
            r.tap_script_sigs@.len() == 0,
    {
        InputSigs { partial_sigs: Vec::new(), tap_key_sig: None, tap_script_sigs: Vec::new() }
    }

    /// Sets the partial signature of a public key.
    pub fn insert_partial_sig(&mut self, key: Vec<u8>, sig: Vec<u8>)
        requires
            old(self).wf(),
        ensures
            final(self).wf(),
            final(self).tap_key_sig == old(self).tap_key_sig,
            final(self).tap_script_sigs == old(self).tap_script_sigs,
            entries_view(final(self).partial_sigs@).contains((key@, sig@)),
            forall|e: (Seq<u8>, Seq<u8>)|
                e.0 != key@ ==> (entries_view(final(self).partial_sigs@).contains(e)
                    <==> entries_view(old(self).partial_sigs@).contains(e)),
    {
        insert_entry(&mut self.partial_sigs, key, sig);
    }

    /// Sets the script-path signature of an x-only key and leaf hash, given
    /// as their concatenation.
    pub fn insert_tap_script_sig(&mut self, key: Vec<u8>, sig: Vec<u8>)
        requires
            old(self).wf(),
        ensures
            final(self).wf(),
            final(self).tap_key_sig == old(self).tap_key_sig,
            final(self).partial_sigs == old(self).partial_sigs,
            entries_view(final(self).tap_script_sigs@).contains((key@, sig@)),
            forall|e: (Seq<u8>, Seq<u8>)|
                e.0 != key@ ==> (entries_view(final(self).tap_script_sigs@).contains(e)
                    <==> entries_view(old(self).tap_script_sigs@).contains(e)),
    {
        insert_entry(&mut self.tap_script_sigs, key, sig);
    }
}

/// Puts `(key, value)` into the strictly ascending `entries`, in place of
/// the entry with the same key if there is one.
pub fn insert_entry(entries: &mut Vec<Entry>, key: Vec<u8>, value: Vec<u8>)
    requires
        strictly_ascending(entry_keys(old(entries)@)),
    ensures
        strictly_ascending(entry_keys(final(entries)@)),
        entries_view(final(entries)@).contains((key@, value@)),
        forall|e: (Seq<u8>, Seq<u8>)|
            e.0 != key@ ==> (entries_view(final(entries)@).contains(e) <==> entries_view(
                old(entries)@,
            ).contains(e)),
{
    let ghost old_es = entries@;
    let ghost ks = entry_keys(old_es);
    let ghost kv = key@;
    let mut i: usize = 0;
    let mut exact = false;
    let mut done = false;
    while !done && i < entries.len()
        invariant
            entries@ == old_es,
            ks == entry_keys(old_es),
            kv == key@,
            i <= old_es.len(),
            forall|j: int| 0 <= j < i ==> lex_lt(#[trigger] ks[j], kv),
            exact ==> done,
            done ==> i < old_es.len() && (exact <==> ks[i as int] == kv) && !lex_lt(ks[i as int], kv),
        decreases old_es.len() - i + (if done { 0int } else { 1int }),
    {
        let c = compare(&entries[i].0, &key);
        assert(ks[i as int] == entries@[i as int].0@);
        if c < 0 {
            i = i + 1;
        } else {
            done = true;
            exact = c == 0;
        }
    }
    if exact {
        assert(ks[i as int] == kv);
        entries.set(i, (key, value));
        let ghost nks = entry_keys(entries@);
        assert(nks =~= ks.update(i as int, kv));
        assert forall|a: int, b: int| 0 <= a < b < nks.len() implies lex_lt(
            #[trigger] nks[a],
            #[trigger] nks[b],
        ) by {}
        assert(entries_view(entries@)[i as int] == (kv, value@));
        assert forall|e: (Seq<u8>, Seq<u8>)| e.0 != kv implies (entries_view(entries@).contains(e)
            <==> entries_view(old_es).contains(e)) by {
            if entries_view(entries@).contains(e) {
                let j = choose|j: int| 0 <= j < entries@.len() && entries_view(entries@)[j] == e;
                assert(entries_view(old_es)[j] == e);
            }
            if entries_view(old_es).contains(e) {
                let j = choose|j: int| 0 <= j < old_es.len() && entries_view(old_es)[j] == e;
                assert(entries_view(entries@)[j] == e);
            }
        }
    } else {
        // every key from position i on comes after `key`
        assert forall|j: int| i <= j < ks.len() implies lex_lt(kv, #[trigger] ks[j]) by {
            if done {
                assert(ks[i as int] != kv);
                lemma_lex_total(ks[i as int], kv);
                if j > i {
                    lemma_lex_transitive(kv, ks[i as int], ks[j]);
                }
            }
        }
        entries.insert(i, (key, value));
        let ghost nks = entry_keys(entries@);
        assert(nks =~= ks.insert(i as int, kv));
        assert forall|a: int, b: int| 0 <= a < b < nks.len() implies lex_lt(
            #[trigger] nks[a],
            #[trigger] nks[b],
        ) by {
            if b < i {
            } else if a < i && b == i {
            } else if a < i {
                lemma_lex_transitive(nks[a], kv, nks[b]);
            } else if a == i {
            } else {
            }
        }
        assert(entries_view(entries@)[i as int] == (kv, value@));
        assert forall|e: (Seq<u8>, Seq<u8>)| e.0 != kv implies (entries_view(entries@).contains(e)
            <==> entries_view(old_es).contains(e)) by {
            if entries_view(entries@).contains(e) {
                let j = choose|j: int| 0 <= j < entries@.len() && entries_view(entries@)[j] == e;
                if j < i {
                    assert(entries_view(old_es)[j] == e);
                } else {
                    assert(j != i);
                    assert(entries_view(old_es)[j - 1] == e);
                }
            }
            if entries_view(old_es).contains(e) {
                let j = choose|j: int| 0 <= j < old_es.len() && entries_view(old_es)[j] == e;
                if j < i {
                    assert(entries_view(entries@)[j] == e);
                } else {
                    assert(entries_view(entries@)[j + 1] == e);
                }
            }
        }
    }
}

/// Slots present in one input before signing: the keys of its partial
/// signatures, whether it has a key-path signature, and the keys of its
/// script-path signatures, each list strictly ascending.
#[derive(Clone, Debug)]
pub struct CurrentSignatures {
    pub partial_sigs: Vec<Vec<u8>>,
    pub tap_key_sig: bool,
    pub tap_script_sigs: Vec<Vec<u8>>,
}

impl CurrentSignatures {
    pub open spec fn wf(&self) -> bool {
        &&& strictly_ascending(key_views(self.partial_sigs@))
        &&& strictly_ascending(key_views(self.tap_script_sigs@))
    }

    /// The snapshot of one input.
    pub open spec fn snapshot_of(&self, input: InputSigs) -> bool {
        &&& key_views(self.partial_sigs@) == entry_keys(input.partial_sigs@)
        &&& self.tap_key_sig == input.tap_key_sig is Some
        &&& key_views(self.tap_script_sigs@) == entry_keys(input.tap_script_sigs@)
    }

    /// Takes the snapshot of every input, in order.
    pub fn from_psbt(inputs: &Vec<InputSigs>) -> (r: Vec<CurrentSignatures>)
        requires
            forall|i: int| 0 <= i < inputs@.len() ==> (#[trigger] inputs@[i]).wf(),
        ensures
            r@.len() == inputs@.len(),
            forall|i: int|
                0 <= i < r@.len() ==> (#[trigger] r@[i]).snapshot_of(inputs@[i]) && r@[i].wf(),
    {
        let mut out: Vec<CurrentSignatures> = Vec::new();
        let mut i: usize = 0;
        while i < inputs.len()
            invariant
                i <= inputs@.len(),
                out@.len() == i,
                forall|j: int| 0 <= j < inputs@.len() ==> (#[trigger] inputs@[j]).wf(),
                forall|j: int|
                    0 <= j < i ==> (#[trigger] out@[j]).snapshot_of(inputs@[j]) && out@[j].wf(),
            decreases inputs@.len() - i,
        {
            let input = &inputs[i];
            let partial_sigs = keys_of(&input.partial_sigs);
            let tap_script_sigs = keys_of(&input.tap_script_sigs);
            let snap = CurrentSignatures {
                partial_sigs,
                tap_key_sig: input.tap_key_sig.is_some(),
                tap_script_sigs,
            };
            assert(input.wf());
            out.push(snap);
            i = i + 1;
        }
        out
    }

    /// For each input that both lists have, the slots present in `psbt`
    /// that the snapshot did not have.
    pub fn diff(sigs: &Vec<Self>, psbt: &Vec<InputSigs>) -> (r: Vec<SigsDiff>)
        requires
            forall|i: int| 0 <= i < sigs@.len() ==> (#[trigger] sigs@[i]).wf(),
        ensures
            r@.len() == if psbt@.len() < sigs@.len() {
                psbt@.len()
            } else {
                sigs@.len()
            },
            forall|i: int|
                0 <= i < r@.len() ==> (#[trigger] r@[i]).is_diff_of(sigs@[i], psbt@[i]),
            forall|i: int| 0 <= i < r@.len() && psbt@[i].wf() ==> (#[trigger] r@[i]).wf(),
    {
        let mut out: Vec<SigsDiff> = Vec::new();
        let mut i: usize = 0;
        while i < psbt.len() && i < sigs.len()
            invariant
                i <= psbt@.len(),
                i <= sigs@.len(),
                out@.len() == i,
                forall|j: int| 0 <= j < sigs@.len() ==> (#[trigger] sigs@[j]).wf(),
                forall|j: int| 0 <= j < i ==> (#[trigger] out@[j]).is_diff_of(sigs@[j], psbt@[j]),
                forall|j: int| 0 <= j < i && psbt@[j].wf() ==> (#[trigger] out@[j]).wf(),
            decreases psbt@.len() - i,
        {
            let s = &sigs[i];
            let input = &psbt[i];
            assert(s.wf());
            let partial_sigs = new_entries(&input.partial_sigs, &s.partial_sigs);
            let tap_script_sigs = new_entries(&input.tap_script_sigs, &s.tap_script_sigs);
            let tap_key_sig = if !s.tap_key_sig {
                clone_opt(&input.tap_key_sig)
            } else {
                None
            };
            let d = SigsDiff { partial_sigs, tap_key_sig, tap_script_sigs };
            proof {
                if input.wf() {
                    lemma_fresh_keys_ascending(input.partial_sigs@, d.partial_sigs@, key_views(s.partial_sigs@));
                    lemma_fresh_keys_ascending(input.tap_script_sigs@, d.tap_script_sigs@, key_views(s.tap_script_sigs@));
                }
            }
            out.push(d);
            i = i + 1;
        }
        out
    }
}

fn clone_bytes(v: &Vec<u8>) -> (r: Vec<u8>)
    ensures
        r@ == v@,
{
    let r = v.clone();
    assert(r@ =~= v@);
    r
}

fn clone_opt(o: &Option<Vec<u8>>) -> (r: Option<Vec<u8>>)
    ensures
        opt_view(r) == opt_view(*o),
{
    match o {
        Some(v) => Some(clone_bytes(v)),
        None => None,
    }
}

/// The keys of `entries`, in order.
fn keys_of(entries: &Vec<Entry>) -> (r: Vec<Vec<u8>>)
    ensures
        key_views(r@) == entry_keys(entries@),
{
    let mut out: Vec<Vec<u8>> = Vec::new();
    let mut i: usize = 0;
    while i < entries.len()
        invariant
            i <= entries@.len(),
            key_views(out@) == entry_keys(entries@.subrange(0, i as int)),
        decreases entries@.len() - i,
    {
        let ghost prev = key_views(out@);
        let k = clone_bytes(&entries[i].0);
        out.push(k);
        assert(key_views(out@) =~= prev.push(entries@[i as int].0@));
        assert(entry_keys(entries@.subrange(0, i + 1)) =~= entry_keys(entries@.subrange(0, i as int)).push(
            entries@[i as int].0@,
        ));
        i = i + 1;
    }
    assert(entries@.subrange(0, entries@.len() as int) =~= entries@);
    out
}

/// The entries of `post`, in order, whose key is not among the strictly
/// ascending `before`; each is found or missed by binary search.
fn new_entries(post: &Vec<Entry>, before: &Vec<Vec<u8>>) -> (r: Vec<Entry>)
    requires
        strictly_ascending(key_views(before@)),
    ensures
        entries_view(r@) == fresh_entries(entries_view(post@), key_views(before@)),
{
    let ghost bk = key_views(before@);
    let mut out: Vec<Entry> = Vec::new();
    let mut i: usize = 0;
    while i < post.len()
        invariant
            i <= post@.len(),
            bk == key_views(before@),
            strictly_ascending(bk),
            entries_view(out@) == fresh_entries(entries_view(post@.subrange(0, i as int)), bk),
        decreases post@.len() - i,
    {
        let e = &post[i];
        let ghost pv = entries_view(post@.subrange(0, i + 1));
        assert(pv.drop_last() =~= entries_view(post@.subrange(0, i as int)));
        assert(pv.last() == entry_view(*e));
        assert(bk =~= before@.map_values(|x: Vec<u8>| x@));
        if !contains_sorted(before, &e.0) {
            out.push((clone_bytes(&e.0), clone_bytes(&e.1)));
            assert(entries_view(out@) =~= fresh_entries(pv, bk));
        }
        i = i + 1;
    }
    assert(post@.subrange(0, post@.len() as int) =~= post@);
    out
}

/// Slots that signing added to one input.
#[derive(Clone, Debug)]
pub struct SigsDiff {
    pub partial_sigs: Vec<Entry>,
    pub tap_key_sig: Option<Vec<u8>>,
    pub tap_script_sigs: Vec<Entry>,
}

/// Records of one type for entries: the entry's key is the record's key data.
pub open spec fn typed_records(t: u8, es: Seq<(Seq<u8>, Seq<u8>)>) -> Seq<Record> {
    es.map_values(|e: (Seq<u8>, Seq<u8>)| (t, e.0, e.1))
}

impl SigsDiff {
    /// Both keyed lists are strictly ascending by key.
    pub open spec fn wf(&self) -> bool {
        &&& strictly_ascending(entry_keys(self.partial_sigs@))
        &&& strictly_ascending(entry_keys(self.tap_script_sigs@))
    }

    /// This holds exactly the slots of `input` that `before` did not have.
    pub open spec fn is_diff_of(&self, before: CurrentSignatures, input: InputSigs) -> bool {
        &&& entries_view(self.partial_sigs@) == fresh_entries(
            entries_view(input.partial_sigs@),
            key_views(before.partial_sigs@),
        )
        &&& opt_view(self.tap_key_sig) == if before.tap_key_sig {
            None
        } else {
            opt_view(input.tap_key_sig)
        }
        &&& entries_view(self.tap_script_sigs@) == fresh_entries(
            entries_view(input.tap_script_sigs@),
            key_views(before.tap_script_sigs@),
        )
    }

    /// Whether no slot was added.
    pub open spec fn is_empty(&self) -> bool {
        &&& self.partial_sigs@.len() == 0
        &&& self.tap_key_sig is None
        &&& self.tap_script_sigs@.len() == 0
    }

    /// The records that encode this: partial signatures, then the key-path
    /// signature, then script-path signatures.
    pub open spec fn records(&self) -> Seq<Record> {
        typed_records(PSBT_IN_PARTIAL_SIG, entries_view(self.partial_sigs@)) + match self.tap_key_sig {
            Some(s) => seq![(PSBT_IN_TAP_KEY_SIG, Seq::<u8>::empty(), s@)],
            None => Seq::empty(),
        } + typed_records(PSBT_IN_TAP_SCRIPT_SIG, entries_view(self.tap_script_sigs@))
    }

    /// The records of this, as pairs.
    pub fn pairs(&self) -> (r: Vec<Pair>)
        ensures
            records(r@) == self.records(),
    {
        let mut out: Vec<Pair> = Vec::new();
        push_typed(&mut out, PSBT_IN_PARTIAL_SIG, &self.partial_sigs);
        let ghost mid = records(out@);
        if let Some(sig) = &self.tap_key_sig {
            out.push(
                Pair {
                    key: Key { type_value: PSBT_IN_TAP_KEY_SIG, key: Vec::new() },
                    value: clone_bytes(sig),
                },
            );
            assert(records(out@) =~= mid + seq![(PSBT_IN_TAP_KEY_SIG, Seq::<u8>::empty(), sig@)]);
        } else {
            assert(mid + Seq::<Record>::empty() =~= mid);
        }
        push_typed(&mut out, PSBT_IN_TAP_SCRIPT_SIG, &self.tap_script_sigs);
        out
    }

    /// The records of this, closed by the zero byte that ends an input's map.
    pub fn serialize(&self) -> (r: Vec<u8>)
        requires
            all_fit(self.records()),
        ensures
            r@ == map_bytes(self.records()),
    {
        let pairs = self.pairs();
        serialize_map(&pairs)
    }
}

/// Appends one record of type `t` for each entry.
fn push_typed(out: &mut Vec<Pair>, t: u8, es: &Vec<Entry>)
    ensures
        records(final(out)@) == records(old(out)@) + typed_records(t, entries_view(es@)),
{
    let ghost start = records(old(out)@);
    let mut i: usize = 0;
    while i < es.len()
        invariant
            i <= es@.len(),
            records(out@) == start + typed_records(t, entries_view(es@.subrange(0, i as int))),
        decreases es@.len() - i,
    {
        let e = &es[i];
        let ghost prev = records(out@);
        let p = Pair { key: Key { type_value: t, key: clone_bytes(&e.0) }, value: clone_bytes(&e.1) };
        out.push(p);
        assert(records(out@) =~= prev.push((t, e.0@, e.1@)));
        assert(typed_records(t, entries_view(es@.subrange(0, i + 1))) =~= typed_records(
            t,
            entries_view(es@.subrange(0, i as int)),
        ).push((t, e.0@, e.1@)));
        i = i + 1;
    }
    assert(es@.subrange(0, es@.len() as int) =~= es@);
}

/// What `fresh_entries` keeps: an entry is in it exactly when `post` has it
/// and its key is not among `before`.
pub proof fn lemma_fresh_entries_membership(
    post: Seq<(Seq<u8>, Seq<u8>)>,
    before: Seq<Seq<u8>>,
    e: (Seq<u8>, Seq<u8>),
)
    ensures
        fresh_entries(post, before).contains(e) <==> (post.contains(e) && !before.contains(e.0)),
    decreases post.len(),
{
    if post.len() > 0 {
        let init = post.drop_last();
        lemma_fresh_entries_membership(init, before, e);
        let rest = fresh_entries(init, before);
        assert(post =~= init.push(post.last()));
        if post.contains(e) && e != post.last() {
            let j = choose|j: int| 0 <= j < post.len() && post[j] == e;
            assert(init[j] == e);
        }
        if init.contains(e) {
            let j = choose|j: int| 0 <= j < init.len() && init[j] == e;
            assert(post[j] == e);
        }
        if !before.contains(post.last().0) {
            let r2 = rest.push(post.last());
            assert(r2[rest.len() as int] == post.last());
            if r2.contains(e) && e != post.last() {
                let j = choose|j: int| 0 <= j < r2.len() && r2[j] == e;
                assert(rest[j] == e);
            }
            if rest.contains(e) {
                let j = choose|j: int| 0 <= j < rest.len() && rest[j] == e;
                assert(r2[j] == e);
            }
        }
        assert(post[post.len() - 1] == post.last());
    }
}

pub open spec fn view_keys(es: Seq<(Seq<u8>, Seq<u8>)>) -> Seq<Seq<u8>> {
    es.map_values(|e: (Seq<u8>, Seq<u8>)| e.0)
}

/// `fresh_entries` keeps the order of `post`: from entries strictly
/// ascending by key it gives entries strictly ascending by key.
pub proof fn lemma_fresh_entries_ascending(post: Seq<(Seq<u8>, Seq<u8>)>, before: Seq<Seq<u8>>)
    requires
        strictly_ascending(view_keys(post)),
    ensures
        strictly_ascending(view_keys(fresh_entries(post, before))),
    decreases post.len(),
{
    if post.len() > 0 {
        let init = post.drop_last();
        let last = post.last();
        assert forall|a: int, b: int| 0 <= a < b < view_keys(init).len() implies lex_lt(
            #[trigger] view_keys(init)[a],
            #[trigger] view_keys(init)[b],
        ) by {
            assert(view_keys(init)[a] == view_keys(post)[a]);
            assert(view_keys(init)[b] == view_keys(post)[b]);
        }
        lemma_fresh_entries_ascending(init, before);
        let f = fresh_entries(init, before);
        if !before.contains(last.0) {
            let g = f.push(last);
            assert forall|a: int| 0 <= a < f.len() implies lex_lt(#[trigger] f[a].0, last.0) by {
                lemma_fresh_entries_membership(init, before, f[a]);
                assert(f.contains(f[a]));
                let j = choose|j: int| 0 <= j < init.len() && init[j] == f[a];
                assert(view_keys(post)[j] == f[a].0);
                assert(view_keys(post)[post.len() - 1] == last.0);
            }
            assert forall|a: int, b: int| 0 <= a < b < view_keys(g).len() implies lex_lt(
                #[trigger] view_keys(g)[a],
                #[trigger] view_keys(g)[b],
            ) by {
                assert(view_keys(g)[a] == g[a].0);
                assert(view_keys(g)[b] == g[b].0);
                if b < f.len() {
                    assert(view_keys(f)[a] == f[a].0);
                    assert(view_keys(f)[b] == f[b].0);
                } else {
                    assert(g[b] == last);
                    assert(g[a] == f[a]);
                }
            }
        }
    }
}

/// The entries a diff keeps from strictly ascending entries are strictly
/// ascending.
proof fn lemma_fresh_keys_ascending(post: Seq<Entry>, kept: Seq<Entry>, before: Seq<Seq<u8>>)
    requires
        strictly_ascending(entry_keys(post)),
        entries_view(kept) == fresh_entries(entries_view(post), before),
    ensures
        strictly_ascending(entry_keys(kept)),
{
    assert(view_keys(entries_view(post)) =~= entry_keys(post));
    lemma_fresh_entries_ascending(entries_view(post), before);
    assert(view_keys(entries_view(kept)) =~= entry_keys(kept));
}

/// `fresh_entries` of entries against their own keys is empty.
pub proof fn lemma_fresh_entries_of_own_keys(post: Seq<(Seq<u8>, Seq<u8>)>, keys: Seq<Seq<u8>>)
    requires
        keys.len() == post.len(),
        forall|i: int| 0 <= i < post.len() ==> #[trigger] keys[i] == post[i].0,
    ensures
        fresh_entries(post, keys).len() == 0,
{
    assert forall|e: (Seq<u8>, Seq<u8>)| !fresh_entries(post, keys).contains(e) by {
        lemma_fresh_entries_membership(post, keys, e);
        if post.contains(e) {
            let j = choose|j: int| 0 <= j < post.len() && post[j] == e;
            assert(keys[j] == e.0);
        }
    }
    if fresh_entries(post, keys).len() > 0 {
        assert(fresh_entries(post, keys).contains(fresh_entries(post, keys)[0]));
    }
}

/// A diff holds a slot exactly when the input has it after signing and the
/// snapshot taken before signing did not; and diffing an input against its
/// own snapshot gives nothing.
pub proof fn lemma_diff_is_set_difference(
    before: CurrentSignatures,
    input: InputSigs,
    d: SigsDiff,
    e: (Seq<u8>, Seq<u8>),
)
    requires
        d.is_diff_of(before, input),
    ensures
        entries_view(d.partial_sigs@).contains(e) <==> (entries_view(input.partial_sigs@).contains(e)
            && !key_views(before.partial_sigs@).contains(e.0)),
        entries_view(d.tap_script_sigs@).contains(e) <==> (entries_view(
            input.tap_script_sigs@,
        ).contains(e) && !key_views(before.tap_script_sigs@).contains(e.0)),
        d.tap_key_sig is Some <==> (input.tap_key_sig is Some && !before.tap_key_sig),
{
    lemma_fresh_entries_membership(
        entries_view(input.partial_sigs@),
        key_views(before.partial_sigs@),
        e,
    );
    lemma_fresh_entries_membership(
        entries_view(input.tap_script_sigs@),
        key_views(before.tap_script_sigs@),
        e,
    );
}

/// Diffing an input against the snapshot of that same input gives an empty
/// diff: once a diff's slots are in the snapshot, diffing again adds
/// nothing.
pub proof fn lemma_diff_against_own_snapshot_is_empty(
    snap: CurrentSignatures,
    input: InputSigs,
    d: SigsDiff,
)
    requires
        snap.snapshot_of(input),
        d.is_diff_of(snap, input),
    ensures
        d.is_empty(),
{
    let pv = entries_view(input.partial_sigs@);
    let pk = key_views(snap.partial_sigs@);
    assert forall|i: int| 0 <= i < pv.len() implies #[trigger] pk[i] == pv[i].0 by {
        assert(pk[i] == entry_keys(input.partial_sigs@)[i]);
    }
    lemma_fresh_entries_of_own_keys(pv, pk);
    let sv = entries_view(input.tap_script_sigs@);
    let sk = key_views(snap.tap_script_sigs@);
    assert forall|i: int| 0 <= i < sv.len() implies #[trigger] sk[i] == sv[i].0 by {
        assert(sk[i] == entry_keys(input.tap_script_sigs@)[i]);
    }
    lemma_fresh_entries_of_own_keys(sv, sk);
    assert(entries_view(d.partial_sigs@).len() == d.partial_sigs@.len());
    assert(entries_view(d.tap_script_sigs@).len() == d.tap_script_sigs@.len());
}

/// The encoding of a diff reads back, through the record grammar, as the
/// same records in the same order.
pub proof fn lemma_diff_round_trip(d: SigsDiff, rest: Seq<u8>)
    requires
        all_fit(d.records()),
    ensures
        parse_map(map_bytes(d.records()) + rest) == Some((d.records(), map_bytes(d.records()).len())),
{
    lemma_map_round_trip(d.records(), rest);
}

/// The encodings of the diffs of all inputs, one after the other.
pub open spec fn diffs_bytes(ds: Seq<SigsDiff>) -> Seq<u8>
    decreases ds.len(),
{
    if ds.len() == 0 {
        Seq::empty()
    } else {
        diffs_bytes(ds.drop_last()) + map_bytes(ds.last().records())
    }
}

/// Encodes the diff of each input, in input order.
pub fn serialize_diffs(diffs: &Vec<SigsDiff>) -> (r: Vec<u8>)
    requires
        forall|i: int| 0 <= i < diffs@.len() ==> all_fit(#[trigger] diffs@[i].records()),
    ensures
        r@ == diffs_bytes(diffs@),
{
    let mut out: Vec<u8> = Vec::new();
    let mut i: usize = 0;
    while i < diffs.len()
        invariant
            i <= diffs@.len(),
            forall|j: int| 0 <= j < diffs@.len() ==> all_fit(#[trigger] diffs@[j].records()),
            out@ == diffs_bytes(diffs@.subrange(0, i as int)),
        decreases diffs@.len() - i,
    {
        let bytes = diffs[i].serialize();
        assert(diffs@.subrange(0, i + 1).drop_last() =~= diffs@.subrange(0, i as int));
        append_bytes(&mut out, &bytes);
        i = i + 1;
    }
    assert(diffs@.subrange(0, diffs@.len() as int) =~= diffs@);
    out
}

/// Header of a minimal partially signed transaction: the magic bytes, one
/// global record holding an unsigned transaction with one empty input and no
/// output, and the end of the global map.
pub open spec fn empty_psbt_preamble() -> Seq<u8> {
    seq![
        0x70u8, 0x73, 0x62, 0x74, 0xff, 0x01, 0x00, 0x33, 0x00, 0x00,
        0x00, 0x00, 0x01, 0x00, 0x00, 0x00, 0x00, 0x00, 0x00, 0x00,
        0x00, 0x00, 0x00, 0x00, 0x00, 0x00, 0x00, 0x00, 0x00, 0x00,
        0x00, 0x00, 0x00, 0x00, 0x00, 0x00, 0x00, 0x00, 0x00, 0x00,
        0x00, 0x00, 0x00, 0x00, 0x00, 0xff, 0xff, 0xff, 0xff, 0x00,
        0xff, 0xff, 0xff, 0xff, 0x00, 0x00, 0x00, 0x00, 0x00, 0x00,
    ]
}

/// The reply to a signing request: the minimal header followed by the
/// encoded signature material of each input.
pub fn signed_psbt(sig_bytes: &Vec<u8>) -> (r: Vec<u8>)
    ensures
        r@ == empty_psbt_preamble() + sig_bytes@,
{
    let mut out: Vec<u8> = vec![
        0x70u8, 0x73, 0x62, 0x74, 0xff, 0x01, 0x00, 0x33, 0x00, 0x00,
        0x00, 0x00, 0x01, 0x00, 0x00, 0x00, 0x00, 0x00, 0x00, 0x00,
        0x00, 0x00, 0x00, 0x00, 0x00, 0x00, 0x00, 0x00, 0x00, 0x00,
        0x00, 0x00, 0x00, 0x00, 0x00, 0x00, 0x00, 0x00, 0x00, 0x00,
        0x00, 0x00, 0x00, 0x00, 0x00, 0xff, 0xff, 0xff, 0xff, 0x00,
        0xff, 0xff, 0xff, 0xff, 0x00, 0x00, 0x00, 0x00, 0x00, 0x00,
    ];
    assert(out@ =~= empty_psbt_preamble());
    append_bytes(&mut out, sig_bytes);
    out
}

} // verus!
