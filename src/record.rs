//! Durable form of a checkpoint: which flow, how far it got, and its
//! auxiliary data as sealed by the caller, laid out as a key/value map.

use vstd::arithmetic::div_mod::lemma_small_mod;
use vstd::prelude::*;

use crate::codec::{
    all_fit, decode_map, lemma_le_round_trip, lemma_le_value_bound, lemma_map_round_trip, lemma_pow256_small, le_bytes,
    le_value, map_bytes, pow256, parse_map, read_le, records, serialize_map, write_le, Key, Pair, Record,
};
use crate::resumable::{Checkpoint, CheckpointVariant, Resumable};
use crate::signatures::opt_view;

verus! {

/// Record type of the flow's tag.
pub const RECORD_VARIANT: u8 = 0x00;

/// Record type of the cursor, eight bytes least significant first.
pub const RECORD_CURSOR: u8 = 0x01;

/// Record type of the sealed auxiliary data.
pub const RECORD_AUX: u8 = 0x02;

/// The tag of a flow: one byte, followed for an address display by the
/// address index in four bytes.
pub open spec fn variant_bytes(v: CheckpointVariant) -> Seq<u8> {
    match v {
        CheckpointVariant::SignPsbt => seq![0u8],
        CheckpointVariant::DisplayAddress(i) => seq![1u8] + le_bytes(i as nat, 4),
        CheckpointVariant::PublicDescriptor => seq![2u8],
        CheckpointVariant::GetXpub => seq![3u8],
        CheckpointVariant::SetDescriptor => seq![4u8],
        CheckpointVariant::ShowMnemonic => seq![5u8],
    }
}

/// The flow that a tag names.
pub open spec fn variant_of(s: Seq<u8>) -> Option<CheckpointVariant> {
    if s.len() == 1 {
        if s[0] == 0 {
            Some(CheckpointVariant::SignPsbt)
        } else if s[0] == 2 {
            Some(CheckpointVariant::PublicDescriptor)
        } else if s[0] == 3 {
            Some(CheckpointVariant::GetXpub)
        } else if s[0] == 4 {
            Some(CheckpointVariant::SetDescriptor)
        } else if s[0] == 5 {
            Some(CheckpointVariant::ShowMnemonic)
        } else {
            None
        }
    } else if s.len() == 5 && s[0] == 1 {
        Some(CheckpointVariant::DisplayAddress(le_value(s.subrange(1, 5)) as u32))
    } else {
        None
    }
}

/// The records of a checkpoint: tag, cursor, then the sealed data if any.
pub open spec fn record_pairs(v: CheckpointVariant, cursor: nat, aux: Option<Seq<u8>>) -> Seq<Record> {
    seq![(RECORD_VARIANT, Seq::<u8>::empty(), variant_bytes(v)), (RECORD_CURSOR, Seq::<u8>::empty(), le_bytes(cursor, 8))]
        + match aux {
        Some(a) => seq![(RECORD_AUX, Seq::<u8>::empty(), a)],
        None => Seq::empty(),
    }
}

/// What a list of records says of a checkpoint, where it is one.
pub open spec fn record_of(rs: Seq<Record>) -> Option<(CheckpointVariant, nat, Option<Seq<u8>>)> {
    if (rs.len() == 2 || rs.len() == 3) && rs[0].0 == RECORD_VARIANT && rs[0].1.len() == 0 && rs[1].0
        == RECORD_CURSOR && rs[1].1.len() == 0 && rs[1].2.len() == 8 && le_value(rs[1].2) <= usize::MAX && (
    rs.len() == 3 ==> rs[2].0 == RECORD_AUX && rs[2].1.len() == 0) {
        match variant_of(rs[0].2) {
            Some(v) => Some((v, le_value(rs[1].2), if rs.len() == 3 {
                Some(rs[2].2)
            } else {
                None
            })),
            None => None,
        }
    } else {
        None
    }
}

/// Reads a stored checkpoint: exactly one map, holding a checkpoint's
/// records.
pub open spec fn parse_record(bytes: Seq<u8>) -> Option<(CheckpointVariant, nat, Option<Seq<u8>>)> {
    match parse_map(bytes) {
        Some((rs, u)) => if u == bytes.len() {
            record_of(rs)
        } else {
            None
        },
        None => None,
    }
}

/// A stored checkpoint as read back.
#[derive(Clone, Debug)]
pub struct CheckpointRecord {
    pub variant: CheckpointVariant,
    pub cursor: usize,
    pub sealed_aux: Option<Vec<u8>>,
}

fn variant_value(v: CheckpointVariant) -> (r: Vec<u8>)
    ensures
        r@ == variant_bytes(v),
{
    let mut out: Vec<u8> = Vec::new();
    match v {
        CheckpointVariant::SignPsbt => out.push(0),
        CheckpointVariant::DisplayAddress(i) => {
            out.push(1);
            write_le(&mut out, i as u64, 4);
        },
        CheckpointVariant::PublicDescriptor => out.push(2),
        CheckpointVariant::GetXpub => out.push(3),
        CheckpointVariant::SetDescriptor => out.push(4),
        CheckpointVariant::ShowMnemonic => out.push(5),
    }
    assert(out@ =~= variant_bytes(v));
    out
}

/// The bytes to store for a checkpoint of flow `variant` at `cursor`, with
/// its auxiliary data already sealed by the caller.
pub fn encode_record(variant: CheckpointVariant, cursor: usize, sealed_aux: &Option<Vec<u8>>) -> (r: Vec<u8>)
    requires
        all_fit(record_pairs(variant, cursor as nat, opt_view(*sealed_aux))),
    ensures
        r@ == map_bytes(record_pairs(variant, cursor as nat, opt_view(*sealed_aux))),
{
    let mut cursor_bytes: Vec<u8> = Vec::new();
    write_le(&mut cursor_bytes, cursor as u64, 8);
    assert(cursor_bytes@ =~= le_bytes(cursor as nat, 8));
    let mut pairs: Vec<Pair> = Vec::new();
    pairs.push(Pair { key: Key { type_value: RECORD_VARIANT, key: Vec::new() }, value: variant_value(variant) });
    pairs.push(Pair { key: Key { type_value: RECORD_CURSOR, key: Vec::new() }, value: cursor_bytes });
    if let Some(a) = sealed_aux {
        let copy = a.clone();
        assert(copy@ =~= a@);
        pairs.push(Pair { key: Key { type_value: RECORD_AUX, key: Vec::new() }, value: copy });
    }
    assert(records(pairs@) =~= record_pairs(variant, cursor as nat, opt_view(*sealed_aux)));
    serialize_map(&pairs)
}

/// Reads stored bytes back as a checkpoint record; `None` where they are
/// not one.
pub fn decode_record(bytes: &Vec<u8>) -> (r: Option<CheckpointRecord>)
    ensures
        match parse_record(bytes@) {
            Some((v, c, a)) => r matches Some(rec) && rec.variant == v && rec.cursor == c && opt_view(rec.sealed_aux) == a,
            None => r is None,
        },
{
    assert(bytes@.subrange(0, bytes@.len() as int) =~= bytes@);
    let (pairs, used) = match decode_map(bytes, 0) {
        Some(x) => x,
        None => {
            return None;
        },
    };
    let ghost rs = records(pairs@);
    if used != bytes.len() || (pairs.len() != 2 && pairs.len() != 3) {
        return None;
    }
    assert(rs[0] == pairs@[0].record());
    assert(rs[1] == pairs@[1].record());
    let tag_pair = &pairs[0];
    let cursor_pair = &pairs[1];
    if tag_pair.key.type_value != RECORD_VARIANT || tag_pair.key.key.len() != 0 || cursor_pair.key.type_value != RECORD_CURSOR
        || cursor_pair.key.key.len() != 0 || cursor_pair.value.len() != 8 {
        return None;
    }
    if pairs.len() == 3 {
        assert(rs[2] == pairs@[2].record());
        if pairs[2].key.type_value != RECORD_AUX || pairs[2].key.key.len() != 0 {
            return None;
        }
    }
    let raw_cursor = read_le(&cursor_pair.value, 0, 8);
    assert(cursor_pair.value@.subrange(0, 8) =~= cursor_pair.value@);
    if raw_cursor > usize::MAX as u64 {
        return None;
    }
    let cursor = raw_cursor as usize;
    let tag = &tag_pair.value;
    let variant = if tag.len() == 1 {
        if tag[0] == 0 {
            CheckpointVariant::SignPsbt
        } else if tag[0] == 2 {
            CheckpointVariant::PublicDescriptor
        } else if tag[0] == 3 {
            CheckpointVariant::GetXpub
        } else if tag[0] == 4 {
            CheckpointVariant::SetDescriptor
        } else if tag[0] == 5 {
            CheckpointVariant::ShowMnemonic
        } else {
            return None;
        }
    } else if tag.len() == 5 && tag[0] == 1 {
        let i = read_le(tag, 1, 4);
        proof {
            lemma_le_value_bound(tag@.subrange(1, 5));
            lemma_pow256_small();
        }
        CheckpointVariant::DisplayAddress(i as u32)
    } else {
        return None;
    };
    let sealed_aux = if pairs.len() == 3 {
        let a = pairs[2].value.clone();
        assert(a@ =~= pairs[2].value@);
        Some(a)
    } else {
        None
    };
    Some(CheckpointRecord { variant, cursor, sealed_aux })
}

/// A stored checkpoint reads back as the flow, cursor and sealed data it
/// was written with.
pub proof fn lemma_record_round_trip(v: CheckpointVariant, cursor: usize, aux: Option<Seq<u8>>)
    requires
        all_fit(record_pairs(v, cursor as nat, aux)),
    ensures
        parse_record(map_bytes(record_pairs(v, cursor as nat, aux))) == Some((v, cursor as nat, aux)),
{
    let rs = record_pairs(v, cursor as nat, aux);
    let bytes = map_bytes(rs);
    lemma_map_round_trip(rs, Seq::empty());
    assert(bytes + Seq::<u8>::empty() =~= bytes);
    lemma_pow256_small();
    lemma_le_round_trip(cursor as nat, 8);
    lemma_small_mod(cursor as nat, pow256(8));
    if let CheckpointVariant::DisplayAddress(i) = v {
        lemma_le_round_trip(i as nat, 4);
        lemma_small_mod(i as nat, pow256(4));
        assert(variant_bytes(v).subrange(1, 5) =~= le_bytes(i as nat, 4));
    }
    assert(rs[0] == (RECORD_VARIANT, Seq::<u8>::empty(), variant_bytes(v)));
    assert(rs[1] == (RECORD_CURSOR, Seq::<u8>::empty(), le_bytes(cursor as nat, 8)));
}

impl Checkpoint {
    /// A checkpoint resumed from its stored record, given the auxiliary data
    /// as opened with `encryption_key` (`None` where opening failed): a
    /// record whose data could not be opened gives no checkpoint.
    pub fn resume(record: &CheckpointRecord, opened_aux: Option<Vec<u8>>, encryption_key: [u8; 24]) -> (r: Option<
        Checkpoint,
    >)
        ensures
            (record.sealed_aux is Some && opened_aux is None) <==> r is None,
            r matches Some(c) ==> {
                &&& c.variant == record.variant
                &&& c.resumable == Some(Resumable { page: record.cursor })
                &&& c.encryption_key == encryption_key
                &&& c.aux_data == if record.sealed_aux is Some {
                    opened_aux
                } else {
                    None
                }
            },
    {
        match (&record.sealed_aux, opened_aux) {
            (Some(_), None) => None,
            (Some(_), Some(aux)) => Some(
                Checkpoint::new_with_key(record.variant, Some(aux), Some(Resumable { page: record.cursor }), encryption_key),
            ),
            (None, _) => Some(
                Checkpoint::new_with_key(record.variant, None, Some(Resumable { page: record.cursor }), encryption_key),
            ),
        }
    }
}

} // verus!
