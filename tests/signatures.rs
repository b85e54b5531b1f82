use portal_core::codec::decode_map;
use portal_core::signatures::{serialize_diffs, signed_psbt, CurrentSignatures, InputSigs, SigsDiff};

fn input(partial: &[(&[u8], &[u8])], tap_key: Option<&[u8]>, script: &[(&[u8], &[u8])]) -> InputSigs {
    let mut i = InputSigs::new();
    for (k, v) in partial {
        i.insert_partial_sig(k.to_vec(), v.to_vec());
    }
    i.tap_key_sig = tap_key.map(|s| s.to_vec());
    for (k, v) in script {
        i.insert_tap_script_sig(k.to_vec(), v.to_vec());
    }
    i
}

#[test]
fn insert_keeps_keys_ascending_and_replaces() {
    let mut i = InputSigs::new();
    i.insert_partial_sig(vec![3], vec![30]);
    i.insert_partial_sig(vec![1], vec![10]);
    i.insert_partial_sig(vec![2, 0], vec![20]);
    i.insert_partial_sig(vec![2], vec![21]);
    i.insert_partial_sig(vec![1], vec![11]);
    let keys: Vec<Vec<u8>> = i.partial_sigs.iter().map(|e| e.0.clone()).collect();
    assert_eq!(keys, vec![vec![1], vec![2], vec![2, 0], vec![3]]);
    assert_eq!(i.partial_sigs[0].1, vec![11]);
}

#[test]
fn snapshot_records_present_slots() {
    let before = vec![input(&[(&[2], &[20]), (&[1], &[10])], Some(&[5]), &[(&[9], &[90])])];
    let snap = CurrentSignatures::from_psbt(&before);
    assert_eq!(snap.len(), 1);
    assert_eq!(snap[0].partial_sigs, vec![vec![1], vec![2]]);
    assert!(snap[0].tap_key_sig);
    assert_eq!(snap[0].tap_script_sigs, vec![vec![9]]);
}

#[test]
fn diff_holds_only_new_slots() {
    let before = vec![input(&[(&[1], &[10])], None, &[(&[8], &[80])]), input(&[], Some(&[4]), &[])];
    let snap = CurrentSignatures::from_psbt(&before);
    let after = vec![
        input(&[(&[1], &[10]), (&[2], &[20])], Some(&[5]), &[(&[8], &[80]), (&[7], &[70])]),
        input(&[(&[3], &[30])], Some(&[6]), &[]),
    ];
    let diff = CurrentSignatures::diff(&snap, &after);
    assert_eq!(diff.len(), 2);
    assert_eq!(diff[0].partial_sigs, vec![(vec![2], vec![20])]);
    assert_eq!(diff[0].tap_key_sig, Some(vec![5]));
    assert_eq!(diff[0].tap_script_sigs, vec![(vec![7], vec![70])]);
    assert_eq!(diff[1].partial_sigs, vec![(vec![3], vec![30])]);
    let many = vec![input(&[(&[5], &[1]), (&[1], &[1]), (&[9], &[1]), (&[3], &[1])], None, &[])];
    let d = CurrentSignatures::diff(&CurrentSignatures::from_psbt(&vec![input(&[(&[3], &[1])], None, &[])]), &many);
    let keys: Vec<Vec<u8>> = d[0].partial_sigs.iter().map(|e| e.0.clone()).collect();
    assert_eq!(keys, vec![vec![1], vec![5], vec![9]]);
    assert_eq!(diff[1].tap_key_sig, None);
    assert!(diff[1].tap_script_sigs.is_empty());
}

#[test]
fn diff_against_own_snapshot_is_empty() {
    let after = vec![input(&[(&[1], &[10]), (&[2], &[20])], Some(&[5]), &[(&[7], &[70])])];
    let snap = CurrentSignatures::from_psbt(&after);
    let diff = CurrentSignatures::diff(&snap, &after);
    assert!(diff[0].partial_sigs.is_empty());
    assert!(diff[0].tap_key_sig.is_none());
    assert!(diff[0].tap_script_sigs.is_empty());
}

#[test]
fn diff_stops_at_shorter_list() {
    let snap = CurrentSignatures::from_psbt(&vec![InputSigs::new()]);
    let diff = CurrentSignatures::diff(&snap, &vec![InputSigs::new(), InputSigs::new()]);
    assert_eq!(diff.len(), 1);
}

#[test]
fn diff_serializes_three_record_types() {
    let d = SigsDiff {
        partial_sigs: vec![(vec![0xaa], vec![0x30, 0x01])],
        tap_key_sig: Some(vec![0x55, 0x55]),
        tap_script_sigs: vec![(vec![0xbb, 0xbb], vec![0x66])],
    };
    let bytes = d.serialize();
    assert_eq!(
        bytes,
        vec![0x02, 0x02, 0xaa, 0x02, 0x30, 0x01, 0x01, 0x13, 0x02, 0x55, 0x55, 0x03, 0x14, 0xbb, 0xbb, 0x01, 0x66, 0x00]
    );
    let (pairs, used) = decode_map(&bytes, 0).unwrap();
    assert_eq!(used, bytes.len());
    let triples: Vec<(u8, Vec<u8>, Vec<u8>)> = pairs.into_iter().map(|p| (p.key.type_value, p.key.key, p.value)).collect();
    assert_eq!(
        triples,
        vec![(0x02, vec![0xaa], vec![0x30, 0x01]), (0x13, vec![], vec![0x55, 0x55]), (0x14, vec![0xbb, 0xbb], vec![0x66])]
    );
}

#[test]
fn empty_diff_is_one_zero_byte() {
    let d = SigsDiff { partial_sigs: vec![], tap_key_sig: None, tap_script_sigs: vec![] };
    assert_eq!(d.serialize(), vec![0x00]);
    assert_eq!(serialize_diffs(&vec![d.clone(), d]), vec![0x00, 0x00]);
}

#[test]
fn signed_psbt_has_fixed_header() {
    let out = signed_psbt(&vec![0xab, 0x00]);
    assert_eq!(out.len(), 62);
    assert_eq!(&out[0..5], &[0x70, 0x73, 0x62, 0x74, 0xff]);
    assert_eq!(&out[5..8], &[0x01, 0x00, 0x33]);
    assert_eq!(out[59], 0x00);
    assert_eq!(&out[60..], &[0xab, 0x00]);
}
