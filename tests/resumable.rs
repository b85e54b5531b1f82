use portal_core::record::{decode_record, encode_record, CheckpointRecord};
use portal_core::resumable::{Checkpoint, CheckpointVariant, ConfirmEvent, ConfirmOutcome, Resumable, ResumableState};

#[test]
fn fresh_cursor_starts_at_zero() {
    assert_eq!(Resumable::fresh().page, 0);
    let r = Resumable::fresh();
    assert_eq!(r.single_page_with_offset(0), Some((ResumableState { page: 0 }, true)));
    assert_eq!(r.single_page_with_offset(1), Some((ResumableState { page: 1 }, false)));
}

#[test]
fn pages_behind_cursor_are_skipped() {
    let r = Resumable { page: 2 };
    assert_eq!(r.single_page_with_offset(0), None);
    assert_eq!(r.single_page_with_offset(1), None);
    assert_eq!(r.single_page_with_offset(2), Some((ResumableState { page: 2 }, true)));
    assert_eq!(r.single_page_with_offset(3), Some((ResumableState { page: 3 }, false)));
}

#[test]
fn wrap_iter_with_offset_starts_at_cursor() {
    let r = Resumable { page: 3 };
    let slots = r.wrap_iter_with_offset(2, 3);
    assert_eq!(slots.len(), 2);
    assert_eq!((slots[0].item, slots[0].state.page, slots[0].draw), (1, 3, true));
    assert_eq!((slots[1].item, slots[1].state.page, slots[1].draw), (2, 4, false));
    assert!(Resumable { page: 9 }.wrap_iter_with_offset(2, 3).is_empty());
    let before = Resumable { page: 0 }.wrap_iter_with_offset(2, 2);
    assert_eq!(before.len(), 2);
    assert!(!before[0].draw && !before[1].draw);
}

#[test]
fn resumed_runs_confirm_from_cursor_and_draw_once() {
    let n = 4usize;
    for k in 0..=n {
        let r = Resumable { page: k };
        let mut confirmed = Vec::new();
        let mut draws = Vec::new();
        for i in 0..n {
            if let Some((state, draw)) = r.single_page_with_offset(i) {
                confirmed.push(state.page);
                if draw {
                    draws.push(i);
                }
            }
        }
        assert_eq!(confirmed, (k..n).collect::<Vec<_>>());
        if k < n {
            assert_eq!(draws, vec![k]);
        } else {
            assert!(draws.is_empty());
        }
        let slots = r.wrap_iter(n);
        assert_eq!(slots.iter().map(|s| s.item).collect::<Vec<_>>(), (k..n).collect::<Vec<_>>());
        assert_eq!(slots.iter().filter(|s| s.draw).count(), if k < n { 1 } else { 0 });
    }
}

#[test]
fn confirming_a_page_moves_cursor_forward() {
    let mut c = Checkpoint::new_with_key(CheckpointVariant::SignPsbt, Some(vec![1, 2]), Some(Resumable::fresh()), [7u8; 24]);
    c.confirm_page(ResumableState { page: 0 });
    assert_eq!(c.resumable, Some(Resumable { page: 1 }));
    c.confirm_page(ResumableState { page: 3 });
    assert_eq!(c.resumable, Some(Resumable { page: 4 }));
    assert_eq!(c.variant, CheckpointVariant::SignPsbt);
    assert_eq!(c.aux_data, Some(vec![1, 2]));
    assert_eq!(c.encryption_key, [7u8; 24]);
}

#[test]
fn record_round_trip_and_layout() {
    let bytes = encode_record(CheckpointVariant::DisplayAddress(0x0102_0304), 3, &Some(vec![0xaa, 0xbb]));
    assert_eq!(
        bytes,
        vec![
            0x01, 0x00, 0x05, 0x01, 0x04, 0x03, 0x02, 0x01, 0x01, 0x01, 0x08, 3, 0, 0, 0, 0, 0, 0, 0, 0x01, 0x02, 0x02, 0xaa,
            0xbb, 0x00
        ]
    );
    let rec = decode_record(&bytes).unwrap();
    assert_eq!(rec.variant, CheckpointVariant::DisplayAddress(0x0102_0304));
    assert_eq!(rec.cursor, 3);
    assert_eq!(rec.sealed_aux, Some(vec![0xaa, 0xbb]));
    let plain = encode_record(CheckpointVariant::SignPsbt, 0, &None);
    let rec = decode_record(&plain).unwrap();
    assert_eq!((rec.variant, rec.cursor, rec.sealed_aux), (CheckpointVariant::SignPsbt, 0, None));
}

#[test]
fn damaged_records_are_refused() {
    let mut bytes = encode_record(CheckpointVariant::GetXpub, 1, &None);
    bytes.push(0);
    assert!(decode_record(&bytes).is_none());
    assert!(decode_record(&vec![0x02, 0x00, 0x09, 0x01, 0x00, 0x00]).is_none());
    assert!(decode_record(&vec![]).is_none());
}

#[test]
fn resume_needs_opened_data() {
    let sealed = CheckpointRecord { variant: CheckpointVariant::SignPsbt, cursor: 2, sealed_aux: Some(vec![1]) };
    assert!(Checkpoint::resume(&sealed, None, [1; 24]).is_none());
    let c = Checkpoint::resume(&sealed, Some(vec![9]), [1; 24]).unwrap();
    assert_eq!(c.resumable, Some(Resumable { page: 2 }));
    assert_eq!(c.aux_data, Some(vec![9]));
    let bare = CheckpointRecord { variant: CheckpointVariant::SetDescriptor, cursor: 0, sealed_aux: None };
    assert_eq!(Checkpoint::resume(&bare, None, [1; 24]).unwrap().aux_data, None);
}

#[test]
fn confirmation_loop_steps() {
    let mut c = Checkpoint::new_with_key(CheckpointVariant::SetDescriptor, None, Some(Resumable { page: 2 }), [0; 24]);
    assert_eq!(c.confirm_step(ResumableState { page: 2 }, ConfirmEvent::Other), ConfirmOutcome::Waiting);
    assert_eq!(c.resumable, Some(Resumable { page: 2 }));
    assert_eq!(c.confirm_step(ResumableState { page: 1 }, ConfirmEvent::Confirm), ConfirmOutcome::OutOfOrder);
    assert_eq!(c.resumable, Some(Resumable { page: 2 }));
    assert_eq!(c.confirm_step(ResumableState { page: 2 }, ConfirmEvent::Confirm), ConfirmOutcome::Approved);
    assert_eq!(c.resumable, Some(Resumable { page: 3 }));
    assert_eq!(c.confirm_step(ResumableState { page: 3 }, ConfirmEvent::Reject), ConfirmOutcome::Cancelled);
    assert_eq!(c.confirm_step(ResumableState { page: 3 }, ConfirmEvent::Timeout), ConfirmOutcome::Cancelled);
    assert_eq!(c.resumable, Some(Resumable { page: 3 }));
    let mut none = Checkpoint::new_with_key(CheckpointVariant::GetXpub, None, None, [0; 24]);
    assert_eq!(none.confirm_step(ResumableState { page: 0 }, ConfirmEvent::Confirm), ConfirmOutcome::OutOfOrder);
}
