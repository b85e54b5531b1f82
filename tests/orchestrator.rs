use portal_core::orchestrator::{handle_idle, handle_waiting_for_psbt, CurrentState, IdleStep, Request};
use portal_core::policy::{ExtendedKey, ScriptType, SetDescriptorVariant};

#[test]
fn idle_answers_info_and_refuses_unexpected() {
    assert!(matches!(handle_idle(Request::GetInfo), IdleStep::ReplyInfo));
    assert!(matches!(handle_idle(Request::SignPsbt(vec![1])), IdleStep::ReplyUnexpected));
    assert!(matches!(handle_idle(Request::Other), IdleStep::ReplyUnexpected));
}

#[test]
fn idle_starts_flows_fresh() {
    match handle_idle(Request::DisplayAddress(7)) {
        IdleStep::Start(CurrentState::DisplayAddress { index, resumable, is_fast_boot }) => {
            assert_eq!(index, 7);
            assert_eq!(resumable.page, 0);
            assert!(!is_fast_boot);
        }
        _ => panic!("expected the address flow"),
    }
    assert!(matches!(handle_idle(Request::BeginSignPsbt), IdleStep::Start(CurrentState::WaitingForPsbt)));
    assert!(matches!(handle_idle(Request::WipeDevice), IdleStep::Start(CurrentState::WipeDevice)));
    match handle_idle(Request::GetXpub(vec![1, 2])) {
        IdleStep::Start(CurrentState::GetXpub { derivation_path, resumable, .. }) => {
            assert_eq!(derivation_path, vec![1, 2]);
            assert_eq!(resumable.page, 0);
        }
        _ => panic!("expected the xpub flow"),
    }
}

#[test]
fn waiting_for_psbt_takes_only_a_transaction() {
    match handle_waiting_for_psbt(Request::SignPsbt(vec![9, 9])) {
        Some(CurrentState::SignPsbt { psbt }) => assert_eq!(psbt, vec![9, 9]),
        _ => panic!("expected signing"),
    }
    assert!(handle_waiting_for_psbt(Request::GetInfo).is_none());
}

#[test]
fn set_descriptor_keeps_script_type() {
    let key = ExtendedKey { origin: None, xkey: vec![1; 78], path: vec![] };
    let req = Request::SetDescriptor { variant: SetDescriptorVariant::SingleSig(key), script_type: ScriptType::WrappedSegwit, bsms: None };
    match handle_idle(req) {
        IdleStep::Start(CurrentState::SetDescriptor { script_type, resumable, is_fast_boot, .. }) => {
            assert_eq!(script_type, ScriptType::WrappedSegwit);
            assert_eq!(resumable.page, 0);
            assert!(!is_fast_boot);
        }
        _ => panic!("expected the descriptor flow"),
    }
}
