//! Request dispatch of the device: what each inbound request does in the
//! idle state and while a transaction is awaited.

use vstd::prelude::*;

use crate::policy::{BsmsRound2, ScriptType, SetDescriptorVariant};
use crate::resumable::Resumable;

verus! {

/// A request from the host.
#[derive(Clone, Debug)]
pub enum Request {
    GetInfo,
    DisplayAddress(u32),
    BeginSignPsbt,
    PublicDescriptor,
    GetXpub(Vec<u32>),
    SetDescriptor { variant: SetDescriptorVariant, script_type: ScriptType, bsms: Option<BsmsRound2> },
    BeginFwUpdate(Vec<u8>),
    WipeDevice,
    ShowMnemonic,
    SignPsbt(Vec<u8>),
    Other,
}

/// The state the device moves to.
#[derive(Clone, Debug)]
pub enum CurrentState {
    Idle,
    WaitingForPsbt,
    SignPsbt { psbt: Vec<u8> },
    DisplayAddress { index: u32, resumable: Resumable, is_fast_boot: bool },
    PublicDescriptor { resumable: Resumable, is_fast_boot: bool },
    GetXpub { derivation_path: Vec<u32>, resumable: Resumable, is_fast_boot: bool },
    SetDescriptor {
        variant: SetDescriptorVariant,
        script_type: ScriptType,
        bsms: Option<BsmsRound2>,
        resumable: Resumable,
        is_fast_boot: bool,
    },
    UpdatingFw { header: Vec<u8> },
    WipeDevice,
    ShowMnemonic { resumable: Resumable, is_fast_boot: bool },
}

/// What the idle loop does with a request: answer it and stay, or start a
/// flow.
#[derive(Clone, Debug)]
pub enum IdleStep {
    ReplyInfo,
    ReplyUnexpected,
    Start(CurrentState),
}

/// A flow that a request starts fresh: cursor at zero, not resumed.
pub open spec fn starts_fresh(s: CurrentState) -> bool {
    match s {
        CurrentState::DisplayAddress { resumable, is_fast_boot, .. } => resumable.page == 0 && !is_fast_boot,
        CurrentState::PublicDescriptor { resumable, is_fast_boot } => resumable.page == 0 && !is_fast_boot,
        CurrentState::GetXpub { resumable, is_fast_boot, .. } => resumable.page == 0 && !is_fast_boot,
        CurrentState::SetDescriptor { resumable, is_fast_boot, .. } => resumable.page == 0 && !is_fast_boot,
        CurrentState::ShowMnemonic { resumable, is_fast_boot } => resumable.page == 0 && !is_fast_boot,
        _ => true,
    }
}

/// What a request does in the idle state: information is answered in
/// place, a request that the idle state does not take is answered as
/// unexpected with no change of state, and every other request starts its
/// flow from its first page.
pub fn handle_idle(request: Request) -> (r: IdleStep)
    ensures
        match request {
            Request::GetInfo => r is ReplyInfo,
            Request::SignPsbt(_) | Request::Other => r is ReplyUnexpected,
            Request::DisplayAddress(index) => r matches IdleStep::Start(CurrentState::DisplayAddress { index: i, .. }) && i == index,
            Request::BeginSignPsbt => r matches IdleStep::Start(CurrentState::WaitingForPsbt),
            Request::PublicDescriptor => r matches IdleStep::Start(CurrentState::PublicDescriptor { .. }),
            Request::GetXpub(p) => r matches IdleStep::Start(CurrentState::GetXpub { derivation_path, .. }) && derivation_path == p,
            Request::SetDescriptor { variant, script_type, bsms } => r matches IdleStep::Start(
                CurrentState::SetDescriptor { variant: v, script_type: t, bsms: b, .. },
            ) && v == variant && t == script_type && b == bsms,
            Request::BeginFwUpdate(h) => r matches IdleStep::Start(CurrentState::UpdatingFw { header }) && header == h,
            Request::WipeDevice => r matches IdleStep::Start(CurrentState::WipeDevice),
            Request::ShowMnemonic => r matches IdleStep::Start(CurrentState::ShowMnemonic { .. }),
        },
        r matches IdleStep::Start(s) ==> starts_fresh(s),
{
    match request {
        Request::GetInfo => IdleStep::ReplyInfo,
        Request::DisplayAddress(index) => IdleStep::Start(
            CurrentState::DisplayAddress { index, resumable: Resumable::fresh(), is_fast_boot: false },
        ),
        Request::BeginSignPsbt => IdleStep::Start(CurrentState::WaitingForPsbt),
        Request::PublicDescriptor => IdleStep::Start(
            CurrentState::PublicDescriptor { resumable: Resumable::fresh(), is_fast_boot: false },
        ),
        Request::GetXpub(derivation_path) => IdleStep::Start(
            CurrentState::GetXpub { derivation_path, resumable: Resumable::fresh(), is_fast_boot: false },
        ),
        Request::SetDescriptor { variant, script_type, bsms } => IdleStep::Start(
            CurrentState::SetDescriptor { variant, script_type, bsms, resumable: Resumable::fresh(), is_fast_boot: false },
        ),
        Request::BeginFwUpdate(header) => IdleStep::Start(CurrentState::UpdatingFw { header }),
        Request::WipeDevice => IdleStep::Start(CurrentState::WipeDevice),
        Request::ShowMnemonic => IdleStep::Start(
            CurrentState::ShowMnemonic { resumable: Resumable::fresh(), is_fast_boot: false },
        ),
        Request::SignPsbt(_) | Request::Other => IdleStep::ReplyUnexpected,
    }
}

/// What a request does while a transaction is awaited: the transaction
/// starts signing; anything else breaks the protocol (`None`).
pub fn handle_waiting_for_psbt(request: Request) -> (r: Option<CurrentState>)
    ensures
        match request {
            Request::SignPsbt(p) => r matches Some(CurrentState::SignPsbt { psbt }) && psbt == p,
            _ => r is None,
        },
{
    match request {
        Request::SignPsbt(psbt) => Some(CurrentState::SignPsbt { psbt }),
        _ => None,
    }
}

} // verus!
