//! The rules of the NNS root canister's endpoints.
use vstd::prelude::*;

verus! {

broadcast use vstd::string::to_string_from_display_ensures_for_str;

/// An NNS canister, by its index on the NNS subnet.
pub type CanisterIndex = u64;

pub const GOVERNANCE_CANISTER_INDEX: CanisterIndex = 1;

pub const ROOT_CANISTER_INDEX: CanisterIndex = 3;

pub const LIFELINE_CANISTER_INDEX: CanisterIndex = 5;

/// Why a root endpoint refuses a call.
#[derive(Clone, Copy, Debug, PartialEq, Eq, Structural)]
pub enum RootRejection {
    /// The endpoint was removed.
    RemovedMethod,
    /// The governance, root and lifeline canisters cannot be stopped or started.
    ProtectedCanister,
    /// The caller is not the governance canister, the only one allowed.
    CallerNotGovernance,
}

impl RootRejection {
    /// A description of the refusal: for a removed method and for a
    /// protected canister, the text the canister traps with; for a caller
    /// that is not governance, a description of this library's own (the
    /// canister's text comes from its access-control library).
    pub fn message(&self) -> (res: String)
        ensures
            res@ == match self {
                RootRejection::RemovedMethod => "This method was removed in PR 11215. Use instead function `manage_neuron` on the Governance canister to submit a proposal to change an NNS canister."@,
                RootRejection::ProtectedCanister => "The governance, root and lifeline canisters can't be stopped or started."@,
                RootRejection::CallerNotGovernance => "Only the governance canister may call this method."@,
            },
    {
        match self {
            RootRejection::RemovedMethod => "This method was removed in PR 11215. Use instead function `manage_neuron` on the Governance canister to submit a proposal to change an NNS canister.".to_string(),
            RootRejection::ProtectedCanister => "The governance, root and lifeline canisters can't be stopped or started.".to_string(),
            RootRejection::CallerNotGovernance => "Only the governance canister may call this method.".to_string(),
        }
    }
}

/// The endpoint for proposals that change an NNS canister was removed: every
/// call is refused (proposals go through the governance canister).
pub fn submit_change_nns_canister_proposal() -> (res: Result<(), RootRejection>)
    ensures
        res == Err::<(), RootRejection>(RootRejection::RemovedMethod),
{
    Err(RootRejection::RemovedMethod)
}

/// Whether the root canister may stop or start `canister`: not the
/// governance, root or lifeline canister.
pub fn check_stop_or_start_allowed(canister: CanisterIndex) -> (res: Result<(), RootRejection>)
    ensures
        res is Ok <==> canister != GOVERNANCE_CANISTER_INDEX && canister != ROOT_CANISTER_INDEX
            && canister != LIFELINE_CANISTER_INDEX,
        res is Err ==> res == Err::<(), RootRejection>(RootRejection::ProtectedCanister),
        res == check_stop_or_start_allowed_spec(canister),
{
    if canister == GOVERNANCE_CANISTER_INDEX || canister == ROOT_CANISTER_INDEX || canister
        == LIFELINE_CANISTER_INDEX {
        Err(RootRejection::ProtectedCanister)
    } else {
        Ok(())
    }
}

/// The endpoint that stops or starts an NNS canister: the caller (`None`
/// when it is not an NNS canister) must be the governance canister, checked
/// first; then the canister must not be a protected one. `Ok` means the
/// canister is stopped or started.
pub fn stop_or_start_nns_canister(caller: Option<CanisterIndex>, canister: CanisterIndex) -> (res: Result<
    (),
    RootRejection,
>)
    ensures
        caller != Some(GOVERNANCE_CANISTER_INDEX) ==> res == Err::<(), RootRejection>(RootRejection::CallerNotGovernance),
        caller == Some(GOVERNANCE_CANISTER_INDEX) ==> res == check_stop_or_start_allowed_spec(canister),
{
    match caller {
        Some(c) => {
            if c != GOVERNANCE_CANISTER_INDEX {
                return Err(RootRejection::CallerNotGovernance);
            }
        },
        None => return Err(RootRejection::CallerNotGovernance),
    }
    check_stop_or_start_allowed(canister)
}

/// The outcome of [`check_stop_or_start_allowed`].
pub open spec fn check_stop_or_start_allowed_spec(canister: CanisterIndex) -> Result<(), RootRejection> {
    if canister == GOVERNANCE_CANISTER_INDEX || canister == ROOT_CANISTER_INDEX || canister == LIFELINE_CANISTER_INDEX {
        Err(RootRejection::ProtectedCanister)
    } else {
        Ok(())
    }
}

} // verus!
