use ic_replica_core::adapters::AdaptersConfig;
use ic_replica_core::metrics_exporter::{
    connection_action, exporter_task, file_on_shutdown, ConnectionAction, Exporter, ExporterTask,
};
use ic_replica_core::nns_root::{
    check_stop_or_start_allowed, stop_or_start_nns_canister, submit_change_nns_canister_proposal, RootRejection,
    GOVERNANCE_CANISTER_INDEX, ROOT_CANISTER_INDEX,
};
use ic_replica_core::query_handler::{anonymous_query_response, AnonymousQueryResponse, RejectCode, UserError, WasmResult};
use ic_replica_core::replica_args::{ConfigSource, ReplicaArgs};
use ic_replica_core::sns_test_support::{neuron_stake_subaccount_preimage, vote_code};

#[test]
fn adapters_default_to_none() {
    let c = AdaptersConfig::default();
    assert_eq!(c.bitcoin_mainnet_uds_path, None);
    assert_eq!(c.bitcoin_testnet_uds_path, None);
    assert_eq!(c.canister_http_uds_path, None);
}

#[test]
fn exporter_tasks() {
    assert_eq!(exporter_task(&Exporter::Http { port: 9090 }), ExporterTask::ServeHttp { port: 9090 });
    assert_eq!(exporter_task(&Exporter::Log), ExporterTask::DumpToLog { interval_secs: 30 });
    let file = Exporter::File { path: "/tmp/m".to_owned() };
    assert_eq!(exporter_task(&file), ExporterTask::Nothing);
    assert_eq!(file_on_shutdown(&file), Some("/tmp/m".to_owned()));
    assert_eq!(file_on_shutdown(&Exporter::Log), None);
}

#[test]
fn connections_by_first_byte() {
    assert_eq!(connection_action(Some(22), true), ConnectionAction::TlsThenHttp);
    assert_eq!(connection_action(Some(22), false), ConnectionAction::Drop);
    assert_eq!(connection_action(Some(b'G'), true), ConnectionAction::PlainHttp);
    assert_eq!(connection_action(None, true), ConnectionAction::PlainHttp);
}

#[test]
fn root_canister_endpoints() {
    assert_eq!(submit_change_nns_canister_proposal(), Err(RootRejection::RemovedMethod));
    assert!(RootRejection::RemovedMethod.message().contains("manage_neuron"));
    for protected in [1u64, 3, 5] {
        assert_eq!(check_stop_or_start_allowed(protected), Err(RootRejection::ProtectedCanister));
    }
    assert_eq!(check_stop_or_start_allowed(2), Ok(()));
    assert_eq!(
        RootRejection::ProtectedCanister.message(),
        "The governance, root and lifeline canisters can't be stopped or started."
    );
}

fn args() -> ReplicaArgs {
    ReplicaArgs {
        print_sample_config: false,
        config_file: None,
        config_literal: None,
        catch_up_package: None,
        replica_version: "0.1".to_owned(),
        nns_public_key_file: None,
        force_subnet: None,
    }
}

#[test]
fn config_source_precedence() {
    let mut a = args();
    assert_eq!(ConfigSource::from_args(&a), ConfigSource::Default);
    a.config_literal = Some("{}".to_owned());
    assert_eq!(ConfigSource::from_args(&a), ConfigSource::Literal("{}".to_owned()));
    a.config_file = Some("/etc/ic.json5".to_owned());
    assert_eq!(ConfigSource::from_args(&a), ConfigSource::File("/etc/ic.json5".to_owned()));
}

#[test]
fn anonymous_query_answers() {
    assert_eq!(
        anonymous_query_response(Ok(WasmResult::Reply(vec![1, 2]))),
        AnonymousQueryResponse::Replied { arg: vec![1, 2] }
    );
    assert_eq!(
        anonymous_query_response(Ok(WasmResult::Reject("no".to_owned()))),
        AnonymousQueryResponse::Rejected { reject_code: RejectCode::CanisterReject, reject_message: "no".to_owned() }
    );
    let e = UserError { reject_code: RejectCode::DestinationInvalid, description: "gone".to_owned() };
    assert_eq!(
        anonymous_query_response(Err(e)),
        AnonymousQueryResponse::Rejected { reject_code: RejectCode::DestinationInvalid, reject_message: "gone".to_owned() }
    );
}

#[test]
fn stake_subaccount_preimage() {
    let p = neuron_stake_subaccount_preimage(&vec![0xaa, 0xbb]);
    let mut expected = vec![0x0c];
    expected.extend_from_slice(b"neuron-stake");
    expected.extend_from_slice(&[0xaa, 0xbb]);
    expected.extend_from_slice(&12345u64.to_be_bytes());
    assert_eq!(p, expected);
}

#[test]
fn vote_codes() {
    assert_eq!(vote_code(true), 1);
    assert_eq!(vote_code(false), 2);
}

#[test]
fn only_governance_may_stop_or_start() {
    assert_eq!(stop_or_start_nns_canister(None, 2), Err(RootRejection::CallerNotGovernance));
    assert_eq!(stop_or_start_nns_canister(Some(ROOT_CANISTER_INDEX), 2), Err(RootRejection::CallerNotGovernance));
    assert_eq!(
        stop_or_start_nns_canister(Some(ROOT_CANISTER_INDEX), GOVERNANCE_CANISTER_INDEX),
        Err(RootRejection::CallerNotGovernance)
    );
    assert_eq!(
        stop_or_start_nns_canister(Some(GOVERNANCE_CANISTER_INDEX), ROOT_CANISTER_INDEX),
        Err(RootRejection::ProtectedCanister)
    );
    assert_eq!(stop_or_start_nns_canister(Some(GOVERNANCE_CANISTER_INDEX), 2), Ok(()));
}
