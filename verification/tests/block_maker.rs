use ic_replica_core::block_maker::{
    already_proposed, batch_payload_source, equivocation_times, get_dependencies,
    get_stable_registry_version, is_better_block_proposal_available, malicious_rank,
    payload_plan, plan_proposal, proposal_rank, validation_context_for, BatchPayloadSource, Block,
    DkgPayloadKind, PayloadPlan, RandomBeacon, RankLookup, RoundObservation, ValidationContext,
};

fn ctx(registry_version: u64, certified_height: u64, time: u64) -> ValidationContext {
    ValidationContext { registry_version, certified_height, time }
}

fn block(height: u64, rank: u64) -> Block {
    Block { height, rank, context: ctx(1, 0, 0) }
}

#[test]
fn dependencies_pick_the_first_lowest_ranked_block() {
    let beacon = RandomBeacon { height: 7 };
    let blocks = vec![block(7, 2), block(7, 1), block(7, 1), block(7, 3)];
    let (b, p) = get_dependencies(Some(beacon), &blocks).unwrap();
    assert_eq!(b, beacon);
    assert_eq!(p.rank, 1);
    assert_eq!(get_dependencies(None, &blocks), None);
    assert_eq!(get_dependencies(Some(beacon), &vec![]), None);
}

#[test]
fn already_proposed_looks_for_this_signer() {
    assert!(already_proposed(&vec![3, 4, 5], 4));
    assert!(!already_proposed(&vec![3, 5], 4));
    assert!(!already_proposed(&vec![], 4));
}

#[test]
fn better_proposal_means_lower_rank() {
    assert!(is_better_block_proposal_available(&vec![2, 0], 1));
    assert!(!is_better_block_proposal_available(&vec![1, 2], 1));
    assert!(!is_better_block_proposal_available(&vec![], 0));
}

#[test]
fn no_proposal_when_a_rank_zero_block_is_validated() {
    let obs = RoundObservation {
        rank: RankLookup::Rank(1),
        proposal_signers: vec![9],
        proposal_ranks: vec![0],
        time_to_make_block: true,
    };
    assert_eq!(proposal_rank(&obs, 2), None);
}

#[test]
fn proposal_rank_requires_every_condition() {
    let mut obs = RoundObservation {
        rank: RankLookup::Rank(1),
        proposal_signers: vec![],
        proposal_ranks: vec![],
        time_to_make_block: true,
    };
    assert_eq!(proposal_rank(&obs, 2), Some(1));
    obs.time_to_make_block = false;
    assert_eq!(proposal_rank(&obs, 2), None);
    obs.time_to_make_block = true;
    obs.proposal_signers = vec![2];
    assert_eq!(proposal_rank(&obs, 2), None);
    obs.proposal_signers = vec![];
    obs.rank = RankLookup::NotBlockMaker;
    assert_eq!(proposal_rank(&obs, 2), None);
    obs.rank = RankLookup::Unavailable;
    assert_eq!(proposal_rank(&obs, 2), None);
}

#[test]
fn test_stable_registry_version() {
    // Version 1 exists at the start; versions 2, 3 and 4 are added one delay
    // apart, version 4 just before the versions are asked for.
    let ms = 1_000_000u64;
    let delay = 1000 * ms;
    let start = 5000 * ms;
    let timestamps = vec![Some(start + 3 * delay), Some(start + 2 * delay), Some(start + delay), Some(start)];
    let now = start + 3 * delay + 5 * ms;
    let offset = delay / 10 * 3;
    assert_eq!(get_stable_registry_version(1, 4, &timestamps, offset, now), Some(3));
    assert_eq!(get_stable_registry_version(1, 4, &timestamps, offset + delay, now), Some(2));
    assert_eq!(get_stable_registry_version(1, 4, &timestamps, offset + delay * 2, now), Some(1));
    // Now the parent's version is used.
    assert_eq!(get_stable_registry_version(2, 4, &timestamps[..3].to_vec(), offset + delay * 2, now), Some(2));
}

#[test]
fn stable_registry_version_at_age_boundaries() {
    // Versions 1..=4 added at 1000, 2000, 3000, 4000 ms; now is 4300 ms.
    let ms = 1_000_000u64;
    let timestamps = vec![Some(4000 * ms), Some(3000 * ms), Some(2000 * ms), Some(1000 * ms)];
    let now = 4300 * ms;
    assert_eq!(get_stable_registry_version(1, 4, &timestamps, 300 * ms, now), Some(4));
    assert_eq!(get_stable_registry_version(1, 4, &timestamps, 400 * ms, now), Some(3));
    assert_eq!(get_stable_registry_version(1, 4, &timestamps, 1300 * ms, now), Some(3));
    assert_eq!(get_stable_registry_version(1, 4, &timestamps, 1400 * ms, now), Some(2));
    assert_eq!(get_stable_registry_version(1, 4, &timestamps, 2400 * ms, now), Some(1));
    // Nothing old enough: the parent's version.
    assert_eq!(get_stable_registry_version(1, 4, &timestamps, 9000 * ms, now), Some(1));
}

#[test]
fn stable_registry_version_stops_on_unknown_timestamp() {
    assert_eq!(get_stable_registry_version(1, 3, &vec![Some(10), None, Some(0)], 100, 50), None);
    assert_eq!(get_stable_registry_version(5, 4, &vec![], 0, 0), None);
}

#[test]
fn context_takes_the_later_time_and_must_not_go_back() {
    let parent = ctx(5, 3, 100);
    assert_eq!(validation_context_for(4, 6, 90, &parent), Some(ctx(6, 4, 100)));
    assert_eq!(validation_context_for(4, 6, 120, &parent), Some(ctx(6, 4, 120)));
    assert_eq!(validation_context_for(2, 6, 120, &parent), None);
    assert_eq!(validation_context_for(4, 4, 120, &parent), None);
}

#[test]
fn plan_proposal_needs_every_input() {
    let parent = Block { height: 9, rank: 0, context: ctx(5, 3, 100) };
    let plan = plan_proposal(&parent, 1, 4, 150, Some(7), Some(6), true).unwrap();
    assert_eq!(plan.height, 10);
    assert_eq!(plan.rank, 1);
    assert_eq!(plan.registry_version, 7);
    assert_eq!(plan.context, ctx(6, 4, 150));
    assert_eq!(plan_proposal(&parent, 1, 4, 150, None, Some(6), true), None);
    assert_eq!(plan_proposal(&parent, 1, 4, 150, Some(7), None, true), None);
    assert_eq!(plan_proposal(&parent, 1, 4, 150, Some(7), Some(6), false), None);
    assert_eq!(plan_proposal(&parent, 1, 2, 150, Some(7), Some(6), true), None);
}

#[test]
fn batch_payload_during_upgrades() {
    assert_eq!(batch_payload_source(None, None), None);
    assert_eq!(batch_payload_source(Some(true), Some(true)), None);
    assert_eq!(batch_payload_source(Some(true), Some(false)), Some(BatchPayloadSource::Empty));
    assert_eq!(batch_payload_source(Some(true), None), Some(BatchPayloadSource::Empty));
    assert_eq!(batch_payload_source(Some(false), Some(true)), Some(BatchPayloadSource::Builder));
}

#[test]
fn payload_plan_by_dkg_payload() {
    assert_eq!(payload_plan(DkgPayloadKind::Summary, None, None, None), Some(PayloadPlan::Summary));
    let dealings = DkgPayloadKind::Dealings { start_height: 30 };
    assert_eq!(
        payload_plan(dealings, Some(false), None, Some(false)),
        Some(PayloadPlan::Data {
            batch: BatchPayloadSource::Builder,
            empty_dealings: false,
            dealings_start_height: 30
        })
    );
    assert_eq!(
        payload_plan(dealings, Some(true), Some(false), Some(true)),
        Some(PayloadPlan::Data {
            batch: BatchPayloadSource::Empty,
            empty_dealings: true,
            dealings_start_height: 30
        })
    );
    assert_eq!(payload_plan(dealings, Some(false), None, None), None);
    assert_eq!(payload_plan(dealings, None, None, Some(false)), None);
}

#[test]
fn malicious_blocks() {
    assert_eq!(malicious_rank(RankLookup::Rank(3)), Some(3));
    assert_eq!(malicious_rank(RankLookup::NotBlockMaker), Some(0));
    assert_eq!(malicious_rank(RankLookup::Unavailable), None);
    assert_eq!(equivocation_times(100), vec![101, 102, 103]);
}

/// A rank 1 block maker waits for its delay, then proposes on the parent with
/// the expected context; once a rank 0 block is validated it does not.
#[test]
fn test_block_maker() {
    let parent = Block { height: 8, rank: 0, context: ctx(1, 0, 1_000) };
    let waiting = RoundObservation {
        rank: RankLookup::Rank(1),
        proposal_signers: vec![],
        proposal_ranks: vec![],
        time_to_make_block: false,
    };
    assert_eq!(proposal_rank(&waiting, 7), None);
    let ready = RoundObservation { time_to_make_block: true, ..waiting.clone() };
    let rank = proposal_rank(&ready, 7).expect("Expected a new block proposal");
    let delay = 300;
    let plan = plan_proposal(&parent, rank, 1, 1_000 + delay, Some(10), Some(10), true).unwrap();
    assert_eq!(plan.height, 9);
    assert_eq!(plan.rank, 1);
    assert_eq!(plan.context, ctx(10, 1, 1_000 + delay));
    let after_rank_zero = RoundObservation { proposal_ranks: vec![0], proposal_signers: vec![3], ..ready };
    assert_eq!(proposal_rank(&after_rank_zero, 7), None);
}

/// When a new replica version is pending, block makers produce summary blocks
/// and then only empty blocks.
#[test]
fn test_protocol_upgrade() {
    assert_eq!(payload_plan(DkgPayloadKind::Summary, Some(true), Some(false), Some(true)), Some(PayloadPlan::Summary));
    assert_eq!(
        payload_plan(DkgPayloadKind::Dealings { start_height: 10 }, Some(true), Some(false), Some(true)),
        Some(PayloadPlan::Data { batch: BatchPayloadSource::Empty, empty_dealings: true, dealings_start_height: 10 })
    );
    assert_eq!(
        payload_plan(DkgPayloadKind::Dealings { start_height: 10 }, Some(true), Some(true), Some(true)),
        None
    );
}
