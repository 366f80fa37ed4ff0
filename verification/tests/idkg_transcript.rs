use ic_replica_core::idkg_transcript::{
    load_transcript_with_openings_checks, verify_transcript_dealings, DealingVerificationError,
};
use ic_replica_core::idkg_transcript::{
    check_dealings_for_transcript, check_opening, check_openings, complaint_from_internal,
    dealings_by_index_from_dealings, ensure_dealers_allowed_by_params,
    ensure_matching_transcript_ids_and_dealer_ids, ensure_signers_allowed_by_params,
    ensure_sufficient_dealings_collected, ensure_sufficient_openings,
    ensure_sufficient_signatures_collected, first_dealing_with_insufficient_signers,
    internal_openings_by_index, new_opening, open_transcript_indices, position, receiver_index,
    Complaint, CreateTranscriptError, LoadTranscriptError, MultiSignedDealing, Opening,
    OpenTranscriptError, Transcript, TranscriptId, TranscriptOperation, TranscriptParams,
    VerifyOpeningError, complaints_from_internal_complaints,
};

fn tid(id: u64) -> TranscriptId {
    TranscriptId { id, source_subnet: 1, source_height: 2 }
}

fn dealing(dealer_id: u64, signers: Vec<u64>) -> MultiSignedDealing {
    MultiSignedDealing { dealer_id, signers, internal_dealing_raw: vec![dealer_id as u8] }
}

fn params() -> TranscriptParams {
    TranscriptParams {
        transcript_id: tid(1),
        operation: TranscriptOperation::Random,
        dealers: vec![10, 20, 30],
        receivers: vec![1, 2, 3, 4],
        registry_version: 5,
        collection_threshold: 2,
        verification_threshold: 2,
    }
}

fn transcript() -> Transcript {
    Transcript {
        transcript_id: tid(1),
        receivers: vec![1, 2, 3, 4],
        registry_version: 5,
        verified_dealings: vec![(0, dealing(10, vec![1, 2])), (2, dealing(30, vec![2, 3]))],
        verification_threshold: 2,
        reconstruction_threshold: 2,
    }
}

fn complaint(t: u64, dealer_id: u64) -> Complaint {
    Complaint { transcript_id: tid(t), dealer_id, internal_complaint_raw: vec![1] }
}

fn opening(t: u64, dealer_id: u64) -> Opening {
    Opening { transcript_id: tid(t), dealer_id, internal_opening_raw: vec![dealer_id as u8, 9] }
}

#[test]
fn position_in_sorted_set() {
    assert_eq!(position(&vec![1, 5, 9], 9), Some(2));
    assert_eq!(position(&vec![1, 5, 9], 4), None);
}

#[test]
fn collection_threshold() {
    let d = vec![(10, dealing(10, vec![1, 2]))];
    assert_eq!(
        ensure_sufficient_dealings_collected(2, &d),
        Err(CreateTranscriptError::UnsatisfiedCollectionThreshold { threshold: 2, dealing_count: 1 })
    );
    assert_eq!(ensure_sufficient_dealings_collected(1, &d), Ok(()));
}

#[test]
fn dealers_and_signers_must_be_allowed() {
    let d = vec![(10, dealing(10, vec![1, 7])), (15, dealing(15, vec![8])), (20, dealing(20, vec![1]))];
    assert_eq!(
        ensure_dealers_allowed_by_params(&vec![10, 20], &d),
        Err(CreateTranscriptError::DealerNotAllowed { node_id: 15 })
    );
    assert_eq!(
        ensure_signers_allowed_by_params(&vec![1, 2], &d),
        Err(CreateTranscriptError::SignerNotAllowed { node_id: 7 })
    );
    assert_eq!(ensure_signers_allowed_by_params(&vec![1, 7, 8], &d), Ok(()));
}

#[test]
fn verification_threshold_per_dealing() {
    let d = vec![(10, dealing(10, vec![1, 2])), (20, dealing(20, vec![1]))];
    assert_eq!(
        ensure_sufficient_signatures_collected(2, &d),
        Err(CreateTranscriptError::UnsatisfiedVerificationThreshold {
            threshold: 2,
            signature_count: 1,
            dealer_id: 20
        })
    );
}

#[test]
fn checks_run_in_order() {
    let p = params();
    let ok = vec![(10, dealing(10, vec![1, 2])), (30, dealing(30, vec![3, 4]))];
    assert_eq!(check_dealings_for_transcript(&p, &ok), Ok(()));
    let bad = vec![(11, dealing(11, vec![9]))];
    assert!(matches!(
        check_dealings_for_transcript(&p, &bad),
        Err(CreateTranscriptError::UnsatisfiedCollectionThreshold { .. })
    ));
}

#[test]
fn only_the_first_collection_threshold_dealings_are_indexed() {
    let p = params();
    let d = vec![
        (10, dealing(10, vec![1, 2])),
        (30, dealing(30, vec![3, 4])),
        (99, dealing(99, vec![3, 4])),
    ];
    let by_index = dealings_by_index_from_dealings(&d, &p).unwrap();
    assert_eq!(by_index.len(), 2);
    assert_eq!(by_index[0].0, 0);
    assert_eq!(by_index[1].0, 2);
    assert_eq!(by_index[1].1, dealing(30, vec![3, 4]));
    let d2 = vec![(99, dealing(99, vec![]))];
    assert_eq!(
        dealings_by_index_from_dealings(&d2, &p),
        Err(CreateTranscriptError::DealerNotAllowed { node_id: 99 })
    );
}

#[test]
fn dealer_lookups_invert_each_other() {
    let t = transcript();
    assert_eq!(t.index_for_dealer_id(30), Some(2));
    assert_eq!(t.dealer_id_for_index(2), Some(30));
    assert_eq!(t.dealer_id_for_index(1), None);
    assert_eq!(t.index_for_dealer_id(20), None);
}

#[test]
fn insufficient_signers_in_transcript() {
    let mut t = transcript();
    assert_eq!(first_dealing_with_insufficient_signers(&t), None);
    t.verification_threshold = 3;
    assert_eq!(first_dealing_with_insufficient_signers(&t), Some(0));
}

#[test]
fn complaints_name_the_dealer() {
    let t = transcript();
    let c = complaint_from_internal(&t, 2, vec![4, 4]).unwrap();
    assert_eq!(c, Complaint { transcript_id: tid(1), dealer_id: 30, internal_complaint_raw: vec![4, 4] });
    assert_eq!(
        complaint_from_internal(&t, 1, vec![]),
        Err(LoadTranscriptError::UnknownDealerIndex { dealer_index: 1 })
    );
}

#[test]
fn not_a_receiver_loads_nothing() {
    let t = transcript();
    assert_eq!(receiver_index(&t, 9), None);
    assert_eq!(receiver_index(&t, 3), Some(2));
}

#[test]
fn openings_must_suffice_and_match() {
    let t = transcript();
    let few = vec![(complaint(1, 10), vec![(1, opening(1, 10))])];
    assert_eq!(
        ensure_sufficient_openings(&few, 2),
        Err(LoadTranscriptError::InsufficientOpenings { got: 1, required: 2 })
    );
    assert!(check_openings(&t, &few).is_err());
    let wrong_complaint = vec![(complaint(7, 10), vec![])];
    assert_eq!(
        ensure_matching_transcript_ids_and_dealer_ids(&wrong_complaint, &t),
        Err(LoadTranscriptError::ComplaintTranscriptIdMismatch { complaint: tid(7), transcript: tid(1) })
    );
    let wrong_opening = vec![(complaint(1, 10), vec![(1, opening(1, 10)), (2, opening(8, 10))])];
    assert_eq!(
        ensure_matching_transcript_ids_and_dealer_ids(&wrong_opening, &t),
        Err(LoadTranscriptError::OpeningTranscriptIdMismatch { opening: tid(8), transcript: tid(1) })
    );
    let wrong_dealer = vec![(complaint(1, 10), vec![(1, opening(1, 30))])];
    assert_eq!(
        ensure_matching_transcript_ids_and_dealer_ids(&wrong_dealer, &t),
        Err(LoadTranscriptError::OpeningDealerIdMismatch { opening_dealer: 30, complaint_dealer: 10 })
    );
    let good = vec![(complaint(1, 10), vec![(1, opening(1, 10)), (4, opening(1, 10))])];
    assert_eq!(check_openings(&t, &good), Ok(()));
}

#[test]
fn openings_rekeyed_by_index() {
    let t = transcript();
    let good = vec![(complaint(1, 30), vec![(2, opening(1, 30)), (4, opening(1, 30))])];
    let internal = internal_openings_by_index(&t, &good).unwrap();
    assert_eq!(internal, vec![(2, vec![(1, vec![30, 9]), (3, vec![30, 9])])]);
    let bad_opener = vec![(complaint(1, 30), vec![(7, opening(1, 30))])];
    assert_eq!(
        internal_openings_by_index(&t, &bad_opener),
        Err(LoadTranscriptError::InvalidOpener { node_id: 7 })
    );
    let bad_dealer = vec![(complaint(1, 20), vec![(2, opening(1, 20))])];
    assert_eq!(
        internal_openings_by_index(&t, &bad_dealer),
        Err(LoadTranscriptError::InvalidComplaintDealer { node_id: 20 })
    );
}

#[test]
fn opening_a_dealing() {
    let t = transcript();
    assert_eq!(open_transcript_indices(&t, 4, &complaint(1, 30)), Ok((2, 3)));
    assert_eq!(
        open_transcript_indices(&t, 4, &complaint(1, 20)),
        Err(OpenTranscriptError::MissingDealingInTranscript { dealer_id: 20 })
    );
    assert_eq!(open_transcript_indices(&t, 9, &complaint(1, 30)), Err(OpenTranscriptError::NotAReceiver));
    let o = new_opening(&t, &complaint(1, 30), vec![5]);
    assert_eq!(o, Opening { transcript_id: tid(1), dealer_id: 30, internal_opening_raw: vec![5] });
}

#[test]
fn verifying_an_opening() {
    let t = transcript();
    assert_eq!(check_opening(&t, 2, &opening(1, 10), &complaint(1, 10)), Ok((0, 1)));
    assert_eq!(
        check_opening(&t, 2, &opening(1, 10), &complaint(3, 10)),
        Err(VerifyOpeningError::TranscriptIdMismatch)
    );
    assert_eq!(
        check_opening(&t, 2, &opening(3, 10), &complaint(1, 10)),
        Err(VerifyOpeningError::TranscriptIdMismatch)
    );
    assert_eq!(
        check_opening(&t, 2, &opening(1, 30), &complaint(1, 10)),
        Err(VerifyOpeningError::DealerIdMismatch)
    );
    assert_eq!(
        check_opening(&t, 2, &opening(1, 20), &complaint(1, 20)),
        Err(VerifyOpeningError::MissingDealingInTranscript { dealer_id: 20 })
    );
    assert_eq!(
        check_opening(&t, 8, &opening(1, 10), &complaint(1, 10)),
        Err(VerifyOpeningError::MissingOpenerInReceivers { opener_id: 8 })
    );
}

#[test]
fn reshared_dealings_are_keyed_by_the_previous_receivers() {
    let mut p = params();
    p.operation = TranscriptOperation::ReshareOfMasked { previous_receivers: vec![5, 10, 30] };
    assert_eq!(p.dealer_index(30), Some(2));
    assert_eq!(p.dealer_index(20), None);
    let d = vec![(10, dealing(10, vec![1, 2])), (30, dealing(30, vec![2, 3]))];
    let v = dealings_by_index_from_dealings(&d, &p).unwrap();
    assert_eq!(v.iter().map(|e| e.0).collect::<Vec<_>>(), vec![1, 2]);
    let d2 = vec![(20, dealing(20, vec![1, 2]))];
    assert_eq!(
        dealings_by_index_from_dealings(&d2, &p),
        Err(CreateTranscriptError::DealerNotAllowed { node_id: 20 })
    );
}

#[test]
fn complaint_list_follows_the_internal_complaints() {
    let t = transcript();
    let cs = complaints_from_internal_complaints(&vec![(0, vec![7]), (2, vec![8])], &t).unwrap();
    assert_eq!(cs.len(), 2);
    assert_eq!(cs[0], Complaint { transcript_id: tid(1), dealer_id: 10, internal_complaint_raw: vec![7] });
    assert_eq!(cs[1], Complaint { transcript_id: tid(1), dealer_id: 30, internal_complaint_raw: vec![8] });
    assert_eq!(
        complaints_from_internal_complaints(&vec![(0, vec![7]), (1, vec![8])], &t),
        Err(LoadTranscriptError::UnknownDealerIndex { dealer_index: 1 })
    );
}

#[test]
fn insufficient_openings_come_before_mismatches() {
    let t = transcript();
    // One opening (threshold 2) that also names the wrong transcript.
    let openings = vec![(complaint(1, 10), vec![(1, opening(9, 10))])];
    assert_eq!(
        check_openings(&t, &openings),
        Err(LoadTranscriptError::InsufficientOpenings { got: 1, required: 2 })
    );
}

#[test]
fn transcript_dealings_fail_on_the_first_bad_dealing() {
    let mut t = transcript();
    assert_eq!(verify_transcript_dealings(&t, &vec![true, true]), Ok(()));
    assert_eq!(
        verify_transcript_dealings(&t, &vec![true, false]),
        Err(DealingVerificationError::InvalidMultiSignature { dealer_index: 2 })
    );
    t.verified_dealings[1].1.signers = vec![2];
    assert_eq!(
        verify_transcript_dealings(&t, &vec![false, true]),
        Err(DealingVerificationError::InvalidMultiSignature { dealer_index: 0 })
    );
    assert_eq!(
        verify_transcript_dealings(&t, &vec![true, false]),
        Err(DealingVerificationError::InsufficientSigners { dealer_index: 2, signers: 1, threshold: 2 })
    );
}

#[test]
fn loading_with_openings_checks_in_order() {
    let t = transcript();
    let few = vec![(complaint(9, 10), vec![(1, opening(1, 10))])];
    assert_eq!(load_transcript_with_openings_checks(&t, 8, &few), Ok(None));
    assert_eq!(
        load_transcript_with_openings_checks(&t, 2, &few),
        Err(LoadTranscriptError::InsufficientOpenings { got: 1, required: 2 })
    );
    let good = vec![(complaint(1, 10), vec![(1, opening(1, 10)), (2, opening(1, 10))])];
    assert_eq!(load_transcript_with_openings_checks(&t, 2, &good), Ok(Some(1)));
}
