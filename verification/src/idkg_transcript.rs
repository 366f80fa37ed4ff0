//! The argument checks of the interactive DKG transcript operations: creating,
//! verifying and loading a transcript, and opening a dealing and verifying an
//! opening.
//!
//! The cryptographic work (multi-signature verification, the CSP's transcript
//! operations, (de)serialising internal values) is done by the crypto
//! service provider; the checks stand here, with the transcript and its
//! parameters held as plain data. Node sets are sorted vectors without
//! duplicates, so that the position of a node in a set is its index.
use vstd::prelude::*;

verus! {

/// Identifies a replica.
pub type NodeId = u64;

/// The index of a node in a set of nodes.
pub type NodeIndex = u32;

/// Identifies a transcript.
#[derive(Clone, Copy, Debug, PartialEq, Eq, Structural)]
pub struct TranscriptId {
    pub id: u64,
    pub source_subnet: u64,
    pub source_height: u64,
}

/// A dealing together with the receivers' combined signature on it.
#[derive(Debug, PartialEq, Eq)]
pub struct MultiSignedDealing {
    pub dealer_id: NodeId,
    /// The nodes whose signatures were combined.
    pub signers: Vec<NodeId>,
    pub internal_dealing_raw: Vec<u8>,
}

#[verifier::ext_equal]
pub struct DealingModel {
    pub dealer_id: NodeId,
    pub signers: Seq<NodeId>,
    pub internal_dealing_raw: Seq<u8>,
}

impl View for MultiSignedDealing {
    type V = DealingModel;

    open spec fn view(&self) -> DealingModel {
        DealingModel {
            dealer_id: self.dealer_id,
            signers: self.signers@,
            internal_dealing_raw: self.internal_dealing_raw@,
        }
    }
}

impl Clone for MultiSignedDealing {
    fn clone(&self) -> (res: Self)
        ensures
            res@ == self@,
    {
        let signers = self.signers.clone();
        let raw = self.internal_dealing_raw.clone();
        assert(signers@ =~= self.signers@);
        assert(raw@ =~= self.internal_dealing_raw@);
        MultiSignedDealing {
            dealer_id: self.dealer_id,
            signers,
            internal_dealing_raw: raw,
        }
    }
}

/// What a transcript is created for; a resharing or a product is dealt by
/// the receivers of the transcripts it starts from.
#[derive(Clone, Debug, PartialEq, Eq)]
pub enum TranscriptOperation {
    /// A fresh random sharing.
    Random,
    /// A resharing of a masked transcript with these receivers.
    ReshareOfMasked { previous_receivers: Vec<NodeId> },
    /// A resharing of an unmasked transcript with these receivers.
    ReshareOfUnmasked { previous_receivers: Vec<NodeId> },
    /// The product of an unmasked and a masked transcript; the first has
    /// these receivers.
    UnmaskedTimesMasked { first_receivers: Vec<NodeId> },
}

/// The parameters of a transcript to create.
#[derive(Clone, Debug, PartialEq, Eq)]
pub struct TranscriptParams {
    pub transcript_id: TranscriptId,
    pub operation: TranscriptOperation,
    /// The nodes allowed to deal, sorted and without duplicates.
    pub dealers: Vec<NodeId>,
    /// The nodes receiving shares, sorted and without duplicates.
    pub receivers: Vec<NodeId>,
    pub registry_version: u64,
    /// The number of dealings a transcript is built from.
    pub collection_threshold: u32,
    /// The number of signatures each dealing needs.
    pub verification_threshold: u32,
}

/// A transcript: the dealings it was built from, keyed by dealer index.
#[derive(Clone, Debug, PartialEq, Eq)]
pub struct Transcript {
    pub transcript_id: TranscriptId,
    /// The nodes receiving shares, sorted and without duplicates.
    pub receivers: Vec<NodeId>,
    pub registry_version: u64,
    /// The dealings, by strictly increasing dealer index.
    pub verified_dealings: Vec<(NodeIndex, MultiSignedDealing)>,
    /// The number of signatures each dealing needs.
    pub verification_threshold: u32,
    /// The number of openings needed to reconstruct a share.
    pub reconstruction_threshold: u32,
}

/// A complaint of a receiver against the dealing of a dealer.
#[derive(Clone, Debug, PartialEq, Eq)]
pub struct Complaint {
    pub transcript_id: TranscriptId,
    pub dealer_id: NodeId,
    pub internal_complaint_raw: Vec<u8>,
}

/// An opening of a dealing, answering a complaint.
#[derive(Clone, Debug, PartialEq, Eq)]
pub struct Opening {
    pub transcript_id: TranscriptId,
    pub dealer_id: NodeId,
    pub internal_opening_raw: Vec<u8>,
}

/// Why a transcript cannot be created from the given dealings.
#[derive(Clone, Copy, Debug, PartialEq, Eq, Structural)]
pub enum CreateTranscriptError {
    UnsatisfiedCollectionThreshold { threshold: u32, dealing_count: usize },
    DealerNotAllowed { node_id: NodeId },
    SignerNotAllowed { node_id: NodeId },
    UnsatisfiedVerificationThreshold { threshold: u32, signature_count: usize, dealer_id: NodeId },
}

/// Why a transcript cannot be loaded.
#[derive(Clone, Copy, Debug, PartialEq, Eq, Structural)]
pub enum LoadTranscriptError {
    /// A complaint has fewer openings than the reconstruction threshold.
    InsufficientOpenings { got: usize, required: usize },
    /// A complaint is about another transcript.
    ComplaintTranscriptIdMismatch { complaint: TranscriptId, transcript: TranscriptId },
    /// An opening is about another transcript.
    OpeningTranscriptIdMismatch { opening: TranscriptId, transcript: TranscriptId },
    /// An opening is about another dealer than its complaint.
    OpeningDealerIdMismatch { opening_dealer: NodeId, complaint_dealer: NodeId },
    /// An opener is not a receiver of the transcript.
    InvalidOpener { node_id: NodeId },
    /// A complaint is about a node that is not a dealer of the transcript.
    InvalidComplaintDealer { node_id: NodeId },
    /// No dealing of the transcript has this dealer index.
    UnknownDealerIndex { dealer_index: NodeIndex },
}

/// Why an opening cannot be produced.
#[derive(Clone, Copy, Debug, PartialEq, Eq, Structural)]
pub enum OpenTranscriptError {
    /// The accused dealer has no dealing in the transcript.
    MissingDealingInTranscript { dealer_id: NodeId },
    /// This node is not a receiver of the transcript.
    NotAReceiver,
}

/// Why an opening is rejected before its cryptographic check.
#[derive(Clone, Copy, Debug, PartialEq, Eq, Structural)]
pub enum VerifyOpeningError {
    TranscriptIdMismatch,
    DealerIdMismatch,
    MissingDealingInTranscript { dealer_id: NodeId },
    MissingOpenerInReceivers { opener_id: NodeId },
}

/// `i` is the first position of `x` in `s`.
pub open spec fn is_position(s: Seq<NodeId>, x: NodeId, i: int) -> bool {
    &&& 0 <= i < s.len()
    &&& s[i] == x
    &&& forall|j: int| 0 <= j < i ==> s[j] != x
}

/// The position of `node` in the node set `nodes`, if it is there.
pub fn position(nodes: &Vec<NodeId>, node: NodeId) -> (res: Option<NodeIndex>)
    requires
        nodes@.len() <= u32::MAX,
    ensures
        res is None <==> !nodes@.contains(node),
        res matches Some(i) ==> is_position(nodes@, node, i as int),
{
    let mut i: usize = 0;
    while i < nodes.len()
        invariant
            i <= nodes@.len() <= u32::MAX,
            forall|j: int| 0 <= j < i ==> nodes@[j] != node,
        decreases nodes@.len() - i,
    {
        if nodes[i] == node {
            return Some(i as u32);
        }
        i = i + 1;
    }
    assert(!nodes@.contains(node)) by {
        if nodes@.contains(node) {
            let k = choose|k: int| 0 <= k < nodes@.len() && nodes@[k] == node;
            assert(nodes@[k] != node);
        }
    }
    None
}

/// At least `threshold` dealings were collected.
pub fn ensure_sufficient_dealings_collected(
    threshold: u32,
    dealings: &Vec<(NodeId, MultiSignedDealing)>,
) -> (res: Result<(), CreateTranscriptError>)
    ensures
        res == (if dealings@.len() < threshold {
            Err(
                CreateTranscriptError::UnsatisfiedCollectionThreshold {
                    threshold,
                    dealing_count: dealings@.len() as usize,
                },
            )
        } else {
            Ok(())
        }),
{
    if dealings.len() < threshold as usize {
        Err(
            CreateTranscriptError::UnsatisfiedCollectionThreshold {
                threshold,
                dealing_count: dealings.len(),
            },
        )
    } else {
        Ok(())
    }
}

/// Every dealing comes from an allowed dealer; otherwise the first that does not.
pub fn ensure_dealers_allowed_by_params(
    dealers: &Vec<NodeId>,
    dealings: &Vec<(NodeId, MultiSignedDealing)>,
) -> (res: Result<(), CreateTranscriptError>)
    ensures
        res is Ok <==> forall|i: int|
            0 <= i < dealings@.len() ==> dealers@.contains(#[trigger] dealings@[i].0),
        res matches Err(e) ==> exists|i: int|
            0 <= i < dealings@.len() && !dealers@.contains(#[trigger] dealings@[i].0) && (forall|
                j: int,
            | 0 <= j < i ==> dealers@.contains(#[trigger] dealings@[j].0))
                && e == (CreateTranscriptError::DealerNotAllowed { node_id: dealings@[i].0 }),
{
    let mut i: usize = 0;
    while i < dealings.len()
        invariant
            i <= dealings@.len(),
            forall|j: int| 0 <= j < i ==> dealers@.contains(#[trigger] dealings@[j].0),
        decreases dealings@.len() - i,
    {
        let id = dealings[i].0;
        if !contains_node(dealers, id) {
            return Err(CreateTranscriptError::DealerNotAllowed { node_id: id });
        }
        i = i + 1;
    }
    Ok(())
}

/// Whether `node` is in `nodes`.
pub fn contains_node(nodes: &Vec<NodeId>, node: NodeId) -> (res: bool)
    ensures
        res == nodes@.contains(node),
{
    let mut i: usize = 0;
    while i < nodes.len()
        invariant
            i <= nodes@.len(),
            forall|j: int| 0 <= j < i ==> nodes@[j] != node,
        decreases nodes@.len() - i,
    {
        if nodes[i] == node {
            assert(nodes@[i as int] == node);
            return true;
        }
        i = i + 1;
    }
    assert(!nodes@.contains(node)) by {
        if nodes@.contains(node) {
            let k = choose|k: int| 0 <= k < nodes@.len() && nodes@[k] == node;
            assert(nodes@[k] != node);
        }
    }
    false
}

/// All signers of all dealings are receivers.
pub open spec fn all_signers_allowed(
    receivers: Seq<NodeId>,
    dealings: Seq<(NodeId, MultiSignedDealing)>,
) -> bool {
    forall|i: int, k: int|
        0 <= i < dealings.len() && 0 <= k < dealings[i].1.signers@.len() ==> receivers.contains(
            #[trigger] dealings[i].1.signers@[k],
        )
}

/// Every signer of every dealing is a receiver; otherwise the first signer
/// that is not, in dealing order and then signer order.
pub fn ensure_signers_allowed_by_params(
    receivers: &Vec<NodeId>,
    dealings: &Vec<(NodeId, MultiSignedDealing)>,
) -> (res: Result<(), CreateTranscriptError>)
    ensures
        res is Ok <==> all_signers_allowed(receivers@, dealings@),
        res matches Err(e) ==> exists|i: int, k: int|
            0 <= i < dealings@.len() && 0 <= k < dealings@[i].1.signers@.len()
                && !receivers@.contains(#[trigger] dealings@[i].1.signers@[k])
                && all_signers_allowed(receivers@, dealings@.take(i)) && (forall|m: int|
                0 <= m < k ==> receivers@.contains(#[trigger] dealings@[i].1.signers@[m]))
                && e == (CreateTranscriptError::SignerNotAllowed {
                node_id: dealings@[i].1.signers@[k],
            }),
{
    let mut i: usize = 0;
    while i < dealings.len()
        invariant
            i <= dealings@.len(),
            all_signers_allowed(receivers@, dealings@.take(i as int)),
        decreases dealings@.len() - i,
    {
        let signers = &dealings[i].1.signers;
        let mut k: usize = 0;
        while k < signers.len()
            invariant
                i < dealings@.len(),
                signers == &dealings@[i as int].1.signers,
                k <= signers@.len(),
                all_signers_allowed(receivers@, dealings@.take(i as int)),
                forall|m: int| 0 <= m < k ==> receivers@.contains(#[trigger] signers@[m]),
            decreases signers@.len() - k,
        {
            let s = signers[k];
            if !contains_node(receivers, s) {
                assert(!all_signers_allowed(receivers@, dealings@)) by {
                    assert(dealings@[i as int].1.signers@[k as int] == s);
                }
                return Err(CreateTranscriptError::SignerNotAllowed { node_id: s });
            }
            k = k + 1;
        }
        assert(all_signers_allowed(receivers@, dealings@.take(i + 1))) by {
            assert forall|a: int, b: int|
                0 <= a < dealings@.take(i + 1).len() && 0 <= b < dealings@.take(
                    i + 1,
                )[a].1.signers@.len() implies receivers@.contains(
                #[trigger] dealings@.take(i + 1)[a].1.signers@[b],
            ) by {
                if a < i {
                    assert(dealings@.take(i + 1)[a] == dealings@.take(i as int)[a]);
                }
            }
        }
        i = i + 1;
    }
    assert(dealings@.take(dealings@.len() as int) =~= dealings@);
    Ok(())
}

/// Every dealing carries at least `threshold` signatures; otherwise the
/// first that does not.
pub fn ensure_sufficient_signatures_collected(
    threshold: u32,
    dealings: &Vec<(NodeId, MultiSignedDealing)>,
) -> (res: Result<(), CreateTranscriptError>)
    ensures
        res is Ok <==> forall|i: int|
            0 <= i < dealings@.len() ==> (#[trigger] dealings@[i]).1.signers@.len() >= threshold,
        res matches Err(e) ==> exists|i: int|
            0 <= i < dealings@.len() && (#[trigger] dealings@[i]).1.signers@.len() < threshold
                && (forall|j: int|
                0 <= j < i ==> (#[trigger] dealings@[j]).1.signers@.len() >= threshold) && e
                == (CreateTranscriptError::UnsatisfiedVerificationThreshold {
                threshold,
                signature_count: dealings@[i].1.signers@.len() as usize,
                dealer_id: dealings@[i].0,
            }),
{
    let mut i: usize = 0;
    while i < dealings.len()
        invariant
            i <= dealings@.len(),
            forall|j: int|
                0 <= j < i ==> (#[trigger] dealings@[j]).1.signers@.len() >= threshold,
        decreases dealings@.len() - i,
    {
        let count = dealings[i].1.signers.len();
        if count < threshold as usize {
            return Err(
                CreateTranscriptError::UnsatisfiedVerificationThreshold {
                    threshold,
                    signature_count: count,
                    dealer_id: dealings[i].0,
                },
            );
        }
        i = i + 1;
    }
    Ok(())
}

/// The checks on the dealings of a transcript to create that come before
/// their multi-signatures are verified, in order: enough dealings, only
/// allowed dealers, only receivers as signers, enough signatures per dealing.
pub fn check_dealings_for_transcript(
    params: &TranscriptParams,
    dealings: &Vec<(NodeId, MultiSignedDealing)>,
) -> (res: Result<(), CreateTranscriptError>)
    ensures
        res is Ok <==> dealings@.len() >= params.collection_threshold && (forall|i: int|
            0 <= i < dealings@.len() ==> params.dealers@.contains(#[trigger] dealings@[i].0))
            && all_signers_allowed(params.receivers@, dealings@) && (forall|i: int|
            0 <= i < dealings@.len() ==> (#[trigger] dealings@[i]).1.signers@.len()
                >= params.verification_threshold),
        dealings@.len() < params.collection_threshold ==> res == (Err::<(), _>(
            CreateTranscriptError::UnsatisfiedCollectionThreshold {
                threshold: params.collection_threshold,
                dealing_count: dealings@.len() as usize,
            },
        )),
        dealings@.len() >= params.collection_threshold && (exists|i: int|
            0 <= i < dealings@.len() && !params.dealers@.contains(#[trigger] dealings@[i].0))
            ==> (res matches Err(e) ==> exists|i: int|
            0 <= i < dealings@.len() && !params.dealers@.contains(#[trigger] dealings@[i].0) && (forall|
                j: int,
            | 0 <= j < i ==> params.dealers@.contains(#[trigger] dealings@[j].0))
                && e == (CreateTranscriptError::DealerNotAllowed { node_id: dealings@[i].0 })),
        dealings@.len() >= params.collection_threshold && (forall|i: int|
            0 <= i < dealings@.len() ==> params.dealers@.contains(#[trigger] dealings@[i].0))
            && !all_signers_allowed(params.receivers@, dealings@)
            ==> (res matches Err(e) ==> exists|i: int, k: int|
            0 <= i < dealings@.len() && 0 <= k < dealings@[i].1.signers@.len()
                && !params.receivers@.contains(#[trigger] dealings@[i].1.signers@[k])
                && all_signers_allowed(params.receivers@, dealings@.take(i)) && (forall|m: int|
                0 <= m < k ==> params.receivers@.contains(#[trigger] dealings@[i].1.signers@[m]))
                && e == (CreateTranscriptError::SignerNotAllowed {
                node_id: dealings@[i].1.signers@[k],
            })),
        dealings@.len() >= params.collection_threshold && (forall|i: int|
            0 <= i < dealings@.len() ==> params.dealers@.contains(#[trigger] dealings@[i].0))
            && all_signers_allowed(params.receivers@, dealings@)
            ==> (res matches Err(e) ==> exists|i: int|
            0 <= i < dealings@.len() && (#[trigger] dealings@[i]).1.signers@.len() < params.verification_threshold
                && (forall|j: int|
                0 <= j < i ==> (#[trigger] dealings@[j]).1.signers@.len() >= params.verification_threshold) && e
                == (CreateTranscriptError::UnsatisfiedVerificationThreshold {
                threshold: params.verification_threshold,
                signature_count: dealings@[i].1.signers@.len() as usize,
                dealer_id: dealings@[i].0,
            })),
{
    match ensure_sufficient_dealings_collected(params.collection_threshold, dealings) {
        Ok(()) => {},
        Err(e) => return Err(e),
    }
    match ensure_dealers_allowed_by_params(&params.dealers, dealings) {
        Ok(()) => {},
        Err(e) => return Err(e),
    }
    match ensure_signers_allowed_by_params(&params.receivers, dealings) {
        Ok(()) => {},
        Err(e) => return Err(e),
    }
    match ensure_sufficient_signatures_collected(params.verification_threshold, dealings) {
        Ok(()) => {},
        Err(e) => return Err(e),
    }
    Ok(())
}

/// The nodes whose positions are the dealer indices: the dealers of a
/// random sharing; the receivers of the transcript that is reshared, or of
/// the first factor of a product.
pub open spec fn dealer_index_source(params: TranscriptParams) -> Seq<NodeId> {
    match params.operation {
        TranscriptOperation::Random => params.dealers@,
        TranscriptOperation::ReshareOfMasked { previous_receivers } => previous_receivers@,
        TranscriptOperation::ReshareOfUnmasked { previous_receivers } => previous_receivers@,
        TranscriptOperation::UnmaskedTimesMasked { first_receivers } => first_receivers@,
    }
}

/// Whose positions the dealer indices are, by operation: the dealers of a
/// random sharing; the receivers of the reshared transcript for a
/// resharing of a masked or an unmasked transcript; the receivers of the
/// first factor for a product.
pub proof fn lemma_dealer_index_source_by_operation(p: TranscriptParams)
    ensures
        p.operation is Random ==> dealer_index_source(p) == p.dealers@,
        p.operation matches TranscriptOperation::ReshareOfMasked { previous_receivers }
            ==> dealer_index_source(p) == previous_receivers@,
        p.operation matches TranscriptOperation::ReshareOfUnmasked { previous_receivers }
            ==> dealer_index_source(p) == previous_receivers@,
        p.operation matches TranscriptOperation::UnmaskedTimesMasked { first_receivers }
            ==> dealer_index_source(p) == first_receivers@,
{
}

impl TranscriptParams {
    /// The dealer index of `node`: its position in [`dealer_index_source`].
    pub fn dealer_index(&self, node: NodeId) -> (res: Option<NodeIndex>)
        requires
            dealer_index_source(*self).len() <= u32::MAX,
        ensures
            res is None <==> !dealer_index_source(*self).contains(node),
            res matches Some(i) ==> is_position(dealer_index_source(*self), node, i as int),
            res matches Some(i) ==> match self.operation {
                TranscriptOperation::Random => is_position(self.dealers@, node, i as int),
                TranscriptOperation::ReshareOfMasked { previous_receivers } => is_position(previous_receivers@, node, i as int),
                TranscriptOperation::ReshareOfUnmasked { previous_receivers } => is_position(previous_receivers@, node, i as int),
                TranscriptOperation::UnmaskedTimesMasked { first_receivers } => is_position(first_receivers@, node, i as int),
            },
    {
        match &self.operation {
            TranscriptOperation::Random => position(&self.dealers, node),
            TranscriptOperation::ReshareOfMasked { previous_receivers } => position(previous_receivers, node),
            TranscriptOperation::ReshareOfUnmasked { previous_receivers } => position(previous_receivers, node),
            TranscriptOperation::UnmaskedTimesMasked { first_receivers } => position(first_receivers, node),
        }
    }
}

/// The dealings stand for a map from dealers: by strictly ascending dealer
/// id, so no dealer occurs twice.
pub open spec fn dealings_by_dealer_sorted(d: Seq<(NodeId, MultiSignedDealing)>) -> bool {
    forall|i: int, j: int| 0 <= i < j < d.len() ==> (#[trigger] d[i]).0 < (#[trigger] d[j]).0
}

/// Re-keys the first `collection_threshold` dealings by their dealer's
/// index ([`TranscriptParams::dealer_index`]); the first dealer without an
/// index is an error.
/// Taken in ascending dealer id, the dealings kept are those of the
/// `collection_threshold` lowest dealer ids.
pub fn dealings_by_index_from_dealings(
    dealings: &Vec<(NodeId, MultiSignedDealing)>,
    params: &TranscriptParams,
) -> (res: Result<Vec<(NodeIndex, MultiSignedDealing)>, CreateTranscriptError>)
    requires
        dealer_index_source(*params).len() <= u32::MAX,
        dealings_by_dealer_sorted(dealings@),
    ensures
        ({
            let n = if dealings@.len() < params.collection_threshold {
                dealings@.len() as int
            } else {
                params.collection_threshold as int
            };
            &&& res is Ok <==> forall|i: int|
                0 <= i < n ==> dealer_index_source(*params).contains(#[trigger] dealings@[i].0)
            &&& res matches Ok(v) ==> v@.len() == n && forall|i: int|
                0 <= i < n ==> is_position(dealer_index_source(*params), dealings@[i].0, #[trigger] v@[i].0 as int)
                    && v@[i].1@ == dealings@[i].1@
            &&& res matches Err(e) ==> exists|i: int|
                0 <= i < n && !dealer_index_source(*params).contains(#[trigger] dealings@[i].0) && (forall|
                    j: int,
                | 0 <= j < i ==> dealer_index_source(*params).contains(#[trigger] dealings@[j].0)) && e
                    == (CreateTranscriptError::DealerNotAllowed { node_id: dealings@[i].0 })
        }),
        res matches Ok(v) ==> forall|i: int| 0 <= i < v@.len() ==> match params.operation {
            TranscriptOperation::Random => is_position(params.dealers@, dealings@[i].0, (#[trigger] v@[i]).0 as int),
            TranscriptOperation::ReshareOfMasked { previous_receivers } => is_position(previous_receivers@, dealings@[i].0, v@[i].0 as int),
            TranscriptOperation::ReshareOfUnmasked { previous_receivers } => is_position(previous_receivers@, dealings@[i].0, v@[i].0 as int),
            TranscriptOperation::UnmaskedTimesMasked { first_receivers } => is_position(first_receivers@, dealings@[i].0, v@[i].0 as int),
        },
{
    proof {
        lemma_dealer_index_source_by_operation(*params);
    }
    let n: usize = if dealings.len() < params.collection_threshold as usize {
        dealings.len()
    } else {
        params.collection_threshold as usize
    };
    let mut res: Vec<(NodeIndex, MultiSignedDealing)> = Vec::new();
    let mut i: usize = 0;
    while i < n
        invariant
            n <= dealings@.len(),
            n == if dealings@.len() < params.collection_threshold {
                dealings@.len() as int
            } else {
                params.collection_threshold as int
            },
            dealer_index_source(*params).len() <= u32::MAX,
            i <= n,
            res@.len() == i,
            forall|j: int| 0 <= j < i ==> dealer_index_source(*params).contains(#[trigger] dealings@[j].0),
            forall|j: int|
                0 <= j < i ==> is_position(dealer_index_source(*params), dealings@[j].0, #[trigger] res@[j].0 as int)
                    && res@[j].1@ == dealings@[j].1@,
        decreases n - i,
    {
        let id = dealings[i].0;
        match params.dealer_index(id) {
            Some(index) => {
                let ghost prev = res@;
                res.push((index, dealings[i].1.clone()));
                assert forall|j: int| 0 <= j < i + 1 implies is_position(
                    dealer_index_source(*params),
                    dealings@[j].0,
                    #[trigger] res@[j].0 as int,
                ) && res@[j].1@ == dealings@[j].1@ by {
                    if j < i {
                        assert(res@[j] == prev[j]);
                    }
                }
            },
            None => {
                return Err(CreateTranscriptError::DealerNotAllowed { node_id: id });
            },
        }
        i = i + 1;
    }
    Ok(res)
}


/// The dealer indices of the transcript's dealings strictly increase.
pub open spec fn dealings_sorted(t: Transcript) -> bool {
    forall|i: int, j: int|
        0 <= i < j < t.verified_dealings@.len() ==> (#[trigger] t.verified_dealings@[i]).0
            < (#[trigger] t.verified_dealings@[j]).0
}

/// The dealer of the dealing with index `index`, if there is one.
pub open spec fn dealer_id_for_index_spec(t: Transcript, index: NodeIndex) -> Option<NodeId> {
    if exists|i: int| 0 <= i < t.verified_dealings@.len() && (#[trigger] t.verified_dealings@[i]).0 == index {
        let i = choose|i: int| 0 <= i < t.verified_dealings@.len() && (#[trigger] t.verified_dealings@[i]).0 == index;
        Some(t.verified_dealings@[i].1.dealer_id)
    } else {
        None
    }
}

impl Transcript {
    /// The dealer of the dealing with index `index`.
    pub fn dealer_id_for_index(&self, index: NodeIndex) -> (res: Option<NodeId>)
        requires
            dealings_sorted(*self),
        ensures
            res == dealer_id_for_index_spec(*self, index),
    {
        let mut i: usize = 0;
        while i < self.verified_dealings.len()
            invariant
                i <= self.verified_dealings@.len(),
                dealings_sorted(*self),
                forall|j: int| 0 <= j < i ==> (#[trigger] self.verified_dealings@[j]).0 != index,
            decreases self.verified_dealings@.len() - i,
        {
            if self.verified_dealings[i].0 == index {
                proof {
                    let k = choose|k: int|
                        0 <= k < self.verified_dealings@.len()
                            && (#[trigger] self.verified_dealings@[k]).0 == index;
                    if k != i {
                        assert(self.verified_dealings@[k].0 != self.verified_dealings@[i as int].0);
                    }
                }
                return Some(self.verified_dealings[i].1.dealer_id);
            }
            i = i + 1;
        }
        None
    }

    /// The index of the first dealing of dealer `dealer_id`.
    pub fn index_for_dealer_id(&self, dealer_id: NodeId) -> (res: Option<NodeIndex>)
        ensures
            res is None <==> forall|i: int|
                0 <= i < self.verified_dealings@.len()
                    ==> (#[trigger] self.verified_dealings@[i]).1.dealer_id != dealer_id,
            res matches Some(index) ==> exists|i: int|
                0 <= i < self.verified_dealings@.len() && (#[trigger] self.verified_dealings@[i]).0
                    == index && self.verified_dealings@[i].1.dealer_id == dealer_id && (forall|j: int|
                    0 <= j < i ==> (#[trigger] self.verified_dealings@[j]).1.dealer_id != dealer_id),
    {
        let mut i: usize = 0;
        while i < self.verified_dealings.len()
            invariant
                i <= self.verified_dealings@.len(),
                forall|j: int|
                    0 <= j < i ==> (#[trigger] self.verified_dealings@[j]).1.dealer_id != dealer_id,
            decreases self.verified_dealings@.len() - i,
        {
            if self.verified_dealings[i].1.dealer_id == dealer_id {
                return Some(self.verified_dealings[i].0);
            }
            i = i + 1;
        }
        None
    }
}

/// Looking up the dealer of the index found for a dealer gives that dealer
/// back, in a transcript whose dealer indices are distinct.
pub proof fn lemma_dealer_index_roundtrip(t: Transcript, dealer_id: NodeId, i: int)
    requires
        dealings_sorted(t),
        0 <= i < t.verified_dealings@.len(),
        t.verified_dealings@[i].1.dealer_id == dealer_id,
    ensures
        dealer_id_for_index_spec(t, t.verified_dealings@[i].0) == Some(dealer_id),
{
    let index = t.verified_dealings@[i].0;
    assert(t.verified_dealings@[i].0 == index);
    let k = choose|k: int|
        0 <= k < t.verified_dealings@.len() && (#[trigger] t.verified_dealings@[k]).0 == index;
    if k < i {
        assert(t.verified_dealings@[k].0 < t.verified_dealings@[i].0);
    } else if k > i {
        assert(t.verified_dealings@[i].0 < t.verified_dealings@[k].0);
    }
}

/// The position of the first dealing of `t` with fewer signers than the
/// verification threshold, if any.
///
/// A verifier checks the dealings in order, the signer count of a dealing
/// before its multi-signature; so the transcript fails with insufficient
/// signers at this position unless a multi-signature of an earlier dealing
/// fails first.
pub fn first_dealing_with_insufficient_signers(t: &Transcript) -> (res: Option<usize>)
    ensures
        res is None <==> forall|i: int|
            0 <= i < t.verified_dealings@.len() ==> (#[trigger] t.verified_dealings@[i]).1.signers@.len()
                >= t.verification_threshold,
        res matches Some(k) ==> k < t.verified_dealings@.len()
            && t.verified_dealings@[k as int].1.signers@.len() < t.verification_threshold
            && forall|i: int|
            0 <= i < k ==> (#[trigger] t.verified_dealings@[i]).1.signers@.len()
                >= t.verification_threshold,
{
    let mut i: usize = 0;
    while i < t.verified_dealings.len()
        invariant
            i <= t.verified_dealings@.len(),
            forall|j: int|
                0 <= j < i ==> (#[trigger] t.verified_dealings@[j]).1.signers@.len()
                    >= t.verification_threshold,
        decreases t.verified_dealings@.len() - i,
    {
        if t.verified_dealings[i].1.signers.len() < t.verification_threshold as usize {
            return Some(i);
        }
        i = i + 1;
    }
    None
}

/// Why a dealing of a transcript fails verification.
#[derive(Clone, Copy, Debug, PartialEq, Eq, Structural)]
pub enum DealingVerificationError {
    /// The dealing has fewer signers than the verification threshold.
    InsufficientSigners { dealer_index: NodeIndex, signers: usize, threshold: u32 },
    /// The combined multi-signature of the dealing is invalid.
    InvalidMultiSignature { dealer_index: NodeIndex },
}

/// The outcome of verifying the dealings from position `k` on, in order:
/// for each dealing, its signer count, then its multi-signature
/// (`multisig_valid[i]` is the verifier's answer for dealing `i`).
pub open spec fn dealings_verification(
    d: Seq<(NodeIndex, MultiSignedDealing)>,
    multisig_valid: Seq<bool>,
    threshold: u32,
    k: int,
) -> Result<(), DealingVerificationError>
    decreases d.len() - k,
{
    if k < 0 || k >= d.len() {
        Ok(())
    } else if d[k].1.signers@.len() < threshold {
        Err(DealingVerificationError::InsufficientSigners {
            dealer_index: d[k].0,
            signers: d[k].1.signers@.len() as usize,
            threshold,
        })
    } else if !multisig_valid[k] {
        Err(DealingVerificationError::InvalidMultiSignature { dealer_index: d[k].0 })
    } else {
        dealings_verification(d, multisig_valid, threshold, k + 1)
    }
}

/// The verification of a transcript's dealings, given the multi-signature
/// verifier's answer for each: the first dealing, in order, with too few
/// signers or an invalid multi-signature fails the transcript.
pub fn verify_transcript_dealings(t: &Transcript, multisig_valid: &Vec<bool>) -> (res: Result<
    (),
    DealingVerificationError,
>)
    requires
        multisig_valid@.len() == t.verified_dealings@.len(),
    ensures
        res == dealings_verification(t.verified_dealings@, multisig_valid@, t.verification_threshold, 0),
{
    let mut i: usize = 0;
    while i < t.verified_dealings.len()
        invariant
            multisig_valid@.len() == t.verified_dealings@.len(),
            i <= t.verified_dealings@.len(),
            dealings_verification(t.verified_dealings@, multisig_valid@, t.verification_threshold, 0)
                == dealings_verification(t.verified_dealings@, multisig_valid@, t.verification_threshold, i as int),
        decreases t.verified_dealings@.len() - i,
    {
        let d = &t.verified_dealings[i];
        if d.1.signers.len() < t.verification_threshold as usize {
            return Err(DealingVerificationError::InsufficientSigners {
                dealer_index: d.0,
                signers: d.1.signers.len(),
                threshold: t.verification_threshold,
            });
        }
        if !multisig_valid[i] {
            return Err(DealingVerificationError::InvalidMultiSignature { dealer_index: d.0 });
        }
        i = i + 1;
    }
    Ok(())
}

/// The complaint against the dealing with index `dealer_index`, carrying the
/// serialised internal complaint; an error when no dealing has that index.
pub fn complaint_from_internal(t: &Transcript, dealer_index: NodeIndex, internal_complaint_raw: Vec<u8>) -> (res:
    Result<Complaint, LoadTranscriptError>)
    requires
        dealings_sorted(*t),
    ensures
        match dealer_id_for_index_spec(*t, dealer_index) {
            None => res == Err::<Complaint, _>(LoadTranscriptError::UnknownDealerIndex { dealer_index }),
            Some(d) => res matches Ok(c) && c.transcript_id == t.transcript_id && c.dealer_id == d
                && c.internal_complaint_raw@ == internal_complaint_raw@,
        },
{
    match t.dealer_id_for_index(dealer_index) {
        Some(dealer_id) => Ok(
            Complaint {
                transcript_id: t.transcript_id,
                dealer_id,
                internal_complaint_raw,
            },
        ),
        None => Err(LoadTranscriptError::UnknownDealerIndex { dealer_index }),
    }
}

/// The complaints built from the internal complaints that the crypto
/// service provider returns, one per internal complaint and in its order
/// (ascending dealer index, as the provider returns them): each about the
/// transcript and the dealer of its index, carrying its serialised internal
/// complaint. The first index without a dealer is an error.
pub fn complaints_from_internal_complaints(
    internal_complaints: &Vec<(NodeIndex, Vec<u8>)>,
    t: &Transcript,
) -> (res: Result<Vec<Complaint>, LoadTranscriptError>)
    requires
        dealings_sorted(*t),
    ensures
        res is Ok <==> forall|i: int|
            0 <= i < internal_complaints@.len() ==> dealer_id_for_index_spec(*t, (#[trigger] internal_complaints@[i]).0) is Some,
        res matches Err(e) ==> exists|i: int|
            0 <= i < internal_complaints@.len() && dealer_id_for_index_spec(*t, (#[trigger] internal_complaints@[i]).0) is None
                && e == (LoadTranscriptError::UnknownDealerIndex { dealer_index: internal_complaints@[i].0 })
                && forall|j: int| 0 <= j < i ==> dealer_id_for_index_spec(*t, (#[trigger] internal_complaints@[j]).0) is Some,
        res matches Ok(cs) ==> cs@.len() == internal_complaints@.len() && forall|i: int|
            0 <= i < cs@.len() ==> (#[trigger] cs@[i]).transcript_id == t.transcript_id
                && Some(cs@[i].dealer_id) == dealer_id_for_index_spec(*t, internal_complaints@[i].0)
                && cs@[i].internal_complaint_raw@ == internal_complaints@[i].1@,
{
    let mut res: Vec<Complaint> = Vec::new();
    let mut i: usize = 0;
    while i < internal_complaints.len()
        invariant
            dealings_sorted(*t),
            i <= internal_complaints@.len(),
            res@.len() == i,
            forall|j: int| 0 <= j < i ==> dealer_id_for_index_spec(*t, (#[trigger] internal_complaints@[j]).0) is Some,
            forall|j: int|
                0 <= j < i ==> (#[trigger] res@[j]).transcript_id == t.transcript_id
                    && Some(res@[j].dealer_id) == dealer_id_for_index_spec(*t, internal_complaints@[j].0)
                    && res@[j].internal_complaint_raw@ == internal_complaints@[j].1@,
        decreases internal_complaints@.len() - i,
    {
        let raw = internal_complaints[i].1.clone();
        assert(raw@ =~= internal_complaints@[i as int].1@);
        match complaint_from_internal(t, internal_complaints[i].0, raw) {
            Ok(c) => {
                let ghost prev = res@;
                res.push(c);
                assert forall|j: int| 0 <= j < i + 1 implies (#[trigger] res@[j]).transcript_id == t.transcript_id
                    && Some(res@[j].dealer_id) == dealer_id_for_index_spec(*t, internal_complaints@[j].0)
                    && res@[j].internal_complaint_raw@ == internal_complaints@[j].1@ by {
                    if j < i {
                        assert(res@[j] == prev[j]);
                    }
                }
            },
            Err(e) => return Err(e),
        }
        i = i + 1;
    }
    Ok(res)
}

/// The openings received for each complaint.
pub type OpeningsByComplaint = Vec<(Complaint, Vec<(NodeId, Opening)>)>;

/// Two complaints are the same complaint.
pub open spec fn same_complaint(a: Complaint, b: Complaint) -> bool {
    a.transcript_id == b.transcript_id && a.dealer_id == b.dealer_id && a.internal_complaint_raw@
        == b.internal_complaint_raw@
}

/// The openings stand for a map from complaints to maps from openers to
/// openings: each complaint occurs once, and the openers of each complaint
/// occur once, in ascending order.
pub open spec fn openings_well_formed(o: Seq<(Complaint, Vec<(NodeId, Opening)>)>) -> bool {
    &&& forall|i: int, j: int| 0 <= i < j < o.len() ==> !same_complaint(#[trigger] o[i].0, #[trigger] o[j].0)
    &&& forall|i: int, k: int, m: int|
        0 <= i < o.len() && 0 <= k < m < o[i].1@.len() ==> (#[trigger] o[i].1@[k]).0 < (#[trigger] o[i].1@[m]).0
}

/// Every complaint has at least `threshold` openings; otherwise the first
/// that has not.
pub fn ensure_sufficient_openings(openings: &OpeningsByComplaint, threshold: u32) -> (res: Result<
    (),
    LoadTranscriptError,
>)
    ensures
        res is Ok <==> forall|i: int|
            0 <= i < openings@.len() ==> (#[trigger] openings@[i]).1@.len() >= threshold,
        res matches Err(e) ==> exists|i: int|
            0 <= i < openings@.len() && (#[trigger] openings@[i]).1@.len() < threshold && (forall|
                j: int,
            | 0 <= j < i ==> (#[trigger] openings@[j]).1@.len() >= threshold) && e == (
            LoadTranscriptError::InsufficientOpenings {
                got: openings@[i].1@.len() as usize,
                required: threshold as usize,
            }),
{
    let mut i: usize = 0;
    while i < openings.len()
        invariant
            i <= openings@.len(),
            forall|j: int| 0 <= j < i ==> (#[trigger] openings@[j]).1@.len() >= threshold,
        decreases openings@.len() - i,
    {
        if openings[i].1.len() < threshold as usize {
            return Err(
                LoadTranscriptError::InsufficientOpenings {
                    got: openings[i].1.len(),
                    required: threshold as usize,
                },
            );
        }
        i = i + 1;
    }
    Ok(())
}

/// The openings of one complaint match it and the transcript.
pub open spec fn openings_match(
    c: Complaint,
    ops: Seq<(NodeId, Opening)>,
    id: TranscriptId,
) -> bool {
    &&& c.transcript_id == id
    &&& forall|k: int|
        0 <= k < ops.len() ==> (#[trigger] ops[k]).1.transcript_id == id && ops[k].1.dealer_id
            == c.dealer_id
}

/// The first mismatch within one complaint and its openings, if any.
pub open spec fn first_mismatch(
    c: Complaint,
    ops: Seq<(NodeId, Opening)>,
    id: TranscriptId,
    k: int,
) -> Option<LoadTranscriptError>
    decreases ops.len() - k,
{
    if k < 0 || k >= ops.len() {
        None
    } else if ops[k].1.transcript_id != id {
        Some(
            LoadTranscriptError::OpeningTranscriptIdMismatch {
                opening: ops[k].1.transcript_id,
                transcript: id,
            },
        )
    } else if ops[k].1.dealer_id != c.dealer_id {
        Some(
            LoadTranscriptError::OpeningDealerIdMismatch {
                opening_dealer: ops[k].1.dealer_id,
                complaint_dealer: c.dealer_id,
            },
        )
    } else {
        first_mismatch(c, ops, id, k + 1)
    }
}

/// The error for one complaint and its openings.
pub open spec fn complaint_mismatch(
    c: Complaint,
    ops: Seq<(NodeId, Opening)>,
    id: TranscriptId,
) -> Option<LoadTranscriptError> {
    if c.transcript_id != id {
        Some(
            LoadTranscriptError::ComplaintTranscriptIdMismatch {
                complaint: c.transcript_id,
                transcript: id,
            },
        )
    } else {
        first_mismatch(c, ops, id, 0)
    }
}

proof fn lemma_first_mismatch_none(
    c: Complaint,
    ops: Seq<(NodeId, Opening)>,
    id: TranscriptId,
    k: int,
)
    requires
        0 <= k <= ops.len(),
    ensures
        first_mismatch(c, ops, id, k) is None <==> forall|m: int|
            k <= m < ops.len() ==> (#[trigger] ops[m]).1.transcript_id == id && ops[m].1.dealer_id
                == c.dealer_id,
    decreases ops.len() - k,
{
    if k < ops.len() {
        lemma_first_mismatch_none(c, ops, id, k + 1);
    }
}

/// Each complaint and each of its openings is about the transcript, and each
/// opening is about the dealer of its complaint; otherwise the first mismatch,
/// complaint by complaint and, within one, the complaint before its
/// openings, each opening's transcript before its dealer.
pub fn ensure_matching_transcript_ids_and_dealer_ids(
    openings: &OpeningsByComplaint,
    t: &Transcript,
) -> (res: Result<(), LoadTranscriptError>)
    ensures
        res is Ok <==> forall|i: int|
            0 <= i < openings@.len() ==> openings_match(
                (#[trigger] openings@[i]).0,
                openings@[i].1@,
                t.transcript_id,
            ),
        res matches Err(e) ==> exists|i: int|
            0 <= i < openings@.len() && complaint_mismatch(
                (#[trigger] openings@[i]).0,
                openings@[i].1@,
                t.transcript_id,
            ) == Some(e) && forall|j: int|
                0 <= j < i ==> openings_match(
                    (#[trigger] openings@[j]).0,
                    openings@[j].1@,
                    t.transcript_id,
                ),
{
    let id = t.transcript_id;
    let mut i: usize = 0;
    while i < openings.len()
        invariant
            i <= openings@.len(),
            id == t.transcript_id,
            forall|j: int|
                0 <= j < i ==> openings_match(
                    (#[trigger] openings@[j]).0,
                    openings@[j].1@,
                    t.transcript_id,
                ),
        decreases openings@.len() - i,
    {
        let complaint = &openings[i].0;
        let ops = &openings[i].1;
        if complaint.transcript_id != id {
            return Err(
                LoadTranscriptError::ComplaintTranscriptIdMismatch {
                    complaint: complaint.transcript_id,
                    transcript: id,
                },
            );
        }
        let mut k: usize = 0;
        while k < ops.len()
            invariant
                i < openings@.len(),
                complaint == &openings@[i as int].0,
                ops == &openings@[i as int].1,
                complaint.transcript_id == id,
                id == t.transcript_id,
                forall|j: int|
                    0 <= j < i ==> openings_match(
                        (#[trigger] openings@[j]).0,
                        openings@[j].1@,
                        t.transcript_id,
                    ),
                k <= ops@.len(),
                first_mismatch(*complaint, ops@, id, 0) == first_mismatch(*complaint, ops@, id, k as int),
                forall|m: int|
                    0 <= m < k ==> (#[trigger] ops@[m]).1.transcript_id == id && ops@[m].1.dealer_id
                        == complaint.dealer_id,
            decreases ops@.len() - k,
        {
            let opening = &ops[k].1;
            if opening.transcript_id != id {
                assert(complaint_mismatch(openings@[i as int].0, openings@[i as int].1@, t.transcript_id)
                    == Some(LoadTranscriptError::OpeningTranscriptIdMismatch {
                        opening: opening.transcript_id,
                        transcript: id,
                    }));
                return Err(
                    LoadTranscriptError::OpeningTranscriptIdMismatch {
                        opening: opening.transcript_id,
                        transcript: id,
                    },
                );
            }
            if opening.dealer_id != complaint.dealer_id {
                assert(complaint_mismatch(openings@[i as int].0, openings@[i as int].1@, t.transcript_id)
                    == Some(LoadTranscriptError::OpeningDealerIdMismatch {
                        opening_dealer: opening.dealer_id,
                        complaint_dealer: complaint.dealer_id,
                    }));
                return Err(
                    LoadTranscriptError::OpeningDealerIdMismatch {
                        opening_dealer: opening.dealer_id,
                        complaint_dealer: complaint.dealer_id,
                    },
                );
            }
            k = k + 1;
        }
        proof {
            lemma_first_mismatch_none(*complaint, ops@, id, ops@.len() as int);
        }
        i = i + 1;
    }
    Ok(())
}


/// The position of this node among the transcript's receivers; `None` when
/// it is not a receiver, in which case loading the transcript does nothing.
pub fn receiver_index(t: &Transcript, node: NodeId) -> (res: Option<NodeIndex>)
    requires
        t.receivers@.len() <= u32::MAX,
    ensures
        res is None <==> !t.receivers@.contains(node),
        res matches Some(i) ==> is_position(t.receivers@, node, i as int),
{
    position(&t.receivers, node)
}

/// The checks of the openings before loading a transcript with them: enough
/// openings for every complaint, then matching transcript and dealer ids.
pub fn check_openings(t: &Transcript, openings: &OpeningsByComplaint) -> (res: Result<
    (),
    LoadTranscriptError,
>)
    ensures
        res is Ok <==> (forall|i: int|
            0 <= i < openings@.len() ==> (#[trigger] openings@[i]).1@.len()
                >= t.reconstruction_threshold) && (forall|i: int|
            0 <= i < openings@.len() ==> openings_match(
                (#[trigger] openings@[i]).0,
                openings@[i].1@,
                t.transcript_id,
            )),
        (exists|i: int| 0 <= i < openings@.len() && (#[trigger] openings@[i]).1@.len() < t.reconstruction_threshold)
            ==> (res matches Err(e) && exists|i: int|
            0 <= i < openings@.len() && (#[trigger] openings@[i]).1@.len() < t.reconstruction_threshold && (forall|
                j: int,
            | 0 <= j < i ==> (#[trigger] openings@[j]).1@.len() >= t.reconstruction_threshold) && e == (
            LoadTranscriptError::InsufficientOpenings {
                got: openings@[i].1@.len() as usize,
                required: t.reconstruction_threshold as usize,
            })),
        (forall|i: int| 0 <= i < openings@.len() ==> (#[trigger] openings@[i]).1@.len() >= t.reconstruction_threshold)
            ==> (res matches Err(e) ==> exists|i: int|
            0 <= i < openings@.len() && complaint_mismatch(
                (#[trigger] openings@[i]).0,
                openings@[i].1@,
                t.transcript_id,
            ) == Some(e) && forall|j: int|
                0 <= j < i ==> openings_match(
                    (#[trigger] openings@[j]).0,
                    openings@[j].1@,
                    t.transcript_id,
                )),
{
    match ensure_sufficient_openings(openings, t.reconstruction_threshold) {
        Ok(()) => {},
        Err(e) => return Err(e),
    }
    ensure_matching_transcript_ids_and_dealer_ids(openings, t)
}

/// The checks before loading a transcript with openings, in order: a node
/// that is not a receiver has nothing to do (`Ok(None)`); otherwise the
/// openings are checked ([`check_openings`]) and this node's position among
/// the receivers is given.
pub fn load_transcript_with_openings_checks(t: &Transcript, self_id: NodeId, openings: &OpeningsByComplaint) -> (res:
    Result<Option<NodeIndex>, LoadTranscriptError>)
    requires
        t.receivers@.len() <= u32::MAX,
    ensures
        !t.receivers@.contains(self_id) ==> res == Ok::<Option<NodeIndex>, LoadTranscriptError>(None),
        t.receivers@.contains(self_id) ==> {
            &&& res is Ok <==> (forall|i: int|
                0 <= i < openings@.len() ==> (#[trigger] openings@[i]).1@.len() >= t.reconstruction_threshold)
                && (forall|i: int|
                0 <= i < openings@.len() ==> openings_match(
                    (#[trigger] openings@[i]).0,
                    openings@[i].1@,
                    t.transcript_id,
                ))
            &&& res matches Ok(o) ==> (o matches Some(k) && is_position(t.receivers@, self_id, k as int))
            &&& (exists|i: int| 0 <= i < openings@.len() && (#[trigger] openings@[i]).1@.len() < t.reconstruction_threshold)
                ==> (res matches Err(e) && e is InsufficientOpenings)
            &&& (forall|i: int| 0 <= i < openings@.len() ==> (#[trigger] openings@[i]).1@.len() >= t.reconstruction_threshold)
                ==> (res matches Err(e) ==> exists|i: int|
                0 <= i < openings@.len() && complaint_mismatch(
                    (#[trigger] openings@[i]).0,
                    openings@[i].1@,
                    t.transcript_id,
                ) == Some(e))
        },
{
    let self_index = match receiver_index(t, self_id) {
        Some(k) => k,
        None => return Ok(None),
    };
    match check_openings(t, openings) {
        Ok(()) => Ok(Some(self_index)),
        Err(e) => Err(e),
    }
}

/// The first opener of `ops` from index `k` on that is not a receiver.
pub open spec fn first_invalid_opener(receivers: Seq<NodeId>, ops: Seq<(NodeId, Opening)>, k: int) -> Option<NodeId>
    decreases ops.len() - k,
{
    if k < 0 || k >= ops.len() {
        None
    } else if !receivers.contains(ops[k].0) {
        Some(ops[k].0)
    } else {
        first_invalid_opener(receivers, ops, k + 1)
    }
}

/// Why the openings of one complaint cannot be re-keyed by index: an opener
/// that is not a receiver, then a complaint about a node that is not a dealer.
pub open spec fn index_error(t: Transcript, c: Complaint, ops: Seq<(NodeId, Opening)>) -> Option<LoadTranscriptError> {
    match first_invalid_opener(t.receivers@, ops, 0) {
        Some(node_id) => Some(LoadTranscriptError::InvalidOpener { node_id }),
        None => if exists|i: int| 0 <= i < t.verified_dealings@.len() && (#[trigger] t.verified_dealings@[i]).1.dealer_id == c.dealer_id {
            None
        } else {
            Some(LoadTranscriptError::InvalidComplaintDealer { node_id: c.dealer_id })
        },
    }
}

/// `index` is the index of the first dealing of `dealer` in `t`.
pub open spec fn is_dealer_index(t: Transcript, dealer: NodeId, index: NodeIndex) -> bool {
    exists|i: int|
        0 <= i < t.verified_dealings@.len() && (#[trigger] t.verified_dealings@[i]).0 == index
            && t.verified_dealings@[i].1.dealer_id == dealer && (forall|j: int|
            0 <= j < i ==> (#[trigger] t.verified_dealings@[j]).1.dealer_id != dealer)
}

proof fn lemma_first_invalid_opener_none(receivers: Seq<NodeId>, ops: Seq<(NodeId, Opening)>, k: int)
    requires
        0 <= k <= ops.len(),
    ensures
        first_invalid_opener(receivers, ops, k) is None <==> forall|m: int|
            k <= m < ops.len() ==> receivers.contains((#[trigger] ops[m]).0),
    decreases ops.len() - k,
{
    if k < ops.len() {
        lemma_first_invalid_opener_none(receivers, ops, k + 1);
    }
}

/// The openings re-keyed for the crypto service provider: each complaint's
/// openings by the opener's position among the receivers, each complaint by
/// its dealer's index in the transcript, in complaint order (a later
/// complaint about the same dealer replaces an earlier one in the map built
/// from this list). The first complaint that cannot be re-keyed is an error.
pub fn internal_openings_by_index(t: &Transcript, openings: &OpeningsByComplaint) -> (res: Result<
    Vec<(NodeIndex, Vec<(NodeIndex, Vec<u8>)>)>,
    LoadTranscriptError,
>)
    requires
        t.receivers@.len() <= u32::MAX,
        openings_well_formed(openings@),
    ensures
        res matches Ok(v) ==> forall|i: int, k: int, m: int|
            0 <= i < v@.len() && 0 <= k < m < v@[i].1@.len() ==> (#[trigger] v@[i].1@[k]).0 != (#[trigger] v@[i].1@[m]).0,
        res is Ok <==> forall|i: int|
            0 <= i < openings@.len() ==> index_error(*t, (#[trigger] openings@[i]).0, openings@[i].1@) is None,
        res matches Err(e) ==> exists|i: int|
            0 <= i < openings@.len() && index_error(*t, (#[trigger] openings@[i]).0, openings@[i].1@) == Some(e)
                && forall|j: int| 0 <= j < i ==> index_error(*t, (#[trigger] openings@[j]).0, openings@[j].1@) is None,
        res matches Ok(v) ==> v@.len() == openings@.len() && forall|i: int|
            0 <= i < v@.len() ==> is_dealer_index(*t, openings@[i].0.dealer_id, (#[trigger] v@[i]).0)
                && v@[i].1@.len() == openings@[i].1@.len() && forall|k: int|
                0 <= k < v@[i].1@.len() ==> is_position(t.receivers@, openings@[i].1@[k].0, (#[trigger] v@[i].1@[k]).0 as int)
                    && v@[i].1@[k].1@ == openings@[i].1@[k].1.internal_opening_raw@,
{
    let mut res: Vec<(NodeIndex, Vec<(NodeIndex, Vec<u8>)>)> = Vec::new();
    let mut i: usize = 0;
    while i < openings.len()
        invariant
            t.receivers@.len() <= u32::MAX,
            i <= openings@.len(),
            res@.len() == i,
            forall|j: int| 0 <= j < i ==> index_error(*t, (#[trigger] openings@[j]).0, openings@[j].1@) is None,
            forall|j: int|
                0 <= j < i ==> is_dealer_index(*t, openings@[j].0.dealer_id, (#[trigger] res@[j]).0)
                    && res@[j].1@.len() == openings@[j].1@.len() && forall|k: int|
                    0 <= k < res@[j].1@.len() ==> is_position(t.receivers@, openings@[j].1@[k].0, (#[trigger] res@[j].1@[k]).0 as int)
                        && res@[j].1@[k].1@ == openings@[j].1@[k].1.internal_opening_raw@,
        decreases openings@.len() - i,
    {
        let complaint = &openings[i].0;
        let ops = &openings[i].1;
        let mut by_opener: Vec<(NodeIndex, Vec<u8>)> = Vec::new();
        let mut k: usize = 0;
        while k < ops.len()
            invariant
                t.receivers@.len() <= u32::MAX,
                i < openings@.len(),
                complaint == &openings@[i as int].0,
                ops == &openings@[i as int].1,
                k <= ops@.len(),
                by_opener@.len() == k,
                first_invalid_opener(t.receivers@, ops@, 0) == first_invalid_opener(t.receivers@, ops@, k as int),
                forall|m: int|
                    0 <= m < k ==> is_position(t.receivers@, ops@[m].0, (#[trigger] by_opener@[m]).0 as int)
                        && by_opener@[m].1@ == ops@[m].1.internal_opening_raw@,
                forall|j: int| 0 <= j < i ==> index_error(*t, (#[trigger] openings@[j]).0, openings@[j].1@) is None,
            decreases ops@.len() - k,
        {
            let opener_id = ops[k].0;
            match position(&t.receivers, opener_id) {
                Some(opener_index) => {
                    let raw = ops[k].1.internal_opening_raw.clone();
                    assert(raw@ =~= ops@[k as int].1.internal_opening_raw@);
                    let ghost prev = by_opener@;
                    by_opener.push((opener_index, raw));
                    assert forall|m: int| 0 <= m < k + 1 implies is_position(t.receivers@, ops@[m].0, (#[trigger] by_opener@[m]).0 as int)
                        && by_opener@[m].1@ == ops@[m].1.internal_opening_raw@ by {
                        if m < k {
                            assert(by_opener@[m] == prev[m]);
                        }
                    }
                },
                None => {
                    assert(index_error(*t, openings@[i as int].0, openings@[i as int].1@) == Some(
                        LoadTranscriptError::InvalidOpener { node_id: opener_id },
                    ));
                    return Err(LoadTranscriptError::InvalidOpener { node_id: opener_id });
                },
            }
            k = k + 1;
        }
        proof {
            lemma_first_invalid_opener_none(t.receivers@, ops@, ops@.len() as int);
        }
        match t.index_for_dealer_id(complaint.dealer_id) {
            Some(dealer_index) => {
                let ghost prev = res@;
                res.push((dealer_index, by_opener));
                assert forall|j: int| 0 <= j < i + 1 implies is_dealer_index(*t, openings@[j].0.dealer_id, (#[trigger] res@[j]).0)
                    && res@[j].1@.len() == openings@[j].1@.len() && forall|k: int|
                    0 <= k < res@[j].1@.len() ==> is_position(t.receivers@, openings@[j].1@[k].0, (#[trigger] res@[j].1@[k]).0 as int)
                        && res@[j].1@[k].1@ == openings@[j].1@[k].1.internal_opening_raw@ by {
                    if j < i {
                        assert(res@[j] == prev[j]);
                    }
                }
            },
            None => {
                return Err(LoadTranscriptError::InvalidComplaintDealer { node_id: complaint.dealer_id });
            },
        }
        i = i + 1;
    }
    assert forall|i: int, k: int, m: int|
        0 <= i < res@.len() && 0 <= k < m < res@[i].1@.len() implies (#[trigger] res@[i].1@[k]).0 != (#[trigger] res@[i].1@[m]).0 by {
        assert(is_position(t.receivers@, openings@[i].1@[k].0, res@[i].1@[k].0 as int));
        assert(is_position(t.receivers@, openings@[i].1@[m].0, res@[i].1@[m].0 as int));
        assert(openings@[i].1@[k].0 < openings@[i].1@[m].0);
    }
    Ok(res)
}

/// The dealer index of the accused dealing and this node's position among
/// the receivers, needed to open a dealing; the dealing is looked up first.
pub fn open_transcript_indices(t: &Transcript, self_id: NodeId, complaint: &Complaint) -> (res:
    Result<(NodeIndex, NodeIndex), OpenTranscriptError>)
    requires
        t.receivers@.len() <= u32::MAX,
    ensures
        (forall|i: int| 0 <= i < t.verified_dealings@.len() ==> (#[trigger] t.verified_dealings@[i]).1.dealer_id != complaint.dealer_id)
            ==> res == Err::<(NodeIndex, NodeIndex), _>(OpenTranscriptError::MissingDealingInTranscript { dealer_id: complaint.dealer_id }),
        (exists|i: int| 0 <= i < t.verified_dealings@.len() && (#[trigger] t.verified_dealings@[i]).1.dealer_id == complaint.dealer_id)
            && !t.receivers@.contains(self_id) ==> res == Err::<(NodeIndex, NodeIndex), _>(OpenTranscriptError::NotAReceiver),
        res is Ok <==> (exists|i: int| 0 <= i < t.verified_dealings@.len() && (#[trigger] t.verified_dealings@[i]).1.dealer_id == complaint.dealer_id)
            && t.receivers@.contains(self_id),
        res matches Ok((d, o)) ==> is_dealer_index(*t, complaint.dealer_id, d) && is_position(t.receivers@, self_id, o as int),
{
    let dealer_index = match t.index_for_dealer_id(complaint.dealer_id) {
        Some(d) => d,
        None => return Err(OpenTranscriptError::MissingDealingInTranscript { dealer_id: complaint.dealer_id }),
    };
    match position(&t.receivers, self_id) {
        Some(opener_index) => Ok((dealer_index, opener_index)),
        None => Err(OpenTranscriptError::NotAReceiver),
    }
}

/// The opening this node produces for a complaint: about the transcript and
/// the accused dealer, carrying the serialised internal opening.
pub fn new_opening(t: &Transcript, complaint: &Complaint, internal_opening_raw: Vec<u8>) -> (res: Opening)
    ensures
        res.transcript_id == t.transcript_id,
        res.dealer_id == complaint.dealer_id,
        res.internal_opening_raw == internal_opening_raw,
{
    Opening { transcript_id: t.transcript_id, dealer_id: complaint.dealer_id, internal_opening_raw }
}

/// The checks of an opening before its cryptographic verification, in order:
/// the complaint and the opening are about the transcript, the opening is
/// about the complaint's dealer, the dealer has a dealing in the transcript
/// and the opener is a receiver. Gives the dealer index and the opener's
/// position.
pub fn check_opening(t: &Transcript, opener_id: NodeId, opening: &Opening, complaint: &Complaint) -> (res:
    Result<(NodeIndex, NodeIndex), VerifyOpeningError>)
    requires
        t.receivers@.len() <= u32::MAX,
    ensures
        complaint.transcript_id != t.transcript_id || opening.transcript_id != t.transcript_id
            ==> res == Err::<(NodeIndex, NodeIndex), _>(VerifyOpeningError::TranscriptIdMismatch),
        complaint.transcript_id == t.transcript_id && opening.transcript_id == t.transcript_id
            && opening.dealer_id != complaint.dealer_id ==> res == Err::<(NodeIndex, NodeIndex), _>(VerifyOpeningError::DealerIdMismatch),
        res is Ok <==> complaint.transcript_id == t.transcript_id && opening.transcript_id == t.transcript_id
            && opening.dealer_id == complaint.dealer_id
            && (exists|i: int| 0 <= i < t.verified_dealings@.len() && (#[trigger] t.verified_dealings@[i]).1.dealer_id == complaint.dealer_id)
            && t.receivers@.contains(opener_id),
        complaint.transcript_id == t.transcript_id && opening.transcript_id == t.transcript_id
            && opening.dealer_id == complaint.dealer_id
            && (forall|i: int| 0 <= i < t.verified_dealings@.len() ==> (#[trigger] t.verified_dealings@[i]).1.dealer_id != complaint.dealer_id)
            ==> res == Err::<(NodeIndex, NodeIndex), _>(VerifyOpeningError::MissingDealingInTranscript { dealer_id: complaint.dealer_id }),
        complaint.transcript_id == t.transcript_id && opening.transcript_id == t.transcript_id
            && opening.dealer_id == complaint.dealer_id
            && (exists|i: int| 0 <= i < t.verified_dealings@.len() && (#[trigger] t.verified_dealings@[i]).1.dealer_id == complaint.dealer_id)
            && !t.receivers@.contains(opener_id)
            ==> res == Err::<(NodeIndex, NodeIndex), _>(VerifyOpeningError::MissingOpenerInReceivers { opener_id }),
        res matches Ok((d, o)) ==> is_dealer_index(*t, complaint.dealer_id, d) && is_position(t.receivers@, opener_id, o as int),
{
    if complaint.transcript_id != t.transcript_id || opening.transcript_id != t.transcript_id {
        return Err(VerifyOpeningError::TranscriptIdMismatch);
    }
    if opening.dealer_id != complaint.dealer_id {
        return Err(VerifyOpeningError::DealerIdMismatch);
    }
    let dealer_index = match t.index_for_dealer_id(complaint.dealer_id) {
        Some(d) => d,
        None => return Err(VerifyOpeningError::MissingDealingInTranscript { dealer_id: complaint.dealer_id }),
    };
    match position(&t.receivers, opener_id) {
        Some(opener_index) => Ok((dealer_index, opener_index)),
        None => Err(VerifyOpeningError::MissingOpenerInReceivers { opener_id }),
    }
}

} // verus!
