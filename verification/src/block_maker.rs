//! The decisions of the consensus block maker: whether this node proposes a
//! block in the current round, on which parent, with which validation context
//! and which payload, and which registry version is stable enough to validate
//! it against.
//!
//! The pools, the registry and the crypto component are read by the caller;
//! the values read are handed in as plain data.
use vstd::prelude::*;

verus! {

/// Identifies a replica.
pub type NodeId = u64;

/// The context in which a block is validated.
#[derive(Clone, Copy, Debug, PartialEq, Eq, Structural)]
pub struct ValidationContext {
    pub registry_version: u64,
    pub certified_height: u64,
    /// Nanoseconds since the Unix epoch.
    pub time: u64,
}

impl ValidationContext {
    /// Whether every component of `self` is at least that of `other`.
    pub open spec fn ge_spec(self, other: ValidationContext) -> bool {
        self.registry_version >= other.registry_version && self.certified_height
            >= other.certified_height && self.time >= other.time
    }

    pub fn greater_or_equal(&self, other: &ValidationContext) -> (res: bool)
        ensures
            res == self.ge_spec(*other),
    {
        self.registry_version >= other.registry_version && self.certified_height
            >= other.certified_height && self.time >= other.time
    }
}

/// What consensus reads of a block.
#[derive(Clone, Copy, Debug, PartialEq, Eq, Structural)]
pub struct Block {
    pub height: u64,
    pub rank: u64,
    pub context: ValidationContext,
}

/// A random beacon of some height.
#[derive(Clone, Copy, Debug, PartialEq, Eq, Structural)]
pub struct RandomBeacon {
    pub height: u64,
}

/// The index of the first block of lowest rank in `blocks`.
pub open spec fn is_first_lowest(blocks: Seq<Block>, i: int) -> bool {
    &&& 0 <= i < blocks.len()
    &&& forall|j: int| 0 <= j < blocks.len() ==> blocks[i].rank <= #[trigger] blocks[j].rank
    &&& forall|j: int| 0 <= j < i ==> blocks[i].rank < #[trigger] blocks[j].rank
}

/// The parent random beacon and block for the next round: the beacon at the
/// notarized height and, of the notarized blocks there, the first of lowest
/// rank. `None` when the beacon or every notarized block is missing.
pub fn get_dependencies(beacon: Option<RandomBeacon>, notarized_blocks: &Vec<Block>) -> (res:
    Option<(RandomBeacon, Block)>)
    ensures
        (beacon is None || notarized_blocks@.len() == 0) <==> res is None,
        res matches Some((b, p)) ==> b == beacon.unwrap() && exists|i: int|
            is_first_lowest(notarized_blocks@, i) && p == notarized_blocks@[i],
{
    let beacon = match beacon {
        Some(b) => b,
        None => return None,
    };
    if notarized_blocks.len() == 0 {
        return None;
    }
    let mut best: usize = 0;
    let mut i: usize = 1;
    while i < notarized_blocks.len()
        invariant
            1 <= i <= notarized_blocks@.len(),
            best < i,
            forall|j: int| 0 <= j < i ==> notarized_blocks@[best as int].rank <= #[trigger] notarized_blocks@[j].rank,
            forall|j: int| 0 <= j < best ==> notarized_blocks@[best as int].rank < #[trigger] notarized_blocks@[j].rank,
        decreases notarized_blocks@.len() - i,
    {
        if notarized_blocks[i].rank < notarized_blocks[best].rank {
            best = i;
        }
        i = i + 1;
    }
    assert(is_first_lowest(notarized_blocks@, best as int));
    Some((beacon, notarized_blocks[best]))
}

/// Whether `this_node` signed one of the proposals at the height, given the
/// signers of the validated proposals there.
pub fn already_proposed(proposal_signers: &Vec<NodeId>, this_node: NodeId) -> (res: bool)
    ensures
        res == proposal_signers@.contains(this_node),
{
    let mut i: usize = 0;
    while i < proposal_signers.len()
        invariant
            i <= proposal_signers@.len(),
            forall|j: int| 0 <= j < i ==> proposal_signers@[j] != this_node,
        decreases proposal_signers@.len() - i,
    {
        if proposal_signers[i] == this_node {
            assert(proposal_signers@[i as int] == this_node);
            return true;
        }
        i = i + 1;
    }
    false
}

/// Whether a validated proposal of lower rank than `rank` exists, given the
/// ranks of the validated proposals at the height.
pub fn is_better_block_proposal_available(proposal_ranks: &Vec<u64>, rank: u64) -> (res: bool)
    ensures
        res == exists|j: int| 0 <= j < proposal_ranks@.len() && #[trigger] proposal_ranks@[j] < rank,
{
    let mut i: usize = 0;
    while i < proposal_ranks.len()
        invariant
            i <= proposal_ranks@.len(),
            forall|j: int| 0 <= j < i ==> #[trigger] proposal_ranks@[j] >= rank,
        decreases proposal_ranks@.len() - i,
    {
        if proposal_ranks[i] < rank {
            return true;
        }
        i = i + 1;
    }
    false
}

/// The outcome of looking up this node's block maker rank.
#[derive(Clone, Copy, Debug, PartialEq, Eq, Structural)]
pub enum RankLookup {
    /// This node is a block maker of the round with this rank.
    Rank(u64),
    /// This node is not a block maker of the round.
    NotBlockMaker,
    /// The rank could not be determined.
    Unavailable,
}

/// What the block maker observed in the pool for the round.
#[derive(Clone, Debug, PartialEq, Eq)]
pub struct RoundObservation {
    /// This node's rank for the round.
    pub rank: RankLookup,
    /// The signers of the validated proposals at the round's height.
    pub proposal_signers: Vec<NodeId>,
    /// The ranks of the validated proposals at the round's height.
    pub proposal_ranks: Vec<u64>,
    /// Whether the block maker delay of the rank has passed.
    pub time_to_make_block: bool,
}

/// The rank with which this node makes a proposal in the round, if it does.
pub open spec fn proposal_rank_spec(obs: RoundObservation, node: NodeId) -> Option<u64> {
    match obs.rank {
        RankLookup::Rank(r) => if !obs.proposal_signers@.contains(node) && !(exists|j: int|
            0 <= j < obs.proposal_ranks@.len() && #[trigger] obs.proposal_ranks@[j] < r)
            && obs.time_to_make_block {
            Some(r)
        } else {
            None
        },
        _ => None,
    }
}

/// Whether a block should be proposed this round, and with which rank: only by
/// a block maker that has not proposed at this height yet, when no proposal of
/// lower rank is already validated and its delay has passed.
pub fn proposal_rank(obs: &RoundObservation, this_node: NodeId) -> (res: Option<u64>)
    ensures
        res == proposal_rank_spec(*obs, this_node),
        res matches Some(r) ==> obs.rank == RankLookup::Rank(r) && obs.time_to_make_block
            && !obs.proposal_signers@.contains(this_node)
            && forall|j: int| 0 <= j < obs.proposal_ranks@.len() ==> #[trigger] obs.proposal_ranks@[j] >= r,
        forall|r: u64|
            obs.rank == RankLookup::Rank(r) && obs.time_to_make_block
                && !obs.proposal_signers@.contains(this_node)
                && (forall|j: int| 0 <= j < obs.proposal_ranks@.len() ==> #[trigger] obs.proposal_ranks@[j] >= r)
                ==> res == Some(r),
{
    match obs.rank {
        RankLookup::Rank(rank) => {
            if !already_proposed(&obs.proposal_signers, this_node)
                && !is_better_block_proposal_available(&obs.proposal_ranks, rank)
                && obs.time_to_make_block {
                Some(rank)
            } else {
                None
            }
        },
        _ => None,
    }
}

/// A block maker proposes exactly when it has not proposed at the height
/// yet, its delay has passed and no validated proposal has a lower rank
/// than its own; proposals of equal or higher rank never stop it.
pub proof fn lemma_proposal_rank_law(obs: RoundObservation, node: NodeId)
    ensures
        proposal_rank_spec(obs, node) matches Some(r) ==> obs.rank == RankLookup::Rank(r)
            && obs.time_to_make_block && !obs.proposal_signers@.contains(node)
            && forall|j: int| 0 <= j < obs.proposal_ranks@.len() ==> #[trigger] obs.proposal_ranks@[j] >= r,
        forall|r: u64|
            obs.rank == RankLookup::Rank(r) && obs.time_to_make_block
                && !obs.proposal_signers@.contains(node)
                && (forall|j: int| 0 <= j < obs.proposal_ranks@.len() ==> #[trigger] obs.proposal_ranks@[j] >= r)
                ==> proposal_rank_spec(obs, node) == Some(r),
        !(obs.rank is Rank) ==> proposal_rank_spec(obs, node) is None,
{
}

/// The stable version, given `timestamps[i]`, the timestamp of version
/// `latest - i`, scanning from index `i` down towards the parent's version.
pub open spec fn stable_version_from(
    parents_version: u64,
    latest_version: u64,
    timestamps: Seq<Option<u64>>,
    age: u64,
    now: u64,
    i: int,
) -> Option<u64>
    decreases timestamps.len() - i,
{
    if i < 0 || i >= timestamps.len() {
        if parents_version <= latest_version {
            Some(parents_version)
        } else {
            None
        }
    } else {
        match timestamps[i] {
            None => None,
            Some(t) => if t + age <= now {
                Some((latest_version - i) as u64)
            } else {
                stable_version_from(parents_version, latest_version, timestamps, age, now, i + 1)
            },
        }
    }
}

/// The number of versions from the parent's version up to the latest one.
pub open spec fn version_span(parents_version: u64, latest_version: u64) -> int {
    if parents_version <= latest_version {
        latest_version - parents_version + 1
    } else {
        0
    }
}

/// The registry version to validate a new block against: the highest version
/// from `latest_version` down to the parent's version that was received at
/// least `age` nanoseconds before `now`; failing that, the parent's version
/// when it is available locally. The scan stops with `None` at the first
/// version whose timestamp is unknown.
///
/// `timestamps[i]` is the timestamp of version `latest_version - i`, for each
/// version from the latest down to the parent's.
pub fn get_stable_registry_version(
    parents_version: u64,
    latest_version: u64,
    timestamps: &Vec<Option<u64>>,
    age: u64,
    now: u64,
) -> (res: Option<u64>)
    requires
        timestamps@.len() == version_span(parents_version, latest_version),
    ensures
        res == stable_version_from(parents_version, latest_version, timestamps@, age, now, 0),
        res matches Some(v) ==> parents_version <= v <= latest_version,
{
    let mut i: usize = 0;
    while i < timestamps.len()
        invariant
            i <= timestamps@.len(),
            timestamps@.len() == version_span(parents_version, latest_version),
            stable_version_from(parents_version, latest_version, timestamps@, age, now, 0)
                == stable_version_from(
                parents_version,
                latest_version,
                timestamps@,
                age,
                now,
                i as int,
            ),
        decreases timestamps@.len() - i,
    {
        match timestamps[i] {
            None => return None,
            Some(t) => {
                if (t as u128) + (age as u128) <= now as u128 {
                    return Some(latest_version - i as u64);
                }
            },
        }
        i = i + 1;
    }
    if parents_version <= latest_version {
        Some(parents_version)
    } else {
        None
    }
}

proof fn lemma_stable_version_age_monotone(
    parents_version: u64,
    latest_version: u64,
    timestamps: Seq<Option<u64>>,
    younger: u64,
    older: u64,
    now: u64,
    i: int,
)
    requires
        younger <= older,
        0 <= i <= timestamps.len(),
        timestamps.len() == version_span(parents_version, latest_version),
        stable_version_from(parents_version, latest_version, timestamps, older, now, i) is Some,
    ensures
        stable_version_from(parents_version, latest_version, timestamps, younger, now, i) is Some,
        stable_version_from(parents_version, latest_version, timestamps, older, now, i).unwrap()
            <= stable_version_from(
            parents_version,
            latest_version,
            timestamps,
            younger,
            now,
            i,
        ).unwrap(),
    decreases timestamps.len() - i,
{
    if i < timestamps.len() {
        match timestamps[i] {
            None => {},
            Some(t) => {
                if t + older <= now {
                } else if t + younger <= now {
                    lemma_stable_version_below(parents_version, latest_version, timestamps, older, now, i + 1);
                } else {
                    lemma_stable_version_age_monotone(
                        parents_version,
                        latest_version,
                        timestamps,
                        younger,
                        older,
                        now,
                        i + 1,
                    );
                }
            },
        }
    }
}

proof fn lemma_stable_version_below(
    parents_version: u64,
    latest_version: u64,
    timestamps: Seq<Option<u64>>,
    age: u64,
    now: u64,
    i: int,
)
    requires
        0 <= i <= timestamps.len(),
        timestamps.len() == version_span(parents_version, latest_version),
    ensures
        stable_version_from(parents_version, latest_version, timestamps, age, now, i) matches Some(
            v,
        ) ==> v <= latest_version - i + 1 && parents_version <= v,
    decreases timestamps.len() - i,
{
    if i < timestamps.len() {
        lemma_stable_version_below(parents_version, latest_version, timestamps, age, now, i + 1);
    }
}

/// A larger minimal age never gives a later stable registry version: if
/// a version is stable for `older`, one at least as high is stable for
/// `younger <= older`.
pub proof fn lemma_stable_version_monotone_in_age(
    parents_version: u64,
    latest_version: u64,
    timestamps: Seq<Option<u64>>,
    younger: u64,
    older: u64,
    now: u64,
)
    requires
        younger <= older,
        timestamps.len() == version_span(parents_version, latest_version),
        stable_version_from(parents_version, latest_version, timestamps, older, now, 0) is Some,
    ensures
        stable_version_from(parents_version, latest_version, timestamps, younger, now, 0) is Some,
        stable_version_from(parents_version, latest_version, timestamps, older, now, 0).unwrap()
            <= stable_version_from(
            parents_version,
            latest_version,
            timestamps,
            younger,
            now,
            0,
        ).unwrap(),
{
    lemma_stable_version_age_monotone(
        parents_version,
        latest_version,
        timestamps,
        younger,
        older,
        now,
        0,
    );
}

/// The context of a new block on top of `parent`: the given certified height
/// and stable registry version, and the later of the local time and the
/// parent's time. `None` when that context is not at least the parent's.
pub fn validation_context_for(
    certified_height: u64,
    stable_registry_version: u64,
    local_time: u64,
    parent: &ValidationContext,
) -> (res: Option<ValidationContext>)
    ensures
        ({
            let ctx = ValidationContext {
                registry_version: stable_registry_version,
                certified_height,
                time: if local_time >= parent.time {
                    local_time
                } else {
                    parent.time
                },
            };
            res == if ctx.ge_spec(*parent) {
                Some(ctx)
            } else {
                None
            }
        }),
{
    let time = if local_time >= parent.time {
        local_time
    } else {
        parent.time
    };
    let context = ValidationContext {
        registry_version: stable_registry_version,
        certified_height,
        time,
    };
    if context.greater_or_equal(parent) {
        Some(context)
    } else {
        None
    }
}

/// What the block maker needs to make a proposal on top of a parent.
#[derive(Clone, Copy, Debug, PartialEq, Eq, Structural)]
pub struct ProposalPlan {
    pub height: u64,
    pub rank: u64,
    /// The registry version of the height, used to sign the block.
    pub registry_version: u64,
    pub context: ValidationContext,
}

/// Plans a proposal of rank `rank` on top of `parent`; every missing input
/// skips block making. `registry_version` is the registry version of the new
/// height, `stable_registry_version` the outcome of
/// [`get_stable_registry_version`], and `subnet_records_available` whether the
/// subnet records of both versions could be read.
pub fn plan_proposal(
    parent: &Block,
    rank: u64,
    certified_height: u64,
    local_time: u64,
    registry_version: Option<u64>,
    stable_registry_version: Option<u64>,
    subnet_records_available: bool,
) -> (res: Option<ProposalPlan>)
    requires
        parent.height < u64::MAX,
    ensures
        res is Some <==> registry_version is Some && stable_registry_version is Some
            && subnet_records_available && ({
            let ctx = ValidationContext {
                registry_version: stable_registry_version.unwrap(),
                certified_height,
                time: if local_time >= parent.context.time {
                    local_time
                } else {
                    parent.context.time
                },
            };
            ctx.ge_spec(parent.context)
        }),
        res matches Some(p) ==> p.context.ge_spec(parent.context),
        res matches Some(p) ==> p.height == parent.height + 1 && p.rank == rank
            && p.registry_version == registry_version.unwrap() && p.context.registry_version
            == stable_registry_version.unwrap() && p.context.certified_height == certified_height
            && p.context.time == if local_time >= parent.context.time {
            local_time
        } else {
            parent.context.time
        },
{
    let registry_version = match registry_version {
        Some(v) => v,
        None => return None,
    };
    let stable = match stable_registry_version {
        Some(v) => v,
        None => return None,
    };
    if !subnet_records_available {
        return None;
    }
    match validation_context_for(certified_height, stable, local_time, &parent.context) {
        Some(context) => Some(
            ProposalPlan { height: parent.height + 1, rank, registry_version, context },
        ),
        None => None,
    }
}

/// Where the batch payload of a data block comes from.
#[derive(Clone, Copy, Debug, PartialEq, Eq, Structural)]
pub enum BatchPayloadSource {
    /// An empty batch: a replica upgrade is pending.
    Empty,
    /// The payload builder, given the past payloads above the certified height.
    Builder,
}

/// The batch payload decision: `None` (no block) when it is unknown whether an
/// upgrade is pending or when a pending upgrade is already finalized; an empty
/// batch while a pending upgrade is not finalized (or not known to be); the
/// payload builder otherwise.
pub fn batch_payload_source(upgrade_pending: Option<bool>, upgrade_finalized: Option<bool>) -> (res:
    Option<BatchPayloadSource>)
    ensures
        res == match upgrade_pending {
            None => None,
            Some(true) => if upgrade_finalized == Some(true) {
                None
            } else {
                Some(BatchPayloadSource::Empty)
            },
            Some(false) => Some(BatchPayloadSource::Builder),
        },
{
    match upgrade_pending {
        None => None,
        Some(true) => {
            let finalized = match upgrade_finalized {
                Some(f) => f,
                None => false,
            };
            if finalized {
                None
            } else {
                Some(BatchPayloadSource::Empty)
            }
        },
        Some(false) => Some(BatchPayloadSource::Builder),
    }
}

/// The DKG payload created for the new block.
#[derive(Clone, Copy, Debug, PartialEq, Eq, Structural)]
pub enum DkgPayloadKind {
    /// A summary (start of an interval): the block carries no batch.
    Summary,
    /// Dealings for an interval starting at `start_height`.
    Dealings { start_height: u64 },
}

/// The composition of a new block's payload.
#[derive(Clone, Copy, Debug, PartialEq, Eq, Structural)]
pub enum PayloadPlan {
    /// A summary block, with the ECDSA summary payload.
    Summary,
    /// A data block.
    Data {
        batch: BatchPayloadSource,
        /// When set, the DKG dealings are replaced by an empty set of dealings
        /// starting at the same height and no ECDSA data is included.
        empty_dealings: bool,
        dealings_start_height: u64,
    },
}

/// The payload of a new block: a summary for a summary DKG payload; for
/// dealings, the batch decided by [`batch_payload_source`] and, when an
/// upgrade is pending at the height, empty dealings. `None` (no block) when the
/// batch decision gives none or when it is unknown whether an upgrade is
/// pending at the height.
pub fn payload_plan(
    dkg: DkgPayloadKind,
    batch_upgrade_pending: Option<bool>,
    batch_upgrade_finalized: Option<bool>,
    upgrade_pending_at_height: Option<bool>,
) -> (res: Option<PayloadPlan>)
    ensures
        res == match dkg {
            DkgPayloadKind::Summary => Some(PayloadPlan::Summary),
            DkgPayloadKind::Dealings { start_height } => {
                match (
                    if batch_upgrade_pending is None {
                        None
                    } else if batch_upgrade_pending == Some(true) {
                        if batch_upgrade_finalized == Some(true) {
                            None
                        } else {
                            Some(BatchPayloadSource::Empty)
                        }
                    } else {
                        Some(BatchPayloadSource::Builder)
                    },
                    upgrade_pending_at_height,
                ) {
                    (Some(batch), Some(pending)) => Some(
                        PayloadPlan::Data {
                            batch,
                            empty_dealings: pending,
                            dealings_start_height: start_height,
                        },
                    ),
                    _ => None,
                }
            },
        },
{
    match dkg {
        DkgPayloadKind::Summary => Some(PayloadPlan::Summary),
        DkgPayloadKind::Dealings { start_height } => {
            let batch = match batch_payload_source(batch_upgrade_pending, batch_upgrade_finalized) {
                Some(b) => b,
                None => return None,
            };
            match upgrade_pending_at_height {
                Some(pending) => Some(
                    PayloadPlan::Data {
                        batch,
                        empty_dealings: pending,
                        dealings_start_height: start_height,
                    },
                ),
                None => None,
            }
        },
    }
}

/// The rank used when proposing blocks maliciously: this node's rank, rank 0
/// when it is not a block maker, nothing while the rank is unknown.
pub fn malicious_rank(lookup: RankLookup) -> (res: Option<u64>)
    ensures
        res == match lookup {
            RankLookup::Rank(r) => Some(r),
            RankLookup::NotBlockMaker => Some(0u64),
            RankLookup::Unavailable => None,
        },
{
    match lookup {
        RankLookup::Rank(r) => Some(r),
        RankLookup::NotBlockMaker => Some(0),
        RankLookup::Unavailable => None,
    }
}

/// The number of proposals an equivocating block maker aims at.
pub const NUMBER_OF_EQUIVOCATING_PROPOSALS: u64 = 5;

/// The context times of the extra blocks an equivocating block maker signs
/// besides its proposal: the proposal's time plus 1, 2 and 3 nanoseconds.
pub fn equivocation_times(time: u64) -> (res: Vec<u64>)
    requires
        time + NUMBER_OF_EQUIVOCATING_PROPOSALS - 2 <= u64::MAX,
    ensures
        res@.len() == NUMBER_OF_EQUIVOCATING_PROPOSALS - 2,
        forall|i: int| 0 <= i < res@.len() ==> #[trigger] res@[i] == time + i + 1,
{
    let mut times: Vec<u64> = Vec::new();
    let mut i: u64 = 1;
    while i < NUMBER_OF_EQUIVOCATING_PROPOSALS - 1
        invariant
            1 <= i <= NUMBER_OF_EQUIVOCATING_PROPOSALS - 1,
            time + NUMBER_OF_EQUIVOCATING_PROPOSALS - 2 <= u64::MAX,
            times@.len() == i - 1,
            forall|j: int| 0 <= j < times@.len() ==> #[trigger] times@[j] == time + j + 1,
        decreases NUMBER_OF_EQUIVOCATING_PROPOSALS - 1 - i,
    {
        times.push(time + i);
        i = i + 1;
    }
    times
}

} // verus!
