//! The registry invariants about node crypto keys and ECDSA signing subnets.
//!
//! A registry snapshot is held with its keys already parsed: each record says
//! whether it is a node's crypto key, a node's TLS certificate, a node record
//! or something else. Public keys and certificates are held in their encoded
//! form, which is what uniqueness is judged on.
use vstd::prelude::*;

verus! {

/// Identifies a node.
pub type NodeId = u64;

/// Identifies a subnet.
pub type SubnetId = u64;

/// What a node's public key is used for.
#[derive(Clone, Copy, Debug, PartialEq, Eq, Structural)]
pub enum KeyPurpose {
    Placeholder,
    NodeSigning,
    QueryResponseSigning,
    DkgDealingEncryption,
    CommitteeSigning,
    IDkgMEGaEncryption,
}

/// The parsed key of a registry record.
#[derive(Clone, Copy, Debug, PartialEq, Eq, Structural)]
pub enum RecordKey {
    /// `crypto_record_<node>_<purpose>`: a node's public key.
    CryptoNodeKey { node_id: NodeId, purpose: KeyPurpose },
    /// `crypto_tls_cert_<node>`: a node's TLS certificate.
    CryptoTlsCert { node_id: NodeId },
    /// `node_record_<node>`: a node record.
    NodeRecord { node_id: NodeId },
    /// Any other key.
    Other,
}

/// A record of a registry snapshot.
#[derive(Clone, Debug, PartialEq, Eq)]
pub struct RegistryRecord {
    pub key: RecordKey,
    pub value: Vec<u8>,
}

/// A failed invariant.
#[derive(Clone, Debug, PartialEq, Eq)]
pub enum InvariantCheckError {
    /// There are crypto or TLS records of these nodes, which have no node record.
    OrphanedCryptoRecords { node_ids: Vec<NodeId> },
    /// The signing subnet list at this position names more than one subnet.
    MoreThanOneSigningSubnet { list: usize },
    /// The key of the signing subnet list at this position is not an ECDSA key id.
    InvalidEcdsaKeyId { list: usize },
    /// A signing subnet list names a subnet that has no record.
    NonExistentSubnet { list: usize, subnet_id: SubnetId },
    /// A signing subnet has no ECDSA configuration.
    NoEcdsaConfig { list: usize, subnet_id: SubnetId },
    /// A signing subnet's ECDSA configuration lacks the key of its list.
    KeyNotInSubnetConfig { list: usize, subnet_id: SubnetId },
    /// Two nodes (or two keys of one node) use the same public key.
    DuplicatePublicKey { existing: NodeId, node_id: NodeId },
    /// Two nodes use the same TLS certificate.
    DuplicateTlsCertificate { existing: NodeId, node_id: NodeId },
    /// A node with a node record lacks its public key for this purpose.
    MissingPublicKey { node_id: NodeId, purpose: KeyPurpose },
    /// A node with a node record lacks its TLS certificate.
    MissingTlsCertificate { node_id: NodeId },
    /// The crypto key validation refused the keys of a node.
    InvalidNodeKeys { node_id: NodeId },
}

/// The node a crypto key or TLS certificate record belongs to.
pub open spec fn crypto_record_node(k: RecordKey) -> Option<NodeId> {
    match k {
        RecordKey::CryptoNodeKey { node_id, .. } => Some(node_id),
        RecordKey::CryptoTlsCert { node_id } => Some(node_id),
        _ => None,
    }
}

/// The snapshot holds a crypto key or TLS certificate of `node`.
pub open spec fn has_crypto_record(snapshot: Seq<RegistryRecord>, node: NodeId) -> bool {
    exists|i: int| 0 <= i < snapshot.len() && crypto_record_node((#[trigger] snapshot[i]).key) == Some(node)
}

/// The snapshot holds the node record of `node`.
pub open spec fn has_node_record(snapshot: Seq<RegistryRecord>, node: NodeId) -> bool {
    exists|i: int| 0 <= i < snapshot.len() && (#[trigger] snapshot[i]).key == (RecordKey::NodeRecord { node_id: node })
}

/// `node` has crypto records but no node record.
pub open spec fn is_orphaned(snapshot: Seq<RegistryRecord>, node: NodeId) -> bool {
    has_crypto_record(snapshot, node) && !has_node_record(snapshot, node)
}

fn has_node_record_exec(snapshot: &Vec<RegistryRecord>, node: NodeId) -> (res: bool)
    ensures
        res == has_node_record(snapshot@, node),
{
    let mut i: usize = 0;
    while i < snapshot.len()
        invariant
            i <= snapshot@.len(),
            forall|j: int| 0 <= j < i ==> (#[trigger] snapshot@[j]).key != (RecordKey::NodeRecord { node_id: node }),
        decreases snapshot@.len() - i,
    {
        if snapshot[i].key == (RecordKey::NodeRecord { node_id: node }) {
            return true;
        }
        i = i + 1;
    }
    false
}

fn contains_u64(v: &Vec<u64>, x: u64) -> (res: bool)
    ensures
        res == v@.contains(x),
{
    let mut i: usize = 0;
    while i < v.len()
        invariant
            i <= v@.len(),
            forall|j: int| 0 <= j < i ==> v@[j] != x,
        decreases v@.len() - i,
    {
        if v[i] == x {
            assert(v@[i as int] == x);
            return true;
        }
        i = i + 1;
    }
    false
}

/// Every crypto key and TLS certificate belongs to a node that has a node
/// record; otherwise the error lists, once each, exactly the nodes that have
/// such records and no node record.
pub fn check_no_orphaned_node_crypto_records(snapshot: &Vec<RegistryRecord>) -> (res: Result<(), InvariantCheckError>)
    ensures
        res is Ok <==> forall|n: NodeId| !is_orphaned(snapshot@, n),
        res matches Err(e) ==> e matches InvariantCheckError::OrphanedCryptoRecords { node_ids }
            && node_ids@.no_duplicates() && forall|n: NodeId| node_ids@.contains(n) <==> is_orphaned(snapshot@, n),
{
    let mut orphans: Vec<NodeId> = Vec::new();
    let mut i: usize = 0;
    while i < snapshot.len()
        invariant
            i <= snapshot@.len(),
            orphans@.no_duplicates(),
            forall|n: NodeId| orphans@.contains(n) ==> is_orphaned(snapshot@, n),
            forall|j: int|
                0 <= j < i && crypto_record_node((#[trigger] snapshot@[j]).key) is Some
                    && !has_node_record(snapshot@, crypto_record_node(snapshot@[j].key).unwrap())
                    ==> orphans@.contains(crypto_record_node(snapshot@[j].key).unwrap()),
        decreases snapshot@.len() - i,
    {
        let node = match snapshot[i].key {
            RecordKey::CryptoNodeKey { node_id, .. } => Some(node_id),
            RecordKey::CryptoTlsCert { node_id } => Some(node_id),
            _ => None,
        };
        if let Some(n) = node {
            assert(crypto_record_node(snapshot@[i as int].key) == Some(n));
            if !has_node_record_exec(snapshot, n) && !contains_u64(&orphans, n) {
                let ghost prev = orphans@;
                orphans.push(n);
                assert(orphans@[orphans@.len() - 1] == n);
                assert forall|x: NodeId| prev.contains(x) implies orphans@.contains(x) by {
                    let k = choose|k: int| 0 <= k < prev.len() && prev[k] == x;
                    assert(orphans@[k] == prev[k]);
                }
            }
        }
        i = i + 1;
    }
    if orphans.len() == 0 {
        assert forall|n: NodeId| !is_orphaned(snapshot@, n) by {
            if is_orphaned(snapshot@, n) {
                let j = choose|j: int| 0 <= j < snapshot@.len() && crypto_record_node((#[trigger] snapshot@[j]).key) == Some(n);
                assert(orphans@.contains(n));
            }
        }
        Ok(())
    } else {
        assert(orphans@.contains(orphans@[0]));
        assert forall|n: NodeId| orphans@.contains(n) <==> is_orphaned(snapshot@, n) by {
            if is_orphaned(snapshot@, n) {
                let j = choose|j: int| 0 <= j < snapshot@.len() && crypto_record_node((#[trigger] snapshot@[j]).key) == Some(n);
            }
        }
        Err(InvariantCheckError::OrphanedCryptoRecords { node_ids: orphans })
    }
}


/// An ECDSA key id: a curve and a name.
#[derive(Clone, Debug, PartialEq, Eq)]
pub struct EcdsaKeyId {
    pub curve: u32,
    pub name: String,
}

pub open spec fn same_key_id(a: EcdsaKeyId, b: EcdsaKeyId) -> bool {
    a.curve == b.curve && a.name@ == b.name@
}

/// A signing subnet list record: the key id parsed from its registry key
/// (`None` when the key does not name an ECDSA key id) and the subnets
/// holding that key.
#[derive(Clone, Debug, PartialEq, Eq)]
pub struct EcdsaSigningSubnetList {
    pub key_id: Option<EcdsaKeyId>,
    pub subnets: Vec<SubnetId>,
}

/// What the check reads of a subnet record: the key ids of its ECDSA
/// configuration, if it has one.
#[derive(Clone, Debug, PartialEq, Eq)]
pub struct SubnetEcdsaConfig {
    pub subnet_id: SubnetId,
    pub ecdsa_key_ids: Option<Vec<EcdsaKeyId>>,
}

/// `i` is the first record of subnet `s`.
pub open spec fn is_first_record(records: Seq<SubnetEcdsaConfig>, s: SubnetId, i: int) -> bool {
    &&& 0 <= i < records.len()
    &&& records[i].subnet_id == s
    &&& forall|j: int| 0 <= j < i ==> (#[trigger] records[j]).subnet_id != s
}

pub open spec fn has_record(records: Seq<SubnetEcdsaConfig>, s: SubnetId) -> bool {
    exists|i: int| 0 <= i < records.len() && (#[trigger] records[i]).subnet_id == s
}

pub open spec fn first_record(records: Seq<SubnetEcdsaConfig>, s: SubnetId) -> SubnetEcdsaConfig {
    records[choose|i: int| is_first_record(records, s, i)]
}

pub open spec fn config_has_key(ids: Seq<EcdsaKeyId>, key: EcdsaKeyId) -> bool {
    exists|k: int| 0 <= k < ids.len() && same_key_id(#[trigger] ids[k], key)
}

/// The error, if any, of the signing subnet list at position `list`: more
/// than one subnet; a key that is not an ECDSA key id; a subnet without
/// record, without ECDSA configuration, or whose configuration lacks the key.
pub open spec fn signing_list_error(
    list: usize,
    l: EcdsaSigningSubnetList,
    records: Seq<SubnetEcdsaConfig>,
) -> Option<InvariantCheckError> {
    if l.subnets@.len() > 1 {
        Some(InvariantCheckError::MoreThanOneSigningSubnet { list })
    } else if l.key_id is None {
        Some(InvariantCheckError::InvalidEcdsaKeyId { list })
    } else if l.subnets@.len() == 0 {
        None
    } else {
        let s = l.subnets@[0];
        if !has_record(records, s) {
            Some(InvariantCheckError::NonExistentSubnet { list, subnet_id: s })
        } else {
            match first_record(records, s).ecdsa_key_ids {
                None => Some(InvariantCheckError::NoEcdsaConfig { list, subnet_id: s }),
                Some(ids) => if config_has_key(ids@, l.key_id.unwrap()) {
                    None
                } else {
                    Some(InvariantCheckError::KeyNotInSubnetConfig { list, subnet_id: s })
                },
            }
        }
    }
}

fn find_record(records: &Vec<SubnetEcdsaConfig>, s: SubnetId) -> (res: Option<usize>)
    ensures
        res is None <==> !has_record(records@, s),
        res matches Some(i) ==> is_first_record(records@, s, i as int),
{
    let mut i: usize = 0;
    while i < records.len()
        invariant
            i <= records@.len(),
            forall|j: int| 0 <= j < i ==> (#[trigger] records@[j]).subnet_id != s,
        decreases records@.len() - i,
    {
        if records[i].subnet_id == s {
            return Some(i);
        }
        i = i + 1;
    }
    None
}

fn key_ids_contain(ids: &Vec<EcdsaKeyId>, key: &EcdsaKeyId) -> (res: bool)
    ensures
        res == config_has_key(ids@, *key),
        res <==> exists|k: int| 0 <= k < ids@.len() && (#[trigger] ids@[k]).curve == key.curve && ids@[k].name@ == key.name@,
{
    let mut k: usize = 0;
    while k < ids.len()
        invariant
            k <= ids@.len(),
            forall|m: int| 0 <= m < k ==> !same_key_id(#[trigger] ids@[m], *key),
        decreases ids@.len() - k,
    {
        if ids[k].curve == key.curve && ids[k].name == key.name {
            assert(same_key_id(ids@[k as int], *key));
            assert(ids@[k as int].curve == key.curve && ids@[k as int].name@ == key.name@);
            return true;
        }
        k = k + 1;
    }
    assert forall|m: int| 0 <= m < ids@.len() implies !((#[trigger] ids@[m]).curve == key.curve && ids@[m].name@ == key.name@) by {
        assert(!same_key_id(ids@[m], *key));
    }
    false
}

/// Checks one signing subnet list.
fn check_signing_list(list: usize, l: &EcdsaSigningSubnetList, records: &Vec<SubnetEcdsaConfig>) -> (res: Option<
    InvariantCheckError,
>)
    ensures
        res == signing_list_error(list, *l, records@),
{
    if l.subnets.len() > 1 {
        return Some(InvariantCheckError::MoreThanOneSigningSubnet { list });
    }
    let key = match &l.key_id {
        Some(k) => k,
        None => return Some(InvariantCheckError::InvalidEcdsaKeyId { list }),
    };
    if l.subnets.len() == 0 {
        return None;
    }
    let s = l.subnets[0];
    let r = match find_record(records, s) {
        Some(r) => r,
        None => return Some(InvariantCheckError::NonExistentSubnet { list, subnet_id: s }),
    };
    proof {
        let c = choose|i: int| is_first_record(records@, s, i);
        if c < r {
            assert(records@[c].subnet_id != s);
        } else if c > r {
            assert(records@[r as int].subnet_id != s);
        }
    }
    match &records[r].ecdsa_key_ids {
        None => Some(InvariantCheckError::NoEcdsaConfig { list, subnet_id: s }),
        Some(ids) => {
            if key_ids_contain(ids, key) {
                None
            } else {
                Some(InvariantCheckError::KeyNotInSubnetConfig { list, subnet_id: s })
            }
        },
    }
}

/// Every ECDSA signing subnet list names at most one subnet, its key is an
/// ECDSA key id, and its subnet exists and holds that key in its ECDSA
/// configuration; otherwise the error of the first list that fails.
pub fn check_ecdsa_signing_subnet_lists(
    lists: &Vec<EcdsaSigningSubnetList>,
    records: &Vec<SubnetEcdsaConfig>,
) -> (res: Result<(), InvariantCheckError>)
    ensures
        res is Ok <==> forall|i: int|
            0 <= i < lists@.len() ==> signing_list_error(i as usize, #[trigger] lists@[i], records@) is None,
        res matches Err(e) ==> exists|i: int|
            0 <= i < lists@.len() && signing_list_error(i as usize, #[trigger] lists@[i], records@) == Some(e)
                && forall|j: int|
                0 <= j < i ==> signing_list_error(j as usize, #[trigger] lists@[j], records@) is None,
{
    let mut i: usize = 0;
    while i < lists.len()
        invariant
            i <= lists@.len(),
            forall|j: int|
                0 <= j < i ==> signing_list_error(j as usize, #[trigger] lists@[j], records@) is None,
        decreases lists@.len() - i,
    {
        match check_signing_list(i, &lists[i], records) {
            Some(e) => return Err(e),
            None => {},
        }
        i = i + 1;
    }
    Ok(())
}

/// The validated public keys of a node, each in its encoded form.
#[derive(Clone, Debug, PartialEq, Eq)]
pub struct ValidNodePublicKeys {
    pub node_id: NodeId,
    pub node_signing_key: Vec<u8>,
    pub committee_signing_key: Vec<u8>,
    pub dkg_dealing_encryption_key: Vec<u8>,
    pub idkg_dealing_encryption_key: Option<Vec<u8>>,
    pub tls_certificate: Vec<u8>,
}

/// The encoded keys already seen, each with the node it belongs to.
pub type SeenKeys = Vec<(Vec<u8>, NodeId)>;

pub open spec fn seen_view(m: SeenKeys) -> Seq<(Seq<u8>, NodeId)> {
    m@.map_values(|p: (Vec<u8>, NodeId)| (p.0@, p.1))
}

/// The node first recorded with key `k` in `m`.
pub open spec fn find_seen(m: Seq<(Seq<u8>, NodeId)>, k: Seq<u8>) -> Option<NodeId>
    decreases m.len(),
{
    if m.len() == 0 {
        None
    } else if m[0].0 == k {
        Some(m[0].1)
    } else {
        find_seen(m.drop_first(), k)
    }
}

/// Records the keys `keys` of `node` one by one; the first key already
/// recorded stops the recording and gives the node that holds it.
pub open spec fn record_keys(
    m: Seq<(Seq<u8>, NodeId)>,
    node: NodeId,
    keys: Seq<Seq<u8>>,
) -> (Seq<(Seq<u8>, NodeId)>, Option<NodeId>)
    decreases keys.len(),
{
    if keys.len() == 0 {
        (m, None)
    } else {
        match find_seen(m, keys[0]) {
            Some(e) => (m, Some(e)),
            None => record_keys(m.push((keys[0], node)), node, keys.drop_first()),
        }
    }
}

/// Each key is recorded once (the recorded keys stand for a map from keys
/// to nodes).
pub open spec fn seen_distinct(m: Seq<(Seq<u8>, NodeId)>) -> bool {
    forall|i: int, j: int| 0 <= i < j < m.len() ==> (#[trigger] m[i]).0 != (#[trigger] m[j]).0
}

proof fn lemma_find_seen_none(m: Seq<(Seq<u8>, NodeId)>, k: Seq<u8>)
    ensures
        find_seen(m, k) is None <==> forall|i: int| 0 <= i < m.len() ==> (#[trigger] m[i]).0 != k,
    decreases m.len(),
{
    if m.len() > 0 {
        lemma_find_seen_none(m.drop_first(), k);
        assert forall|i: int| 1 <= i < m.len() implies #[trigger] m[i] == m.drop_first()[i - 1] by {}
    }
}

proof fn lemma_record_keys_distinct(m: Seq<(Seq<u8>, NodeId)>, node: NodeId, keys: Seq<Seq<u8>>)
    requires
        seen_distinct(m),
    ensures
        seen_distinct(record_keys(m, node, keys).0),
    decreases keys.len(),
{
    if keys.len() > 0 {
        lemma_find_seen_none(m, keys[0]);
        if find_seen(m, keys[0]) is None {
            let m2 = m.push((keys[0], node));
            assert forall|i: int, j: int| 0 <= i < j < m2.len() implies (#[trigger] m2[i]).0 != (#[trigger] m2[j]).0 by {
                if j == m.len() {
                    assert(m[i].0 != keys[0]);
                } else {
                    assert(m2[i] == m[i] && m2[j] == m[j]);
                }
            }
            lemma_record_keys_distinct(m2, node, keys.drop_first());
        }
    }
}

fn bytes_equal(a: &Vec<u8>, b: &Vec<u8>) -> (res: bool)
    ensures
        res == (a@ == b@),
{
    if a.len() != b.len() {
        return false;
    }
    let mut i: usize = 0;
    while i < a.len()
        invariant
            a@.len() == b@.len(),
            i <= a@.len(),
            forall|j: int| 0 <= j < i ==> a@[j] == b@[j],
        decreases a@.len() - i,
    {
        if a[i] != b[i] {
            return false;
        }
        i = i + 1;
    }
    assert(a@ =~= b@);
    true
}

fn find_seen_exec(m: &SeenKeys, k: &Vec<u8>) -> (res: Option<NodeId>)
    ensures
        res == find_seen(seen_view(*m), k@),
{
    let mut i: usize = 0;
    assert(seen_view(*m).skip(0) =~= seen_view(*m));
    while i < m.len()
        invariant
            i <= m@.len(),
            find_seen(seen_view(*m), k@) == find_seen(seen_view(*m).skip(i as int), k@),
        decreases m@.len() - i,
    {
        assert(seen_view(*m).skip(i as int).drop_first() =~= seen_view(*m).skip(i + 1));
        if bytes_equal(&m[i].0, k) {
            return Some(m[i].1);
        }
        i = i + 1;
    }
    assert(seen_view(*m).skip(i as int) =~= seq![]);
    None
}

fn record_keys_exec(seen: &mut SeenKeys, node: NodeId, keys: Vec<Vec<u8>>) -> (res: Option<NodeId>)
    ensures
        ({
            let r = record_keys(seen_view(*old(seen)), node, keys@.map_values(|k: Vec<u8>| k@));
            seen_view(*final(seen)) == r.0 && res == r.1
        }),
{
    let ghost all = keys@.map_values(|k: Vec<u8>| k@);
    let ghost start = seen_view(*seen);
    let mut i: usize = 0;
    assert(all.skip(0) =~= all);
    while i < keys.len()
        invariant
            i <= keys@.len(),
            all == keys@.map_values(|k: Vec<u8>| k@),
            start == seen_view(*old(seen)),
            record_keys(start, node, all) == record_keys(seen_view(*seen), node, all.skip(i as int)),
        decreases keys@.len() - i,
    {
        assert(all.skip(i as int)[0] == keys@[i as int]@);
        assert(all.skip(i as int).drop_first() =~= all.skip(i + 1));
        match find_seen_exec(seen, &keys[i]) {
            Some(existing) => {
                assert(record_keys(seen_view(*seen), node, all.skip(i as int)) == (seen_view(*seen), Some(existing)));
                return Some(existing);
            },
            None => {
                let k = keys[i].clone();
                assert(k@ =~= keys@[i as int]@);
                let ghost prev = seen_view(*seen);
                seen.push((k, node));
                assert(seen_view(*seen) =~= prev.push((keys@[i as int]@, node)));
            },
        }
        i = i + 1;
    }
    assert(all.skip(i as int) =~= seq![]);
    None
}

/// The encoded keys of a node, once validated.
pub struct NodeKeysModel {
    pub node_signing_key: Seq<u8>,
    pub committee_signing_key: Seq<u8>,
    pub dkg_dealing_encryption_key: Seq<u8>,
    pub idkg_dealing_encryption_key: Option<Seq<u8>>,
    pub tls_certificate: Seq<u8>,
}

pub open spec fn valid_model(v: ValidNodePublicKeys) -> NodeKeysModel {
    NodeKeysModel {
        node_signing_key: v.node_signing_key@,
        committee_signing_key: v.committee_signing_key@,
        dkg_dealing_encryption_key: v.dkg_dealing_encryption_key@,
        idkg_dealing_encryption_key: opt_view(v.idkg_dealing_encryption_key),
        tls_certificate: v.tls_certificate@,
    }
}

/// The encoded public keys of a node checked for uniqueness: node signing,
/// committee signing, DKG dealing encryption and, if present, I-DKG dealing
/// encryption key.
pub open spec fn model_key_list(k: NodeKeysModel) -> Seq<Seq<u8>> {
    let base = seq![k.node_signing_key, k.committee_signing_key, k.dkg_dealing_encryption_key];
    match k.idkg_dealing_encryption_key {
        Some(i) => base.push(i),
        None => base,
    }
}

pub open spec fn node_key_list(pks: ValidNodePublicKeys) -> Seq<Seq<u8>> {
    model_key_list(valid_model(pks))
}

/// Records the node's public keys in `seen`, failing on the first that is
/// already recorded (by another node, or earlier by this one); the keys
/// recorded before the failure stay recorded.
pub fn check_node_keys_are_unique(node_pks: &ValidNodePublicKeys, seen: &mut SeenKeys) -> (res: Result<
    (),
    InvariantCheckError,
>)
    ensures
        ({
            let r = record_keys(seen_view(*old(seen)), node_pks.node_id, node_key_list(*node_pks));
            &&& seen_view(*final(seen)) == r.0
            &&& seen_distinct(seen_view(*old(seen))) ==> seen_distinct(seen_view(*final(seen)))
            &&& res == match r.1 {
                None => Ok(()),
                Some(existing) => Err(
                    InvariantCheckError::DuplicatePublicKey { existing, node_id: node_pks.node_id },
                ),
            }
        }),
{
    let mut keys: Vec<Vec<u8>> = Vec::new();
    keys.push(node_pks.node_signing_key.clone());
    keys.push(node_pks.committee_signing_key.clone());
    keys.push(node_pks.dkg_dealing_encryption_key.clone());
    match &node_pks.idkg_dealing_encryption_key {
        Some(k) => keys.push(k.clone()),
        None => {},
    }
    assert(keys@.map_values(|k: Vec<u8>| k@) =~= node_key_list(*node_pks));
    proof {
        if seen_distinct(seen_view(*seen)) {
            lemma_record_keys_distinct(seen_view(*seen), node_pks.node_id, node_key_list(*node_pks));
        }
    }
    match record_keys_exec(seen, node_pks.node_id, keys) {
        None => Ok(()),
        Some(existing) => Err(
            InvariantCheckError::DuplicatePublicKey { existing, node_id: node_pks.node_id },
        ),
    }
}

/// Records the node's TLS certificate in `seen`, failing when it is already
/// recorded; `seen` is unchanged on failure.
pub fn check_tls_certs_are_unique(node_pks: &ValidNodePublicKeys, seen: &mut SeenKeys) -> (res: Result<
    (),
    InvariantCheckError,
>)
    ensures
        match find_seen(seen_view(*old(seen)), node_pks.tls_certificate@) {
            Some(existing) => res == Err::<(), _>(
                InvariantCheckError::DuplicateTlsCertificate { existing, node_id: node_pks.node_id },
            ) && seen_view(*final(seen)) == seen_view(*old(seen)),
            None => res is Ok && seen_view(*final(seen)) == seen_view(*old(seen)).push(
                (node_pks.tls_certificate@, node_pks.node_id),
            ),
        },
        seen_distinct(seen_view(*old(seen))) ==> seen_distinct(seen_view(*final(seen))),
{
    proof {
        lemma_find_seen_none(seen_view(*seen), node_pks.tls_certificate@);
    }
    match find_seen_exec(seen, &node_pks.tls_certificate) {
        Some(existing) => Err(
            InvariantCheckError::DuplicateTlsCertificate { existing, node_id: node_pks.node_id },
        ),
        None => {
            let cert = node_pks.tls_certificate.clone();
            assert(cert@ =~= node_pks.tls_certificate@);
            let ghost prev = seen_view(*seen);
            seen.push((cert, node_pks.node_id));
            assert(seen_view(*seen) =~= prev.push((node_pks.tls_certificate@, node_pks.node_id)));
            Ok(())
        },
    }
}


/// A node public key found in the registry, by node and purpose.
pub type PublicKeyEntry = (NodeId, KeyPurpose, Vec<u8>);

/// A TLS certificate found in the registry, by node.
pub type TlsCertEntry = (NodeId, Vec<u8>);

/// The key of `node` for `purpose` first found in `s`.
pub open spec fn find_pk(s: Seq<PublicKeyEntry>, node: NodeId, purpose: KeyPurpose) -> Option<Seq<u8>>
    decreases s.len(),
{
    if s.len() == 0 {
        None
    } else if s[0].0 == node && s[0].1 == purpose {
        Some(s[0].2@)
    } else {
        find_pk(s.drop_first(), node, purpose)
    }
}

/// The certificate of `node` first found in `s`.
pub open spec fn find_cert(s: Seq<TlsCertEntry>, node: NodeId) -> Option<Seq<u8>>
    decreases s.len(),
{
    if s.len() == 0 {
        None
    } else if s[0].0 == node {
        Some(s[0].1@)
    } else {
        find_cert(s.drop_first(), node)
    }
}

proof fn lemma_find_pk_skip(s: Seq<PublicKeyEntry>, node: NodeId, purpose: KeyPurpose, i: int)
    requires
        0 <= i <= s.len(),
        forall|j: int| 0 <= j < i ==> !((#[trigger] s[j]).0 == node && s[j].1 == purpose),
    ensures
        find_pk(s, node, purpose) == find_pk(s.skip(i), node, purpose),
    decreases i,
{
    if i > 0 {
        assert(s.skip(1) =~= s.drop_first());
        lemma_find_pk_skip(s.drop_first(), node, purpose, i - 1);
        assert(s.drop_first().skip(i - 1) =~= s.skip(i));
    } else {
        assert(s.skip(0) =~= s);
    }
}

proof fn lemma_find_pk_remove_other(s: Seq<PublicKeyEntry>, i: int, node: NodeId, purpose: KeyPurpose)
    requires
        0 <= i < s.len(),
        !(s[i].0 == node && s[i].1 == purpose),
    ensures
        find_pk(s.remove(i), node, purpose) == find_pk(s, node, purpose),
    decreases i,
{
    if i == 0 {
        assert(s.remove(0) =~= s.drop_first());
    } else {
        assert(s.remove(i)[0] == s[0]);
        if !(s[0].0 == node && s[0].1 == purpose) {
            assert(s.remove(i).drop_first() =~= s.drop_first().remove(i - 1));
            lemma_find_pk_remove_other(s.drop_first(), i - 1, node, purpose);
        }
    }
}

/// Removes the first key of `node` for `purpose` from `pks` and returns it.
fn remove_public_key(pks: &mut Vec<PublicKeyEntry>, node: NodeId, purpose: KeyPurpose) -> (res: Option<Vec<u8>>)
    ensures
        res matches Some(v) ==> Some(v@) == find_pk(old(pks)@, node, purpose),
        res is None <==> find_pk(old(pks)@, node, purpose) is None,
        forall|n: NodeId, p: KeyPurpose| !(n == node && p == purpose) ==> #[trigger] find_pk(final(pks)@, n, p) == find_pk(old(pks)@, n, p),
{
    let mut i: usize = 0;
    while i < pks.len()
        invariant
            i <= pks@.len(),
            pks@ == old(pks)@,
            forall|j: int| 0 <= j < i ==> !((#[trigger] pks@[j]).0 == node && pks@[j].1 == purpose),
        decreases pks@.len() - i,
    {
        if pks[i].0 == node && pks[i].1 == purpose {
            proof {
                lemma_find_pk_skip(pks@, node, purpose, i as int);
                assert(pks@.skip(i as int)[0] == pks@[i as int]);
            }
            let ghost before = pks@;
            let entry = pks.remove(i);
            proof {
                assert forall|n: NodeId, p: KeyPurpose| !(n == node && p == purpose) implies #[trigger] find_pk(pks@, n, p) == find_pk(before, n, p) by {
                    lemma_find_pk_remove_other(before, i as int, n, p);
                }
            }
            return Some(entry.2);
        }
        i = i + 1;
    }
    proof {
        lemma_find_pk_skip(pks@, node, purpose, i as int);
        assert(pks@.skip(i as int) =~= seq![]);
    }
    None
}

proof fn lemma_find_cert_remove_other(s: Seq<TlsCertEntry>, i: int, node: NodeId)
    requires
        0 <= i < s.len(),
        s[i].0 != node,
    ensures
        find_cert(s.remove(i), node) == find_cert(s, node),
    decreases i,
{
    if i == 0 {
        assert(s.remove(0) =~= s.drop_first());
    } else {
        assert(s.remove(i)[0] == s[0]);
        if s[0].0 != node {
            assert(s.remove(i).drop_first() =~= s.drop_first().remove(i - 1));
            lemma_find_cert_remove_other(s.drop_first(), i - 1, node);
        }
    }
}

/// Removes the first certificate of `node` from `certs` and returns it.
fn remove_tls_cert(certs: &mut Vec<TlsCertEntry>, node: NodeId) -> (res: Option<Vec<u8>>)
    ensures
        res matches Some(v) ==> Some(v@) == find_cert(old(certs)@, node),
        res is None <==> find_cert(old(certs)@, node) is None,
        forall|n: NodeId| n != node ==> #[trigger] find_cert(final(certs)@, n) == find_cert(old(certs)@, n),
{
    let mut i: usize = 0;
    assert(certs@.skip(0) =~= certs@);
    while i < certs.len()
        invariant
            i <= certs@.len(),
            certs@ == old(certs)@,
            find_cert(certs@, node) == find_cert(certs@.skip(i as int), node),
        decreases certs@.len() - i,
    {
        assert(certs@.skip(i as int).drop_first() =~= certs@.skip(i + 1));
        if certs[i].0 == node {
            let ghost before = certs@;
            let entry = certs.remove(i);
            proof {
                assert forall|n: NodeId| n != node implies #[trigger] find_cert(certs@, n) == find_cert(before, n) by {
                    lemma_find_cert_remove_other(before, i as int, n);
                }
            }
            return Some(entry.1);
        }
        i = i + 1;
    }
    assert(certs@.skip(i as int) =~= seq![]);
    None
}

/// The public keys of a node as stored, before validation.
#[derive(Clone, Debug, PartialEq, Eq)]
pub struct NodePublicKeys {
    /// 1 when the node has an I-DKG dealing encryption key, 0 otherwise.
    pub version: u32,
    pub node_signing_pk: Option<Vec<u8>>,
    pub committee_signing_pk: Option<Vec<u8>>,
    pub dkg_dealing_encryption_pk: Option<Vec<u8>>,
    pub idkg_dealing_encryption_pk: Option<Vec<u8>>,
    pub tls_certificate: Option<Vec<u8>>,
}

pub open spec fn opt_view(o: Option<Vec<u8>>) -> Option<Seq<u8>> {
    match o {
        Some(v) => Some(v@),
        None => None,
    }
}

/// Takes the keys and the certificate of `node` out of the collections of
/// all keys and certificates, to be validated; the version is 1 exactly
/// when the node has an I-DKG dealing encryption key.
pub fn take_node_public_keys(
    node: NodeId,
    pks: &mut Vec<PublicKeyEntry>,
    certs: &mut Vec<TlsCertEntry>,
) -> (res: NodePublicKeys)
    ensures
        opt_view(res.node_signing_pk) == find_pk(old(pks)@, node, KeyPurpose::NodeSigning),
        opt_view(res.committee_signing_pk) == find_pk(old(pks)@, node, KeyPurpose::CommitteeSigning),
        opt_view(res.dkg_dealing_encryption_pk) == find_pk(old(pks)@, node, KeyPurpose::DkgDealingEncryption),
        opt_view(res.idkg_dealing_encryption_pk) == find_pk(old(pks)@, node, KeyPurpose::IDkgMEGaEncryption),
        opt_view(res.tls_certificate) == find_cert(old(certs)@, node),
        res.version == (if res.idkg_dealing_encryption_pk is Some { 1u32 } else { 0u32 }),
        forall|n: NodeId, p: KeyPurpose| n != node ==> #[trigger] find_pk(final(pks)@, n, p) == find_pk(old(pks)@, n, p),
        forall|n: NodeId| n != node ==> #[trigger] find_cert(final(certs)@, n) == find_cert(old(certs)@, n),
{
    let idkg = remove_public_key(pks, node, KeyPurpose::IDkgMEGaEncryption);
    let version: u32 = match &idkg {
        Some(_) => 1,
        None => 0,
    };
    let node_signing = remove_public_key(pks, node, KeyPurpose::NodeSigning);
    let committee = remove_public_key(pks, node, KeyPurpose::CommitteeSigning);
    let dkg = remove_public_key(pks, node, KeyPurpose::DkgDealingEncryption);
    let tls = remove_tls_cert(certs, node);
    NodePublicKeys {
        version,
        node_signing_pk: node_signing,
        committee_signing_pk: committee,
        dkg_dealing_encryption_pk: dkg,
        tls_certificate: tls,
        idkg_dealing_encryption_pk: idkg,
    }
}


/// The node public keys of a snapshot, in snapshot order: node, purpose and
/// encoded key of each crypto key record.
pub open spec fn public_key_entries(s: Seq<RegistryRecord>) -> Seq<(NodeId, KeyPurpose, Seq<u8>)>
    decreases s.len(),
{
    if s.len() == 0 {
        seq![]
    } else {
        let rest = public_key_entries(s.drop_last());
        match s.last().key {
            RecordKey::CryptoNodeKey { node_id, purpose } => rest.push((node_id, purpose, s.last().value@)),
            _ => rest,
        }
    }
}

/// The TLS certificates of a snapshot, in snapshot order.
pub open spec fn tls_cert_entries(s: Seq<RegistryRecord>) -> Seq<(NodeId, Seq<u8>)>
    decreases s.len(),
{
    if s.len() == 0 {
        seq![]
    } else {
        let rest = tls_cert_entries(s.drop_last());
        match s.last().key {
            RecordKey::CryptoTlsCert { node_id } => rest.push((node_id, s.last().value@)),
            _ => rest,
        }
    }
}

/// All node public keys of the snapshot.
pub fn get_all_nodes_public_keys(snapshot: &Vec<RegistryRecord>) -> (res: Vec<PublicKeyEntry>)
    ensures
        pk_view(res@) == public_key_entries(snapshot@),
{
    let mut res: Vec<PublicKeyEntry> = Vec::new();
    let mut i: usize = 0;
    while i < snapshot.len()
        invariant
            i <= snapshot@.len(),
            pk_view(res@) == public_key_entries(snapshot@.take(i as int)),
        decreases snapshot@.len() - i,
    {
        assert(snapshot@.take(i + 1).drop_last() =~= snapshot@.take(i as int));
        match snapshot[i].key {
            RecordKey::CryptoNodeKey { node_id, purpose } => {
                let v = snapshot[i].value.clone();
                assert(v@ =~= snapshot@[i as int].value@);
                let ghost prev = res@;
                res.push((node_id, purpose, v));
                assert(pk_view(res@) =~= pk_view(prev).push((node_id, purpose, v@)));
            },
            _ => {},
        }
        i = i + 1;
    }
    assert(snapshot@.take(i as int) =~= snapshot@);
    res
}

/// All TLS certificates of the snapshot.
pub fn get_all_tls_certs(snapshot: &Vec<RegistryRecord>) -> (res: Vec<TlsCertEntry>)
    ensures
        cert_view(res@) == tls_cert_entries(snapshot@),
{
    let mut res: Vec<TlsCertEntry> = Vec::new();
    let mut i: usize = 0;
    while i < snapshot.len()
        invariant
            i <= snapshot@.len(),
            cert_view(res@) == tls_cert_entries(snapshot@.take(i as int)),
        decreases snapshot@.len() - i,
    {
        assert(snapshot@.take(i + 1).drop_last() =~= snapshot@.take(i as int));
        match snapshot[i].key {
            RecordKey::CryptoTlsCert { node_id } => {
                let v = snapshot[i].value.clone();
                assert(v@ =~= snapshot@[i as int].value@);
                let ghost prev = res@;
                res.push((node_id, v));
                assert(cert_view(res@) =~= cert_view(prev).push((node_id, v@)));
            },
            _ => {},
        }
        i = i + 1;
    }
    assert(snapshot@.take(i as int) =~= snapshot@);
    res
}


pub open spec fn pk_view(s: Seq<PublicKeyEntry>) -> Seq<(NodeId, KeyPurpose, Seq<u8>)> {
    s.map_values(|e: PublicKeyEntry| (e.0, e.1, e.2@))
}

pub open spec fn cert_view(s: Seq<TlsCertEntry>) -> Seq<(NodeId, Seq<u8>)> {
    s.map_values(|e: TlsCertEntry| (e.0, e.1@))
}

/// The key of `node` for `purpose` first found in `s`.
pub open spec fn find_key(s: Seq<(NodeId, KeyPurpose, Seq<u8>)>, node: NodeId, purpose: KeyPurpose) -> Option<Seq<u8>>
    decreases s.len(),
{
    if s.len() == 0 {
        None
    } else if s[0].0 == node && s[0].1 == purpose {
        Some(s[0].2)
    } else {
        find_key(s.drop_first(), node, purpose)
    }
}

/// The certificate of `node` first found in `s`.
pub open spec fn find_node_cert(s: Seq<(NodeId, Seq<u8>)>, node: NodeId) -> Option<Seq<u8>>
    decreases s.len(),
{
    if s.len() == 0 {
        None
    } else if s[0].0 == node {
        Some(s[0].1)
    } else {
        find_node_cert(s.drop_first(), node)
    }
}

proof fn lemma_find_pk_view(s: Seq<PublicKeyEntry>, node: NodeId, purpose: KeyPurpose)
    ensures
        find_pk(s, node, purpose) == find_key(pk_view(s), node, purpose),
    decreases s.len(),
{
    if s.len() > 0 {
        assert(pk_view(s).drop_first() =~= pk_view(s.drop_first()));
        lemma_find_pk_view(s.drop_first(), node, purpose);
    }
}

proof fn lemma_find_cert_view(s: Seq<TlsCertEntry>, node: NodeId)
    ensures
        find_cert(s, node) == find_node_cert(cert_view(s), node),
    decreases s.len(),
{
    if s.len() > 0 {
        assert(cert_view(s).drop_first() =~= cert_view(s.drop_first()));
        lemma_find_cert_view(s.drop_first(), node);
    }
}

/// The validation of the keys of `node`: each of its node signing, committee
/// signing and DKG dealing encryption keys and its TLS certificate must be
/// there, in that order; then the crypto key validation must not have
/// refused them (`invalid` lists the nodes it refused). The I-DKG dealing
/// encryption key is optional.
pub open spec fn node_keys_model(
    node: NodeId,
    pks: Seq<(NodeId, KeyPurpose, Seq<u8>)>,
    certs: Seq<(NodeId, Seq<u8>)>,
    invalid: Seq<NodeId>,
) -> Result<NodeKeysModel, InvariantCheckError> {
    match find_key(pks, node, KeyPurpose::NodeSigning) {
        None => Err(InvariantCheckError::MissingPublicKey { node_id: node, purpose: KeyPurpose::NodeSigning }),
        Some(ns) => match find_key(pks, node, KeyPurpose::CommitteeSigning) {
            None => Err(InvariantCheckError::MissingPublicKey { node_id: node, purpose: KeyPurpose::CommitteeSigning }),
            Some(cs) => match find_key(pks, node, KeyPurpose::DkgDealingEncryption) {
                None => Err(
                    InvariantCheckError::MissingPublicKey { node_id: node, purpose: KeyPurpose::DkgDealingEncryption },
                ),
                Some(dkg) => match find_node_cert(certs, node) {
                    None => Err(InvariantCheckError::MissingTlsCertificate { node_id: node }),
                    Some(tls) => if invalid.contains(node) {
                        Err(InvariantCheckError::InvalidNodeKeys { node_id: node })
                    } else {
                        Ok(NodeKeysModel {
                            node_signing_key: ns,
                            committee_signing_key: cs,
                            dkg_dealing_encryption_key: dkg,
                            idkg_dealing_encryption_key: find_key(pks, node, KeyPurpose::IDkgMEGaEncryption),
                            tls_certificate: tls,
                        })
                    },
                },
            },
        },
    }
}

/// Takes the keys of `node` out of `pks` and `certs` and validates them:
/// the error of [`node_keys_model`], or the node's valid keys. The keys of
/// other nodes stay.
pub fn check_node_keys(
    node: NodeId,
    pks: &mut Vec<PublicKeyEntry>,
    certs: &mut Vec<TlsCertEntry>,
    invalid: &Vec<NodeId>,
) -> (res: Result<ValidNodePublicKeys, InvariantCheckError>)
    ensures
        match node_keys_model(node, pk_view(old(pks)@), cert_view(old(certs)@), invalid@) {
            Err(e) => res == Err::<ValidNodePublicKeys, _>(e),
            Ok(k) => res matches Ok(v) && v.node_id == node && valid_model(v) == k,
        },
        forall|n: NodeId, p: KeyPurpose| n != node ==> #[trigger] find_pk(final(pks)@, n, p) == find_pk(old(pks)@, n, p),
        forall|n: NodeId| n != node ==> #[trigger] find_cert(final(certs)@, n) == find_cert(old(certs)@, n),
{
    proof {
        lemma_find_pk_view(old(pks)@, node, KeyPurpose::NodeSigning);
        lemma_find_pk_view(old(pks)@, node, KeyPurpose::CommitteeSigning);
        lemma_find_pk_view(old(pks)@, node, KeyPurpose::DkgDealingEncryption);
        lemma_find_pk_view(old(pks)@, node, KeyPurpose::IDkgMEGaEncryption);
        lemma_find_cert_view(old(certs)@, node);
    }
    let npk = take_node_public_keys(node, pks, certs);
    let node_signing_key = match npk.node_signing_pk {
        Some(k) => k,
        None => return Err(InvariantCheckError::MissingPublicKey { node_id: node, purpose: KeyPurpose::NodeSigning }),
    };
    let committee_signing_key = match npk.committee_signing_pk {
        Some(k) => k,
        None => return Err(
            InvariantCheckError::MissingPublicKey { node_id: node, purpose: KeyPurpose::CommitteeSigning },
        ),
    };
    let dkg_dealing_encryption_key = match npk.dkg_dealing_encryption_pk {
        Some(k) => k,
        None => return Err(
            InvariantCheckError::MissingPublicKey { node_id: node, purpose: KeyPurpose::DkgDealingEncryption },
        ),
    };
    let tls_certificate = match npk.tls_certificate {
        Some(c) => c,
        None => return Err(InvariantCheckError::MissingTlsCertificate { node_id: node }),
    };
    if contains_u64(invalid, node) {
        return Err(InvariantCheckError::InvalidNodeKeys { node_id: node });
    }
    Ok(ValidNodePublicKeys {
        node_id: node,
        node_signing_key,
        committee_signing_key,
        dkg_dealing_encryption_key,
        idkg_dealing_encryption_key: npk.idkg_dealing_encryption_pk,
        tls_certificate,
    })
}

/// The nodes of the snapshot's node records, in snapshot order.
pub open spec fn node_record_ids(s: Seq<RegistryRecord>) -> Seq<NodeId>
    decreases s.len(),
{
    if s.len() == 0 {
        seq![]
    } else {
        let rest = node_record_ids(s.drop_last());
        match s.last().key {
            RecordKey::NodeRecord { node_id } => rest.push(node_id),
            _ => rest,
        }
    }
}

/// `q` strictly increases.
pub open spec fn strictly_ascending(q: Seq<NodeId>) -> bool {
    forall|i: int, j: int| 0 <= i < j < q.len() ==> q[i] < q[j]
}

/// `a` and `b` hold the same nodes.
pub open spec fn same_nodes(a: Seq<NodeId>, b: Seq<NodeId>) -> bool {
    forall|x: NodeId| a.contains(x) <==> b.contains(x)
}

/// The nodes of the snapshot's node records, each once, by ascending id
/// (the order of the registry's map of node records).
pub open spec fn node_ids_in_order(s: Seq<RegistryRecord>) -> Seq<NodeId> {
    choose|q: Seq<NodeId>| strictly_ascending(q) && same_nodes(q, node_record_ids(s))
}

proof fn lemma_sorted_unique(a: Seq<NodeId>, b: Seq<NodeId>)
    requires
        strictly_ascending(a),
        strictly_ascending(b),
        same_nodes(a, b),
    ensures
        a == b,
    decreases a.len(),
{
    if a.len() == 0 {
        if b.len() > 0 {
            assert(b.contains(b[0]));
            assert(a.contains(b[0]));
        }
        assert(a =~= b);
    } else {
        assert(a.contains(a[0]));
        assert(b.contains(a[0]));
        assert(b.len() > 0);
        assert(b.contains(b[0]));
        assert(a.contains(b[0]));
        let ka = choose|k: int| 0 <= k < a.len() && a[k] == b[0];
        let kb = choose|k: int| 0 <= k < b.len() && b[k] == a[0];
        if ka > 0 {
            assert(a[0] < a[ka]);
        }
        if kb > 0 {
            assert(b[0] < b[kb]);
        }
        assert(a[0] == b[0]);
        let a1 = a.drop_first();
        let b1 = b.drop_first();
        assert forall|x: NodeId| a1.contains(x) <==> b1.contains(x) by {
            if a1.contains(x) {
                let k = choose|k: int| 0 <= k < a1.len() && a1[k] == x;
                assert(a[k + 1] == x);
                assert(a[0] < a[k + 1]);
                assert(a.contains(x));
                assert(b.contains(x));
                let m = choose|m: int| 0 <= m < b.len() && b[m] == x;
                assert(m != 0);
                assert(b1[m - 1] == x);
            }
            if b1.contains(x) {
                let k = choose|k: int| 0 <= k < b1.len() && b1[k] == x;
                assert(b[k + 1] == x);
                assert(b[0] < b[k + 1]);
                assert(b.contains(x));
                assert(a.contains(x));
                let m = choose|m: int| 0 <= m < a.len() && a[m] == x;
                assert(m != 0);
                assert(a1[m - 1] == x);
            }
        }
        lemma_sorted_unique(a1, b1);
        assert forall|k: int| 0 <= k < a.len() implies a[k] == b[k] by {
            if k > 0 {
                assert(a[k] == a1[k - 1]);
                assert(b[k] == b1[k - 1]);
            }
        }
        assert(a =~= b);
    }
}

/// The nodes of `v`, each once, by ascending id.
fn sorted_node_ids(v: &Vec<NodeId>) -> (res: Vec<NodeId>)
    ensures
        strictly_ascending(res@),
        same_nodes(res@, v@),
{
    let mut res: Vec<NodeId> = Vec::new();
    let mut i: usize = 0;
    while i < v.len()
        invariant
            i <= v@.len(),
            strictly_ascending(res@),
            forall|x: NodeId| res@.contains(x) <==> v@.take(i as int).contains(x),
        decreases v@.len() - i,
    {
        let x = v[i];
        let mut p: usize = 0;
        while p < res.len() && res[p] < x
            invariant
                p <= res@.len(),
                forall|k: int| 0 <= k < p ==> res@[k] < x,
            decreases res@.len() - p,
        {
            p = p + 1;
        }
        let ghost old_res = res@;
        let ghost t0 = v@.take(i as int);
        let ghost t1 = v@.take(i + 1);
        assert forall|y: NodeId| old_res.contains(y) <==> t0.contains(y) by {
            assert(res@.contains(y) <==> v@.take(i as int).contains(y));
        }
        assert forall|y: NodeId| t1.contains(y) <==> (t0.contains(y) || y == x) by {
            assert(t1[i as int] == x);
            if t0.contains(y) {
                let k = choose|k: int| 0 <= k < t0.len() && t0[k] == y;
                assert(t1[k] == y);
            }
            if t1.contains(y) && y != x {
                let k = choose|k: int| 0 <= k < t1.len() && t1[k] == y;
                assert(k != i);
                assert(t0[k] == y);
            }
        }
        if p < res.len() && res[p] == x {
            assert(res@[p as int] == x);
            assert(res@.contains(x));
            assert forall|y: NodeId| res@.contains(y) <==> (old_res.contains(y) || y == x) by {}
        } else {
            res.insert(p, x);
            assert(res@ =~= old_res.insert(p as int, x));
            assert forall|a: int, b: int| 0 <= a < b < res@.len() implies res@[a] < res@[b] by {
                if p < old_res.len() {
                    assert(x < old_res[p as int]);
                }
                if b < p {
                } else if a < p && b == p {
                } else if a < p {
                    assert(old_res[a] < old_res[b - 1]);
                } else if a == p {
                    if b - 1 > p {
                        assert(old_res[p as int] < old_res[b - 1]);
                    }
                } else {
                    assert(old_res[a - 1] < old_res[b - 1]);
                }
            }
            assert forall|y: NodeId| res@.contains(y) <==> (old_res.contains(y) || y == x) by {
                if res@.contains(y) {
                    let k = choose|k: int| 0 <= k < res@.len() && res@[k] == y;
                    if k < p {
                        assert(old_res[k] == y);
                    } else if k > p {
                        assert(old_res[k - 1] == y);
                    }
                }
                if old_res.contains(y) {
                    let k = choose|k: int| 0 <= k < old_res.len() && old_res[k] == y;
                    if k < p {
                        assert(res@[k] == y);
                    } else {
                        assert(res@[k + 1] == y);
                    }
                }
                if y == x {
                    assert(res@[p as int] == x);
                }
            }
        }
        assert forall|y: NodeId| res@.contains(y) <==> t1.contains(y) by {
            assert(res@.contains(y) <==> (old_res.contains(y) || y == x));
            assert(old_res.contains(y) <==> t0.contains(y));
            assert(t1.contains(y) <==> (t0.contains(y) || y == x));
        }
        i = i + 1;
    }
    assert(v@.take(i as int) =~= v@);
    res
}

/// The nodes of the snapshot's node records, in snapshot order.
fn get_node_record_ids(snapshot: &Vec<RegistryRecord>) -> (res: Vec<NodeId>)
    ensures
        res@ == node_record_ids(snapshot@),
{
    let mut res: Vec<NodeId> = Vec::new();
    let mut i: usize = 0;
    while i < snapshot.len()
        invariant
            i <= snapshot@.len(),
            res@ == node_record_ids(snapshot@.take(i as int)),
        decreases snapshot@.len() - i,
    {
        assert(snapshot@.take(i + 1).drop_last() =~= snapshot@.take(i as int));
        match snapshot[i].key {
            RecordKey::NodeRecord { node_id } => {
                res.push(node_id);
            },
            _ => {},
        }
        i = i + 1;
    }
    assert(snapshot@.take(i as int) =~= snapshot@);
    res
}

/// The per-node key checks over `nodes`, in order: each node's keys are
/// validated, then checked to be unique among the keys seen so far (`seen`),
/// then its TLS certificate among the certificates seen so far
/// (`seen_certs`); the first failure is the outcome.
pub open spec fn keys_check(
    nodes: Seq<NodeId>,
    pks: Seq<(NodeId, KeyPurpose, Seq<u8>)>,
    certs: Seq<(NodeId, Seq<u8>)>,
    invalid: Seq<NodeId>,
    seen: Seq<(Seq<u8>, NodeId)>,
    seen_certs: Seq<(Seq<u8>, NodeId)>,
) -> Option<InvariantCheckError>
    decreases nodes.len(),
{
    if nodes.len() == 0 {
        None
    } else {
        let n = nodes[0];
        match node_keys_model(n, pks, certs, invalid) {
            Err(e) => Some(e),
            Ok(k) => {
                let r = record_keys(seen, n, model_key_list(k));
                match r.1 {
                    Some(existing) => Some(InvariantCheckError::DuplicatePublicKey { existing, node_id: n }),
                    None => match find_seen(seen_certs, k.tls_certificate) {
                        Some(existing) => Some(InvariantCheckError::DuplicateTlsCertificate { existing, node_id: n }),
                        None => keys_check(
                            nodes.drop_first(),
                            pks,
                            certs,
                            invalid,
                            r.0,
                            seen_certs.push((k.tls_certificate, n)),
                        ),
                    },
                }
            },
        }
    }
}

/// The outcome of the per-node key checks of a snapshot: over the nodes of
/// its node records by ascending id, with all its keys and certificates.
pub open spec fn node_keys_outcome(s: Seq<RegistryRecord>, invalid: Seq<NodeId>) -> Option<InvariantCheckError> {
    keys_check(node_ids_in_order(s), public_key_entries(s), tls_cert_entries(s), invalid, seq![], seq![])
}

/// The node crypto key invariants, in order: every node with a node record,
/// by ascending node id,
/// has its keys and TLS certificate, the crypto key validation accepts them
/// (`invalid` lists the nodes whose keys it refused), and no public key or
/// certificate is used twice; then no crypto or TLS record lacks a node
/// record; then the ECDSA signing subnet lists. The first failure is the
/// error.
pub fn check_node_crypto_keys_invariants(
    snapshot: &Vec<RegistryRecord>,
    invalid: &Vec<NodeId>,
    lists: &Vec<EcdsaSigningSubnetList>,
    records: &Vec<SubnetEcdsaConfig>,
) -> (res: Result<(), InvariantCheckError>)
    ensures
        res is Ok ==> forall|n: NodeId|
            #[trigger] has_node_record(snapshot@, n) ==> has_key_record(snapshot@, n, KeyPurpose::NodeSigning)
                && has_key_record(snapshot@, n, KeyPurpose::CommitteeSigning)
                && has_key_record(snapshot@, n, KeyPurpose::DkgDealingEncryption)
                && has_tls_record(snapshot@, n) && !invalid@.contains(n),
        node_keys_outcome(snapshot@, invalid@) matches Some(e) ==> res == Err::<(), _>(e),
        node_keys_outcome(snapshot@, invalid@) is None ==> {
            &&& res is Ok <==> (forall|n: NodeId| !is_orphaned(snapshot@, n)) && forall|i: int|
                0 <= i < lists@.len() ==> signing_list_error(i as usize, #[trigger] lists@[i], records@) is None
            &&& (exists|n: NodeId| is_orphaned(snapshot@, n)) ==> (res matches Err(
                InvariantCheckError::OrphanedCryptoRecords { node_ids },
            ) && node_ids@.no_duplicates() && forall|n: NodeId| node_ids@.contains(n) <==> is_orphaned(snapshot@, n))
            &&& (forall|n: NodeId| !is_orphaned(snapshot@, n)) ==> (res matches Err(e) ==> exists|i: int|
                0 <= i < lists@.len() && signing_list_error(i as usize, #[trigger] lists@[i], records@) == Some(e)
                    && forall|j: int|
                    0 <= j < i ==> signing_list_error(j as usize, #[trigger] lists@[j], records@) is None)
        },
{
    let nodes = sorted_node_ids(&get_node_record_ids(snapshot));
    proof {
        let q = node_ids_in_order(snapshot@);
        assert(strictly_ascending(nodes@) && same_nodes(nodes@, node_record_ids(snapshot@)));
        lemma_sorted_unique(nodes@, q);
        assert forall|a: int, b: int| 0 <= a < nodes@.len() && 0 <= b < nodes@.len() && a != b implies nodes@[a] != nodes@[b] by {
            if a < b {
                assert(nodes@[a] < nodes@[b]);
            } else {
                assert(nodes@[b] < nodes@[a]);
            }
        }
    }
    let mut pks = get_all_nodes_public_keys(snapshot);
    let mut certs = get_all_tls_certs(snapshot);
    let ghost all_pks = public_key_entries(snapshot@);
    let ghost all_certs = tls_cert_entries(snapshot@);
    let mut seen: SeenKeys = Vec::new();
    let mut seen_certs: SeenKeys = Vec::new();
    let mut i: usize = 0;
    assert(nodes@.skip(0) =~= nodes@);
    assert(seen_view(seen) =~= seq![]);
    assert(seen_view(seen_certs) =~= seq![]);
    while i < nodes.len()
        invariant
            i <= nodes@.len(),
            nodes@ == node_ids_in_order(snapshot@),
            nodes@.no_duplicates(),
            all_pks == public_key_entries(snapshot@),
            all_certs == tls_cert_entries(snapshot@),
            node_keys_outcome(snapshot@, invalid@) == keys_check(
                nodes@.skip(i as int),
                all_pks,
                all_certs,
                invalid@,
                seen_view(seen),
                seen_view(seen_certs),
            ),
            forall|j: int, p: KeyPurpose| i <= j < nodes@.len() ==> #[trigger] find_key(pk_view(pks@), nodes@[j], p) == find_key(all_pks, nodes@[j], p),
            forall|j: int| i <= j < nodes@.len() ==> find_node_cert(cert_view(certs@), #[trigger] nodes@[j]) == find_node_cert(all_certs, nodes@[j]),
        decreases nodes@.len() - i,
    {
        let n = nodes[i];
        let ghost pks0 = pks@;
        let ghost certs0 = certs@;
        let ghost rest = nodes@.skip(i as int);
        assert(rest[0] == n);
        assert(rest.drop_first() =~= nodes@.skip(i + 1));
        assert(find_key(pk_view(pks0), n, KeyPurpose::NodeSigning) == find_key(all_pks, n, KeyPurpose::NodeSigning));
        assert(find_key(pk_view(pks0), n, KeyPurpose::CommitteeSigning) == find_key(all_pks, n, KeyPurpose::CommitteeSigning));
        assert(find_key(pk_view(pks0), n, KeyPurpose::DkgDealingEncryption) == find_key(all_pks, n, KeyPurpose::DkgDealingEncryption));
        assert(find_key(pk_view(pks0), n, KeyPurpose::IDkgMEGaEncryption) == find_key(all_pks, n, KeyPurpose::IDkgMEGaEncryption));
        assert(find_node_cert(cert_view(certs0), n) == find_node_cert(all_certs, n));
        assert(node_keys_model(n, pk_view(pks0), cert_view(certs0), invalid@) == node_keys_model(n, all_pks, all_certs, invalid@));
        let valid = match check_node_keys(n, &mut pks, &mut certs, invalid) {
            Ok(v) => v,
            Err(e) => return Err(e),
        };
        match check_node_keys_are_unique(&valid, &mut seen) {
            Ok(()) => {},
            Err(e) => return Err(e),
        }
        match check_tls_certs_are_unique(&valid, &mut seen_certs) {
            Ok(()) => {},
            Err(e) => return Err(e),
        }
        proof {
            assert forall|j: int, p: KeyPurpose| i + 1 <= j < nodes@.len() implies #[trigger] find_key(pk_view(pks@), nodes@[j], p) == find_key(all_pks, nodes@[j], p) by {
                assert(nodes@[j] != n);
                lemma_find_pk_view(pks@, nodes@[j], p);
                lemma_find_pk_view(pks0, nodes@[j], p);
            }
            assert forall|j: int| i + 1 <= j < nodes@.len() implies find_node_cert(cert_view(certs@), #[trigger] nodes@[j]) == find_node_cert(all_certs, nodes@[j]) by {
                assert(nodes@[j] != n);
                lemma_find_cert_view(certs@, nodes@[j]);
                lemma_find_cert_view(certs0, nodes@[j]);
            }
        }
        i = i + 1;
    }
    assert(nodes@.skip(i as int) =~= seq![]);
    proof {
        assert forall|n: NodeId| #[trigger] has_node_record(snapshot@, n) implies has_key_record(snapshot@, n, KeyPurpose::NodeSigning)
            && has_key_record(snapshot@, n, KeyPurpose::CommitteeSigning)
            && has_key_record(snapshot@, n, KeyPurpose::DkgDealingEncryption)
            && has_tls_record(snapshot@, n) && !invalid@.contains(n) by {
            lemma_checked_nodes_have_their_keys(snapshot@, invalid@, n);
        }
    }
    match check_no_orphaned_node_crypto_records(snapshot) {
        Ok(()) => {},
        Err(e) => return Err(e),
    }
    check_ecdsa_signing_subnet_lists(lists, records)
}


/// The snapshot holds a crypto key record of `node` for `purpose`.
pub open spec fn has_key_record(s: Seq<RegistryRecord>, node: NodeId, purpose: KeyPurpose) -> bool {
    exists|i: int| 0 <= i < s.len() && (#[trigger] s[i]).key == (RecordKey::CryptoNodeKey { node_id: node, purpose })
}

/// The snapshot holds a TLS certificate record of `node`.
pub open spec fn has_tls_record(s: Seq<RegistryRecord>, node: NodeId) -> bool {
    exists|i: int| 0 <= i < s.len() && (#[trigger] s[i]).key == (RecordKey::CryptoTlsCert { node_id: node })
}

/// The snapshot holds a crypto key record of `node` for `purpose` with
/// encoded key `v`.
pub open spec fn key_record_with(s: Seq<RegistryRecord>, node: NodeId, purpose: KeyPurpose, v: Seq<u8>) -> bool {
    exists|i: int| 0 <= i < s.len() && (#[trigger] s[i]).key == (RecordKey::CryptoNodeKey { node_id: node, purpose })
        && s[i].value@ == v
}

/// The snapshot holds a TLS certificate record of `node` with encoded
/// certificate `v`.
pub open spec fn tls_record_with(s: Seq<RegistryRecord>, node: NodeId, v: Seq<u8>) -> bool {
    exists|i: int| 0 <= i < s.len() && (#[trigger] s[i]).key == (RecordKey::CryptoTlsCert { node_id: node }) && s[i].value@ == v
}

proof fn lemma_find_key_found(q: Seq<(NodeId, KeyPurpose, Seq<u8>)>, n: NodeId, p: KeyPurpose)
    requires
        find_key(q, n, p) is Some,
    ensures
        exists|i: int| 0 <= i < q.len() && (#[trigger] q[i]).0 == n && q[i].1 == p && Some(q[i].2) == find_key(q, n, p),
    decreases q.len(),
{
    if !(q[0].0 == n && q[0].1 == p) {
        lemma_find_key_found(q.drop_first(), n, p);
        let i = choose|i: int| 0 <= i < q.drop_first().len() && (#[trigger] q.drop_first()[i]).0 == n && q.drop_first()[i].1 == p
            && Some(q.drop_first()[i].2) == find_key(q.drop_first(), n, p);
        assert(q[i + 1] == q.drop_first()[i]);
    } else {
        assert(q[0].0 == n);
    }
}

proof fn lemma_find_key_present(q: Seq<(NodeId, KeyPurpose, Seq<u8>)>, n: NodeId, p: KeyPurpose, i: int)
    requires
        0 <= i < q.len(),
        q[i].0 == n && q[i].1 == p,
    ensures
        find_key(q, n, p) is Some,
    decreases i,
{
    if i > 0 && !(q[0].0 == n && q[0].1 == p) {
        assert(q.drop_first()[i - 1] == q[i]);
        lemma_find_key_present(q.drop_first(), n, p, i - 1);
    }
}

proof fn lemma_find_cert_present(q: Seq<(NodeId, Seq<u8>)>, n: NodeId, i: int)
    requires
        0 <= i < q.len(),
        q[i].0 == n,
    ensures
        find_node_cert(q, n) is Some,
    decreases i,
{
    if i > 0 && q[0].0 != n {
        assert(q.drop_first()[i - 1] == q[i]);
        lemma_find_cert_present(q.drop_first(), n, i - 1);
    }
}

proof fn lemma_find_cert_found(q: Seq<(NodeId, Seq<u8>)>, n: NodeId)
    requires
        find_node_cert(q, n) is Some,
    ensures
        exists|i: int| 0 <= i < q.len() && (#[trigger] q[i]).0 == n && Some(q[i].1) == find_node_cert(q, n),
    decreases q.len(),
{
    if q[0].0 != n {
        lemma_find_cert_found(q.drop_first(), n);
        let i = choose|i: int| 0 <= i < q.drop_first().len() && (#[trigger] q.drop_first()[i]).0 == n
            && Some(q.drop_first()[i].1) == find_node_cert(q.drop_first(), n);
        assert(q[i + 1] == q.drop_first()[i]);
    } else {
        assert(q[0].0 == n);
    }
}

proof fn lemma_key_entry_in_snapshot(s: Seq<RegistryRecord>, i: int)
    requires
        0 <= i < public_key_entries(s).len(),
    ensures
        key_record_with(s, public_key_entries(s)[i].0, public_key_entries(s)[i].1, public_key_entries(s)[i].2),
    decreases s.len(),
{
    let rest = public_key_entries(s.drop_last());
    let e = public_key_entries(s)[i];
    if i < rest.len() {
        match s.last().key {
            RecordKey::CryptoNodeKey { node_id, purpose } => {
                assert(public_key_entries(s) == rest.push((node_id, purpose, s.last().value@)));
            },
            _ => {},
        }
        assert(public_key_entries(s)[i] == rest[i]);
        lemma_key_entry_in_snapshot(s.drop_last(), i);
        let j = choose|j: int| 0 <= j < s.drop_last().len() && (#[trigger] s.drop_last()[j]).key == (RecordKey::CryptoNodeKey { node_id: e.0, purpose: e.1 })
            && s.drop_last()[j].value@ == e.2;
        assert(s[j] == s.drop_last()[j]);
    } else {
        match s.last().key {
            RecordKey::CryptoNodeKey { node_id, purpose } => {
                assert(public_key_entries(s) == rest.push((node_id, purpose, s.last().value@)));
                assert(s[s.len() - 1].key == (RecordKey::CryptoNodeKey { node_id: e.0, purpose: e.1 }));
                assert(s[s.len() - 1].value@ == e.2);
            },
            _ => {},
        }
    }
}

proof fn lemma_cert_entry_in_snapshot(s: Seq<RegistryRecord>, i: int)
    requires
        0 <= i < tls_cert_entries(s).len(),
    ensures
        tls_record_with(s, tls_cert_entries(s)[i].0, tls_cert_entries(s)[i].1),
    decreases s.len(),
{
    let rest = tls_cert_entries(s.drop_last());
    let e = tls_cert_entries(s)[i];
    if i < rest.len() {
        match s.last().key {
            RecordKey::CryptoTlsCert { node_id } => {
                assert(tls_cert_entries(s) == rest.push((node_id, s.last().value@)));
            },
            _ => {},
        }
        assert(tls_cert_entries(s)[i] == rest[i]);
        lemma_cert_entry_in_snapshot(s.drop_last(), i);
        let j = choose|j: int| 0 <= j < s.drop_last().len() && (#[trigger] s.drop_last()[j]).key == (RecordKey::CryptoTlsCert { node_id: e.0 })
            && s.drop_last()[j].value@ == e.1;
        assert(s[j] == s.drop_last()[j]);
    } else {
        match s.last().key {
            RecordKey::CryptoTlsCert { node_id } => {
                assert(tls_cert_entries(s) == rest.push((node_id, s.last().value@)));
                assert(s[s.len() - 1].key == (RecordKey::CryptoTlsCert { node_id: e.0 }));
                assert(s[s.len() - 1].value@ == e.1);
            },
            _ => {},
        }
    }
}

proof fn lemma_node_record_listed(s: Seq<RegistryRecord>, n: NodeId)
    requires
        has_node_record(s, n),
    ensures
        node_record_ids(s).contains(n),
    decreases s.len(),
{
    let rest = node_record_ids(s.drop_last());
    if s.last().key == (RecordKey::NodeRecord { node_id: n }) {
        assert(node_record_ids(s) == rest.push(n));
        assert(node_record_ids(s)[rest.len() as int] == n);
    } else {
        let i = choose|i: int| 0 <= i < s.len() && (#[trigger] s[i]).key == (RecordKey::NodeRecord { node_id: n });
        assert(i != s.len() - 1);
        assert(s.drop_last()[i] == s[i]);
        lemma_node_record_listed(s.drop_last(), n);
        let k = choose|k: int| 0 <= k < rest.len() && rest[k] == n;
        match s.last().key {
            RecordKey::NodeRecord { node_id } => {
                assert(node_record_ids(s) == rest.push(node_id));
                assert(node_record_ids(s)[k] == n);
            },
            _ => {
                assert(node_record_ids(s)[k] == n);
            },
        }
    }
}

proof fn lemma_insert_ascending(r: Seq<NodeId>, x: NodeId) -> (out: Seq<NodeId>)
    requires
        strictly_ascending(r),
    ensures
        strictly_ascending(out),
        forall|y: NodeId| out.contains(y) <==> (r.contains(y) || y == x),
    decreases r.len(),
{
    if r.len() == 0 {
        let out = seq![x];
        assert forall|y: NodeId| out.contains(y) <==> (r.contains(y) || y == x) by {
            if y == x {
                assert(out[0] == x);
            }
        }
        out
    } else if x < r[0] {
        let out = seq![x] + r;
        assert forall|a: int, b: int| 0 <= a < b < out.len() implies out[a] < out[b] by {
            if a == 0 {
                if b > 1 {
                    assert(r[0] < r[b - 1]);
                }
            } else {
                assert(r[a - 1] < r[b - 1]);
            }
        }
        assert forall|y: NodeId| out.contains(y) <==> (r.contains(y) || y == x) by {
            if out.contains(y) {
                let k = choose|k: int| 0 <= k < out.len() && out[k] == y;
                if k > 0 {
                    assert(r[k - 1] == y);
                }
            }
            if r.contains(y) {
                let k = choose|k: int| 0 <= k < r.len() && r[k] == y;
                assert(out[k + 1] == y);
            }
            if y == x {
                assert(out[0] == x);
            }
        }
        out
    } else if x == r[0] {
        assert forall|y: NodeId| r.contains(y) <==> (r.contains(y) || y == x) by {
            if y == x {
                assert(r[0] == x);
            }
        }
        r
    } else {
        let d = r.drop_first();
        assert forall|a: int, b: int| 0 <= a < b < d.len() implies d[a] < d[b] by {
            assert(r[a + 1] < r[b + 1]);
        }
        let t = lemma_insert_ascending(d, x);
        let out = seq![r[0]] + t;
        assert forall|k: int| 0 <= k < t.len() implies r[0] < #[trigger] t[k] by {
            assert(t.contains(t[k]));
            if t[k] != x {
                assert(d.contains(t[k]));
                let m = choose|m: int| 0 <= m < d.len() && d[m] == t[k];
                assert(r[0] < r[m + 1]);
            }
        }
        assert forall|a: int, b: int| 0 <= a < b < out.len() implies out[a] < out[b] by {
            if a == 0 {
                assert(out[b] == t[b - 1]);
            } else {
                assert(out[a] == t[a - 1] && out[b] == t[b - 1]);
            }
        }
        assert forall|y: NodeId| out.contains(y) <==> (r.contains(y) || y == x) by {
            if out.contains(y) {
                let k = choose|k: int| 0 <= k < out.len() && out[k] == y;
                if k > 0 {
                    assert(t[k - 1] == y);
                    assert(t.contains(y));
                    if y != x {
                        let m = choose|m: int| 0 <= m < d.len() && d[m] == y;
                        assert(r[m + 1] == y);
                    }
                } else {
                    assert(r[0] == y);
                }
            }
            if r.contains(y) {
                let k = choose|k: int| 0 <= k < r.len() && r[k] == y;
                if k == 0 {
                    assert(out[0] == y);
                } else {
                    assert(d[k - 1] == y);
                    assert(d.contains(y));
                    let m = choose|m: int| 0 <= m < t.len() && t[m] == y;
                    assert(out[m + 1] == y);
                }
            }
            if y == x {
                assert(t.contains(x));
                let m = choose|m: int| 0 <= m < t.len() && t[m] == x;
                assert(out[m + 1] == x);
            }
        }
        out
    }
}

proof fn lemma_sorted_exists(q: Seq<NodeId>) -> (out: Seq<NodeId>)
    ensures
        strictly_ascending(out),
        same_nodes(out, q),
    decreases q.len(),
{
    if q.len() == 0 {
        let out = Seq::<NodeId>::empty();
        assert forall|y: NodeId| out.contains(y) <==> q.contains(y) by {}
        out
    } else {
        let r = lemma_sorted_exists(q.drop_last());
        let out = lemma_insert_ascending(r, q.last());
        assert forall|y: NodeId| out.contains(y) <==> q.contains(y) by {
            if q.contains(y) {
                let k = choose|k: int| 0 <= k < q.len() && q[k] == y;
                if k < q.len() - 1 {
                    assert(q.drop_last()[k] == y);
                }
            }
            if q.drop_last().contains(y) {
                let k = choose|k: int| 0 <= k < q.drop_last().len() && q.drop_last()[k] == y;
                assert(q[k] == y);
            }
        }
        out
    }
}

proof fn lemma_keys_check_passes_each(
    nodes: Seq<NodeId>,
    pks: Seq<(NodeId, KeyPurpose, Seq<u8>)>,
    certs: Seq<(NodeId, Seq<u8>)>,
    invalid: Seq<NodeId>,
    seen: Seq<(Seq<u8>, NodeId)>,
    seen_certs: Seq<(Seq<u8>, NodeId)>,
    j: int,
)
    requires
        keys_check(nodes, pks, certs, invalid, seen, seen_certs) is None,
        0 <= j < nodes.len(),
    ensures
        node_keys_model(nodes[j], pks, certs, invalid) is Ok,
    decreases j,
{
    let n = nodes[0];
    let k = node_keys_model(n, pks, certs, invalid)->Ok_0;
    if j > 0 {
        let r = record_keys(seen, n, model_key_list(k));
        assert(nodes.drop_first()[j - 1] == nodes[j]);
        lemma_keys_check_passes_each(
            nodes.drop_first(),
            pks,
            certs,
            invalid,
            r.0,
            seen_certs.push((k.tls_certificate, n)),
            j - 1,
        );
    }
}

/// A snapshot that passes the per-node key checks gives every node with a
/// node record its node signing, committee signing and DKG dealing
/// encryption key records and its TLS certificate record, and the crypto
/// key validation refused none of those nodes.
pub proof fn lemma_checked_nodes_have_their_keys(s: Seq<RegistryRecord>, invalid: Seq<NodeId>, n: NodeId)
    requires
        node_keys_outcome(s, invalid) is None,
        has_node_record(s, n),
    ensures
        has_key_record(s, n, KeyPurpose::NodeSigning),
        has_key_record(s, n, KeyPurpose::CommitteeSigning),
        has_key_record(s, n, KeyPurpose::DkgDealingEncryption),
        has_tls_record(s, n),
        !invalid.contains(n),
{
    lemma_node_record_listed(s, n);
    let w = lemma_sorted_exists(node_record_ids(s));
    let nodes = node_ids_in_order(s);
    assert(strictly_ascending(nodes) && same_nodes(nodes, node_record_ids(s)));
    assert(nodes.contains(n));
    let j = choose|j: int| 0 <= j < nodes.len() && nodes[j] == n;
    let pks = public_key_entries(s);
    let certs = tls_cert_entries(s);
    lemma_keys_check_passes_each(nodes, pks, certs, invalid, seq![], seq![], j);
    assert(node_keys_model(n, pks, certs, invalid) is Ok);
    lemma_find_key_found(pks, n, KeyPurpose::NodeSigning);
    let a = choose|i: int| 0 <= i < pks.len() && (#[trigger] pks[i]).0 == n && pks[i].1 == KeyPurpose::NodeSigning;
    lemma_key_entry_in_snapshot(s, a);
    lemma_find_key_found(pks, n, KeyPurpose::CommitteeSigning);
    let b = choose|i: int| 0 <= i < pks.len() && (#[trigger] pks[i]).0 == n && pks[i].1 == KeyPurpose::CommitteeSigning;
    lemma_key_entry_in_snapshot(s, b);
    lemma_find_key_found(pks, n, KeyPurpose::DkgDealingEncryption);
    let c = choose|i: int| 0 <= i < pks.len() && (#[trigger] pks[i]).0 == n && pks[i].1 == KeyPurpose::DkgDealingEncryption;
    lemma_key_entry_in_snapshot(s, c);
    lemma_find_cert_found(certs, n);
    let d = choose|i: int| 0 <= i < certs.len() && (#[trigger] certs[i]).0 == n;
    lemma_cert_entry_in_snapshot(s, d);
}

/// A signing subnet list that names one subnet for an ECDSA key passes
/// exactly when the first record of that subnet has an ECDSA configuration
/// holding the key (same curve and name) at some position of its key ids.
pub proof fn lemma_signing_list_holds_key(
    list: usize,
    l: EcdsaSigningSubnetList,
    records: Seq<SubnetEcdsaConfig>,
    r: int,
    ids: Seq<EcdsaKeyId>,
    key: EcdsaKeyId,
)
    requires
        l.subnets@.len() == 1,
        l.key_id == Some(key),
        0 <= r < records.len(),
        records[r].subnet_id == l.subnets@[0],
        forall|q: int| 0 <= q < r ==> (#[trigger] records[q]).subnet_id != l.subnets@[0],
        records[r].ecdsa_key_ids matches Some(v) && v@ == ids,
    ensures
        signing_list_error(list, l, records) is None <==> exists|k: int|
            0 <= k < ids.len() && (#[trigger] ids[k]).curve == key.curve && ids[k].name@ == key.name@,
{
    let s0 = l.subnets@[0];
    assert(is_first_record(records, s0, r));
    assert(has_record(records, s0));
    let c = choose|i: int| is_first_record(records, s0, i);
    if c < r {
        assert(records[c].subnet_id != s0);
    } else if c > r {
        assert(records[r].subnet_id != s0);
    }
    assert(first_record(records, s0) == records[r]);
    if exists|k: int| 0 <= k < ids.len() && (#[trigger] ids[k]).curve == key.curve && ids[k].name@ == key.name@ {
        let k = choose|k: int| 0 <= k < ids.len() && (#[trigger] ids[k]).curve == key.curve && ids[k].name@ == key.name@;
        assert(same_key_id(ids[k], key));
    }
}


proof fn lemma_snapshot_key_listed(s: Seq<RegistryRecord>, n: NodeId, p: KeyPurpose)
    requires
        has_key_record(s, n, p),
    ensures
        exists|k: int| 0 <= k < public_key_entries(s).len() && (#[trigger] public_key_entries(s)[k]).0 == n
            && public_key_entries(s)[k].1 == p,
    decreases s.len(),
{
    let rest = public_key_entries(s.drop_last());
    if s.last().key == (RecordKey::CryptoNodeKey { node_id: n, purpose: p }) {
        assert(public_key_entries(s) == rest.push((n, p, s.last().value@)));
        assert(public_key_entries(s)[rest.len() as int].0 == n);
    } else {
        let i = choose|i: int| 0 <= i < s.len() && (#[trigger] s[i]).key == (RecordKey::CryptoNodeKey { node_id: n, purpose: p });
        assert(i != s.len() - 1);
        assert(s.drop_last()[i] == s[i]);
        lemma_snapshot_key_listed(s.drop_last(), n, p);
        let k = choose|k: int| 0 <= k < rest.len() && (#[trigger] rest[k]).0 == n && rest[k].1 == p;
        match s.last().key {
            RecordKey::CryptoNodeKey { node_id, purpose } => {
                assert(public_key_entries(s) == rest.push((node_id, purpose, s.last().value@)));
                assert(public_key_entries(s)[k] == rest[k]);
            },
            _ => {
                assert(public_key_entries(s)[k] == rest[k]);
            },
        }
    }
}

proof fn lemma_snapshot_cert_listed(s: Seq<RegistryRecord>, n: NodeId)
    requires
        has_tls_record(s, n),
    ensures
        exists|k: int| 0 <= k < tls_cert_entries(s).len() && (#[trigger] tls_cert_entries(s)[k]).0 == n,
    decreases s.len(),
{
    let rest = tls_cert_entries(s.drop_last());
    if s.last().key == (RecordKey::CryptoTlsCert { node_id: n }) {
        assert(tls_cert_entries(s) == rest.push((n, s.last().value@)));
        assert(tls_cert_entries(s)[rest.len() as int].0 == n);
    } else {
        let i = choose|i: int| 0 <= i < s.len() && (#[trigger] s[i]).key == (RecordKey::CryptoTlsCert { node_id: n });
        assert(i != s.len() - 1);
        assert(s.drop_last()[i] == s[i]);
        lemma_snapshot_cert_listed(s.drop_last(), n);
        let k = choose|k: int| 0 <= k < rest.len() && (#[trigger] rest[k]).0 == n;
        match s.last().key {
            RecordKey::CryptoTlsCert { node_id } => {
                assert(tls_cert_entries(s) == rest.push((node_id, s.last().value@)));
                assert(tls_cert_entries(s)[k] == rest[k]);
            },
            _ => {
                assert(tls_cert_entries(s)[k] == rest[k]);
            },
        }
    }
}

/// The validation of a node's keys over a snapshot: it accepts exactly
/// the nodes that have a node signing, a committee signing and a DKG
/// dealing encryption key record and a TLS certificate record, and that the
/// crypto key validation did not refuse; the keys it gives are the values
/// of such records of the node.
pub proof fn lemma_node_keys_model_law(s: Seq<RegistryRecord>, invalid: Seq<NodeId>, n: NodeId)
    ensures
        node_keys_model(n, public_key_entries(s), tls_cert_entries(s), invalid) is Ok <==> (
            has_key_record(s, n, KeyPurpose::NodeSigning)
            && has_key_record(s, n, KeyPurpose::CommitteeSigning)
            && has_key_record(s, n, KeyPurpose::DkgDealingEncryption)
            && has_tls_record(s, n) && !invalid.contains(n)),
        node_keys_model(n, public_key_entries(s), tls_cert_entries(s), invalid) matches Ok(k) ==> {
            &&& key_record_with(s, n, KeyPurpose::NodeSigning, k.node_signing_key)
            &&& key_record_with(s, n, KeyPurpose::CommitteeSigning, k.committee_signing_key)
            &&& key_record_with(s, n, KeyPurpose::DkgDealingEncryption, k.dkg_dealing_encryption_key)
            &&& tls_record_with(s, n, k.tls_certificate)
            &&& k.idkg_dealing_encryption_key matches Some(v) ==> key_record_with(s, n, KeyPurpose::IDkgMEGaEncryption, v)
        },
{
    let pks = public_key_entries(s);
    let certs = tls_cert_entries(s);
    let purposes = seq![KeyPurpose::NodeSigning, KeyPurpose::CommitteeSigning, KeyPurpose::DkgDealingEncryption, KeyPurpose::IDkgMEGaEncryption];
    assert forall|t: int| 0 <= t < 4 implies (#[trigger] find_key(pks, n, purposes[t])) matches Some(v) ==> key_record_with(s, n, purposes[t], v) by {
        let p = purposes[t];
        if find_key(pks, n, p) is Some {
            lemma_find_key_found(pks, n, p);
            let a = choose|i: int| 0 <= i < pks.len() && (#[trigger] pks[i]).0 == n && pks[i].1 == p && Some(pks[i].2) == find_key(pks, n, p);
            lemma_key_entry_in_snapshot(s, a);
        }
    }
    assert forall|t: int| 0 <= t < 4 implies has_key_record(s, n, #[trigger] purposes[t]) ==> find_key(pks, n, purposes[t]) is Some by {
        let p = purposes[t];
        if has_key_record(s, n, p) {
            lemma_snapshot_key_listed(s, n, p);
            let k = choose|k: int| 0 <= k < pks.len() && (#[trigger] pks[k]).0 == n && pks[k].1 == p;
            lemma_find_key_present(pks, n, p, k);
        }
    }
    assert(find_key(pks, n, purposes[0]) == find_key(pks, n, KeyPurpose::NodeSigning));
    assert(find_key(pks, n, purposes[1]) == find_key(pks, n, KeyPurpose::CommitteeSigning));
    assert(find_key(pks, n, purposes[2]) == find_key(pks, n, KeyPurpose::DkgDealingEncryption));
    assert(find_key(pks, n, purposes[3]) == find_key(pks, n, KeyPurpose::IDkgMEGaEncryption));
    if find_node_cert(certs, n) is Some {
        lemma_find_cert_found(certs, n);
        let a = choose|i: int| 0 <= i < certs.len() && (#[trigger] certs[i]).0 == n && Some(certs[i].1) == find_node_cert(certs, n);
        lemma_cert_entry_in_snapshot(s, a);
    }
    if has_tls_record(s, n) {
        lemma_snapshot_cert_listed(s, n);
        let k = choose|k: int| 0 <= k < certs.len() && (#[trigger] certs[k]).0 == n;
        lemma_find_cert_present(certs, n, k);
    }
}

} // verus!
