use ic_replica_core::registry_crypto::{
    check_ecdsa_signing_subnet_lists, check_no_orphaned_node_crypto_records,
    check_node_crypto_keys_invariants, check_node_keys_are_unique, check_tls_certs_are_unique,
    get_all_nodes_public_keys, get_all_tls_certs, take_node_public_keys, EcdsaKeyId,
    EcdsaSigningSubnetList, InvariantCheckError, KeyPurpose, RecordKey, RegistryRecord,
    SubnetEcdsaConfig, ValidNodePublicKeys,
};

fn rec(key: RecordKey, value: Vec<u8>) -> RegistryRecord {
    RegistryRecord { key, value }
}

fn node_keys(node: u64) -> Vec<RegistryRecord> {
    vec![
        rec(RecordKey::CryptoNodeKey { node_id: node, purpose: KeyPurpose::NodeSigning }, vec![1, node as u8]),
        rec(RecordKey::CryptoNodeKey { node_id: node, purpose: KeyPurpose::CommitteeSigning }, vec![2, node as u8]),
        rec(RecordKey::CryptoTlsCert { node_id: node }, vec![3, node as u8]),
    ]
}

fn key_id(name: &str) -> EcdsaKeyId {
    EcdsaKeyId { curve: 1, name: name.to_owned() }
}

#[test]
fn no_orphans_when_every_node_has_a_record() {
    let mut snapshot = node_keys(1);
    snapshot.push(rec(RecordKey::NodeRecord { node_id: 1 }, vec![]));
    assert_eq!(check_no_orphaned_node_crypto_records(&snapshot), Ok(()));
}

#[test]
fn orphaned_crypto_records_are_listed_once() {
    let mut snapshot = node_keys(1);
    snapshot.extend(node_keys(2));
    snapshot.push(rec(RecordKey::NodeRecord { node_id: 1 }, vec![]));
    snapshot.push(rec(RecordKey::Other, vec![]));
    assert_eq!(
        check_no_orphaned_node_crypto_records(&snapshot),
        Err(InvariantCheckError::OrphanedCryptoRecords { node_ids: vec![2] })
    );
}

#[test]
fn orphaned_single_tls_certificate() {
    let snapshot = vec![rec(RecordKey::CryptoTlsCert { node_id: 5 }, vec![1])];
    assert_eq!(
        check_no_orphaned_node_crypto_records(&snapshot),
        Err(InvariantCheckError::OrphanedCryptoRecords { node_ids: vec![5] })
    );
}

#[test]
fn ecdsa_signing_subnet_lists() {
    let records = vec![
        SubnetEcdsaConfig { subnet_id: 7, ecdsa_key_ids: Some(vec![key_id("key_1")]) },
        SubnetEcdsaConfig { subnet_id: 8, ecdsa_key_ids: None },
    ];
    let good = vec![EcdsaSigningSubnetList { key_id: Some(key_id("key_1")), subnets: vec![7] }];
    assert_eq!(check_ecdsa_signing_subnet_lists(&good, &records), Ok(()));
    let empty = vec![EcdsaSigningSubnetList { key_id: Some(key_id("key_9")), subnets: vec![] }];
    assert_eq!(check_ecdsa_signing_subnet_lists(&empty, &records), Ok(()));
    let two = vec![good[0].clone(), EcdsaSigningSubnetList { key_id: Some(key_id("key_1")), subnets: vec![7, 8] }];
    assert_eq!(
        check_ecdsa_signing_subnet_lists(&two, &records),
        Err(InvariantCheckError::MoreThanOneSigningSubnet { list: 1 })
    );
    let invalid = vec![EcdsaSigningSubnetList { key_id: None, subnets: vec![7] }];
    assert_eq!(
        check_ecdsa_signing_subnet_lists(&invalid, &records),
        Err(InvariantCheckError::InvalidEcdsaKeyId { list: 0 })
    );
    let missing = vec![EcdsaSigningSubnetList { key_id: Some(key_id("key_1")), subnets: vec![9] }];
    assert_eq!(
        check_ecdsa_signing_subnet_lists(&missing, &records),
        Err(InvariantCheckError::NonExistentSubnet { list: 0, subnet_id: 9 })
    );
    let no_config = vec![EcdsaSigningSubnetList { key_id: Some(key_id("key_1")), subnets: vec![8] }];
    assert_eq!(
        check_ecdsa_signing_subnet_lists(&no_config, &records),
        Err(InvariantCheckError::NoEcdsaConfig { list: 0, subnet_id: 8 })
    );
    let other_key = vec![EcdsaSigningSubnetList { key_id: Some(key_id("key_2")), subnets: vec![7] }];
    assert_eq!(
        check_ecdsa_signing_subnet_lists(&other_key, &records),
        Err(InvariantCheckError::KeyNotInSubnetConfig { list: 0, subnet_id: 7 })
    );
}

#[test]
fn orphans_are_reported_before_signing_lists() {
    let snapshot = full_keys(3);
    let invalid = vec![EcdsaSigningSubnetList { key_id: None, subnets: vec![] }];
    assert_eq!(
        check_node_crypto_keys_invariants(&snapshot, &vec![], &invalid, &vec![]),
        Err(InvariantCheckError::OrphanedCryptoRecords { node_ids: vec![3] })
    );
    let mut with_record = full_keys(3);
    with_record.push(rec(RecordKey::NodeRecord { node_id: 3 }, vec![]));
    assert_eq!(
        check_node_crypto_keys_invariants(&with_record, &vec![], &invalid, &vec![]),
        Err(InvariantCheckError::InvalidEcdsaKeyId { list: 0 })
    );
}

fn valid(node_id: u64, seed: u8) -> ValidNodePublicKeys {
    ValidNodePublicKeys {
        node_id,
        node_signing_key: vec![seed, 1],
        committee_signing_key: vec![seed, 2],
        dkg_dealing_encryption_key: vec![seed, 3],
        idkg_dealing_encryption_key: Some(vec![seed, 4]),
        tls_certificate: vec![seed, 5],
    }
}

#[test]
fn duplicate_public_keys_are_found() {
    let mut seen = Vec::new();
    assert_eq!(check_node_keys_are_unique(&valid(1, 10), &mut seen), Ok(()));
    assert_eq!(seen.len(), 4);
    let mut dup = valid(2, 20);
    dup.committee_signing_key = vec![10, 2];
    assert_eq!(
        check_node_keys_are_unique(&dup, &mut seen),
        Err(InvariantCheckError::DuplicatePublicKey { existing: 1, node_id: 2 })
    );
    // The node signing key recorded before the duplicate stays recorded.
    assert_eq!(seen.len(), 5);
}

#[test]
fn duplicate_tls_certificates_are_found() {
    let mut seen = Vec::new();
    assert_eq!(check_tls_certs_are_unique(&valid(1, 10), &mut seen), Ok(()));
    let mut dup = valid(2, 20);
    dup.tls_certificate = vec![10, 5];
    assert_eq!(
        check_tls_certs_are_unique(&dup, &mut seen),
        Err(InvariantCheckError::DuplicateTlsCertificate { existing: 1, node_id: 2 })
    );
    assert_eq!(seen.len(), 1);
}

#[test]
fn keys_and_certificates_are_collected_and_taken() {
    let mut snapshot = node_keys(1);
    snapshot.extend(node_keys(2));
    snapshot.push(rec(RecordKey::CryptoNodeKey { node_id: 2, purpose: KeyPurpose::IDkgMEGaEncryption }, vec![9]));
    let mut pks = get_all_nodes_public_keys(&snapshot);
    let mut certs = get_all_tls_certs(&snapshot);
    assert_eq!(pks.len(), 5);
    assert_eq!(certs.len(), 2);
    let k2 = take_node_public_keys(2, &mut pks, &mut certs);
    assert_eq!(k2.version, 1);
    assert_eq!(k2.node_signing_pk, Some(vec![1, 2]));
    assert_eq!(k2.committee_signing_pk, Some(vec![2, 2]));
    assert_eq!(k2.dkg_dealing_encryption_pk, None);
    assert_eq!(k2.idkg_dealing_encryption_pk, Some(vec![9]));
    assert_eq!(k2.tls_certificate, Some(vec![3, 2]));
    assert_eq!(pks.len(), 2);
    let k1 = take_node_public_keys(1, &mut pks, &mut certs);
    assert_eq!(k1.version, 0);
    assert_eq!(k1.node_signing_pk, Some(vec![1, 1]));
    assert!(pks.is_empty());
    assert!(certs.is_empty());
}

fn full_keys(node: u64) -> Vec<RegistryRecord> {
    let mut v = node_keys(node);
    v.push(rec(RecordKey::CryptoNodeKey { node_id: node, purpose: KeyPurpose::DkgDealingEncryption }, vec![4, node as u8]));
    v.push(rec(RecordKey::CryptoNodeKey { node_id: node, purpose: KeyPurpose::IDkgMEGaEncryption }, vec![5, node as u8]));
    v
}

/// A node with a node record and all its keys, and a node without a node
/// record that has only the records left in `kept`.
fn run_test_orphaned_crypto_keys(missing_node_id: u64, kept: Vec<RegistryRecord>) {
    let mut snapshot = vec![rec(RecordKey::NodeRecord { node_id: 1 }, vec![])];
    snapshot.extend(full_keys(1));
    snapshot.extend(kept);
    let result = check_node_crypto_keys_invariants(&snapshot, &vec![], &vec![], &vec![]);
    assert_eq!(result, Err(InvariantCheckError::OrphanedCryptoRecords { node_ids: vec![missing_node_id] }));
}

fn only(purpose: Option<KeyPurpose>) -> Vec<RegistryRecord> {
    full_keys(2)
        .into_iter()
        .filter(|r| match (r.key, purpose) {
            (RecordKey::CryptoNodeKey { purpose: p, .. }, Some(q)) => p == q,
            (RecordKey::CryptoTlsCert { .. }, None) => true,
            _ => false,
        })
        .collect()
}

#[test]
fn orphaned_crypto_node_signing_pk() {
    run_test_orphaned_crypto_keys(2, only(Some(KeyPurpose::NodeSigning)));
}

#[test]
fn orphaned_crypto_committee_signing_pk() {
    run_test_orphaned_crypto_keys(2, only(Some(KeyPurpose::CommitteeSigning)));
}

#[test]
fn orphaned_crypto_tls_certificate() {
    run_test_orphaned_crypto_keys(2, only(None));
}

#[test]
fn orphaned_crypto_dkg_dealing_encryption_pk() {
    run_test_orphaned_crypto_keys(2, only(Some(KeyPurpose::DkgDealingEncryption)));
}

#[test]
fn orphaned_crypto_idkg_dealing_encryption_pk() {
    run_test_orphaned_crypto_keys(2, only(Some(KeyPurpose::IDkgMEGaEncryption)));
}

fn two_nodes() -> Vec<RegistryRecord> {
    let mut snapshot = vec![rec(RecordKey::NodeRecord { node_id: 1 }, vec![])];
    snapshot.extend(full_keys(1));
    snapshot.push(rec(RecordKey::NodeRecord { node_id: 2 }, vec![]));
    snapshot
}

#[test]
fn node_crypto_keys_invariants_all_keys_present() {
    let mut snapshot = two_nodes();
    snapshot.extend(full_keys(2));
    assert_eq!(check_node_crypto_keys_invariants(&snapshot, &vec![], &vec![], &vec![]), Ok(()));
}

#[test]
fn node_crypto_keys_invariants_missing_committee_key() {
    let mut snapshot = two_nodes();
    snapshot.extend(
        full_keys(2)
            .into_iter()
            .filter(|r| r.key != RecordKey::CryptoNodeKey { node_id: 2, purpose: KeyPurpose::CommitteeSigning }),
    );
    assert_eq!(
        check_node_crypto_keys_invariants(&snapshot, &vec![], &vec![], &vec![]),
        Err(InvariantCheckError::MissingPublicKey { node_id: 2, purpose: KeyPurpose::CommitteeSigning })
    );
}

#[test]
fn node_crypto_keys_invariants_missing_tls_certificate() {
    let mut snapshot = two_nodes();
    snapshot.extend(full_keys(2).into_iter().filter(|r| r.key != RecordKey::CryptoTlsCert { node_id: 2 }));
    assert_eq!(
        check_node_crypto_keys_invariants(&snapshot, &vec![], &vec![], &vec![]),
        Err(InvariantCheckError::MissingTlsCertificate { node_id: 2 })
    );
}

#[test]
fn node_crypto_keys_invariants_duplicated_committee_key() {
    let mut snapshot = two_nodes();
    snapshot.extend(full_keys(2).into_iter().map(|mut r| {
        if r.key == (RecordKey::CryptoNodeKey { node_id: 2, purpose: KeyPurpose::CommitteeSigning }) {
            r.value = vec![2, 1];
        }
        r
    }));
    assert_eq!(
        check_node_crypto_keys_invariants(&snapshot, &vec![], &vec![], &vec![]),
        Err(InvariantCheckError::DuplicatePublicKey { existing: 1, node_id: 2 })
    );
}

#[test]
fn node_crypto_keys_invariants_duplicated_tls_certificate() {
    let mut snapshot = two_nodes();
    snapshot.extend(full_keys(2).into_iter().map(|mut r| {
        if r.key == (RecordKey::CryptoTlsCert { node_id: 2 }) {
            r.value = vec![3, 1];
        }
        r
    }));
    assert_eq!(
        check_node_crypto_keys_invariants(&snapshot, &vec![], &vec![], &vec![]),
        Err(InvariantCheckError::DuplicateTlsCertificate { existing: 1, node_id: 2 })
    );
}

#[test]
fn node_crypto_keys_invariants_refused_keys() {
    let mut snapshot = two_nodes();
    snapshot.extend(full_keys(2));
    assert_eq!(
        check_node_crypto_keys_invariants(&snapshot, &vec![2], &vec![], &vec![]),
        Err(InvariantCheckError::InvalidNodeKeys { node_id: 2 })
    );
}

#[test]
fn node_crypto_keys_invariants_check_nodes_by_ascending_id() {
    // Both nodes lack their committee signing key; node 1 comes first by id
    // although its node record comes second in the snapshot.
    let strip = |n: u64| {
        full_keys(n)
            .into_iter()
            .filter(move |r| r.key != RecordKey::CryptoNodeKey { node_id: n, purpose: KeyPurpose::CommitteeSigning })
            .collect::<Vec<_>>()
    };
    let mut snapshot = vec![rec(RecordKey::NodeRecord { node_id: 2 }, vec![])];
    snapshot.extend(strip(2));
    snapshot.push(rec(RecordKey::NodeRecord { node_id: 1 }, vec![]));
    snapshot.extend(strip(1));
    assert_eq!(
        check_node_crypto_keys_invariants(&snapshot, &vec![], &vec![], &vec![]),
        Err(InvariantCheckError::MissingPublicKey { node_id: 1, purpose: KeyPurpose::CommitteeSigning })
    );
}
