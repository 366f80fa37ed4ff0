use ic_replica_core::btc_agent_state::{
    from_state, get_address, get_address_using_primitives, get_state, try_from_state,
    AddressNetwork, AddressType, AgentAddresses, BitcoinAgentState, BtcAddress, Network,
    PayloadKind,
};

const P2PKH: &str = "mqkhEMH6NCeYjFybv7pvFC22MFeaNT9AQC";
const P2SH: &str = "2N3zXjbwdTcPsJiy8sUK9FhWJhqQCxA8Jjr";
const P2WPKH: &str = "bcrt1q2nfxmhd4n3c8834pj72xagvyr9gl57n5r94fsl";

fn address(text: &str) -> BtcAddress {
    get_address((text.to_owned(), Network::Regtest))
}

fn agent() -> AgentAddresses<Vec<u8>, u64> {
    AgentAddresses {
        main_address_type: AddressType::P2pkh,
        ecdsa_pub_key_addresses: vec![(address(P2PKH), vec![2, 3]), (address(P2WPKH), vec![4])],
        utxos_state_addresses: vec![(address(P2SH), 7)],
    }
}

fn same_state(a: &BitcoinAgentState<Vec<u8>, u64>, b: &BitcoinAgentState<Vec<u8>, u64>) -> bool {
    a.network == b.network
        && a.main_address_type == b.main_address_type
        && a.ecdsa_pub_key_addresses == b.ecdsa_pub_key_addresses
        && a.utxos_state_addresses == b.utxos_state_addresses
}

/// `get_state` after `from_state` gives back the state that was stored.
#[test]
fn check_upgrade() {
    let pre_upgrade_state = get_state(agent());
    let copy = get_state(agent());
    let post_upgrade_agent = from_state(pre_upgrade_state);
    assert_eq!(post_upgrade_agent.ecdsa_pub_key_addresses, agent().ecdsa_pub_key_addresses);
    assert_eq!(post_upgrade_agent.utxos_state_addresses, agent().utxos_state_addresses);
    let post_upgrade_state = get_state(post_upgrade_agent);
    assert!(same_state(&post_upgrade_state, &copy));
}

#[test]
fn addresses_are_read_as_plain_values() {
    let a = address(P2WPKH);
    assert_eq!(a.kind, PayloadKind::WitnessProgram { version: 0 });
    assert_eq!(a.program.len(), 20);
    assert_eq!(a.network, AddressNetwork::Regtest);
    let b = address(P2PKH);
    assert_eq!(b.kind, PayloadKind::PubkeyHash);
    assert_eq!(b.program.len(), 20);
    // Base58 test addresses are read as testnet; restoring puts them on regtest.
    assert_eq!(b.network, AddressNetwork::Regtest);
    assert_eq!(address(P2SH).kind, PayloadKind::ScriptHash);
}

#[test]
fn stored_addresses_are_text_on_regtest() {
    let state = get_state(agent());
    assert_eq!(state.network, Network::Regtest);
    assert_eq!(state.main_address_type, AddressType::P2pkh);
    assert_eq!(
        state.ecdsa_pub_key_addresses,
        vec![
            ((P2PKH.to_owned(), Network::Regtest), vec![2, 3]),
            ((P2WPKH.to_owned(), Network::Regtest), vec![4]),
        ]
    );
    assert_eq!(state.utxos_state_addresses, vec![((P2SH.to_owned(), Network::Regtest), 7)]);
}

#[test]
fn stored_form_of_one_address() {
    let stored = get_address_using_primitives(&address(P2WPKH));
    assert_eq!(stored, (P2WPKH.to_owned(), Network::Regtest));
}

#[test]
fn text_follows_the_network() {
    let mut a = address(P2WPKH);
    a.network = AddressNetwork::Bitcoin;
    let (text, network) = get_address_using_primitives(&a);
    assert!(text.starts_with("bc1q"));
    assert_eq!(network, Network::Regtest);
}

#[test]
fn restored_address_is_put_on_regtest() {
    // A testnet segwit address is printed with the regtest prefix once restored.
    let testnet = "tb1qrp33g0q5c5txsp9arysrx4k6zdkfs4nce4xj0gdcccefvpysxf3q0sl5k7";
    let restored = get_address((testnet.to_owned(), Network::Testnet));
    assert_eq!(restored.network, AddressNetwork::Regtest);
    assert_eq!(restored.program.len(), 32);
    let (text, _) = get_address_using_primitives(&restored);
    assert!(text.starts_with("bcrt1q"));
    assert_ne!(text, testnet);
}

#[test]
fn restored_addresses_keep_values_in_order() {
    let state = BitcoinAgentState {
        network: Network::Testnet,
        main_address_type: AddressType::P2wpkh,
        ecdsa_pub_key_addresses: vec![((P2SH.to_owned(), Network::Mainnet), 1u8)],
        utxos_state_addresses: Vec::<((String, Network), u8)>::new(),
    };
    let a = from_state(state);
    assert_eq!(a.main_address_type, AddressType::P2wpkh);
    assert_eq!(a.ecdsa_pub_key_addresses, vec![(address(P2SH), 1u8)]);
    assert!(a.utxos_state_addresses.is_empty());
}

#[test]
fn state_with_a_text_that_is_no_address_is_refused() {
    let state = BitcoinAgentState {
        network: Network::Regtest,
        main_address_type: AddressType::P2pkh,
        ecdsa_pub_key_addresses: vec![((P2PKH.to_owned(), Network::Regtest), 1u8)],
        utxos_state_addresses: vec![(("not an address".to_owned(), Network::Regtest), 2u8)],
    };
    assert!(try_from_state(state).is_none());
}

#[test]
fn state_with_addresses_only_is_restored() {
    let state = BitcoinAgentState {
        network: Network::Regtest,
        main_address_type: AddressType::P2pkh,
        ecdsa_pub_key_addresses: vec![((P2PKH.to_owned(), Network::Regtest), 1u8)],
        utxos_state_addresses: vec![((P2WPKH.to_owned(), Network::Regtest), 2u8)],
    };
    let a = try_from_state(state).unwrap();
    assert_eq!(a.ecdsa_pub_key_addresses, vec![(address(P2PKH), 1u8)]);
    assert_eq!(a.utxos_state_addresses, vec![(address(P2WPKH), 2u8)]);
}
