//! Saving and restoring the state of a Bitcoin agent across canister
//! upgrades.
//!
//! The agent manages Bitcoin addresses; its stored state keeps each address
//! in its textual form together with the network, and the values kept per
//! address (the ECDSA public key the address derives from, the UTXO state of
//! the address) unchanged and in order. Parsing and printing an address is
//! the work of the `bitcoin` crate.
use bitcoin::util::address::{Payload, WitnessVersion};
use std::str::FromStr;
use vstd::prelude::*;

verus! {

/// The network an address is used on.
#[derive(Clone, Copy, Debug, PartialEq, Eq, Structural)]
pub enum AddressNetwork {
    Bitcoin,
    Testnet,
    Signet,
    Regtest,
}

/// The kind of an address's payload.
#[derive(Clone, Copy, Debug, PartialEq, Eq, Structural)]
pub enum PayloadKind {
    /// Pay to public key hash: the program is the 20-byte hash.
    PubkeyHash,
    /// Pay to script hash: the program is the 20-byte hash.
    ScriptHash,
    /// A segwit output of this witness version.
    WitnessProgram { version: u8 },
}

/// A Bitcoin address as plain values: the kind of its payload, the payload's
/// bytes (the hash, or the witness program) and its network.
#[derive(Clone, Debug, PartialEq, Eq)]
pub struct BtcAddress {
    pub kind: PayloadKind,
    pub program: Vec<u8>,
    pub network: AddressNetwork,
}

pub struct AddressModel {
    pub kind: PayloadKind,
    pub program: Seq<u8>,
    pub network: AddressNetwork,
}

impl View for BtcAddress {
    type V = AddressModel;

    open spec fn view(&self) -> AddressModel {
        AddressModel { kind: self.kind, program: self.program@, network: self.network }
    }
}

/// The payloads a `bitcoin::Address` can hold: 20-byte hashes, and witness
/// programs of version 0 to 16 with 2 to 40 bytes (20 or 32 for version 0).
pub open spec fn valid_address(a: AddressModel) -> bool {
    match a.kind {
        PayloadKind::WitnessProgram { version } => {
            &&& version <= 16
            &&& 2 <= a.program.len() <= 40
            &&& version == 0 ==> (a.program.len() == 20 || a.program.len() == 32)
        },
        _ => a.program.len() == 20,
    }
}

/// The network an address of payload `kind` on network `n` is read back on
/// from its text: base58 texts do not tell the test networks apart (they
/// read as testnet), bech32 texts tell regtest from the others.
pub open spec fn parsed_network(kind: PayloadKind, n: AddressNetwork) -> AddressNetwork {
    if n == AddressNetwork::Bitcoin {
        AddressNetwork::Bitcoin
    } else if kind is WitnessProgram && n == AddressNetwork::Regtest {
        AddressNetwork::Regtest
    } else {
        AddressNetwork::Testnet
    }
}

/// The address read back from the text of `a`.
pub open spec fn reparsed(a: AddressModel) -> AddressModel {
    AddressModel { network: parsed_network(a.kind, a.network), ..a }
}

/// `a` on the regtest network.
pub open spec fn on_regtest_model(a: AddressModel) -> AddressModel {
    AddressModel { network: AddressNetwork::Regtest, ..a }
}

pub open spec fn opt_address_view(o: Option<BtcAddress>) -> Option<AddressModel> {
    match o {
        Some(a) => Some(a@),
        None => None,
    }
}

/// The address `bitcoin::Address::from_str` reads from `text`, if any.
pub uninterp spec fn address_of_text(text: Seq<char>) -> Option<AddressModel>;

/// The text `bitcoin::Address`'s `Display` writes for an address.
pub uninterp spec fn address_text_of(address: AddressModel) -> Seq<char>;

/// Parses `text` with `bitcoin::Address::from_str`. What it reads is named;
/// what it reads is a valid address (the hash and witness program length
/// checks of `from_str`).
#[verifier::external_body]
fn parse_address(text: &str) -> (res: Option<BtcAddress>)
    ensures
        opt_address_view(res) == address_of_text(text@),
        res matches Some(a) ==> valid_address(a@),
{
    let a = bitcoin::Address::from_str(text).ok()?;
    let (kind, program) = match a.payload {
        Payload::PubkeyHash(h) => (PayloadKind::PubkeyHash, h[..].to_vec()),
        Payload::ScriptHash(h) => (PayloadKind::ScriptHash, h[..].to_vec()),
        Payload::WitnessProgram { version: v, program } => (PayloadKind::WitnessProgram { version: v.into_num() }, program),
    };
    let network = match a.network {
        bitcoin::Network::Bitcoin => AddressNetwork::Bitcoin,
        bitcoin::Network::Testnet => AddressNetwork::Testnet,
        bitcoin::Network::Signet => AddressNetwork::Signet,
        bitcoin::Network::Regtest => AddressNetwork::Regtest,
    };
    Some(BtcAddress { kind, program, network })
}

/// The text of a valid address, by `bitcoin::Address`'s `Display`. Reading
/// that text back with `from_str` gives the same payload; the network comes
/// back as [`parsed_network`] says.
#[verifier::external_body]
fn address_text(address: &BtcAddress) -> (res: String)
    requires
        valid_address(address@),
    ensures
        res@ == address_text_of(address@),
        address_of_text(res@) == Some(reparsed(address@)),
{
    let payload = match address.kind {
        PayloadKind::PubkeyHash => Payload::PubkeyHash(bitcoin::hashes::Hash::from_slice(&address.program).unwrap()),
        PayloadKind::ScriptHash => Payload::ScriptHash(bitcoin::hashes::Hash::from_slice(&address.program).unwrap()),
        PayloadKind::WitnessProgram { version } => Payload::WitnessProgram { version: WitnessVersion::from_num(version).unwrap(), program: address.program.clone() },
    };
    let network = match address.network {
        AddressNetwork::Bitcoin => bitcoin::Network::Bitcoin,
        AddressNetwork::Testnet => bitcoin::Network::Testnet,
        AddressNetwork::Signet => bitcoin::Network::Signet,
        AddressNetwork::Regtest => bitcoin::Network::Regtest,
    };
    bitcoin::Address { payload, network }.to_string()
}

/// The Bitcoin networks.
#[derive(Clone, Copy, Debug, PartialEq, Eq, Structural)]
pub enum Network {
    Mainnet,
    Testnet,
    Regtest,
}

/// The kinds of addresses an agent derives.
#[derive(Clone, Copy, Debug, PartialEq, Eq, Structural)]
pub enum AddressType {
    P2pkh,
    P2sh,
    P2wpkh,
}

/// An address in its textual form, with its network.
pub type AddressUsingPrimitives = (String, Network);

/// The addresses an agent manages, each with the value kept for it: `K` for
/// the ECDSA public keys, `U` for the UTXO states.
pub struct AgentAddresses<K, U> {
    pub main_address_type: AddressType,
    pub ecdsa_pub_key_addresses: Vec<(BtcAddress, K)>,
    pub utxos_state_addresses: Vec<(BtcAddress, U)>,
}

/// The stored state of an agent.
pub struct BitcoinAgentState<K, U> {
    pub network: Network,
    pub main_address_type: AddressType,
    pub ecdsa_pub_key_addresses: Vec<(AddressUsingPrimitives, K)>,
    pub utxos_state_addresses: Vec<(AddressUsingPrimitives, U)>,
}

/// The addresses of the entries of an agent, in order.
pub open spec fn addresses_of<V>(s: Seq<(BtcAddress, V)>) -> Seq<AddressModel> {
    s.map_values(|e: (BtcAddress, V)| e.0@)
}

/// The stored addresses of the entries of a state, in order.
pub open spec fn stored_of<V>(s: Seq<(AddressUsingPrimitives, V)>) -> Seq<(Seq<char>, Network)> {
    s.map_values(|e: (AddressUsingPrimitives, V)| (e.0.0@, e.0.1))
}

/// The values of a list of entries, in order.
pub open spec fn values_of<A, V>(s: Seq<(A, V)>) -> Seq<V> {
    s.map_values(|e: (A, V)| e.1)
}

/// Every address of `s` is one a `bitcoin::Address` can hold.
pub open spec fn all_valid(s: Seq<AddressModel>) -> bool {
    forall|i: int| 0 <= i < s.len() ==> valid_address(#[trigger] s[i])
}

/// Every address of `s` is on the regtest network.
pub open spec fn all_on_regtest(s: Seq<AddressModel>) -> bool {
    forall|i: int| 0 <= i < s.len() ==> (#[trigger] s[i]).network == AddressNetwork::Regtest
}

/// The stored form of each address of `s`: its text, with the regtest network.
pub open spec fn stored_form(s: Seq<AddressModel>) -> Seq<(Seq<char>, Network)> {
    s.map_values(|a: AddressModel| (address_text_of(a), Network::Regtest))
}

/// Every stored text of `s` reads back as an address.
pub open spec fn all_parse(s: Seq<(Seq<char>, Network)>) -> bool {
    forall|i: int| 0 <= i < s.len() ==> (#[trigger] address_of_text(s[i].0)) is Some
}

/// Every stored text of `s` reads back as the address it was written from,
/// as [`reparsed`] says.
pub open spec fn texts_read_back(s: Seq<(Seq<char>, Network)>, addresses: Seq<AddressModel>) -> bool {
    &&& s.len() == addresses.len()
    &&& forall|i: int| 0 <= i < s.len() ==> #[trigger] address_of_text(s[i].0) == Some(reparsed(addresses[i]))
}

/// The address restored from each stored text of `s`: the address read
/// from the text, on the regtest network; the stored network is not read.
pub open spec fn restored_form(s: Seq<(Seq<char>, Network)>) -> Seq<AddressModel> {
    s.map_values(|e: (Seq<char>, Network)| on_regtest_model(address_of_text(e.0).unwrap()))
}

/// The stored form of an address: its text, on the regtest network (the
/// only network the agent supports so far). The text reads back as the
/// address.
pub fn get_address_using_primitives(address: &BtcAddress) -> (res: AddressUsingPrimitives)
    requires
        valid_address(address@),
    ensures
        res.0@ == address_text_of(address@),
        res.1 == Network::Regtest,
        address_of_text(res.0@) == Some(reparsed(address@)),
{
    (address_text(address), Network::Regtest)
}

/// The address whose stored form is `stored`: the address read from its
/// text, set to the regtest network; the stored network is not read. The
/// text must be an address.
pub fn get_address(stored: AddressUsingPrimitives) -> (res: BtcAddress)
    requires
        address_of_text(stored.0@) is Some,
    ensures
        res@ == on_regtest_model(address_of_text(stored.0@).unwrap()),
        valid_address(res@),
{
    let (text, _network) = stored;
    let parsed = parse_address(text.as_str()).unwrap();
    BtcAddress { network: AddressNetwork::Regtest, ..parsed }
}

fn store_entries<V>(entries: Vec<(BtcAddress, V)>) -> (res: Vec<(AddressUsingPrimitives, V)>)
    requires
        all_valid(addresses_of(entries@)),
    ensures
        stored_of(res@) == stored_form(addresses_of(entries@)),
        values_of(res@) == values_of(entries@),
        texts_read_back(stored_of(res@), addresses_of(entries@)),
{
    let ghost input = entries@;
    let mut entries = entries;
    let mut reversed: Vec<(AddressUsingPrimitives, V)> = Vec::new();
    while entries.len() > 0
        invariant
            entries@.len() + reversed@.len() == input.len(),
            entries@ == input.take(entries@.len() as int),
            all_valid(addresses_of(input)),
            forall|i: int| 0 <= i < reversed@.len() ==> ({
                let a = input[input.len() - 1 - i].0@;
                &&& (#[trigger] reversed@[i]).0.0@ == address_text_of(a)
                &&& reversed@[i].0.1 == Network::Regtest
                &&& address_of_text(reversed@[i].0.0@) == Some(reparsed(a))
                &&& reversed@[i].1 == input[input.len() - 1 - i].1
            }),
        decreases entries@.len(),
    {
        let k = entries.len() - 1;
        assert(valid_address(addresses_of(input)[k as int]));
        let (address, value) = entries.pop().unwrap();
        let stored = get_address_using_primitives(&address);
        reversed.push((stored, value));
    }
    let mut res: Vec<(AddressUsingPrimitives, V)> = Vec::new();
    while reversed.len() > 0
        invariant
            reversed@.len() + res@.len() == input.len(),
            forall|i: int| 0 <= i < reversed@.len() ==> ({
                let a = input[input.len() - 1 - i].0@;
                &&& (#[trigger] reversed@[i]).0.0@ == address_text_of(a)
                &&& reversed@[i].0.1 == Network::Regtest
                &&& address_of_text(reversed@[i].0.0@) == Some(reparsed(a))
                &&& reversed@[i].1 == input[input.len() - 1 - i].1
            }),
            forall|j: int| 0 <= j < res@.len() ==> ({
                let a = input[j].0@;
                &&& (#[trigger] res@[j]).0.0@ == address_text_of(a)
                &&& res@[j].0.1 == Network::Regtest
                &&& address_of_text(res@[j].0.0@) == Some(reparsed(a))
                &&& res@[j].1 == input[j].1
            }),
        decreases reversed@.len(),
    {
        let e = reversed.pop().unwrap();
        res.push(e);
    }
    assert(stored_of(res@) =~= stored_form(addresses_of(input)));
    assert(values_of(res@) =~= values_of(input));
    assert forall|i: int| 0 <= i < stored_of(res@).len() implies #[trigger] address_of_text(stored_of(res@)[i].0)
        == Some(reparsed(addresses_of(input)[i])) by {
        assert(res@[i].0.0@ == stored_of(res@)[i].0);
    }
    res
}

fn restore_entries<V>(entries: Vec<(AddressUsingPrimitives, V)>) -> (res: Vec<(BtcAddress, V)>)
    requires
        all_parse(stored_of(entries@)),
    ensures
        addresses_of(res@) == restored_form(stored_of(entries@)),
        values_of(res@) == values_of(entries@),
        all_valid(addresses_of(res@)),
{
    let ghost input = entries@;
    let mut entries = entries;
    let mut reversed: Vec<(BtcAddress, V)> = Vec::new();
    while entries.len() > 0
        invariant
            entries@.len() + reversed@.len() == input.len(),
            entries@ == input.take(entries@.len() as int),
            all_parse(stored_of(input)),
            forall|i: int| 0 <= i < reversed@.len() ==> ({
                let t = input[input.len() - 1 - i].0.0@;
                &&& (#[trigger] reversed@[i]).0@ == on_regtest_model(address_of_text(t).unwrap())
                &&& valid_address(reversed@[i].0@)
                &&& reversed@[i].1 == input[input.len() - 1 - i].1
            }),
        decreases entries@.len(),
    {
        let k = entries.len() - 1;
        assert(stored_of(input)[k as int].0 == input[k as int].0.0@);
        assert(address_of_text(stored_of(input)[k as int].0) is Some);
        let (stored, value) = entries.pop().unwrap();
        let address = get_address(stored);
        reversed.push((address, value));
    }
    let mut res: Vec<(BtcAddress, V)> = Vec::new();
    while reversed.len() > 0
        invariant
            reversed@.len() + res@.len() == input.len(),
            forall|i: int| 0 <= i < reversed@.len() ==> ({
                let t = input[input.len() - 1 - i].0.0@;
                &&& (#[trigger] reversed@[i]).0@ == on_regtest_model(address_of_text(t).unwrap())
                &&& valid_address(reversed@[i].0@)
                &&& reversed@[i].1 == input[input.len() - 1 - i].1
            }),
            forall|j: int| 0 <= j < res@.len() ==> ({
                let t = input[j].0.0@;
                &&& (#[trigger] res@[j]).0@ == on_regtest_model(address_of_text(t).unwrap())
                &&& valid_address(res@[j].0@)
                &&& res@[j].1 == input[j].1
            }),
        decreases reversed@.len(),
    {
        let e = reversed.pop().unwrap();
        res.push(e);
    }
    assert(addresses_of(res@) =~= restored_form(stored_of(input)));
    assert(values_of(res@) =~= values_of(input));
    assert forall|i: int| 0 <= i < addresses_of(res@).len() implies valid_address(#[trigger] addresses_of(res@)[i]) by {
        assert(addresses_of(res@)[i] == res@[i].0@);
    }
    res
}

fn texts_parse<V>(entries: &Vec<(AddressUsingPrimitives, V)>) -> (res: bool)
    ensures
        res == all_parse(stored_of(entries@)),
{
    let mut i: usize = 0;
    while i < entries.len()
        invariant
            i <= entries@.len(),
            forall|j: int| 0 <= j < i ==> (#[trigger] address_of_text(stored_of(entries@)[j].0)) is Some,
        decreases entries@.len() - i,
    {
        assert(stored_of(entries@)[i as int].0 == entries@[i as int].0.0@);
        if parse_address(entries[i].0.0.as_str()).is_none() {
            return false;
        }
        i = i + 1;
    }
    true
}

/// The state to store for an agent: every address in its textual form with
/// the regtest network, its value unchanged, in order. Each stored text
/// reads back as its address.
pub fn get_state<K, U>(agent: AgentAddresses<K, U>) -> (res: BitcoinAgentState<K, U>)
    requires
        all_valid(addresses_of(agent.ecdsa_pub_key_addresses@)),
        all_valid(addresses_of(agent.utxos_state_addresses@)),
    ensures
        res.network == Network::Regtest,
        res.main_address_type == agent.main_address_type,
        stored_of(res.ecdsa_pub_key_addresses@) == stored_form(addresses_of(agent.ecdsa_pub_key_addresses@)),
        stored_of(res.utxos_state_addresses@) == stored_form(addresses_of(agent.utxos_state_addresses@)),
        values_of(res.ecdsa_pub_key_addresses@) == values_of(agent.ecdsa_pub_key_addresses@),
        values_of(res.utxos_state_addresses@) == values_of(agent.utxos_state_addresses@),
        texts_read_back(stored_of(res.ecdsa_pub_key_addresses@), addresses_of(agent.ecdsa_pub_key_addresses@)),
        texts_read_back(stored_of(res.utxos_state_addresses@), addresses_of(agent.utxos_state_addresses@)),
{
    BitcoinAgentState {
        network: Network::Regtest,
        main_address_type: agent.main_address_type,
        ecdsa_pub_key_addresses: store_entries(agent.ecdsa_pub_key_addresses),
        utxos_state_addresses: store_entries(agent.utxos_state_addresses),
    }
}

/// The addresses of an agent restored from its state: each stored text read
/// as an address and set to the regtest network, its value unchanged, in
/// order. Every stored text must be an address.
pub fn from_state<K, U>(state: BitcoinAgentState<K, U>) -> (res: AgentAddresses<K, U>)
    requires
        all_parse(stored_of(state.ecdsa_pub_key_addresses@)),
        all_parse(stored_of(state.utxos_state_addresses@)),
    ensures
        res.main_address_type == state.main_address_type,
        addresses_of(res.ecdsa_pub_key_addresses@) == restored_form(stored_of(state.ecdsa_pub_key_addresses@)),
        addresses_of(res.utxos_state_addresses@) == restored_form(stored_of(state.utxos_state_addresses@)),
        values_of(res.ecdsa_pub_key_addresses@) == values_of(state.ecdsa_pub_key_addresses@),
        values_of(res.utxos_state_addresses@) == values_of(state.utxos_state_addresses@),
        all_valid(addresses_of(res.ecdsa_pub_key_addresses@)),
        all_valid(addresses_of(res.utxos_state_addresses@)),
{
    AgentAddresses {
        main_address_type: state.main_address_type,
        ecdsa_pub_key_addresses: restore_entries(state.ecdsa_pub_key_addresses),
        utxos_state_addresses: restore_entries(state.utxos_state_addresses),
    }
}

/// `from_state` where every stored text is an address, and `None` where
/// one is not.
pub fn try_from_state<K, U>(state: BitcoinAgentState<K, U>) -> (res: Option<AgentAddresses<K, U>>)
    ensures
        res is Some <==> all_parse(stored_of(state.ecdsa_pub_key_addresses@)) && all_parse(
            stored_of(state.utxos_state_addresses@),
        ),
        res matches Some(agent) ==> {
            &&& agent.main_address_type == state.main_address_type
            &&& addresses_of(agent.ecdsa_pub_key_addresses@) == restored_form(stored_of(state.ecdsa_pub_key_addresses@))
            &&& addresses_of(agent.utxos_state_addresses@) == restored_form(stored_of(state.utxos_state_addresses@))
            &&& values_of(agent.ecdsa_pub_key_addresses@) == values_of(state.ecdsa_pub_key_addresses@)
            &&& values_of(agent.utxos_state_addresses@) == values_of(state.utxos_state_addresses@)
        },
{
    if texts_parse(&state.ecdsa_pub_key_addresses) && texts_parse(&state.utxos_state_addresses) {
        Some(from_state(state))
    } else {
        None
    }
}

/// Stored texts of distinct regtest addresses are distinct: a state stored
/// from an agent that manages each address once names each address once.
pub proof fn lemma_stored_texts_distinct(addresses: Seq<AddressModel>, stored: Seq<(Seq<char>, Network)>)
    requires
        all_on_regtest(addresses),
        addresses.no_duplicates(),
        texts_read_back(stored, addresses),
    ensures
        stored.map_values(|e: (Seq<char>, Network)| e.0).no_duplicates(),
{
    let texts = stored.map_values(|e: (Seq<char>, Network)| e.0);
    assert forall|i: int, j: int| 0 <= i < texts.len() && 0 <= j < texts.len() && i != j implies texts[i] != texts[j] by {
        assert(address_of_text(stored[i].0) == Some(reparsed(addresses[i])));
        assert(address_of_text(stored[j].0) == Some(reparsed(addresses[j])));
        assert(addresses[i].network == AddressNetwork::Regtest);
        assert(addresses[j].network == AddressNetwork::Regtest);
        if texts[i] == texts[j] {
            assert(reparsed(addresses[i]) == reparsed(addresses[j]));
            assert(addresses[i] == addresses[j]);
        }
    }
}

/// Restoring the stored form of regtest addresses gives them back: each
/// stored text reads back as its address (as `get_state` ensures), and
/// setting the network to regtest undoes the only change reading makes.
pub proof fn lemma_restore_after_store(addresses: Seq<AddressModel>, stored: Seq<(Seq<char>, Network)>)
    requires
        all_on_regtest(addresses),
        stored == stored_form(addresses),
        texts_read_back(stored, addresses),
    ensures
        all_parse(stored),
        restored_form(stored) == addresses,
{
    assert forall|i: int| 0 <= i < stored.len() implies (#[trigger] address_of_text(stored[i].0)) is Some by {
        assert(address_of_text(stored[i].0) == Some(reparsed(addresses[i])));
    }
    assert forall|i: int| 0 <= i < addresses.len() implies #[trigger] restored_form(stored)[i] == addresses[i] by {
        assert(address_of_text(stored[i].0) == Some(reparsed(addresses[i])));
        assert(addresses[i].network == AddressNetwork::Regtest);
    }
    assert(restored_form(stored) =~= addresses);
}

/// The upgrade round trip: an agent whose addresses are regtest addresses
/// is stored (`first`), restored (`restored`) and stored again (`second`);
/// the restored agent has the agent's addresses, and the second stored
/// state is the first. The premises are what `get_state` and `from_state`
/// ensure.
pub proof fn lemma_state_roundtrip<V>(
    agent: Seq<(BtcAddress, V)>,
    first: Seq<(AddressUsingPrimitives, V)>,
    restored: Seq<(BtcAddress, V)>,
    second: Seq<(AddressUsingPrimitives, V)>,
)
    requires
        all_on_regtest(addresses_of(agent)),
        stored_of(first) == stored_form(addresses_of(agent)),
        values_of(first) == values_of(agent),
        texts_read_back(stored_of(first), addresses_of(agent)),
        addresses_of(restored) == restored_form(stored_of(first)),
        values_of(restored) == values_of(first),
        stored_of(second) == stored_form(addresses_of(restored)),
        values_of(second) == values_of(restored),
    ensures
        addresses_of(restored) == addresses_of(agent),
        values_of(restored) == values_of(agent),
        stored_of(second) == stored_of(first),
        values_of(second) == values_of(first),
{
    lemma_restore_after_store(addresses_of(agent), stored_of(first));
}

} // verus!
