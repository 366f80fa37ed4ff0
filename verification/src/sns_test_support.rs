//! Values that the SNS integration test helpers compute ahead of the
//! canister calls they make: the preimage of a neuron's staking subaccount
//! and the code of a vote.
use vstd::prelude::*;

verus! {

/// The nonce used for every staking subaccount, so that a test can compute
/// a subaccount before the neuron is created.
pub const NONCE: u64 = 12345;

/// The domain separator of neuron staking subaccounts: its length followed
/// by the ASCII bytes of `neuron-stake`.
pub open spec fn stake_domain() -> Seq<u8> {
    seq![0x0cu8, 110u8, 101u8, 117u8, 114u8, 111u8, 110u8, 45u8, 115u8, 116u8, 97u8, 107u8, 101u8]
}

/// The eight big-endian bytes of `x`.
pub open spec fn be_bytes(x: u64) -> Seq<u8> {
    seq![
        (x >> 56u64) as u8,
        (x >> 48u64) as u8,
        (x >> 40u64) as u8,
        (x >> 32u64) as u8,
        (x >> 24u64) as u8,
        (x >> 16u64) as u8,
        (x >> 8u64) as u8,
        x as u8,
    ]
}

fn push_be_bytes(out: &mut Vec<u8>, x: u64)
    ensures
        final(out)@ == old(out)@ + be_bytes(x),
{
    out.push((x >> 56u64) as u8);
    out.push((x >> 48u64) as u8);
    out.push((x >> 40u64) as u8);
    out.push((x >> 32u64) as u8);
    out.push((x >> 24u64) as u8);
    out.push((x >> 16u64) as u8);
    out.push((x >> 8u64) as u8);
    out.push(x as u8);
    assert(final(out)@ =~= old(out)@ + be_bytes(x));
}

/// The bytes whose SHA-256 hash is the staking subaccount of the neuron of
/// the principal `principal`: the domain separator, the principal's bytes and
/// the nonce in big-endian order.
pub fn neuron_stake_subaccount_preimage(principal: &Vec<u8>) -> (res: Vec<u8>)
    ensures
        res@ == stake_domain() + principal@ + be_bytes(NONCE),
{
    let mut out: Vec<u8> = Vec::new();
    out.push(0x0c);
    out.push(110);
    out.push(101);
    out.push(117);
    out.push(114);
    out.push(111);
    out.push(110);
    out.push(45);
    out.push(115);
    out.push(116);
    out.push(97);
    out.push(107);
    out.push(101);
    assert(out@ =~= stake_domain());
    let mut i: usize = 0;
    while i < principal.len()
        invariant
            i <= principal@.len(),
            out@ == stake_domain() + principal@.take(i as int),
        decreases principal@.len() - i,
    {
        out.push(principal[i]);
        assert(principal@.take(i + 1) =~= principal@.take(i as int).push(principal@[i as int]));
        assert(out@ =~= stake_domain() + principal@.take(i + 1));
        i = i + 1;
    }
    assert(principal@.take(i as int) =~= principal@);
    push_be_bytes(&mut out, NONCE);
    out
}

/// The code of a vote in the governance API: 1 accepts, 2 rejects.
pub fn vote_code(accept: bool) -> (res: i32)
    ensures
        res == (if accept { 1i32 } else { 2i32 }),
{
    if accept {
        1
    } else {
        2
    }
}

} // verus!
