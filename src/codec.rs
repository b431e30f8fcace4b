use vstd::prelude::*;

use crate::message::{Endpoint, MessageView, NetworkMessage, endpoints_wf};

verus! {

/// `x` written as `width` bytes, least significant first.
pub open spec fn le_bytes(x: nat, width: nat) -> Seq<u8>
    decreases width,
{
    if width == 0 {
        Seq::empty()
    } else {
        seq![(x % 256) as u8] + le_bytes(x / 256, (width - 1) as nat)
    }
}

/// An endpoint on the wire: a flag byte for IPv6, the address in 16 bytes, the port in 2.
pub open spec fn endpoint_bytes(e: Endpoint) -> Seq<u8> {
    seq![if e.v6 { 1u8 } else { 0u8 }] + le_bytes(e.ip as nat, 16) + le_bytes(e.port as nat, 2)
}

pub open spec fn endpoints_bytes(s: Seq<Endpoint>) -> Seq<u8>
    decreases s.len(),
{
    if s.len() == 0 {
        Seq::empty()
    } else {
        endpoint_bytes(s[0]) + endpoints_bytes(s.drop_first())
    }
}

/// The payload encoding of a message: the sender in 8 bytes, the number of
/// destinations in 8, each destination, the payload's length in 8, the payload.
pub open spec fn record_bytes(m: MessageView) -> Seq<u8> {
    le_bytes(m.sender as nat, 8) + le_bytes(m.addresses.len(), 8) + endpoints_bytes(m.addresses)
        + le_bytes(m.message.len(), 8) + m.message
}

pub open spec fn is_prefix(p: Seq<u8>, b: Seq<u8>) -> bool {
    p.len() <= b.len() && b.subrange(0, p.len() as int) == p
}

/// The lengths of `x` fit in the 8 bytes that the encoding gives them.
pub open spec fn fits(x: MessageView) -> bool {
    x.addresses.len() <= u64::MAX && x.message.len() <= u64::MAX
}

/// `b` holds the encoding of `x`, maybe followed by more bytes.
pub open spec fn holds_record(b: Seq<u8>, x: MessageView) -> bool {
    is_prefix(record_bytes(x), b)
}

pub open spec fn pow256(w: nat) -> nat
    decreases w,
{
    if w == 0 {
        1
    } else {
        256 * pow256((w - 1) as nat)
    }
}

/// The number that bytes spell, least significant first.
pub open spec fn le_value(s: Seq<u8>) -> nat
    decreases s.len(),
{
    if s.len() == 0 {
        0
    } else {
        s[0] as nat + 256 * le_value(s.drop_first())
    }
}

proof fn lemma_le_round_trip(x: nat, w: nat)
    requires
        x < pow256(w),
    ensures
        le_bytes(x, w).len() == w,
        le_value(le_bytes(x, w)) == x,
    decreases w,
{
    if w > 0 {
        let q = x / 256;
        assert(q < pow256((w - 1) as nat)) by (nonlinear_arith)
            requires
                x < 256 * pow256((w - 1) as nat),
                q == x / 256,
        ;
        lemma_le_round_trip(q, (w - 1) as nat);
        let s = le_bytes(x, w);
        assert(s.drop_first() =~= le_bytes(q, (w - 1) as nat));
        assert(x % 256 + 256 * q == x) by (nonlinear_arith)
            requires
                q == x / 256,
        ;
    }
}

proof fn lemma_pow256_facts()
    ensures
        pow256(2) == 0x1_0000,
        pow256(8) == 0x1_0000_0000_0000_0000,
        pow256(16) == 0x1_0000_0000_0000_0000_0000_0000_0000_0000,
{
    reveal_with_fuel(pow256, 17);
}

proof fn lemma_endpoint_injective(a: Endpoint, b: Endpoint)
    requires
        endpoint_bytes(a) == endpoint_bytes(b),
    ensures
        a == b,
        endpoint_bytes(a).len() == 19,
{
    lemma_pow256_facts();
    lemma_le_round_trip(a.ip as nat, 16);
    lemma_le_round_trip(b.ip as nat, 16);
    lemma_le_round_trip(a.port as nat, 2);
    lemma_le_round_trip(b.port as nat, 2);
    let ea = endpoint_bytes(a);
    let eb = endpoint_bytes(b);
    assert(ea[0] == eb[0]);
    assert(ea.subrange(1, 17) =~= le_bytes(a.ip as nat, 16));
    assert(eb.subrange(1, 17) =~= le_bytes(b.ip as nat, 16));
    assert(ea.subrange(17, 19) =~= le_bytes(a.port as nat, 2));
    assert(eb.subrange(17, 19) =~= le_bytes(b.port as nat, 2));
}

proof fn lemma_endpoints_len(s: Seq<Endpoint>)
    ensures
        endpoints_bytes(s).len() == 19 * s.len(),
    decreases s.len(),
{
    if s.len() > 0 {
        lemma_endpoint_injective(s[0], s[0]);
        lemma_endpoints_len(s.drop_first());
    }
}

proof fn lemma_endpoints_injective(s: Seq<Endpoint>, t: Seq<Endpoint>)
    requires
        s.len() == t.len(),
        endpoints_bytes(s) == endpoints_bytes(t),
    ensures
        s == t,
    decreases s.len(),
{
    if s.len() > 0 {
        lemma_endpoint_injective(s[0], s[0]);
        lemma_endpoint_injective(t[0], t[0]);
        let bs = endpoints_bytes(s);
        assert(bs.subrange(0, 19) =~= endpoint_bytes(s[0]));
        assert(bs.subrange(0, 19) =~= endpoint_bytes(t[0]));
        lemma_endpoint_injective(s[0], t[0]);
        assert(bs.subrange(19, bs.len() as int) =~= endpoints_bytes(s.drop_first()));
        assert(bs.subrange(19, bs.len() as int) =~= endpoints_bytes(t.drop_first()));
        lemma_endpoints_injective(s.drop_first(), t.drop_first());
        assert(s =~= seq![s[0]] + s.drop_first());
        assert(t =~= seq![t[0]] + t.drop_first());
    } else {
        assert(s =~= t);
    }
}

/// The encoding is prefix-free: bytes start with the encoding of at most one
/// message, so decoding has exactly one answer.
pub proof fn lemma_prefix_free(b: Seq<u8>, x: MessageView, y: MessageView)
    requires
        fits(x),
        fits(y),
        holds_record(b, x),
        holds_record(b, y),
    ensures
        x == y,
{
    lemma_pow256_facts();
    lemma_le_round_trip(x.sender as nat, 8);
    lemma_le_round_trip(y.sender as nat, 8);
    lemma_le_round_trip(x.addresses.len(), 8);
    lemma_le_round_trip(y.addresses.len(), 8);
    lemma_le_round_trip(x.message.len(), 8);
    lemma_le_round_trip(y.message.len(), 8);
    lemma_endpoints_len(x.addresses);
    lemma_endpoints_len(y.addresses);
    let rx = record_bytes(x);
    let ry = record_bytes(y);
    assert(rx.subrange(0, 8) =~= b.subrange(0, 8));
    assert(ry.subrange(0, 8) =~= b.subrange(0, 8));
    assert(rx.subrange(0, 8) =~= le_bytes(x.sender as nat, 8));
    assert(ry.subrange(0, 8) =~= le_bytes(y.sender as nat, 8));
    assert(x.sender == y.sender);
    assert(rx.subrange(8, 16) =~= b.subrange(8, 16));
    assert(ry.subrange(8, 16) =~= b.subrange(8, 16));
    assert(rx.subrange(8, 16) =~= le_bytes(x.addresses.len(), 8));
    assert(ry.subrange(8, 16) =~= le_bytes(y.addresses.len(), 8));
    let n = x.addresses.len();
    assert(n == y.addresses.len());
    let e: int = 16 + 19 * (n as int);
    assert(rx.subrange(16, e) =~= b.subrange(16, e));
    assert(ry.subrange(16, e) =~= b.subrange(16, e));
    assert(rx.subrange(16, e) =~= endpoints_bytes(x.addresses));
    assert(ry.subrange(16, e) =~= endpoints_bytes(y.addresses));
    lemma_endpoints_injective(x.addresses, y.addresses);
    assert(rx.subrange(e, e + 8) =~= b.subrange(e, e + 8));
    assert(ry.subrange(e, e + 8) =~= b.subrange(e, e + 8));
    assert(rx.subrange(e, e + 8) =~= le_bytes(x.message.len(), 8));
    assert(ry.subrange(e, e + 8) =~= le_bytes(y.message.len(), 8));
    let k: int = x.message.len() as int;
    assert(k == y.message.len());
    assert(rx.subrange(e + 8, e + 8 + k) =~= b.subrange(e + 8, e + 8 + k));
    assert(ry.subrange(e + 8, e + 8 + k) =~= b.subrange(e + 8, e + 8 + k));
    assert(rx.subrange(e + 8, e + 8 + k) =~= x.message);
    assert(ry.subrange(e + 8, e + 8 + k) =~= y.message);
}

/// Why a received payload could not be turned into a message.
#[derive(Clone, Copy, PartialEq, Eq, Structural, Debug)]
pub enum DecodeError {
    /// The bytes do not start with the encoding of any message.
    Malformed,
    /// The message names an IPv4 address wider than 32 bits.
    BadEndpoint,
}

/// Relies on bincode::serialize with its default options: integers in fixed width,
/// little endian; a `bool` as one byte; a tuple as its items in order; a `Vec` as its
/// length in a `u64`, then its items. No error can arise for these types.
#[verifier::external_body]
fn bincode_serialize(m: &NetworkMessage) -> (r: Option<Vec<u8>>)
    ensures
        r is Some,
        r->0@ == record_bytes(m@),
{
    let addresses: Vec<(bool, u128, u16)> = m.addresses.iter().map(|e| (e.v6, e.ip, e.port)).collect();
    bincode::serialize(&(m.sender, addresses, &m.message)).ok()
}

/// Relies on bincode::deserialize with its default options, which reads the format
/// that `bincode_serialize` writes and accepts trailing bytes: it succeeds exactly
/// when the bytes start with the encoding of some message, and returns that message.
/// Lengths are read as `u64`, so only messages whose lengths fit are meant.
#[verifier::external_body]
fn bincode_deserialize(bytes: &Vec<u8>) -> (r: Option<NetworkMessage>)
    ensures
        r is Some ==> holds_record(bytes@, r->0@) && fits(r->0@),
        forall|x: MessageView| #[trigger] holds_record(bytes@, x) && fits(x) ==> (r is Some && r->0@ == x),
{
    match bincode::deserialize::<(u64, Vec<(bool, u128, u16)>, Vec<u8>)>(bytes) {
        Ok((sender, addresses, message)) => Some(NetworkMessage {
            sender,
            addresses: addresses.into_iter().map(|(v6, ip, port)| Endpoint { v6, ip, port }).collect(),
            message,
        }),
        Err(_) => None,
    }
}

/// Encodes a message into the bytes that a frame carries.
pub fn encode_message(m: &NetworkMessage) -> (r: Vec<u8>)
    ensures
        r@ == record_bytes(m@),
{
    match bincode_serialize(m) {
        Some(b) => b,
        None => Vec::new(),
    }
}

fn all_endpoints_wf(s: &Vec<Endpoint>) -> (r: bool)
    ensures
        r == endpoints_wf(s@),
{
    let mut i: usize = 0;
    while i < s.len()
        invariant
            i <= s@.len(),
            forall|j: int| 0 <= j < i ==> (#[trigger] s@[j]).wf(),
        decreases s@.len() - i,
    {
        if s[i].v6 == false && s[i].ip >= 0x1_0000_0000 {
            return false;
        }
        i = i + 1;
    }
    true
}

/// What decoding `bytes` may give: a well-formed message whose encoding the bytes
/// start with; `BadEndpoint` when that message names an IPv4 address wider than
/// 32 bits; `Malformed` when the bytes start with no message's encoding. (Only a
/// message whose lengths fit in a `u64` has an encoding.)
pub open spec fn decodes(bytes: Seq<u8>, r: Result<NetworkMessage, DecodeError>) -> bool {
    &&& r is Ok ==> holds_record(bytes, r->Ok_0@) && fits(r->Ok_0@) && r->Ok_0.wf()
    &&& forall|x: MessageView| #[trigger] holds_record(bytes, x) && fits(x) ==> {
        &&& endpoints_wf(x.addresses) ==> (r is Ok && r->Ok_0@ == x)
        &&& !endpoints_wf(x.addresses) ==> r == Err::<NetworkMessage, DecodeError>(DecodeError::BadEndpoint)
    }
    &&& (forall|x: MessageView| !#[trigger] holds_record(bytes, x) || !fits(x)) ==> r == Err::<NetworkMessage, DecodeError>(DecodeError::Malformed)
}

/// Decoding the encoding of a message with well-formed endpoints gives that message
/// back: its sender, its destinations in order, and its payload, of any length.
pub proof fn lemma_round_trip(m: MessageView, r: Result<NetworkMessage, DecodeError>)
    requires
        fits(m),
        endpoints_wf(m.addresses),
        decodes(record_bytes(m), r),
    ensures
        r is Ok,
        r->Ok_0@ == m,
{
    assert(record_bytes(m).subrange(0, record_bytes(m).len() as int) =~= record_bytes(m));
    assert(holds_record(record_bytes(m), m));
}

/// Decodes the bytes that a frame carried. Fails, without panicking, on bytes that
/// do not start with a message's encoding, and on an IPv4 address wider than 32 bits.
pub fn decode_message(bytes: &Vec<u8>) -> (r: Result<NetworkMessage, DecodeError>)
    ensures
        decodes(bytes@, r),
{
    match bincode_deserialize(bytes) {
        Some(m) => {
            if all_endpoints_wf(&m.addresses) {
                Ok(m)
            } else {
                Err(DecodeError::BadEndpoint)
            }
        },
        None => Err(DecodeError::Malformed),
    }
}

} // verus!
