//! The stored form of a balance: eight bytes, most significant first.
use vstd::prelude::*;

verus! {

/// The integer that eight bytes spell, most significant first.
pub open spec fn decode_u64(b: Seq<u8>) -> u64 {
    ((b[0] as u64) << 56u64) | ((b[1] as u64) << 48u64) | ((b[2] as u64) << 40u64) | ((b[3] as u64) << 32u64)
        | ((b[4] as u64) << 24u64) | ((b[5] as u64) << 16u64) | ((b[6] as u64) << 8u64) | (b[7] as u64)
}

/// The eight bytes of an integer, most significant first.
pub open spec fn encode_u64(v: u64) -> Seq<u8> {
    seq![
        (v >> 56u64) as u8,
        (v >> 48u64) as u8,
        (v >> 40u64) as u8,
        (v >> 32u64) as u8,
        (v >> 24u64) as u8,
        (v >> 16u64) as u8,
        (v >> 8u64) as u8,
        v as u8,
    ]
}

/// Decoding the encoding of an integer gives the integer back.
pub proof fn lemma_decode_encode(v: u64)
    ensures
        encode_u64(v).len() == 8,
        decode_u64(encode_u64(v)) == v,
{
    let b = encode_u64(v);
    assert(b[0] == (v >> 56u64) as u8 && b[1] == (v >> 48u64) as u8 && b[2] == (v >> 40u64) as u8
        && b[3] == (v >> 32u64) as u8 && b[4] == (v >> 24u64) as u8 && b[5] == (v >> 16u64) as u8
        && b[6] == (v >> 8u64) as u8 && b[7] == v as u8);
    assert(((((v >> 56u64) as u8) as u64) << 56u64) | ((((v >> 48u64) as u8) as u64) << 48u64)
        | ((((v >> 40u64) as u8) as u64) << 40u64) | ((((v >> 32u64) as u8) as u64) << 32u64)
        | ((((v >> 24u64) as u8) as u64) << 24u64) | ((((v >> 16u64) as u8) as u64) << 16u64)
        | ((((v >> 8u64) as u8) as u64) << 8u64) | ((v as u8) as u64) == v) by (bit_vector);
}

/// The balances that a map of stored forms holds.
pub open spec fn decode_balances(raw: Map<Seq<u8>, Seq<u8>>) -> Map<Seq<u8>, u64> {
    Map::new(|k: Seq<u8>| raw.contains_key(k), |k: Seq<u8>| decode_u64(raw[k]))
}

/// Every stored form in the map is eight bytes long.
pub open spec fn well_stored(raw: Map<Seq<u8>, Seq<u8>>) -> bool {
    forall|k: Seq<u8>| #[trigger] raw.contains_key(k) ==> raw[k].len() == 8
}

/// Decoding commutes with storing, removing, and keeps the domain.
pub proof fn lemma_decode_balances(raw: Map<Seq<u8>, Seq<u8>>, k: Seq<u8>, v: u64)
    ensures
        decode_balances(raw).dom() == raw.dom(),
        decode_balances(raw.insert(k, encode_u64(v))) == decode_balances(raw).insert(k, v),
        decode_balances(raw.remove(k)) == decode_balances(raw).remove(k),
        well_stored(raw) ==> well_stored(raw.insert(k, encode_u64(v))) && well_stored(raw.remove(k)),
{
    lemma_decode_encode(v);
    assert(decode_balances(raw).dom() =~= raw.dom());
    assert(decode_balances(raw.insert(k, encode_u64(v))) =~= decode_balances(raw).insert(k, v));
    assert(decode_balances(raw.remove(k)) =~= decode_balances(raw).remove(k));
}

/// The stored form of `v`.
pub fn encode(v: u64) -> (r: Vec<u8>)
    ensures
        r@ == encode_u64(v),
{
    let mut r: Vec<u8> = Vec::new();
    r.push((v >> 56u64) as u8);
    r.push((v >> 48u64) as u8);
    r.push((v >> 40u64) as u8);
    r.push((v >> 32u64) as u8);
    r.push((v >> 24u64) as u8);
    r.push((v >> 16u64) as u8);
    r.push((v >> 8u64) as u8);
    r.push(v as u8);
    assert(r@ =~= encode_u64(v));
    r
}

/// The integer that a stored form of eight bytes spells.
pub fn decode(b: &Vec<u8>) -> (r: u64)
    requires
        b@.len() == 8,
    ensures
        r == decode_u64(b@),
{
    ((b[0] as u64) << 56u64) | ((b[1] as u64) << 48u64) | ((b[2] as u64) << 40u64) | ((b[3] as u64) << 32u64)
        | ((b[4] as u64) << 24u64) | ((b[5] as u64) << 16u64) | ((b[6] as u64) << 8u64) | (b[7] as u64)
}

} // verus!
