//! Bodies of confirmation datagrams: the confirmed package IDs, three
//! big-endian bytes each.
use crate::header::{id_from_bytes, id_to_bytes, PackageId, MAX_ID};
use vstd::prelude::*;

verus! {

/// The bytes of a confirmation body listing `ids`.
pub open spec fn ids_to_bytes(ids: Seq<PackageId>) -> Seq<u8>
    decreases ids.len(),
{
    if ids.len() == 0 {
        Seq::empty()
    } else {
        ids_to_bytes(ids.drop_last()) + id_to_bytes(ids.last()@)
    }
}

/// Encodes the confirmed IDs of a confirmation body.
pub fn encode_confirmed(ids: &Vec<PackageId>) -> (r: Vec<u8>)
    ensures
        r@ == ids_to_bytes(ids@),
{
    let mut r: Vec<u8> = Vec::new();
    let mut i: usize = 0;
    while i < ids.len()
        invariant
            i <= ids@.len(),
            r@ == ids_to_bytes(ids@.subrange(0, i as int)),
        decreases ids@.len() - i,
    {
        let bytes = ids[i].to_bytes();
        proof {
            let prefix = ids@.subrange(0, i + 1);
            assert(prefix.drop_last() =~= ids@.subrange(0, i as int));
        }
        r.push(bytes[0]);
        r.push(bytes[1]);
        r.push(bytes[2]);
        assert(r@ =~= ids_to_bytes(ids@.subrange(0, i + 1)));
        i += 1;
    }
    assert(ids@.subrange(0, i as int) =~= ids@);
    r
}

/// Decodes the confirmed IDs of a confirmation body: `None` unless its
/// length is a multiple of three.
pub fn decode_confirmed(data: &[u8]) -> (r: Option<Vec<PackageId>>)
    ensures
        r is Some <==> data@.len() % 3 == 0,
        r matches Some(ids) ==> ids_to_bytes(ids@) == data@,
{
    if data.len() % 3 != 0 {
        return None;
    }
    let mut ids: Vec<PackageId> = Vec::new();
    let mut i: usize = 0;
    while i < data.len() / 3
        invariant
            data@.len() % 3 == 0,
            i <= data@.len() / 3,
            ids@.len() == i,
            ids_to_bytes(ids@) == data@.subrange(0, 3 * i),
        decreases data@.len() / 3 - i,
    {
        let chunk = vstd::slice::slice_subrange(data, 3 * i, 3 * i + 3);
        let id = PackageId::from_bytes(chunk);
        proof {
            lemma_id_round_trip(chunk@);
            assert(ids@.push(id).drop_last() =~= ids@);
            assert(data@.subrange(0, 3 * i + 3) =~= data@.subrange(0, 3 * i) + chunk@);
        }
        ids.push(id);
        i += 1;
    }
    assert(data@.subrange(0, 3 * i) =~= data@);
    Some(ids)
}

proof fn lemma_bytes_id(a: u32, b: u32, c: u32, v: u32)
    by (bit_vector)
    requires
        a < 0x100u32,
        b < 0x100u32,
        c < 0x100u32,
        v == a * 0x10000u32 + b * 0x100u32 + c,
    ensures
        v / 0x10000u32 % 0x100u32 == a,
        v / 0x100u32 % 0x100u32 == b,
        v % 0x100u32 == c,
        v <= 0xffffffu32,
{
}

proof fn lemma_id_round_trip(b: Seq<u8>)
    requires
        b.len() == 3,
    ensures
        id_to_bytes(id_from_bytes(b)) == b,
        id_from_bytes(b) <= MAX_ID,
{
    lemma_bytes_id(b[0] as u32, b[1] as u32, b[2] as u32, id_from_bytes(b) as u32);
    assert(id_to_bytes(id_from_bytes(b)) =~= b);
}

} // verus!
