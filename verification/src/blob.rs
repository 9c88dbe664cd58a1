//! The packed form of a set of model ids: four bytes for each id, least
//! significant first, the ids in ascending order.

use std::collections::BTreeSet;
use vstd::prelude::*;
use crate::ids::{ids_in_order, in_order};

verus! {

/// The four low bytes of `id`, least significant first.
pub open spec fn le_bytes(id: usize) -> Seq<u8> {
    seq![
        (id % 256) as u8,
        (id / 256 % 256) as u8,
        (id / 65536 % 256) as u8,
        (id / 16777216 % 256) as u8,
    ]
}

/// The bytes of a list of ids: the [`le_bytes`] of each, one after the
/// other.
pub open spec fn blob_of(ids: Seq<usize>) -> Seq<u8>
    decreases ids.len(),
{
    if ids.len() == 0 {
        Seq::empty()
    } else {
        blob_of(ids.drop_last()) + le_bytes(ids.last())
    }
}

/// The number that four bytes stand for, least significant first.
pub open spec fn le_value(bytes: Seq<u8>) -> int {
    bytes[0] + 256 * bytes[1] + 65536 * bytes[2] + 16777216 * bytes[3]
}

/// The ids that a blob holds: one for each group of four bytes.
pub open spec fn ids_of(blob: Seq<u8>) -> Seq<int>
    decreases blob.len(),
{
    if blob.len() < 4 {
        Seq::empty()
    } else {
        ids_of(blob.take(blob.len() - 4)).push(le_value(blob.skip(blob.len() - 4)))
    }
}

/// A blob has four bytes for each id.
pub proof fn lemma_blob_len(ids: Seq<usize>)
    ensures
        blob_of(ids).len() == 4 * ids.len(),
    decreases ids.len(),
{
    if ids.len() > 0 {
        lemma_blob_len(ids.drop_last());
    }
}

/// Reading a blob gives back the ids it was made of, as long as each fits
/// in four bytes.
pub proof fn lemma_blob_round_trip(ids: Seq<usize>)
    requires
        forall|i: int| 0 <= i < ids.len() ==> ids[i] < 0x1_0000_0000,
    ensures
        ids_of(blob_of(ids)) == Seq::new(ids.len(), |i: int| ids[i] as int),
    decreases ids.len(),
{
    if ids.len() == 0 {
        assert(ids_of(blob_of(ids)) =~= Seq::new(ids.len(), |i: int| ids[i] as int));
    } else {
        let head = ids.drop_last();
        let id = ids.last();
        let blob = blob_of(ids);
        lemma_blob_len(head);
        lemma_blob_round_trip(head);
        assert(blob.take(blob.len() - 4) =~= blob_of(head));
        assert(blob.skip(blob.len() - 4) =~= le_bytes(id));
        assert(le_value(le_bytes(id)) == id);
        assert(ids_of(blob) =~= Seq::new(ids.len(), |i: int| ids[i] as int));
    }
}

fn push_le_bytes(out: &mut Vec<u8>, id: usize)
    ensures
        final(out)@ == old(out)@ + le_bytes(id),
{
    let x: u64 = id as u64;
    assert(x & 255 == x % 256) by (bit_vector);
    assert((x >> 8) & 255 == x / 256 % 256) by (bit_vector);
    assert((x >> 16) & 255 == x / 65536 % 256) by (bit_vector);
    assert((x >> 24) & 255 == x / 16777216 % 256) by (bit_vector);
    out.push((x & 255) as u8);
    out.push(((x >> 8) & 255) as u8);
    out.push(((x >> 16) & 255) as u8);
    out.push(((x >> 24) & 255) as u8);
    assert(out@ =~= old(out)@ + le_bytes(id));
}

/// Packs a set of model ids: the ids in ascending order, four bytes each,
/// least significant first.
pub fn to_blob(indices: &BTreeSet<usize>) -> (out: Vec<u8>)
    ensures
        out@ == blob_of(in_order(indices@)),
{
    let ids = ids_in_order(indices);
    let mut out: Vec<u8> = Vec::new();
    let mut i: usize = 0;
    assert(ids@.take(0) =~= Seq::<usize>::empty());
    while i < ids.len()
        invariant
            i <= ids.len(),
            out@ == blob_of(ids@.take(i as int)),
        decreases ids.len() - i,
    {
        push_le_bytes(&mut out, ids[i]);
        proof {
            assert(ids@.take(i as int + 1).drop_last() =~= ids@.take(i as int));
        }
        i += 1;
    }
    assert(ids@.take(i as int) =~= ids@);
    out
}

} // verus!
