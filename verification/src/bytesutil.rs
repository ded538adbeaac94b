//! Little-endian length framing and byte-buffer concatenation.

use vstd::prelude::*;

verus! {

/// The four little-endian bytes of a 32-bit value.
pub open spec fn u32_le_bytes(n: u32) -> Seq<u8> {
    seq![
        (n % 0x100) as u8,
        ((n / 0x100) % 0x100) as u8,
        ((n / 0x10000) % 0x100) as u8,
        ((n / 0x1000000) % 0x100) as u8,
    ]
}

pub fn u32_to_le(n: u32) -> (r: Vec<u8>)
    ensures
        r@ == u32_le_bytes(n),
{
    let mut v: Vec<u8> = Vec::new();
    v.push((n % 0x100) as u8);
    v.push(((n / 0x100) % 0x100) as u8);
    v.push(((n / 0x10000) % 0x100) as u8);
    v.push(((n / 0x1000000) % 0x100) as u8);
    proof {
        assert(v@ =~= u32_le_bytes(n));
    }
    v
}

/// The views of the byte vectors in a sequence.
pub open spec fn views(v: Seq<Vec<u8>>) -> Seq<Seq<u8>> {
    v.map_values(|x: Vec<u8>| x@)
}

/// A buffer framed by its own byte count, as the self-describing
/// variable-length-array convention expects.
pub open spec fn length_prefixed(b: Seq<u8>) -> Seq<u8>
    recommends
        b.len() <= u32::MAX,
{
    u32_le_bytes(b.len() as u32) + b
}

pub fn prepend_length(buf: Vec<u8>) -> (r: Vec<u8>)
    requires
        buf@.len() <= u32::MAX,
    ensures
        r@ == length_prefixed(buf@),
{
    let mut r = u32_to_le(buf.len() as u32);
    let mut tail = buf;
    r.append(&mut tail);
    r
}

/// Every buffer in order, each followed by the terminator.
pub open spec fn concat_terminated(items: Seq<Seq<u8>>, term: Seq<u8>) -> Seq<u8>
    decreases items.len(),
{
    if items.len() == 0 {
        Seq::empty()
    } else {
        concat_terminated(items.drop_last(), term) + items.last() + term
    }
}

pub fn concat_all(items: &Vec<Vec<u8>>) -> (r: Vec<u8>)
    ensures
        r@ == concat_terminated(views(items@), Seq::<u8>::empty()),
{
    let mut r: Vec<u8> = Vec::new();
    let mut idx: usize = 0;
    while idx < items.len()
        invariant
            idx <= items@.len(),
            r@ == concat_terminated(views(items@).take(idx as int), Seq::<u8>::empty()),
        decreases items@.len() - idx,
    {
        r.extend_from_slice(items[idx].as_slice());
        proof {
            let vs = views(items@);
            assert(vs.take(idx + 1).drop_last() =~= vs.take(idx as int));
            assert(vs.take(idx + 1).last() == items@[idx as int]@);
            assert(r@ =~= concat_terminated(vs.take(idx + 1), Seq::<u8>::empty()));
        }
        idx += 1;
    }
    proof {
        assert(views(items@).take(items@.len() as int) =~= views(items@));
    }
    r
}

pub fn concat_nul_terminated(items: &Vec<Vec<u8>>) -> (r: Vec<u8>)
    ensures
        r@ == concat_terminated(views(items@), seq![0u8]),
{
    let mut r: Vec<u8> = Vec::new();
    let mut idx: usize = 0;
    while idx < items.len()
        invariant
            idx <= items@.len(),
            r@ == concat_terminated(views(items@).take(idx as int), seq![0u8]),
        decreases items@.len() - idx,
    {
        r.extend_from_slice(items[idx].as_slice());
        r.push(0u8);
        proof {
            let vs = views(items@);
            assert(vs.take(idx + 1).drop_last() =~= vs.take(idx as int));
            assert(vs.take(idx + 1).last() == items@[idx as int]@);
            assert(r@ =~= concat_terminated(vs.take(idx + 1), seq![0u8]));
        }
        idx += 1;
    }
    proof {
        assert(views(items@).take(items@.len() as int) =~= views(items@));
    }
    r
}

} // verus!
