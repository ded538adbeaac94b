//! A fixed-size bloom filter with a deterministic double-hashing scheme.

use vstd::prelude::*;
use crate::hashing::{blake2b, blake2b_of};

verus! {

/// The value of eight digest bytes read little-endian at an offset.
pub open spec fn le64_at(s: Seq<u8>, off: int) -> int
    recommends
        0 <= off,
        off + 8 <= s.len(),
{
    s[off] + s[off + 1] * 0x100 + s[off + 2] * 0x10000 + s[off + 3] * 0x1000000 + s[off + 4]
        * 0x100000000 + s[off + 5] * 0x10000000000 + s[off + 6] * 0x1000000000000 + s[off + 7]
        * 0x100000000000000
}

/// The first hash of an item: the low half of its digest.
pub open spec fn h1_of(item: Seq<u8>) -> int {
    le64_at(blake2b_of(item), 0)
}

/// The second hash of an item: the high half of its digest.
pub open spec fn h2_of(item: Seq<u8>) -> int {
    le64_at(blake2b_of(item), 8)
}

/// The bit position of probe `i` for an item in an `m`-bit filter.
pub open spec fn probe_pos(item: Seq<u8>, i: int, m: int) -> int
    recommends
        m > 0,
{
    (h1_of(item) + i * h2_of(item)) % m
}

/// Whether any of the `k` probes of an item lands on bit `j`.
pub open spec fn probes_hit(item: Seq<u8>, j: int, k: int, m: int) -> bool {
    exists|i: int| 0 <= i < k && probe_pos(item, i, m) == j
}

/// The bit vector after inserting an item: every probed bit set, the rest kept.
pub open spec fn insert_spec(bits: Seq<bool>, item: Seq<u8>, k: int, m: int) -> Seq<bool> {
    Seq::new(bits.len(), |j: int| bits[j] || probes_hit(item, j, k, m))
}

/// Bit `j` of a byte, counting from the least significant bit.
pub open spec fn bit_of_byte(b: u8, j: u8) -> bool
    recommends
        j < 8,
{
    ((b >> j) & 1) == 1
}

/// Bit `i` of a packed bit vector, least-significant-bit first in each byte.
pub open spec fn exported_bit(data: Seq<u8>, i: int) -> bool
    recommends
        0 <= i < 8 * data.len(),
{
    bit_of_byte(data[i / 8], (i % 8) as u8)
}

proof fn lemma_bit_or(a: u8, j: u8, l: u8)
    by (bit_vector)
    requires
        j < 8,
        l < 8,
    ensures
        (((a | (1u8 << j)) >> l) & 1 == 1) == ((((a >> l) & 1) == 1) || l == j),
{
}

proof fn lemma_bit_zero(l: u8)
    by (bit_vector)
    requires
        l < 8,
    ensures
        ((0u8 >> l) & 1) != 1,
{
}

fn le64_exec(d: &Vec<u8>, off: usize) -> (r: u64)
    requires
        off + 8 <= d@.len(),
    ensures
        r as int == le64_at(d@, off as int),
{
    let _len = d.len();
    let b0 = d[off] as u64;
    let b1 = d[off + 1] as u64;
    let b2 = d[off + 2] as u64;
    let b3 = d[off + 3] as u64;
    let b4 = d[off + 4] as u64;
    let b5 = d[off + 5] as u64;
    let b6 = d[off + 6] as u64;
    let b7 = d[off + 7] as u64;
    b0 + b1 * 0x100 + b2 * 0x10000 + b3 * 0x1000000 + b4 * 0x100000000 + b5 * 0x10000000000 + b6
        * 0x1000000000000 + b7 * 0x100000000000000
}

fn probe_index(h1: u64, h2: u64, i: usize, m: usize) -> (r: usize)
    requires
        m > 0,
    ensures
        r as int == (h1 + i * h2) % (m as int),
        r < m,
{
    proof {
        let ii = i as int;
        let hh = h2 as int;
        assert(ii * hh <= 0xFFFFFFFFFFFFFFFF * 0xFFFFFFFFFFFFFFFF) by (nonlinear_arith)
            requires
                0 <= ii <= 0xFFFFFFFFFFFFFFFF,
                0 <= hh <= 0xFFFFFFFFFFFFFFFF,
        ;
    }
    let pos: u128 = ((h1 as u128) + (i as u128) * (h2 as u128)) % (m as u128);
    pos as usize
}

/// A fixed-size bit vector that approximates membership of the items
/// inserted into it; bits are only ever set, never cleared.
pub struct BloomFilter {
    bits: Vec<bool>,
    probes: usize,
}

impl BloomFilter {
    /// The bit vector.
    pub closed spec fn spec_bits(&self) -> Seq<bool> {
        self.bits@
    }

    /// The number of probes per item.
    pub closed spec fn spec_probes(&self) -> int {
        self.probes as int
    }

    /// The bit length of the filter.
    pub open spec fn spec_size(&self) -> int {
        self.spec_bits().len() as int
    }

    pub open spec fn wf(&self) -> bool {
        self.spec_size() > 0 && self.spec_probes() > 0
    }

    /// A filter of `m` bits, all clear, probing `k` positions per item.
    pub fn new(m: usize, k: usize) -> (r: BloomFilter)
        requires
            m > 0,
            k > 0,
        ensures
            r.wf(),
            r.spec_size() == m,
            r.spec_probes() == k,
            forall|j: int| 0 <= j < m ==> !r.spec_bits()[j],
    {
        let mut bits: Vec<bool> = Vec::new();
        let mut i: usize = 0;
        while i < m
            invariant
                i <= m,
                bits@.len() == i,
                forall|j: int| 0 <= j < i ==> !bits@[j],
            decreases m - i,
        {
            bits.push(false);
            i += 1;
        }
        BloomFilter { bits, probes: k }
    }

    /// Set the `k` probed bits of an item, leaving every other bit as it was.
    pub fn insert(&mut self, item: &Vec<u8>)
        requires
            old(self).wf(),
        ensures
            final(self).wf(),
            final(self).spec_size() == old(self).spec_size(),
            final(self).spec_probes() == old(self).spec_probes(),
            final(self).spec_bits() == insert_spec(
                old(self).spec_bits(),
                item@,
                old(self).spec_probes(),
                old(self).spec_size(),
            ),
    {
        let ghost orig = self.bits@;
        let digest = blake2b(item);
        let h1 = le64_exec(&digest, 0);
        let h2 = le64_exec(&digest, 8);
        proof {
            assert(h1 as int == h1_of(item@));
            assert(h2 as int == h2_of(item@));
        }
        let m = self.bits.len();
        let k = self.probes;
        let mut i: usize = 0;
        while i < k
            invariant
                i <= k,
                m == orig.len(),
                m > 0,
                self.probes == k,
                self.bits@.len() == m,
                h1 as int == h1_of(item@),
                h2 as int == h2_of(item@),
                self.bits@ == insert_spec(orig, item@, i as int, m as int),
            decreases k - i,
        {
            let pos = probe_index(h1, h2, i, m);
            proof {
                assert(pos as int == probe_pos(item@, i as int, m as int));
            }
            let ghost prev = self.bits@;
            self.bits[pos] = true;
            proof {
                assert(self.bits@ == prev.update(pos as int, true));
                assert forall|j: int| 0 <= j < m implies self.bits@[j] == insert_spec(
                    orig,
                    item@,
                    i + 1,
                    m as int,
                )[j] by {
                    assert(prev[j] == (orig[j] || probes_hit(item@, j, i as int, m as int)));
                    if j == pos as int {
                        assert(0 <= (i as int) && (i as int) < i + 1 && probe_pos(
                            item@,
                            i as int,
                            m as int,
                        ) == j);
                        assert(probes_hit(item@, j, i + 1, m as int));
                        assert(self.bits@[j]);
                    } else {
                        assert(self.bits@[j] == prev[j]);
                        if probes_hit(item@, j, i + 1, m as int) {
                            let t = choose|t: int|
                                0 <= t < i + 1 && probe_pos(item@, t, m as int) == j;
                            assert(t != i as int);
                            assert(0 <= t < i && probe_pos(item@, t, m as int) == j);
                            assert(probes_hit(item@, j, i as int, m as int));
                        }
                        if probes_hit(item@, j, i as int, m as int) {
                            let t = choose|t: int|
                                0 <= t < i && probe_pos(item@, t, m as int) == j;
                            assert(0 <= t < i + 1 && probe_pos(item@, t, m as int) == j);
                            assert(probes_hit(item@, j, i + 1, m as int));
                        }
                    }
                }
                assert(self.bits@ =~= insert_spec(orig, item@, i + 1, m as int));
            }
            i += 1;
        }
    }

    /// Pack the bit vector into bytes, least-significant-bit first; bits past
    /// the filter's length stay clear.
    pub fn export_bit_u8(&self) -> (r: Vec<u8>)
        requires
            self.wf(),
            self.spec_size() + 8 <= usize::MAX,
        ensures
            r@.len() == (self.spec_size() + 7) / 8,
            forall|i: int| 0 <= i < self.spec_size() ==> exported_bit(r@, i) == self.spec_bits()[i],
            forall|i: int| self.spec_size() <= i < 8 * r@.len() ==> !exported_bit(r@, i),
    {
        let m = self.bits.len();
        let mut out: Vec<u8> = Vec::new();
        let mut i: usize = 0;
        while i < m
            invariant
                m == self.bits@.len(),
                m + 8 <= usize::MAX,
                i % 8 == 0,
                i <= m + 7,
                out@.len() * 8 == i,
                forall|t: int| 0 <= t < i && t < m ==> exported_bit(out@, t) == self.bits@[t],
                forall|t: int| m <= t < i ==> !exported_bit(out@, t),
            decreases m + 8 - i,
        {
            let mut byte: u8 = 0;
            let mut j: usize = 0;
            proof {
                assert forall|l: int| 0 <= l < 8 implies !(#[trigger] bit_of_byte(
                    byte,
                    l as u8,
                )) by {
                    lemma_bit_zero(l as u8);
                }
            }
            while j < 8
                invariant
                    j <= 8,
                    i < m,
                    m == self.bits@.len(),
                    m + 8 <= usize::MAX,
                    forall|l: int|
                        0 <= l < 8 ==> #[trigger] bit_of_byte(byte, l as u8) == (l < j && i + l < m
                            && self.bits@[i + l]),
                decreases 8 - j,
            {
                let ghost oldbyte = byte;
                if j < m - i && self.bits[i + j] {
                    let one: u8 = 1u8 << (j as u8);
                    byte = byte | one;
                    proof {
                        assert forall|l: int|
                            0 <= l < 8 implies #[trigger] bit_of_byte(byte, l as u8) == (l < j + 1
                            && i + l < m && self.bits@[i + l]) by {
                            assert(bit_of_byte(oldbyte, l as u8) == (l < j && i + l < m
                                && self.bits@[i + l]));
                            assert(byte == (oldbyte | (1u8 << (j as u8))));
                            lemma_bit_or(oldbyte, j as u8, l as u8);
                        }
                    }
                } else {
                    proof {
                        assert forall|l: int|
                            0 <= l < 8 implies #[trigger] bit_of_byte(byte, l as u8) == (l < j + 1
                            && i + l < m && self.bits@[i + l]) by {
                            assert(bit_of_byte(byte, l as u8) == (l < j && i + l < m
                                && self.bits@[i + l]));
                        }
                    }
                }
                j += 1;
            }
            let ghost oldout = out@;
            out.push(byte);
            proof {
                assert forall|t: int| 0 <= t < i + 8 && t < m implies exported_bit(out@, t)
                    == self.bits@[t] by {
                    if t < i {
                        assert(out@[t / 8] == oldout[t / 8]);
                        assert(exported_bit(out@, t) == exported_bit(oldout, t));
                    } else {
                        assert(t / 8 == out@.len() - 1);
                        assert(out@[t / 8] == byte);
                        assert(t % 8 == t - i);
                        assert(bit_of_byte(byte, (t - i) as u8) == self.bits@[t]);
                    }
                }
                assert forall|t: int| m <= t < i + 8 implies !exported_bit(out@, t) by {
                    if t < i {
                        assert(out@[t / 8] == oldout[t / 8]);
                        assert(exported_bit(out@, t) == exported_bit(oldout, t));
                    } else {
                        assert(t / 8 == out@.len() - 1);
                        assert(out@[t / 8] == byte);
                        assert(t % 8 == t - i);
                    }
                }
            }
            i += 8;
        }
        proof {
            assert(out@.len() == (m + 7) / 8);
        }
        out
    }
}

/// Test an item against exported filter bytes with the same probe scheme.
pub fn contains_exported(data: &Vec<u8>, m: usize, k: usize, item: &Vec<u8>) -> (r: bool)
    requires
        m > 0,
        m <= 8 * data@.len(),
    ensures
        r == (forall|i: int| 0 <= i < k ==> exported_bit(data@, probe_pos(item@, i, m as int))),
{
    let digest = blake2b(item);
    let h1 = le64_exec(&digest, 0);
    let h2 = le64_exec(&digest, 8);
    proof {
        assert(h1 as int == h1_of(item@));
        assert(h2 as int == h2_of(item@));
    }
    let mut i: usize = 0;
    while i < k
        invariant
            m > 0,
            m <= 8 * data@.len(),
            h1 as int == h1_of(item@),
            h2 as int == h2_of(item@),
            i <= k,
            forall|t: int| 0 <= t < i ==> exported_bit(data@, probe_pos(item@, t, m as int)),
        decreases k - i,
    {
        let pos = probe_index(h1, h2, i, m);
        proof {
            assert(pos as int == probe_pos(item@, i as int, m as int));
            assert(pos / 8 < data@.len());
        }
        let byte = data[pos / 8];
        let bit = (byte >> ((pos % 8) as u8)) & 1;
        if bit != 1 {
            proof {
                assert(!exported_bit(data@, probe_pos(item@, i as int, m as int)));
            }
            return false;
        }
        i += 1;
    }
    true
}

/// Law: inserting an item leaves every one of its probed bits set.
pub proof fn lemma_insert_sets_probes(bits: Seq<bool>, item: Seq<u8>, k: int, m: int)
    requires
        m > 0,
        bits.len() == m,
    ensures
        forall|i: int|
            0 <= i < k ==> insert_spec(bits, item, k, m)[#[trigger] probe_pos(item, i, m)],
{
    assert forall|i: int|
        0 <= i < k implies insert_spec(bits, item, k, m)[#[trigger] probe_pos(item, i, m)] by {
        let j = probe_pos(item, i, m);
        assert(0 <= j < m);
        assert(probes_hit(item, j, k, m));
    }
}

/// Law: the filter never reports an inserted item absent — once every probed
/// bit of an item is set, a membership test on the exported bytes is positive.
pub proof fn lemma_no_false_negatives(
    bits: Seq<bool>,
    data: Seq<u8>,
    item: Seq<u8>,
    k: int,
    m: int,
)
    requires
        m > 0,
        bits.len() == m,
        forall|i: int| 0 <= i < k ==> bits[#[trigger] probe_pos(item, i, m)],
        forall|t: int| 0 <= t < m ==> exported_bit(data, t) == bits[t],
    ensures
        forall|i: int| 0 <= i < k ==> exported_bit(data, #[trigger] probe_pos(item, i, m)),
{
    assert forall|i: int|
        0 <= i < k implies exported_bit(data, #[trigger] probe_pos(item, i, m)) by {
        let j = probe_pos(item, i, m);
        assert(0 <= j < m);
    }
}

proof fn lemma_byte_from_bits(a: u8, b: u8)
    by (bit_vector)
    requires
        ((a >> 0u8) & 1) == ((b >> 0u8) & 1),
        ((a >> 1u8) & 1) == ((b >> 1u8) & 1),
        ((a >> 2u8) & 1) == ((b >> 2u8) & 1),
        ((a >> 3u8) & 1) == ((b >> 3u8) & 1),
        ((a >> 4u8) & 1) == ((b >> 4u8) & 1),
        ((a >> 5u8) & 1) == ((b >> 5u8) & 1),
        ((a >> 6u8) & 1) == ((b >> 6u8) & 1),
        ((a >> 7u8) & 1) == ((b >> 7u8) & 1),
    ensures
        a == b,
{
}

/// Law: the exported bytes are a function of the bit vector alone — any two
/// byte strings that pack the same bits the same way are identical.
pub proof fn lemma_export_deterministic(bits: Seq<bool>, d1: Seq<u8>, d2: Seq<u8>, m: int)
    requires
        bits.len() == m,
        d1.len() == (m + 7) / 8,
        d2.len() == d1.len(),
        forall|i: int| 0 <= i < m ==> exported_bit(d1, i) == bits[i],
        forall|i: int| m <= i < 8 * d1.len() ==> !exported_bit(d1, i),
        forall|i: int| 0 <= i < m ==> exported_bit(d2, i) == bits[i],
        forall|i: int| m <= i < 8 * d2.len() ==> !exported_bit(d2, i),
    ensures
        d1 == d2,
{
    assert forall|bi: int| 0 <= bi < d1.len() implies d1[bi] == d2[bi] by {
        let x1 = d1[bi];
        let x2 = d2[bi];
        assert forall|j: u8| j < 8 implies ((x1 >> j) & 1) == ((x2 >> j) & 1) by {
            let i = 8 * bi + j;
            assert(i / 8 == bi && i % 8 == j);
            assert(exported_bit(d1, i) == bit_of_byte(x1, j));
            assert(exported_bit(d2, i) == bit_of_byte(x2, j));
            assert(exported_bit(d1, i) == exported_bit(d2, i));
            assert(bit_of_byte(x1, j) == (((x1 >> j) & 1) == 1));
            assert(bit_of_byte(x2, j) == (((x2 >> j) & 1) == 1));
            assert(((x1 >> j) & 1) == 1 || ((x1 >> j) & 1) == 0) by (bit_vector);
            assert(((x2 >> j) & 1) == 1 || ((x2 >> j) & 1) == 0) by (bit_vector);
        }
        lemma_byte_from_bits(x1, x2);
    }
    assert(d1 =~= d2);
}

/// Law: insertion order cannot matter — two items inserted in either order
/// leave the same bit vector.
pub proof fn lemma_insert_commutes(bits: Seq<bool>, x: Seq<u8>, y: Seq<u8>, k: int, m: int)
    ensures
        insert_spec(insert_spec(bits, x, k, m), y, k, m) == insert_spec(
            insert_spec(bits, y, k, m),
            x,
            k,
            m,
        ),
{
    assert(insert_spec(insert_spec(bits, x, k, m), y, k, m) =~= insert_spec(
        insert_spec(bits, y, k, m),
        x,
        k,
        m,
    ));
}

/// The filter's bits after inserting every item, in order.
pub open spec fn insert_all(bits: Seq<bool>, items: Seq<Seq<u8>>, k: int, m: int) -> Seq<bool>
    decreases items.len(),
{
    if items.len() == 0 {
        bits
    } else {
        insert_all(insert_spec(bits, items[0], k, m), items.drop_first(), k, m)
    }
}

proof fn lemma_insert_all_pull(
    bits: Seq<bool>,
    x: Seq<u8>,
    items: Seq<Seq<u8>>,
    idx: int,
    k: int,
    m: int,
)
    requires
        0 <= idx < items.len(),
        items[idx] == x,
    ensures
        insert_all(bits, items, k, m) == insert_all(
            insert_spec(bits, x, k, m),
            items.remove(idx),
            k,
            m,
        ),
    decreases idx,
{
    if idx == 0 {
        assert(items.remove(0) =~= items.drop_first());
    } else {
        let rest = items.drop_first();
        assert(rest[idx - 1] == x);
        lemma_insert_all_pull(insert_spec(bits, items[0], k, m), x, rest, idx - 1, k, m);
        lemma_insert_commutes(bits, items[0], x, k, m);
        assert(insert_all(bits, items, k, m) == insert_all(
            insert_spec(bits, items[0], k, m),
            rest,
            k,
            m,
        ));
        assert(items.remove(idx).len() == items.len() - 1);
        assert(items.remove(idx)[0] == items[0]);
        assert(items.remove(idx).drop_first() =~= rest.remove(idx - 1));
        assert(insert_all(insert_spec(bits, x, k, m), items.remove(idx), k, m) == insert_all(
            insert_spec(insert_spec(bits, x, k, m), items[0], k, m),
            rest.remove(idx - 1),
            k,
            m,
        ));
    }
}

/// Law: the filter built from a set of items is a function of the multiset
/// of items alone — any insertion order leaves the same bit vector, so two
/// filters built from the same items export identical bytes.
pub proof fn lemma_insert_all_order_independent(
    bits: Seq<bool>,
    items1: Seq<Seq<u8>>,
    items2: Seq<Seq<u8>>,
    k: int,
    m: int,
)
    requires
        items1.to_multiset() == items2.to_multiset(),
    ensures
        insert_all(bits, items1, k, m) == insert_all(bits, items2, k, m),
    decreases items1.len(),
{
    broadcast use vstd::seq_lib::group_to_multiset_ensures;

    if items1.len() == 0 {
        assert(items1.to_multiset().len() == items1.len());
        assert(items2.to_multiset().len() == items2.len());
        assert(items2.len() == 0);
    } else {
        let x = items1[0];
        assert(items1.contains(x));
        assert(items1.to_multiset().count(x) > 0);
        assert(items2.to_multiset().count(x) > 0);
        assert(items2.contains(x));
        let idx = choose|i: int| 0 <= i < items2.len() && items2[i] == x;
        lemma_insert_all_pull(bits, x, items2, idx, k, m);
        let rest1 = items1.drop_first();
        assert(rest1 =~= items1.remove(0));
        assert(items1.remove(0).to_multiset() == items1.to_multiset().remove(x));
        assert(items2.remove(idx).to_multiset() == items2.to_multiset().remove(x));
        lemma_insert_all_order_independent(
            insert_spec(bits, x, k, m),
            rest1,
            items2.remove(idx),
            k,
            m,
        );
        assert(insert_all(bits, items1, k, m) == insert_all(
            insert_spec(bits, x, k, m),
            rest1,
            k,
            m,
        ));
    }
}

} // verus!
