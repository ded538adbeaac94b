//! Byte-wise lexicographic ordering and sorting of byte buffers.

use vstd::prelude::*;
use vstd::relations::{antisymmetric, reflexive, sorted_by, strongly_connected, total_ordering, transitive};
use vstd::seq_lib::lemma_sorted_unique;
use crate::bytesutil::views;

verus! {

/// Byte-wise lexicographic "less than or equal" on byte strings.
pub open spec fn lex_leq(a: Seq<u8>, b: Seq<u8>) -> bool
    decreases a.len(),
{
    if a.len() == 0 {
        true
    } else if b.len() == 0 {
        false
    } else if a[0] < b[0] {
        true
    } else if a[0] > b[0] {
        false
    } else {
        lex_leq(a.drop_first(), b.drop_first())
    }
}

/// The lexicographic order as a relation value.
pub open spec fn lex_leq_fn() -> spec_fn(Seq<u8>, Seq<u8>) -> bool {
    |a: Seq<u8>, b: Seq<u8>| lex_leq(a, b)
}

proof fn lemma_lex_refl(a: Seq<u8>)
    ensures
        lex_leq(a, a),
    decreases a.len(),
{
    if a.len() > 0 {
        lemma_lex_refl(a.drop_first());
    }
}

proof fn lemma_lex_antisym(a: Seq<u8>, b: Seq<u8>)
    requires
        lex_leq(a, b),
        lex_leq(b, a),
    ensures
        a == b,
    decreases a.len(),
{
    if a.len() == 0 {
        assert(b.len() == 0);
        assert(a =~= b);
    } else {
        assert(b.len() > 0);
        assert(a[0] == b[0]);
        lemma_lex_antisym(a.drop_first(), b.drop_first());
        assert(a.drop_first() == b.drop_first());
        assert(a.drop_first().len() == a.len() - 1);
        assert(b.drop_first().len() == b.len() - 1);
        assert(a.len() == b.len());
        assert forall|i: int| 0 <= i < a.len() implies a[i] == b[i] by {
            if i > 0 {
                assert(a[i] == a.drop_first()[i - 1]);
                assert(b[i] == b.drop_first()[i - 1]);
            }
        }
        assert(a =~= b);
    }
}

proof fn lemma_lex_trans(a: Seq<u8>, b: Seq<u8>, c: Seq<u8>)
    requires
        lex_leq(a, b),
        lex_leq(b, c),
    ensures
        lex_leq(a, c),
    decreases a.len(),
{
    if a.len() > 0 {
        if a[0] == b[0] && b[0] == c[0] {
            lemma_lex_trans(a.drop_first(), b.drop_first(), c.drop_first());
        }
    }
}

proof fn lemma_lex_conn(a: Seq<u8>, b: Seq<u8>)
    ensures
        lex_leq(a, b) || lex_leq(b, a),
    decreases a.len(),
{
    if a.len() > 0 && b.len() > 0 && a[0] == b[0] {
        lemma_lex_conn(a.drop_first(), b.drop_first());
    }
}

/// The lexicographic order is total, so sorting under it has a unique result.
pub proof fn lemma_lex_total()
    ensures
        total_ordering(lex_leq_fn()),
{
    let leq = lex_leq_fn();
    assert forall|x: Seq<u8>| #[trigger] leq(x, x) by {
        lemma_lex_refl(x);
    }
    assert(reflexive(leq));
    assert forall|x: Seq<u8>, y: Seq<u8>| #[trigger] leq(x, y) && #[trigger] leq(y, x) implies x
        == y by {
        lemma_lex_antisym(x, y);
    }
    assert(antisymmetric(leq));
    assert forall|x: Seq<u8>, y: Seq<u8>, z: Seq<u8>|
        #[trigger] leq(x, y) && #[trigger] leq(y, z) implies leq(x, z) by {
        lemma_lex_trans(x, y, z);
    }
    assert(transitive(leq));
    assert forall|x: Seq<u8>, y: Seq<u8>| #[trigger] leq(x, y) || #[trigger] leq(y, x) by {
        lemma_lex_conn(x, y);
    }
    assert(strongly_connected(leq));
}

proof fn lemma_lex_skip(a: Seq<u8>, b: Seq<u8>, i: int)
    requires
        0 <= i <= a.len(),
        i <= b.len(),
        forall|j: int| 0 <= j < i ==> a[j] == b[j],
    ensures
        lex_leq(a, b) == lex_leq(a.skip(i), b.skip(i)),
    decreases i,
{
    if i == 0 {
        assert(a.skip(0) =~= a);
        assert(b.skip(0) =~= b);
    } else {
        let at = a.drop_first();
        let bt = b.drop_first();
        assert(forall|j: int| 0 <= j < i - 1 ==> at[j] == bt[j]);
        lemma_lex_skip(at, bt, i - 1);
        assert(at.skip(i - 1) =~= a.skip(i));
        assert(bt.skip(i - 1) =~= b.skip(i));
    }
}

/// Compare two byte buffers in lexicographic order.
pub fn lex_leq_exec(a: &Vec<u8>, b: &Vec<u8>) -> (r: bool)
    ensures
        r == lex_leq(a@, b@),
{
    let mut i: usize = 0;
    loop
        invariant
            i <= a@.len(),
            i <= b@.len(),
            forall|j: int| 0 <= j < i ==> a@[j] == b@[j],
        decreases a@.len() - i,
    {
        proof {
            lemma_lex_skip(a@, b@, i as int);
        }
        if i == a.len() {
            return true;
        }
        if i == b.len() {
            return false;
        }
        let ai = a[i];
        let bi = b[i];
        if ai < bi {
            proof {
                assert(a@.skip(i as int)[0] == ai);
                assert(b@.skip(i as int)[0] == bi);
            }
            return true;
        }
        if ai > bi {
            proof {
                assert(a@.skip(i as int)[0] == ai);
                assert(b@.skip(i as int)[0] == bi);
            }
            return false;
        }
        i += 1;
    }
}

proof fn lemma_views_remove(s: Seq<Vec<u8>>, i: int)
    requires
        0 <= i < s.len(),
    ensures
        views(s.remove(i)) == views(s).remove(i),
{
    assert(views(s.remove(i)) =~= views(s).remove(i));
}

proof fn lemma_views_insert(s: Seq<Vec<u8>>, i: int, x: Vec<u8>)
    requires
        0 <= i <= s.len(),
    ensures
        views(s.insert(i, x)) == views(s).insert(i, x@),
{
    assert(views(s.insert(i, x)) =~= views(s).insert(i, x@));
}

/// Keeping only the elements a predicate accepts commutes with forgetting
/// the order of a sequence.
pub proof fn lemma_filter_to_multiset<A>(s: Seq<A>, p: spec_fn(A) -> bool)
    ensures
        s.filter(p).to_multiset() == s.to_multiset().filter(p),
    decreases s.len(),
{
    broadcast use vstd::seq_lib::group_to_multiset_ensures;
    broadcast use vstd::multiset::group_multiset_axioms;

    reveal(Seq::filter);
    if s.len() == 0 {
        assert forall|v: A|
            s.filter(p).to_multiset().count(v) == #[trigger] s.to_multiset().filter(p).count(
                v,
            ) by {
            assert(!s.contains(v));
            assert(s.to_multiset().count(v) == 0);
            assert(s.filter(p) == s);
        }
        assert(s.filter(p).to_multiset() =~= s.to_multiset().filter(p));
    } else {
        let rest = s.drop_last();
        let last = s.last();
        lemma_filter_to_multiset(rest, p);
        assert(s =~= rest.push(last));
        assert(rest.push(last).to_multiset() =~= rest.to_multiset().insert(last));
        if p(last) {
            assert(s.filter(p) == rest.filter(p).push(last));
            assert(rest.filter(p).push(last).to_multiset() =~= rest.filter(p)
                .to_multiset()
                .insert(last));
        } else {
            assert(s.filter(p) == rest.filter(p));
        }
        assert forall|v: A|
            s.filter(p).to_multiset().count(v) == #[trigger] s.to_multiset().filter(p).count(
                v,
            ) by {}
        assert(s.filter(p).to_multiset() =~= s.to_multiset().filter(p));
    }
}

/// Sort byte buffers in lexicographic order; the result is the unique sorted
/// permutation of the input.
pub fn sort_byte_vecs(v: &mut Vec<Vec<u8>>)
    ensures
        views(final(v)@) == views(old(v)@).sort_by(lex_leq_fn()),
{
    let ghost orig = v@;
    let ghost leq = lex_leq_fn();
    proof {
        lemma_lex_total();
        broadcast use vstd::seq_lib::group_to_multiset_ensures;
    }
    let mut i: usize = 0;
    while i < v.len()
        invariant
            i <= v@.len(),
            v@.len() == orig.len(),
            leq == lex_leq_fn(),
            views(v@).to_multiset() == views(orig).to_multiset(),
            sorted_by(views(v@).take(i as int), leq),
        decreases v@.len() - i,
    {
        let ghost before = v@;
        let x = v.remove(i);
        proof {
            lemma_views_remove(before, i as int);
            broadcast use vstd::seq_lib::group_to_multiset_ensures;
            assert(views(v@).to_multiset() == views(before).to_multiset().remove(x@));
            assert forall|j: int| 0 <= j < i implies views(v@)[j] == views(before)[j] by {}
            assert(views(v@).take(i as int) =~= views(before).take(i as int));
            assert(sorted_by(views(v@).take(i as int), leq));
        }
        let mut pos: usize = 0;
        while pos < i && lex_leq_exec(&v[pos], &x)
            invariant
                pos <= i,
                i <= v@.len(),
                leq == lex_leq_fn(),
                forall|j: int| 0 <= j < pos ==> lex_leq(views(v@)[j], x@),
            decreases i - pos,
        {
            pos += 1;
        }
        let ghost mid = v@;
        proof {
            lemma_lex_total();
        }
        v.insert(pos, x);
        proof {
            lemma_views_insert(mid, pos as int, x);
            broadcast use vstd::seq_lib::group_to_multiset_ensures;
            assert(views(v@).to_multiset() == views(mid).to_multiset().insert(x@));
            assert(views(v@).to_multiset() == views(orig).to_multiset());
            let cur = views(v@).take(i + 1);
            let prev = views(mid).take(i as int);
            assert forall|p: int, q: int| 0 <= p < q < cur.len() implies leq(cur[p], cur[q]) by {
                if q < pos {
                    assert(cur[p] == prev[p] && cur[q] == prev[q]);
                    assert(leq(prev[p], prev[q]));
                } else if q == pos {
                    assert(cur[q] == x@);
                    assert(cur[p] == prev[p]);
                    assert(lex_leq(prev[p], x@));
                } else {
                    assert(cur[q] == prev[q - 1]);
                    assert(pos < i);
                    assert(!lex_leq(views(mid)[pos as int], x@));
                    lemma_lex_conn(views(mid)[pos as int], x@);
                    assert(lex_leq(x@, prev[pos as int]));
                    if p < pos {
                        assert(cur[p] == prev[p]);
                        if q - 1 == pos {
                            assert(lex_leq(prev[p], x@));
                            lemma_lex_trans(prev[p], x@, prev[pos as int]);
                        } else {
                            assert(leq(prev[p], prev[q - 1]));
                        }
                    } else if p == pos {
                        assert(cur[p] == x@);
                        if q - 1 == pos {
                        } else {
                            assert(leq(prev[pos as int], prev[q - 1]));
                            lemma_lex_trans(x@, prev[pos as int], prev[q - 1]);
                        }
                    } else {
                        assert(cur[p] == prev[p - 1]);
                        assert(leq(prev[p - 1], prev[q - 1]));
                    }
                }
            }
            assert(sorted_by(views(v@).take(i + 1), leq));
        }
        i += 1;
    }
    proof {
        assert(views(v@).take(views(v@).len() as int) =~= views(v@));
        lemma_lex_total();
        views(orig).lemma_sort_by_ensures(leq);
        lemma_sorted_unique(views(v@), views(orig).sort_by(leq), leq);
    }
}

} // verus!
