//! Distribution of account fingerprints into capacity-bounded, ordered shards.

use vstd::prelude::*;
use vstd::seq_lib::lemma_sorted_unique;
use crate::GenError;
use crate::WITNESS_SIZE_LIMIT;
use crate::bytesutil::{views, concat_terminated, length_prefixed, concat_all, prepend_length};
use crate::hashing::{fingerprint_of, account_fingerprint};
use crate::order::{lex_leq_fn, sort_byte_vecs, lemma_lex_total, lemma_filter_to_multiset};
use crate::witness::{ConfigPayload, PayloadSource, payload_wf, payload_bytes, build_config_payload};

verus! {

/// The first byte of a fingerprint, which alone decides its shard.
pub open spec fn first_byte_of(f: Seq<u8>) -> u8 {
    if f.len() > 0 {
        f[0]
    } else {
        0
    }
}

/// Whether a fingerprint belongs to shard `j` out of `shard_count`.
pub open spec fn shard_pred(j: int, shard_count: u8) -> spec_fn(Seq<u8>) -> bool {
    |f: Seq<u8>| first_byte_of(f) as int % shard_count as int == j
}

/// The members of shard `j`, in input order.
pub open spec fn shard_members(fps: Seq<Seq<u8>>, j: int, shard_count: u8) -> Seq<Seq<u8>> {
    fps.filter(shard_pred(j, shard_count))
}

/// The members of shard `j`, sorted ascending byte-wise.
pub open spec fn shard_model(fps: Seq<Seq<u8>>, j: int, shard_count: u8) -> Seq<Seq<u8>> {
    shard_members(fps, j, shard_count).sort_by(lex_leq_fn())
}

/// The serialized buffer of one shard: its sorted members, flattened and
/// framed by their byte count.
pub open spec fn shard_raw(fps: Seq<Seq<u8>>, j: int, shard_count: u8) -> Seq<u8> {
    length_prefixed(concat_terminated(shard_model(fps, j, shard_count), Seq::empty()))
}

/// Each shard is a function of the multiset of fingerprints alone: feeding
/// the same fingerprints in any order yields the same sorted shards.
pub proof fn lemma_shards_order_independent(
    a: Seq<Seq<u8>>,
    b: Seq<Seq<u8>>,
    shard_count: u8,
    j: int,
)
    requires
        shard_count > 0,
        a.to_multiset() == b.to_multiset(),
    ensures
        shard_model(a, j, shard_count) == shard_model(b, j, shard_count),
        shard_raw(a, j, shard_count) == shard_raw(b, j, shard_count),
{
    let p = shard_pred(j, shard_count);
    let leq = lex_leq_fn();
    lemma_filter_to_multiset(a, p);
    lemma_filter_to_multiset(b, p);
    assert(a.filter(p).to_multiset() == b.filter(p).to_multiset());
    lemma_lex_total();
    a.filter(p).lemma_sort_by_ensures(leq);
    b.filter(p).lemma_sort_by_ensures(leq);
    lemma_sorted_unique(a.filter(p).sort_by(leq), b.filter(p).sort_by(leq), leq);
}

/// Distribute fingerprints into shards by first byte, each shard sorted.
pub fn assign_shards(fps: Vec<Vec<u8>>, shard_count: u8) -> (shards: Vec<Vec<Vec<u8>>>)
    requires
        shard_count > 0,
    ensures
        shards@.len() == shard_count as int,
        forall|j: int|
            0 <= j < shard_count as int ==> views(#[trigger] shards@[j]@) == shard_model(
                views(fps@),
                j,
                shard_count,
            ),
{
    let ghost orig = views(fps@);
    let mut rem = fps;
    let mut buckets: Vec<Vec<Vec<u8>>> = Vec::new();
    let mut j: usize = 0;
    while j < shard_count as usize
        invariant
            j <= shard_count as usize,
            buckets@.len() == j,
            forall|jj: int| 0 <= jj < j ==> views(#[trigger] buckets@[jj]@).len() == 0,
        decreases shard_count as usize - j,
    {
        buckets.push(Vec::new());
        j += 1;
    }
    proof {
        reveal(Seq::filter);
        assert(orig.take(0) =~= Seq::<Seq<u8>>::empty());
        assert forall|jj: int| 0 <= jj < shard_count as int implies views(#[trigger] buckets@[jj]@)
            == shard_members(orig.take(0), jj, shard_count) by {
            assert(views(buckets@[jj]@) =~= Seq::<Seq<u8>>::empty());
        }
    }
    while rem.len() > 0
        invariant
            shard_count > 0,
            buckets@.len() == shard_count as int,
            rem@.len() <= orig.len(),
            views(rem@) == orig.skip(orig.len() - rem@.len()),
            forall|jj: int|
                0 <= jj < shard_count as int ==> views(#[trigger] buckets@[jj]@) == shard_members(
                    orig.take(orig.len() - rem@.len()),
                    jj,
                    shard_count,
                ),
        decreases rem@.len(),
    {
        let ghost t = orig.len() - rem@.len();
        let ghost old_rem = rem@;
        let fp = rem.remove(0);
        proof {
            assert(views(old_rem)[0] == fp@);
            assert(orig.skip(t as int)[0] == orig[t as int]);
            assert(fp@ == orig[t as int]);
            assert forall|jj: int| 0 <= jj < rem@.len() implies views(rem@)[jj] == orig.skip(
                t + 1,
            )[jj] by {
                assert(rem@[jj] == old_rem[jj + 1]);
                assert(views(old_rem)[jj + 1] == orig.skip(t as int)[jj + 1]);
            }
            assert(views(rem@) =~= orig.skip(t + 1));
        }
        let b: u8 = if fp.len() == 0 {
            0
        } else {
            fp[0]
        };
        let idx = (b % shard_count) as usize;
        proof {
            assert(b == first_byte_of(fp@));
        }
        let ghost old_buckets = buckets@;
        let bucket = &mut buckets[idx];
        bucket.push(fp);
        proof {
            broadcast use Seq::lemma_filter_push;

            assert(orig.take(t + 1) =~= orig.take(t).push(orig[t]));
            assert forall|jj: int|
                0 <= jj < shard_count as int implies views(#[trigger] buckets@[jj]@)
                == shard_members(orig.take(t + 1), jj, shard_count) by {
                let p = shard_pred(jj, shard_count);
                assert(orig.take(t).push(orig[t]).filter(p) == if p(orig[t]) {
                    orig.take(t).filter(p).push(orig[t])
                } else {
                    orig.take(t).filter(p)
                });
                if jj == idx as int {
                    assert(p(orig[t]));
                    assert(views(buckets@[jj]@) =~= views(old_buckets[jj]@).push(orig[t]));
                } else {
                    assert(!p(orig[t]));
                    assert(buckets@[jj] == old_buckets[jj]);
                }
            }
        }
    }
    proof {
        assert(orig.take(orig.len() as int) =~= orig);
    }
    let mut rembuckets = buckets;
    let mut shards: Vec<Vec<Vec<u8>>> = Vec::new();
    while rembuckets.len() > 0
        invariant
            shard_count > 0,
            shards@.len() + rembuckets@.len() == shard_count as int,
            forall|jj: int|
                0 <= jj < shards@.len() ==> views(#[trigger] shards@[jj]@) == shard_model(
                    orig,
                    jj,
                    shard_count,
                ),
            forall|jj: int|
                0 <= jj < rembuckets@.len() ==> views(#[trigger] rembuckets@[jj]@)
                    == shard_members(orig, shards@.len() + jj, shard_count),
        decreases rembuckets@.len(),
    {
        let ghost old_rb = rembuckets@;
        let mut bkt = rembuckets.remove(0);
        sort_byte_vecs(&mut bkt);
        shards.push(bkt);
        proof {
            assert forall|jj: int| 0 <= jj < rembuckets@.len() implies views(
                #[trigger] rembuckets@[jj]@,
            ) == shard_members(orig, shards@.len() + jj, shard_count) by {
                assert(rembuckets@[jj] == old_rb[jj + 1]);
            }
        }
    }
    shards
}

/// The fingerprints of a list of account names.
pub open spec fn fingerprints_of(accounts: Seq<Seq<u8>>) -> Seq<Seq<u8>> {
    accounts.map_values(|a: Seq<u8>| fingerprint_of(a))
}

/// Fingerprint every account, shard the fingerprints, and wrap each shard's
/// serialized buffer under consecutive type tags, enforcing the per-shard
/// capacity and the witness size limit.
pub fn preserved_account_records(
    accounts: &Vec<Vec<u8>>,
    base_tag: u32,
    shard_count: u8,
    limit: usize,
) -> (r: Result<Vec<ConfigPayload>, GenError>)
    requires
        shard_count > 0,
        base_tag + shard_count <= u32::MAX,
    ensures
        ((r is Ok) <==> (forall|j: int|
            0 <= j < shard_count as int ==> #[trigger] shard_members(
                fingerprints_of(views(accounts@)),
                j,
                shard_count,
            ).len() <= limit && concat_terminated(
                shard_model(fingerprints_of(views(accounts@)), j, shard_count),
                Seq::empty(),
            ).len() + 8 <= WITNESS_SIZE_LIMIT)),
        r matches Ok(ps) ==> ps@.len() == shard_count as int && forall|j: int|
            0 <= j < shard_count as int ==> payload_wf(#[trigger] ps@[j]) && ps@[j].type_tag
                == base_tag + j && payload_bytes(ps@[j]) == shard_raw(
                fingerprints_of(views(accounts@)),
                j,
                shard_count,
            ),
        r matches Err(e) ==> e == GenError::ShardCapacityExceeded || e
            == GenError::OversizedWitness,
{
    let ghost fpsv = fingerprints_of(views(accounts@));
    let mut fps: Vec<Vec<u8>> = Vec::new();
    let mut i: usize = 0;
    while i < accounts.len()
        invariant
            i <= accounts@.len(),
            views(fps@) == fingerprints_of(views(accounts@).take(i as int)),
        decreases accounts@.len() - i,
    {
        let fp = account_fingerprint(&accounts[i]);
        let ghost old_fps = fps@;
        fps.push(fp);
        proof {
            let av = views(accounts@);
            assert(av.len() == accounts@.len());
            assert(views(old_fps).len() == old_fps.len());
            assert(views(old_fps) == fingerprints_of(av.take(i as int)));
            assert(old_fps.len() == i);
            assert(fps@ == old_fps.push(fp));
            assert(av[i as int] == accounts@[i as int]@);
            assert(fp@ == fingerprint_of(av[i as int]));
            assert forall|jj: int| 0 <= jj < i + 1 implies views(fps@)[jj] == fingerprints_of(
                av.take(i + 1),
            )[jj] by {
                assert(fingerprints_of(av.take(i + 1))[jj] == fingerprint_of(av.take(i + 1)[jj]));
                assert(av.take(i + 1)[jj] == av[jj]);
                if jj < i {
                    assert(fps@[jj] == old_fps[jj]);
                    assert(views(fps@)[jj] == views(old_fps)[jj]);
                    assert(views(old_fps)[jj] == fingerprints_of(av.take(i as int))[jj]);
                    assert(fingerprints_of(av.take(i as int))[jj] == fingerprint_of(
                        av.take(i as int)[jj],
                    ));
                    assert(av.take(i as int)[jj] == av[jj]);
                } else {
                    assert(views(fps@)[jj] == fp@);
                }
            }
            assert(views(fps@) =~= fingerprints_of(av.take(i + 1)));
        }
        i += 1;
    }
    proof {
        assert(views(accounts@).take(accounts@.len() as int) =~= views(accounts@));
        assert(views(fps@) == fpsv);
    }
    let shards = assign_shards(fps, shard_count);
    let mut out: Vec<ConfigPayload> = Vec::new();
    let mut j: usize = 0;
    while j < shards.len()
        invariant
            fpsv == fingerprints_of(views(accounts@)),
            shards@.len() == shard_count as int,
            shard_count > 0,
            base_tag + shard_count <= u32::MAX,
            j <= shard_count as usize,
            out@.len() == j,
            forall|jj: int|
                0 <= jj < shards@.len() ==> views(#[trigger] shards@[jj]@) == shard_model(
                    fpsv,
                    jj,
                    shard_count,
                ),
            forall|jj: int|
                0 <= jj < j ==> #[trigger] shard_members(fpsv, jj, shard_count).len() <= limit
                    && concat_terminated(shard_model(fpsv, jj, shard_count), Seq::empty()).len()
                    + 8 <= WITNESS_SIZE_LIMIT,
            forall|jj: int|
                0 <= jj < j ==> payload_wf(#[trigger] out@[jj]) && out@[jj].type_tag == base_tag
                    + jj && payload_bytes(out@[jj]) == shard_raw(fpsv, jj, shard_count),
        decreases shards@.len() - j,
    {
        proof {
            broadcast use vstd::seq_lib::group_to_multiset_ensures;

            lemma_lex_total();
            let members = shard_members(fpsv, j as int, shard_count);
            let model = shard_model(fpsv, j as int, shard_count);
            members.lemma_sort_by_ensures(lex_leq_fn());
            assert(members.to_multiset() == model.to_multiset());
            assert(members.len() == members.to_multiset().len());
            assert(model.len() == model.to_multiset().len());
            assert(model.len() == members.len());
        }
        let shard = &shards[j];
        if shard.len() > limit {
            proof {
                assert(fpsv == fingerprints_of(views(accounts@)));
                assert(shard_members(fingerprints_of(views(accounts@)), j as int, shard_count).len()
                    > limit);
                assert(!(forall|jj: int|
                    0 <= jj < shard_count as int ==> #[trigger] shard_members(
                        fingerprints_of(views(accounts@)),
                        jj,
                        shard_count,
                    ).len() <= limit && concat_terminated(
                        shard_model(fingerprints_of(views(accounts@)), jj, shard_count),
                        Seq::empty(),
                    ).len() + 8 <= WITNESS_SIZE_LIMIT));
            }
            return Err(GenError::ShardCapacityExceeded);
        }
        let raw = concat_all(shard);
        if raw.len() > WITNESS_SIZE_LIMIT - 8 {
            proof {
                assert(fpsv == fingerprints_of(views(accounts@)));
                assert(raw@ == concat_terminated(
                    shard_model(fingerprints_of(views(accounts@)), j as int, shard_count),
                    Seq::empty(),
                ));
                assert(!(forall|jj: int|
                    0 <= jj < shard_count as int ==> #[trigger] shard_members(
                        fingerprints_of(views(accounts@)),
                        jj,
                        shard_count,
                    ).len() <= limit && concat_terminated(
                        shard_model(fingerprints_of(views(accounts@)), jj, shard_count),
                        Seq::empty(),
                    ).len() + 8 <= WITNESS_SIZE_LIMIT));
            }
            return Err(GenError::OversizedWitness);
        }
        let framed = prepend_length(raw);
        let tag = base_tag + (j as u32);
        match build_config_payload(tag, PayloadSource::Raw(framed)) {
            Ok(p) => {
                out.push(p);
            },
            Err(_) => {
                proof {
                    assert(false);
                }
                return Err(GenError::OversizedWitness);
            },
        }
        j += 1;
    }
    Ok(out)
}

} // verus!
