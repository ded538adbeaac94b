//! The per-section payload builders and the orchestrated manifest line.

use vstd::prelude::*;
use vstd::string::StringExecFns;
use crate::GenError;
use crate::WITNESS_SIZE_LIMIT;
use crate::ACCOUNT_ID_LENGTH;
use crate::bytesutil::{views, concat_terminated, length_prefixed, prepend_length, concat_nul_terminated, concat_all};
use crate::hexfmt::{is_hex_line, hex_decoded, decode_hex_line};
use crate::order::{lex_leq_fn, sort_byte_vecs};
use crate::witness::{ConfigPayload, PayloadSource, source_bytes, payload_wf, payload_bytes, build_config_payload, format_record, record_text};

verus! {

/// The raw buffer of a character-set section: one status byte, then each
/// character's bytes followed by a terminating zero.
pub open spec fn char_set_raw(status: u8, chars: Seq<Seq<u8>>) -> Seq<u8> {
    seq![status] + concat_terminated(chars, seq![0u8])
}

/// Build a character-set payload under a type tag.
pub fn char_set_payload(type_tag: u32, status: u8, chars: &Vec<Vec<u8>>) -> (r: Result<
    ConfigPayload,
    GenError,
>)
    ensures
        (r is Ok) <==> char_set_raw(status, views(chars@)).len() + 8 <= WITNESS_SIZE_LIMIT,
        r matches Ok(p) ==> payload_wf(p) && p.type_tag == type_tag && payload_bytes(p)
            == length_prefixed(char_set_raw(status, views(chars@))),
        r matches Err(e) ==> e == GenError::OversizedWitness,
{
    let mut raw: Vec<u8> = Vec::new();
    raw.push(status);
    let mut tail = concat_nul_terminated(chars);
    raw.append(&mut tail);
    proof {
        assert(raw@ =~= char_set_raw(status, views(chars@)));
    }
    if raw.len() > WITNESS_SIZE_LIMIT - 8 {
        return Err(GenError::OversizedWitness);
    }
    let framed = prepend_length(raw);
    match build_config_payload(type_tag, PayloadSource::Raw(framed)) {
        Ok(p) => Ok(p),
        Err(e) => {
            proof {
                assert(false);
            }
            Err(e)
        },
    }
}

/// The raw buffer of the record-key namespace: the keys sorted ascending,
/// each followed by a terminating zero.
pub open spec fn record_key_raw(keys: Seq<Seq<u8>>) -> Seq<u8> {
    concat_terminated(keys.sort_by(lex_leq_fn()), seq![0u8])
}

/// Build the record-key-namespace payload: sort the keys, join them with
/// zero terminators, and frame the result.
pub fn record_key_namespace_payload(type_tag: u32, keys: Vec<Vec<u8>>) -> (r: Result<
    ConfigPayload,
    GenError,
>)
    ensures
        (r is Ok) <==> record_key_raw(views(keys@)).len() + 8 <= WITNESS_SIZE_LIMIT,
        r matches Ok(p) ==> payload_wf(p) && p.type_tag == type_tag && payload_bytes(p)
            == length_prefixed(record_key_raw(views(keys@))),
        r matches Err(e) ==> e == GenError::OversizedWitness,
{
    let mut ks = keys;
    sort_byte_vecs(&mut ks);
    let raw = concat_nul_terminated(&ks);
    if raw.len() > WITNESS_SIZE_LIMIT - 8 {
        return Err(GenError::OversizedWitness);
    }
    let framed = prepend_length(raw);
    match build_config_payload(type_tag, PayloadSource::Raw(framed)) {
        Ok(p) => Ok(p),
        Err(e) => {
            proof {
                assert(false);
            }
            Err(e)
        },
    }
}

/// Whether an input line is valid: hex text long enough to carry a whole
/// fingerprint.
pub open spec fn hash_line_ok(l: Seq<u8>) -> bool {
    is_hex_line(l) && l.len() / 2 >= ACCOUNT_ID_LENGTH
}

/// The fingerprint a hex input line carries: its decoded prefix.
pub open spec fn id_of_line(l: Seq<u8>) -> Seq<u8> {
    hex_decoded(l).take(ACCOUNT_ID_LENGTH as int)
}

/// The fingerprints of all input lines, in input order.
pub open spec fn ids_of_lines(lines: Seq<Seq<u8>>) -> Seq<Seq<u8>> {
    lines.map_values(|l: Seq<u8>| id_of_line(l))
}

/// The raw buffer of the unavailable-account section: the decoded
/// fingerprints sorted ascending and flattened.
pub open spec fn unavailable_raw(lines: Seq<Seq<u8>>) -> Seq<u8> {
    concat_terminated(ids_of_lines(lines).sort_by(lex_leq_fn()), Seq::empty())
}

/// Decode the hex lines into fingerprints, sort them, flatten and frame the
/// result; a malformed or short line is an explicit error.
pub fn unavailable_account_payload(type_tag: u32, lines: &Vec<Vec<u8>>) -> (r: Result<
    ConfigPayload,
    GenError,
>)
    ensures
        (r is Ok) <==> ((forall|i: int|
            0 <= i < lines@.len() ==> hash_line_ok(#[trigger] lines@[i]@)) && unavailable_raw(
            views(lines@),
        ).len() + 8 <= WITNESS_SIZE_LIMIT),
        r matches Ok(p) ==> payload_wf(p) && p.type_tag == type_tag && payload_bytes(p)
            == length_prefixed(unavailable_raw(views(lines@))),
        r matches Err(e) ==> e == GenError::DecodeError || e == GenError::OversizedWitness,
        r == Err::<ConfigPayload, GenError>(GenError::DecodeError) ==> exists|i: int|
            0 <= i < lines@.len() && !hash_line_ok(#[trigger] lines@[i]@),
{
    let mut ids: Vec<Vec<u8>> = Vec::new();
    let mut i: usize = 0;
    while i < lines.len()
        invariant
            i <= lines@.len(),
            views(ids@) == ids_of_lines(views(lines@).take(i as int)),
            forall|t: int| 0 <= t < i ==> hash_line_ok(#[trigger] lines@[t]@),
        decreases lines@.len() - i,
    {
        let decoded = match decode_hex_line(&lines[i]) {
            Ok(v) => v,
            Err(_) => {
                return Err(GenError::DecodeError);
            },
        };
        if decoded.len() < ACCOUNT_ID_LENGTH {
            return Err(GenError::DecodeError);
        }
        let mut id = decoded;
        id.truncate(ACCOUNT_ID_LENGTH);
        let ghost old_ids = ids@;
        ids.push(id);
        proof {
            let lv = views(lines@);
            assert(lv[i as int] == lines@[i as int]@);
            assert(id@ == id_of_line(lv[i as int]));
            assert(views(old_ids).len() == old_ids.len());
            assert(views(old_ids) == ids_of_lines(lv.take(i as int)));
            assert(old_ids.len() == i);
            assert(ids@ == old_ids.push(id));
            assert forall|t: int| 0 <= t < i + 1 implies views(ids@)[t] == ids_of_lines(
                lv.take(i + 1),
            )[t] by {
                assert(ids_of_lines(lv.take(i + 1))[t] == id_of_line(lv.take(i + 1)[t]));
                assert(lv.take(i + 1)[t] == lv[t]);
                if t < i {
                    assert(ids@[t] == old_ids[t]);
                    assert(views(ids@)[t] == views(old_ids)[t]);
                    assert(views(old_ids)[t] == ids_of_lines(lv.take(i as int))[t]);
                    assert(ids_of_lines(lv.take(i as int))[t] == id_of_line(lv.take(i as int)[t]));
                    assert(lv.take(i as int)[t] == lv[t]);
                } else {
                    assert(views(ids@)[t] == id@);
                }
            }
            assert(views(ids@) =~= ids_of_lines(lv.take(i + 1)));
        }
        i += 1;
    }
    proof {
        assert(views(lines@).take(lines@.len() as int) =~= views(lines@));
    }
    sort_byte_vecs(&mut ids);
    let raw = concat_all(&ids);
    if raw.len() > WITNESS_SIZE_LIMIT - 8 {
        return Err(GenError::OversizedWitness);
    }
    let framed = prepend_length(raw);
    match build_config_payload(type_tag, PayloadSource::Raw(framed)) {
        Ok(p) => Ok(p),
        Err(e) => {
            proof {
                assert(false);
            }
            Err(e)
        },
    }
}

/// One configuration section: a type tag and the payload bytes it wraps.
pub struct Section {
    pub type_tag: u32,
    pub source: PayloadSource,
}

/// The record text a section yields.
pub open spec fn section_text(s: Section) -> Seq<char> {
    record_text(s.type_tag, source_bytes(s.source))
}

/// The manifest line: record texts joined by single commas.
pub open spec fn joined_records(rs: Seq<Seq<char>>) -> Seq<char>
    decreases rs.len(),
{
    if rs.len() == 0 {
        Seq::empty()
    } else if rs.len() == 1 {
        rs[0]
    } else {
        joined_records(rs.drop_last()) + seq![','] + rs.last()
    }
}

/// Join formatted records with commas, in order.
pub fn join_records(records: &Vec<String>) -> (r: String)
    ensures
        r@ == joined_records(records@.map_values(|s: String| s@)),
{
    let mut out = String::new();
    let mut i: usize = 0;
    while i < records.len()
        invariant
            i <= records@.len(),
            out@ == joined_records(records@.map_values(|s: String| s@).take(i as int)),
        decreases records@.len() - i,
    {
        if i > 0 {
            out.append(",");
        }
        out.append(records[i].as_str());
        proof {
            reveal_strlit(",");
            let rs = records@.map_values(|s: String| s@);
            assert(rs.take(i + 1).drop_last() =~= rs.take(i as int));
            assert(rs.take(i + 1).last() == records@[i as int]@);
            if i == 0 {
                assert(out@ =~= joined_records(rs.take(1)));
            } else {
                assert(out@ =~= joined_records(rs.take(i + 1)));
            }
        }
        i += 1;
    }
    proof {
        let rs = records@.map_values(|s: String| s@);
        assert(rs.take(rs.len() as int) =~= rs);
    }
    out
}

/// Wrap every section in order and emit the single manifest line; the first
/// oversized section aborts the whole run.
pub fn generate_manifest(sections: Vec<Section>) -> (r: Result<String, GenError>)
    ensures
        (r is Ok) <==> (forall|i: int|
            0 <= i < sections@.len() ==> source_bytes(#[trigger] sections@[i].source).len() + 4
                <= WITNESS_SIZE_LIMIT),
        r matches Ok(out) ==> out@ == joined_records(
            sections@.map_values(|s: Section| section_text(s)),
        ),
        r matches Err(e) ==> e == GenError::OversizedWitness,
{
    let ghost orig = sections@;
    let mut resting = sections;
    let mut records: Vec<String> = Vec::new();
    while resting.len() > 0
        invariant
            orig == sections@,
            resting@.len() <= orig.len(),
            resting@ == orig.skip(orig.len() - resting@.len()),
            records@.len() == orig.len() - resting@.len(),
            forall|t: int|
                0 <= t < records@.len() ==> (#[trigger] records@[t])@ == section_text(orig[t])
                    && source_bytes(orig[t].source).len() + 4 <= WITNESS_SIZE_LIMIT,
        decreases resting@.len(),
    {
        let ghost t = orig.len() - resting@.len();
        let ghost old_resting = resting@;
        let sec = resting.remove(0);
        proof {
            assert(old_resting[0] == orig.skip(t as int)[0]);
            assert(sec == orig[t as int]);
            assert forall|jj: int| 0 <= jj < resting@.len() implies resting@[jj] == orig.skip(
                t + 1,
            )[jj] by {
                assert(resting@[jj] == old_resting[jj + 1]);
                assert(old_resting[jj + 1] == orig.skip(t as int)[jj + 1]);
            }
            assert(resting@ =~= orig.skip(t + 1));
        }
        let tag = sec.type_tag;
        match build_config_payload(tag, sec.source) {
            Ok(p) => {
                let txt = format_record(&p);
                let ghost old_records = records@;
                records.push(txt);
                proof {
                    assert(t == old_records.len());
                    assert forall|t2: int|
                        0 <= t2 < records@.len() implies (#[trigger] records@[t2])@
                        == section_text(orig[t2]) && source_bytes(orig[t2].source).len() + 4
                        <= WITNESS_SIZE_LIMIT by {
                        if t2 < old_records.len() {
                            assert(records@[t2] == old_records[t2]);
                            assert(old_records[t2]@ == section_text(orig[t2]));
                        } else {
                            assert(records@[t2] == txt);
                            assert(txt@ == record_text(p.type_tag, payload_bytes(p)));
                            assert(payload_bytes(p) == source_bytes(orig[t as int].source));
                            assert(p.type_tag == orig[t as int].type_tag);
                        }
                    }
                }
            },
            Err(_) => {
                proof {
                    assert(source_bytes(orig[t as int].source).len() + 4 > WITNESS_SIZE_LIMIT);
                }
                return Err(GenError::OversizedWitness);
            },
        }
    }
    let out = join_records(&records);
    proof {
        assert forall|t: int|
            0 <= t < sections@.len() implies source_bytes(
            #[trigger] sections@[t].source,
        ).len() + 4 <= WITNESS_SIZE_LIMIT by {
            assert((#[trigger] records@[t])@ == section_text(orig[t]));
        }
    }
    proof {
        let rs = records@.map_values(|s: String| s@);
        let ts = sections@.map_values(|s: Section| section_text(s));
        assert forall|t: int| 0 <= t < rs.len() implies rs[t] == ts[t] by {
            assert(rs[t] == records@[t]@);
            assert(ts[t] == section_text(orig[t]));
        }
        assert(rs =~= ts);
    }
    Ok(out)
}

} // verus!
