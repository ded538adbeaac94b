//! Wrapping a payload into the four-field output record.

use vstd::prelude::*;
use vstd::string::StringExecFns;
use crate::GenError;
use crate::WITNESS_SIZE_LIMIT;
use crate::bytesutil::{u32_le_bytes, u32_to_le, length_prefixed, prepend_length};
use crate::hashing::{blake2b, blake2b_of};
use crate::hexfmt::{hex_str_of, hex_of_bytes};

verus! {

/// Where the wrapped bytes come from: a record already serialized by the
/// external entity codec, or a raw buffer built by this library.
pub enum PayloadSource {
    Entity(Vec<u8>),
    Raw(Vec<u8>),
}

/// The bytes a payload source carries; both modes wrap them identically.
pub open spec fn source_bytes(s: PayloadSource) -> Seq<u8> {
    match s {
        PayloadSource::Entity(b) => b@,
        PayloadSource::Raw(b) => b@,
    }
}

/// The fixed tag marking every record as a configuration action.
pub open spec fn config_action_tag() -> Seq<u8> {
    seq![0x63u8, 0x6fu8, 0x6eu8, 0x66u8, 0x69u8, 0x67u8]
}

/// The action witness: the "config" action tag under length framing.
pub open spec fn action_witness_seq() -> Seq<u8> {
    length_prefixed(config_action_tag())
}

pub fn action_witness_bytes() -> (r: Vec<u8>)
    ensures
        r@ == action_witness_seq(),
{
    let mut v: Vec<u8> = Vec::new();
    v.push(0x63);
    v.push(0x6f);
    v.push(0x6e);
    v.push(0x66);
    v.push(0x69);
    v.push(0x67);
    proof {
        assert(v@ =~= config_action_tag());
    }
    prepend_length(v)
}

/// One unit of on-chain configuration state: a type tag, the digest of the
/// payload bytes, and the two witness buffers.
#[derive(Debug, PartialEq, Eq)]
pub struct ConfigPayload {
    pub type_tag: u32,
    pub content_hash: Vec<u8>,
    pub action_witness: Vec<u8>,
    pub entity_witness: Vec<u8>,
}

/// The payload bytes a record carries: its entity witness without the tag.
pub open spec fn payload_bytes(p: ConfigPayload) -> Seq<u8> {
    p.entity_witness@.skip(4)
}

/// Well-formedness of a record: the entity witness is the tag followed by the
/// payload and fits the size limit, the content hash is the payload's digest,
/// and the action witness is the fixed configuration action tag.
pub open spec fn payload_wf(p: ConfigPayload) -> bool {
    &&& 4 <= p.entity_witness@.len() <= WITNESS_SIZE_LIMIT
    &&& p.entity_witness@.take(4) == u32_le_bytes(p.type_tag)
    &&& p.content_hash@ == blake2b_of(payload_bytes(p))
    &&& p.content_hash@.len() == 32
    &&& p.action_witness@ == action_witness_seq()
}

/// Wrap payload bytes under a type tag, enforcing the witness size limit.
pub fn build_config_payload(type_tag: u32, source: PayloadSource) -> (r: Result<
    ConfigPayload,
    GenError,
>)
    ensures
        (r is Ok) <==> source_bytes(source).len() + 4 <= WITNESS_SIZE_LIMIT,
        r matches Ok(p) ==> payload_wf(p) && p.type_tag == type_tag && payload_bytes(p)
            == source_bytes(source),
        r matches Err(e) ==> e == GenError::OversizedWitness,
{
    let bytes = match source {
        PayloadSource::Entity(b) => b,
        PayloadSource::Raw(b) => b,
    };
    if bytes.len() > WITNESS_SIZE_LIMIT - 4 {
        return Err(GenError::OversizedWitness);
    }
    let content_hash = blake2b(&bytes);
    let mut entity_witness = u32_to_le(type_tag);
    let mut tail = bytes;
    entity_witness.append(&mut tail);
    let action_witness = action_witness_bytes();
    let p = ConfigPayload { type_tag, content_hash, action_witness, entity_witness };
    proof {
        assert(p.entity_witness@.take(4) =~= u32_le_bytes(type_tag));
        assert(payload_bytes(p) =~= source_bytes(source));
    }
    Ok(p)
}

/// Law: the content hash of every well-formed record is the digest of the
/// very bytes its entity witness carries, so recomputing the hash over the
/// emitted payload bytes reproduces the emitted hash field.
pub proof fn lemma_content_hash_binds_payload(p: ConfigPayload)
    requires
        payload_wf(p),
    ensures
        p.content_hash@ == blake2b_of(payload_bytes(p)),
{
}

/// The text of one record: four hex fields joined by single spaces.
pub open spec fn record_text(tag: u32, payload: Seq<u8>) -> Seq<char> {
    seq!['0', 'x'] + hex_str_of(u32_le_bytes(tag)) + seq![' ', '0', 'x'] + hex_str_of(
        blake2b_of(payload),
    ) + seq![' ', '0', 'x'] + hex_str_of(action_witness_seq()) + seq![' ', '0', 'x'] + hex_str_of(
        u32_le_bytes(tag) + payload,
    )
}

/// Format a well-formed record as its four space-separated hex fields.
pub fn format_record(p: &ConfigPayload) -> (r: String)
    requires
        payload_wf(*p),
    ensures
        r@ == record_text(p.type_tag, payload_bytes(*p)),
{
    let tag_bytes = u32_to_le(p.type_tag);
    let h_tag = hex_of_bytes(&tag_bytes);
    let h_hash = hex_of_bytes(&p.content_hash);
    let h_action = hex_of_bytes(&p.action_witness);
    let h_witness = hex_of_bytes(&p.entity_witness);
    let mut s = String::from_str("0x");
    s.append(h_tag.as_str());
    s.append(" 0x");
    s.append(h_hash.as_str());
    s.append(" 0x");
    s.append(h_action.as_str());
    s.append(" 0x");
    s.append(h_witness.as_str());
    proof {
        reveal_strlit("0x");
        reveal_strlit(" 0x");
        assert(p.entity_witness@ =~= u32_le_bytes(p.type_tag) + payload_bytes(*p));
        assert(s@ =~= record_text(p.type_tag, payload_bytes(*p)));
    }
    s
}

} // verus!
