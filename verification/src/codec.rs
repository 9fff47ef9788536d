//! The fixed binary layout of a stored record.
//!
//! | offset | bytes | field |
//! |---|---|---|
//! | 0 | 8 | type discriminator |
//! | 8 | 4 | domain length, unsigned little-endian |
//! | 12 | 256 | domain bytes, left-aligned, zero tail |
//! | 268 | 4 | record length, unsigned little-endian |
//! | 272 | 15 | record bytes, left-aligned, zero tail |
//! | 287 | 32 | authority |
//! | 319 | 8 | creation timestamp, signed little-endian |
//!
//! Total: 327 bytes. Every slot is this size regardless of the live string
//! lengths; the length prefixes identify the live portions, and decoding
//! tolerates arbitrary bytes past them.

use crate::bytes::{append_bytes, append_zero_bytes, copy_range};
use crate::record::{model_wf, DomainRecord, RecordModel};
use crate::validate::{MAX_DOMAIN_LEN, MAX_RECORD_LEN};
use vstd::bytes::{
    lemma_auto_spec_u32_to_from_le_bytes, lemma_auto_spec_u64_to_from_le_bytes,
    spec_u32_from_le_bytes, spec_u32_to_le_bytes, spec_u64_from_le_bytes, spec_u64_to_le_bytes,
    u32_from_le_bytes, u32_to_le_bytes, u64_from_le_bytes, u64_to_le_bytes,
};
use vstd::prelude::*;
use vstd::slice::slice_subrange;

verus! {

/// Size in bytes of every encoded record.
pub const RECORD_SIZE: usize = 327;

/// The 8-byte tag that identifies a buffer as a domain record. Fixed per
/// deployment; it distinguishes these records from anything else the host
/// may store.
pub open spec fn discriminator() -> Seq<u8> {
    seq![0x64u8, 0x6fu8, 0x6du8, 0x72u8, 0x65u8, 0x63u8, 0x30u8, 0x31u8]
}

/// The discriminator as a vector.
pub fn discriminator_bytes() -> (r: Vec<u8>)
    ensures
        r@ == discriminator(),
{
    let mut v: Vec<u8> = Vec::new();
    v.push(0x64u8);
    v.push(0x6fu8);
    v.push(0x6du8);
    v.push(0x72u8);
    v.push(0x65u8);
    v.push(0x63u8);
    v.push(0x30u8);
    v.push(0x31u8);
    proof {
        assert(v@ =~= discriminator());
    }
    v
}

/// The two's-complement bit pattern of a timestamp, as a 64-bit word.
pub open spec fn i64_bits(x: i64) -> u64 {
    if x >= 0 {
        x as u64
    } else {
        ((x as int) + 0x1_0000_0000_0000_0000) as u64
    }
}

/// The timestamp whose two's-complement bit pattern is `b`.
pub open spec fn bits_to_i64(b: u64) -> i64 {
    if b < 0x8000_0000_0000_0000 {
        b as i64
    } else {
        ((b as int) - 0x1_0000_0000_0000_0000) as i64
    }
}

/// The two conversions invert each other.
pub proof fn lemma_i64_bits_round_trip(x: i64)
    ensures
        bits_to_i64(i64_bits(x)) == x,
{
}

/// Computes the two's-complement bit pattern of a timestamp.
fn i64_to_bits(x: i64) -> (r: u64)
    ensures
        r == i64_bits(x),
{
    if x >= 0 {
        x as u64
    } else {
        let m: i64 = -(x + 1);
        0xffff_ffff_ffff_ffffu64 - (m as u64)
    }
}

/// Reads a timestamp back from its two's-complement bit pattern.
fn bits_to_timestamp(b: u64) -> (r: i64)
    ensures
        r == bits_to_i64(b),
{
    if b < 0x8000_0000_0000_0000u64 {
        b as i64
    } else {
        let m: u64 = 0xffff_ffff_ffff_ffffu64 - b;
        -(m as i64) - 1
    }
}

/// A run of `n` zero bytes.
pub open spec fn zero_bytes(n: int) -> Seq<u8> {
    Seq::new(n as nat, |i: int| 0u8)
}

/// The 327-byte encoding of a record.
pub open spec fn encode_spec(m: RecordModel) -> Seq<u8> {
    discriminator() + spec_u32_to_le_bytes(m.domain_name.len() as u32) + m.domain_name
        + zero_bytes(MAX_DOMAIN_LEN - m.domain_name.len()) + spec_u32_to_le_bytes(
        m.record.len() as u32,
    ) + m.record + zero_bytes(MAX_RECORD_LEN - m.record.len()) + m.authority
        + spec_u64_to_le_bytes(i64_bits(m.created_at))
}

/// What decoding makes of a buffer: `None` when the buffer is shorter than
/// the layout, carries a foreign discriminator, or claims a length past its
/// field's cap; otherwise the record whose live portions the buffer holds.
pub open spec fn decode_spec(b: Seq<u8>) -> Option<RecordModel> {
    if b.len() < RECORD_SIZE {
        None
    } else if b.subrange(0, 8) != discriminator() {
        None
    } else {
        let dl = spec_u32_from_le_bytes(b.subrange(8, 12)) as int;
        let rl = spec_u32_from_le_bytes(b.subrange(268, 272)) as int;
        if dl > MAX_DOMAIN_LEN || rl > MAX_RECORD_LEN {
            None
        } else {
            Some(
                RecordModel {
                    domain_name: b.subrange(12, 12 + dl),
                    record: b.subrange(272, 272 + rl),
                    authority: b.subrange(287, 319),
                    created_at: bits_to_i64(spec_u64_from_le_bytes(b.subrange(319, 327))),
                },
            )
        }
    }
}

/// The encoding of a record within the caps is 327 bytes long.
pub proof fn lemma_encode_len(m: RecordModel)
    requires
        model_wf(m),
    ensures
        encode_spec(m).len() == RECORD_SIZE,
{
    lemma_auto_spec_u32_to_from_le_bytes();
    lemma_auto_spec_u64_to_from_le_bytes();
}

/// Round trip: decoding an encoded record gives the record back, for any
/// record whose fields satisfy the bounded-length caps.
pub proof fn lemma_codec_round_trip(m: RecordModel)
    requires
        model_wf(m),
    ensures
        decode_spec(encode_spec(m)) == Some(m),
{
    lemma_auto_spec_u32_to_from_le_bytes();
    lemma_auto_spec_u64_to_from_le_bytes();
    let e = encode_spec(m);
    let dlen = m.domain_name.len() as int;
    let rlen = m.record.len() as int;
    assert(e.len() == RECORD_SIZE);
    assert(e.subrange(0, 8) =~= discriminator());
    assert(e.subrange(8, 12) =~= spec_u32_to_le_bytes(m.domain_name.len() as u32));
    assert(e.subrange(268, 272) =~= spec_u32_to_le_bytes(m.record.len() as u32));
    assert(spec_u32_from_le_bytes(e.subrange(8, 12)) == dlen);
    assert(spec_u32_from_le_bytes(e.subrange(268, 272)) == rlen);
    assert(e.subrange(12, 12 + dlen) =~= m.domain_name);
    assert(e.subrange(272, 272 + rlen) =~= m.record);
    assert(e.subrange(287, 319) =~= m.authority);
    assert(e.subrange(319, 327) =~= spec_u64_to_le_bytes(i64_bits(m.created_at)));
    lemma_i64_bits_round_trip(m.created_at);
    assert(decode_spec(e) matches Some(d) && d =~= m);
}

/// Serializes a record into its 327-byte slot image.
pub fn encode(r: &DomainRecord) -> (out: Vec<u8>)
    requires
        r.wf(),
    ensures
        out@ == encode_spec(r@),
        out@.len() == RECORD_SIZE,
{
    let mut out = discriminator_bytes();
    let mut dl = u32_to_le_bytes(r.domain_name.len() as u32);
    out.append(&mut dl);
    append_bytes(&mut out, &r.domain_name);
    append_zero_bytes(&mut out, MAX_DOMAIN_LEN - r.domain_name.len());
    let mut rl = u32_to_le_bytes(r.record.len() as u32);
    out.append(&mut rl);
    append_bytes(&mut out, &r.record);
    append_zero_bytes(&mut out, MAX_RECORD_LEN - r.record.len());
    append_bytes(&mut out, &r.authority);
    let mut ts = u64_to_le_bytes(i64_to_bits(r.created_at));
    out.append(&mut ts);
    proof {
        assert(out@ =~= encode_spec(r@));
        lemma_encode_len(r@);
    }
    out
}

/// Checks that `buf[start..start + expected.len()]` equals `expected`.
fn range_eq(buf: &Vec<u8>, start: usize, expected: &Vec<u8>) -> (r: bool)
    requires
        start + expected@.len() <= buf@.len(),
    ensures
        r == (buf@.subrange(start as int, start + expected@.len()) == expected@),
{
    let ghost sub = buf@.subrange(start as int, start + expected@.len());
    let blen = buf.len();
    let mut i: usize = 0;
    while i < expected.len()
        invariant
            i <= expected@.len(),
            start + expected@.len() <= buf@.len(),
            buf@.len() == blen,
            sub == buf@.subrange(start as int, start + expected@.len()),
            forall|p: int| 0 <= p < i ==> buf@[start + p] == expected@[p],
        decreases expected@.len() - i,
    {
        if buf[start + i] != expected[i] {
            assert(sub[i as int] == buf@[start + i]);
            return false;
        }
        i = i + 1;
    }
    proof {
        assert(sub =~= expected@);
    }
    true
}

/// Deserializes a slot image. Returns `None` exactly when the buffer is
/// rejected: shorter than the layout, a foreign discriminator, or a length
/// prefix past its cap.
pub fn decode(buf: &Vec<u8>) -> (r: Option<DomainRecord>)
    ensures
        match r {
            Some(rec) => decode_spec(buf@) == Some(rec@) && rec.wf(),
            None => decode_spec(buf@) is None,
        },
{
    if buf.len() < RECORD_SIZE {
        return None;
    }
    let disc = discriminator_bytes();
    if !range_eq(buf, 0, &disc) {
        return None;
    }
    let dl = u32_from_le_bytes(slice_subrange(buf.as_slice(), 8, 12));
    let rl = u32_from_le_bytes(slice_subrange(buf.as_slice(), 268, 272));
    if dl > MAX_DOMAIN_LEN as u32 || rl > MAX_RECORD_LEN as u32 {
        return None;
    }
    let domain_name = copy_range(buf, 12, 12 + dl as usize);
    let record = copy_range(buf, 272, 272 + rl as usize);
    let authority = copy_range(buf, 287, 319);
    let ts_bits = u64_from_le_bytes(slice_subrange(buf.as_slice(), 319, 327));
    let created_at = bits_to_timestamp(ts_bits);
    let rec = DomainRecord { domain_name, record, authority, created_at };
    proof {
        assert(decode_spec(buf@) matches Some(d) && d =~= rec@);
    }
    Some(rec)
}

} // verus!
