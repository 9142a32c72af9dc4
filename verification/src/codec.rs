//! The wire format: 16-byte packed trace records, little-endian integer
//! encoding, decimal text, and the parser that inverts the record layout.
//!
//! A record is two 64-bit little-endian words: the timestamp, then a packed
//! word holding the record type in bits 0..2, a `more` bit (always 0) at
//! bit 2, the magic `0b101` in bits 3..6, the depth (always 0) in bits 6..16,
//! and the 48-bit address in bits 16..64.

use vstd::prelude::*;

use byteorder::{LittleEndian, WriteBytesExt};

verus! {

use vstd::utf8::encode_utf8;

/// The little-endian bytes of a 64-bit value, least significant first.
pub open spec fn u64_le(v: u64) -> Seq<u8> {
    seq![
        (v & 0xff) as u8,
        ((v >> 8) & 0xff) as u8,
        ((v >> 16) & 0xff) as u8,
        ((v >> 24) & 0xff) as u8,
        ((v >> 32) & 0xff) as u8,
        ((v >> 40) & 0xff) as u8,
        ((v >> 48) & 0xff) as u8,
        ((v >> 56) & 0xff) as u8,
    ]
}

/// The little-endian bytes of a 32-bit value.
pub open spec fn u32_le(v: u32) -> Seq<u8> {
    seq![(v & 0xff) as u8, ((v >> 8) & 0xff) as u8, ((v >> 16) & 0xff) as u8, ((v >> 24)
        & 0xff) as u8]
}

/// The little-endian bytes of a 16-bit value.
pub open spec fn u16_le(v: u16) -> Seq<u8> {
    seq![(v & 0xff) as u8, ((v >> 8) & 0xff) as u8]
}

/// The 64-bit value read little-endian from eight bytes.
pub open spec fn le_val8(s: Seq<u8>) -> u64
    recommends
        s.len() == 8,
{
    (s[0] as u64) | ((s[1] as u64) << 8) | ((s[2] as u64) << 16) | ((s[3] as u64) << 24) | ((
    s[4] as u64) << 32) | ((s[5] as u64) << 40) | ((s[6] as u64) << 48) | ((s[7] as u64) << 56)
}

/// Reading eight little-endian bytes back gives the value they encode.
pub proof fn lemma_u64_le_inverse(v: u64)
    ensures
        le_val8(u64_le(v)) == v,
{
    let s = u64_le(v);
    assert(s.len() == 8);
    assert((((v & 0xff) as u8) as u64) | ((((v >> 8) & 0xff) as u8 as u64) << 8) | ((((v >> 16)
        & 0xff) as u8 as u64) << 16) | ((((v >> 24) & 0xff) as u8 as u64) << 24) | ((((v >> 32)
        & 0xff) as u8 as u64) << 32) | ((((v >> 40) & 0xff) as u8 as u64) << 40) | ((((v >> 48)
        & 0xff) as u8 as u64) << 48) | ((((v >> 56) & 0xff) as u8 as u64) << 56) == v)
        by (bit_vector);
}

/// The packed second word of a record: type bits, zero `more` bit, the magic
/// `0b101`, zero depth, and the address truncated to its meaningful 48 bits.
pub open spec fn pack_record(kind: u64, addr: u64) -> u64 {
    (kind & 0b11) | (0b101u64 << 3) | ((addr & 0xffff_ffff_ffffu64) << 16)
}

/// The sixteen bytes one record occupies on disk.
pub open spec fn record_bytes(time: u64, addr: u64, kind: u64) -> Seq<u8> {
    u64_le(time) + u64_le(pack_record(kind, addr))
}

/// A decoded trace record: `kind` 0 is a function entry, 1 a function exit.
#[derive(Debug, Clone, Copy, PartialEq, Eq, Structural)]
pub struct TraceRecord {
    pub time: u64,
    pub addr: u64,
    pub kind: u64,
}

/// A record whose fields fit the packed layout: the type has two bits, the
/// address its meaningful 48.
pub open spec fn record_wf(r: TraceRecord) -> bool {
    r.kind <= 0b11 && r.addr <= 0xffff_ffff_ffffu64
}

/// Unpacking inverts packing on well-formed fields, and the fixed bits come
/// out as written.
pub proof fn lemma_pack_unpack(kind: u64, addr: u64)
    requires
        kind <= 0b11,
        addr <= 0xffff_ffff_ffffu64,
    ensures
        pack_record(kind, addr) & 0b11 == kind,
        (pack_record(kind, addr) >> 2) & 1 == 0,
        (pack_record(kind, addr) >> 3) & 0b111 == 0b101,
        pack_record(kind, addr) >> 16 == addr,
{
    let p = pack_record(kind, addr);
    assert(((kind & 0b11) | (0b101u64 << 3) | ((addr & 0xffff_ffff_ffffu64) << 16)) & 0b11 == kind
        && (((kind & 0b11) | (0b101u64 << 3) | ((addr & 0xffff_ffff_ffffu64) << 16)) >> 2) & 1 == 0
        && (((kind & 0b11) | (0b101u64 << 3) | ((addr & 0xffff_ffff_ffffu64) << 16)) >> 3) & 0b111
        == 0b101 && ((kind & 0b11) | (0b101u64 << 3) | ((addr & 0xffff_ffff_ffffu64) << 16)) >> 16
        == addr) by (bit_vector)
        requires
            kind <= 0b11,
            addr <= 0xffff_ffff_ffffu64,
    ;
}

/// The byte stream of a sequence of records, in order.
pub open spec fn serialized(recs: Seq<TraceRecord>) -> Seq<u8>
    decreases recs.len(),
{
    if recs.len() == 0 {
        Seq::empty()
    } else {
        record_bytes(recs[0].time, recs[0].addr, recs[0].kind) + serialized(recs.skip(1))
    }
}

/// Appending one record appends its sixteen bytes.
pub proof fn lemma_serialized_snoc(recs: Seq<TraceRecord>, r: TraceRecord)
    ensures
        serialized(recs.push(r)) == serialized(recs) + record_bytes(r.time, r.addr, r.kind),
    decreases recs.len(),
{
    if recs.len() == 0 {
        assert(recs.push(r)[0] == r);
        assert(recs.push(r).skip(1) =~= Seq::<TraceRecord>::empty());
        assert(serialized(recs.push(r)) == record_bytes(r.time, r.addr, r.kind) + serialized(
            Seq::<TraceRecord>::empty(),
        ));
        assert(serialized(Seq::<TraceRecord>::empty()) == Seq::<u8>::empty());
        assert(serialized(recs) == Seq::<u8>::empty());
        assert(serialized(recs.push(r)) =~= serialized(recs) + record_bytes(
            r.time,
            r.addr,
            r.kind,
        ));
    } else {
        assert(recs.push(r).skip(1) =~= recs.skip(1).push(r));
        lemma_serialized_snoc(recs.skip(1), r);
        assert(recs.push(r)[0] == recs[0]);
        assert(serialized(recs.push(r)) =~= serialized(recs) + record_bytes(
            r.time,
            r.addr,
            r.kind,
        ));
    }
}

/// The parse of a byte stream under the documented record layout: sixteen
/// bytes per record, rejecting streams whose length is not a multiple of
/// sixteen or whose fixed bits (`more`, magic) are wrong.
pub open spec fn parse_records(bytes: Seq<u8>) -> Option<Seq<TraceRecord>>
    decreases bytes.len(),
{
    if bytes.len() == 0 {
        Some(Seq::empty())
    } else if bytes.len() < 16 {
        None
    } else {
        let packed = le_val8(bytes.subrange(8, 16));
        if (packed >> 2) & 1 != 0 || (packed >> 3) & 0b111 != 0b101 {
            None
        } else {
            let rec = TraceRecord {
                time: le_val8(bytes.subrange(0, 8)),
                addr: packed >> 16,
                kind: packed & 0b11,
            };
            match parse_records(bytes.skip(16)) {
                None => None,
                Some(rest) => Some(seq![rec] + rest),
            }
        }
    }
}

/// Serializing a stream of well-formed records and parsing the bytes with the
/// documented layout yields the stream back.
pub proof fn lemma_record_round_trip(recs: Seq<TraceRecord>)
    requires
        forall|i: int| 0 <= i < recs.len() ==> record_wf(#[trigger] recs[i]),
    ensures
        parse_records(serialized(recs)) == Some(recs),
    decreases recs.len(),
{
    if recs.len() == 0 {
        assert(recs =~= Seq::<TraceRecord>::empty());
    } else {
        let r = recs[0];
        let head = record_bytes(r.time, r.addr, r.kind);
        let tail = serialized(recs.skip(1));
        let bytes = serialized(recs);
        assert(bytes == head + tail);
        assert(head.len() == 16);
        assert(bytes.subrange(0, 8) =~= u64_le(r.time));
        assert(bytes.subrange(8, 16) =~= u64_le(pack_record(r.kind, r.addr)));
        assert(bytes.skip(16) =~= tail);
        lemma_u64_le_inverse(r.time);
        lemma_u64_le_inverse(pack_record(r.kind, r.addr));
        lemma_pack_unpack(r.kind, r.addr);
        assert(forall|i: int| 0 <= i < recs.skip(1).len() ==> record_wf(#[trigger] recs.skip(1)[i]));
        lemma_record_round_trip(recs.skip(1));
        let packed = le_val8(bytes.subrange(8, 16));
        let rec = TraceRecord {
            time: le_val8(bytes.subrange(0, 8)),
            addr: packed >> 16,
            kind: packed & 0b11,
        };
        assert(rec == r);
        assert(seq![rec] + recs.skip(1) =~= recs);
    }
}

/// Relies on byteorder's `WriteBytesExt::write_u64` with `LittleEndian`:
/// appends exactly the eight little-endian bytes of `v`; writing to a
/// `Vec<u8>` cannot fail.
#[verifier::external_body]
pub(crate) fn write_u64_le(out: &mut Vec<u8>, v: u64)
    ensures
        final(out)@ == old(out)@ + u64_le(v),
{
    out.write_u64::<LittleEndian>(v).expect("Write interrupted");
}

/// Relies on byteorder's `WriteBytesExt::write_u32` with `LittleEndian`:
/// appends exactly the four little-endian bytes of `v`.
#[verifier::external_body]
pub(crate) fn write_u32_le(out: &mut Vec<u8>, v: u32)
    ensures
        final(out)@ == old(out)@ + u32_le(v),
{
    out.write_u32::<LittleEndian>(v).expect("Write interrupted");
}

/// Relies on byteorder's `WriteBytesExt::write_u16` with `LittleEndian`:
/// appends exactly the two little-endian bytes of `v`.
#[verifier::external_body]
pub(crate) fn write_u16_le(out: &mut Vec<u8>, v: u16)
    ensures
        final(out)@ == old(out)@ + u16_le(v),
{
    out.write_u16::<LittleEndian>(v).expect("Write interrupted");
}

/// Appends one 16-byte record: the timestamp, then the packed word.
pub fn write_event(out: &mut Vec<u8>, time: u64, addr: u64, kind: u64)
    ensures
        final(out)@ == old(out)@ + record_bytes(time, addr, kind),
{
    write_u64_le(out, time);
    let mut merged: u64 = 0;
    merged |= kind & 0b11;  // type = entry / exit
    merged |= 0b101u64 << 3;  // magic, always 0b101
    merged |= (addr & 0xffff_ffff_ffffu64) << 16;  // address, limited to 48 bit
    proof {
        assert((0u64 | (kind & 0b11) | (0b101u64 << 3)) | ((addr & 0xffff_ffff_ffffu64) << 16) == (
        kind & 0b11) | (0b101u64 << 3) | ((addr & 0xffff_ffff_ffffu64) << 16)) by (bit_vector);
        assert(merged == pack_record(kind, addr));
    }
    write_u64_le(out, merged);
    proof {
        assert(out@ =~= old(out)@ + record_bytes(time, addr, kind));
    }
}

/// Reads the 64-bit little-endian value at byte offset `off`.
pub fn read_u64_le(bytes: &Vec<u8>, off: usize) -> (v: u64)
    requires
        off + 8 <= bytes@.len(),
    ensures
        v == le_val8(bytes@.subrange(off as int, off as int + 8)),
{
    proof {
        assert(bytes.len() == bytes@.len());
    }
    let v = (bytes[off] as u64) | ((bytes[off + 1] as u64) << 8) | ((bytes[off + 2] as u64) << 16)
        | ((bytes[off + 3] as u64) << 24) | ((bytes[off + 4] as u64) << 32) | ((bytes[off
        + 5] as u64) << 40) | ((bytes[off + 6] as u64) << 48) | ((bytes[off + 7] as u64) << 56);
    proof {
        let s = bytes@.subrange(off as int, off as int + 8);
        assert(s[0] == bytes@[off as int]);
        assert(s[1] == bytes@[off as int + 1]);
        assert(s[2] == bytes@[off as int + 2]);
        assert(s[3] == bytes@[off as int + 3]);
        assert(s[4] == bytes@[off as int + 4]);
        assert(s[5] == bytes@[off as int + 5]);
        assert(s[6] == bytes@[off as int + 6]);
        assert(s[7] == bytes@[off as int + 7]);
    }
    v
}

/// Parses a byte stream as a packed record array, inverting the layout that
/// `write_event` produces. Rejects a stream whose length is not a multiple
/// of sixteen or whose fixed bits are wrong.
pub fn parse_trace(bytes: &Vec<u8>) -> (r: Option<Vec<TraceRecord>>)
    ensures
        match r {
            Some(recs) => parse_records(bytes@) == Some(recs@),
            None => parse_records(bytes@) is None,
        },
{
    let mut off: usize = 0;
    let mut acc: Vec<TraceRecord> = Vec::new();
    proof {
        assert(bytes@.skip(0) =~= bytes@);
    }
    while bytes.len() - off >= 16
        invariant
            off <= bytes@.len(),
            parse_records(bytes@) == match parse_records(bytes@.skip(off as int)) {
                Some(rest) => Some(acc@ + rest),
                None => None::<Seq<TraceRecord>>,
            },
        decreases bytes@.len() - off,
    {
        let time = read_u64_le(bytes, off);
        let packed = read_u64_le(bytes, off + 8);
        proof {
            let rem = bytes@.skip(off as int);
            assert(rem.subrange(0, 8) =~= bytes@.subrange(off as int, off as int + 8));
            assert(rem.subrange(8, 16) =~= bytes@.subrange(off as int + 8, off as int + 16));
            assert(rem.skip(16) =~= bytes@.skip(off as int + 16));
        }
        if (packed >> 2) & 1 != 0 || (packed >> 3) & 0b111 != 0b101 {
            return None;
        }
        let rec = TraceRecord { time, addr: packed >> 16, kind: packed & 0b11 };
        acc.push(rec);
        proof {
            let rem = bytes@.skip(off as int);
            match parse_records(rem.skip(16)) {
                Some(rest) => {
                    assert(acc@ + rest =~= acc@.drop_last() + (seq![rec] + rest));
                },
                None => {},
            }
        }
        off += 16;
    }
    if off < bytes.len() {
        // A trailing fragment shorter than one record: the stream is not a
        // whole number of records.
        return None;
    }
    proof {
        assert(bytes@.skip(off as int) =~= Seq::<u8>::empty());
        assert(acc@ + Seq::<TraceRecord>::empty() =~= acc@);
    }
    Some(acc)
}

/// The ASCII decimal digits of `n`, most significant first, no leading
/// zeros (a single `'0'` for zero); this is how the metadata files spell
/// numbers.
pub open spec fn dec_digits(n: nat) -> Seq<u8>
    decreases n,
{
    if n < 10 {
        seq![(48 + n) as u8]
    } else {
        dec_digits(n / 10).push((48 + n % 10) as u8)
    }
}

/// Renders `n` in decimal.
pub fn u64_dec_digits(n: u64) -> (r: Vec<u8>)
    ensures
        r@ == dec_digits(n as nat),
    decreases n,
{
    if n < 10 {
        let mut r: Vec<u8> = Vec::new();
        r.push(48 + n as u8);
        proof {
            assert(r@ =~= dec_digits(n as nat));
        }
        r
    } else {
        let mut r = u64_dec_digits(n / 10);
        r.push(48 + (n % 10) as u8);
        r
    }
}

/// Appends a byte slice.
pub fn append_bytes(out: &mut Vec<u8>, s: &[u8])
    ensures
        final(out)@ == old(out)@ + s@,
{
    let mut i: usize = 0;
    while i < s.len()
        invariant
            i <= s@.len(),
            out@ == old(out)@ + s@.subrange(0, i as int),
        decreases s@.len() - i,
    {
        let b = s[i];
        out.push(b);
        proof {
            assert(old(out)@ + s@.subrange(0, i as int + 1) =~= (old(out)@ + s@.subrange(
                0,
                i as int,
            )).push(s@[i as int]));
        }
        i += 1;
    }
    proof {
        assert(s@.subrange(0, s@.len() as int) =~= s@);
    }
}

/// Appends the UTF-8 bytes of a string (for the ASCII strings the metadata
/// uses, these are the characters' code points).
pub fn append_str(out: &mut Vec<u8>, s: &str)
    ensures
        final(out)@ == old(out)@ + encode_utf8(s@),
{
    append_bytes(out, s.as_bytes());
}

/// Appends the decimal digits of `n`.
pub fn append_dec(out: &mut Vec<u8>, n: u64)
    ensures
        final(out)@ == old(out)@ + dec_digits(n as nat),
{
    let digits = u64_dec_digits(n);
    append_bytes(out, digits.as_slice());
}

} // verus!
