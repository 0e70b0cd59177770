//! Assembly of the whole container: signature, start header, stored data and
//! header, with the start header filled in once the rest is known.

use vstd::prelude::*;
use crate::bytes::{crc32, crc32_of, le_bytes, le_u32, le_u64, push_all};
use crate::header::{header_bytes, write_header, MAX_NAME_CHARS};

verus! {

/// Bytes before the start header: signature and version.
pub const PREAMBLE_LEN: usize = 8;

/// Length of the start header record.
pub const START_HEADER_LEN: usize = 24;

/// Offset at which the stored data begins.
pub const DATA_OFFSET: usize = 32;

/// The six signature bytes, then the format version 0.4.
pub open spec fn preamble_bytes() -> Seq<u8> {
    seq![0x37u8, 0x7Au8, 0xBCu8, 0xAFu8, 0x27u8, 0x1Cu8, 0x00u8, 0x04u8]
}

/// What the start header checksums: where the header lies after the data,
/// how long it is, and its checksum.
pub open spec fn next_header_fields(offset: nat, size: nat, crc: u32) -> Seq<u8> {
    le_bytes(offset, 8) + le_bytes(size, 8) + le_bytes(crc as nat, 4)
}

/// The start header record: the checksum of the fields, then the fields.
pub open spec fn start_header_bytes(offset: nat, size: nat, crc: u32) -> Seq<u8> {
    le_bytes(crc32_of(next_header_fields(offset, size, crc)) as nat, 4)
        + next_header_fields(offset, size, crc)
}

/// The start header record for a header that directly follows `payload_len`
/// bytes of data.
pub open spec fn start_header_for(payload_len: nat, header: Seq<u8>) -> Seq<u8> {
    start_header_bytes(payload_len, header.len(), crc32_of(header))
}

/// The container that stores `payload` under the name `name`.
pub open spec fn archive_bytes(name: Seq<char>, payload: Seq<u8>) -> Seq<u8> {
    let header = header_bytes(name, payload.len());
    preamble_bytes() + start_header_for(payload.len(), header) + payload + header
}

/// Appends the signature and version bytes.
pub fn write_preamble(out: &mut Vec<u8>)
    ensures
        final(out)@ == old(out)@ + preamble_bytes(),
{
    out.push(0x37);
    out.push(0x7A);
    out.push(0xBC);
    out.push(0xAF);
    out.push(0x27);
    out.push(0x1C);
    out.push(0x00);
    out.push(0x04);
    assert(out@ =~= old(out)@ + preamble_bytes());
}

/// The 20 bytes that the start header checksums.
pub fn next_header_block(offset: u64, size: u64, crc: u32) -> (r: Vec<u8>)
    ensures
        r@ == next_header_fields(offset as nat, size as nat, crc),
{
    let mut r: Vec<u8> = Vec::new();
    let a = le_u64(offset);
    push_all(&mut r, &a);
    let b = le_u64(size);
    push_all(&mut r, &b);
    let c = le_u32(crc);
    push_all(&mut r, &c);
    assert(r@ =~= next_header_fields(offset as nat, size as nat, crc));
    r
}

/// The start header record, given the checksum of `fields`.
pub fn seal_start_header(fields: &Vec<u8>, fields_crc: u32) -> (r: Vec<u8>)
    ensures
        r@ == le_bytes(fields_crc as nat, 4) + fields@,
{
    let mut r: Vec<u8> = Vec::new();
    let c = le_u32(fields_crc);
    push_all(&mut r, &c);
    push_all(&mut r, fields.as_slice());
    r
}

/// The start header record that locates and checksums `header`, which
/// directly follows `payload_len` bytes of data.
pub fn start_header(payload_len: u64, header: &Vec<u8>) -> (r: Vec<u8>)
    ensures
        r@ == start_header_for(payload_len as nat, header@),
        r@.len() == START_HEADER_LEN,
{
    let header_crc = crc32(header.as_slice());
    let fields = next_header_block(payload_len, header.len() as u64, header_crc);
    let fields_crc = crc32(fields.as_slice());
    seal_start_header(&fields, fields_crc)
}

/// Appends the container that stores `payload` under the name `filename`.
/// The start header is first reserved as zeros, then filled in once the data
/// and the header after it are written.
pub fn write_archive(filename: &str, payload: &[u8], out: &mut Vec<u8>)
    requires
        filename@.len() <= MAX_NAME_CHARS,
    ensures
        final(out)@ == old(out)@ + archive_bytes(filename@, payload@),
{
    let base = out.len();
    write_preamble(out);
    let mut i: usize = 0;
    while i < START_HEADER_LEN
        invariant
            i <= START_HEADER_LEN,
            out@ == old(out)@ + preamble_bytes() + Seq::new(i as nat, |j: int| 0u8),
        decreases START_HEADER_LEN - i,
    {
        out.push(0);
        i = i + 1;
        assert(out@ =~= old(out)@ + preamble_bytes() + Seq::new(i as nat, |j: int| 0u8));
    }
    push_all(out, payload);
    let payload_len = payload.len() as u64;
    let mut header: Vec<u8> = Vec::new();
    write_header(filename, &mut header, payload_len);
    push_all(out, header.as_slice());
    let record = start_header(payload_len, &header);
    let ghost written = out@;
    let total = out.len();
    let mut k: usize = 0;
    while k < START_HEADER_LEN
        invariant
            k <= START_HEADER_LEN,
            record@.len() == START_HEADER_LEN,
            base == old(out)@.len(),
            out@.len() == written.len(),
            written.len() == total,
            written.len() >= base + DATA_OFFSET,
            forall|j: int| 0 <= j < out@.len() ==> #[trigger] out@[j] == if base + PREAMBLE_LEN <= j
                < base + PREAMBLE_LEN + k {
                record@[j - base - PREAMBLE_LEN]
            } else {
                written[j]
            },
        decreases START_HEADER_LEN - k,
    {
        out.set(base + PREAMBLE_LEN + k, record[k]);
        k = k + 1;
    }
    assert(out@ =~= old(out)@ + archive_bytes(filename@, payload@));
}

} // verus!

verus! {

/// The container's layout: preamble, the start header for the header that
/// was built, the data verbatim, then that same header.
pub proof fn lemma_archive_layout(name: Seq<char>, payload: Seq<u8>)
    ensures
        ({
            let a = archive_bytes(name, payload);
            let header = header_bytes(name, payload.len());
            &&& a.len() == DATA_OFFSET + payload.len() + header.len()
            &&& a.subrange(0, 8) == preamble_bytes()
            &&& a.subrange(8, 32) == start_header_for(payload.len(), header)
            &&& a.subrange(32, 32 + payload.len() as int) == payload
            &&& a.subrange(32 + payload.len() as int, a.len() as int) == header
        }),
{
    let a = archive_bytes(name, payload);
    let header = header_bytes(name, payload.len());
    let s = start_header_for(payload.len(), header);
    assert(s.len() == 24);
    assert(a.subrange(0, 8) =~= preamble_bytes());
    assert(a.subrange(8, 32) =~= s);
    assert(a.subrange(32, 32 + payload.len() as int) =~= payload);
    assert(a.subrange(32 + payload.len() as int, a.len() as int) =~= header);
}

/// The data is stored verbatim: the container's bytes from offset 32 on, as
/// many as the input holds, are the input.
pub proof fn lemma_payload_verbatim(name: Seq<char>, payload: Seq<u8>)
    ensures
        archive_bytes(name, payload).subrange(
            DATA_OFFSET as int,
            DATA_OFFSET + payload.len() as int,
        ) == payload,
{
    lemma_archive_layout(name, payload);
}

/// The next-header offset, the eight bytes at offset 12, reads back as the
/// length of the stored data, zero included.
pub proof fn lemma_next_header_offset(name: Seq<char>, payload: Seq<u8>)
    requires
        payload.len() <= u64::MAX,
    ensures
        crate::bytes::le_value(archive_bytes(name, payload).subrange(12, 20)) == payload.len(),
{
    lemma_archive_layout(name, payload);
    let a = archive_bytes(name, payload);
    let header = header_bytes(name, payload.len());
    let s = start_header_for(payload.len(), header);
    assert(a.subrange(12, 20) =~= s.subrange(4, 12));
    assert(s.subrange(4, 12) =~= le_bytes(payload.len(), 8));
    vstd::arithmetic::power2::lemma2_to64();
    crate::bytes::lemma_le_round_trip(payload.len(), 8);
}

/// The next-header checksum (offset 28) is the checksum of the header bytes
/// written after the data, and the start header checksum (offset 8) is the
/// checksum of the twenty bytes at offsets 12 to 32.
pub proof fn lemma_checksums(name: Seq<char>, payload: Seq<u8>)
    ensures
        ({
            let a = archive_bytes(name, payload);
            &&& crate::bytes::le_value(a.subrange(28, 32)) == crc32_of(
                a.subrange(DATA_OFFSET + payload.len() as int, a.len() as int),
            )
            &&& crate::bytes::le_value(a.subrange(8, 12)) == crc32_of(a.subrange(12, 32))
        }),
{
    lemma_archive_layout(name, payload);
    let a = archive_bytes(name, payload);
    let header = header_bytes(name, payload.len());
    let s = start_header_for(payload.len(), header);
    let fields = next_header_fields(payload.len(), header.len(), crc32_of(header));
    assert(a.subrange(28, 32) =~= s.subrange(20, 24));
    assert(s.subrange(20, 24) =~= le_bytes(crc32_of(header) as nat, 4));
    assert(a.subrange(8, 12) =~= s.subrange(0, 4));
    assert(s.subrange(0, 4) =~= le_bytes(crc32_of(fields) as nat, 4));
    assert(a.subrange(12, 32) =~= fields);
    vstd::arithmetic::power2::lemma2_to64();
    crate::bytes::lemma_le_round_trip(crc32_of(header) as nat, 4);
    crate::bytes::lemma_le_round_trip(crc32_of(fields) as nat, 4);
}

} // verus!
