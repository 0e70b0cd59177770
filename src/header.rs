//! The metadata block that describes the container's single stored file.

use vstd::prelude::*;
use crate::bytes::{le_bytes, le_u16, push_all};
use crate::varnum::{varnum, write_varnum};

verus! {

broadcast use vstd::string::axiom_spec_iter;

/// Property identifiers of the container's header.
pub const K_END: u8 = 0x00;
pub const K_HEADER: u8 = 0x01;
pub const K_MAIN_STREAMS_INFO: u8 = 0x04;
pub const K_FILES_INFO: u8 = 0x05;
pub const K_PACK_INFO: u8 = 0x06;
pub const K_UNPACK_INFO: u8 = 0x07;
pub const K_SIZE: u8 = 0x09;
pub const K_FOLDER: u8 = 0x0B;
pub const K_CODERS_UNPACK_SIZE: u8 = 0x0C;
pub const K_NAME: u8 = 0x11;

/// Method id of the coder that stores data unchanged.
pub const COPY_METHOD: u8 = 0x00;

/// Longest name, in characters, whose property size fits in 64 bits.
pub const MAX_NAME_CHARS: u64 = 0x3FFF_FFFF_FFFF_FFFF;

/// The UTF-16 code units of one character: itself below 0x10000, else a surrogate pair.
pub open spec fn char_utf16(c: char) -> Seq<u16> {
    let x = c as u32 as int;
    if x < 0x10000 {
        seq![x as u16]
    } else {
        seq![(0xD800 + (x - 0x10000) / 0x400) as u16, (0xDC00 + (x - 0x10000) % 0x400) as u16]
    }
}

/// The UTF-16 code units of a text.
pub open spec fn utf16_units(s: Seq<char>) -> Seq<u16>
    decreases s.len(),
{
    if s.len() == 0 {
        seq![]
    } else {
        utf16_units(s.drop_last()) + char_utf16(s.last())
    }
}

/// Code units laid out two bytes each, low byte first.
pub open spec fn units_le(u: Seq<u16>) -> Seq<u8>
    decreases u.len(),
{
    if u.len() == 0 {
        seq![]
    } else {
        units_le(u.drop_last()) + le_bytes(u.last() as nat, 2)
    }
}

/// The name property's value: the external-stream flag (0), the name in
/// UTF-16LE, and a null code unit.
pub open spec fn name_property(name: Seq<char>) -> Seq<u8> {
    seq![0u8] + units_le(utf16_units(name)) + seq![0u8, 0u8]
}

/// Pack info: one stream at offset 0 whose size is the payload length.
pub open spec fn pack_info_bytes(payload_len: nat) -> Seq<u8> {
    seq![K_PACK_INFO] + varnum(0) + varnum(1) + seq![K_SIZE] + varnum(payload_len) + seq![K_END]
}

/// Unpack info: one folder of one copy coder whose output is the payload length.
pub open spec fn unpack_info_bytes(payload_len: nat) -> Seq<u8> {
    seq![K_UNPACK_INFO, K_FOLDER] + varnum(1) + seq![0u8] + varnum(1) + seq![
        1u8,
        COPY_METHOD,
        K_CODERS_UNPACK_SIZE,
    ] + varnum(payload_len) + seq![K_END, K_END]
}

/// Files info: one file, with its name property.
pub open spec fn files_info_bytes(name: Seq<char>) -> Seq<u8> {
    seq![K_FILES_INFO, 1u8, K_NAME] + varnum(name_property(name).len()) + name_property(name)
        + seq![K_END, K_END]
}

/// The whole header for a file called `name` holding `payload_len` bytes.
pub open spec fn header_bytes(name: Seq<char>, payload_len: nat) -> Seq<u8> {
    seq![K_HEADER, K_MAIN_STREAMS_INFO] + pack_info_bytes(payload_len) + unpack_info_bytes(
        payload_len,
    ) + files_info_bytes(name)
}

proof fn lemma_units_len(s: Seq<char>)
    ensures
        utf16_units(s).len() <= 2 * s.len(),
    decreases s.len(),
{
    if s.len() > 0 {
        lemma_units_len(s.drop_last());
    }
}

proof fn lemma_units_le_len(u: Seq<u16>)
    ensures
        units_le(u).len() == 2 * u.len(),
    decreases u.len(),
{
    if u.len() > 0 {
        lemma_units_le_len(u.drop_last());
    }
}

/// The UTF-16 code units of `name`.
fn utf16_of(name: &str) -> (r: Vec<u16>)
    ensures
        r@ == utf16_units(name@),
{
    let mut units: Vec<u16> = Vec::new();
    for c in it: name.chars()
        invariant
            it.seq() == name@,
            units@ == utf16_units(it.seq().take(it.index() as int)),
    {
        let x: u32 = c as u32;
        if x < 0x10000 {
            units.push(x as u16);
        } else {
            let y: u32 = x - 0x10000;
            units.push((0xD800 + y / 0x400) as u16);
            units.push((0xDC00 + y % 0x400) as u16);
        }
        assert(it.seq().take(it.index() + 1).drop_last() == it.seq().take(it.index() as int));
    }
    assert(name@.take(name@.len() as int) == name@);
    units
}

fn write_units(out: &mut Vec<u8>, units: &Vec<u16>)
    ensures
        final(out)@ == old(out)@ + units_le(units@),
{
    let mut i: usize = 0;
    while i < units.len()
        invariant
            i <= units@.len(),
            out@ == old(out)@ + units_le(units@.take(i as int)),
        decreases units@.len() - i,
    {
        let b = le_u16(units[i]);
        push_all(out, &b);
        i = i + 1;
        assert(units@.take(i as int).drop_last() == units@.take(i - 1));
    }
    assert(units@.take(units@.len() as int) == units@);
}

fn write_pack_info(out: &mut Vec<u8>, payload_len: u64)
    ensures
        final(out)@ == old(out)@ + pack_info_bytes(payload_len as nat),
{
    out.push(K_PACK_INFO);
    write_varnum(out, 0);
    write_varnum(out, 1);
    out.push(K_SIZE);
    write_varnum(out, payload_len);
    out.push(K_END);
    assert(out@ =~= old(out)@ + pack_info_bytes(payload_len as nat));
}

fn write_unpack_info(out: &mut Vec<u8>, payload_len: u64)
    ensures
        final(out)@ == old(out)@ + unpack_info_bytes(payload_len as nat),
{
    out.push(K_UNPACK_INFO);
    out.push(K_FOLDER);
    write_varnum(out, 1);
    out.push(0);
    write_varnum(out, 1);
    out.push(1);
    out.push(COPY_METHOD);
    out.push(K_CODERS_UNPACK_SIZE);
    write_varnum(out, payload_len);
    out.push(K_END);
    out.push(K_END);
    assert(out@ =~= old(out)@ + unpack_info_bytes(payload_len as nat));
}

fn write_files_info(out: &mut Vec<u8>, filename: &str)
    requires
        filename@.len() <= MAX_NAME_CHARS,
    ensures
        final(out)@ == old(out)@ + files_info_bytes(filename@),
{
    let units = utf16_of(filename);
    proof {
        lemma_units_len(filename@);
        lemma_units_le_len(units@);
    }
    let property_size: u64 = 1 + 2 * (units.len() as u64) + 2;
    assert(property_size == name_property(filename@).len());
    out.push(K_FILES_INFO);
    out.push(1);
    out.push(K_NAME);
    write_varnum(out, property_size);
    out.push(0);
    write_units(out, &units);
    out.push(0);
    out.push(0);
    out.push(K_END);
    out.push(K_END);
    assert(out@ =~= old(out)@ + files_info_bytes(filename@));
}

/// Appends the header that describes one file called `filename` whose
/// stored data is `payload_len` bytes long.
pub fn write_header(filename: &str, out: &mut Vec<u8>, payload_len: u64)
    requires
        filename@.len() <= MAX_NAME_CHARS,
    ensures
        final(out)@ == old(out)@ + header_bytes(filename@, payload_len as nat),
{
    out.push(K_HEADER);
    out.push(K_MAIN_STREAMS_INFO);
    write_pack_info(out, payload_len);
    write_unpack_info(out, payload_len);
    write_files_info(out, filename);
    assert(out@ =~= old(out)@ + header_bytes(filename@, payload_len as nat));
}

} // verus!

verus! {

/// The header is a function of the name and the data length alone: two
/// headers written for the same name and length are the same bytes, so one
/// measured before writing is the one that is written.
pub proof fn lemma_header_deterministic(
    name: Seq<char>,
    payload_len: nat,
    first: Seq<u8>,
    second: Seq<u8>,
)
    requires
        first == header_bytes(name, payload_len),
        second == header_bytes(name, payload_len),
    ensures
        first == second,
{
}

} // verus!
