//! CRC-32C checksums of data ids and the slot a data id falls in.
use vstd::prelude::*;
use vstd::utf8::encode_utf8;

verus! {

/// One step of the reflected CRC-32C register: shift right by one bit,
/// folding in the reversed Castagnoli polynomial when a one falls out.
pub open spec fn crc32c_shift(c: u32) -> u32 {
    if c & 1 == 1 {
        (c >> 1u32) ^ 0x82F6_3B78u32
    } else {
        c >> 1u32
    }
}

/// The register after taking in the byte `b`: XORed into the low bits, then
/// shifted eight times.
pub open spec fn crc32c_byte(c: u32, b: u8) -> u32 {
    let x = c ^ (b as u32);
    crc32c_shift(
        crc32c_shift(crc32c_shift(crc32c_shift(crc32c_shift(crc32c_shift(crc32c_shift(crc32c_shift(x))))))),
    )
}

/// The register after taking in `data`, starting with all bits set.
pub open spec fn crc32c_register(data: Seq<u8>) -> u32
    decreases data.len(),
{
    if data.len() == 0 {
        0xFFFF_FFFFu32
    } else {
        crc32c_byte(crc32c_register(data.drop_last()), data.last())
    }
}

/// The CRC-32C checksum (Castagnoli polynomial, reflected, with the
/// register set to all ones before and inverted after) of a byte string.
pub open spec fn crc32c_of(data: Seq<u8>) -> u32 {
    crc32c_register(data) ^ 0xFFFF_FFFFu32
}

/// The checksum above gives the standard CRC-32C check value: 0xE3069283
/// for the ASCII bytes of "123456789".
proof fn crc32c_check_value() {
    let d: Seq<u8> = seq![0x31u8, 0x32u8, 0x33u8, 0x34u8, 0x35u8, 0x36u8, 0x37u8, 0x38u8, 0x39u8];
    assert(crc32c_byte(0xFFFF_FFFFu32, 0x31u8) == 0x6F0A_661Cu32) by (bit_vector);
    assert(crc32c_byte(0x6F0A_661Cu32, 0x32u8) == 0x8CAA_3B9Fu32) by (bit_vector);
    assert(crc32c_byte(0x8CAA_3B9Fu32, 0x33u8) == 0xEF84_D04Du32) by (bit_vector);
    assert(crc32c_byte(0xEF84_D04Du32, 0x34u8) == 0x09C5_0B11u32) by (bit_vector);
    assert(crc32c_byte(0x09C5_0B11u32, 0x35u8) == 0xE72E_DCCAu32) by (bit_vector);
    assert(crc32c_byte(0xE72E_DCCAu32, 0x36u8) == 0xBECA_8E79u32) by (bit_vector);
    assert(crc32c_byte(0xBECA_8E79u32, 0x37u8) == 0xEDBD_6815u32) by (bit_vector);
    assert(crc32c_byte(0xEDBD_6815u32, 0x38u8) == 0x9F78_7F65u32) by (bit_vector);
    assert(crc32c_byte(0x9F78_7F65u32, 0x39u8) == 0x1CF9_6D7Cu32) by (bit_vector);
    assert(0x1CF9_6D7Cu32 ^ 0xFFFF_FFFFu32 == 0xE306_9283u32) by (bit_vector);
    assert(crc32c_register(d.take(0)) == 0xFFFF_FFFFu32);
    assert(d.take(1).drop_last() =~= d.take(0));
    assert(d.take(2).drop_last() =~= d.take(1));
    assert(d.take(3).drop_last() =~= d.take(2));
    assert(d.take(4).drop_last() =~= d.take(3));
    assert(d.take(5).drop_last() =~= d.take(4));
    assert(d.take(6).drop_last() =~= d.take(5));
    assert(d.take(7).drop_last() =~= d.take(6));
    assert(d.take(8).drop_last() =~= d.take(7));
    assert(d.take(9).drop_last() =~= d.take(8));
    assert(crc32c_register(d.take(1)) == 0x6F0A_661Cu32);
    assert(crc32c_register(d.take(2)) == 0x8CAA_3B9Fu32);
    assert(crc32c_register(d.take(3)) == 0xEF84_D04Du32);
    assert(crc32c_register(d.take(4)) == 0x09C5_0B11u32);
    assert(crc32c_register(d.take(5)) == 0xE72E_DCCAu32);
    assert(crc32c_register(d.take(6)) == 0xBECA_8E79u32);
    assert(crc32c_register(d.take(7)) == 0xEDBD_6815u32);
    assert(crc32c_register(d.take(8)) == 0x9F78_7F65u32);
    assert(crc32c_register(d.take(9)) == 0x1CF9_6D7Cu32);
    assert(d.take(9) =~= d);
    assert(crc32c_of(d) == 0xE306_9283u32);
}

/// Calls `crc32c::crc32c`, the CRC-32C checksum of `data`; the contract
/// states that checksum, bit by bit, as `crc32c_of`.
#[verifier::external_body]
fn crc32c_checksum(data: &[u8]) -> (r: u32)
    ensures
        r == crc32c_of(data@),
{
    crc32c::crc32c(data)
}

/// The slot of a data id among `slot_num` slots: the checksum of its UTF-8
/// bytes modulo the slot count.
pub open spec fn slot_for(data_info_id: Seq<char>, slot_num: u32) -> u32
    recommends
        slot_num > 0,
{
    (crc32c_of(encode_utf8(data_info_id)) % slot_num) as u32
}

/// The slot that a checksum falls in among `slot_num` slots.
pub fn slot_of_checksum(checksum: u32, slot_num: u32) -> (slot: u32)
    requires
        slot_num > 0,
    ensures
        slot == checksum % slot_num,
        slot < slot_num,
{
    checksum % slot_num
}

/// The slot of `data_info_id` among `slot_num` slots.
pub fn slot_of_key(data_info_id: &str, slot_num: u32) -> (slot: u32)
    requires
        slot_num > 0,
    ensures
        slot == slot_for(data_info_id@, slot_num),
        slot < slot_num,
{
    let checksum = crc32c_checksum(data_info_id.as_bytes());
    slot_of_checksum(checksum, slot_num)
}

} // verus!
