//! The CRC-16/USB checksum: width 16, polynomial 0x8005 processed
//! reflected (0xA001), initial value 0xFFFF, reflected input and output,
//! final XOR 0xFFFF.

use vstd::prelude::*;

use crc::{Crc, CRC_16_USB};

verus! {

/// One reflected shift of the CRC register: shift right, and fold in the
/// reflected polynomial when the bit shifted out is set.
pub open spec fn crc16_usb_shift(reg: u16) -> u16 {
    if (reg & 1u16) == 1u16 {
        (reg >> 1u16) ^ 0xA001u16
    } else {
        reg >> 1u16
    }
}

/// The CRC register after one more byte: the byte is XORed into the low
/// bits, then the register is shifted eight times.
pub open spec fn crc16_usb_byte(reg: u16, byte: u8) -> u16 {
    crc16_usb_shift(
        crc16_usb_shift(
            crc16_usb_shift(
                crc16_usb_shift(
                    crc16_usb_shift(
                        crc16_usb_shift(crc16_usb_shift(crc16_usb_shift(reg ^ (byte as u16)))),
                    ),
                ),
            ),
        ),
    )
}

/// The CRC register after all of `data`, starting from 0xFFFF.
pub open spec fn crc16_usb_register(data: Seq<u8>) -> u16
    decreases data.len(),
{
    if data.len() == 0 {
        0xFFFFu16
    } else {
        crc16_usb_byte(crc16_usb_register(data.drop_last()), data.last())
    }
}

/// The CRC-16/USB checksum of `data`: the final register XOR 0xFFFF.
pub open spec fn crc16_usb(data: Seq<u8>) -> u16 {
    crc16_usb_register(data) ^ 0xFFFFu16
}

/// Calls `crc::Crc::<u16>::checksum` with the `CRC_16_USB` catalog algorithm
/// (poly 0x8005, init 0xFFFF, refin and refout, xorout 0xFFFF).
/// Trusted: the result is the CRC-16/USB of exactly the bytes passed in, as
/// `crc16_usb` states that algorithm bit by bit.
#[verifier::external_body]
pub(crate) fn crc16_usb_checksum(data: &[u8]) -> (sum: u16)
    ensures
        sum == crc16_usb(data@),
{
    Crc::<u16>::new(&CRC_16_USB).checksum(data)
}

/// The stated algorithm gives the catalog's check value for CRC-16/USB:
/// 0xB4C8 for the ASCII bytes of `123456789`.
pub proof fn lemma_crc16_usb_check_value()
    ensures
        crc16_usb(seq![0x31u8, 0x32u8, 0x33u8, 0x34u8, 0x35u8, 0x36u8, 0x37u8, 0x38u8, 0x39u8])
            == 0xB4C8u16,
{
    let s9 = seq![0x31u8, 0x32u8, 0x33u8, 0x34u8, 0x35u8, 0x36u8, 0x37u8, 0x38u8, 0x39u8];
    let s8 = s9.drop_last();
    let s7 = s8.drop_last();
    let s6 = s7.drop_last();
    let s5 = s6.drop_last();
    let s4 = s5.drop_last();
    let s3 = s4.drop_last();
    let s2 = s3.drop_last();
    let s1 = s2.drop_last();
    let s0 = s1.drop_last();
    assert(s0.len() == 0);
    assert(crc16_usb_register(s0) == 0xFFFFu16);
    assert(s1 =~= seq![0x31u8]);
    assert(s2 =~= seq![0x31u8, 0x32u8]);
    assert(s3 =~= seq![0x31u8, 0x32u8, 0x33u8]);
    assert(s4 =~= seq![0x31u8, 0x32u8, 0x33u8, 0x34u8]);
    assert(s5 =~= seq![0x31u8, 0x32u8, 0x33u8, 0x34u8, 0x35u8]);
    assert(s6 =~= seq![0x31u8, 0x32u8, 0x33u8, 0x34u8, 0x35u8, 0x36u8]);
    assert(s7 =~= seq![0x31u8, 0x32u8, 0x33u8, 0x34u8, 0x35u8, 0x36u8, 0x37u8]);
    assert(s8 =~= seq![0x31u8, 0x32u8, 0x33u8, 0x34u8, 0x35u8, 0x36u8, 0x37u8, 0x38u8]);
    assert(crc16_usb_byte(0xFFFFu16, 0x31u8) == 0x947Eu16) by (bit_vector);
    assert(crc16_usb_byte(0x947Eu16, 0x32u8) == 0xF595u16) by (bit_vector);
    assert(crc16_usb_byte(0xF595u16, 0x33u8) == 0x7A75u16) by (bit_vector);
    assert(crc16_usb_byte(0x7A75u16, 0x34u8) == 0x30BAu16) by (bit_vector);
    assert(crc16_usb_byte(0x30BAu16, 0x35u8) == 0xA471u16) by (bit_vector);
    assert(crc16_usb_byte(0xA471u16, 0x36u8) == 0x32E4u16) by (bit_vector);
    assert(crc16_usb_byte(0x32E4u16, 0x37u8) == 0x9D73u16) by (bit_vector);
    assert(crc16_usb_byte(0x9D73u16, 0x38u8) == 0x37DDu16) by (bit_vector);
    assert(crc16_usb_byte(0x37DDu16, 0x39u8) == 0x4B37u16) by (bit_vector);
    assert(0x4B37u16 ^ 0xFFFFu16 == 0xB4C8u16) by (bit_vector);
    assert(crc16_usb_register(s1) == 0x947Eu16);
    assert(crc16_usb_register(s2) == 0xF595u16);
    assert(crc16_usb_register(s3) == 0x7A75u16);
    assert(crc16_usb_register(s4) == 0x30BAu16);
    assert(crc16_usb_register(s5) == 0xA471u16);
    assert(crc16_usb_register(s6) == 0x32E4u16);
    assert(crc16_usb_register(s7) == 0x9D73u16);
    assert(crc16_usb_register(s8) == 0x37DDu16);
    assert(crc16_usb_register(s9) == 0x4B37u16);
}

} // verus!
