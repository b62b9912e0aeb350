//! The frame checksum and its place on the wire.

use vstd::prelude::*;

verus! {

/// The CRC-16/XMODEM checksum of `bytes`: polynomial `0x1021`, initial value
/// zero, no reflection, no final xor.
pub uninterp spec fn crc16_xmodem(bytes: Seq<u8>) -> u16;

/// A 16-bit value as two bytes, most significant first.
pub open spec fn be16(value: u16) -> Seq<u8> {
    seq![(value / 256) as u8, (value % 256) as u8]
}

/// Calls `crc::Crc::<u16>::checksum` on a `Crc` made from the catalogue entry
/// `crc::CRC_16_XMODEM`. Not proved: that the crate's table-driven routine
/// returns the CRC-16/XMODEM checksum of the bytes it is given. The routine
/// reads its input and its own table only, so equal input gives equal output.
#[verifier::external_body]
pub(crate) fn checksum(bytes: &[u8]) -> (sum: u16)
    ensures
        sum == crc16_xmodem(bytes@),
{
    let xmodem: crc::Crc<u16> = crc::Crc::<u16>::new(&crc::CRC_16_XMODEM);
    xmodem.checksum(bytes)
}

/// Calls `zerocopy::byteorder::big_endian::U16::new` and `to_bytes` on the
/// result. Not proved: that the two bytes which that type stores are the
/// value's big-endian encoding, high byte first.
#[verifier::external_body]
pub(crate) fn checksum_field(sum: u16) -> (field: [u8; 2])
    ensures
        field@ == be16(sum),
{
    zerocopy::byteorder::big_endian::U16::new(sum).to_bytes()
}

} // verus!
