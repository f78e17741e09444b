//! The Firmware ACPI Control Structure.
use vstd::prelude::*;
use crate::acpi::bytes::{le32, push_u32, push_zeros, zeros};

verus! {

/// The 64 bytes of the FACS: signature, length 64, and all other fields
/// zero.
pub open spec fn facs_bytes() -> Seq<u8> {
    seq![0x46u8, 0x41, 0x43, 0x53] + le32(64) + le32(0) + le32(0) + le32(0) + le32(0) + zeros(40)
}

/// Appends the little-endian bytes of `value`.
fn append_u32_le(buf: &mut Vec<u8>, value: u32)
    ensures
        final(buf)@ == old(buf)@ + le32(value),
{
    push_u32(buf, value);
}

/// Builds the FACS.
pub fn build_facs() -> (facs: Vec<u8>)
    ensures
        facs@ == facs_bytes(),
        facs@.len() == 64,
{
    let mut facs: Vec<u8> = Vec::with_capacity(64);
    facs.push(0x46);  // 'F'
    facs.push(0x41);  // 'A'
    facs.push(0x43);  // 'C'
    facs.push(0x53);  // 'S'
    append_u32_le(&mut facs, 64);  // Length
    append_u32_le(&mut facs, 0);  // Hardware Signature
    append_u32_le(&mut facs, 0);  // Firmware Waking Vector
    append_u32_le(&mut facs, 0);  // Global Lock
    append_u32_le(&mut facs, 0);  // Flags
    push_zeros(&mut facs, 40);  // Reserved
    assert(facs@ =~= facs_bytes());
    facs
}

} // verus!
