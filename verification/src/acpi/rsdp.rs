//! The Root System Description Pointer (ACPI 1.0 form, 20 bytes).
use vstd::prelude::*;
use crate::acpi::bytes::{le32, push_bytes, push_u32};
use crate::acpi::checksum::{acpi_checksum, byte_sum, checksum_of, lemma_checksum_zeroes_sum};
use crate::acpi::config::PlatformConfig;

verus! {

/// The RSDP before its checksum: "RSD PTR ", a zero checksum, the OEM ID,
/// revision 0, and the 32-bit RSDT address.
pub open spec fn rsdp_raw(config: PlatformConfig, rsdt_address: u64) -> Seq<u8> {
    seq![0x52u8, 0x53, 0x44, 0x20, 0x50, 0x54, 0x52, 0x20] + seq![0u8] + config.oem_id@ + seq![0u8]
        + le32(rsdt_address as u32)
}

/// The RSDP with its checksum at offset 8.
pub open spec fn rsdp_bytes(config: PlatformConfig, rsdt_address: u64) -> Seq<u8> {
    rsdp_raw(config, rsdt_address).update(8, checksum_of(rsdp_raw(config, rsdt_address)))
}

/// Builds the RSDP that points at the RSDT at `rsdt_address` (truncated to
/// 32 bits).
pub fn build_rsdp(config: &PlatformConfig, rsdt_address: u64) -> (rsdp: Vec<u8>)
    ensures
        rsdp@ == rsdp_bytes(*config, rsdt_address),
        rsdp@.len() == 20,
        byte_sum(rsdp@) % 256 == 0,
        rsdp@.subrange(16, 20) == le32(rsdt_address as u32),
{
    let mut rsdp: Vec<u8> = Vec::with_capacity(20);
    rsdp.push(0x52);  // 'R'
    rsdp.push(0x53);  // 'S'
    rsdp.push(0x44);  // 'D'
    rsdp.push(0x20);  // ' '
    rsdp.push(0x50);  // 'P'
    rsdp.push(0x54);  // 'T'
    rsdp.push(0x52);  // 'R'
    rsdp.push(0x20);  // ' '
    rsdp.push(0);
    push_bytes(&mut rsdp, &config.oem_id);
    rsdp.push(0);
    push_u32(&mut rsdp, rsdt_address as u32);
    assert(rsdp@ =~= rsdp_raw(*config, rsdt_address));
    let c = acpi_checksum(rsdp.as_slice());
    rsdp.set(8, c);
    proof {
        lemma_checksum_zeroes_sum(rsdp_raw(*config, rsdt_address), 8);
        assert(rsdp@.subrange(16, 20) =~= le32(rsdt_address as u32));
    }
    rsdp
}

} // verus!
