//! The Windows ACPI Emulated Devices table.
use vstd::prelude::*;
use crate::acpi::bytes::{le32, push_u32};
use crate::acpi::config::PlatformConfig;
use crate::acpi::header::{finalize_table, finalized_table, platform_header, AcpiHeader};

verus! {

/// The flag that tells the guest that the ACPI PM timer is reliable.
pub const WAET_FLAG_ACPI_PM_TIMER_GOOD: u32 = 2;

/// The complete WAET table: the header and the emulated-device flags.
#[verifier::opaque]
pub open spec fn waet_table(config: PlatformConfig) -> Seq<u8> {
    finalized_table(
        platform_header(config, [0x57u8, 0x41, 0x45, 0x54], 1),
        le32(WAET_FLAG_ACPI_PM_TIMER_GOOD),
    )
}

/// Builds the WAET table.
pub fn build_waet(config: &PlatformConfig) -> (t: Vec<u8>)
    ensures
        t@ == waet_table(*config),
        t@.len() == 40,
{
    proof {
        reveal(waet_table);
    }
    let header = AcpiHeader {
        signature: [0x57u8, 0x41, 0x45, 0x54],  // "WAET"
        revision: 1,
        oem_id: config.oem_id,
        oem_table_id: config.oem_table_id,
        oem_revision: config.oem_revision,
        creator_id: config.creator_id,
        creator_revision: config.creator_revision,
    };
    let mut flags: Vec<u8> = Vec::new();
    push_u32(&mut flags, WAET_FLAG_ACPI_PM_TIMER_GOOD);
    assert(flags@ =~= le32(WAET_FLAG_ACPI_PM_TIMER_GOOD));
    finalize_table(header, flags.as_slice())
}

/// The WAET: signature `WAET`, revision 1, the platform's OEM ID, 40
/// bytes, and the flags 2: the ACPI PM timer is reliable (bit 1), the RTC
/// is not claimed good (bit 0 clear).
#[verifier::spinoff_prover]
pub proof fn lemma_waet_fields(config: PlatformConfig)
    ensures
        ({
            let t = waet_table(config);
            &&& t.len() == 40
            &&& t.subrange(0, 4) == seq![0x57u8, 0x41, 0x45, 0x54]
            &&& t[8] == 1
            &&& t.subrange(10, 16) == config.oem_id@
            &&& t.subrange(36, 40) == seq![2u8, 0, 0, 0]
        }),
{
    reveal(waet_table);
    let h = platform_header(config, [0x57u8, 0x41, 0x45, 0x54], 1);
    let body = le32(WAET_FLAG_ACPI_PM_TIMER_GOOD);
    crate::acpi::header::lemma_finalized_table(h, body);
    crate::acpi::header::lemma_finalized_header_fields(h, body);
    assert(body =~= seq![2u8, 0, 0, 0]);
}

} // verus!
