//! The HPET description table.
use vstd::prelude::*;
use crate::acpi::bytes::{le16, le32, le64, push_u16, push_u32, push_u64};
use crate::acpi::config::PlatformConfig;
use crate::acpi::header::{finalize_table, finalized_table, platform_header, AcpiHeader};

verus! {

/// The physical address of the HPET registers.
pub const HPET_BASE_ADDRESS: u64 = 0xfed0_0000;

/// The event timer block ID: vendor 0x8086, revision 1, 3 comparators,
/// 64-bit counter, legacy replacement capable.
pub const HPET_EVENT_TIMER_BLOCK_ID: u32 = 0x8086_a201;

/// The body of the HPET table: block ID, the register block in system
/// memory at the HPET base address, HPET number 0, no minimum tick, no page
/// protection.
pub open spec fn hpet_body() -> Seq<u8> {
    le32(HPET_EVENT_TIMER_BLOCK_ID) + seq![0u8, 0, 0, 0] + le64(HPET_BASE_ADDRESS) + seq![0u8]
        + le16(0) + seq![0u8]
}

/// The complete HPET table.
#[verifier::opaque]
pub open spec fn hpet_table(config: PlatformConfig) -> Seq<u8> {
    finalized_table(platform_header(config, [0x48u8, 0x50, 0x45, 0x54], 1), hpet_body())
}

/// Builds the HPET table.
pub fn build_hpet(config: &PlatformConfig) -> (t: Vec<u8>)
    ensures
        t@ == hpet_table(*config),
        t@.len() == 56,
{
    proof {
        reveal(hpet_table);
    }
    let header = AcpiHeader {
        signature: [0x48u8, 0x50, 0x45, 0x54],  // "HPET"
        revision: 1,
        oem_id: config.oem_id,
        oem_table_id: config.oem_table_id,
        oem_revision: config.oem_revision,
        creator_id: config.creator_id,
        creator_revision: config.creator_revision,
    };
    let mut body: Vec<u8> = Vec::with_capacity(20);
    push_u32(&mut body, HPET_EVENT_TIMER_BLOCK_ID);
    body.push(0);
    body.push(0);
    body.push(0);
    body.push(0);
    push_u64(&mut body, HPET_BASE_ADDRESS);
    body.push(0);
    push_u16(&mut body, 0);
    body.push(0);
    assert(body@ =~= hpet_body());
    finalize_table(header, body.as_slice())
}

/// The HPET table: signature `HPET`, revision 1, the platform's OEM ID,
/// 56 bytes; event timer block ID 0x8086a201 (vendor 0x8086, 3
/// comparators, 64-bit counter, legacy replacement); the registers in
/// system memory at 0xfed00000; HPET number 0, no minimum tick, no page
/// protection.
#[verifier::spinoff_prover]
pub proof fn lemma_hpet_fields(config: PlatformConfig)
    ensures
        ({
            let t = hpet_table(config);
            &&& t.len() == 56
            &&& t.subrange(0, 4) == seq![0x48u8, 0x50, 0x45, 0x54]
            &&& t[8] == 1
            &&& t.subrange(10, 16) == config.oem_id@
            &&& t.subrange(36, 56) == seq![
                0x01u8, 0xa2, 0x86, 0x80, 0, 0, 0, 0, 0, 0, 0xd0, 0xfe, 0, 0, 0, 0, 0, 0, 0, 0,
            ]
        }),
{
    reveal(hpet_table);
    let h = platform_header(config, [0x48u8, 0x50, 0x45, 0x54], 1);
    crate::acpi::header::lemma_finalized_table(h, hpet_body());
    crate::acpi::header::lemma_finalized_header_fields(h, hpet_body());
    assert(hpet_body() =~= seq![
        0x01u8, 0xa2, 0x86, 0x80, 0, 0, 0, 0, 0, 0, 0xd0, 0xfe, 0, 0, 0, 0, 0, 0, 0, 0,
    ]);
}

} // verus!
