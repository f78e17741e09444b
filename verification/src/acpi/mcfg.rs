//! The PCI Express memory-mapped configuration table.
use vstd::prelude::*;
use crate::acpi::bytes::{le16, le64, push_u16, push_u64, push_zeros, zeros};
use crate::acpi::config::PlatformConfig;
use crate::acpi::header::{finalize_table, finalized_table, platform_header, AcpiHeader};

verus! {

/// The body of the MCFG: eight reserved bytes and one allocation entry
/// for the ECAM window of the configured segment and bus range.
pub open spec fn mcfg_body(config: PlatformConfig) -> Seq<u8> {
    zeros(8) + le64(config.pci_ecam_base) + le16(config.pci_segment) + seq![
        config.pci_bus_start,
        config.pci_bus_end,
    ] + zeros(4)
}

/// The complete MCFG table.
#[verifier::opaque]
pub open spec fn mcfg_table(config: PlatformConfig) -> Seq<u8> {
    finalized_table(platform_header(config, [0x4du8, 0x43, 0x46, 0x47], 1), mcfg_body(config))
}

/// Builds the MCFG table.
pub fn build_mcfg(config: &PlatformConfig) -> (t: Vec<u8>)
    ensures
        t@ == mcfg_table(*config),
        t@.len() == 60,
{
    proof {
        reveal(mcfg_table);
    }
    let header = AcpiHeader {
        signature: [0x4du8, 0x43, 0x46, 0x47],  // "MCFG"
        revision: 1,
        oem_id: config.oem_id,
        oem_table_id: config.oem_table_id,
        oem_revision: config.oem_revision,
        creator_id: config.creator_id,
        creator_revision: config.creator_revision,
    };
    let mut body: Vec<u8> = Vec::new();
    push_zeros(&mut body, 8);
    push_u64(&mut body, config.pci_ecam_base);
    push_u16(&mut body, config.pci_segment);
    body.push(config.pci_bus_start);
    body.push(config.pci_bus_end);
    push_zeros(&mut body, 4);
    assert(body@ =~= mcfg_body(*config));
    finalize_table(header, body.as_slice())
}

/// The MCFG: signature `MCFG`, revision 1, the platform's OEM ID, 60
/// bytes; eight reserved bytes, then one allocation: the ECAM base
/// address, the PCI segment, the first and last bus, four reserved bytes.
#[verifier::spinoff_prover]
pub proof fn lemma_mcfg_fields(config: PlatformConfig)
    ensures
        ({
            let t = mcfg_table(config);
            &&& t.len() == 60
            &&& t.subrange(0, 4) == seq![0x4du8, 0x43, 0x46, 0x47]
            &&& t[8] == 1
            &&& t.subrange(10, 16) == config.oem_id@
            &&& t.subrange(36, 44) == seq![0u8, 0, 0, 0, 0, 0, 0, 0]
            &&& t.subrange(44, 52) == le64(config.pci_ecam_base)
            &&& t.subrange(52, 54) == le16(config.pci_segment)
            &&& t[54] == config.pci_bus_start
            &&& t[55] == config.pci_bus_end
            &&& t.subrange(56, 60) == seq![0u8, 0, 0, 0]
        }),
{
    reveal(mcfg_table);
    let body = mcfg_body(config);
    let h = platform_header(config, [0x4du8, 0x43, 0x46, 0x47], 1);
    crate::acpi::header::lemma_finalized_table(h, body);
    crate::acpi::header::lemma_finalized_header_fields(h, body);
    crate::acpi::header::lemma_body_field(h, body, 0, 8);
    crate::acpi::header::lemma_body_field(h, body, 8, 16);
    crate::acpi::header::lemma_body_field(h, body, 16, 18);
    crate::acpi::header::lemma_body_field(h, body, 18, 20);
    crate::acpi::header::lemma_body_field(h, body, 20, 24);
    assert(body.subrange(0, 8) =~= seq![0u8, 0, 0, 0, 0, 0, 0, 0]);
    assert(body.subrange(8, 16) =~= le64(config.pci_ecam_base));
    assert(body.subrange(16, 18) =~= le16(config.pci_segment));
    assert(body.subrange(18, 20) =~= seq![config.pci_bus_start, config.pci_bus_end]);
    assert(body.subrange(20, 24) =~= seq![0u8, 0, 0, 0]);
    let t = mcfg_table(config);
    assert(t[54] == t.subrange(54, 56)[0] && t[55] == t.subrange(54, 56)[1]);
}

} // verus!
