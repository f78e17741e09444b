//! The Root System Description Table: the 32-bit addresses of the other
//! tables.
use vstd::prelude::*;
use crate::acpi::bytes::{le32, push_u32};
use crate::acpi::config::PlatformConfig;
use crate::acpi::header::{finalize_table, finalized_table, platform_header, AcpiHeader};

verus! {

/// The RSDT body: each address as a 32-bit little-endian entry.
pub open spec fn rsdt_body(entries: Seq<u64>) -> Seq<u8>
    decreases entries.len(),
{
    if entries.len() == 0 {
        Seq::empty()
    } else {
        rsdt_body(entries.drop_last()) + le32(entries.last() as u32)
    }
}

/// The complete RSDT.
#[verifier::opaque]
pub open spec fn rsdt_table(config: PlatformConfig, entries: Seq<u64>) -> Seq<u8> {
    finalized_table(platform_header(config, [0x52u8, 0x53, 0x44, 0x54], 1), rsdt_body(entries))
}

/// The body holds four bytes per entry, and entry `i` is the low 32 bits of
/// the `i`-th address.
pub proof fn lemma_rsdt_body_entries(entries: Seq<u64>)
    ensures
        rsdt_body(entries).len() == 4 * entries.len(),
        forall|i: int|
            0 <= i < entries.len() ==> #[trigger] rsdt_body(entries).subrange(4 * i, 4 * i + 4)
                == le32(entries[i] as u32),
    decreases entries.len(),
{
    if entries.len() > 0 {
        let prev = entries.drop_last();
        lemma_rsdt_body_entries(prev);
        assert forall|i: int| 0 <= i < entries.len() implies #[trigger] rsdt_body(entries).subrange(
            4 * i,
            4 * i + 4,
        ) == le32(entries[i] as u32) by {
            if i < prev.len() {
                assert(rsdt_body(entries).subrange(4 * i, 4 * i + 4) =~= rsdt_body(prev).subrange(
                    4 * i,
                    4 * i + 4,
                ));
            } else {
                assert(rsdt_body(entries).subrange(4 * i, 4 * i + 4) =~= le32(
                    entries.last() as u32,
                ));
            }
        }
    }
}

/// Builds the RSDT that lists `entries`.
pub fn build_rsdt(config: &PlatformConfig, entries: &[u64]) -> (t: Vec<u8>)
    ensures
        t@ == rsdt_table(*config, entries@),
        t@.len() == 36 + 4 * entries@.len(),
{
    proof {
        reveal(rsdt_table);
    }
    let header = AcpiHeader {
        signature: [0x52u8, 0x53, 0x44, 0x54],  // "RSDT"
        revision: 1,
        oem_id: config.oem_id,
        oem_table_id: config.oem_table_id,
        oem_revision: config.oem_revision,
        creator_id: config.creator_id,
        creator_revision: config.creator_revision,
    };
    let mut body: Vec<u8> = Vec::new();
    let mut i: usize = 0;
    while i < entries.len()
        invariant
            i <= entries@.len(),
            body@ == rsdt_body(entries@.take(i as int)),
        decreases entries@.len() - i,
    {
        push_u32(&mut body, entries[i] as u32);
        i += 1;
        assert(entries@.take(i as int).drop_last() =~= entries@.take(i - 1));
    }
    assert(entries@.take(i as int) =~= entries@);
    proof {
        lemma_rsdt_body_entries(entries@);
    }
    finalize_table(header, body.as_slice())
}

} // verus!
