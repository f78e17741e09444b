//! The ACPI tables of the machine and the blob that holds them.
pub mod blob;
pub mod bytes;
pub mod checksum;
pub mod config;
pub mod dsdt;
pub mod facs;
pub mod fadt;
pub mod header;
pub mod hpet;
pub mod madt;
pub mod mcfg;
pub mod rsdp;
pub mod rsdt;
pub mod text;
pub mod vm;
pub mod waet;

use vstd::prelude::*;
use vstd::string::*;
use crate::acpi::blob::{AcpiBlob, AcpiBlobBuilder, TableRef};
use crate::acpi::bytes::{le32, le64, zeros};
use crate::acpi::checksum::byte_sum;
use crate::acpi::config::PlatformConfig;
use crate::acpi::dsdt::{build_dsdt, dsdt_table};
use crate::acpi::fadt::{build_fadt, fadt_fits, fadt_table, lemma_fadt_dsdt_fields};
use crate::acpi::header::lemma_finalized_table;
use crate::acpi::hpet::{build_hpet, hpet_table};
use crate::acpi::madt::{build_madt, madt_fits, madt_table};
use crate::acpi::mcfg::{build_mcfg, mcfg_table};
use crate::acpi::rsdp::{build_rsdp, rsdp_bytes};
use crate::acpi::rsdt::{build_rsdt, lemma_rsdt_body_entries, rsdt_body, rsdt_table};
use crate::acpi::text::bytes_eq;
use crate::acpi::waet::{build_waet, waet_table};

verus! {

/// Where a table stands in the blob, and where its checksum byte is.
#[derive(Debug, Clone, Copy, PartialEq, Eq, Structural)]
pub struct TableLayout {
    pub offset: u32,
    pub length: u32,
    pub checksum_offset: u32,
}

/// The blob, the RSDP that points into it, and the layout of each table
/// by signature, in signature order (as a map by name would list them).
#[derive(Debug, Clone)]
pub struct BuiltBlob {
    pub blob: AcpiBlob,
    pub rsdp: Vec<u8>,
    pub layout: Vec<([u8; 4], TableLayout)>,
}

// ---------------------------------------------------------------------
// The image.
// ---------------------------------------------------------------------

/// All byte sequences of `parts`, one after another.
pub open spec fn concat_all(parts: Seq<Seq<u8>>) -> Seq<u8>
    decreases parts.len(),
{
    if parts.len() == 0 {
        Seq::empty()
    } else {
        concat_all(parts.drop_last()) + parts.last()
    }
}

/// The offset of each table from the start of the blob.
pub open spec fn dsdt_offset(c: PlatformConfig) -> nat {
    c.front_padding as nat
}

pub open spec fn fadt_offset(c: PlatformConfig) -> nat {
    dsdt_offset(c) + dsdt_table(c).len()
}

pub open spec fn madt_offset(c: PlatformConfig) -> nat {
    fadt_offset(c) + 244
}

pub open spec fn hpet_offset(c: PlatformConfig) -> nat {
    madt_offset(c) + madt_table(c).len()
}

pub open spec fn mcfg_offset(c: PlatformConfig) -> nat {
    hpet_offset(c) + (if c.has_hpet {
        56nat
    } else {
        0nat
    })
}

pub open spec fn waet_offset(c: PlatformConfig) -> nat {
    mcfg_offset(c) + 60
}

pub open spec fn rsdt_offset(c: PlatformConfig) -> nat {
    waet_offset(c) + 40
}

/// The guest physical address of the byte at `offset` (the offset taken
/// as a 32-bit value, as the blob records it).
pub open spec fn address_at(c: PlatformConfig, offset: nat) -> u64 {
    (c.blob_base_address + (offset as u32)) as u64
}

/// The addresses that the RSDT lists: FADT, MADT, HPET when present, MCFG,
/// WAET.
pub open spec fn rsdt_entries(c: PlatformConfig) -> Seq<u64> {
    seq![address_at(c, fadt_offset(c)), address_at(c, madt_offset(c))] + (if c.has_hpet {
        seq![address_at(c, hpet_offset(c))]
    } else {
        Seq::empty()
    }) + seq![address_at(c, mcfg_offset(c)), address_at(c, waet_offset(c))]
}

/// The tables in blob order.
pub open spec fn image_parts(c: PlatformConfig) -> Seq<Seq<u8>> {
    seq![
        dsdt_table(c),
        fadt_table(c, address_at(c, dsdt_offset(c))),
        madt_table(c),
    ] + (if c.has_hpet {
        seq![hpet_table(c)]
    } else {
        Seq::empty()
    }) + seq![mcfg_table(c), waet_table(c), rsdt_table(c, rsdt_entries(c))]
}

/// The signatures of the tables in blob order.
pub open spec fn image_signatures(c: PlatformConfig) -> Seq<[u8; 4]> {
    seq![[0x44u8, 0x53, 0x44, 0x54], [0x46u8, 0x41, 0x43, 0x50], [0x41u8, 0x50, 0x49, 0x43]] + (
    if c.has_hpet {
        seq![[0x48u8, 0x50, 0x45, 0x54]]
    } else {
        Seq::empty()
    }) + seq![
        [0x4du8, 0x43, 0x46, 0x47],
        [0x57u8, 0x41, 0x45, 0x54],
        [0x52u8, 0x53, 0x44, 0x54],
    ]
}

/// The offsets of the tables in blob order.
pub open spec fn image_offsets(c: PlatformConfig) -> Seq<nat> {
    seq![dsdt_offset(c), fadt_offset(c), madt_offset(c)] + (if c.has_hpet {
        seq![hpet_offset(c)]
    } else {
        Seq::empty()
    }) + seq![mcfg_offset(c), waet_offset(c), rsdt_offset(c)]
}

/// The blob's bytes: the front padding, then the tables.
pub open spec fn image_data(c: PlatformConfig) -> Seq<u8> {
    zeros(c.front_padding as nat) + concat_all(image_parts(c))
}

/// The blob's table records.
pub open spec fn image_tables(c: PlatformConfig) -> Seq<TableRef> {
    Seq::new(
        image_parts(c).len(),
        |i: int|
            TableRef {
                signature: image_signatures(c)[i],
                offset: image_offsets(c)[i] as u32,
                length: image_parts(c)[i].len() as u32,
            },
    )
}

/// The layout entry of a table record.
pub open spec fn layout_of(t: TableRef) -> ([u8; 4], TableLayout) {
    (
        t.signature,
        TableLayout { offset: t.offset, length: t.length, checksum_offset: (t.offset + 9) as u32 },
    )
}

/// What `build_minimal_acpi` needs of the configuration: the compatibility
/// lengths and the MADT fit in 32 bits, the PM registers fit in I/O space,
/// every table address fits in 64 bits and every checksum offset in 32
/// bits.
pub open spec fn image_fits(c: PlatformConfig) -> bool {
    &&& c.compat_lengths ==> c.dsdt_target() <= u32::MAX
    &&& madt_fits(c)
    &&& fadt_fits(c)
    &&& forall|i: int|
        0 <= i < image_offsets(c).len() ==> c.blob_base_address + (#[trigger] image_offsets(
            c,
        )[i] as u32) <= u64::MAX && (image_offsets(c)[i] as u32) + 9 <= u32::MAX
}

proof fn lemma_concat_all_push(parts: Seq<Seq<u8>>, p: Seq<u8>)
    ensures
        concat_all(parts.push(p)) == concat_all(parts) + p,
{
    assert(parts.push(p).drop_last() =~= parts);
}

/// The big-endian value of a signature: signatures compare as their
/// text does.
pub open spec fn signature_key(s: [u8; 4]) -> nat {
    (s[0] * 0x100_0000 + s[1] * 0x1_0000 + s[2] * 0x100 + s[3]) as nat
}

/// Which table records the layout lists, in signature order: APIC, DSDT,
/// FACP, HPET when present, MCFG, RSDT, WAET.
pub open spec fn layout_order(c: PlatformConfig) -> Seq<int> {
    if c.has_hpet {
        seq![2int, 0, 1, 3, 4, 6, 5]
    } else {
        seq![2int, 0, 1, 3, 5, 4]
    }
}

/// Where table record `i` stands in the layout.
pub open spec fn layout_index(c: PlatformConfig, i: int) -> int {
    if i == 0 {
        1
    } else if i == 1 {
        2
    } else if i == 2 {
        0
    } else if i == 3 {
        3
    } else if c.has_hpet {
        if i == 4 {
            4
        } else if i == 5 {
            6
        } else {
            5
        }
    } else if i == 4 {
        5
    } else {
        4
    }
}

/// The layout of the blob: one entry per table, in signature order.
pub open spec fn image_layout(c: PlatformConfig) -> Seq<([u8; 4], TableLayout)> {
    Seq::new(
        layout_order(c).len(),
        |k: int| layout_of(image_tables(c)[layout_order(c)[k]]),
    )
}

/// The layout entry of a table record.
fn layout_entry(t: TableRef) -> (e: ([u8; 4], TableLayout))
    requires
        t.offset + 9 <= u32::MAX,
    ensures
        e == layout_of(t),
{
    (
        t.signature,
        TableLayout { offset: t.offset, length: t.length, checksum_offset: t.offset + 9 },
    )
}

/// Builds the blob of a minimal machine: front padding, then DSDT, FADT
/// (pointing at the DSDT), MADT, HPET when the machine has one, MCFG, WAET
/// and an RSDT that lists all of them but the DSDT; the RSDP that points
/// at the RSDT; and the layout of every table, in signature order.
#[verifier::rlimit(80)]
#[verifier::spinoff_prover]
pub fn build_minimal_acpi(config: &PlatformConfig) -> (built: BuiltBlob)
    requires
        image_fits(*config),
    ensures
        built.blob.data@ == image_data(*config),
        built.blob.tables@ == image_tables(*config),
        built.rsdp@ == rsdp_bytes(*config, address_at(*config, rsdt_offset(*config))),
        built.layout@ == image_layout(*config),
{
    let ghost c = *config;
    let ghost offs = image_offsets(c);
    let ghost pad = config.front_padding as nat;
    let mut blob = AcpiBlobBuilder::new(config.blob_base_address);
    blob.reserve_front(config.front_padding as usize);
    let ghost mut parts: Seq<Seq<u8>> = Seq::empty();
    let ghost mut sigs: Seq<[u8; 4]> = Seq::empty();
    let ghost mut poffs: Seq<nat> = Seq::empty();
    proof {
        if pad == 0 {
            assert(blob.spec_data() =~= zeros(0));
        }
        assert(blob.spec_data() =~= zeros(pad) + concat_all(parts));
        assert(offs[0] == dsdt_offset(c));
    }

    let dsdt = build_dsdt(config);
    let dsdt_off = blob.append_table([0x44u8, 0x53, 0x44, 0x54], dsdt);
    proof {
        lemma_concat_all_push(parts, dsdt_table(c));
        parts = parts.push(dsdt_table(c));
        sigs = sigs.push([0x44u8, 0x53, 0x44, 0x54]);
        poffs = poffs.push(dsdt_offset(c));
    }
    let dsdt_address = blob.address_of(dsdt_off);
    let fadt = build_fadt(config, dsdt_address);
    let fadt_off = blob.append_table([0x46u8, 0x41, 0x43, 0x50], fadt);
    proof {
        lemma_concat_all_push(parts, fadt_table(c, dsdt_address));
        parts = parts.push(fadt_table(c, dsdt_address));
        sigs = sigs.push([0x46u8, 0x41, 0x43, 0x50]);
        poffs = poffs.push(fadt_offset(c));
        assert(offs[1] == fadt_offset(c));
        assert(offs[2] == madt_offset(c));
    }

    let madt = build_madt(config);
    let madt_off = blob.append_table([0x41u8, 0x50, 0x49, 0x43], madt);
    proof {
        lemma_concat_all_push(parts, madt_table(c));
        parts = parts.push(madt_table(c));
        sigs = sigs.push([0x41u8, 0x50, 0x49, 0x43]);
        poffs = poffs.push(madt_offset(c));
    }

    let hpet_off = if config.has_hpet {
        let hpet = build_hpet(config);
        let off = blob.append_table([0x48u8, 0x50, 0x45, 0x54], hpet);
        proof {
            lemma_concat_all_push(parts, hpet_table(c));
            parts = parts.push(hpet_table(c));
            sigs = sigs.push([0x48u8, 0x50, 0x45, 0x54]);
            poffs = poffs.push(hpet_offset(c));
            assert(offs[3] == hpet_offset(c));
        }
        Some(off)
    } else {
        None
    };

    let mcfg = build_mcfg(config);
    let mcfg_off = blob.append_table([0x4du8, 0x43, 0x46, 0x47], mcfg);
    proof {
        lemma_concat_all_push(parts, mcfg_table(c));
        parts = parts.push(mcfg_table(c));
        sigs = sigs.push([0x4du8, 0x43, 0x46, 0x47]);
        poffs = poffs.push(mcfg_offset(c));
    }

    let waet = build_waet(config);
    let waet_off = blob.append_table([0x57u8, 0x41, 0x45, 0x54], waet);
    proof {
        lemma_concat_all_push(parts, waet_table(c));
        parts = parts.push(waet_table(c));
        sigs = sigs.push([0x57u8, 0x41, 0x45, 0x54]);
        poffs = poffs.push(waet_offset(c));
        let k: int = if c.has_hpet { 4 } else { 3 };
        assert(offs[k] == mcfg_offset(c));
        assert(offs[k + 1] == waet_offset(c));
        assert(offs[k + 2] == rsdt_offset(c));
    }

    let mut entries: Vec<u64> = vec![blob.address_of(fadt_off), blob.address_of(madt_off)];
    if let Some(h) = hpet_off {
        entries.push(blob.address_of(h));
    }
    entries.push(blob.address_of(mcfg_off));
    entries.push(blob.address_of(waet_off));
    assert(entries@ =~= rsdt_entries(c));
    let rsdt = build_rsdt(config, entries.as_slice());
    let rsdt_off = blob.append_table([0x52u8, 0x53, 0x44, 0x54], rsdt);
    proof {
        lemma_concat_all_push(parts, rsdt_table(c, rsdt_entries(c)));
        parts = parts.push(rsdt_table(c, rsdt_entries(c)));
        sigs = sigs.push([0x52u8, 0x53, 0x44, 0x54]);
        poffs = poffs.push(rsdt_offset(c));
        assert(parts =~= image_parts(c));
        assert(sigs =~= image_signatures(c));
        assert(poffs =~= offs);
    }

    let rsdp = build_rsdp(config, blob.address_of(rsdt_off));
    let ghost tables = blob.spec_tables();
    proof {
        assert(tables =~= image_tables(c));
    }
    let blob = blob.finish();

    proof {
        assert forall|k: int| 0 <= k < image_tables(c).len() implies (#[trigger] image_tables(
            c,
        )[k]).offset + 9 <= u32::MAX by {
            assert(image_tables(c)[k].offset == image_offsets(c)[k] as u32);
        }
    }
    let h: usize = if config.has_hpet {
        1
    } else {
        0
    };
    let mut layout: Vec<([u8; 4], TableLayout)> = Vec::new();
    layout.push(layout_entry(blob.tables[2]));
    layout.push(layout_entry(blob.tables[0]));
    layout.push(layout_entry(blob.tables[1]));
    if config.has_hpet {
        layout.push(layout_entry(blob.tables[3]));
    }
    layout.push(layout_entry(blob.tables[3 + h]));
    layout.push(layout_entry(blob.tables[5 + h]));
    layout.push(layout_entry(blob.tables[4 + h]));
    assert(layout@ =~= image_layout(c));
    BuiltBlob { blob, rsdp, layout }
}

/// Whether a table at `offset` in the blob at `base` can be recorded: its
/// address (the offset taken as 32 bits) fits in 64 bits and its checksum
/// offset in 32 bits.
pub open spec fn offset_fits(base: u64, offset: nat) -> bool {
    base + (offset as u32) <= u64::MAX && (offset as u32) + 9 <= u32::MAX
}

fn check_offset(base: u64, offset: u128) -> (r: bool)
    ensures
        r == offset_fits(base, offset as nat),
{
    let low = offset as u32;
    (base as u128) + (low as u128) <= 0xffff_ffff_ffff_ffffu128 && (low as u64) + 9
        <= 0xffff_ffffu64
}

/// Whether `build_minimal_acpi` can build the blob of `config`.
#[verifier::rlimit(40)]
pub fn fits_image(config: &PlatformConfig) -> (r: bool)
    ensures
        r == image_fits(*config),
{
    let ghost c = *config;
    let cpus = (config.cpu_apic_ids.len() as u32) as u64;
    let pcis = (config.pci_devices.len() as u32) as u64;
    let base: u64 = if cpus == 1 {
        8031
    } else if cpus == 2 {
        8028
    } else if 3 <= cpus && cpus <= 16 {
        8029
    } else {
        8031
    };
    let hpet_delta: u64 = if config.has_hpet {
        142
    } else {
        0
    };
    let dsdt_target = base + 86 * cpus + hpet_delta + 17 * pcis;
    assert(dsdt_target == c.dsdt_target());
    if config.compat_lengths && dsdt_target > 0xffff_ffff {
        return false;
    }
    if 222 + 8 * (config.cpu_apic_ids.len() as u128) > 0xffff_ffff {
        return false;
    }
    if (config.pm_io_base as u32) + 8 > 0xffff {
        return false;
    }
    let dsdt_len = build_dsdt(config).len() as u128;
    let madt_len = build_madt(config).len() as u128;
    let o_dsdt = config.front_padding as u128;
    let o_fadt = o_dsdt + dsdt_len;
    let o_madt = o_fadt + 244;
    let o_hpet = o_madt + madt_len;
    let o_mcfg = if config.has_hpet {
        o_hpet + 56
    } else {
        o_hpet
    };
    let o_waet = o_mcfg + 60;
    let o_rsdt = o_waet + 40;
    proof {
        lemma_table_lengths(c);
        assert(image_fits(c) <==> forall|i: int|
            0 <= i < image_offsets(c).len() ==> offset_fits(
                c.blob_base_address,
                #[trigger] image_offsets(c)[i],
            ));
    }
    let base_address = config.blob_base_address;
    let fits = check_offset(base_address, o_dsdt) && check_offset(base_address, o_fadt)
        && check_offset(base_address, o_madt) && (!config.has_hpet || check_offset(
        base_address,
        o_hpet,
    )) && check_offset(base_address, o_mcfg) && check_offset(base_address, o_waet)
        && check_offset(base_address, o_rsdt);
    proof {
        let offs = image_offsets(c);
        if c.has_hpet {
            assert(offs =~= seq![
                o_dsdt as nat,
                o_fadt as nat,
                o_madt as nat,
                o_hpet as nat,
                o_mcfg as nat,
                o_waet as nat,
                o_rsdt as nat,
            ]);
        } else {
            assert(offs =~= seq![
                o_dsdt as nat,
                o_fadt as nat,
                o_madt as nat,
                o_mcfg as nat,
                o_waet as nat,
                o_rsdt as nat,
            ]);
        }
        if fits {
            assert forall|i: int| 0 <= i < offs.len() implies offset_fits(
                c.blob_base_address,
                #[trigger] offs[i],
            ) by {}
        } else {
            let b = c.blob_base_address;
            let h: int = if c.has_hpet {
                1
            } else {
                0
            };
            assert(!offset_fits(b, offs[0]) || !offset_fits(b, offs[1]) || !offset_fits(b, offs[2])
                || (c.has_hpet && !offset_fits(b, offs[3])) || !offset_fits(b, offs[3 + h])
                || !offset_fits(b, offs[4 + h]) || !offset_fits(b, offs[5 + h]));
        }
    }
    fits
}

// ---------------------------------------------------------------------
// Looking tables up.
// ---------------------------------------------------------------------

/// The layout of the first table in `layout` whose signature is `name`.
pub open spec fn find_layout(layout: Seq<([u8; 4], TableLayout)>, name: Seq<u8>) -> Option<TableLayout>
    decreases layout.len(),
{
    if layout.len() == 0 {
        None
    } else if layout[0].0@ == name {
        Some(layout[0].1)
    } else {
        find_layout(layout.drop_first(), name)
    }
}

impl BuiltBlob {
    /// The layout of the table whose signature is `name`, if the blob holds
    /// one.
    pub fn table_layout(&self, name: &str) -> (r: Option<TableLayout>)
        ensures
            r == find_layout(self.layout@, name.spec_bytes()),
    {
        let bytes = name.as_bytes();
        let mut i: usize = 0;
        assert(self.layout@.skip(0) =~= self.layout@);
        while i < self.layout.len()
            invariant
                i <= self.layout@.len(),
                bytes@ == name.spec_bytes(),
                find_layout(self.layout@, bytes@) == find_layout(self.layout@.skip(i as int), bytes@),
            decreases self.layout@.len() - i,
        {
            let entry = &self.layout[i];
            assert(self.layout@.skip(i as int).drop_first() =~= self.layout@.skip(i + 1));
            if bytes_eq(&entry.0, bytes) {
                return Some(entry.1);
            }
            i += 1;
        }
        None
    }
}

// ---------------------------------------------------------------------
// What holds of every image.
// ---------------------------------------------------------------------

proof fn lemma_concat_all_take(parts: Seq<Seq<u8>>, i: int)
    requires
        0 <= i < parts.len(),
    ensures
        concat_all(parts).subrange(
            concat_all(parts.take(i)).len() as int,
            (concat_all(parts.take(i)).len() + parts[i].len()) as int,
        ) == parts[i],
        concat_all(parts.take(i)).len() + parts[i].len() <= concat_all(parts).len(),
    decreases parts.len(),
{
    if i == parts.len() - 1 {
        assert(parts.take(i) =~= parts.drop_last());
        assert(concat_all(parts).subrange(
            concat_all(parts.take(i)).len() as int,
            (concat_all(parts.take(i)).len() + parts[i].len()) as int,
        ) =~= parts[i]);
    } else {
        lemma_concat_all_take(parts.drop_last(), i);
        assert(parts.drop_last().take(i) =~= parts.take(i));
        assert(concat_all(parts).subrange(
            concat_all(parts.take(i)).len() as int,
            (concat_all(parts.take(i)).len() + parts[i].len()) as int,
        ) =~= concat_all(parts.drop_last()).subrange(
            concat_all(parts.take(i)).len() as int,
            (concat_all(parts.take(i)).len() + parts[i].len()) as int,
        ));
    }
}

/// The lengths of the tables: the FADT is 244 bytes, the HPET 56, the MCFG
/// 60, the WAET 40, and the RSDT 36 plus 4 per listed table.
pub proof fn lemma_table_lengths(c: PlatformConfig)
    ensures
        fadt_table(c, address_at(c, dsdt_offset(c))).len() == 244,
        hpet_table(c).len() == 56,
        mcfg_table(c).len() == 60,
        waet_table(c).len() == 40,
        rsdt_table(c, rsdt_entries(c)).len() == 36 + 4 * rsdt_entries(c).len(),
{
    lemma_fadt_dsdt_fields(c, address_at(c, dsdt_offset(c)));
    reveal(hpet_table);
    reveal(mcfg_table);
    reveal(waet_table);
    reveal(rsdt_table);
    lemma_rsdt_body_entries(rsdt_entries(c));
    lemma_finalized_table(crate::acpi::header::platform_header(c, [0x48u8, 0x50, 0x45, 0x54], 1), crate::acpi::hpet::hpet_body());
    lemma_finalized_table(crate::acpi::header::platform_header(c, [0x4du8, 0x43, 0x46, 0x47], 1), crate::acpi::mcfg::mcfg_body(c));
    lemma_finalized_table(crate::acpi::header::platform_header(c, [0x57u8, 0x41, 0x45, 0x54], 1), le32(crate::acpi::waet::WAET_FLAG_ACPI_PM_TIMER_GOOD));
    lemma_finalized_table(crate::acpi::header::platform_header(c, [0x52u8, 0x53, 0x44, 0x54], 1), rsdt_body(rsdt_entries(c)));
}

proof fn lemma_concat_take_step(parts: Seq<Seq<u8>>, k: int)
    requires
        0 <= k < parts.len(),
    ensures
        concat_all(parts.take(k + 1)).len() == concat_all(parts.take(k)).len() + parts[k].len(),
{
    assert(parts.take(k + 1).drop_last() =~= parts.take(k));
}

/// The recorded offsets are the front padding plus the lengths of the
/// tables before.
proof fn lemma_image_offsets(c: PlatformConfig, i: int)
    requires
        0 <= i < image_parts(c).len(),
    ensures
        image_offsets(c).len() == image_parts(c).len(),
        image_offsets(c)[i] == c.front_padding + concat_all(image_parts(c).take(i)).len(),
    decreases i,
{
    let parts = image_parts(c);
    lemma_table_lengths(c);
    if i == 0 {
        assert(parts.take(0) =~= Seq::<Seq<u8>>::empty());
    } else {
        lemma_image_offsets(c, i - 1);
        lemma_concat_take_step(parts, i - 1);
    }
}

/// Every table stands in the blob at its recorded offset, the tables follow
/// one another without gaps after the front padding, and every table sums
/// to zero modulo 256.
pub proof fn lemma_image_tables(c: PlatformConfig, i: int)
    requires
        0 <= i < image_parts(c).len(),
    ensures
        image_offsets(c).len() == image_parts(c).len(),
        image_offsets(c)[i] == c.front_padding + concat_all(image_parts(c).take(i)).len(),
        image_data(c).subrange(
            image_offsets(c)[i] as int,
            (image_offsets(c)[i] + image_parts(c)[i].len()) as int,
        ) == image_parts(c)[i],
        byte_sum(image_parts(c)[i]) % 256 == 0,
{
    let parts = image_parts(c);
    lemma_image_offsets(c, i);
    lemma_concat_all_take(parts, i);
    assert(image_data(c).subrange(
        image_offsets(c)[i] as int,
        (image_offsets(c)[i] + parts[i].len()) as int,
    ) =~= concat_all(parts).subrange(
        concat_all(parts.take(i)).len() as int,
        (concat_all(parts.take(i)).len() + parts[i].len()) as int,
    ));
    lemma_tables_checksum(c, i);
}

proof fn lemma_dsdt_sums_to_zero(c: PlatformConfig)
    ensures
        byte_sum(dsdt_table(c)) % 256 == 0,
{
    reveal(dsdt_table);
    lemma_finalized_table(crate::acpi::header::platform_header(c, [0x44u8, 0x53, 0x44, 0x54], 1), crate::acpi::dsdt::dsdt_body_bytes(c, crate::acpi::dsdt::chosen_padding(c)));
}

proof fn lemma_fadt_sums_to_zero(c: PlatformConfig, a: u64)
    ensures
        byte_sum(fadt_table(c, a)) % 256 == 0,
{
    reveal(fadt_table);
    lemma_finalized_table(crate::acpi::header::platform_header(c, [0x46u8, 0x41, 0x43, 0x50], 6), crate::acpi::fadt::fadt_body(c, a));
}

proof fn lemma_madt_sums_to_zero(c: PlatformConfig)
    ensures
        byte_sum(madt_table(c)) % 256 == 0,
{
    reveal(madt_table);
    lemma_finalized_table(crate::acpi::header::platform_header(c, [0x41u8, 0x50, 0x49, 0x43], 3), crate::acpi::madt::madt_body(c));
}

proof fn lemma_small_tables_sum_to_zero(c: PlatformConfig)
    ensures
        byte_sum(hpet_table(c)) % 256 == 0,
        byte_sum(mcfg_table(c)) % 256 == 0,
        byte_sum(waet_table(c)) % 256 == 0,
        byte_sum(rsdt_table(c, rsdt_entries(c))) % 256 == 0,
{
    reveal(hpet_table);
    reveal(mcfg_table);
    reveal(waet_table);
    reveal(rsdt_table);
    lemma_finalized_table(crate::acpi::header::platform_header(c, [0x48u8, 0x50, 0x45, 0x54], 1), crate::acpi::hpet::hpet_body());
    lemma_finalized_table(crate::acpi::header::platform_header(c, [0x4du8, 0x43, 0x46, 0x47], 1), crate::acpi::mcfg::mcfg_body(c));
    lemma_finalized_table(crate::acpi::header::platform_header(c, [0x57u8, 0x41, 0x45, 0x54], 1), le32(crate::acpi::waet::WAET_FLAG_ACPI_PM_TIMER_GOOD));
    lemma_finalized_table(crate::acpi::header::platform_header(c, [0x52u8, 0x53, 0x44, 0x54], 1), rsdt_body(rsdt_entries(c)));
}

/// Every table of the image sums to zero modulo 256.
proof fn lemma_tables_checksum(c: PlatformConfig, i: int)
    requires
        0 <= i < image_parts(c).len(),
    ensures
        byte_sum(image_parts(c)[i]) % 256 == 0,
{
    lemma_dsdt_sums_to_zero(c);
    lemma_fadt_sums_to_zero(c, address_at(c, dsdt_offset(c)));
    lemma_madt_sums_to_zero(c);
    lemma_small_tables_sum_to_zero(c);
}

/// The RSDT lists, as 32-bit addresses, the FADT, the MADT, the HPET when
/// present, the MCFG and the WAET, in that order.
pub proof fn lemma_rsdt_lists_tables(c: PlatformConfig)
    ensures
        ({
            let rsdt = rsdt_table(c, rsdt_entries(c));
            let n: int = if c.has_hpet { 5 } else { 4 };
            &&& rsdt.len() == 36 + 4 * n
            &&& rsdt.subrange(36, 40) == le32(address_at(c, fadt_offset(c)) as u32)
            &&& rsdt.subrange(40, 44) == le32(address_at(c, madt_offset(c)) as u32)
            &&& c.has_hpet ==> rsdt.subrange(44, 48) == le32(address_at(c, hpet_offset(c)) as u32)
            &&& rsdt.subrange(36 + 4 * (n - 2), 40 + 4 * (n - 2)) == le32(address_at(c, mcfg_offset(c)) as u32)
            &&& rsdt.subrange(36 + 4 * (n - 1), 40 + 4 * (n - 1)) == le32(address_at(c, waet_offset(c)) as u32)
        }),
{
    reveal(rsdt_table);
    let e = rsdt_entries(c);
    let body = rsdt_body(e);
    lemma_rsdt_body_entries(e);
    lemma_finalized_table(crate::acpi::header::platform_header(c, [0x52u8, 0x53, 0x44, 0x54], 1), body);
    let rsdt = rsdt_table(c, e);
    assert forall|j: int| 0 <= j < e.len() implies rsdt.subrange(36 + 4 * j, 40 + 4 * j) == le32(
        e[j] as u32,
    ) by {
        assert(rsdt.subrange(36 + 4 * j, 40 + 4 * j) =~= body.subrange(4 * j, 4 * j + 4));
        assert(body.subrange(4 * j, 4 * j + 4) == le32(e[j] as u32));
    }
    let n: int = if c.has_hpet { 5 } else { 4 };
    assert(e.len() == n);
    assert(rsdt.subrange(36int, 40int) == le32(e[0] as u32));
    assert(rsdt.subrange(40int, 44int) == le32(e[1] as u32));
    if c.has_hpet {
        assert(rsdt.subrange(44int, 48int) == le32(e[2] as u32));
    }
    assert(rsdt.subrange(36 + 4 * (n - 2), 40 + 4 * (n - 2)) == le32(e[n - 2] as u32));
    assert(rsdt.subrange(36 + 4 * (n - 1), 40 + 4 * (n - 1)) == le32(e[n - 1] as u32));
}

/// The FADT of the image points at the DSDT in its 32-bit and its 64-bit
/// field.
pub proof fn lemma_fadt_points_at_dsdt(c: PlatformConfig)
    ensures
        ({
            let fadt = image_parts(c)[1];
            let a = address_at(c, dsdt_offset(c));
            &&& fadt.subrange(40, 44) == le32(a as u32)
            &&& fadt.subrange(140, 148) == le64(a)
        }),
{
    lemma_fadt_dsdt_fields(c, address_at(c, dsdt_offset(c)));
}

/// The RSDP points at the RSDT and sums to zero modulo 256.
pub proof fn lemma_rsdp_points_at_rsdt(c: PlatformConfig)
    ensures
        ({
            let rsdp = rsdp_bytes(c, address_at(c, rsdt_offset(c)));
            &&& rsdp.len() == 20
            &&& rsdp.subrange(16, 20) == le32(address_at(c, rsdt_offset(c)) as u32)
            &&& byte_sum(rsdp) % 256 == 0
        }),
{
    let a = address_at(c, rsdt_offset(c));
    let raw = crate::acpi::rsdp::rsdp_raw(c, a);
    crate::acpi::checksum::lemma_checksum_zeroes_sum(raw, 8);
    assert(rsdp_bytes(c, a).subrange(16, 20) =~= le32(a as u32));
}


proof fn lemma_find_layout_distinct(layout: Seq<([u8; 4], TableLayout)>, i: int)
    requires
        0 <= i < layout.len(),
        forall|j: int| 0 <= j < i ==> (#[trigger] layout[j]).0@ != layout[i].0@,
    ensures
        find_layout(layout, layout[i].0@) == Some(layout[i].1),
    decreases i,
{
    if i > 0 {
        let rest = layout.drop_first();
        assert(rest[i - 1] == layout[i]);
        assert forall|j: int| 0 <= j < i - 1 implies (#[trigger] rest[j]).0@ != rest[i - 1].0@ by {
            assert(rest[j] == layout[j + 1]);
        }
        lemma_find_layout_distinct(rest, i - 1);
    }
}

/// The first bytes of the signatures, in blob order.
spec fn signature_firsts(c: PlatformConfig) -> Seq<u8> {
    if c.has_hpet {
        seq![0x44u8, 0x46, 0x41, 0x48, 0x4d, 0x57, 0x52]
    } else {
        seq![0x44u8, 0x46, 0x41, 0x4d, 0x57, 0x52]
    }
}

proof fn lemma_signature_firsts(c: PlatformConfig)
    ensures
        signature_firsts(c).len() == image_signatures(c).len(),
        image_signatures(c).len() == image_tables(c).len(),
        forall|k: int|
            0 <= k < image_signatures(c).len() ==> (#[trigger] image_signatures(c)[k])[0]
                == signature_firsts(c)[k] && image_signatures(c)[k]@[0] == signature_firsts(c)[k],
        forall|k: int|
            0 <= k < image_tables(c).len() ==> (#[trigger] image_tables(c)[k]).signature
                == image_signatures(c)[k],
{
    let sigs = image_signatures(c);
    assert forall|k: int| 0 <= k < sigs.len() implies (#[trigger] sigs[k])[0]
        == signature_firsts(c)[k] && sigs[k]@[0] == signature_firsts(c)[k] by {
        if c.has_hpet {
            assert(k == 0 || k == 1 || k == 2 || k == 3 || k == 4 || k == 5 || k == 6);
        } else {
            assert(k == 0 || k == 1 || k == 2 || k == 3 || k == 4 || k == 5);
        }
    }
}

/// The layout lists every table of the blob once, in strictly increasing
/// signature order (the order of the signatures as text).
#[verifier::spinoff_prover]
pub proof fn lemma_layout_sorted(c: PlatformConfig)
    ensures
        image_layout(c).len() == image_tables(c).len(),
        forall|j: int, k: int|
            0 <= j < k < image_layout(c).len() ==> signature_key(image_layout(c)[j].0)
                < signature_key(image_layout(c)[k].0),
        forall|i: int|
            0 <= i < image_tables(c).len() ==> 0 <= #[trigger] layout_index(c, i) < image_layout(
                c,
            ).len() && image_layout(c)[layout_index(c, i)] == layout_of(image_tables(c)[i]),
{
    lemma_signature_firsts(c);
    let layout = image_layout(c);
    let order = layout_order(c);
    let sorted_firsts = if c.has_hpet {
        seq![0x41u8, 0x44, 0x46, 0x48, 0x4d, 0x52, 0x57]
    } else {
        seq![0x41u8, 0x44, 0x46, 0x4d, 0x52, 0x57]
    };
    assert forall|k: int| 0 <= k < layout.len() implies (#[trigger] layout[k]).0[0]
        == sorted_firsts[k] by {
        assert(layout[k].0 == image_signatures(c)[order[k]]);
        if c.has_hpet {
            assert(k == 0 || k == 1 || k == 2 || k == 3 || k == 4 || k == 5 || k == 6);
        } else {
            assert(k == 0 || k == 1 || k == 2 || k == 3 || k == 4 || k == 5);
        }
    }
    assert forall|j: int, k: int| 0 <= j < k < layout.len() implies signature_key(layout[j].0)
        < signature_key(layout[k].0) by {
        assert(layout[j].0[0] == sorted_firsts[j]);
        assert(layout[k].0[0] == sorted_firsts[k]);
        assert(sorted_firsts[j] < sorted_firsts[k]) by {
            if c.has_hpet {
                assert(k == 1 || k == 2 || k == 3 || k == 4 || k == 5 || k == 6);
            } else {
                assert(k == 1 || k == 2 || k == 3 || k == 4 || k == 5);
            }
        }
    }
    assert forall|i: int| 0 <= i < image_tables(c).len() implies 0 <= #[trigger] layout_index(
        c,
        i,
    ) < layout.len() && layout[layout_index(c, i)] == layout_of(image_tables(c)[i]) by {
        let k = layout_index(c, i);
        if c.has_hpet {
            assert(i == 0 || i == 1 || i == 2 || i == 3 || i == 4 || i == 5 || i == 6);
        } else {
            assert(i == 0 || i == 1 || i == 2 || i == 3 || i == 4 || i == 5);
        }
        assert(order[k] == i);
        assert(layout[k] == layout_of(image_tables(c)[i]));
    }
}

/// No two tables of a blob share a signature, so looking a table up by its
/// signature in the layout finds that table's layout.
#[verifier::spinoff_prover]
pub proof fn lemma_layout_finds_tables(c: PlatformConfig, i: int)
    requires
        0 <= i < image_tables(c).len(),
    ensures
        forall|j: int|
            0 <= j < image_tables(c).len() && j != i ==> (#[trigger] image_signatures(c)[j])@
                != image_signatures(c)[i]@,
        find_layout(image_layout(c), image_signatures(c)[i]@) == Some(
            layout_of(image_tables(c)[i]).1,
        ),
{
    lemma_signature_firsts(c);
    lemma_layout_sorted(c);
    let sigs = image_signatures(c);
    let layout = image_layout(c);
    let order = layout_order(c);
    assert forall|j: int| 0 <= j < sigs.len() && j != i implies (#[trigger] sigs[j])@
        != sigs[i]@ by {
        assert(sigs[j]@[0] == signature_firsts(c)[j]);
        assert(sigs[i]@[0] == signature_firsts(c)[i]);
    }
    let k = layout_index(c, i);
    assert(0 <= layout_index(c, i) < layout.len());
    assert forall|j: int| 0 <= j < k implies (#[trigger] layout[j]).0@ != layout[k].0@ by {
        assert(signature_key(layout[j].0) < signature_key(layout[k].0));
        if layout[j].0@ == layout[k].0@ {
            assert(layout[j].0[0] == layout[j].0@[0] && layout[j].0[1] == layout[j].0@[1]);
            assert(layout[j].0[2] == layout[j].0@[2] && layout[j].0[3] == layout[j].0@[3]);
            assert(layout[k].0[0] == layout[k].0@[0] && layout[k].0[1] == layout[k].0@[1]);
            assert(layout[k].0[2] == layout[k].0@[2] && layout[k].0[3] == layout[k].0@[3]);
        }
    }
    lemma_find_layout_distinct(layout, k);
}

/// The headers of the DSDT and the RSDT (signatures `DSDT` and `RSDT`,
/// revision 1, the platform's OEM ID and OEM table ID), and the RSDP's
/// signature `RSD PTR `, OEM ID and revision 0 (the ACPI 1.0 form).
#[verifier::spinoff_prover]
pub proof fn lemma_dsdt_rsdt_rsdp_headers(c: PlatformConfig)
    ensures
        dsdt_table(c).subrange(0, 4) == seq![0x44u8, 0x53, 0x44, 0x54],
        dsdt_table(c)[8] == 1,
        dsdt_table(c).subrange(10, 16) == c.oem_id@,
        dsdt_table(c).subrange(16, 24) == c.oem_table_id@,
        rsdt_table(c, rsdt_entries(c)).subrange(0, 4) == seq![0x52u8, 0x53, 0x44, 0x54],
        rsdt_table(c, rsdt_entries(c))[8] == 1,
        rsdt_table(c, rsdt_entries(c)).subrange(10, 16) == c.oem_id@,
        rsdt_table(c, rsdt_entries(c)).subrange(16, 24) == c.oem_table_id@,
        rsdp_bytes(c, address_at(c, rsdt_offset(c))).subrange(0, 8) == seq![
            0x52u8,
            0x53,
            0x44,
            0x20,
            0x50,
            0x54,
            0x52,
            0x20,
        ],
        rsdp_bytes(c, address_at(c, rsdt_offset(c))).subrange(9, 15) == c.oem_id@,
        rsdp_bytes(c, address_at(c, rsdt_offset(c)))[15] == 0,
{
    reveal(dsdt_table);
    reveal(rsdt_table);
    let hd = crate::acpi::header::platform_header(c, [0x44u8, 0x53, 0x44, 0x54], 1);
    let bd = crate::acpi::dsdt::dsdt_body_bytes(c, crate::acpi::dsdt::chosen_padding(c));
    lemma_finalized_table(hd, bd);
    crate::acpi::header::lemma_finalized_header_fields(hd, bd);
    let hr = crate::acpi::header::platform_header(c, [0x52u8, 0x53, 0x44, 0x54], 1);
    let br = rsdt_body(rsdt_entries(c));
    lemma_finalized_table(hr, br);
    crate::acpi::header::lemma_finalized_header_fields(hr, br);
    let r = rsdp_bytes(c, address_at(c, rsdt_offset(c)));
    assert(r.subrange(0, 8) =~= seq![0x52u8, 0x53, 0x44, 0x20, 0x50, 0x54, 0x52, 0x20]);
    assert(r.subrange(9, 15) =~= c.oem_id@);
}

} // verus!
