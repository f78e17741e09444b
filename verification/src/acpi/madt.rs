//! The Multiple APIC Description Table.
use vstd::prelude::*;
use crate::acpi::bytes::{le16, le32, push_u16, push_u32};
use crate::acpi::config::PlatformConfig;
use crate::acpi::header::{
    finalize_table, finalized_table, lemma_body_field, lemma_finalized_header_fields, lemma_finalized_table,
    platform_header, AcpiHeader,
};

verus! {

/// The flag that says the machine also has dual 8259 PICs.
pub const MADT_FLAG_PCAT_COMPAT: u32 = 1;

/// A processor local APIC entry for processor `uid` with APIC ID `apic_id`,
/// enabled.
pub open spec fn local_apic_entry(uid: int, apic_id: u32) -> Seq<u8> {
    seq![0u8, 8, uid as u8, apic_id as u8] + le32(1)
}

/// The local APIC entries of the first `n` processors.
pub open spec fn local_apic_entries(ids: Seq<u32>, n: nat) -> Seq<u8>
    decreases n,
{
    if n == 0 {
        Seq::empty()
    } else {
        local_apic_entries(ids, (n - 1) as nat) + local_apic_entry(n - 1, ids[n - 1])
    }
}

/// The MADT body before the compatibility padding: local APIC address and
/// flags, one local APIC entry per processor, the I/O APIC, and the
/// interrupt source override that routes the SCI level-triggered,
/// active-high.
pub open spec fn madt_core(config: PlatformConfig) -> Seq<u8> {
    le32(config.local_apic_address) + le32(MADT_FLAG_PCAT_COMPAT) + local_apic_entries(
        config.cpu_apic_ids@,
        config.cpu_apic_ids@.len(),
    ) + seq![1u8, 12, config.ioapic_id, 0] + le32(config.ioapic_address) + le32(
        config.ioapic_gsi_base,
    ) + seq![2u8, 10, 0, config.sci_irq as u8] + le32(config.sci_irq as u32) + le16(0x000d)
}

/// A local APIC NMI entry for all processors on LINT1, edge-triggered,
/// active-high.
pub open spec fn nmi_entry() -> Seq<u8> {
    seq![4u8, 6, 0xff] + le16(0x0005) + seq![1u8]
}

/// `n` local APIC NMI entries.
pub open spec fn nmi_entries(n: nat) -> Seq<u8>
    decreases n,
{
    if n == 0 {
        Seq::empty()
    } else {
        nmi_entries((n - 1) as nat) + nmi_entry()
    }
}

/// How many NMI entries the compatibility model adds after a body of
/// `body_len` bytes: as many whole 6-byte entries as fit below the target.
pub open spec fn compat_nmi_count(config: PlatformConfig, body_len: nat) -> nat {
    if config.compat_lengths && config.madt_target() > 36 + body_len {
        ((config.madt_target() - 36 - body_len) / 6) as nat
    } else {
        0
    }
}

/// The MADT body.
pub open spec fn madt_body(config: PlatformConfig) -> Seq<u8> {
    madt_core(config) + nmi_entries(compat_nmi_count(config, madt_core(config).len()))
}

/// The complete MADT.
#[verifier::opaque]
pub open spec fn madt_table(config: PlatformConfig) -> Seq<u8> {
    finalized_table(platform_header(config, [0x41u8, 0x50, 0x49, 0x43], 3), madt_body(config))
}

/// The MADT fits the 32-bit length field.
pub open spec fn madt_fits(config: PlatformConfig) -> bool {
    222 + 8 * config.cpu_apic_ids@.len() <= u32::MAX
}

proof fn lemma_local_apic_entries_len(ids: Seq<u32>, n: nat)
    ensures
        local_apic_entries(ids, n).len() == 8 * n,
    decreases n,
{
    if n > 0 {
        lemma_local_apic_entries_len(ids, (n - 1) as nat);
    }
}

proof fn lemma_nmi_entries_len(n: nat)
    ensures
        nmi_entries(n).len() == 6 * n,
    decreases n,
{
    if n > 0 {
        lemma_nmi_entries_len((n - 1) as nat);
    }
}

/// The MADT core is 30 bytes plus 8 per processor.
pub proof fn lemma_madt_core_len(config: PlatformConfig)
    ensures
        madt_core(config).len() == 30 + 8 * config.cpu_apic_ids@.len(),
{
    lemma_local_apic_entries_len(config.cpu_apic_ids@, config.cpu_apic_ids@.len());
}

/// With the compatibility model on, the MADT is exactly as long as
/// `target_madt_len` says.
pub proof fn lemma_madt_compat_length(config: PlatformConfig)
    requires
        madt_fits(config),
        config.compat_lengths,
    ensures
        madt_table(config).len() == config.madt_target(),
{
    reveal(madt_table);
    lemma_madt_core_len(config);
    let n = compat_nmi_count(config, madt_core(config).len());
    assert(n == 26);
    lemma_nmi_entries_len(n);
}

/// Appends the NMI entries that bring the table up to the compatibility
/// target length.
fn append_compat_nmi_entries(body: &mut Vec<u8>, config: &PlatformConfig)
    requires
        36 + old(body)@.len() <= u32::MAX,
        config.madt_target() <= u32::MAX,
    ensures
        final(body)@ == old(body)@ + nmi_entries(compat_nmi_count(*config, old(body)@.len())),
{
    let current_total_len: u32 = 36 + body.len() as u32;
    let target = config.target_madt_len();
    let target_total_len = match target {
        None => {
            assert(old(body)@ =~= old(body)@ + nmi_entries(0));
            return ;
        },
        Some(t) => t,
    };
    if target_total_len <= current_total_len {
        assert(old(body)@ =~= old(body)@ + nmi_entries(0));
        return ;
    }
    let extra = (target_total_len - current_total_len) as usize;
    let entry_count = extra / 6;
    let mut k: usize = 0;
    while k < entry_count
        invariant
            k <= entry_count,
            body@ == old(body)@ + nmi_entries(k as nat),
        decreases entry_count - k,
    {
        body.push(4);
        body.push(6);
        body.push(0xff);
        push_u16(body, 0x0005);
        body.push(1);
        k += 1;
        assert(body@ =~= old(body)@ + nmi_entries(k as nat));
    }
}

/// Builds the MADT.
pub fn build_madt(config: &PlatformConfig) -> (t: Vec<u8>)
    requires
        madt_fits(*config),
    ensures
        t@ == madt_table(*config),
{
    proof {
        reveal(madt_table);
    }
    let header = AcpiHeader {
        signature: [0x41u8, 0x50, 0x49, 0x43],  // "APIC"
        revision: 3,
        oem_id: config.oem_id,
        oem_table_id: config.oem_table_id,
        oem_revision: config.oem_revision,
        creator_id: config.creator_id,
        creator_revision: config.creator_revision,
    };
    let ghost ids = config.cpu_apic_ids@;
    let mut body: Vec<u8> = Vec::new();
    push_u32(&mut body, config.local_apic_address);
    push_u32(&mut body, MADT_FLAG_PCAT_COMPAT);
    let ghost head = body@;
    let mut uid: usize = 0;
    while uid < config.cpu_apic_ids.len()
        invariant
            uid <= ids.len(),
            ids == config.cpu_apic_ids@,
            body@ == head + local_apic_entries(ids, uid as nat),
        decreases ids.len() - uid,
    {
        let apic_id = config.cpu_apic_ids[uid];
        body.push(0);
        body.push(8);
        body.push(uid as u8);
        body.push(apic_id as u8);
        push_u32(&mut body, 1);
        uid += 1;
        assert(body@ =~= head + local_apic_entries(ids, uid as nat));
    }
    body.push(1);
    body.push(12);
    body.push(config.ioapic_id);
    body.push(0);
    push_u32(&mut body, config.ioapic_address);
    push_u32(&mut body, config.ioapic_gsi_base);
    body.push(2);
    body.push(10);
    body.push(0);
    body.push(config.sci_irq as u8);
    push_u32(&mut body, config.sci_irq as u32);
    push_u16(&mut body, 0x000d);
    assert(body@ =~= madt_core(*config));
    proof {
        lemma_madt_core_len(*config);
    }
    append_compat_nmi_entries(&mut body, config);
    finalize_table(header, body.as_slice())
}

proof fn lemma_local_apic_entry_at(ids: Seq<u32>, n: nat, i: int)
    requires
        0 <= i < n,
    ensures
        local_apic_entries(ids, n).subrange(8 * i, 8 * i + 8) == local_apic_entry(i, ids[i]),
    decreases n,
{
    lemma_local_apic_entries_len(ids, (n - 1) as nat);
    let prev = local_apic_entries(ids, (n - 1) as nat);
    let all = local_apic_entries(ids, n);
    if i == n - 1 {
        assert(all.subrange(8 * i, 8 * i + 8) =~= local_apic_entry(i, ids[i]));
    } else {
        lemma_local_apic_entry_at(ids, (n - 1) as nat, i);
        lemma_local_apic_entries_len(ids, (i + 1) as nat);
        assert(all.subrange(8 * i, 8 * i + 8) =~= prev.subrange(8 * i, 8 * i + 8));
    }
}

/// Every processor has a local APIC entry, marked enabled: for processor
/// `i` the MADT holds, 44 + 8 * `i` bytes in, type 0, length 8, processor
/// UID `i`, APIC ID `cpu_apic_ids[i]` (low byte) and the flags 1.
#[verifier::spinoff_prover]
pub proof fn lemma_madt_local_apics(config: PlatformConfig, i: int)
    requires
        0 <= i < config.cpu_apic_ids@.len(),
    ensures
        madt_table(config).subrange(44 + 8 * i, 52 + 8 * i) == seq![
            0u8,
            8,
            i as u8,
            config.cpu_apic_ids@[i] as u8,
            1,
            0,
            0,
            0,
        ],
{
    reveal(madt_table);
    let ids = config.cpu_apic_ids@;
    let n = ids.len();
    let body = madt_body(config);
    let entries = local_apic_entries(ids, n);
    lemma_madt_core_len(config);
    lemma_local_apic_entries_len(ids, n);
    lemma_local_apic_entry_at(ids, n, i);
    let h = platform_header(config, [0x41u8, 0x50, 0x49, 0x43], 3);
    lemma_finalized_table(h, body);
    let t = madt_table(config);
    assert(le32(1) =~= seq![1u8, 0, 0, 0]);
    assert(body.subrange(8 + 8 * i, 16 + 8 * i) =~= entries.subrange(8 * i, 8 * i + 8));
    assert(t.subrange(44 + 8 * i, 52 + 8 * i) =~= t.subrange(36, (36 + body.len()) as int).subrange(
        8 + 8 * i,
        16 + 8 * i,
    ));
    assert(local_apic_entry(i, ids[i]) =~= seq![0u8, 8, i as u8, ids[i] as u8, 1, 0, 0, 0]);
}

proof fn lemma_nmi_entry_at(n: nat, k: int)
    requires
        0 <= k < n,
    ensures
        nmi_entries(n).subrange(6 * k, 6 * k + 6) == nmi_entry(),
    decreases n,
{
    lemma_nmi_entries_len((n - 1) as nat);
    if k < n - 1 {
        lemma_nmi_entry_at((n - 1) as nat, k);
        assert(nmi_entries(n).subrange(6 * k, 6 * k + 6) =~= nmi_entries((n - 1) as nat).subrange(
            6 * k,
            6 * k + 6,
        ));
    } else {
        assert(nmi_entries(n).subrange(6 * k, 6 * k + 6) =~= nmi_entry());
    }
}

/// The rest of the MADT around the local APIC entries: signature `APIC`,
/// revision 3 and the platform's OEM ID; the local APIC address and the
/// PC-AT compatibility flag; after the `n` local APIC entries, the I/O
/// APIC (type 1, length 12, its ID, address and GSI base), then the
/// interrupt source override of the SCI (type 2, length 10, bus 0, source
/// and GSI both the SCI, flags 0x000d: level-triggered, active-high), then
/// whole 6-byte entries to the end.
#[verifier::rlimit(40)]
#[verifier::spinoff_prover]
pub proof fn lemma_madt_fixed_entries(config: PlatformConfig)
    ensures
        ({
            let t = madt_table(config);
            let o: int = 44 + 8 * (config.cpu_apic_ids@.len() as int);
            &&& t.subrange(0, 4) == seq![0x41u8, 0x50, 0x49, 0x43]
            &&& t[8] == 3
            &&& t.subrange(10, 16) == config.oem_id@
            &&& t.subrange(36, 40) == le32(config.local_apic_address)
            &&& t.subrange(40, 44) == seq![1u8, 0, 0, 0]
            &&& t.subrange(o, o + 12) == seq![1u8, 12, config.ioapic_id, 0] + le32(
                config.ioapic_address,
            ) + le32(config.ioapic_gsi_base)
            &&& t.subrange(o + 12, o + 22) == seq![2u8, 10, 0, config.sci_irq as u8] + le32(
                config.sci_irq as u32,
            ) + seq![0x0du8, 0]
            &&& (t.len() - (o + 22)) % 6 == 0
        }),
{
    reveal(madt_table);
    let ids = config.cpu_apic_ids@;
    let n: int = ids.len() as int;
    let body = madt_body(config);
    let core = madt_core(config);
    let cnt = compat_nmi_count(config, core.len());
    lemma_madt_core_len(config);
    lemma_local_apic_entries_len(ids, ids.len());
    lemma_nmi_entries_len(cnt);
    let h = platform_header(config, [0x41u8, 0x50, 0x49, 0x43], 3);
    lemma_finalized_table(h, body);
    lemma_finalized_header_fields(h, body);
    let t = madt_table(config);
    let o: int = 44 + 8 * n;
    lemma_body_field(h, body, 0, 4);
    lemma_body_field(h, body, 4, 8);
    lemma_body_field(h, body, 8 + 8 * n, 20 + 8 * n);
    lemma_body_field(h, body, 20 + 8 * n, 30 + 8 * n);
    assert(body.subrange(0, 4) =~= le32(config.local_apic_address));
    assert(le32(MADT_FLAG_PCAT_COMPAT) =~= seq![1u8, 0, 0, 0]);
    assert(body.subrange(4, 8) =~= seq![1u8, 0, 0, 0]);
    assert(body.subrange(8 + 8 * n, 20 + 8 * n) =~= seq![1u8, 12, config.ioapic_id, 0] + le32(
        config.ioapic_address,
    ) + le32(config.ioapic_gsi_base));
    assert(le16(0x000d) =~= seq![0x0du8, 0]);
    assert(body.subrange(20 + 8 * n, 30 + 8 * n) =~= seq![2u8, 10, 0, config.sci_irq as u8] + le32(
        config.sci_irq as u32,
    ) + seq![0x0du8, 0]);
}

/// Whether a local APIC NMI entry for all processors on LINT1
/// (type 4, length 6, processor 0xff, flags 0x0005, LINT1) starts at byte
/// `i` of `t`.
pub open spec fn nmi_entry_at(t: Seq<u8>, i: int) -> bool {
    0 <= i && i + 6 <= t.len() && t.subrange(i, i + 6) == seq![4u8, 6, 0xff, 5, 0, 1]
}

/// After the interrupt source override, the MADT holds only local APIC
/// NMI entries for all processors on LINT1.
#[verifier::rlimit(40)]
#[verifier::spinoff_prover]
pub proof fn lemma_madt_nmi_entries(config: PlatformConfig)
    ensures
        (madt_table(config).len() - (66 + 8 * config.cpu_apic_ids@.len())) % 6 == 0,
        forall|k: int|
            0 <= k && 66 + 8 * config.cpu_apic_ids@.len() + 6 * k + 6 <= madt_table(config).len()
                ==> #[trigger] nmi_entry_at(
                madt_table(config),
                66 + 8 * config.cpu_apic_ids@.len() + 6 * k,
            ),
{
    reveal(madt_table);
    let ids = config.cpu_apic_ids@;
    let n: int = ids.len() as int;
    let body = madt_body(config);
    let core = madt_core(config);
    let cnt = compat_nmi_count(config, core.len());
    lemma_madt_core_len(config);
    lemma_nmi_entries_len(cnt);
    let h = platform_header(config, [0x41u8, 0x50, 0x49, 0x43], 3);
    lemma_finalized_table(h, body);
    let t = madt_table(config);
    assert(le16(0x0005) =~= seq![5u8, 0]);
    assert(nmi_entry() =~= seq![4u8, 6, 0xff, 5, 0, 1]);
    assert forall|k: int|
        0 <= k && 66 + 8 * n + 6 * k + 6 <= t.len() implies #[trigger] nmi_entry_at(
        t,
        66 + 8 * n + 6 * k,
    ) by {
        lemma_nmi_entry_at(cnt, k);
        lemma_body_field(h, body, 30 + 8 * n + 6 * k, 36 + 8 * n + 6 * k);
        assert(body.subrange(30 + 8 * n + 6 * k, 36 + 8 * n + 6 * k) =~= nmi_entries(cnt).subrange(
            6 * k,
            6 * k + 6,
        ));
    }
}

} // verus!
