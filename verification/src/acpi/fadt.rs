//! The Fixed ACPI Description Table (ACPI 6 layout, 244 bytes).
use vstd::prelude::*;
use crate::acpi::bytes::{
    le16, le32, le64, lemma_splice_into_zeros, patch_bytes, push_u16, push_u32, push_u64,
    push_zeros, splice, zeros,
};
use crate::acpi::config::PlatformConfig;
use crate::acpi::header::{finalize_table, finalized_table, platform_header, AcpiHeader};

verus! {

/// A Generic Address Structure.
#[derive(Debug, Clone, Copy)]
struct Gas {
    space_id: u8,
    bit_width: u8,
    bit_offset: u8,
    access_size: u8,
    address: u64,
}

/// The access size code for a register of `bit_width` bits: byte, word,
/// dword or qword access.
pub open spec fn access_size_for(bit_width: u8) -> u8 {
    if bit_width <= 8 {
        1
    } else if bit_width <= 16 {
        2
    } else if bit_width <= 32 {
        3
    } else {
        4
    }
}

/// The encoding of a Generic Address Structure for a register of
/// `bit_width` bits in system I/O space at `address`.
pub open spec fn io_gas_bytes(bit_width: u8, address: u16) -> Seq<u8> {
    seq![1u8, bit_width, 0, access_size_for(bit_width)] + le64(address as u64)
}

impl Gas {
    spec fn spec_bytes(self) -> Seq<u8> {
        seq![self.space_id, self.bit_width, self.bit_offset, self.access_size] + le64(self.address)
    }

    /// A register of `bit_width` bits in system I/O space.
    fn io(bit_width: u8, address: u16) -> (g: Self)
        ensures
            g.spec_bytes() == io_gas_bytes(bit_width, address),
    {
        Self {
            space_id: 1,
            bit_width,
            bit_offset: 0,
            access_size: if bit_width <= 8 {
                1
            } else if bit_width <= 16 {
                2
            } else if bit_width <= 32 {
                3
            } else {
                4
            },
            address: address as u64,
        }
    }

    fn encode(self, out: &mut Vec<u8>)
        ensures
            final(out)@ == old(out)@ + self.spec_bytes(),
    {
        out.push(self.space_id);
        out.push(self.bit_width);
        out.push(self.bit_offset);
        out.push(self.access_size);
        push_u64(out, self.address);
        assert(final(out)@ =~= old(out)@ + self.spec_bytes());
    }
}

pub const FADT_FLAG_WBINVD: u32 = 1;
pub const FADT_FLAG_PROC_C1: u32 = 4;
pub const FADT_FLAG_SLP_BUTTON: u32 = 0x20;
pub const FADT_FLAG_RTC_S4: u32 = 0x80;
pub const FADT_FLAG_RESET_REG_SUP: u32 = 0x400;
pub const FADT_FLAG_USE_PLATFORM_CLOCK: u32 = 0x8000;
pub const FADT_BODY_LEN: usize = 208;
const FADT_OFFSET_DSDT: usize = 4;
const FADT_OFFSET_SCI_INT: usize = 10;
const FADT_OFFSET_PM1A_EVT_BLK: usize = 20;
const FADT_OFFSET_PM1A_CNT_BLK: usize = 28;
const FADT_OFFSET_PM_TMR_BLK: usize = 40;
const FADT_OFFSET_GPE0_BLK: usize = 44;
const FADT_OFFSET_PM1_EVT_LEN: usize = 52;
const FADT_OFFSET_PM1_CNT_LEN: usize = 53;
const FADT_OFFSET_PM_TMR_LEN: usize = 55;
const FADT_OFFSET_GPE0_BLK_LEN: usize = 56;
const FADT_OFFSET_P_LVL2_LAT: usize = 60;
const FADT_OFFSET_P_LVL3_LAT: usize = 62;
const FADT_OFFSET_CENTURY: usize = 72;
const FADT_OFFSET_IAPC_BOOT_ARCH: usize = 74;
const FADT_OFFSET_FLAGS: usize = 76;
const FADT_OFFSET_RESET_REG: usize = 80;
const FADT_OFFSET_RESET_VALUE: usize = 92;
const FADT_OFFSET_X_FIRMWARE_CTRL: usize = 96;
const FADT_OFFSET_X_DSDT: usize = 104;
const FADT_OFFSET_X_PM1A_EVT_BLK: usize = 112;
const FADT_OFFSET_X_PM1A_CNT_BLK: usize = 136;
const FADT_OFFSET_X_PM_TMR_BLK: usize = 172;
const FADT_OFFSET_X_GPE0_BLK: usize = 184;
/// The machine has an 8042 keyboard controller.
pub const IAPC_BOOT_ARCH_8042: u16 = 2;

/// The feature flags: WBINVD, C1 on all processors, sleep button as a
/// control method, RTC wake from S4, reset register, platform clock.
pub open spec fn fadt_flags() -> u32 {
    FADT_FLAG_WBINVD | FADT_FLAG_PROC_C1 | FADT_FLAG_SLP_BUTTON | FADT_FLAG_RTC_S4
        | FADT_FLAG_RESET_REG_SUP | FADT_FLAG_USE_PLATFORM_CLOCK
}

/// The width in bits of the GPE0 block register: 8 bits per byte of the
/// block, saturating, and at least 8.
pub open spec fn gpe0_bit_width(gpe0_len: u8) -> u8 {
    let w = if gpe0_len >= 32 {
        255u8
    } else {
        (gpe0_len * 8) as u8
    };
    if w < 8 {
        8
    } else {
        w
    }
}

/// The FADT body, field by field: DSDT pointer, SCI interrupt, the PM1a
/// event and control blocks, the PM timer, the GPE0 block and their
/// lengths, C2/C3 disabled, the RTC century index, the 8042 flag, the
/// feature flags, the reset register and value, and the 64-bit DSDT and
/// register blocks.
pub open spec fn fadt_body(config: PlatformConfig, dsdt_address: u64) -> Seq<u8> {
    let pm = config.pm_io_base;
    zeros(4) + le32(dsdt_address as u32) + zeros(2) + le16(config.sci_irq) + zeros(8) + le32(
        pm as u32,
    ) + zeros(4) + le32((pm + 4) as u32) + zeros(8) + le32((pm + 8) as u32) + le32(
        config.gpe0_base as u32,
    ) + zeros(4) + seq![4u8, 2, 0, 4, config.gpe0_len] + zeros(3) + le16(0x0fff) + le16(0x0fff)
        + zeros(8) + seq![0x32u8, 0] + le16(IAPC_BOOT_ARCH_8042) + le32(fadt_flags())
        + io_gas_bytes(8, config.reset_io_base) + seq![config.reset_value] + zeros(3) + le64(0)
        + le64(dsdt_address) + io_gas_bytes(32, pm) + zeros(12) + io_gas_bytes(16, (pm + 4) as u16)
        + zeros(24) + io_gas_bytes(32, (pm + 8) as u16) + io_gas_bytes(
        gpe0_bit_width(config.gpe0_len),
        config.gpe0_base,
    ) + zeros(12)
}

/// The complete FADT.
#[verifier::opaque]
pub open spec fn fadt_table(config: PlatformConfig, dsdt_address: u64) -> Seq<u8> {
    finalized_table(
        platform_header(config, [0x46u8, 0x41, 0x43, 0x50], 6),
        fadt_body(config, dsdt_address),
    )
}

/// The PM register blocks stay within the 16-bit I/O space.
pub open spec fn fadt_fits(config: PlatformConfig) -> bool {
    config.pm_io_base + 8 <= u16::MAX
}

/// The FADT is 244 bytes long, its 32-bit DSDT field at offset 40 holds
/// the low half of the DSDT address and its 64-bit X_DSDT field at offset
/// 140 the whole address.
pub proof fn lemma_fadt_dsdt_fields(config: PlatformConfig, dsdt_address: u64)
    ensures
        fadt_table(config, dsdt_address).len() == 244,
        fadt_table(config, dsdt_address).subrange(40, 44) == le32(dsdt_address as u32),
        fadt_table(config, dsdt_address).subrange(140, 148) == le64(dsdt_address),
{
    reveal(fadt_table);
    let body = fadt_body(config, dsdt_address);
    assert(body.len() == 208);
    crate::acpi::header::lemma_finalized_table(
        platform_header(config, [0x46u8, 0x41, 0x43, 0x50], 6),
        body,
    );
    let t = fadt_table(config, dsdt_address);
    assert(t.subrange(40, 44) =~= body.subrange(4, 8));
    assert(body.subrange(4, 8) =~= le32(dsdt_address as u32));
    assert(t.subrange(140, 148) =~= body.subrange(104, 112));
    assert(body.subrange(104, 112) =~= le64(dsdt_address));
}

/// The power-management register blocks: the PM1a event block at
/// `pm_io_base`, the PM1a control block four bytes above it and the PM
/// timer eight bytes above it, each given by its 32-bit address field
/// (bytes 56, 64 and 76) and, in system I/O space with the same address,
/// by its 64-bit Generic Address Structure (bytes 148, 172 and 208).
#[verifier::spinoff_prover]
#[verifier::rlimit(40)]
pub proof fn lemma_fadt_pm_blocks(config: PlatformConfig, dsdt_address: u64)
    requires
        fadt_fits(config),
    ensures
        fadt_table(config, dsdt_address).subrange(56, 60) == le32(config.pm_io_base as u32),
        fadt_table(config, dsdt_address).subrange(64, 68) == le32((config.pm_io_base + 4) as u32),
        fadt_table(config, dsdt_address).subrange(76, 80) == le32((config.pm_io_base + 8) as u32),
        fadt_table(config, dsdt_address).subrange(148, 152) == seq![1u8, 32, 0, 3],
        fadt_table(config, dsdt_address).subrange(152, 160) == le64(config.pm_io_base as u64),
        fadt_table(config, dsdt_address).subrange(172, 176) == seq![1u8, 16, 0, 2],
        fadt_table(config, dsdt_address).subrange(176, 184) == le64(
            (config.pm_io_base + 4) as u64,
        ),
        fadt_table(config, dsdt_address).subrange(208, 212) == seq![1u8, 32, 0, 3],
        fadt_table(config, dsdt_address).subrange(212, 220) == le64(
            (config.pm_io_base + 8) as u64,
        ),
{
    reveal(fadt_table);
    let body = fadt_body(config, dsdt_address);
    let pm = config.pm_io_base;
    assert(body.len() == 208);
    let h = platform_header(config, [0x46u8, 0x41, 0x43, 0x50], 6);
    crate::acpi::header::lemma_body_field(h, body, 20, 24);
    crate::acpi::header::lemma_body_field(h, body, 28, 32);
    crate::acpi::header::lemma_body_field(h, body, 40, 44);
    crate::acpi::header::lemma_body_field(h, body, 112, 116);
    crate::acpi::header::lemma_body_field(h, body, 116, 124);
    crate::acpi::header::lemma_body_field(h, body, 136, 140);
    crate::acpi::header::lemma_body_field(h, body, 140, 148);
    crate::acpi::header::lemma_body_field(h, body, 172, 176);
    crate::acpi::header::lemma_body_field(h, body, 176, 184);
    assert(body.subrange(20, 24) =~= le32(pm as u32));
    assert(body.subrange(28, 32) =~= le32((pm + 4) as u32));
    assert(body.subrange(40, 44) =~= le32((pm + 8) as u32));
    assert(body.subrange(112, 116) =~= seq![1u8, 32, 0, 3]);
    assert(body.subrange(116, 124) =~= le64(pm as u64));
    assert(body.subrange(136, 140) =~= seq![1u8, 16, 0, 2]);
    assert(body.subrange(140, 148) =~= le64((pm + 4) as u64));
    assert(body.subrange(172, 176) =~= seq![1u8, 32, 0, 3]);
    assert(body.subrange(176, 184) =~= le64((pm + 8) as u64));
}

/// The fixed fields of the FADT: signature `FACP`, revision 6, the
/// platform's OEM ID; the SCI interrupt (byte 46), the GPE0 block address
/// (80), the block lengths (PM1 event 4, PM1 control 2, PM timer 4, GPE0
/// as configured), C2 and C3 latencies 0x0fff (disabled), the RTC century
/// index 0x32, the 8042 boot flag, the feature flags 0x84a5 (WBINVD, C1,
/// sleep button, RTC S4, reset register, platform clock), and the reset
/// register (an 8-bit I/O register at `reset_io_base`) with its value.
#[verifier::spinoff_prover]
#[verifier::rlimit(40)]
pub proof fn lemma_fadt_fixed_fields(config: PlatformConfig, dsdt_address: u64)
    ensures
        ({
            let t = fadt_table(config, dsdt_address);
            &&& t.subrange(0, 4) == seq![0x46u8, 0x41, 0x43, 0x50]
            &&& t[8] == 6
            &&& t.subrange(10, 16) == config.oem_id@
            &&& t.subrange(46, 48) == le16(config.sci_irq)
            &&& t.subrange(80, 84) == le32(config.gpe0_base as u32)
            &&& t.subrange(88, 93) == seq![4u8, 2, 0, 4, config.gpe0_len]
            &&& t.subrange(96, 100) == seq![0xffu8, 0x0f, 0xff, 0x0f]
            &&& t.subrange(108, 116) == seq![0x32u8, 0, 2, 0, 0xa5, 0x84, 0, 0]
            &&& t.subrange(116, 128) == seq![1u8, 8, 0, 1] + le64(config.reset_io_base as u64)
            &&& t[128] == config.reset_value
        }),
{
    reveal(fadt_table);
    let body = fadt_body(config, dsdt_address);
    assert(body.len() == 208);
    let h = platform_header(config, [0x46u8, 0x41, 0x43, 0x50], 6);
    crate::acpi::header::lemma_finalized_table(h, body);
    crate::acpi::header::lemma_finalized_header_fields(h, body);
    crate::acpi::header::lemma_body_field(h, body, 10, 12);
    crate::acpi::header::lemma_body_field(h, body, 44, 48);
    crate::acpi::header::lemma_body_field(h, body, 52, 57);
    crate::acpi::header::lemma_body_field(h, body, 60, 64);
    crate::acpi::header::lemma_body_field(h, body, 72, 80);
    crate::acpi::header::lemma_body_field(h, body, 80, 92);
    crate::acpi::header::lemma_body_field(h, body, 92, 93);
    assert(body.subrange(10, 12) =~= le16(config.sci_irq));
    assert(body.subrange(44, 48) =~= le32(config.gpe0_base as u32));
    assert(body.subrange(52, 57) =~= seq![4u8, 2, 0, 4, config.gpe0_len]);
    assert(le16(0x0fff) =~= seq![0xffu8, 0x0f]);
    assert(body.subrange(60, 64) =~= seq![0xffu8, 0x0f, 0xff, 0x0f]);
    assert(fadt_flags() == 0x84a5) by {
        assert((1u32 | 4u32 | 0x20u32 | 0x80u32 | 0x400u32 | 0x8000u32) == 0x84a5u32)
            by (bit_vector);
    }
    assert(le32(0x84a5) =~= seq![0xa5u8, 0x84, 0, 0]);
    assert(le16(IAPC_BOOT_ARCH_8042) =~= seq![2u8, 0]);
    assert(body.subrange(72, 80) =~= seq![0x32u8, 0, 2, 0, 0xa5, 0x84, 0, 0]);
    assert(body.subrange(80, 92) =~= seq![1u8, 8, 0, 1] + le64(config.reset_io_base as u64));
    assert(body.subrange(92, 93) =~= seq![config.reset_value]);
    let t = fadt_table(config, dsdt_address);
    assert(t[128] == t.subrange(128, 129)[0]);
}

fn patch_u16(body: &mut Vec<u8>, offset: usize, value: u16)
    requires
        offset + 2 <= old(body)@.len(),
    ensures
        final(body)@ == splice(old(body)@, offset as int, le16(value)),
{
    let mut bytes: Vec<u8> = Vec::new();
    push_u16(&mut bytes, value);
    assert(bytes@ =~= le16(value));
    patch_bytes(body, offset, bytes.as_slice());
}

fn patch_u32(body: &mut Vec<u8>, offset: usize, value: u32)
    requires
        offset + 4 <= old(body)@.len(),
    ensures
        final(body)@ == splice(old(body)@, offset as int, le32(value)),
{
    let mut bytes: Vec<u8> = Vec::new();
    push_u32(&mut bytes, value);
    assert(bytes@ =~= le32(value));
    patch_bytes(body, offset, bytes.as_slice());
}

fn patch_u64(body: &mut Vec<u8>, offset: usize, value: u64)
    requires
        offset + 8 <= old(body)@.len(),
    ensures
        final(body)@ == splice(old(body)@, offset as int, le64(value)),
{
    let mut bytes: Vec<u8> = Vec::new();
    push_u64(&mut bytes, value);
    assert(bytes@ =~= le64(value));
    patch_bytes(body, offset, bytes.as_slice());
}

fn patch_gas(body: &mut Vec<u8>, offset: usize, gas: Gas)
    requires
        offset + 12 <= old(body)@.len(),
    ensures
        final(body)@ == splice(old(body)@, offset as int, gas.spec_bytes()),
{
    let mut encoded: Vec<u8> = Vec::with_capacity(12);
    gas.encode(&mut encoded);
    assert(encoded@ =~= gas.spec_bytes());
    patch_bytes(body, offset, encoded.as_slice());
}

fn patch_byte(body: &mut Vec<u8>, offset: usize, value: u8)
    requires
        offset < old(body)@.len(),
    ensures
        final(body)@ == splice(old(body)@, offset as int, seq![value]),
{
    body.set(offset, value);
    assert(final(body)@ =~= splice(old(body)@, offset as int, seq![value]));
}

/// Builds the FADT for a DSDT loaded at `dsdt_address`.
#[verifier::rlimit(80)]
#[verifier::spinoff_prover]
pub fn build_fadt(config: &PlatformConfig, dsdt_address: u64) -> (t: Vec<u8>)
    requires
        fadt_fits(*config),
    ensures
        t@ == fadt_table(*config, dsdt_address),
        t@.len() == 244,
{
    proof {
        reveal(fadt_table);
    }
    let header = AcpiHeader {
        signature: [0x46u8, 0x41, 0x43, 0x50],  // "FACP"
        revision: 6,
        oem_id: config.oem_id,
        oem_table_id: config.oem_table_id,
        oem_revision: config.oem_revision,
        creator_id: config.creator_id,
        creator_revision: config.creator_revision,
    };
    let pm = config.pm_io_base;
    let mut body: Vec<u8> = Vec::new();
    push_zeros(&mut body, FADT_BODY_LEN);
    // The body is always `p + zeros(208 - p.len())`: the fields written so
    // far, then untouched zeros.
    let ghost mut p: Seq<u8> = Seq::empty();
    assert(body@ =~= p + zeros(208));

    patch_u32(&mut body, FADT_OFFSET_DSDT, dsdt_address as u32);
    proof {
        lemma_splice_into_zeros(p, 208, 4, le32(dsdt_address as u32));
        p = p + zeros(4) + le32(dsdt_address as u32);
    }
    patch_u16(&mut body, FADT_OFFSET_SCI_INT, config.sci_irq);
    proof {
        lemma_splice_into_zeros(p, (208 - p.len()) as nat, 10, le16(config.sci_irq));
        p = p + zeros(2) + le16(config.sci_irq);
    }
    patch_u32(&mut body, FADT_OFFSET_PM1A_EVT_BLK, pm as u32);
    proof {
        lemma_splice_into_zeros(p, (208 - p.len()) as nat, 20, le32(pm as u32));
        p = p + zeros(8) + le32(pm as u32);
    }
    patch_u32(&mut body, FADT_OFFSET_PM1A_CNT_BLK, (pm + 0x04) as u32);
    proof {
        lemma_splice_into_zeros(p, (208 - p.len()) as nat, 28, le32((pm + 4) as u32));
        p = p + zeros(4) + le32((pm + 4) as u32);
    }
    patch_u32(&mut body, FADT_OFFSET_PM_TMR_BLK, (pm + 0x08) as u32);
    proof {
        lemma_splice_into_zeros(p, (208 - p.len()) as nat, 40, le32((pm + 8) as u32));
        p = p + zeros(8) + le32((pm + 8) as u32);
    }
    patch_u32(&mut body, FADT_OFFSET_GPE0_BLK, config.gpe0_base as u32);
    proof {
        lemma_splice_into_zeros(p, (208 - p.len()) as nat, 44, le32(config.gpe0_base as u32));
        p = p + zeros(0) + le32(config.gpe0_base as u32);
    }
    patch_byte(&mut body, FADT_OFFSET_PM1_EVT_LEN, 4);
    proof {
        lemma_splice_into_zeros(p, (208 - p.len()) as nat, 52, seq![4u8]);
        p = p + zeros(4) + seq![4u8];
    }
    patch_byte(&mut body, FADT_OFFSET_PM1_CNT_LEN, 2);
    proof {
        lemma_splice_into_zeros(p, (208 - p.len()) as nat, 53, seq![2u8]);
        p = p + zeros(0) + seq![2u8];
    }
    patch_byte(&mut body, FADT_OFFSET_PM_TMR_LEN, 4);
    proof {
        lemma_splice_into_zeros(p, (208 - p.len()) as nat, 55, seq![4u8]);
        p = p + zeros(1) + seq![4u8];
    }
    patch_byte(&mut body, FADT_OFFSET_GPE0_BLK_LEN, config.gpe0_len);
    proof {
        lemma_splice_into_zeros(p, (208 - p.len()) as nat, 56, seq![config.gpe0_len]);
        p = p + zeros(0) + seq![config.gpe0_len];
    }
    patch_u16(&mut body, FADT_OFFSET_P_LVL2_LAT, 0x0fff);
    proof {
        lemma_splice_into_zeros(p, (208 - p.len()) as nat, 60, le16(0x0fff));
        p = p + zeros(3) + le16(0x0fff);
    }
    patch_u16(&mut body, FADT_OFFSET_P_LVL3_LAT, 0x0fff);
    proof {
        lemma_splice_into_zeros(p, (208 - p.len()) as nat, 62, le16(0x0fff));
        p = p + zeros(0) + le16(0x0fff);
    }
    patch_byte(&mut body, FADT_OFFSET_CENTURY, 0x32);
    proof {
        lemma_splice_into_zeros(p, (208 - p.len()) as nat, 72, seq![0x32u8]);
        p = p + zeros(8) + seq![0x32u8];
    }
    patch_u16(&mut body, FADT_OFFSET_IAPC_BOOT_ARCH, IAPC_BOOT_ARCH_8042);
    proof {
        lemma_splice_into_zeros(p, (208 - p.len()) as nat, 74, le16(IAPC_BOOT_ARCH_8042));
        p = p + zeros(1) + le16(IAPC_BOOT_ARCH_8042);
    }
    let flags = FADT_FLAG_WBINVD | FADT_FLAG_PROC_C1 | FADT_FLAG_SLP_BUTTON | FADT_FLAG_RTC_S4
        | FADT_FLAG_RESET_REG_SUP | FADT_FLAG_USE_PLATFORM_CLOCK;
    patch_u32(&mut body, FADT_OFFSET_FLAGS, flags);
    proof {
        lemma_splice_into_zeros(p, (208 - p.len()) as nat, 76, le32(fadt_flags()));
        p = p + zeros(0) + le32(fadt_flags());
    }
    patch_gas(&mut body, FADT_OFFSET_RESET_REG, Gas::io(8, config.reset_io_base));
    proof {
        lemma_splice_into_zeros(
            p,
            (208 - p.len()) as nat,
            80,
            io_gas_bytes(8, config.reset_io_base),
        );
        p = p + zeros(0) + io_gas_bytes(8, config.reset_io_base);
    }
    patch_byte(&mut body, FADT_OFFSET_RESET_VALUE, config.reset_value);
    proof {
        lemma_splice_into_zeros(p, (208 - p.len()) as nat, 92, seq![config.reset_value]);
        p = p + zeros(0) + seq![config.reset_value];
    }
    patch_u64(&mut body, FADT_OFFSET_X_FIRMWARE_CTRL, 0);
    proof {
        lemma_splice_into_zeros(p, (208 - p.len()) as nat, 96, le64(0));
        p = p + zeros(3) + le64(0);
    }
    patch_u64(&mut body, FADT_OFFSET_X_DSDT, dsdt_address);
    proof {
        lemma_splice_into_zeros(p, (208 - p.len()) as nat, 104, le64(dsdt_address));
        p = p + zeros(0) + le64(dsdt_address);
    }
    patch_gas(&mut body, FADT_OFFSET_X_PM1A_EVT_BLK, Gas::io(32, pm));
    proof {
        lemma_splice_into_zeros(p, (208 - p.len()) as nat, 112, io_gas_bytes(32, pm));
        p = p + zeros(0) + io_gas_bytes(32, pm);
    }
    patch_gas(&mut body, FADT_OFFSET_X_PM1A_CNT_BLK, Gas::io(16, pm + 0x04));
    proof {
        lemma_splice_into_zeros(p, (208 - p.len()) as nat, 136, io_gas_bytes(16, (pm + 4) as u16));
        p = p + zeros(12) + io_gas_bytes(16, (pm + 4) as u16);
    }
    patch_gas(&mut body, FADT_OFFSET_X_PM_TMR_BLK, Gas::io(32, pm + 0x08));
    proof {
        lemma_splice_into_zeros(p, (208 - p.len()) as nat, 172, io_gas_bytes(32, (pm + 8) as u16));
        p = p + zeros(24) + io_gas_bytes(32, (pm + 8) as u16);
    }
    let scaled: u8 = if config.gpe0_len >= 32 {
        255
    } else {
        config.gpe0_len * 8
    };
    let width: u8 = if scaled < 8 {
        8
    } else {
        scaled
    };
    patch_gas(&mut body, FADT_OFFSET_X_GPE0_BLK, Gas::io(width, config.gpe0_base));
    proof {
        lemma_splice_into_zeros(
            p,
            (208 - p.len()) as nat,
            184,
            io_gas_bytes(gpe0_bit_width(config.gpe0_len), config.gpe0_base),
        );
        p = p + zeros(0) + io_gas_bytes(gpe0_bit_width(config.gpe0_len), config.gpe0_base);
        assert(body@ =~= fadt_body(*config, dsdt_address));
    }
    finalize_table(header, body.as_slice())
}

} // verus!
