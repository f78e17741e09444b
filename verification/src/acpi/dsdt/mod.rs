//! The Differentiated System Description Table: the AML namespace of the
//! machine (host bridge and PCI devices, processors, HPET, interrupt
//! routing, sleep states, GPE block), padded to the length that the
//! compatibility model aims at.
pub mod aml;

use vstd::prelude::*;
use vstd::string::*;
use crate::acpi::bytes::{
    le16, le32, le32_value, lemma_le32_roundtrip, push_bytes, push_u16, push_u32, push_zeros, zeros,
};
use crate::acpi::config::{on_root_bus, PciDeviceConfig, PlatformConfig};
use crate::acpi::dsdt::aml::{
    aml_buffer, aml_device, aml_eisa_id, aml_else, aml_if, aml_int, aml_lequal, aml_method,
    aml_name, aml_package, aml_path, aml_return, aml_scope, aml_store, aml_string, arg_term,
    buffer_term, device_term, eisa_term, else_term, if_term, int_bytes, lequal_term, method_flags,
    method_term, name_string, name_term, package_term, return_term, scope_term, store_term,
    string_term, valid_eisa_id, pkg_length_bytes, pkg_length_size_of, split_segments, name_seg_bytes, pkg,
};
use crate::acpi::text::{
    decimal, decimal_byte_value, decimal_digits, lemma_decimal_value, occurs_at, str_eq, utf8,
};
use crate::acpi::header::{finalize_table, finalized_table, platform_header, AcpiHeader};

verus! {

// ---------------------------------------------------------------------
// Small pieces.
// ---------------------------------------------------------------------

/// The ASCII upper-case hexadecimal digit of a nibble.
pub open spec fn hex_upper(nibble: u8) -> u8 {
    if nibble < 10 {
        (0x30 + nibble) as u8
    } else {
        (0x37 + nibble) as u8
    }
}

/// The name of the device node of a PCI function: `S`, the two-digit
/// upper-case hexadecimal devfn, `_`.
pub open spec fn pci_device_name_bytes(devfn: u8) -> Seq<u8> {
    seq![0x53u8, hex_upper(devfn / 16), hex_upper(devfn % 16), 0x5fu8]
}

fn pci_device_name(devfn: u8) -> (name: Vec<u8>)
    ensures
        name@ == pci_device_name_bytes(devfn),
{
    let hi = devfn / 16;
    let lo = devfn % 16;
    let mut name: Vec<u8> = Vec::new();
    name.push(0x53);
    name.push(if hi < 10 { 0x30 + hi } else { 0x37 + hi });
    name.push(if lo < 10 { 0x30 + lo } else { 0x37 + lo });
    name.push(0x5f);
    assert(name@ =~= pci_device_name_bytes(devfn));
    name
}

/// The `_ADR` of a PCI function: the slot in the high word, the function in
/// the low word.
pub open spec fn pci_adr_value(devfn: u8) -> u32 {
    ((devfn / 8) as u32 * 0x1_0000 + (devfn % 8) as u32) as u32
}

fn pci_adr(devfn: u8) -> (adr: u32)
    ensures
        adr == pci_adr_value(devfn),
{
    let slot = (devfn / 8) as u32;
    let func = (devfn % 8) as u32;
    slot * 0x1_0000 + func
}

/// At least three decimal digits: `digits` with zeros in front.
pub open spec fn pad3(digits: Seq<u8>) -> Seq<u8> {
    if digits.len() < 3 {
        Seq::new((3 - digits.len()) as nat, |i: int| 0x30u8) + digits
    } else {
        digits
    }
}

/// The name of the device node of processor `uid`: `C` and the index in at
/// least three decimal digits (a name segment keeps the first four bytes).
pub open spec fn cpu_device_name_bytes(uid: nat) -> Seq<u8> {
    seq![0x43u8] + pad3(decimal(uid))
}

fn cpu_device_name(uid: usize) -> (name: Vec<u8>)
    ensures
        name@ == cpu_device_name_bytes(uid as nat),
{
    let digits = decimal_digits(uid as u64);
    let mut name: Vec<u8> = Vec::new();
    name.push(0x43);
    let mut k: usize = digits.len();
    while k < 3
        invariant
            digits@.len() <= k <= 3 || (k == digits@.len() && k >= 3),
            name@ == seq![0x43u8] + Seq::new((k - digits@.len()) as nat, |i: int| 0x30u8),
        decreases 3 - k,
    {
        name.push(0x30);
        k += 1;
        assert(name@ =~= seq![0x43u8] + Seq::new((k - digits@.len()) as nat, |i: int| 0x30u8));
    }
    push_bytes(&mut name, digits.as_slice());
    assert(name@ =~= cpu_device_name_bytes(uid as nat));
    name
}

/// The `_MAT` entry of a processor: a local APIC structure with the
/// processor UID, APIC ID and the enabled flag.
pub open spec fn cpu_mat_bytes(apic_id: u32, uid: u32) -> Seq<u8> {
    seq![9u8, 16, 0, 0] + le32(uid) + le32(apic_id) + le32(1)
}

fn cpu_mat(apic_id: u32, uid: u32) -> (mat: Vec<u8>)
    ensures
        mat@ == cpu_mat_bytes(apic_id, uid),
{
    let mut mat: Vec<u8> = Vec::with_capacity(16);
    mat.push(9);
    mat.push(16);
    push_zeros(&mut mat, 2);
    push_u32(&mut mat, uid);
    push_u32(&mut mat, apic_id);
    push_u32(&mut mat, 1);
    assert(mat@ =~= cpu_mat_bytes(apic_id, uid));
    mat
}

/// The value of an upper-case hexadecimal digit.
pub open spec fn hex_digit_value(b: u8) -> int {
    if 0x30 <= b <= 0x39 {
        b - 0x30
    } else {
        b - 0x37
    }
}

/// Whether `b` is one of `0`..`9`, `A`..`F`.
pub open spec fn is_upper_hex(b: u8) -> bool {
    (0x30 <= b <= 0x39) || (0x41 <= b <= 0x46)
}

/// The device names and addresses of PCI functions and processors read
/// back as what they name: `S` + two upper-case hex digits whose value is
/// the devfn + `_`; an `_ADR` whose high word is the slot (devfn / 8) and
/// low word the function (devfn % 8); for processor `uid` below 1000, `C`
/// + three decimal digits whose value is `uid`; and a `_MAT` that is a
/// 16-byte processor local x2APIC structure (type 9) with the UID, the
/// APIC ID and the enabled flag.
#[verifier::spinoff_prover]
pub proof fn lemma_device_names_decode(devfn: u8, uid: nat, apic_id: u32, mat_uid: u32)
    ensures
        pci_device_name_bytes(devfn).len() == 4,
        pci_device_name_bytes(devfn)[0] == 0x53 && pci_device_name_bytes(devfn)[3] == 0x5f,
        is_upper_hex(pci_device_name_bytes(devfn)[1]) && is_upper_hex(
            pci_device_name_bytes(devfn)[2],
        ),
        hex_digit_value(pci_device_name_bytes(devfn)[1]) * 16 + hex_digit_value(
            pci_device_name_bytes(devfn)[2],
        ) == devfn,
        pci_adr_value(devfn) / 0x1_0000 == devfn / 8,
        pci_adr_value(devfn) % 0x1_0000 == devfn % 8,
        uid < 1000 ==> cpu_device_name_bytes(uid).len() == 4 && cpu_device_name_bytes(uid)[0]
            == 0x43 && decimal_byte_value(cpu_device_name_bytes(uid).drop_first()) == uid,
        cpu_mat_bytes(apic_id, mat_uid).len() == 16,
        cpu_mat_bytes(apic_id, mat_uid).subrange(0, 4) == seq![9u8, 16, 0, 0],
        le32_value(cpu_mat_bytes(apic_id, mat_uid).subrange(4, 8)) == mat_uid,
        le32_value(cpu_mat_bytes(apic_id, mat_uid).subrange(8, 12)) == apic_id,
        le32_value(cpu_mat_bytes(apic_id, mat_uid).subrange(12, 16)) == 1,
{
    let m = cpu_mat_bytes(apic_id, mat_uid);
    lemma_le32_roundtrip(mat_uid);
    lemma_le32_roundtrip(apic_id);
    lemma_le32_roundtrip(1);
    assert(m.subrange(0, 4) =~= seq![9u8, 16, 0, 0]);
    assert(m.subrange(4, 8) =~= le32(mat_uid));
    assert(m.subrange(8, 12) =~= le32(apic_id));
    assert(m.subrange(12, 16) =~= le32(1));
    if uid < 1000 {
        lemma_decimal_value(uid);
        let d = decimal(uid);
        assert(d.len() <= 3) by {
            if uid >= 10 {
                lemma_decimal_len_small(uid);
            }
        }
        let name = cpu_device_name_bytes(uid);
        assert(name.drop_first() =~= pad3(d));
        lemma_zero_padding_value(d);
    }
}

proof fn lemma_decimal_len_small(n: nat)
    requires
        n < 1000,
    ensures
        decimal(n).len() <= 3,
{
    if n >= 10 {
        let m = n / 10;
        assert(decimal(n).len() == decimal(m).len() + 1);
        if m >= 10 {
            assert(m / 10 < 10);
            assert(decimal(m).len() == decimal(m / 10).len() + 1);
            assert(decimal(m / 10).len() == 1);
        }
    }
}

/// Zeros in front of decimal digits do not change their value.
proof fn lemma_zero_padding_value(d: Seq<u8>)
    requires
        d.len() <= 3,
    ensures
        pad3(d).len() == 3,
        decimal_byte_value(pad3(d)) == decimal_byte_value(d),
    decreases d.len(),
{
    if d.len() < 3 {
        lemma_leading_zeros((3 - d.len()) as nat, d);
        assert(pad3(d) =~= Seq::new((3 - d.len()) as nat, |i: int| 0x30u8) + d);
    }
}

proof fn lemma_leading_zeros(k: nat, d: Seq<u8>)
    ensures
        decimal_byte_value(Seq::new(k, |i: int| 0x30u8) + d) == decimal_byte_value(d)
            + decimal_byte_value(Seq::new(k, |i: int| 0x30u8)) * pow10(d.len()),
        decimal_byte_value(Seq::new(k, |i: int| 0x30u8)) == 0,
    decreases d.len(), k,
{
    let z = Seq::new(k, |i: int| 0x30u8);
    if k > 0 {
        lemma_leading_zeros((k - 1) as nat, Seq::empty());
        assert(z.drop_last() =~= Seq::new((k - 1) as nat, |i: int| 0x30u8));
        assert(z + Seq::<u8>::empty() =~= z);
        assert(Seq::new((k - 1) as nat, |i: int| 0x30u8) + Seq::<u8>::empty() =~= Seq::new(
            (k - 1) as nat,
            |i: int| 0x30u8,
        ));
    }
    if d.len() > 0 {
        lemma_leading_zeros(k, d.drop_last());
        assert((z + d).drop_last() =~= z + d.drop_last());
        assert(pow10(d.len()) == pow10((d.len() - 1) as nat) * 10);
    } else {
        assert(z + d =~= z);
    }
}

/// 10 to the power `n`.
spec fn pow10(n: nat) -> int
    decreases n,
{
    if n == 0 {
        1
    } else {
        pow10((n - 1) as nat) * 10
    }
}

/// The HPET `_CRS`: a 32-bit fixed memory range of 1 KiB at the HPET base
/// address, and the end tag.
pub open spec fn hpet_resource_bytes() -> Seq<u8> {
    seq![0x86u8] + le16(0x0009) + seq![0u8] + le32(0xfed0_0000) + le32(0x0000_0400) + seq![
        0x79u8,
        0x00,
    ]
}

fn hpet_resource_template() -> (out: Vec<u8>)
    ensures
        out@ == hpet_resource_bytes(),
{
    let mut out: Vec<u8> = Vec::new();
    out.push(0x86);
    push_u16(&mut out, 0x0009);
    out.push(0);
    push_u32(&mut out, 0xfed0_0000);
    push_u32(&mut out, 0x0000_0400);
    out.push(0x79);
    out.push(0x00);
    assert(out@ =~= hpet_resource_bytes());
    out
}

/// The HPET device of the DSDT and the HPET table describe the same
/// register block: the `_CRS` is a 32-bit fixed memory range descriptor
/// (tag 0x86, length 9, read-only) of 0x400 bytes whose base is the
/// address that the HPET table gives (bytes 44 to 52), 0xfed00000.
#[verifier::spinoff_prover]
pub proof fn lemma_hpet_device_matches_table(config: PlatformConfig)
    ensures
        hpet_resource_bytes().len() == 14,
        hpet_resource_bytes().subrange(0, 4) == seq![0x86u8, 9, 0, 0],
        le32_value(hpet_resource_bytes().subrange(4, 8)) == 0xfed0_0000,
        le32_value(hpet_resource_bytes().subrange(4, 8)) == crate::acpi::bytes::le64_value(
            crate::acpi::hpet::hpet_table(config).subrange(44, 52),
        ),
        le32_value(hpet_resource_bytes().subrange(8, 12)) == 0x400,
        hpet_resource_bytes().subrange(12, 14) == seq![0x79u8, 0],
{
    let r = hpet_resource_bytes();
    crate::acpi::hpet::lemma_hpet_fields(config);
    lemma_le32_roundtrip(0xfed0_0000);
    lemma_le32_roundtrip(0x400);
    assert(r.subrange(0, 4) =~= seq![0x86u8, 9, 0, 0]);
    assert(r.subrange(4, 8) =~= le32(0xfed0_0000));
    assert(r.subrange(8, 12) =~= le32(0x400));
    assert(r.subrange(12, 14) =~= seq![0x79u8, 0]);
    let t = crate::acpi::hpet::hpet_table(config).subrange(44, 52);
    assert(t =~= seq![0u8, 0, 0xd0, 0xfe, 0, 0, 0, 0]) by {
        assert(crate::acpi::hpet::hpet_table(config).subrange(36, 56)[8] == t[0]);
        assert(t =~= crate::acpi::hpet::hpet_table(config).subrange(36, 56).subrange(8, 16));
    }
}

/// Appends an encoded AML term.
fn append_aml(value: &[u8], out: &mut Vec<u8>)
    ensures
        final(out)@ == old(out)@ + value@,
{
    push_bytes(out, value);
}

// ---------------------------------------------------------------------
// PCI devices.
// ---------------------------------------------------------------------

/// The human-readable description that the `_STR` of a virtio device gets.
pub open spec fn description_of(driver: Seq<char>) -> Option<Seq<char>> {
    if driver == "virtio-net-pci"@ {
        Some("Virtio Network Device"@)
    } else if driver == "virtio-blk-pci"@ {
        Some("Virtio Block Device"@)
    } else if driver == "virtio-scsi-pci"@ {
        Some("Virtio SCSI Controller"@)
    } else if driver == "virtio-balloon-pci"@ {
        Some("Virtio Balloon Device"@)
    } else {
        None
    }
}

/// The device class that the `CLSS` of a virtio device names.
pub open spec fn class_of(driver: Seq<char>) -> Option<Seq<char>> {
    if driver == "virtio-net-pci"@ {
        Some("net"@)
    } else if driver == "virtio-blk-pci"@ {
        Some("block"@)
    } else if driver == "virtio-scsi-pci"@ {
        Some("storage"@)
    } else if driver == "virtio-balloon-pci"@ {
        Some("memory"@)
    } else {
        None
    }
}

/// The virtio devices that get a description get a class too, and they
/// agree: the network device is in class `net`, the block device in
/// `block`, the SCSI controller in `storage`, the balloon in `memory`;
/// other drivers get neither.
#[verifier::spinoff_prover]
pub proof fn lemma_descriptions_match_classes(driver: Seq<char>)
    ensures
        description_of(driver) is Some <==> class_of(driver) is Some,
        description_of(driver) == Some("Virtio Network Device"@) <==> class_of(driver) == Some(
            "net"@,
        ),
        description_of(driver) == Some("Virtio Block Device"@) <==> class_of(driver) == Some(
            "block"@,
        ),
        description_of(driver) == Some("Virtio SCSI Controller"@) <==> class_of(driver) == Some(
            "storage"@,
        ),
        description_of(driver) == Some("Virtio Balloon Device"@) <==> class_of(driver) == Some(
            "memory"@,
        ),
        class_of("virtio-net-pci"@) == Some("net"@),
        class_of("virtio-blk-pci"@) == Some("block"@),
        class_of("virtio-scsi-pci"@) == Some("storage"@),
        class_of("virtio-balloon-pci"@) == Some("memory"@),
{
    reveal_strlit("virtio-net-pci");
    reveal_strlit("virtio-blk-pci");
    reveal_strlit("virtio-scsi-pci");
    reveal_strlit("virtio-balloon-pci");
    reveal_strlit("Virtio Network Device");
    reveal_strlit("Virtio Block Device");
    reveal_strlit("Virtio SCSI Controller");
    reveal_strlit("Virtio Balloon Device");
    reveal_strlit("net");
    reveal_strlit("block");
    reveal_strlit("storage");
    reveal_strlit("memory");
    assert("virtio-blk-pci"@[7] != "virtio-net-pci"@[7]);
    assert("virtio-scsi-pci"@[7] != "virtio-net-pci"@[7]);
    assert("virtio-scsi-pci"@[7] != "virtio-blk-pci"@[7]);
    assert("virtio-balloon-pci"@[7] != "virtio-net-pci"@[7]);
    assert("virtio-balloon-pci"@[8] != "virtio-blk-pci"@[8]);
    assert("virtio-balloon-pci"@[7] != "virtio-scsi-pci"@[7]);
    assert("Virtio Block Device"@[7] != "Virtio Network Device"@[7]);
    assert("Virtio SCSI Controller"@[7] != "Virtio Network Device"@[7]);
    assert("Virtio SCSI Controller"@[7] != "Virtio Block Device"@[7]);
    assert("Virtio Balloon Device"@[8] != "Virtio Network Device"@[8]);
    assert("Virtio Balloon Device"@[7] != "Virtio Block Device"@[7] || "Virtio Balloon Device"@[8]
        != "Virtio Block Device"@[8]);
    assert("Virtio Balloon Device"@[7] != "Virtio SCSI Controller"@[7]);
    assert("block"@[0] != "net"@[0] && "storage"@[0] != "net"@[0] && "memory"@[0] != "net"@[0]);
    assert("storage"@[0] != "block"@[0] && "memory"@[0] != "block"@[0]);
    assert("memory"@[0] != "storage"@[0]);
}

fn pci_device_description(driver: &str) -> (d: Option<&'static str>)
    ensures
        match d {
            Some(text) => description_of(driver@) == Some(text@),
            None => description_of(driver@) is None,
        },
{
    if str_eq(driver, "virtio-net-pci") {
        Some("Virtio Network Device")
    } else if str_eq(driver, "virtio-blk-pci") {
        Some("Virtio Block Device")
    } else if str_eq(driver, "virtio-scsi-pci") {
        Some("Virtio SCSI Controller")
    } else if str_eq(driver, "virtio-balloon-pci") {
        Some("Virtio Balloon Device")
    } else {
        None
    }
}

/// A named string object, when there is a string.
pub open spec fn optional_string_name(name: Seq<u8>, text: Option<Seq<char>>) -> Seq<u8> {
    match text {
        Some(t) => name_term(name, string_term(utf8(t))),
        None => Seq::empty(),
    }
}

fn append_device_specific_objects(children: &mut Vec<u8>, device: &PciDeviceConfig)
    ensures
        final(children)@ == old(children)@ + optional_string_name(
            "CLSS".spec_bytes(),
            class_of(device.driver@),
        ),
{
    let driver = device.driver.as_str();
    let class: Option<&str> = if str_eq(driver, "virtio-net-pci") {
        Some("net")
    } else if str_eq(driver, "virtio-blk-pci") {
        Some("block")
    } else if str_eq(driver, "virtio-scsi-pci") {
        Some("storage")
    } else if str_eq(driver, "virtio-balloon-pci") {
        Some("memory")
    } else {
        None
    };
    if let Some(class) = class {
        append_aml(&aml_name("CLSS".as_bytes(), &aml_string(class)), children);
    }
    assert(final(children)@ =~= old(children)@ + optional_string_name(
        "CLSS".spec_bytes(),
        class_of(device.driver@),
    ));
}

/// The device node of a PCI function: its address, present status, slot
/// number and UID, the optional `_DDN` from the device ID, the optional
/// description, and the optional class.
pub open spec fn pci_device_bytes(device: PciDeviceConfig) -> Seq<u8> {
    let slot = (device.devfn / 8) as u64;
    device_term(
        pci_device_name_bytes(device.devfn),
        name_term("_ADR".spec_bytes(), int_bytes(pci_adr_value(device.devfn) as u64)) + name_term(
            "_STA".spec_bytes(),
            int_bytes(0x0f),
        ) + name_term("_SUN".spec_bytes(), int_bytes(slot)) + name_term(
            "_UID".spec_bytes(),
            int_bytes(slot),
        ) + optional_string_name(
            "_DDN".spec_bytes(),
            match device.id {
                Some(id) => Some(id@),
                None => None,
            },
        ) + optional_string_name("_STR".spec_bytes(), description_of(device.driver@))
            + optional_string_name("CLSS".spec_bytes(), class_of(device.driver@)),
    )
}

fn build_pci_device_bytes(device: &PciDeviceConfig) -> (out: Vec<u8>)
    ensures
        out@ == pci_device_bytes(*device),
{
    let mut children: Vec<u8> = Vec::new();
    let slot = (device.devfn / 8) as u64;
    append_aml(&aml_name("_ADR".as_bytes(), &aml_int(pci_adr(device.devfn) as u64)), &mut children);
    append_aml(&aml_name("_STA".as_bytes(), &aml_int(0x0f)), &mut children);
    append_aml(&aml_name("_SUN".as_bytes(), &aml_int(slot)), &mut children);
    append_aml(&aml_name("_UID".as_bytes(), &aml_int(slot)), &mut children);
    let ghost after_ids = children@;
    if let Some(id) = &device.id {
        append_aml(&aml_name("_DDN".as_bytes(), &aml_string(id.as_str())), &mut children);
    }
    if let Some(description) = pci_device_description(device.driver.as_str()) {
        append_aml(&aml_name("_STR".as_bytes(), &aml_string(description)), &mut children);
    }
    append_device_specific_objects(&mut children, device);
    let name = pci_device_name(device.devfn);
    let out = aml_device(name.as_slice(), children.as_slice());
    assert(children@ =~= name_term("_ADR".spec_bytes(), int_bytes(pci_adr_value(device.devfn) as u64))
        + name_term("_STA".spec_bytes(), int_bytes(0x0f)) + name_term(
        "_SUN".spec_bytes(),
        int_bytes(slot),
    ) + name_term("_UID".spec_bytes(), int_bytes(slot)) + optional_string_name(
        "_DDN".spec_bytes(),
        match device.id {
            Some(id) => Some(id@),
            None => None,
        },
    ) + optional_string_name("_STR".spec_bytes(), description_of(device.driver@))
        + optional_string_name("CLSS".spec_bytes(), class_of(device.driver@)));
    out
}

/// The ASCII bytes of a string literal made only of ASCII characters.
proof fn lemma_ascii_literal_bytes(s: &str)
    requires
        vstd::string::is_ascii(s),
    ensures
        s.spec_bytes() == Seq::new(s@.len(), |i: int| s@[i] as u8),
{
    vstd::string::is_ascii_spec_bytes(s);
}

proof fn lemma_eisa_ids_valid()
    ensures
        valid_eisa_id("PNP0C0F".spec_bytes()),
        valid_eisa_id("PNP0A08".spec_bytes()),
        valid_eisa_id("PNP0A03".spec_bytes()),
        valid_eisa_id("PNP0103".spec_bytes()),
{
    reveal_strlit("PNP0C0F");
    reveal_strlit("PNP0A08");
    reveal_strlit("PNP0A03");
    reveal_strlit("PNP0103");
    lemma_ascii_literal_bytes("PNP0C0F");
    lemma_ascii_literal_bytes("PNP0A08");
    lemma_ascii_literal_bytes("PNP0A03");
    lemma_ascii_literal_bytes("PNP0103");
    assert("PNP0C0F".spec_bytes().subrange(3, 7) =~= seq![0x30u8, 0x43, 0x30, 0x46]);
    assert("PNP0A08".spec_bytes().subrange(3, 7) =~= seq![0x30u8, 0x41, 0x30, 0x38]);
    assert("PNP0A03".spec_bytes().subrange(3, 7) =~= seq![0x30u8, 0x41, 0x30, 0x33]);
    assert("PNP0103".spec_bytes().subrange(3, 7) =~= seq![0x30u8, 0x31, 0x30, 0x33]);
}

// ---------------------------------------------------------------------
// Host bridge, processors, HPET.
// ---------------------------------------------------------------------

/// The PCI function devices that sit on the root bus, in order.
pub open spec fn root_devices_bytes(devices: Seq<PciDeviceConfig>) -> Seq<u8>
    decreases devices.len(),
{
    if devices.len() == 0 {
        Seq::empty()
    } else {
        root_devices_bytes(devices.drop_last()) + (if on_root_bus(devices.last().bus) {
            pci_device_bytes(devices.last())
        } else {
            Seq::empty()
        })
    }
}

/// The PCI host bridge: PCI Express root (compatible with PCI), its UID,
/// an `_OSC` that grants whatever is asked (returns Arg3), and the devices
/// on the root bus.
pub open spec fn pci0_device_bytes(config: PlatformConfig) -> Seq<u8> {
    device_term(
        "PCI0".spec_bytes(),
        name_term("_HID".spec_bytes(), eisa_term("PNP0A08".spec_bytes())) + name_term(
            "_CID".spec_bytes(),
            eisa_term("PNP0A03".spec_bytes()),
        ) + name_term("_UID".spec_bytes(), int_bytes(config.pci_root_uid as u64)) + method_term(
            "_OSC".spec_bytes(),
            method_flags(4, false),
            return_term(arg_term(3)),
        ) + root_devices_bytes(config.pci_devices@),
    )
}

fn build_pci0_device_bytes(config: &PlatformConfig) -> (out: Vec<u8>)
    ensures
        out@ == pci0_device_bytes(*config),
{
    proof {
        lemma_eisa_ids_valid();
    }
    let mut children: Vec<u8> = Vec::new();
    append_aml(&aml_name("_HID".as_bytes(), &aml_eisa_id("PNP0A08")), &mut children);
    append_aml(&aml_name("_CID".as_bytes(), &aml_eisa_id("PNP0A03")), &mut children);
    append_aml(&aml_name("_UID".as_bytes(), &aml_int(config.pci_root_uid as u64)), &mut children);
    let osc_arg: Vec<u8> = vec![0x6b];
    assert(osc_arg@ =~= arg_term(3));
    let osc_ret = aml_return(osc_arg.as_slice());
    let osc = aml_method("_OSC".as_bytes(), 4, false, osc_ret.as_slice());
    append_aml(&osc, &mut children);
    let ghost head = children@;
    let devices = &config.pci_devices;
    let mut i: usize = 0;
    while i < devices.len()
        invariant
            i <= devices@.len(),
            devices@ == config.pci_devices@,
            children@ == head + root_devices_bytes(devices@.take(i as int)),
        decreases devices@.len() - i,
    {
        let device = &devices[i];
        assert(devices@.take(i + 1).drop_last() =~= devices@.take(i as int));
        if device.is_root_bus_device() {
            let bytes = build_pci_device_bytes(device);
            children.extend_from_slice(bytes.as_slice());
            assert(children@ =~= head + root_devices_bytes(devices@.take(i + 1)));
        } else {
            assert(children@ =~= head + root_devices_bytes(devices@.take(i + 1)));
        }
        i += 1;
    }
    assert(devices@.take(i as int) =~= devices@);
    aml_device("PCI0".as_bytes(), children.as_slice())
}

/// The device node of processor `uid`: processor device HID, UID, present,
/// and its local APIC entry as `_MAT`.
pub open spec fn cpu_device_bytes(uid: nat, apic_id: u32) -> Seq<u8> {
    device_term(
        cpu_device_name_bytes(uid),
        name_term("_HID".spec_bytes(), string_term(utf8("ACPI0007"@))) + name_term(
            "_UID".spec_bytes(),
            int_bytes(uid as u64),
        ) + name_term("_STA".spec_bytes(), int_bytes(0x0f)) + name_term(
            "_MAT".spec_bytes(),
            buffer_term(cpu_mat_bytes(apic_id, uid as u32)),
        ),
    )
}

/// The device nodes of the first `n` processors, one after another.
pub open spec fn cpu_devices_bytes(ids: Seq<u32>, n: nat) -> Seq<u8>
    decreases n,
{
    if n == 0 {
        Seq::empty()
    } else {
        cpu_devices_bytes(ids, (n - 1) as nat) + cpu_device_bytes((n - 1) as nat, ids[n - 1])
    }
}

fn build_cpu_device_bytes(config: &PlatformConfig) -> (out: Vec<Vec<u8>>)
    ensures
        out@.len() == config.cpu_apic_ids@.len(),
        forall|i: int|
            0 <= i < out@.len() ==> (#[trigger] out@[i])@ == cpu_device_bytes(
                i as nat,
                config.cpu_apic_ids@[i],
            ),
{
    let ids = &config.cpu_apic_ids;
    let mut out: Vec<Vec<u8>> = Vec::new();
    let mut uid: usize = 0;
    while uid < ids.len()
        invariant
            uid <= ids@.len(),
            ids@ == config.cpu_apic_ids@,
            out@.len() == uid,
            forall|i: int|
                0 <= i < uid ==> (#[trigger] out@[i])@ == cpu_device_bytes(i as nat, ids@[i]),
        decreases ids@.len() - uid,
    {
        let apic_id = ids[uid];
        let mut children: Vec<u8> = Vec::new();
        append_aml(&aml_name("_HID".as_bytes(), &aml_string("ACPI0007")), &mut children);
        append_aml(&aml_name("_UID".as_bytes(), &aml_int(uid as u64)), &mut children);
        append_aml(&aml_name("_STA".as_bytes(), &aml_int(0x0f)), &mut children);
        append_aml(
            &aml_name("_MAT".as_bytes(), &aml_buffer(&cpu_mat(apic_id, uid as u32))),
            &mut children,
        );
        let name = cpu_device_name(uid);
        let device = aml_device(name.as_slice(), children.as_slice());
        assert(device@ == cpu_device_bytes(uid as nat, apic_id));
        out.push(device);
        uid += 1;
    }
    out
}

/// The HPET device: its HID, UID 0, present, and its register window.
pub open spec fn hpet_device_bytes() -> Seq<u8> {
    device_term(
        "HPET".spec_bytes(),
        name_term("_HID".spec_bytes(), eisa_term("PNP0103".spec_bytes())) + name_term(
            "_UID".spec_bytes(),
            seq![0u8],
        ) + name_term("_STA".spec_bytes(), int_bytes(0x0f)) + name_term(
            "_CRS".spec_bytes(),
            buffer_term(hpet_resource_bytes()),
        ),
    )
}

fn build_hpet_device_bytes() -> (out: Vec<u8>)
    ensures
        out@ == hpet_device_bytes(),
{
    proof {
        lemma_eisa_ids_valid();
    }
    let mut children: Vec<u8> = Vec::new();
    append_aml(&aml_name("_HID".as_bytes(), &aml_eisa_id("PNP0103")), &mut children);
    append_aml(&aml_name("_UID".as_bytes(), &aml_int(0)), &mut children);
    append_aml(&aml_name("_STA".as_bytes(), &aml_int(0x0f)), &mut children);
    append_aml(
        &aml_name("_CRS".as_bytes(), &aml_buffer(&hpet_resource_template())),
        &mut children,
    );
    aml_device("HPET".as_bytes(), children.as_slice())
}

/// The `\_SB_` scope with the host bridge, the processors, and the HPET
/// when the machine has one.
pub open spec fn root_scope_bytes(config: PlatformConfig) -> Seq<u8> {
    scope_term(
        "\\_SB_".spec_bytes(),
        pci0_device_bytes(config) + cpu_devices_bytes(
            config.cpu_apic_ids@,
            config.cpu_apic_ids@.len(),
        ) + (if config.has_hpet {
            hpet_device_bytes()
        } else {
            Seq::empty()
        }),
    )
}

fn build_root_scope_bytes(config: &PlatformConfig) -> (out: Vec<u8>)
    ensures
        out@ == root_scope_bytes(*config),
{
    let mut sb_bytes = build_pci0_device_bytes(config);
    let ghost head = sb_bytes@;
    let ghost ids = config.cpu_apic_ids@;
    let cpus = build_cpu_device_bytes(config);
    let mut i: usize = 0;
    while i < cpus.len()
        invariant
            i <= cpus@.len(),
            cpus@.len() == ids.len(),
            ids == config.cpu_apic_ids@,
            forall|k: int|
                0 <= k < cpus@.len() ==> (#[trigger] cpus@[k])@ == cpu_device_bytes(
                    k as nat,
                    ids[k],
                ),
            sb_bytes@ == head + cpu_devices_bytes(ids, i as nat),
        decreases cpus@.len() - i,
    {
        let cpu_bytes = &cpus[i];
        assert(cpus@[i as int]@ == cpu_device_bytes(i as nat, ids[i as int]));
        push_bytes(&mut sb_bytes, cpu_bytes.as_slice());
        i += 1;
    }
    if config.has_hpet {
        let hpet = build_hpet_device_bytes();
        push_bytes(&mut sb_bytes, hpet.as_slice());
    } else {
        assert(sb_bytes@ =~= sb_bytes@ + Seq::<u8>::empty());
    }
    aml_scope("\\_SB_".as_bytes(), sb_bytes.as_slice())
}

// ---------------------------------------------------------------------
// Interrupt routing.
// ---------------------------------------------------------------------

/// The flags of an extended interrupt descriptor.
pub open spec fn interrupt_flags(consumer: bool, edge_triggered: bool, active_low: bool, shared: bool) -> u8 {
    ((if shared {
        8u8
    } else {
        0u8
    }) + (if active_low {
        4u8
    } else {
        0u8
    }) + (if edge_triggered {
        2u8
    } else {
        0u8
    }) + (if consumer {
        1u8
    } else {
        0u8
    })) as u8
}

/// An extended interrupt descriptor for one interrupt.
pub open spec fn interrupt_bytes(
    consumer: bool,
    edge_triggered: bool,
    active_low: bool,
    shared: bool,
    number: u32,
) -> Seq<u8> {
    seq![0x89u8] + le16(6) + seq![interrupt_flags(consumer, edge_triggered, active_low, shared), 1u8]
        + le32(number)
}

/// A shared, level-triggered, active-high interrupt consumed by the device.
pub open spec fn link_irq(number: u32) -> Seq<u8> {
    interrupt_bytes(true, false, false, true, number)
}

/// A resource template: the descriptors and the end tag, in a buffer.
pub open spec fn resource_template_bytes(descriptors: Seq<u8>) -> Seq<u8> {
    buffer_term(descriptors + seq![0x79u8, 0x00])
}

/// An extended interrupt descriptor decodes back to what it describes:
/// tag 0x89, length 6, one interrupt; in the flags byte, bit 0 is set
/// exactly for a consumer, bit 1 for edge triggering, bit 2 for active-low
/// polarity and bit 3 for sharing, and no other bit is set; the interrupt
/// number follows in little-endian order. The link devices' interrupts
/// are level-triggered, active-high, shared and consumed (flags 0x09).
#[verifier::rlimit(40)]
#[verifier::spinoff_prover]
pub proof fn lemma_interrupt_decode(
    consumer: bool,
    edge_triggered: bool,
    active_low: bool,
    shared: bool,
    number: u32,
)
    ensures
        ({
            let b = interrupt_bytes(consumer, edge_triggered, active_low, shared, number);
            let f = b[3];
            &&& b.len() == 9
            &&& b[0] == 0x89 && b[1] == 6 && b[2] == 0 && b[4] == 1
            &&& (f % 2 == 1) == consumer
            &&& ((f / 2) % 2 == 1) == edge_triggered
            &&& ((f / 4) % 2 == 1) == active_low
            &&& ((f / 8) % 2 == 1) == shared
            &&& f < 16
            &&& le32_value(b.subrange(5, 9)) == number
        }),
        link_irq(number)[3] == 0x09,
{
    let b = interrupt_bytes(consumer, edge_triggered, active_low, shared, number);
    lemma_le32_roundtrip(number);
    assert(b.subrange(5, 9) =~= le32(number));
}

fn interrupt(consumer: bool, edge_triggered: bool, active_low: bool, shared: bool, number: u32) -> (out: Vec<u8>)
    ensures
        out@ == interrupt_bytes(consumer, edge_triggered, active_low, shared, number),
{
    let flags: u8 = (if shared {
        8u8
    } else {
        0u8
    }) + (if active_low {
        4u8
    } else {
        0u8
    }) + (if edge_triggered {
        2u8
    } else {
        0u8
    }) + (if consumer {
        1u8
    } else {
        0u8
    });
    let mut out: Vec<u8> = Vec::new();
    out.push(0x89);
    push_u16(&mut out, 6);
    out.push(flags);
    out.push(1);
    push_u32(&mut out, number);
    assert(out@ =~= interrupt_bytes(consumer, edge_triggered, active_low, shared, number));
    out
}

fn resource_template(descriptors: &[u8]) -> (out: Vec<u8>)
    ensures
        out@ == resource_template_bytes(descriptors@),
{
    let mut bytes: Vec<u8> = Vec::new();
    push_bytes(&mut bytes, descriptors);
    bytes.push(0x79);
    bytes.push(0x00);
    assert(bytes@ =~= descriptors@ + seq![0x79u8, 0x00]);
    aml_buffer(bytes.as_slice())
}

/// A PCI interrupt link device that can be routed to IRQ 5, 10 or 11.
pub open spec fn link_device_bytes(name: Seq<u8>, uid: u8) -> Seq<u8> {
    let prs = resource_template_bytes(link_irq(5) + link_irq(10) + link_irq(11));
    device_term(
        name,
        name_term("_HID".spec_bytes(), eisa_term("PNP0C0F".spec_bytes())) + name_term(
            "_UID".spec_bytes(),
            int_bytes(uid as u64),
        ) + name_term("_PRS".spec_bytes(), prs) + method_term(
            "_STA".spec_bytes(),
            method_flags(0, false),
            return_term(int_bytes(0x0b)),
        ) + method_term("_DIS".spec_bytes(), method_flags(0, false), Seq::empty()) + method_term(
            "_CRS".spec_bytes(),
            method_flags(0, false),
            return_term(name_string("_PRS".spec_bytes())),
        ) + method_term("_SRS".spec_bytes(), method_flags(1, false), Seq::empty()),
    )
}

fn build_link_device_bytes(name: &[u8], uid: u8) -> (out: Vec<u8>)
    ensures
        out@ == link_device_bytes(name@, uid),
{
    proof {
        lemma_eisa_ids_valid();
    }
    let mut irqs: Vec<u8> = Vec::new();
    push_bytes(&mut irqs, &interrupt(true, false, false, true, 5));
    push_bytes(&mut irqs, &interrupt(true, false, false, true, 10));
    push_bytes(&mut irqs, &interrupt(true, false, false, true, 11));
    let prs = resource_template(irqs.as_slice());
    let mut children: Vec<u8> = Vec::new();
    append_aml(&aml_name("_HID".as_bytes(), &aml_eisa_id("PNP0C0F")), &mut children);
    append_aml(&aml_name("_UID".as_bytes(), &aml_int(uid as u64)), &mut children);
    append_aml(&aml_name("_PRS".as_bytes(), &prs), &mut children);
    append_aml(
        &aml_method("_STA".as_bytes(), 0, false, &aml_return(&aml_int(0x0b))),
        &mut children,
    );
    append_aml(&aml_method("_DIS".as_bytes(), 0, false, &[]), &mut children);
    append_aml(
        &aml_method("_CRS".as_bytes(), 0, false, &aml_return(&aml_path("_PRS".as_bytes()))),
        &mut children,
    );
    append_aml(&aml_method("_SRS".as_bytes(), 1, false, &[]), &mut children);
    assert(irqs@ =~= link_irq(5) + link_irq(10) + link_irq(11));
    aml_device(name, children.as_slice())
}

/// An interrupt link device fixed to one GSI.
pub open spec fn gsi_link_device_bytes(name: Seq<u8>, uid: u8, irq: u32) -> Seq<u8> {
    let res = resource_template_bytes(link_irq(irq));
    device_term(
        name,
        name_term("_HID".spec_bytes(), eisa_term("PNP0C0F".spec_bytes())) + name_term(
            "_UID".spec_bytes(),
            int_bytes(uid as u64),
        ) + name_term("_PRS".spec_bytes(), res) + name_term("_CRS".spec_bytes(), res)
            + method_term("_DIS".spec_bytes(), method_flags(0, false), Seq::empty()) + method_term(
            "_SRS".spec_bytes(),
            method_flags(1, false),
            Seq::empty(),
        ),
    )
}

fn build_gsi_link_device_bytes(name: &[u8], uid: u8, irq: u32) -> (out: Vec<u8>)
    ensures
        out@ == gsi_link_device_bytes(name@, uid, irq),
{
    proof {
        lemma_eisa_ids_valid();
    }
    let irq_res = interrupt(true, false, false, true, irq);
    let res = resource_template(irq_res.as_slice());
    let mut children: Vec<u8> = Vec::new();
    append_aml(&aml_name("_HID".as_bytes(), &aml_eisa_id("PNP0C0F")), &mut children);
    append_aml(&aml_name("_UID".as_bytes(), &aml_int(uid as u64)), &mut children);
    append_aml(&aml_name("_PRS".as_bytes(), &res), &mut children);
    append_aml(&aml_name("_CRS".as_bytes(), &res), &mut children);
    append_aml(&aml_method("_DIS".as_bytes(), 0, false, &[]), &mut children);
    append_aml(&aml_method("_SRS".as_bytes(), 1, false, &[]), &mut children);
    aml_device(name, children.as_slice())
}

/// The packaged elements built so far and how many there are.
struct PackageBuilder {
    elements: Vec<u8>,
    count: usize,
}

impl PackageBuilder {
    fn new() -> (p: Self)
        ensures
            p.elements@ == Seq::<u8>::empty(),
            p.count == 0,
    {
        PackageBuilder { elements: Vec::new(), count: 0 }
    }

    fn add_element(&mut self, element: &[u8])
        requires
            old(self).count < usize::MAX,
        ensures
            final(self).elements@ == old(self).elements@ + element@,
            final(self).count == old(self).count + 1,
    {
        push_bytes(&mut self.elements, element);
        self.count = self.count + 1;
    }

    fn to_aml_bytes(&self) -> (out: Vec<u8>)
        ensures
            out@ == package_term(self.count as u8, self.elements@),
    {
        aml_package(#[verifier::truncate] (self.count as u8), self.elements.as_slice())
    }
}

/// The `_ADR`-style address of all functions of `slot`: the slot in the
/// high half (as much of it as fits in 32 bits), 0xffff in the low half.
pub open spec fn slot_adr(slot: u32) -> u32 {
    ((slot % 0x1_0000) * 0x1_0000 + 0xffff) as u32
}

/// One `_PRT` entry: all functions of `slot`, interrupt pin `pin`, routed to
/// the link device `prefix` + `link`.
pub open spec fn prt_entry(prefix: Seq<u8>, slot: u32, link: u8, pin: u8) -> Seq<u8> {
    package_term(
        4,
        int_bytes(slot_adr(slot) as u64) + int_bytes(pin as u64) + name_string(
            prefix.push(link),
        ) + seq![0u8],
    )
}

/// The four `_PRT` entries of a slot: pins INTA to INTD go to the links
/// `base`, `base + 1`, `base + 2`, `base + 3`.
pub open spec fn slot_entries(prefix: Seq<u8>, slot: u32, base: u8) -> Seq<u8> {
    prt_entry(prefix, slot, base, 0) + prt_entry(prefix, slot, (base + 1) as u8, 1) + prt_entry(
        prefix,
        slot,
        (base + 2) as u8,
        2,
    ) + prt_entry(prefix, slot, (base + 3) as u8, 3)
}

/// Whether `link` is a letter that a routing entry may start from: `A` or
/// `E`, or a letter at least four past the group's base.
pub open spec fn valid_link_start(link: u8) -> bool {
    let base: u8 = if link < 0x45 {
        0x41
    } else {
        0x45
    };
    link >= 0x41 && (link == base || link >= base + 4)
}

/// The group base of a link letter: `A` below `E`, otherwise `E`.
pub open spec fn link_base(link: u8) -> u8 {
    if link < 0x45 {
        0x41
    } else {
        0x45
    }
}

#[verifier::rlimit(50)]
fn append_q35_prt_entry(pkg: &mut PackageBuilder, slot: u32, name: &mut Vec<u8>)
    requires
        old(name)@.len() == 4,
        valid_link_start(old(name)@[3]),
        old(pkg).count + 4 < usize::MAX,
    ensures
        final(pkg).elements@ == old(pkg).elements@ + slot_entries(
            old(name)@.subrange(0, 3),
            slot,
            link_base(old(name)@[3]),
        ),
        final(pkg).count == old(pkg).count + 4,
        final(name)@ == old(name)@.update(3, (link_base(old(name)@[3]) + 3) as u8),
{
    let ghost prefix = old(name)@.subrange(0, 3);
    let ghost start = pkg.elements@;
    let base: u8 = if name[3] < 0x45 {
        0x41
    } else {
        0x45
    };
    let mut head: u8 = name[3] - base;
    let mut pin: u8 = 0;
    while pin < 4
        invariant
            pin <= 4,
            name@.len() == 4,
            name@.subrange(0, 3) == prefix,
            base == link_base(old(name)@[3]),
            base == 0x41 || base == 0x45,
            (pin == 0 && (head == 0 || head >= 4)) || (pin > 0 && head == 0),
            pin > 0 ==> name@[3] == base + pin - 1,
            pin == 0 ==> name@ == old(name)@,
            pkg.count == old(pkg).count + pin,
            old(pkg).count + 4 < usize::MAX,
            pkg.elements@ == start + (if pin == 0 {
                Seq::empty()
            } else if pin == 1 {
                prt_entry(prefix, slot, base, 0)
            } else if pin == 2 {
                prt_entry(prefix, slot, base, 0) + prt_entry(prefix, slot, (base + 1) as u8, 1)
            } else if pin == 3 {
                prt_entry(prefix, slot, base, 0) + prt_entry(prefix, slot, (base + 1) as u8, 1)
                    + prt_entry(prefix, slot, (base + 2) as u8, 2)
            } else {
                slot_entries(prefix, slot, base)
            }),
        decreases 4 - pin,
    {
        if head + pin > 3 {
            head = 0u8.wrapping_sub(pin);
        }
        assert(head == 0);
        let suffix = base + head + pin;
        name.set(3, suffix);
        assert(name@.subrange(0, 3) =~= prefix);
        assert(name@[3] == suffix);
        let entry = prt_entry_bytes(name.as_slice(), slot, pin);
        assert(entry@ == prt_entry(prefix, slot, (base + pin) as u8, pin));
        pkg.add_element(entry.as_slice());
        pin += 1;
        assert(pkg.elements@ =~= start + (if pin == 1 {
            prt_entry(prefix, slot, base, 0)
        } else if pin == 2 {
            prt_entry(prefix, slot, base, 0) + prt_entry(prefix, slot, (base + 1) as u8, 1)
        } else if pin == 3 {
            prt_entry(prefix, slot, base, 0) + prt_entry(prefix, slot, (base + 1) as u8, 1)
                + prt_entry(prefix, slot, (base + 2) as u8, 2)
        } else {
            slot_entries(prefix, slot, base)
        }));
    }
    proof {
        let target = old(name)@.update(3, (link_base(old(name)@[3]) + 3) as u8);
        assert forall|k: int| 0 <= k < 3 implies name@[k] == target[k] by {
            assert(name@.subrange(0, 3)[k] == name@[k]);
            assert(old(name)@.subrange(0, 3)[k] == old(name)@[k]);
        }
        assert(name@ =~= target);
    }
}

/// One `_PRT` entry for the link named `name`.
fn prt_entry_bytes(name: &[u8], slot: u32, pin: u8) -> (entry: Vec<u8>)
    requires
        name@.len() == 4,
    ensures
        entry@ == prt_entry(name@.subrange(0, 3), slot, name@[3], pin),
{
    let adr: u32 = (slot << 16u32) | 0xffff;
    assert(((slot << 16u32) | 0xffffu32) == ((slot % 0x1_0000) * 0x1_0000 + 0xffff) as u32)
        by (bit_vector);
    let mut entry_elems: Vec<u8> = Vec::new();
    encode_integer_into(adr as u64, &mut entry_elems);
    encode_integer_into(pin as u64, &mut entry_elems);
    push_bytes(&mut entry_elems, &aml_path(name));
    entry_elems.push(0x00);
    assert(name@.subrange(0, 3).push(name@[3]) =~= name@);
    aml_package(4, entry_elems.as_slice())
}

fn encode_integer_into(value: u64, out: &mut Vec<u8>)
    ensures
        final(out)@ == old(out)@ + int_bytes(value),
{
    push_bytes(out, &aml_int(value));
}

/// Which link group a slot's pins go to: `E` for slots up to 0x18 and for
/// 0x1e, `A` for 0x19 to 0x1d and for 0x1f.
pub open spec fn slot_link_base(slot: nat) -> u8 {
    if slot <= 0x18 {
        0x45
    } else if slot < 0x1e {
        0x41
    } else if slot == 0x1e {
        0x45
    } else {
        0x41
    }
}

/// The `_PRT` entries of the first `n` slots.
pub open spec fn routing_entries(prefix: Seq<u8>, n: nat) -> Seq<u8>
    decreases n,
{
    if n == 0 {
        Seq::empty()
    } else {
        routing_entries(prefix, (n - 1) as nat) + slot_entries(
            prefix,
            (n - 1) as u32,
            slot_link_base((n - 1) as nat),
        )
    }
}

/// The Q35 `_PRT` package over the links named `prefix` + letter: 32
/// slots of four pins.
pub open spec fn routing_table_bytes(prefix: Seq<u8>) -> Seq<u8> {
    package_term(128, routing_entries(prefix, 32))
}

/// Adds the entries of one slot, starting from the link `prefix` + `letter`.
fn add_slot(pkg: &mut PackageBuilder, prefix: &[u8], slot: u32, letter: u8)
    requires
        prefix@.len() == 3,
        letter == 0x41 || letter == 0x45,
        old(pkg).count + 4 < usize::MAX,
    ensures
        final(pkg).elements@ == old(pkg).elements@ + slot_entries(prefix@, slot, letter),
        final(pkg).count == old(pkg).count + 4,
{
    let mut name: Vec<u8> = Vec::new();
    push_bytes(&mut name, prefix);
    name.push(letter);
    assert(name@.subrange(0, 3) =~= prefix@);
    append_q35_prt_entry(pkg, slot, &mut name);
}

fn build_q35_routing_table(prefix: &[u8]) -> (out: Vec<u8>)
    requires
        prefix@.len() == 3,
    ensures
        out@ == routing_table_bytes(prefix@),
{
    let mut pkg = PackageBuilder::new();
    let mut slot: u32 = 0;
    while slot < 0x20
        invariant
            slot <= 0x20,
            prefix@.len() == 3,
            pkg.count == 4 * slot,
            pkg.elements@ == routing_entries(prefix@, slot as nat),
        decreases 0x20 - slot,
    {
        let letter: u8 = if slot <= 0x18 {
            0x45
        } else if slot < 0x1e {
            0x41
        } else if slot == 0x1e {
            0x45
        } else {
            0x41
        };
        add_slot(&mut pkg, prefix, slot, letter);
        slot += 1;
    }
    pkg.to_aml_bytes()
}

/// `LNKA`..`LNKH`, `PRQA`..`PRQH`, `GSIA`..`GSIH`: a three-letter prefix and
/// the letter `A + k`.
pub open spec fn lettered(prefix: Seq<u8>, k: nat) -> Seq<u8> {
    prefix.push((0x41 + k) as u8)
}

/// The eight PCI interrupt links, each after the name that holds its IRQ
/// (0x10 + k).
pub open spec fn link_section(n: nat) -> Seq<u8>
    decreases n,
{
    if n == 0 {
        Seq::empty()
    } else {
        let k = (n - 1) as nat;
        link_section(k) + name_term(
            lettered(seq![0x50u8, 0x52, 0x51], k),
            int_bytes((0x10 + k) as u64),
        ) + link_device_bytes(lettered(seq![0x4cu8, 0x4e, 0x4b], k), k as u8)
    }
}

/// The eight GSI links, fixed to GSI 0x10 + k.
pub open spec fn gsi_section(n: nat) -> Seq<u8>
    decreases n,
{
    if n == 0 {
        Seq::empty()
    } else {
        let k = (n - 1) as nat;
        gsi_section(k) + gsi_link_device_bytes(
            lettered(seq![0x47u8, 0x53, 0x49], k),
            (0x10 + k) as u8,
            (0x10 + k) as u32,
        )
    }
}

/// The interrupt routing: `PICF` and `_PIC` to record the interrupt model,
/// the `_PRT` of the host bridge that returns the link-based table in PIC
/// mode and the GSI-based table in APIC mode, and the link devices.
pub open spec fn irq_routing_bytes() -> Seq<u8> {
    name_term("PICF".spec_bytes(), seq![0u8]) + method_term(
        "_PIC".spec_bytes(),
        method_flags(1, false),
        store_term(arg_term(0), name_string("PICF".spec_bytes())),
    ) + scope_term(
        "\\_SB_.PCI0".spec_bytes(),
        name_term("PRTP".spec_bytes(), routing_table_bytes(seq![0x4cu8, 0x4e, 0x4b])) + name_term(
            "PRTA".spec_bytes(),
            routing_table_bytes(seq![0x47u8, 0x53, 0x49]),
        ) + method_term(
            "_PRT".spec_bytes(),
            method_flags(0, false),
            if_term(
                lequal_term(name_string("PICF".spec_bytes()), seq![0u8]),
                return_term(name_string("PRTP".spec_bytes())),
            ) + else_term(return_term(name_string("PRTA".spec_bytes()))),
        ),
    ) + scope_term("\\_SB_".spec_bytes(), link_section(8) + gsi_section(8))
}

proof fn lemma_split_no_dots(s: Seq<u8>, cur: Seq<u8>)
    requires
        forall|k: int| 0 <= k < s.len() ==> s[k] != 0x2e,
        cur.len() + s.len() > 0,
    ensures
        split_segments(s, cur) == seq![cur + s],
    decreases s.len(),
{
    if s.len() == 0 {
        assert(cur + s =~= cur);
    } else {
        lemma_split_no_dots(s.drop_first(), cur.push(s[0]));
        assert(cur.push(s[0]) + s.drop_first() =~= cur + s);
    }
}

/// A four-character name without dots or root prefix is its own name
/// string: a single name segment.
proof fn lemma_plain_name(s: Seq<u8>)
    requires
        s.len() == 4,
        s[0] != 0x5c,
        forall|k: int| 0 <= k < 4 ==> s[k] != 0x2e,
    ensures
        name_string(s) == s,
{
    lemma_split_no_dots(s, Seq::empty());
    assert(Seq::<u8>::empty() + s =~= s);
    assert(name_seg_bytes(s) =~= s);
    assert(Seq::<u8>::empty() + s =~= s);
}

proof fn lemma_occurs_between(pre: Seq<u8>, x: Seq<u8>, post: Seq<u8>)
    ensures
        occurs_at(pre + x + post, x, pre.len() as int),
{
    assert((pre + x + post).subrange(pre.len() as int, (pre.len() + x.len()) as int) =~= x);
}

/// The interrupt model decides the routing: `PICF` starts at zero and
/// `_PIC(model)` stores its argument there, and the `_PRT` method of the
/// host bridge reads `If (LEqual (PICF, Zero)) { Return (PRTP) } Else {
/// Return (PRTA) }`, where `PRTP` is the `_PRT` package over the PIC link
/// devices `LNKA`.. and `PRTA` the one over the GSI link devices `GSIA`..:
/// the links in PIC mode, the GSIs once the OS has selected APIC mode.
#[verifier::rlimit(40)]
#[verifier::spinoff_prover]
pub proof fn lemma_prt_follows_interrupt_model()
    ensures
        ({
            let picf = seq![0x50u8, 0x49, 0x43, 0x46];
            let prtp = seq![0x50u8, 0x52, 0x54, 0x50];
            let prta = seq![0x50u8, 0x52, 0x54, 0x41];
            &&& exists|i: int| occurs_at(irq_routing_bytes(), name_term(picf, seq![0u8]), i)
            &&& exists|i: int|
                occurs_at(
                    irq_routing_bytes(),
                    method_term(
                        seq![0x5fu8, 0x50, 0x49, 0x43],
                        1,
                        store_term(seq![0x68u8], picf),
                    ),
                    i,
                )
            &&& exists|i: int|
                occurs_at(
                    irq_routing_bytes(),
                    name_term(prtp, routing_table_bytes(seq![0x4cu8, 0x4e, 0x4b])),
                    i,
                )
            &&& exists|i: int|
                occurs_at(
                    irq_routing_bytes(),
                    name_term(prta, routing_table_bytes(seq![0x47u8, 0x53, 0x49])),
                    i,
                )
            &&& exists|i: int|
                occurs_at(
                    irq_routing_bytes(),
                    method_term(
                        seq![0x5fu8, 0x50, 0x52, 0x54],
                        0,
                        if_term(lequal_term(picf, seq![0u8]), return_term(prtp)) + else_term(
                            return_term(prta),
                        ),
                    ),
                    i,
                )
        }),
{
    let picf = seq![0x50u8, 0x49, 0x43, 0x46];
    let prtp = seq![0x50u8, 0x52, 0x54, 0x50];
    let prta = seq![0x50u8, 0x52, 0x54, 0x41];
    let prt = seq![0x5fu8, 0x50, 0x52, 0x54];
    let pic = seq![0x5fu8, 0x50, 0x49, 0x43];
    reveal_strlit("PICF");
    reveal_strlit("PRTP");
    reveal_strlit("PRTA");
    reveal_strlit("_PRT");
    reveal_strlit("_PIC");
    lemma_ascii_literal_bytes("PICF");
    lemma_ascii_literal_bytes("PRTP");
    lemma_ascii_literal_bytes("PRTA");
    lemma_ascii_literal_bytes("_PRT");
    lemma_ascii_literal_bytes("_PIC");
    assert("PICF".spec_bytes() =~= picf);
    assert("PRTP".spec_bytes() =~= prtp);
    assert("PRTA".spec_bytes() =~= prta);
    assert("_PRT".spec_bytes() =~= prt);
    assert("_PIC".spec_bytes() =~= pic);
    lemma_plain_name(picf);
    lemma_plain_name(prtp);
    lemma_plain_name(prta);
    assert(method_flags(0, false) == 0) by {
        assert((0u8 | 0u8) == 0u8) by (bit_vector);
    }
    assert(method_flags(1, false) == 1) by {
        assert((1u8 | 0u8) == 1u8) by (bit_vector);
    }
    assert(arg_term(0) =~= seq![0x68u8]);

    let a = name_term(picf, seq![0u8]);
    let b = method_term(pic, 1, store_term(seq![0x68u8], picf));
    let c = name_term(prtp, routing_table_bytes(seq![0x4cu8, 0x4e, 0x4b]));
    let d = name_term(prta, routing_table_bytes(seq![0x47u8, 0x53, 0x49]));
    let m = method_term(
        prt,
        0,
        if_term(lequal_term(picf, seq![0u8]), return_term(prtp)) + else_term(return_term(prta)),
    );
    let n = "\\_SB_.PCI0".spec_bytes();
    let body = c + d + m;
    let inner = name_string(n) + body;
    let h = seq![0x10u8] + pkg_length_bytes(inner.len() + pkg_length_size_of(inner.len()))
        + name_string(n);
    let e = scope_term("\\_SB_".spec_bytes(), link_section(8) + gsi_section(8));
    lemma_scope_split(n, body);
    assert(irq_routing_bytes() == a + b + scope_term(n, body) + e);
    lemma_five_parts(a, b, h, c, d, m, e);
}

proof fn lemma_scope_split(n: Seq<u8>, body: Seq<u8>)
    ensures
        scope_term(n, body) == (seq![0x10u8] + pkg_length_bytes(
            (name_string(n) + body).len() + pkg_length_size_of((name_string(n) + body).len()),
        ) + name_string(n)) + body,
{
    assert(scope_term(n, body) =~= (seq![0x10u8] + pkg_length_bytes(
        (name_string(n) + body).len() + pkg_length_size_of((name_string(n) + body).len()),
    ) + name_string(n)) + body);
}

proof fn lemma_five_parts(
    a: Seq<u8>,
    b: Seq<u8>,
    h: Seq<u8>,
    c: Seq<u8>,
    d: Seq<u8>,
    m: Seq<u8>,
    e: Seq<u8>,
)
    ensures
        ({
            let all = a + b + (h + (c + d + m)) + e;
            &&& exists|i: int| occurs_at(all, a, i)
            &&& exists|i: int| occurs_at(all, b, i)
            &&& exists|i: int| occurs_at(all, c, i)
            &&& exists|i: int| occurs_at(all, d, i)
            &&& exists|i: int| occurs_at(all, m, i)
        }),
{
    let all = a + b + (h + (c + d + m)) + e;
    assert(all =~= Seq::<u8>::empty() + a + (b + h + c + d + m + e));
    lemma_occurs_between(Seq::<u8>::empty(), a, b + h + c + d + m + e);
    assert(all =~= a + b + (h + c + d + m + e));
    lemma_occurs_between(a, b, h + c + d + m + e);
    assert(all =~= (a + b + h) + c + (d + m + e));
    lemma_occurs_between(a + b + h, c, d + m + e);
    assert(all =~= (a + b + h + c) + d + (m + e));
    lemma_occurs_between(a + b + h + c, d, m + e);
    assert(all =~= (a + b + h + c + d) + m + e);
    lemma_occurs_between(a + b + h + c + d, m, e);
}

fn letter_name(p0: u8, p1: u8, p2: u8, k: u8) -> (name: Vec<u8>)
    requires
        k < 26,
    ensures
        name@ == lettered(seq![p0, p1, p2], k as nat),
{
    let mut name: Vec<u8> = Vec::new();
    name.push(p0);
    name.push(p1);
    name.push(p2);
    name.push(0x41 + k);
    assert(name@ =~= lettered(seq![p0, p1, p2], k as nat));
    name
}

fn build_q35_irq_routing_bytes() -> (out: Vec<u8>)
    ensures
        out@ == irq_routing_bytes(),
{
    let mut out: Vec<u8> = Vec::new();
    append_aml(&aml_name("PICF".as_bytes(), &aml_int(0)), &mut out);

    let pic_arg: Vec<u8> = vec![0x68];
    assert(pic_arg@ =~= arg_term(0));
    let picf_path = aml_path("PICF".as_bytes());
    let pic_store = aml_store(pic_arg.as_slice(), picf_path.as_slice());
    let pic_method = aml_method("_PIC".as_bytes(), 1, false, pic_store.as_slice());
    append_aml(&pic_method, &mut out);

    let lnk: Vec<u8> = vec![0x4c, 0x4e, 0x4b];
    let gsi: Vec<u8> = vec![0x47, 0x53, 0x49];
    assert(lnk@ =~= seq![0x4cu8, 0x4e, 0x4b]);
    assert(gsi@ =~= seq![0x47u8, 0x53, 0x49]);
    let prtp = aml_name("PRTP".as_bytes(), &build_q35_routing_table(lnk.as_slice()));
    let prta = aml_name("PRTA".as_bytes(), &build_q35_routing_table(gsi.as_slice()));
    let picf_ref = aml_path("PICF".as_bytes());
    let prtp_ref = aml_path("PRTP".as_bytes());
    let prta_ref = aml_path("PRTA".as_bytes());
    let predicate = aml_lequal(picf_ref.as_slice(), &aml_int(0));
    let ret_prtp = aml_return(prtp_ref.as_slice());
    let ret_prta = aml_return(prta_ref.as_slice());
    let if_ctx = aml_if(predicate.as_slice(), ret_prtp.as_slice());
    let else_ctx = aml_else(ret_prta.as_slice());
    let mut prt_body: Vec<u8> = Vec::new();
    push_bytes(&mut prt_body, if_ctx.as_slice());
    push_bytes(&mut prt_body, else_ctx.as_slice());
    let prt_method = aml_method("_PRT".as_bytes(), 0, false, prt_body.as_slice());
    let mut pci0_body: Vec<u8> = Vec::new();
    push_bytes(&mut pci0_body, prtp.as_slice());
    push_bytes(&mut pci0_body, prta.as_slice());
    push_bytes(&mut pci0_body, prt_method.as_slice());
    let pci0_scope = aml_scope("\\_SB_.PCI0".as_bytes(), pci0_body.as_slice());
    append_aml(&pci0_scope, &mut out);

    let mut sb_bytes: Vec<u8> = Vec::new();
    let mut k: u8 = 0;
    while k < 8
        invariant
            k <= 8,
            sb_bytes@ == link_section(k as nat),
        decreases 8 - k,
    {
        let irq_name = letter_name(0x50, 0x52, 0x51, k);
        append_aml(&aml_name(irq_name.as_slice(), &aml_int((0x10 + k) as u64)), &mut sb_bytes);
        let link_name = letter_name(0x4c, 0x4e, 0x4b, k);
        push_bytes(&mut sb_bytes, &build_link_device_bytes(link_name.as_slice(), k));
        k += 1;
    }
    let mut k: u8 = 0;
    let ghost links = sb_bytes@;
    while k < 8
        invariant
            k <= 8,
            links == link_section(8),
            sb_bytes@ == links + gsi_section(k as nat),
        decreases 8 - k,
    {
        let name = letter_name(0x47, 0x53, 0x49, k);
        push_bytes(
            &mut sb_bytes,
            &build_gsi_link_device_bytes(name.as_slice(), 0x10 + k, (0x10 + k) as u32),
        );
        k += 1;
    }
    push_bytes(&mut out, &aml_scope("\\_SB_".as_bytes(), sb_bytes.as_slice()));
    assert(out@ =~= irq_routing_bytes());
    out
}

/// `_S5_`: the soft-off sleep state with all values zero.
pub open spec fn root_sleep_bytes() -> Seq<u8> {
    name_term("_S5_".spec_bytes(), package_term(4, seq![0u8, 0, 0, 0]))
}

fn build_root_sleep_bytes() -> (out: Vec<u8>)
    ensures
        out@ == root_sleep_bytes(),
{
    let zeros4: Vec<u8> = vec![0, 0, 0, 0];
    assert(zeros4@ =~= seq![0u8, 0, 0, 0]);
    let s5_pkg = aml_package(4, zeros4.as_slice());
    let s5 = aml_name("_S5_".as_bytes(), s5_pkg.as_slice());
    let mut out: Vec<u8> = Vec::new();
    append_aml(&s5, &mut out);
    assert(out@ =~= root_sleep_bytes());
    out
}

/// The `_GPE` scope with the GPE block device HID.
pub open spec fn gpe_scope_bytes() -> Seq<u8> {
    scope_term(
        "_GPE".spec_bytes(),
        name_term("_HID".spec_bytes(), string_term(utf8("ACPI0006"@))),
    )
}

fn build_gpe_scope_bytes() -> (out: Vec<u8>)
    ensures
        out@ == gpe_scope_bytes(),
{
    let hid = aml_name("_HID".as_bytes(), &aml_string("ACPI0006"));
    let gpe = aml_scope("_GPE".as_bytes(), hid.as_slice());
    let mut out: Vec<u8> = Vec::new();
    append_aml(&gpe, &mut out);
    assert(out@ =~= gpe_scope_bytes());
    out
}

// ---------------------------------------------------------------------
// The body and its padding.
// ---------------------------------------------------------------------

/// The DSDT body without padding.
#[verifier::opaque]
pub open spec fn dsdt_base(config: PlatformConfig) -> Seq<u8> {
    root_scope_bytes(config) + irq_routing_bytes() + root_sleep_bytes() + gpe_scope_bytes()
}

/// The padding object: a buffer of `pad` zero bytes named `QPAD`, or
/// nothing for no padding.
pub open spec fn qpad_bytes(pad: nat) -> Seq<u8> {
    if pad > 0 {
        name_term("QPAD".spec_bytes(), buffer_term(zeros(pad)))
    } else {
        Seq::empty()
    }
}

/// The DSDT body with `pad` bytes of padding.
pub open spec fn dsdt_body_bytes(config: PlatformConfig, pad: nat) -> Seq<u8> {
    dsdt_base(config) + qpad_bytes(pad)
}

fn encode_dsdt_body(config: &PlatformConfig, pad_len: usize) -> (body: Vec<u8>)
    ensures
        body@ == dsdt_body_bytes(*config, pad_len as nat),
{
    let mut body = build_root_scope_bytes(config);
    push_bytes(&mut body, &build_q35_irq_routing_bytes());
    push_bytes(&mut body, &build_root_sleep_bytes());
    push_bytes(&mut body, &build_gpe_scope_bytes());
    proof {
        reveal(dsdt_base);
    }
    if pad_len > 0 {
        let mut zero_bytes: Vec<u8> = Vec::new();
        push_zeros(&mut zero_bytes, pad_len);
        append_aml(&aml_name("QPAD".as_bytes(), &aml_buffer(zero_bytes.as_slice())), &mut body);
    }
    assert(body@ =~= dsdt_body_bytes(*config, pad_len as nat));
    body
}

/// The length of a package whose body is `n` bytes long.
pub open spec fn pkg_total_len(n: nat) -> nat {
    pkg_length_bytes(n + pkg_length_size_of(n)).len() + n
}

/// The length of the integer encoding of `v`.
pub open spec fn int_len(v: nat) -> nat {
    if v <= 1 {
        1
    } else if v <= 0xff {
        2
    } else if v <= 0xffff {
        3
    } else if v <= 0xffff_ffff {
        5
    } else {
        9
    }
}

/// The length of the padding object for `pad` bytes.
pub open spec fn pad_len(pad: nat) -> nat {
    if pad == 0 {
        0
    } else {
        6 + pkg_total_len(int_len(pad) + pad)
    }
}

proof fn lemma_qpad_name()
    ensures
        name_string("QPAD".spec_bytes()) == seq![0x51u8, 0x50, 0x41, 0x44],
{
    reveal_strlit("QPAD");
    lemma_ascii_literal_bytes("QPAD");
    let b = "QPAD".spec_bytes();
    assert(b =~= seq![0x51u8, 0x50, 0x41, 0x44]);
    let s0 = seq![0x51u8, 0x50, 0x41, 0x44];
    assert(s0.drop_first() =~= seq![0x50u8, 0x41, 0x44]);
    assert(s0.drop_first().drop_first() =~= seq![0x41u8, 0x44]);
    assert(s0.drop_first().drop_first().drop_first() =~= seq![0x44u8]);
    assert(s0.drop_first().drop_first().drop_first().drop_first() =~= Seq::<u8>::empty());
    reveal_with_fuel(split_segments, 5);
    assert(split_segments(s0, Seq::empty()) =~= seq![s0]) by {
        assert(Seq::<u8>::empty().push(0x51u8) =~= seq![0x51u8]);
        assert(seq![0x51u8].push(0x50u8) =~= seq![0x51u8, 0x50]);
        assert(seq![0x51u8, 0x50].push(0x41u8) =~= seq![0x51u8, 0x50, 0x41]);
        assert(seq![0x51u8, 0x50, 0x41].push(0x44u8) =~= s0);
    }
    assert(name_seg_bytes(s0) =~= s0);
}

/// The padding object for `pad` bytes is `pad_len(pad)` bytes long.
pub proof fn lemma_qpad_len(pad: nat)
    requires
        pad <= u64::MAX,
    ensures
        qpad_bytes(pad).len() == pad_len(pad),
{
    if pad > 0 {
        lemma_qpad_name();
        assert(int_bytes(pad as u64).len() == int_len(pad));
    }
}

proof fn lemma_pkg_length_bytes_len_mono(a: nat, b: nat)
    requires
        a <= b,
    ensures
        pkg_length_bytes(a).len() <= pkg_length_bytes(b).len(),
{
}

/// Longer package bodies make longer packages.
proof fn lemma_pkg_total_len_step(n: nat)
    ensures
        pkg_total_len(n) < pkg_total_len(n + 1),
{
    lemma_pkg_length_bytes_len_mono(
        n + pkg_length_size_of(n),
        n + 1 + pkg_length_size_of(n + 1),
    );
}

proof fn lemma_pkg_total_len_mono(a: nat, b: nat)
    requires
        a < b,
    ensures
        pkg_total_len(a) < pkg_total_len(b),
    decreases b - a,
{
    lemma_pkg_total_len_step(a);
    if a + 1 < b {
        lemma_pkg_total_len_mono(a + 1, b);
    }
}

/// More padding makes a longer padding object; the object is never shorter
/// than the padding.
pub proof fn lemma_pad_len_mono(p: nat, q: nat)
    requires
        p < q,
    ensures
        pad_len(p) < pad_len(q),
        p <= pad_len(p),
        q <= pad_len(q),
{
    if p > 0 {
        lemma_pkg_total_len_mono(int_len(p) + p, int_len(q) + q);
    }
}

/// The body length that the compatibility model aims at: the target total
/// length less the header, or zero.
pub open spec fn dsdt_target_body(config: PlatformConfig) -> nat {
    if config.dsdt_target() >= 36 {
        (config.dsdt_target() - 36) as nat
    } else {
        0
    }
}

/// Padding `pad` brings the body exactly to the target length.
pub open spec fn pad_hits(config: PlatformConfig, pad: nat) -> bool {
    dsdt_base(config).len() + pad_len(pad) == dsdt_target_body(config)
}

/// Padding `pad` falls short of the target and one byte more overshoots.
pub open spec fn pad_brackets(config: PlatformConfig, pad: nat) -> bool {
    &&& dsdt_base(config).len() + pad_len(pad) < dsdt_target_body(config)
    &&& dsdt_base(config).len() + pad_len(pad + 1) > dsdt_target_body(config)
}

/// The padding the DSDT gets: none without the compatibility model or when
/// the body is already long enough; the padding that reaches the target
/// exactly when there is one; otherwise, starting from the largest padding
/// that falls short, that padding plus the bytes still missing (which
/// overshoots).
pub open spec fn chosen_padding(config: PlatformConfig) -> nat {
    let b = dsdt_base(config).len();
    let t = dsdt_target_body(config);
    if !config.compat_lengths || b >= t {
        0
    } else if exists|p: nat| pad_hits(config, p) {
        choose|p: nat| pad_hits(config, p)
    } else {
        let h = choose|h: nat| pad_brackets(config, h);
        (h + (t - (b + pad_len(h)))) as nat
    }
}

/// At most one padding hits the target.
proof fn lemma_pad_hits_unique(config: PlatformConfig, p: nat, q: nat)
    requires
        pad_hits(config, p),
        pad_hits(config, q),
    ensures
        p == q,
{
    if p < q {
        lemma_pad_len_mono(p, q);
    } else if q < p {
        lemma_pad_len_mono(q, p);
    }
}

/// The length of the padding object by padding size: 9 bytes for one byte
/// of padding, then `pad + 9`, `pad + 10` and `pad + 11` as the byte count
/// of the buffer size and of the package length grow, and at least 4103
/// bytes from 4091 bytes of padding on.
proof fn lemma_pad_len_values(pad: nat)
    ensures
        pad == 1 ==> pad_len(pad) == 9,
        2 <= pad <= 60 ==> pad_len(pad) == pad + 9,
        61 <= pad <= 255 ==> pad_len(pad) == pad + 10,
        256 <= pad <= 4090 ==> pad_len(pad) == pad + 11,
        pad >= 4091 ==> pad_len(pad) >= 4103,
{
    if pad > 4091 {
        lemma_pad_len_mono(4091, pad);
    }
    assert(pad_len(4091) == 4103);
}

/// Which shortfalls the padding can make up exactly: with the unpadded
/// body `d` bytes short of the target (`d` at most 4101), some padding
/// reaches the target if and only if `d` is 9 or lies in 11..=69, 71..=265
/// or 267..=4101. The shortfalls 1 to 8, 10, 70 and 266 cannot be made up.
pub proof fn lemma_dsdt_padding_reach(config: PlatformConfig)
    requires
        dsdt_base(config).len() < dsdt_target_body(config),
        dsdt_target_body(config) - dsdt_base(config).len() <= 4101,
    ensures
        (exists|p: nat| pad_hits(config, p)) <==> ({
            let d = dsdt_target_body(config) - dsdt_base(config).len();
            d == 9 || 11 <= d <= 69 || 71 <= d <= 265 || 267 <= d <= 4101
        }),
{
    let d = dsdt_target_body(config) - dsdt_base(config).len();
    if d == 9 || 11 <= d <= 69 || 71 <= d <= 265 || 267 <= d <= 4101 {
        let p: nat = if d == 9 {
            1
        } else if d <= 69 {
            (d - 9) as nat
        } else if d <= 265 {
            (d - 10) as nat
        } else {
            (d - 11) as nat
        };
        lemma_pad_len_values(p);
        assert(pad_hits(config, p));
    } else {
        assert forall|p: nat| !pad_hits(config, p) by {
            lemma_pad_len_values(p);
        }
    }
}

/// At most one padding brackets the target.
proof fn lemma_pad_brackets_unique(config: PlatformConfig, p: nat, q: nat)
    requires
        pad_brackets(config, p),
        pad_brackets(config, q),
    ensures
        p == q,
{
    if p < q {
        if p + 1 < q {
            lemma_pad_len_mono(p + 1, q);
        }
    } else if q < p {
        if q + 1 < p {
            lemma_pad_len_mono(q + 1, p);
        }
    }
}

/// Finds the padding that brings the DSDT body to the length the
/// compatibility model aims at, by binary search over the padding size.
#[verifier::rlimit(40)]
fn encode_dsdt_with_padding(config: &PlatformConfig) -> (body: Vec<u8>)
    requires
        config.compat_lengths ==> config.dsdt_target() <= u32::MAX,
    ensures
        body@ == dsdt_body_bytes(*config, chosen_padding(*config)),
{
    let body = encode_dsdt_body(config, 0);
    let ghost b = dsdt_base(*config).len();
    assert(body@ =~= dsdt_base(*config));
    let target_total_len = match config.target_dsdt_len() {
        None => {
            return body;
        },
        Some(t) => t,
    };
    let target_body_len = target_total_len.saturating_sub(36) as usize;
    let ghost t = dsdt_target_body(*config);
    assert(target_body_len == t);
    if body.len() >= target_body_len {
        return body;
    }
    let ghost h_max = (t - b) as nat;
    let mut low: usize = 0;
    let mut high: usize = target_body_len - body.len();
    let mut best: Option<Vec<u8>> = None;
    proof {
        lemma_qpad_len(0);
    }
    while low <= high
        invariant
            b < t,
            t == target_body_len,
            t == dsdt_target_body(*config),
            t <= u32::MAX,
            config.compat_lengths,
            b == dsdt_base(*config).len(),
            high <= h_max,
            h_max == t - b,
            low <= high + 1,
            forall|p: nat| p < low ==> b + pad_len(p) < t,
            forall|p: nat| high < p <= h_max ==> b + pad_len(p) > t,
            low > 0 ==> (best matches Some(c) && c@ == dsdt_body_bytes(*config, (low - 1) as nat)),
        ensures
            low == high + 1,
            low > 0,
            best matches Some(c) && c@ == dsdt_body_bytes(*config, (low - 1) as nat),
            forall|p: nat| p < low ==> b + pad_len(p) < t,
            forall|p: nat| high < p <= h_max ==> b + pad_len(p) > t,
        decreases high + 1 - low,
    {
        let mid = low + (high - low) / 2;
        let candidate = encode_dsdt_body(config, mid);
        proof {
            lemma_qpad_len(mid as nat);
        }
        assert(candidate@.len() == b + pad_len(mid as nat));
        if candidate.len() == target_body_len {
            proof {
                assert(pad_hits(*config, mid as nat));
                let p = choose|p: nat| pad_hits(*config, p);
                lemma_pad_hits_unique(*config, p, mid as nat);
                assert(chosen_padding(*config) == mid);
            }
            return candidate;
        } else if candidate.len() < target_body_len {
            proof {
                assert forall|p: nat| p < mid + 1 implies b + pad_len(p) < t by {
                    if p < mid {
                        lemma_pad_len_mono(p, mid as nat);
                    }
                }
            }
            best = Some(candidate);
            low = mid + 1;
        } else {
            if mid == 0 {
                break;
            }
            proof {
                assert forall|p: nat| mid - 1 < p <= h_max implies b + pad_len(p) > t by {
                    if mid < p {
                        lemma_pad_len_mono(mid as nat, p);
                    }
                }
            }
            high = mid - 1;
        }
    }
    // Every padding up to `high` falls short and every larger one
    // overshoots, so `high` brackets the target and none hits it.
    proof {
        lemma_pad_len_mono(high as nat, high as nat + 1);
        assert(high < h_max);
        assert(pad_brackets(*config, high as nat));
        assert forall|p: nat| !pad_hits(*config, p) by {
            if p > h_max {
                lemma_pad_len_mono(h_max, p);
            }
        }
        let h = choose|h: nat| pad_brackets(*config, h);
        lemma_pad_brackets_unique(*config, h, high as nat);
    }
    let mut candidate = match best {
        Some(c) => c,
        None => encode_dsdt_body(config, 0),
    };
    proof {
        lemma_qpad_len(high as nat);
    }
    while candidate.len() < target_body_len
        invariant_except_break
            candidate@ == dsdt_body_bytes(*config, high as nat),
            candidate@.len() < t,
        invariant
            b < t,
            t == target_body_len,
            b == dsdt_base(*config).len(),
            b + pad_len(high as nat) < t,
            b + pad_len(high as nat + 1) > t,
            chosen_padding(*config) == high + (t - (b + pad_len(high as nat))),
        ensures
            candidate@ == dsdt_body_bytes(*config, chosen_padding(*config)),
        decreases target_body_len - candidate.len(),
    {
        proof {
            lemma_qpad_len(high as nat);
            lemma_pad_len_mono(high as nat, high as nat + 1);
        }
        let missing = target_body_len - candidate.len();
        candidate = encode_dsdt_body(config, high + missing);
        proof {
            lemma_qpad_len((high + missing) as nat);
            if missing > 1 {
                lemma_pad_len_mono(high as nat + 1, (high + missing) as nat);
            }
        }
        if candidate.len() > target_body_len {
            break;
        }
    }
    candidate
}

/// The complete DSDT.
#[verifier::opaque]
pub open spec fn dsdt_table(config: PlatformConfig) -> Seq<u8> {
    finalized_table(
        platform_header(config, [0x44u8, 0x53, 0x44, 0x54], 1),
        dsdt_body_bytes(config, chosen_padding(config)),
    )
}

/// Builds the DSDT.
pub fn build_dsdt(config: &PlatformConfig) -> (t: Vec<u8>)
    requires
        config.compat_lengths ==> config.dsdt_target() <= u32::MAX,
    ensures
        t@ == dsdt_table(*config),
{
    proof {
        reveal(dsdt_table);
    }
    let header = AcpiHeader {
        signature: [0x44u8, 0x53, 0x44, 0x54],  // "DSDT"
        revision: 1,
        oem_id: config.oem_id,
        oem_table_id: config.oem_table_id,
        oem_revision: config.oem_revision,
        creator_id: config.creator_id,
        creator_revision: config.creator_revision,
    };
    let body = encode_dsdt_with_padding(config);
    finalize_table(header, body.as_slice())
}

/// With the compatibility model on, whenever some padding brings the body
/// to the target length, the DSDT is exactly `target_dsdt_len` bytes long;
/// without padding the body is never cut short.
pub proof fn lemma_dsdt_compat_length(config: PlatformConfig)
    requires
        config.compat_lengths,
        36 <= config.dsdt_target() <= u32::MAX,
        dsdt_base(config).len() < dsdt_target_body(config),
        exists|p: nat| pad_hits(config, p),
    ensures
        dsdt_table(config).len() == config.dsdt_target(),
{
    reveal(dsdt_table);
    let p = choose|p: nat| pad_hits(config, p);
    lemma_pad_len_bounded(config, p);
    lemma_qpad_len(p);
}

proof fn lemma_pad_len_bounded(config: PlatformConfig, p: nat)
    requires
        pad_hits(config, p),
        dsdt_target_body(config) <= u32::MAX,
    ensures
        p <= u32::MAX,
{
    if p > 0 {
        lemma_pad_len_mono(0, p);
    }
}

/// Some padding falls short of the target while one byte more of padding
/// reaches or passes it.
proof fn lemma_find_bracket(config: PlatformConfig, p: nat)
    requires
        dsdt_base(config).len() + pad_len(p) < dsdt_target_body(config),
        forall|q: nat| !pad_hits(config, q),
    ensures
        exists|h: nat| pad_brackets(config, h),
    decreases dsdt_target_body(config) - p,
{
    lemma_pad_len_mono(p, p + 1);
    if dsdt_base(config).len() + pad_len(p + 1) > dsdt_target_body(config) {
        assert(pad_brackets(config, p));
    } else {
        assert(!pad_hits(config, p + 1));
        lemma_find_bracket(config, p + 1);
    }
}

/// The DSDT length the padding gives: without the compatibility model, or
/// when the unpadded body already reaches the target, the DSDT is the
/// unpadded one; when some padding reaches the target exactly, the DSDT is
/// exactly `target_dsdt_len` bytes; otherwise it is longer than that, never
/// shorter.
#[verifier::spinoff_prover]
pub proof fn lemma_dsdt_padding_choice(config: PlatformConfig)
    requires
        config.compat_lengths ==> config.dsdt_target() <= u32::MAX,
    ensures
        !config.compat_lengths || dsdt_base(config).len() >= dsdt_target_body(config)
            ==> dsdt_table(config).len() == dsdt_base(config).len() + 36,
        config.compat_lengths && dsdt_base(config).len() < dsdt_target_body(config) && (exists|
            p: nat,
        | pad_hits(config, p)) ==> dsdt_table(config).len() == config.dsdt_target(),
        config.compat_lengths && dsdt_base(config).len() < dsdt_target_body(config) && !(exists|
            p: nat,
        | pad_hits(config, p)) ==> dsdt_table(config).len() > config.dsdt_target(),
{
    reveal(dsdt_table);
    let b = dsdt_base(config).len();
    let t = dsdt_target_body(config);
    let chosen = chosen_padding(config);
    crate::acpi::header::lemma_finalized_table(
        platform_header(config, [0x44u8, 0x53, 0x44, 0x54], 1),
        dsdt_body_bytes(config, chosen),
    );
    if !config.compat_lengths || b >= t {
        lemma_qpad_len(0);
    } else if exists|p: nat| pad_hits(config, p) {
        lemma_dsdt_compat_length(config);
    } else {
        lemma_qpad_len(0);
        lemma_find_bracket(config, 0);
        let h = choose|h: nat| pad_brackets(config, h);
        assert(h <= pad_len(h)) by {
            lemma_pad_len_mono(h, h + 1);
        }
        assert(chosen == h + (t - (b + pad_len(h))));
        assert(chosen >= h + 1);
        if chosen > h + 1 {
            lemma_pad_len_mono(h + 1, chosen);
        }
        assert(chosen <= t);
        lemma_qpad_len(chosen);
    }
}

} // verus!
