use q35_acpi::acpi::{build_minimal_acpi, fits_image};
use q35_acpi::acpi::config::{PciDeviceConfig, PlatformConfig};

#[test]
fn builds_expected_minimal_layout() {
    let built = build_minimal_acpi(&PlatformConfig::intel_tdx_q35(4));
    assert_eq!(built.table_layout("DSDT").unwrap().offset, 64);
    assert_eq!(built.table_layout("MCFG").unwrap().length, 60);
    assert_eq!(built.table_layout("WAET").unwrap().length, 40);
    assert_eq!(built.table_layout("RSDT").unwrap().length, 52);
    assert_eq!(built.rsdp.len(), 20);
}

#[test]
fn rsdt_points_at_other_tables() {
    let built = build_minimal_acpi(&PlatformConfig::intel_tdx_q35(2));
    let rsdt = &built.blob.data[built.table_layout("RSDT").unwrap().offset as usize..];
    let payload = &rsdt[36..52];
    let mut entries = Vec::new();
    for chunk in payload.chunks_exact(4) {
        entries.push(u32::from_le_bytes(chunk.try_into().unwrap()));
    }
    assert_eq!(entries[0], built.table_layout("FACP").unwrap().offset);
    assert_eq!(entries[1], built.table_layout("APIC").unwrap().offset);
    assert_eq!(entries[2], built.table_layout("MCFG").unwrap().offset);
    assert_eq!(entries[3], built.table_layout("WAET").unwrap().offset);
}

#[test]
fn hpet_adds_table_and_expands_rsdt() {
    let mut config = PlatformConfig::intel_tdx_q35(2);
    config.has_hpet = true;
    let built = build_minimal_acpi(&config);
    assert_eq!(built.table_layout("HPET").unwrap().length, 56);
    assert_eq!(built.table_layout("RSDT").unwrap().length, 56);
}

#[test]
fn fadt_references_dsdt_in_both_fields() {
    let built = build_minimal_acpi(&PlatformConfig::intel_tdx_q35(2));
    let facp = built.table_layout("FACP").unwrap();
    let fadt_offset = facp.offset as usize;
    let fadt = &built.blob.data[fadt_offset..fadt_offset + facp.length as usize];
    let dsdt32 = u32::from_le_bytes(fadt[40..44].try_into().unwrap());
    let x_dsdt = u64::from_le_bytes(fadt[140..148].try_into().unwrap());
    assert_eq!(dsdt32, built.table_layout("DSDT").unwrap().offset);
    assert_eq!(x_dsdt, u64::from(built.table_layout("DSDT").unwrap().offset));
}

#[test]
fn compat_length_model_matches_48_and_64_vcpus() {
    let built48 = build_minimal_acpi(&PlatformConfig::intel_tdx_q35(48));
    assert_eq!(built48.table_layout("DSDT").unwrap().length, 12_159);
    assert_eq!(built48.table_layout("APIC").unwrap().length, 606);

    let built64 = build_minimal_acpi(&PlatformConfig::intel_tdx_q35(64));
    assert_eq!(built64.table_layout("DSDT").unwrap().length, 13_535);
    assert_eq!(built64.table_layout("APIC").unwrap().length, 734);
}

#[test]
fn hpet_on_matches_16_vcpu_ground_truth() {
    let mut config = PlatformConfig::intel_tdx_q35(16);
    config.has_hpet = true;
    let built = build_minimal_acpi(&config);
    assert_eq!(built.table_layout("DSDT").unwrap().length, 9_547);
    assert_eq!(built.table_layout("FACP").unwrap().offset, 9_611);
    assert_eq!(built.table_layout("APIC").unwrap().offset, 9_855);
    assert_eq!(built.table_layout("HPET").unwrap().offset, 10_205);
    assert_eq!(built.table_layout("MCFG").unwrap().offset, 10_261);
    assert_eq!(built.table_layout("WAET").unwrap().offset, 10_321);
    assert_eq!(built.table_layout("RSDT").unwrap().offset, 10_361);
    assert_eq!(built.table_layout("RSDT").unwrap().length, 56);
}

#[test]
fn pci_device_shifts_16_vcpu_ground_truth() {
    let mut config = PlatformConfig::intel_tdx_q35(16);
    config.pci_devices.push(PciDeviceConfig {
        driver: "virtio-net-pci".to_string(),
        id: Some("net0dev".to_string()),
        bus: Some("pcie.0".to_string()),
        devfn: 0x08,
    });
    let built = build_minimal_acpi(&config);
    assert_eq!(built.table_layout("DSDT").unwrap().length, 9_422);
    assert_eq!(built.table_layout("FACP").unwrap().offset, 9_486);
    assert_eq!(built.table_layout("APIC").unwrap().offset, 9_730);
    assert_eq!(built.table_layout("MCFG").unwrap().offset, 10_080);
    assert_eq!(built.table_layout("WAET").unwrap().offset, 10_140);
    assert_eq!(built.table_layout("RSDT").unwrap().offset, 10_180);
}

#[test]
fn one_vcpu_matches_ground_truth() {
    let built = build_minimal_acpi(&PlatformConfig::intel_tdx_q35(1));
    assert_eq!(built.table_layout("DSDT").unwrap().length, 8_117);
    assert_eq!(built.table_layout("FACP").unwrap().offset, 8_181);
    assert_eq!(built.table_layout("APIC").unwrap().offset, 8_425);
    assert_eq!(built.table_layout("MCFG").unwrap().offset, 8_655);
    assert_eq!(built.table_layout("WAET").unwrap().offset, 8_715);
    assert_eq!(built.table_layout("RSDT").unwrap().offset, 8_755);
}

#[test]
fn two_vcpu_matches_ground_truth() {
    let built = build_minimal_acpi(&PlatformConfig::intel_tdx_q35(2));
    assert_eq!(built.table_layout("DSDT").unwrap().length, 8_200);
    assert_eq!(built.table_layout("FACP").unwrap().offset, 8_264);
    assert_eq!(built.table_layout("APIC").unwrap().offset, 8_508);
    assert_eq!(built.table_layout("MCFG").unwrap().offset, 8_746);
    assert_eq!(built.table_layout("WAET").unwrap().offset, 8_806);
    assert_eq!(built.table_layout("RSDT").unwrap().offset, 8_846);
}

#[test]
fn every_table_sums_to_zero_and_rsdp_points_at_rsdt() {
    let mut config = PlatformConfig::intel_tdx_q35(5);
    config.has_hpet = true;
    config.blob_base_address = 0x7000_0000;
    let built = build_minimal_acpi(&config);
    for table in &built.blob.tables {
        let start = table.offset as usize;
        let bytes = &built.blob.data[start..start + table.length as usize];
        assert_eq!(bytes.iter().fold(0u8, |a, b| a.wrapping_add(*b)), 0);
        assert_eq!(&bytes[0..4], &table.signature);
    }
    assert_eq!(built.rsdp.iter().fold(0u8, |a, b| a.wrapping_add(*b)), 0);
    let rsdt_address = u32::from_le_bytes(built.rsdp[16..20].try_into().unwrap());
    assert_eq!(
        rsdt_address,
        0x7000_0000 + built.table_layout("RSDT").unwrap().offset
    );
    assert_eq!(&built.rsdp[0..8], b"RSD PTR ");
    let layout = built.table_layout("MCFG").unwrap();
    assert_eq!(layout.checksum_offset, layout.offset + 9);
    assert!(built.table_layout("XXXX").is_none());
}

#[test]
fn ordinary_platforms_fit_the_image() {
    assert!(fits_image(&PlatformConfig::intel_tdx_q35(1)));
    let mut config = PlatformConfig::intel_tdx_q35(64);
    config.has_hpet = true;
    config.compat_lengths = false;
    assert!(fits_image(&config));
}

#[test]
fn pm_registers_beyond_io_space_do_not_fit() {
    let mut config = PlatformConfig::intel_tdx_q35(2);
    config.pm_io_base = 0xfff8;
    assert!(!fits_image(&config));
    config.pm_io_base = 0xfff7;
    assert!(fits_image(&config));
}

#[test]
fn table_addresses_beyond_64_bits_do_not_fit() {
    let mut config = PlatformConfig::intel_tdx_q35(2);
    config.blob_base_address = u64::MAX - 100;
    assert!(!fits_image(&config));
    config.blob_base_address = u64::MAX - 9_000;
    assert!(fits_image(&config));
}

#[test]
fn layout_lists_tables_in_signature_order() {
    let mut config = PlatformConfig::intel_tdx_q35(4);
    config.has_hpet = true;
    let built = build_minimal_acpi(&config);
    let names: Vec<&[u8]> = built.layout.iter().map(|(sig, _)| &sig[..]).collect();
    assert_eq!(
        names,
        vec![
            &b"APIC"[..],
            &b"DSDT"[..],
            &b"FACP"[..],
            &b"HPET"[..],
            &b"MCFG"[..],
            &b"RSDT"[..],
            &b"WAET"[..]
        ]
    );
    let plain = build_minimal_acpi(&PlatformConfig::intel_tdx_q35(4));
    assert_eq!(plain.layout.len(), 6);
    assert_eq!(&plain.layout[4].0, b"RSDT");
    assert_eq!(plain.layout[4].1, plain.table_layout("RSDT").unwrap());
}
