use q35_acpi::acpi::config::{PciDeviceConfig, PlatformConfig};
use q35_acpi::acpi::dsdt::build_dsdt;

#[test]
fn dsdt_contains_named_pci_device_node() {
    let mut config = PlatformConfig::intel_tdx_q35(16);
    config.pci_devices.push(PciDeviceConfig {
        driver: "virtio-net-pci".to_string(),
        id: Some("net0dev".to_string()),
        bus: Some("pcie.0".to_string()),
        devfn: 0x10,
    });
    let dsdt = build_dsdt(&config);
    assert!(dsdt.windows(4).any(|window| window == b"S10_"));
    assert!(dsdt
        .windows("net0dev".len())
        .any(|window| window == b"net0dev"));
    assert!(dsdt
        .windows("Virtio Network Device".len())
        .any(|window| window == b"Virtio Network Device"));
    assert!(dsdt.windows(4).any(|window| window == b"_UID"));
}

#[test]
fn dsdt_contains_multiple_virtio_descriptions() {
    let mut config = PlatformConfig::intel_tdx_q35(16);
    config.pci_devices.push(PciDeviceConfig {
        driver: "virtio-blk-pci".to_string(),
        id: Some("disk0dev".to_string()),
        bus: Some("pcie.0".to_string()),
        devfn: 0x18,
    });
    config.pci_devices.push(PciDeviceConfig {
        driver: "virtio-scsi-pci".to_string(),
        id: Some("scsi0dev".to_string()),
        bus: Some("pcie.0".to_string()),
        devfn: 0x20,
    });

    let dsdt = build_dsdt(&config);
    assert!(dsdt.windows(4).any(|window| window == b"S18_"));
    assert!(dsdt.windows(4).any(|window| window == b"S20_"));
    assert!(dsdt
        .windows("Virtio Block Device".len())
        .any(|window| window == b"Virtio Block Device"));
    assert!(dsdt
        .windows("Virtio SCSI Controller".len())
        .any(|window| window == b"Virtio SCSI Controller"));
    assert!(dsdt.windows(5).any(|window| window == b"block"));
    assert!(dsdt.windows(7).any(|window| window == b"storage"));
}

#[test]
fn dsdt_ignores_non_root_bus_pci_devices() {
    let mut config = PlatformConfig::intel_tdx_q35(16);
    config.pci_devices.push(PciDeviceConfig {
        driver: "virtio-net-pci".to_string(),
        id: Some("net1dev".to_string()),
        bus: Some("rp0".to_string()),
        devfn: 0x18,
    });

    let dsdt = build_dsdt(&config);
    assert!(!dsdt
        .windows("net1dev".len())
        .any(|window| window == b"net1dev"));
}

#[test]
fn dsdt_header_and_checksum() {
    let config = PlatformConfig::intel_tdx_q35(3);
    let dsdt = build_dsdt(&config);
    assert_eq!(&dsdt[0..4], b"DSDT");
    let len = u32::from_le_bytes(dsdt[4..8].try_into().unwrap()) as usize;
    assert_eq!(len, dsdt.len());
    assert_eq!(dsdt.iter().fold(0u8, |a, b| a.wrapping_add(*b)), 0);
    // The compatibility model aims at 8029 + 86 * 3 bytes for three processors.
    assert_eq!(dsdt.len(), 8_029 + 86 * 3);
}

#[test]
fn dsdt_without_compat_model_has_no_padding() {
    let mut config = PlatformConfig::intel_tdx_q35(2);
    config.compat_lengths = false;
    let dsdt = build_dsdt(&config);
    assert!(!dsdt.windows(4).any(|window| window == b"QPAD"));
    assert!(dsdt.windows(4).any(|window| window == b"C001"));
}

#[test]
fn cpu_names_have_three_digits() {
    let mut config = PlatformConfig::intel_tdx_q35(12);
    config.compat_lengths = false;
    let dsdt = build_dsdt(&config);
    assert!(dsdt.windows(4).any(|window| window == b"C000"));
    assert!(dsdt.windows(4).any(|window| window == b"C011"));
    assert!(!dsdt.windows(4).any(|window| window == b"C012"));
}
