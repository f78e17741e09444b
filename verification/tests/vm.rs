use q35_acpi::acpi::config::{IommuKind, TpmKind};
use q35_acpi::acpi::vm::{
    format_qemu_args, CpuSection, CpuTopology, DefaultDevices, Device, MachineProperties,
    MachineSection, MemorySection, Netdev, PlatformSection, PropValue, QemuConfig, VmConfig,
};

fn text(value: &str) -> PropValue {
    PropValue::String(value.to_string())
}

fn prop(key: &str, value: PropValue) -> (String, PropValue) {
    (key.to_string(), value)
}

fn device(driver: &str, props: Vec<(String, PropValue)>) -> Device {
    Device {
        driver: driver.to_string(),
        props,
    }
}

fn base_config(cpus: u32) -> VmConfig {
    VmConfig {
        qemu: QemuConfig {
            binary: "/usr/bin/qemu-system-x86_64".to_string(),
        },
        platform: PlatformSection {
            machine: "q35".to_string(),
            bios: "/usr/share/ovmf/OVMF.fd".to_string(),
            accel: "kvm".to_string(),
            nodefaults: false,
        },
        cpu: CpuSection {
            model: "host".to_string(),
            topology: CpuTopology { cpus },
        },
        memory: MemorySection {
            size: "2G".to_string(),
        },
        machine: MachineSection {
            properties: MachineProperties { values: Vec::new() },
        },
        defaults: DefaultDevices {
            serial: false,
            parallel: false,
            monitor: false,
            vga: false,
            floppy: false,
            cdrom: false,
        },
        netdevs: Vec::new(),
        devices: Vec::new(),
    }
}

#[test]
fn renders_machine_properties_and_devices() {
    let mut config = base_config(4);
    config.platform.nodefaults = true;
    config.machine.properties.values = vec![
        prop("hpet", PropValue::Boolean(false)),
        prop("kernel_irqchip", text("split")),
        prop("smm", PropValue::Boolean(false)),
    ];
    config.netdevs.push(Netdev {
        id: "net0".to_string(),
        kind: "user".to_string(),
    });
    config.devices.push(device(
        "virtio-net-pci",
        vec![
            prop("addr", text("0x02")),
            prop("id", text("net0dev")),
            prop("multifunction", PropValue::Boolean(false)),
            prop("netdev", text("net0")),
        ],
    ));

    let args = config.qemu_args().join(" ");
    assert!(args.contains("-machine q35,hpet=off,kernel_irqchip=split,smm=off"));
    assert!(args.contains("-serial stdio"));
    assert!(args.contains("-netdev user,id=net0"));
    assert!(
        args.contains("-device virtio-net-pci,addr=0x02,id=net0dev,multifunction=off,netdev=net0")
    );
}

#[test]
fn keeps_empty_device_properties() {
    let mut config = base_config(16);
    config.devices.push(device(
        "virtio-net-pci",
        vec![prop("netdev", text("net0")), prop("romfile", text(""))],
    ));

    let args = config.qemu_args().join(" ");
    assert!(args.contains("-device virtio-net-pci,netdev=net0,romfile="));
    assert_eq!(config.platform_config().pci_devices.len(), 1);
    let platform = config.platform_config();
    assert_eq!(platform.pci_devices[0].devfn, 0x08);
    assert_eq!(platform.pci_devices[0].driver, "virtio-net-pci");
}

#[test]
fn sorts_pci_devices_by_devfn() {
    let mut config = base_config(16);
    config
        .devices
        .push(device("virtio-net-pci", vec![prop("addr", text("0x04"))]));
    config
        .devices
        .push(device("virtio-blk-pci", vec![prop("addr", text("0x02"))]));

    let platform = config.platform_config();
    assert_eq!(platform.pci_devices[0].devfn, 0x10);
    assert_eq!(platform.pci_devices[1].devfn, 0x20);
}

#[test]
fn preserves_bus_name_in_pci_device_config() {
    let mut config = base_config(16);
    config.devices.push(device(
        "virtio-net-pci",
        vec![prop("addr", text("0x03")), prop("bus", text("rp0"))],
    ));

    let platform = config.platform_config();
    assert_eq!(platform.pci_devices.len(), 1);
    assert_eq!(platform.pci_devices[0].bus.as_deref(), Some("rp0"));
    assert!(!platform.pci_devices[0].is_root_bus_device());
}

#[test]
fn detects_optional_acpi_features() {
    let mut config = base_config(16);
    config.machine.properties.values = vec![
        prop("hmat", PropValue::Boolean(true)),
        prop("hpet", PropValue::Boolean(true)),
        prop("mcfg", PropValue::Boolean(false)),
        prop("numa", PropValue::Boolean(true)),
        prop("slit", PropValue::Boolean(true)),
    ];
    config.devices.push(device("tpm-crb", Vec::new()));
    config.devices.push(device("virtio-iommu-pci", Vec::new()));
    config.devices.push(device("nvdimm", Vec::new()));
    config.devices.push(device("cxl-type3", Vec::new()));

    let platform = config.platform_config();
    assert!(platform.has_hpet);
    assert!(!platform.has_mcfg);
    assert!(platform.has_numa);
    assert!(platform.has_slit);
    assert!(platform.has_hmat);
    assert_eq!(platform.tpm_kind, Some(TpmKind::Tpm2));
    assert_eq!(platform.iommu_kind, Some(IommuKind::Viot));
    assert!(platform.nvdimm_enabled);
    assert!(platform.cxl_enabled);
}

#[test]
fn defaults_without_machine_properties() {
    let config = base_config(2);
    let platform = config.platform_config();
    assert!(!platform.has_hpet);
    assert!(platform.has_mcfg);
    assert!(!platform.has_numa);
    assert!(!platform.has_slit);
    assert!(!platform.has_hmat);
    assert!(!platform.has_vmgenid);
    assert_eq!(platform.tpm_kind, None);
    assert_eq!(platform.iommu_kind, None);
    assert!(!platform.nvdimm_enabled);
    assert!(!platform.cxl_enabled);
    assert!(platform.pci_devices.is_empty());
    assert_eq!(platform.cpu_apic_ids, vec![0, 1]);
}

#[test]
fn slit_follows_numa_when_unset() {
    let mut config = base_config(2);
    config.machine.properties.values = vec![prop("numa", PropValue::Boolean(true))];
    let platform = config.platform_config();
    assert!(platform.has_numa);
    assert!(platform.has_slit);
}

#[test]
fn machine_properties_choose_tpm_and_iommu() {
    let mut config = base_config(2);
    config.machine.properties.values = vec![prop("iommu", text("amd")), prop("tpm", text("1.2"))];
    config.devices.push(device("tpm-crb", Vec::new()));
    config.devices.push(device("intel-iommu", Vec::new()));
    let platform = config.platform_config();
    assert_eq!(platform.tpm_kind, Some(TpmKind::Tcpa));
    assert_eq!(platform.iommu_kind, Some(IommuKind::Ivrs));
}

#[test]
fn unknown_property_text_falls_back_to_devices() {
    let mut config = base_config(2);
    config.machine.properties.values = vec![prop("iommu", text("none")), prop("tpm", text("3.0"))];
    config.devices.push(device("tpm-tis", Vec::new()));
    config.devices.push(device("intel-iommu", Vec::new()));
    config.devices.push(device("vmgenid", Vec::new()));
    let platform = config.platform_config();
    assert_eq!(platform.tpm_kind, Some(TpmKind::Tcpa));
    assert_eq!(platform.iommu_kind, Some(IommuKind::Dmar));
    assert!(platform.has_vmgenid);
}

#[test]
fn machine_property_overrides_device_scan() {
    let mut config = base_config(2);
    config.machine.properties.values = vec![
        prop("cxl", PropValue::Boolean(false)),
        prop("nvdimm", PropValue::Boolean(false)),
    ];
    config.devices.push(device("nvdimm", Vec::new()));
    config.devices.push(device("cxl-type3", Vec::new()));
    let platform = config.platform_config();
    assert!(!platform.nvdimm_enabled);
    assert!(!platform.cxl_enabled);
}

#[test]
fn pci_addresses_with_functions_and_defaults() {
    let mut config = base_config(2);
    config
        .devices
        .push(device("virtio-net-pci", vec![prop("addr", text("3.2"))]));
    config
        .devices
        .push(device("virtio-blk-pci", vec![prop("addr", text("0x1f.9"))]));
    config.devices.push(device("virtio-rng-pci", Vec::new()));
    config
        .devices
        .push(device("virtio-scsi-pci", vec![prop("addr", text("zz"))]));
    config.devices.push(device("isa-debugcon", Vec::new()));
    let platform = config.platform_config();
    let devfns: Vec<u8> = platform.pci_devices.iter().map(|d| d.devfn).collect();
    // 3.2 -> 0x1a; 0x1f.9 -> 0xf9; third PCI device -> slot 3; invalid address -> slot 4.
    assert_eq!(devfns, vec![0x18, 0x1a, 0x20, 0xf9]);
    assert_eq!(platform.pci_devices[0].driver, "virtio-rng-pci");
    assert_eq!(platform.pci_devices[1].driver, "virtio-net-pci");
}

#[test]
fn equal_devfns_keep_their_order() {
    let mut config = base_config(2);
    config.devices.push(device(
        "virtio-net-pci",
        vec![prop("addr", text("5")), prop("id", text("a"))],
    ));
    config.devices.push(device(
        "virtio-blk-pci",
        vec![prop("addr", text("0x05")), prop("id", text("b"))],
    ));
    let platform = config.platform_config();
    assert_eq!(platform.pci_devices[0].id.as_deref(), Some("a"));
    assert_eq!(platform.pci_devices[1].id.as_deref(), Some("b"));
    assert_eq!(platform.pci_devices[0].devfn, 0x28);
}

#[test]
fn full_argument_list() {
    let mut config = base_config(8);
    config.defaults.serial = true;
    config.defaults.vga = true;
    config.machine.properties.values = vec![
        prop("level", PropValue::Integer(-3)),
        prop("ratio", PropValue::Float("1.5".to_string())),
        prop("skip", PropValue::Other),
    ];
    config.devices.push(device(
        "e1000",
        vec![prop("on", PropValue::Boolean(true)), prop("x", PropValue::Other)],
    ));
    let args = config.qemu_args();
    let expected: Vec<String> = [
        "-accel",
        "kvm",
        "-m",
        "2G",
        "-smp",
        "8",
        "-cpu",
        "host",
        "-machine",
        "q35,level=-3,ratio=1.5",
        "-bios",
        "/usr/share/ovmf/OVMF.fd",
        "-device",
        "e1000,on=on",
    ]
    .iter()
    .map(|s| s.to_string())
    .collect();
    assert_eq!(args, expected);
}

#[test]
fn headless_vm_gets_nographic() {
    let config = base_config(1);
    let args = config.qemu_args();
    assert!(args.iter().any(|a| a == "-nographic"));
    assert!(!args.iter().any(|a| a == "-nodefaults"));
}

#[test]
fn formats_option_pairs_and_lone_words() {
    let args: Vec<String> = ["-accel", "kvm", "-nographic", "-serial", "stdio", "extra", "-last"]
        .iter()
        .map(|s| s.to_string())
        .collect();
    let lines = format_qemu_args(&args);
    assert_eq!(
        lines,
        vec![
            "\"-accel\" \"kvm\"".to_string(),
            "\"-nographic\"".to_string(),
            "\"-serial\" \"stdio\"".to_string(),
            "\"extra\"".to_string(),
            "\"-last\"".to_string(),
        ]
    );
}

#[test]
fn formats_empty_argument_list() {
    let args: Vec<String> = Vec::new();
    assert!(format_qemu_args(&args).is_empty());
}

#[test]
fn property_order_is_checked() {
    let mut config = base_config(2);
    assert!(config.props_in_order());
    config.machine.properties.values = vec![
        prop("hpet", PropValue::Boolean(true)),
        prop("hmat", PropValue::Boolean(true)),
    ];
    assert!(!config.props_in_order());
    config.machine.properties.values = vec![
        prop("hmat", PropValue::Boolean(true)),
        prop("hpet", PropValue::Boolean(true)),
    ];
    assert!(config.props_in_order());
    config.devices.push(device(
        "virtio-net-pci",
        vec![prop("id", text("a")), prop("id", text("b"))],
    ));
    assert!(!config.props_in_order());
    config.devices[0].props = vec![prop("addr", text("3")), prop("addrx", text("b"))];
    assert!(config.props_in_order());
}
