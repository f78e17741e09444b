//! The description of the virtual platform that the tables are built for.
use vstd::prelude::*;
use crate::acpi::text::str_eq;

verus! {

/// Which TPM interface the machine exposes.
#[derive(Debug, Clone, Copy, PartialEq, Eq, Structural)]
pub enum TpmKind {
    Tcpa,
    Tpm2,
}

/// Which IOMMU the machine exposes.
#[derive(Debug, Clone, Copy, PartialEq, Eq, Structural)]
pub enum IommuKind {
    Dmar,
    Ivrs,
    Viot,
}

/// Everything the table builders read about the platform.
#[derive(Debug, Clone)]
pub struct PlatformConfig {
    pub blob_base_address: u64,
    pub front_padding: u32,
    pub oem_id: [u8; 6],
    pub oem_table_id: [u8; 8],
    pub oem_revision: u32,
    pub creator_id: [u8; 4],
    pub creator_revision: u32,
    pub sci_irq: u16,
    pub pm_io_base: u16,
    pub gpe0_base: u16,
    pub gpe0_len: u8,
    pub reset_io_base: u16,
    pub reset_value: u8,
    pub local_apic_address: u32,
    pub ioapic_id: u8,
    pub ioapic_address: u32,
    pub ioapic_gsi_base: u32,
    pub pci_irq_base: u32,
    pub has_hpet: bool,
    pub has_vmgenid: bool,
    pub has_mcfg: bool,
    pub has_numa: bool,
    pub has_slit: bool,
    pub has_hmat: bool,
    pub tpm_kind: Option<TpmKind>,
    pub iommu_kind: Option<IommuKind>,
    pub nvdimm_enabled: bool,
    pub cxl_enabled: bool,
    pub pci_ecam_base: u64,
    pub pci_segment: u16,
    pub pci_bus_start: u8,
    pub pci_bus_end: u8,
    pub cpu_apic_ids: Vec<u32>,
    pub pci_root_uid: u8,
    pub pci_devices: Vec<PciDeviceConfig>,
    pub compat_lengths: bool,
}

/// A PCI device of the machine.
#[derive(Debug, Clone, PartialEq, Eq)]
pub struct PciDeviceConfig {
    pub driver: String,
    pub id: Option<String>,
    pub bus: Option<String>,
    pub devfn: u8,
}

/// Whether a device with this bus name sits on the root bus: either no bus
/// is named, or it is `pcie.0`.
pub open spec fn on_root_bus(bus: Option<String>) -> bool {
    match bus {
        None => true,
        Some(b) => b@ == "pcie.0"@,
    }
}

impl PciDeviceConfig {
    /// Whether the device sits on the root PCIe bus.
    pub fn is_root_bus_device(&self) -> (r: bool)
        ensures
            r == on_root_bus(self.bus),
    {
        match &self.bus {
            None => true,
            Some(bus) => str_eq(bus.as_str(), "pcie.0"),
        }
    }
}

/// The DSDT length that the compatibility model aims at, before the HPET
/// and PCI device terms, for `cpus` processors.
pub open spec fn dsdt_base_len(cpus: u32) -> int {
    if cpus == 1 {
        8031
    } else if cpus == 2 {
        8028
    } else if 3 <= cpus <= 16 {
        8029
    } else {
        8031
    }
}

impl PlatformConfig {
    /// The processor count as the compatibility model reads it (32 bits).
    pub open spec fn cpu_count(&self) -> u32 {
        self.cpu_apic_ids@.len() as u32
    }

    /// The PCI device count as the compatibility model reads it (32 bits).
    pub open spec fn pci_count(&self) -> u32 {
        self.pci_devices@.len() as u32
    }

    /// The total DSDT length that the compatibility model aims at.
    pub open spec fn dsdt_target(&self) -> int {
        dsdt_base_len(self.cpu_count()) + 86 * self.cpu_count() + (if self.has_hpet {
            142int
        } else {
            0int
        }) + 17 * self.pci_count()
    }

    /// The total MADT length that the compatibility model aims at.
    pub open spec fn madt_target(&self) -> int {
        222 + 8 * self.cpu_count()
    }

    /// The fields of a TDX guest on a Q35 machine with `cpu_count`
    /// processors, other than the optional features and the PCI devices.
    pub open spec fn is_tdx_q35_base(&self, cpu_count: u32) -> bool {
        &&& self.blob_base_address == 0
        &&& self.front_padding == 64
        &&& self.oem_id@ == seq![0x54u8, 0x44, 0x58, 0x4f, 0x45, 0x4d]  // "TDXOEM"
        &&& self.oem_table_id@ == seq![0x54u8, 0x44, 0x58, 0x51, 0x33, 0x35, 0x20, 0x20]  // "TDXQ35  "
        &&& self.oem_revision == 1
        &&& self.creator_id@ == seq![0x52u8, 0x55, 0x53, 0x54]  // "RUST"
        &&& self.creator_revision == 1
        &&& self.sci_irq == 9
        &&& self.pm_io_base == 0x1800
        &&& self.gpe0_base == 0xafe0
        &&& self.gpe0_len == 8
        &&& self.reset_io_base == 0x0cf9
        &&& self.reset_value == 0x06
        &&& self.local_apic_address == 0xfee0_0000
        &&& self.ioapic_id == 0
        &&& self.ioapic_address == 0xfec0_0000
        &&& self.ioapic_gsi_base == 0
        &&& self.pci_irq_base == 16
        &&& self.pci_ecam_base == 0xb000_0000
        &&& self.pci_segment == 0
        &&& self.pci_bus_start == 0
        &&& self.pci_bus_end == 0xff
        &&& self.cpu_apic_ids@ == Seq::new(cpu_count as nat, |i: int| i as u32)
        &&& self.pci_root_uid == 0
        &&& self.compat_lengths
    }

    /// The TDX guest on a Q35 machine with `cpu_count` processors whose APIC
    /// IDs are 0, 1, ..., `cpu_count - 1`, and no PCI devices besides the
    /// host bridge.
    pub fn intel_tdx_q35(cpu_count: u32) -> (c: Self)
        ensures
            c.is_tdx_q35_base(cpu_count),
            !c.has_hpet,
            !c.has_vmgenid,
            c.has_mcfg,
            !c.has_numa,
            !c.has_slit,
            !c.has_hmat,
            c.tpm_kind is None,
            c.iommu_kind is None,
            !c.nvdimm_enabled,
            !c.cxl_enabled,
            c.pci_devices@ == Seq::<PciDeviceConfig>::empty(),
    {
        let mut cpu_apic_ids: Vec<u32> = Vec::new();
        let mut i: u32 = 0;
        while i < cpu_count
            invariant
                i <= cpu_count,
                cpu_apic_ids@ == Seq::new(i as nat, |k: int| k as u32),
            decreases cpu_count - i,
        {
            cpu_apic_ids.push(i);
            i += 1;
            assert(cpu_apic_ids@ =~= Seq::new(i as nat, |k: int| k as u32));
        }
        let c = Self {
            blob_base_address: 0,
            front_padding: 64,
            oem_id: [0x54u8, 0x44, 0x58, 0x4f, 0x45, 0x4d],
            oem_table_id: [0x54u8, 0x44, 0x58, 0x51, 0x33, 0x35, 0x20, 0x20],
            oem_revision: 1,
            creator_id: [0x52u8, 0x55, 0x53, 0x54],
            creator_revision: 1,
            sci_irq: 9,
            pm_io_base: 0x1800,
            gpe0_base: 0xafe0,
            gpe0_len: 8,
            reset_io_base: 0x0cf9,
            reset_value: 0x06,
            local_apic_address: 0xfee0_0000,
            ioapic_id: 0,
            ioapic_address: 0xfec0_0000,
            ioapic_gsi_base: 0,
            pci_irq_base: 16,
            has_hpet: false,
            has_vmgenid: false,
            has_mcfg: true,
            has_numa: false,
            has_slit: false,
            has_hmat: false,
            tpm_kind: None,
            iommu_kind: None,
            nvdimm_enabled: false,
            cxl_enabled: false,
            pci_ecam_base: 0xb000_0000,
            pci_segment: 0,
            pci_bus_start: 0,
            pci_bus_end: 0xff,
            cpu_apic_ids,
            pci_root_uid: 0,
            pci_devices: Vec::new(),
            compat_lengths: true,
        };
        assert(c.oem_id@ =~= seq![0x54u8, 0x44, 0x58, 0x4f, 0x45, 0x4d]);
        assert(c.oem_table_id@ =~= seq![0x54u8, 0x44, 0x58, 0x51, 0x33, 0x35, 0x20, 0x20]);
        assert(c.creator_id@ =~= seq![0x52u8, 0x55, 0x53, 0x54]);
        c
    }

    /// The total DSDT length that the compatibility model aims at, when the
    /// model is on.
    pub fn target_dsdt_len(&self) -> (r: Option<u32>)
        requires
            self.compat_lengths ==> self.dsdt_target() <= u32::MAX,
        ensures
            r == (if self.compat_lengths {
                Some(self.dsdt_target() as u32)
            } else {
                None
            }),
    {
        if !self.compat_lengths {
            return None;
        }
        let cpus = self.cpu_apic_ids.len() as u32;
        let base: u32 = if cpus == 1 {
            8_031
        } else if cpus == 2 {
            8_028
        } else if 3 <= cpus && cpus <= 16 {
            8_029
        } else {
            8_031
        };
        let hpet_delta: u32 = if self.has_hpet {
            142
        } else {
            0
        };
        let pci_delta: u32 = 17 * (self.pci_devices.len() as u32);
        Some(base + 86 * cpus + hpet_delta + pci_delta)
    }

    /// The total MADT length that the compatibility model aims at, when the
    /// model is on.
    pub fn target_madt_len(&self) -> (r: Option<u32>)
        requires
            self.madt_target() <= u32::MAX,
        ensures
            r == (if self.compat_lengths {
                Some(self.madt_target() as u32)
            } else {
                None
            }),
    {
        let len: u32 = 222 + 8 * (self.cpu_apic_ids.len() as u32);
        if self.compat_lengths {
            Some(len)
        } else {
            None
        }
    }
}

} // verus!
