# q35_acpi

ACPI tables for a TDX guest on a QEMU Q35 machine, written in Verus.

The library (`src/`) builds the table blob that firmware loads: a DSDT with
the processor, PCI, HPET, interrupt-link and sleep objects, the FADT, MADT,
HPET, MCFG, WAET and RSDT tables, the RSDP that points at the RSDT, and the
layout of every table. Every table builder states the exact bytes it
produces, and proof functions state what holds of every blob: each table
sits at its recorded offset and sums to zero, the RSDT lists the tables by
address, the FADT points at the DSDT, the RSDP at the RSDT, the layout
lists the tables in signature order, and with the compatibility length model
on the MADT has its target length. The DSDT is padded towards its target
length: it has exactly that length when some padding reaches it (for a
shortfall of up to 4101 bytes: 9, 11 to 69, 71 to 265, or 267 to 4101
bytes); shortfalls of 1 to 8, 10, 70 or 266 bytes cannot be made up
exactly, and the DSDT then comes out longer than the target, never
shorter.

`src/acpi/vm.rs` holds the VM description: the QEMU command line it stands
for and the platform configuration the tables are built from, with its PCI
devices sorted (stably) by devfn.

`app/` is the command-line program: it reads a VM description from TOML,
prints the QEMU arguments and the table layout, and writes the blob and the
RSDP to disk.

Layout:

- `src/acpi/bytes.rs`, `checksum.rs`, `header.rs`, `blob.rs`, `text.rs`:
  little-endian encoding, checksums, table headers, the blob builder, text.
- `src/acpi/dsdt/aml.rs`: AML encoding (integers, package lengths, names,
  EISA IDs, terms); `src/acpi/dsdt/mod.rs`: the DSDT.
- `src/acpi/{fadt,madt,hpet,mcfg,waet,rsdt,rsdp,facs}.rs`: the other tables.
- `src/acpi/mod.rs`: the whole blob and its laws.
- `tests/`: tests of the library.
