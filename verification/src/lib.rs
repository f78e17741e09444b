//! Builds the ACPI tables of a minimal Q35-style virtual machine: the table
//! blob that firmware loads, the RSDP that points at it, and the layout of
//! every table inside the blob.
pub mod acpi;
