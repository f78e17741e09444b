use q35_acpi::acpi::checksum::acpi_checksum;

#[test]
fn checksum_zeroes_sum() {
    let mut bytes = vec![1u8, 2, 3, 0];
    bytes[3] = acpi_checksum(&bytes);
    let sum = bytes.iter().fold(0u8, |acc, byte| acc.wrapping_add(*byte));
    assert_eq!(sum, 0);
}

#[test]
fn checksum_of_empty_is_zero() {
    assert_eq!(acpi_checksum(&[]), 0);
}

#[test]
fn checksum_exact_value() {
    // 0x10 + 0x20 + 0xff = 0x12f; 0x100 - 0x2f = 0xd1.
    assert_eq!(acpi_checksum(&[0x10, 0x20, 0xff]), 0xd1);
}
