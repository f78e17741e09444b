use q35_acpi::acpi::dsdt::aml::{encode_eisa_id, encode_integer, AmlNode, AmlValue};

#[test]
fn encodes_simple_scope() {
    let node = AmlNode::Scope {
        name: "\\_SB".to_string(),
        children: vec![AmlNode::Name {
            name: "_STA".to_string(),
            value: AmlValue::Integer(0x0f),
        }],
    };
    let mut out = Vec::new();
    node.encode(&mut out);
    assert!(!out.is_empty());
    assert_eq!(out[0], 0x10);
}

#[test]
fn scope_encoding_exact_bytes() {
    let node = AmlNode::Scope {
        name: "\\_SB".to_string(),
        children: vec![AmlNode::Name {
            name: "_STA".to_string(),
            value: AmlValue::Integer(0x0f),
        }],
    };
    let mut out = Vec::new();
    node.encode(&mut out);
    assert_eq!(
        out,
        vec![
            0x10, 0x0d, b'\\', b'_', b'S', b'B', b'_', 0x08, b'_', b'S', b'T', b'A', 0x0a, 0x0f
        ]
    );
}

#[test]
fn integers_use_the_shortest_encoding() {
    let cases: Vec<(u64, Vec<u8>)> = vec![
        (0, vec![0x00]),
        (1, vec![0x01]),
        (0x2a, vec![0x0a, 0x2a]),
        (0x1234, vec![0x0b, 0x34, 0x12]),
        (0x1234_5678, vec![0x0c, 0x78, 0x56, 0x34, 0x12]),
        (
            0x1_0000_0000,
            vec![0x0e, 0x00, 0x00, 0x00, 0x00, 0x01, 0x00, 0x00, 0x00],
        ),
    ];
    for (value, expected) in cases {
        let mut out = Vec::new();
        encode_integer(value, &mut out);
        assert_eq!(out, expected);
    }
}

#[test]
fn eisa_id_compression() {
    // Manufacturer letters in bits 31..16, product number with its bytes
    // swapped in bits 15..0.
    assert_eq!(encode_eisa_id("PNP0A03"), 0x41d0_030a);
    assert_eq!(encode_eisa_id("PNP0C0F"), 0x41d0_0f0c);
    assert_eq!(encode_eisa_id("PNP+A03"), 0x41d0_030a);
}

#[test]
fn values_encode_exactly() {
    let mut out = Vec::new();
    AmlValue::String("ab".to_string()).encode(&mut out);
    assert_eq!(out, vec![0x0d, b'a', b'b', 0x00]);

    let mut out = Vec::new();
    AmlValue::Buffer(vec![7, 8]).encode(&mut out);
    assert_eq!(out, vec![0x11, 0x05, 0x0a, 0x02, 7, 8]);

    let mut out = Vec::new();
    AmlValue::Package(vec![AmlValue::Integer(0), AmlValue::Arg(1)]).encode(&mut out);
    assert_eq!(out, vec![0x12, 0x04, 0x02, 0x00, 0x69]);

    let mut out = Vec::new();
    AmlValue::EisaId("PNP0A03").encode(&mut out);
    assert_eq!(out, vec![0x0c, 0x0a, 0x03, 0xd0, 0x41]);
}

#[test]
fn multi_segment_names_and_methods() {
    let node = AmlNode::Method {
        name: "\\_SB.PCI0.S08.ABC".to_string(),
        args: 2,
        serialized: true,
        body: vec![AmlNode::Return(AmlValue::Arg(0))],
    };
    let mut out = Vec::new();
    node.encode(&mut out);
    let mut expected = vec![0x14, 0x17, b'\\', 0x2f, 0x04];
    expected.extend_from_slice(b"_SB_PCI0S08_ABC_");
    expected.extend_from_slice(&[0x0a, 0xa4, 0x68]);
    assert_eq!(out, expected);
}
