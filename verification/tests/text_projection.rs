use savetree::codec::encode;
use savetree::model::{Document, Error, Property, PropertyNode, WStr};
use savetree::text::{from_text, to_text};

fn narrow(s: &str) -> WStr {
    WStr::Narrow(s.as_bytes().to_vec())
}

fn hex(bytes: &[u8]) -> String {
    let mut s = String::new();
    for b in bytes {
        s.push_str(&format!("{:02x}", b));
    }
    s
}

#[test]
fn text_round_trip_mixed_document() {
    let d = Document {
        version: 3,
        props: vec![
            Property { name: narrow("flag"), value: PropertyNode::Bool(true) },
            Property { name: narrow("num"), value: PropertyNode::I32(-5) },
            Property { name: narrow("txt"), value: PropertyNode::Str(narrow("hi")) },
            Property {
                name: narrow("s"),
                value: PropertyNode::StructVal {
                    ty_name: narrow("Pair"),
                    fields: vec![
                        Property { name: narrow("x"), value: PropertyNode::U16(9) },
                        Property { name: narrow("y"), value: PropertyNode::F64Bits(1.5f64.to_bits()) },
                    ],
                },
            },
            Property {
                name: narrow("wide"),
                value: PropertyNode::Str(WStr::Wide(vec![0x263a, 0x263b])),
            },
        ],
        tail: vec![0xfe, 0xff],
    };
    let t = to_text(&d).unwrap();
    let d2 = from_text(&t).unwrap();
    assert_eq!(d2, d);
}

#[test]
fn text_keeps_field_order() {
    let d = Document {
        version: 0,
        props: vec![
            Property { name: narrow("b"), value: PropertyNode::U8(2) },
            Property { name: narrow("a"), value: PropertyNode::U8(1) },
        ],
        tail: vec![],
    };
    let t = to_text(&d).unwrap();
    let d2 = from_text(&t).unwrap();
    assert_eq!(d2.props[0].name, narrow("b"));
    assert_eq!(d2.props[1].name, narrow("a"));
}

#[test]
fn text_unknown_node_bytes_bit_identical() {
    let d = Document {
        version: 1,
        props: vec![Property {
            name: narrow("u"),
            value: PropertyNode::Unknown { tag: narrow("Mystery"), bytes: vec![0, 255, 7] },
        }],
        tail: vec![],
    };
    let t = to_text(&d).unwrap();
    let d2 = from_text(&t).unwrap();
    match &d2.props[0].value {
        PropertyNode::Unknown { bytes, .. } => assert_eq!(bytes, &vec![0, 255, 7]),
        _ => panic!("wrong node kind"),
    }
    assert_eq!(d2, d);
}

#[test]
fn unregistered_tag_parses_to_unknown() {
    // A hand-written node text whose tag is the unregistered "FooBarType":
    // it must parse, to an Unknown node, rather than fail.
    let text = format!(
        "SAVT00000000.Pn{}.Tn{}.({}.)!.",
        hex(b"mystery"),
        hex(b"FooBarType"),
        // opaque payload: 32-bit length 2, bytes [0xab, 0xcd]
        hex(&[2, 0, 0, 0, 0xab, 0xcd]),
    );
    let d = from_text(&text.into_bytes()).unwrap();
    assert_eq!(d.props.len(), 1);
    match &d.props[0].value {
        PropertyNode::Unknown { tag, bytes } => {
            assert_eq!(tag, &narrow("FooBarType"));
            assert_eq!(bytes, &vec![0xab, 0xcd]);
        },
        _ => panic!("expected an unknown node"),
    }
    // and it re-encodes to binary without loss
    let b = encode(&d).unwrap();
    let d2 = savetree::codec::decode(&b).unwrap();
    assert_eq!(d2, d);
}

#[test]
fn malformed_text_is_rejected() {
    assert_eq!(from_text(&b"not a document".to_vec()), Err(Error::MalformedText));
    assert_eq!(from_text(&b"SAVT00000000.!".to_vec()), Err(Error::MalformedText)); // missing tail blob
    assert_eq!(from_text(&b"SAVT0g.!..".to_vec()), Err(Error::MalformedText)); // bad hex digit
}

#[test]
fn float_survives_text_cycle_bit_exactly() {
    let bits = 1.0f32.to_bits();
    let d = Document {
        version: 0,
        props: vec![Property { name: narrow("f"), value: PropertyNode::F32Bits(bits) }],
        tail: vec![],
    };
    let t1 = to_text(&d).unwrap();
    let d2 = from_text(&t1).unwrap();
    let t2 = to_text(&d2).unwrap();
    assert_eq!(t1, t2);
    match &d2.props[0].value {
        PropertyNode::F32Bits(x) => assert_eq!(f32::from_bits(*x), 1.0f32),
        _ => panic!("wrong node kind"),
    }
}
