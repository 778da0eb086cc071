use savetree::codec::{decode, encode};
use savetree::model::{Document, Error, Property, PropertyNode, WStr};

fn narrow(s: &str) -> WStr {
    WStr::Narrow(s.as_bytes().to_vec())
}

fn doc(props: Vec<Property>, tail: Vec<u8>) -> Document {
    Document { version: 7, props, tail }
}

#[test]
fn empty_document_round_trips() {
    let d = doc(vec![], vec![1, 2, 3]);
    let b = encode(&d).unwrap();
    let d2 = decode(&b).unwrap();
    assert_eq!(d2, d);
    assert_eq!(encode(&d2).unwrap(), b);
}

#[test]
fn scalars_round_trip() {
    let d = doc(
        vec![
            Property { name: narrow("a"), value: PropertyNode::Bool(true) },
            Property { name: narrow("b"), value: PropertyNode::I32(-7) },
            Property { name: narrow("c"), value: PropertyNode::U64(0xdeadbeef) },
            Property { name: narrow("d"), value: PropertyNode::Str(narrow("hello")) },
            Property { name: narrow("e"), value: PropertyNode::Guid(1, 2) },
            Property { name: narrow("f"), value: PropertyNode::I64(i64::MIN) },
        ],
        vec![],
    );
    let b = encode(&d).unwrap();
    assert_eq!(decode(&b).unwrap(), d);
}

#[test]
fn empty_struct_round_trips() {
    let d = doc(
        vec![Property {
            name: narrow("s"),
            value: PropertyNode::StructVal { ty_name: narrow("Empty"), fields: vec![] },
        }],
        vec![],
    );
    let b = encode(&d).unwrap();
    let d2 = decode(&b).unwrap();
    assert_eq!(d2, d);
    assert_eq!(encode(&d2).unwrap(), b);
}

#[test]
fn truncated_length_prefix_is_eof() {
    let d = doc(
        vec![Property { name: narrow("x"), value: PropertyNode::Str(narrow("y")) }],
        vec![],
    );
    let mut b = encode(&d).unwrap();
    // cut mid string length prefix of the first property name
    b.truncate(10);
    assert_eq!(decode(&b), Err(Error::UnexpectedEof));
}

#[test]
fn float_one_is_bit_stable() {
    let bits = 1.0f32.to_bits();
    let d = doc(
        vec![Property { name: narrow("f"), value: PropertyNode::F32Bits(bits) }],
        vec![],
    );
    let b1 = encode(&d).unwrap();
    let d2 = decode(&b1).unwrap();
    let b2 = encode(&d2).unwrap();
    assert_eq!(b1, b2);
    match &d2.props[0].value {
        PropertyNode::F32Bits(x) => assert_eq!(f32::from_bits(*x), 1.0f32),
        _ => panic!("wrong node kind"),
    }
}

#[test]
fn unknown_tag_passthrough() {
    let d = doc(
        vec![Property {
            name: narrow("mystery"),
            value: PropertyNode::Unknown { tag: narrow("FooBarType"), bytes: vec![9, 8, 7] },
        }],
        vec![4, 2],
    );
    let b = encode(&d).unwrap();
    let d2 = decode(&b).unwrap();
    assert_eq!(d2, d);
    match &d2.props[0].value {
        PropertyNode::Unknown { bytes, .. } => assert_eq!(bytes, &vec![9, 8, 7]),
        _ => panic!("wrong node kind"),
    }
}

#[test]
fn containers_keep_order() {
    let d = doc(
        vec![Property {
            name: narrow("m"),
            value: PropertyNode::MapVal {
                key_tag: narrow("Int32"),
                value_tag: narrow("Bool"),
                entries: vec![
                    (PropertyNode::I32(2), PropertyNode::Bool(true)),
                    (PropertyNode::I32(1), PropertyNode::Bool(false)),
                ],
            },
        }],
        vec![],
    );
    let b = encode(&d).unwrap();
    let d2 = decode(&b).unwrap();
    assert_eq!(d2, d);
}

#[test]
fn mismatched_element_tag_is_unsupported() {
    let d = doc(
        vec![Property {
            name: narrow("a"),
            value: PropertyNode::ArrayVal {
                elem_tag: narrow("Int32"),
                elems: vec![PropertyNode::Bool(true)],
            },
        }],
        vec![],
    );
    assert_eq!(encode(&d), Err(Error::UnsupportedValue));
}

#[test]
fn bad_magic_is_invalid() {
    let b = vec![0u8, 0, 0, 0, 0, 0, 0, 0];
    assert_eq!(decode(&b), Err(Error::InvalidEncoding));
}
