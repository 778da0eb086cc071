//! The text projection: a reversible, structured rendering of the property
//! tree as ASCII bytes, independent of the binary wire format.
//!
//! Every node is written as `T<tag>(<inner>)`, where `<tag>` is the node's
//! explicit type tag — `n` or `w` for the narrow or wide string form,
//! followed by the tag's units in lowercase hex, closed by `.`. Scalar and
//! opaque payloads render as a hex blob of their byte-exact binary payload,
//! so numbers (floats included) round-trip bit-exactly and unknown-type
//! payloads are preserved verbatim; containers render their children as
//! nested node texts, each introduced by `P` (a named field, name first) or
//! `E` (an element), with `!` closing every child list. A document is
//! `SAVT`, the version as a hex blob, the top-level fields, then the opaque
//! tail as a final hex blob.
//!
//! `parse_text` is the exact reference for `from_text`: every structural
//! fault — a stray byte, an odd hex digit count, a missing terminator,
//! trailing input — is `MalformedText`, and an unregistered type tag is not
//! a fault: it parses to an `Unknown` node, so no data is ever lost.

use vstd::prelude::*;

use crate::dec::dec_node;
use crate::dec::u16s_of;
use crate::enc::enc_node;
use crate::enc::le16_seq;
use crate::enc::lemma_le16_seq_len;
use crate::enc::sizes_ok;
use crate::enc::sizes_ok_entries;
use crate::enc::sizes_ok_nodes;
use crate::enc::sizes_ok_prop;
use crate::enc::sizes_ok_props;
use crate::enc::valid_doc;
use crate::model::DocV;
use crate::model::Property;
use crate::model::PropertyNode;
use crate::model::WStr;
use crate::model::Error;
use crate::model::NodeV;
use crate::model::PropV;
use crate::model::TagKind;
use crate::model::WStrV;
use crate::model::kind_of;
use crate::model::lemma_resolve_tag_of;
use crate::model::resolve_spec;
use crate::model::tag_of;
use crate::model::wf_node;
use crate::model::wf_elems;
use crate::model::wf_entries;
use crate::model::wf_prop;
use crate::model::wf_props;
use crate::model::wstr_ok;
use crate::num::le_bytes;
use crate::num::le_val;
use crate::num::lemma_le_bytes_len;
use crate::num::lemma_le_val_of_le_bytes;
use crate::roundtrip::lemma_enc_dec_node;
use crate::roundtrip::lemma_enc_node_len_pos;
use crate::roundtrip::lemma_pow_vals;
use crate::roundtrip::lemma_slice_split;
use crate::roundtrip::lemma_u16s_of_le16;

verus! {

/// The lowercase hex digit of a nibble.
pub open spec fn hex_digit(x: nat) -> u8
    recommends
        x < 16,
{
    if x < 10 {
        (48 + x) as u8
    } else {
        (87 + x) as u8
    }
}

pub open spec fn is_hex(c: u8) -> bool {
    (48 <= c <= 57) || (97 <= c <= 102)
}

/// The nibble of a lowercase hex digit.
pub open spec fn hex_val(c: u8) -> nat
    recommends
        is_hex(c),
{
    if 48 <= c <= 57 {
        (c - 48) as nat
    } else {
        (c - 87) as nat
    }
}

/// Bytes as lowercase hex digit pairs.
pub open spec fn hex_of(bs: Seq<u8>) -> Seq<u8>
    decreases bs.len(),
{
    if bs.len() == 0 {
        Seq::empty()
    } else {
        seq![hex_digit(bs[0] as nat / 16), hex_digit(bs[0] as nat % 16)] + hex_of(
            bs.subrange(1, bs.len() as int),
        )
    }
}

/// A hex blob: the bytes in hex, closed by `.`.
pub open spec fn blob(bs: Seq<u8>) -> Seq<u8> {
    hex_of(bs) + seq![46u8]
}

/// A wire string in text: its form marker, then its units as a hex blob
/// (wide units flattened to little-endian byte pairs).
pub open spec fn wtext(s: WStrV) -> Seq<u8> {
    match s {
        WStrV::Narrow(bs) => seq![110u8] + blob(bs),
        WStrV::Wide(u) => seq![119u8] + blob(le16_seq(u)),
    }
}

/// A node in text: `T`, its tag, then its body in parentheses.
pub open spec fn text_node(n: NodeV) -> Seq<u8>
    decreases n, 1int,
{
    seq![84u8] + wtext(tag_of(n)) + seq![40u8] + text_inner(n) + seq![41u8]
}

/// A node's body: nested structure for containers, the hex of the binary
/// payload for scalars and opaque nodes.
pub open spec fn text_inner(n: NodeV) -> Seq<u8>
    decreases n, 0int,
{
    match n {
        NodeV::StructVal { ty_name, fields } => wtext(ty_name) + tprops_text(fields),
        NodeV::ArrayVal { elem_tag, elems } => wtext(elem_tag) + telems_text(elems),
        NodeV::MapVal { key_tag, value_tag, entries } => wtext(key_tag) + wtext(value_tag)
            + tentries_text(entries),
        NodeV::SetVal { elem_tag, elems } => wtext(elem_tag) + telems_text(elems),
        NodeV::EnumVal { ty_name, variant } => wtext(ty_name) + wtext(variant),
        _ => blob(enc_node(n)),
    }
}

/// Named fields, each introduced by `P`, closed by `!`.
pub open spec fn tprops_text(s: Seq<PropV>) -> Seq<u8>
    decreases s, 0int,
{
    if s.len() == 0 {
        seq![33u8]
    } else {
        seq![80u8] + wtext(s[0].name) + text_node(s[0].value) + tprops_text(
            s.subrange(1, s.len() as int),
        )
    }
}

/// Elements, each introduced by `E`, closed by `!`.
pub open spec fn telems_text(s: Seq<NodeV>) -> Seq<u8>
    decreases s, 0int,
{
    if s.len() == 0 {
        seq![33u8]
    } else {
        seq![69u8] + text_node(s[0]) + telems_text(s.subrange(1, s.len() as int))
    }
}

/// Key/value pairs, each introduced by `E`, closed by `!`.
pub open spec fn tentries_text(s: Seq<(NodeV, NodeV)>) -> Seq<u8>
    decreases s, 0int,
{
    if s.len() == 0 {
        seq![33u8]
    } else {
        seq![69u8] + text_node(s[0].0) + text_node(s[0].1) + tentries_text(
            s.subrange(1, s.len() as int),
        )
    }
}

/// A whole document in text: header, version blob, fields, tail blob.
pub open spec fn text_of(d: DocV) -> Seq<u8> {
    seq![83u8, 65u8, 86u8, 84u8] + blob(le_bytes(d.version as nat, 4)) + tprops_text(d.props)
        + blob(d.tail)
}

/// Parses one hex blob.
pub open spec fn parse_blob(t: Seq<u8>, pos: int) -> Result<(Seq<u8>, int), Error>
    decreases t.len() - pos,
{
    if !(0 <= pos < t.len()) {
        Err(Error::MalformedText)
    } else if t[pos] == 46u8 {
        Ok((Seq::empty(), pos + 1))
    } else if pos + 2 <= t.len() && is_hex(t[pos]) && is_hex(t[pos + 1]) {
        match parse_blob(t, pos + 2) {
            Err(e) => Err(e),
            Ok((rest, p)) => Ok(
                (seq![(hex_val(t[pos]) * 16 + hex_val(t[pos + 1])) as u8] + rest, p),
            ),
        }
    } else {
        Err(Error::MalformedText)
    }
}

/// Parses one wire string in text form.
pub open spec fn parse_wtext(t: Seq<u8>, pos: int) -> Result<(WStrV, int), Error> {
    if !(0 <= pos < t.len()) {
        Err(Error::MalformedText)
    } else if t[pos] == 110u8 {
        match parse_blob(t, pos + 1) {
            Err(e) => Err(e),
            Ok((bs, p)) => Ok((WStrV::Narrow(bs), p)),
        }
    } else if t[pos] == 119u8 {
        match parse_blob(t, pos + 1) {
            Err(e) => Err(e),
            Ok((bs, p)) => {
                if bs.len() % 2 == 0 {
                    Ok((WStrV::Wide(u16s_of(bs)), p))
                } else {
                    Err(Error::MalformedText)
                }
            },
        }
    } else {
        Err(Error::MalformedText)
    }
}

/// Parses one node text. An unregistered tag is dispatched to the opaque
/// handler, so it yields an `Unknown` node rather than a failure.
pub open spec fn parse_node(t: Seq<u8>, pos: int) -> Result<(NodeV, int), Error>
    decreases t.len() - pos,
{
    if !(0 <= pos < t.len() && t[pos] == 84u8) {
        Err(Error::MalformedText)
    } else {
        match parse_wtext(t, pos + 1) {
            Err(e) => Err(e),
            Ok((tag, p1)) => {
                if !(pos < p1 && p1 < t.len() && t[p1] == 40u8) {
                    Err(Error::MalformedText)
                } else {
                    let p2 = p1 + 1;
                    match resolve_spec(tag) {
                        TagKind::StructT => match parse_wtext(t, p2) {
                            Err(e) => Err(e),
                            Ok((tn, p3)) => {
                                if !(pos < p3 <= t.len()) {
                                    Err(Error::MalformedText)
                                } else {
                                    match parse_tprops(t, p3) {
                                        Err(e) => Err(e),
                                        Ok((fs, p4)) => close_node(
                                            t,
                                            p4,
                                            NodeV::StructVal { ty_name: tn, fields: fs },
                                        ),
                                    }
                                }
                            },
                        },
                        TagKind::ArrayT => match parse_wtext(t, p2) {
                            Err(e) => Err(e),
                            Ok((et, p3)) => {
                                if !(pos < p3 <= t.len()) {
                                    Err(Error::MalformedText)
                                } else {
                                    match parse_telems(t, p3) {
                                        Err(e) => Err(e),
                                        Ok((es, p4)) => close_node(
                                            t,
                                            p4,
                                            NodeV::ArrayVal { elem_tag: et, elems: es },
                                        ),
                                    }
                                }
                            },
                        },
                        TagKind::MapT => match parse_wtext(t, p2) {
                            Err(e) => Err(e),
                            Ok((kt, p3)) => match parse_wtext(t, p3) {
                                Err(e) => Err(e),
                                Ok((vt, p4)) => {
                                    if !(pos < p4 <= t.len()) {
                                        Err(Error::MalformedText)
                                    } else {
                                        match parse_tentries(t, p4) {
                                            Err(e) => Err(e),
                                            Ok((en, p5)) => close_node(
                                                t,
                                                p5,
                                                NodeV::MapVal {
                                                    key_tag: kt,
                                                    value_tag: vt,
                                                    entries: en,
                                                },
                                            ),
                                        }
                                    }
                                },
                            },
                        },
                        TagKind::SetT => match parse_wtext(t, p2) {
                            Err(e) => Err(e),
                            Ok((et, p3)) => {
                                if !(pos < p3 <= t.len()) {
                                    Err(Error::MalformedText)
                                } else {
                                    match parse_telems(t, p3) {
                                        Err(e) => Err(e),
                                        Ok((es, p4)) => close_node(
                                            t,
                                            p4,
                                            NodeV::SetVal { elem_tag: et, elems: es },
                                        ),
                                    }
                                }
                            },
                        },
                        TagKind::EnumT => match parse_wtext(t, p2) {
                            Err(e) => Err(e),
                            Ok((tn, p3)) => match parse_wtext(t, p3) {
                                Err(e) => Err(e),
                                Ok((vn, p4)) => close_node(
                                    t,
                                    p4,
                                    NodeV::EnumVal { ty_name: tn, variant: vn },
                                ),
                            },
                        },
                        _ => match parse_blob(t, p2) {
                            Err(e) => Err(e),
                            Ok((bs, p3)) => match dec_node(bs, tag, 0) {
                                Err(_) => Err(Error::MalformedText),
                                Ok((v, q)) => {
                                    if q == bs.len() {
                                        close_node(t, p3, v)
                                    } else {
                                        Err(Error::MalformedText)
                                    }
                                },
                            },
                        },
                    }
                }
            },
        }
    }
}

/// Expects the closing parenthesis of a node text.
pub open spec fn close_node(t: Seq<u8>, pos: int, v: NodeV) -> Result<(NodeV, int), Error> {
    if 0 <= pos < t.len() && t[pos] == 41u8 {
        Ok((v, pos + 1))
    } else {
        Err(Error::MalformedText)
    }
}

/// Parses fields up to and including the closing `!`.
pub open spec fn parse_tprops(t: Seq<u8>, pos: int) -> Result<(Seq<PropV>, int), Error>
    decreases t.len() - pos,
{
    if !(0 <= pos < t.len()) {
        Err(Error::MalformedText)
    } else if t[pos] == 33u8 {
        Ok((Seq::empty(), pos + 1))
    } else if t[pos] == 80u8 {
        match parse_wtext(t, pos + 1) {
            Err(e) => Err(e),
            Ok((nm, p1)) => {
                if !(pos < p1 <= t.len()) {
                    Err(Error::MalformedText)
                } else {
                    match parse_node(t, p1) {
                        Err(e) => Err(e),
                        Ok((v, p2)) => {
                            if !(pos < p2 <= t.len()) {
                                Err(Error::MalformedText)
                            } else {
                                match parse_tprops(t, p2) {
                                    Err(e) => Err(e),
                                    Ok((rest, p3)) => Ok(
                                        (seq![PropV { name: nm, value: v }] + rest, p3),
                                    ),
                                }
                            }
                        },
                    }
                }
            },
        }
    } else {
        Err(Error::MalformedText)
    }
}

/// Parses elements up to and including the closing `!`.
pub open spec fn parse_telems(t: Seq<u8>, pos: int) -> Result<(Seq<NodeV>, int), Error>
    decreases t.len() - pos,
{
    if !(0 <= pos < t.len()) {
        Err(Error::MalformedText)
    } else if t[pos] == 33u8 {
        Ok((Seq::empty(), pos + 1))
    } else if t[pos] == 69u8 {
        match parse_node(t, pos + 1) {
            Err(e) => Err(e),
            Ok((v, p1)) => {
                if !(pos < p1 <= t.len()) {
                    Err(Error::MalformedText)
                } else {
                    match parse_telems(t, p1) {
                        Err(e) => Err(e),
                        Ok((rest, p2)) => Ok((seq![v] + rest, p2)),
                    }
                }
            },
        }
    } else {
        Err(Error::MalformedText)
    }
}

/// Parses key/value pairs up to and including the closing `!`.
pub open spec fn parse_tentries(t: Seq<u8>, pos: int) -> Result<(Seq<(NodeV, NodeV)>, int), Error>
    decreases t.len() - pos,
{
    if !(0 <= pos < t.len()) {
        Err(Error::MalformedText)
    } else if t[pos] == 33u8 {
        Ok((Seq::empty(), pos + 1))
    } else if t[pos] == 69u8 {
        match parse_node(t, pos + 1) {
            Err(e) => Err(e),
            Ok((k, p1)) => {
                if !(pos < p1 <= t.len()) {
                    Err(Error::MalformedText)
                } else {
                    match parse_node(t, p1) {
                        Err(e) => Err(e),
                        Ok((v, p2)) => {
                            if !(pos < p2 <= t.len()) {
                                Err(Error::MalformedText)
                            } else {
                                match parse_tentries(t, p2) {
                                    Err(e) => Err(e),
                                    Ok((rest, p3)) => Ok((seq![(k, v)] + rest, p3)),
                                }
                            }
                        },
                    }
                }
            },
        }
    } else {
        Err(Error::MalformedText)
    }
}

/// Parses a whole text document; the input must be consumed exactly.
pub open spec fn parse_text(t: Seq<u8>) -> Result<DocV, Error> {
    if !(t.len() >= 4 && t[0] == 83u8 && t[1] == 65u8 && t[2] == 86u8 && t[3] == 84u8) {
        Err(Error::MalformedText)
    } else {
        match parse_blob(t, 4) {
            Err(e) => Err(e),
            Ok((vb, p)) => {
                if vb.len() != 4 {
                    Err(Error::MalformedText)
                } else {
                    match parse_tprops(t, p) {
                        Err(e) => Err(e),
                        Ok((props, p2)) => match parse_blob(t, p2) {
                            Err(e) => Err(e),
                            Ok((tail, p3)) => {
                                if p3 == t.len() {
                                    Ok(
                                        DocV {
                                            version: le_val(vb) as u32,
                                            props,
                                            tail,
                                        },
                                    )
                                } else {
                                    Err(Error::MalformedText)
                                }
                            },
                        },
                    }
                }
            },
        }
    }
}

/// Hex digits of nibbles are hex characters, are not the terminator, and
/// carry their nibble back.
pub proof fn lemma_hex_digit(y: nat)
    requires
        y < 16,
    ensures
        is_hex(hex_digit(y)),
        hex_digit(y) != 46u8,
        hex_val(hex_digit(y)) == y,
{
}

pub proof fn lemma_hex_of_len(bs: Seq<u8>)
    ensures
        hex_of(bs).len() == 2 * bs.len(),
    decreases bs.len(),
{
    if bs.len() > 0 {
        lemma_hex_of_len(bs.subrange(1, bs.len() as int));
    }
}

pub proof fn lemma_blob_len(bs: Seq<u8>)
    ensures
        blob(bs).len() == 2 * bs.len() + 1,
{
    lemma_hex_of_len(bs);
}

pub proof fn lemma_wtext_len(ws: WStrV)
    ensures
        wtext(ws).len() == match ws {
            WStrV::Narrow(bs) => 2 + 2 * bs.len(),
            WStrV::Wide(u) => 2 + 4 * u.len(),
        },
{
    match ws {
        WStrV::Narrow(bs) => {
            lemma_blob_len(bs);
        },
        WStrV::Wide(u) => {
            lemma_le16_seq_len(u);
            lemma_blob_len(le16_seq(u));
        },
    }
}

/// A rendered hex blob parses back to its bytes.
pub proof fn lemma_parse_blob_of(bs: Seq<u8>, t: Seq<u8>, pos: int)
    requires
        0 <= pos,
        pos + blob(bs).len() <= t.len(),
        t.subrange(pos, pos + blob(bs).len()) =~= blob(bs),
    ensures
        parse_blob(t, pos) == Ok::<(Seq<u8>, int), Error>((bs, pos + blob(bs).len())),
    decreases bs.len(),
{
    lemma_blob_len(bs);
    if bs.len() == 0 {
        assert(blob(bs) =~= seq![46u8]);
        assert(t[pos] == 46u8) by {
            assert(t.subrange(pos, pos + blob(bs).len() as int)[0] == 46u8);
        }
        assert(bs =~= Seq::<u8>::empty());
    } else {
        let rest = bs.subrange(1, bs.len() as int);
        lemma_hex_digit(bs[0] as nat / 16);
        lemma_hex_digit(bs[0] as nat % 16);
        let d1 = hex_digit(bs[0] as nat / 16);
        let d2 = hex_digit(bs[0] as nat % 16);
        assert(blob(bs) =~= seq![d1, d2] + blob(rest));
        lemma_slice_split(t, pos, seq![d1, d2], blob(rest));
        assert(t[pos] == d1 && t[pos + 1] == d2) by {
            assert(t.subrange(pos, pos + 2)[0] == d1);
            assert(t.subrange(pos, pos + 2)[1] == d2);
        }
        lemma_parse_blob_of(rest, t, pos + 2);
        assert(hex_val(d1) * 16 + hex_val(d2) == bs[0]) by {
            assert(bs[0] as nat / 16 * 16 + bs[0] as nat % 16 == bs[0] as nat) by (nonlinear_arith);
        }
        assert(seq![bs[0]] + rest =~= bs);
        assert(t[pos] != 46u8);
    }
}

/// A rendered wire string parses back to itself.
pub proof fn lemma_parse_wtext_of(ws: WStrV, t: Seq<u8>, pos: int)
    requires
        0 <= pos,
        pos + wtext(ws).len() <= t.len(),
        t.subrange(pos, pos + wtext(ws).len()) =~= wtext(ws),
    ensures
        parse_wtext(t, pos) == Ok::<(WStrV, int), Error>((ws, pos + wtext(ws).len())),
{
    match ws {
        WStrV::Narrow(bs) => {
            assert(wtext(ws) =~= seq![110u8] + blob(bs));
            lemma_slice_split(t, pos, seq![110u8], blob(bs));
            assert(t[pos] == 110u8) by {
                assert(t.subrange(pos, pos + 1)[0] == 110u8);
            }
            lemma_parse_blob_of(bs, t, pos + 1);
        },
        WStrV::Wide(u) => {
            assert(wtext(ws) =~= seq![119u8] + blob(le16_seq(u)));
            lemma_slice_split(t, pos, seq![119u8], blob(le16_seq(u)));
            assert(t[pos] == 119u8) by {
                assert(t.subrange(pos, pos + 1)[0] == 119u8);
            }
            assert(t[pos] != 110u8);
            lemma_parse_blob_of(le16_seq(u), t, pos + 1);
            lemma_le16_seq_len(u);
            lemma_u16s_of_le16(u);
            assert(WStrV::Wide(u16s_of(le16_seq(u))) == ws);
        },
    }
}

/// A rendered node parses back to itself; the container cases stand in
/// their own lemmas below.
#[verifier::rlimit(100)]
#[verifier::spinoff_prover]
pub proof fn lemma_parse_node_of(n: NodeV, t: Seq<u8>, pos: int)
    requires
        wf_node(n),
        sizes_ok(n),
        0 <= pos,
        pos + text_node(n).len() <= t.len(),
        t.subrange(pos, pos + text_node(n).len()) =~= text_node(n),
    ensures
        parse_node(t, pos) == Ok::<(NodeV, int), Error>((n, pos + text_node(n).len())),
    decreases n, 2int,
{
    match n {
        NodeV::StructVal { .. } => {
            lemma_parse_node_of_struct(n, t, pos);
        },
        NodeV::ArrayVal { .. } => {
            lemma_parse_node_of_array(n, t, pos);
        },
        NodeV::MapVal { .. } => {
            lemma_parse_node_of_map(n, t, pos);
        },
        NodeV::SetVal { .. } => {
            lemma_parse_node_of_set(n, t, pos);
        },
        NodeV::EnumVal { ty_name: tn, variant: vn } => {
            lemma_node_head(n, t, pos);
            let tg = tag_of(n);
            lemma_wtext_len(tg);
            lemma_wtext_len(tn);
            lemma_wtext_len(vn);
            let p2 = pos + 2 + wtext(tg).len();
            lemma_inner_slice(n, t, pos);
            assert(text_inner(n) =~= wtext(tn) + wtext(vn));
            lemma_slice_split(t, p2, wtext(tn), wtext(vn));
            lemma_parse_wtext_of(tn, t, p2);
            lemma_parse_wtext_of(vn, t, p2 + wtext(tn).len());
            lemma_resolve_tag_of(n);
            lemma_close_byte(n, t, pos);
        },
        _ => {
            lemma_node_head(n, t, pos);
            let tg = tag_of(n);
            lemma_wtext_len(tg);
            let p2 = pos + 2 + wtext(tg).len();
            lemma_inner_slice(n, t, pos);
            assert(text_inner(n) =~= blob(enc_node(n)));
            lemma_parse_blob_of(enc_node(n), t, p2);
            lemma_resolve_tag_of(n);
            let bs = enc_node(n);
            assert(bs.subrange(0, bs.len() as int) =~= bs);
            lemma_enc_dec_node(n, bs, 0);
            lemma_blob_len(bs);
            assert(t[p2 + blob(bs).len()] == 41u8) by {
                lemma_close_byte(n, t, pos);
            }
        },
    }
}

/// The opening marker, tag, and parenthesis of a rendered node are in place.
pub proof fn lemma_node_head(n: NodeV, t: Seq<u8>, pos: int)
    requires
        0 <= pos,
        pos + text_node(n).len() <= t.len(),
        t.subrange(pos, pos + text_node(n).len()) =~= text_node(n),
    ensures
        t[pos] == 84u8,
        parse_wtext(t, pos + 1) == Ok::<(WStrV, int), Error>(
            (tag_of(n), pos + 1 + wtext(tag_of(n)).len()),
        ),
        t[pos + 1 + wtext(tag_of(n)).len()] == 40u8,
        pos + 2 + wtext(tag_of(n)).len() + text_inner(n).len() + 1 == pos + text_node(n).len(),
{
    let tg = tag_of(n);
    lemma_wtext_len(tg);
    assert(text_node(n) =~= ((seq![84u8] + wtext(tg)) + seq![40u8]) + (text_inner(n) + seq![
        41u8,
    ]));
    lemma_slice_split(t, pos, (seq![84u8] + wtext(tg)) + seq![40u8], text_inner(n) + seq![41u8]);
    lemma_slice_split(t, pos, seq![84u8] + wtext(tg), seq![40u8]);
    lemma_slice_split(t, pos, seq![84u8], wtext(tg));
    assert(t[pos] == 84u8) by {
        assert(t.subrange(pos, pos + 1)[0] == 84u8);
    }
    assert(t[pos + 1 + wtext(tg).len()] == 40u8) by {
        assert(t.subrange(pos + 1 + wtext(tg).len(), pos + 2 + wtext(tg).len())[0] == 40u8);
    }
    lemma_parse_wtext_of(tg, t, pos + 1);
}

/// The body of a rendered node sits right after its opening parenthesis.
pub proof fn lemma_inner_slice(n: NodeV, t: Seq<u8>, pos: int)
    requires
        0 <= pos,
        pos + text_node(n).len() <= t.len(),
        t.subrange(pos, pos + text_node(n).len()) =~= text_node(n),
    ensures
        ({
            let p2 = pos + 2 + wtext(tag_of(n)).len();
            &&& t.subrange(p2, p2 + text_inner(n).len()) =~= text_inner(n)
            &&& p2 + text_inner(n).len() + 1 <= t.len()
        }),
{
    let tg = tag_of(n);
    lemma_wtext_len(tg);
    let p2 = pos + 2 + wtext(tg).len();
    assert(text_node(n) =~= ((seq![84u8] + wtext(tg)) + seq![40u8]) + (text_inner(n) + seq![
        41u8,
    ]));
    lemma_slice_split(t, pos, (seq![84u8] + wtext(tg)) + seq![40u8], text_inner(n) + seq![41u8]);
    lemma_slice_split(t, p2, text_inner(n), seq![41u8]);
}

/// The closing parenthesis of a rendered node is in place.
pub proof fn lemma_close_byte(n: NodeV, t: Seq<u8>, pos: int)
    requires
        0 <= pos,
        pos + text_node(n).len() <= t.len(),
        t.subrange(pos, pos + text_node(n).len()) =~= text_node(n),
    ensures
        t[pos + text_node(n).len() - 1] == 41u8,
        pos + 2 + wtext(tag_of(n)).len() + text_inner(n).len() == pos + text_node(n).len() - 1,
{
    let tg = tag_of(n);
    lemma_wtext_len(tg);
    assert(t.subrange(pos, pos + text_node(n).len())[text_node(n).len() - 1] == text_node(
        n,
    )[text_node(n).len() - 1]);
    assert(text_node(n)[text_node(n).len() - 1] == 41u8);
}

/// The struct case of [`lemma_parse_node_of`].
#[verifier::rlimit(100)]
#[verifier::spinoff_prover]
pub proof fn lemma_parse_node_of_struct(n: NodeV, t: Seq<u8>, pos: int)
    requires
        wf_node(n),
        sizes_ok(n),
        n is StructVal,
        0 <= pos,
        pos + text_node(n).len() <= t.len(),
        t.subrange(pos, pos + text_node(n).len()) =~= text_node(n),
    ensures
        parse_node(t, pos) == Ok::<(NodeV, int), Error>((n, pos + text_node(n).len())),
    decreases n, 1int,
{
    match n {
        NodeV::StructVal { ty_name: tn, fields: fs } => {
            lemma_node_head(n, t, pos);
            lemma_inner_slice(n, t, pos);
            lemma_resolve_tag_of(n);
            let tg = tag_of(n);
            lemma_wtext_len(tg);
            lemma_wtext_len(tn);
            let p2 = pos + 2 + wtext(tg).len();
            assert(text_inner(n) =~= wtext(tn) + tprops_text(fs));
            lemma_slice_split(t, p2, wtext(tn), tprops_text(fs));
            lemma_parse_wtext_of(tn, t, p2);
            lemma_parse_tprops_of(fs, t, p2 + wtext(tn).len());
            lemma_close_byte(n, t, pos);
        },
        _ => {
            assert(false);
        },
    }
}

/// The array case of [`lemma_parse_node_of`].
#[verifier::rlimit(100)]
#[verifier::spinoff_prover]
pub proof fn lemma_parse_node_of_array(n: NodeV, t: Seq<u8>, pos: int)
    requires
        wf_node(n),
        sizes_ok(n),
        n is ArrayVal,
        0 <= pos,
        pos + text_node(n).len() <= t.len(),
        t.subrange(pos, pos + text_node(n).len()) =~= text_node(n),
    ensures
        parse_node(t, pos) == Ok::<(NodeV, int), Error>((n, pos + text_node(n).len())),
    decreases n, 1int,
{
    match n {
        NodeV::ArrayVal { elem_tag: et, elems: es } => {
            lemma_node_head(n, t, pos);
            lemma_inner_slice(n, t, pos);
            lemma_resolve_tag_of(n);
            let tg = tag_of(n);
            lemma_wtext_len(tg);
            lemma_wtext_len(et);
            let p2 = pos + 2 + wtext(tg).len();
            assert(text_inner(n) =~= wtext(et) + telems_text(es));
            lemma_slice_split(t, p2, wtext(et), telems_text(es));
            lemma_parse_wtext_of(et, t, p2);
            lemma_parse_telems_of(et, es, t, p2 + wtext(et).len());
            lemma_close_byte(n, t, pos);
        },
        _ => {
            assert(false);
        },
    }
}

/// The map case of [`lemma_parse_node_of`].
#[verifier::rlimit(100)]
#[verifier::spinoff_prover]
pub proof fn lemma_parse_node_of_map(n: NodeV, t: Seq<u8>, pos: int)
    requires
        wf_node(n),
        sizes_ok(n),
        n is MapVal,
        0 <= pos,
        pos + text_node(n).len() <= t.len(),
        t.subrange(pos, pos + text_node(n).len()) =~= text_node(n),
    ensures
        parse_node(t, pos) == Ok::<(NodeV, int), Error>((n, pos + text_node(n).len())),
    decreases n, 1int,
{
    match n {
        NodeV::MapVal { key_tag: kt, value_tag: vt, entries: en } => {
            lemma_node_head(n, t, pos);
            lemma_inner_slice(n, t, pos);
            lemma_resolve_tag_of(n);
            let tg = tag_of(n);
            lemma_wtext_len(tg);
            lemma_wtext_len(kt);
            lemma_wtext_len(vt);
            let p2 = pos + 2 + wtext(tg).len();
            assert(text_inner(n) =~= (wtext(kt) + wtext(vt)) + tentries_text(en));
            lemma_slice_split(t, p2, wtext(kt) + wtext(vt), tentries_text(en));
            lemma_slice_split(t, p2, wtext(kt), wtext(vt));
            lemma_parse_wtext_of(kt, t, p2);
            lemma_parse_wtext_of(vt, t, p2 + wtext(kt).len());
            lemma_parse_tentries_of(kt, vt, en, t, p2 + wtext(kt).len() + wtext(vt).len());
            lemma_close_byte(n, t, pos);
        },
        _ => {
            assert(false);
        },
    }
}

/// The set case of [`lemma_parse_node_of`].
#[verifier::rlimit(100)]
#[verifier::spinoff_prover]
pub proof fn lemma_parse_node_of_set(n: NodeV, t: Seq<u8>, pos: int)
    requires
        wf_node(n),
        sizes_ok(n),
        n is SetVal,
        0 <= pos,
        pos + text_node(n).len() <= t.len(),
        t.subrange(pos, pos + text_node(n).len()) =~= text_node(n),
    ensures
        parse_node(t, pos) == Ok::<(NodeV, int), Error>((n, pos + text_node(n).len())),
    decreases n, 1int,
{
    match n {
        NodeV::SetVal { elem_tag: et, elems: es } => {
            lemma_node_head(n, t, pos);
            lemma_inner_slice(n, t, pos);
            lemma_resolve_tag_of(n);
            let tg = tag_of(n);
            lemma_wtext_len(tg);
            lemma_wtext_len(et);
            let p2 = pos + 2 + wtext(tg).len();
            assert(text_inner(n) =~= wtext(et) + telems_text(es));
            lemma_slice_split(t, p2, wtext(et), telems_text(es));
            lemma_parse_wtext_of(et, t, p2);
            lemma_parse_telems_of(et, es, t, p2 + wtext(et).len());
            lemma_close_byte(n, t, pos);
        },
        _ => {
            assert(false);
        },
    }
}

/// A rendered field list parses back to itself.
#[verifier::rlimit(100)]
#[verifier::spinoff_prover]
pub proof fn lemma_parse_tprops_of(s: Seq<PropV>, t: Seq<u8>, pos: int)
    requires
        wf_props(s),
        sizes_ok_props(s),
        0 <= pos,
        pos + tprops_text(s).len() <= t.len(),
        t.subrange(pos, pos + tprops_text(s).len()) =~= tprops_text(s),
    ensures
        parse_tprops(t, pos) == Ok::<(Seq<PropV>, int), Error>(
            (s, pos + tprops_text(s).len()),
        ),
    decreases s, 3int,
{
    if s.len() == 0 {
        assert(tprops_text(s) =~= seq![33u8]);
        assert(t[pos] == 33u8) by {
            assert(t.subrange(pos, pos + 1)[0] == 33u8);
        }
        assert(s =~= Seq::<PropV>::empty());
    } else {
        let p0 = s[0];
        let rest = s.subrange(1, s.len() as int);
        assert(wf_prop(p0) && wf_props(rest));
        assert(sizes_ok_prop(p0) && sizes_ok_props(rest));
        lemma_wtext_len(p0.name);
        assert(tprops_text(s) =~= ((seq![80u8] + wtext(p0.name)) + text_node(p0.value))
            + tprops_text(rest));
        lemma_slice_split(
            t,
            pos,
            (seq![80u8] + wtext(p0.name)) + text_node(p0.value),
            tprops_text(rest),
        );
        lemma_slice_split(t, pos, seq![80u8] + wtext(p0.name), text_node(p0.value));
        lemma_slice_split(t, pos, seq![80u8], wtext(p0.name));
        assert(t[pos] == 80u8) by {
            assert(t.subrange(pos, pos + 1)[0] == 80u8);
        }
        assert(t[pos] != 33u8);
        lemma_parse_wtext_of(p0.name, t, pos + 1);
        let p1 = pos + 1 + wtext(p0.name).len();
        lemma_parse_node_of(p0.value, t, p1);
        let p2 = p1 + text_node(p0.value).len();
        lemma_parse_tprops_of(rest, t, p2);
        assert(PropV { name: p0.name, value: p0.value } == p0);
        assert(seq![p0] + rest =~= s);
    }
}

/// A rendered element list parses back to itself.
#[verifier::rlimit(100)]
#[verifier::spinoff_prover]
pub proof fn lemma_parse_telems_of(tag: WStrV, s: Seq<NodeV>, t: Seq<u8>, pos: int)
    requires
        wf_elems(tag, s),
        sizes_ok_nodes(s),
        0 <= pos,
        pos + telems_text(s).len() <= t.len(),
        t.subrange(pos, pos + telems_text(s).len()) =~= telems_text(s),
    ensures
        parse_telems(t, pos) == Ok::<(Seq<NodeV>, int), Error>(
            (s, pos + telems_text(s).len()),
        ),
    decreases s, 3int,
{
    if s.len() == 0 {
        assert(telems_text(s) =~= seq![33u8]);
        assert(t[pos] == 33u8) by {
            assert(t.subrange(pos, pos + 1)[0] == 33u8);
        }
        assert(s =~= Seq::<NodeV>::empty());
    } else {
        let e0 = s[0];
        let rest = s.subrange(1, s.len() as int);
        assert(telems_text(s) =~= (seq![69u8] + text_node(e0)) + telems_text(rest));
        lemma_slice_split(t, pos, seq![69u8] + text_node(e0), telems_text(rest));
        lemma_slice_split(t, pos, seq![69u8], text_node(e0));
        assert(t[pos] == 69u8) by {
            assert(t.subrange(pos, pos + 1)[0] == 69u8);
        }
        assert(t[pos] != 33u8);
        lemma_parse_node_of(e0, t, pos + 1);
        let p1 = pos + 1 + text_node(e0).len();
        lemma_parse_telems_of(tag, rest, t, p1);
        assert(seq![e0] + rest =~= s);
    }
}

/// A rendered entry list parses back to itself.
#[verifier::rlimit(100)]
#[verifier::spinoff_prover]
pub proof fn lemma_parse_tentries_of(
    kt: WStrV,
    vt: WStrV,
    s: Seq<(NodeV, NodeV)>,
    t: Seq<u8>,
    pos: int,
)
    requires
        wf_entries(kt, vt, s),
        sizes_ok_entries(s),
        0 <= pos,
        pos + tentries_text(s).len() <= t.len(),
        t.subrange(pos, pos + tentries_text(s).len()) =~= tentries_text(s),
    ensures
        parse_tentries(t, pos) == Ok::<(Seq<(NodeV, NodeV)>, int), Error>(
            (s, pos + tentries_text(s).len()),
        ),
    decreases s, 3int,
{
    if s.len() == 0 {
        assert(tentries_text(s) =~= seq![33u8]);
        assert(t[pos] == 33u8) by {
            assert(t.subrange(pos, pos + 1)[0] == 33u8);
        }
        assert(s =~= Seq::<(NodeV, NodeV)>::empty());
    } else {
        let (k0, v0) = s[0];
        let rest = s.subrange(1, s.len() as int);
        assert(tentries_text(s) =~= ((seq![69u8] + text_node(k0)) + text_node(v0))
            + tentries_text(rest));
        lemma_slice_split(
            t,
            pos,
            (seq![69u8] + text_node(k0)) + text_node(v0),
            tentries_text(rest),
        );
        lemma_slice_split(t, pos, seq![69u8] + text_node(k0), text_node(v0));
        lemma_slice_split(t, pos, seq![69u8], text_node(k0));
        assert(t[pos] == 69u8) by {
            assert(t.subrange(pos, pos + 1)[0] == 69u8);
        }
        assert(t[pos] != 33u8);
        lemma_parse_node_of(k0, t, pos + 1);
        let p1 = pos + 1 + text_node(k0).len();
        lemma_parse_node_of(v0, t, p1);
        let p2 = p1 + text_node(v0).len();
        lemma_parse_tentries_of(kt, vt, rest, t, p2);
        assert(s[0] == (k0, v0));
        assert(seq![(k0, v0)] + rest =~= s);
    }
}

/// Text round trip: parsing the rendering of any valid document gives the
/// document back — field order, unknown payloads, version and tail included.
pub proof fn law_text_round_trip(d: DocV)
    requires
        valid_doc(d),
    ensures
        parse_text(text_of(d)) == Ok::<DocV, Error>(d),
{
    lemma_pow_vals();
    let t = text_of(d);
    let vb = le_bytes(d.version as nat, 4);
    lemma_le_bytes_len(d.version as nat, 4);
    lemma_blob_len(vb);
    assert(t =~= ((seq![83u8, 65u8, 86u8, 84u8] + blob(vb)) + tprops_text(d.props)) + blob(
        d.tail,
    ));
    assert(t.subrange(0, t.len() as int) =~= t);
    lemma_slice_split(
        t,
        0,
        (seq![83u8, 65u8, 86u8, 84u8] + blob(vb)) + tprops_text(d.props),
        blob(d.tail),
    );
    lemma_slice_split(t, 0, seq![83u8, 65u8, 86u8, 84u8] + blob(vb), tprops_text(d.props));
    lemma_slice_split(t, 0, seq![83u8, 65u8, 86u8, 84u8], blob(vb));
    assert(t[0] == 83u8 && t[1] == 65u8 && t[2] == 86u8 && t[3] == 84u8) by {
        assert(t.subrange(0, 4)[0] == 83u8);
        assert(t.subrange(0, 4)[1] == 65u8);
        assert(t.subrange(0, 4)[2] == 86u8);
        assert(t.subrange(0, 4)[3] == 84u8);
    }
    lemma_parse_blob_of(vb, t, 4);
    lemma_le_val_of_le_bytes(d.version as nat, 4);
    let p = 4 + blob(vb).len() as int;
    lemma_parse_tprops_of(d.props, t, p);
    let p2 = p + tprops_text(d.props).len() as int;
    lemma_parse_blob_of(d.tail, t, p2);
    assert(parse_text(t) == Ok::<DocV, Error>(
        DocV { version: d.version, props: d.props, tail: d.tail },
    ));
    assert(DocV { version: d.version, props: d.props, tail: d.tail } =~~= d);
}

/// A text node whose tag the registry does not resolve parses successfully
/// into an `Unknown` node carrying the tag and the raw bytes — never a
/// failure.
pub proof fn law_text_unknown_tag(tag: WStrV, bytes: Seq<u8>)
    requires
        wstr_ok(tag),
        resolve_spec(tag) == TagKind::Opaque,
        bytes.len() <= 0xffffffff,
    ensures
        ({
            let n = NodeV::Unknown { tag, bytes };
            parse_node(text_node(n), 0) == Ok::<(NodeV, int), Error>(
                (n, text_node(n).len() as int),
            )
        }),
{
    let n = NodeV::Unknown { tag, bytes };
    assert(wf_node(n));
    assert(sizes_ok(n));
    assert(text_node(n).subrange(0, text_node(n).len() as int) =~= text_node(n));
    lemma_parse_node_of(n, text_node(n), 0);
}

fn hex_digit_x(x: u8) -> (r: u8)
    requires
        x < 16,
    ensures
        r == hex_digit(x as nat),
{
    if x < 10 {
        48 + x
    } else {
        87 + x
    }
}

fn write_hex_from(out: &mut Vec<u8>, bs: &Vec<u8>, i: usize)
    requires
        i <= bs@.len(),
    ensures
        final(out)@ == old(out)@ + hex_of(bs@.subrange(i as int, bs@.len() as int)),
    decreases bs@.len() - i,
{
    let ghost u = bs@.subrange(i as int, bs@.len() as int);
    if i == bs.len() {
        proof {
            assert(u =~= Seq::<u8>::empty());
            assert(hex_of(u) =~= Seq::<u8>::empty());
            assert(final(out)@ =~= old(out)@ + hex_of(u));
        }
        return ;
    }
    let b = bs[i];
    out.push(hex_digit_x(b / 16));
    out.push(hex_digit_x(b % 16));
    write_hex_from(out, bs, i + 1);
    proof {
        assert(u[0] == bs@[i as int]);
        assert(u.subrange(1, u.len() as int) =~= bs@.subrange(i + 1, bs@.len() as int));
        assert(final(out)@ =~= old(out)@ + hex_of(u));
    }
}

fn write_blob(out: &mut Vec<u8>, bs: &Vec<u8>)
    ensures
        final(out)@ == old(out)@ + blob(bs@),
{
    write_hex_from(out, bs, 0);
    out.push(46u8);
    proof {
        assert(bs@.subrange(0, bs@.len() as int) =~= bs@);
        assert(final(out)@ =~= old(out)@ + blob(bs@));
    }
}

fn write_wtext(out: &mut Vec<u8>, s: &WStr)
    ensures
        final(out)@ == old(out)@ + wtext(s@),
{
    match s {
        WStr::Narrow(bs) => {
            out.push(110u8);
            write_blob(out, bs);
            proof {
                assert(final(out)@ =~= old(out)@ + wtext(s@));
            }
        },
        WStr::Wide(u) => {
            out.push(119u8);
            let mut tmp: Vec<u8> = Vec::new();
            let mut i: usize = 0;
            proof {
                assert(le16_seq(u@.subrange(0, 0)) =~= Seq::<u8>::empty());
                assert(tmp@ =~= le16_seq(u@.subrange(0, 0)));
            }
            while i < u.len()
                invariant
                    i <= u@.len(),
                    tmp@ =~= le16_seq(u@.subrange(0, i as int)),
                decreases u@.len() - i,
            {
                crate::num::write_le(&mut tmp, u[i] as u64, 2);
                i = i + 1;
                proof {
                    crate::codec::lemma_le16_take_step(u@, i - 1);
                    assert(tmp@ =~= le16_seq(u@.subrange(0, i as int)));
                }
            }
            proof {
                assert(u@.subrange(0, u@.len() as int) =~= u@);
            }
            write_blob(out, &tmp);
            proof {
                assert(final(out)@ =~= old(out)@ + wtext(s@));
            }
        },
    }
}

/// Renders one node; callers guarantee validity, so rendering is total.
#[verifier::rlimit(100)]
#[verifier::spinoff_prover]
fn write_text_node(out: &mut Vec<u8>, n: &PropertyNode)
    requires
        wf_node(n@),
        sizes_ok(n@),
    ensures
        final(out)@ == old(out)@ + text_node(n@),
    decreases n, 0int,
{
    out.push(84u8);
    match n {
        PropertyNode::Unknown { tag, .. } => {
            write_wtext(out, tag);
        },
        _ => {
            let tv = WStr::Narrow(crate::codec::tag_vec(crate::codec::node_kind(n)));
            proof {
                crate::codec::lemma_tag_of_known(n@);
            }
            write_wtext(out, &tv);
            proof {
                assert(tv@ == tag_of(n@));
            }
        },
    }
    out.push(40u8);
    match n {
        PropertyNode::StructVal { ty_name, fields } => {
            proof {
                let full = crate::model::props_view(fields@);
                assert(full.subrange(0, full.len() as int) =~= full);
            }
            write_wtext(out, ty_name);
            write_tprops(out, fields, 0);
        },
        PropertyNode::ArrayVal { elem_tag, elems } => {
            proof {
                let full = crate::model::nodes_view(elems@);
                assert(full.subrange(0, full.len() as int) =~= full);
            }
            write_wtext(out, elem_tag);
            write_telems(out, elem_tag, elems, 0);
        },
        PropertyNode::MapVal { key_tag, value_tag, entries } => {
            proof {
                let full = crate::model::entries_view(entries@);
                assert(full.subrange(0, full.len() as int) =~= full);
            }
            write_wtext(out, key_tag);
            write_wtext(out, value_tag);
            write_tentries(out, key_tag, value_tag, entries, 0);
        },
        PropertyNode::SetVal { elem_tag, elems } => {
            proof {
                let full = crate::model::nodes_view(elems@);
                assert(full.subrange(0, full.len() as int) =~= full);
            }
            write_wtext(out, elem_tag);
            write_telems(out, elem_tag, elems, 0);
        },
        PropertyNode::EnumVal { ty_name, variant } => {
            write_wtext(out, ty_name);
            write_wtext(out, variant);
        },
        _ => {
            let pay = match crate::codec::enc_node_x(n) {
                Ok(p) => p,
                Err(_) => {
                    proof {
                        assert(false);
                    }
                    Vec::new()
                },
            };
            write_blob(out, &pay);
        },
    }
    out.push(41u8);
    proof {
        assert(final(out)@ =~= old(out)@ + text_node(n@));
    }
}

/// Renders the fields of `props[i..]` and the closing marker.
#[verifier::rlimit(100)]
fn write_tprops(out: &mut Vec<u8>, props: &Vec<Property>, i: usize)
    requires
        i <= props@.len(),
        wf_props(
            crate::model::props_view(props@).subrange(
                i as int,
                crate::model::props_view(props@).len() as int,
            ),
        ),
        sizes_ok_props(
            crate::model::props_view(props@).subrange(
                i as int,
                crate::model::props_view(props@).len() as int,
            ),
        ),
    ensures
        final(out)@ == old(out)@ + tprops_text(
            crate::model::props_view(props@).subrange(
                i as int,
                crate::model::props_view(props@).len() as int,
            ),
        ),
    decreases props, props@.len() - i,
{
    proof {
        crate::codec::lemma_props_view_len(props@);
    }
    let ghost sv = crate::model::props_view(props@).subrange(
        i as int,
        crate::model::props_view(props@).len() as int,
    );
    if i == props.len() {
        out.push(33u8);
        proof {
            assert(sv =~= Seq::<PropV>::empty());
            assert(tprops_text(sv) =~= seq![33u8]);
            assert(final(out)@ =~= old(out)@ + tprops_text(sv));
        }
        return ;
    }
    proof {
        crate::codec::lemma_props_view_head(props@, i as int);
        assert(sv[0] == crate::model::prop_view(props@[i as int]));
        assert(sv.subrange(1, sv.len() as int) =~= crate::model::props_view(props@).subrange(
            i + 1,
            crate::model::props_view(props@).len() as int,
        ));
    }
    proof {
        assert(wf_prop(sv[0]) && sizes_ok_prop(sv[0]));
        assert(crate::model::node_view(props@[i as int].value) == sv[0].value);
    }
    out.push(80u8);
    write_wtext(out, &props[i].name);
    write_text_node(out, &props[i].value);
    write_tprops(out, props, i + 1);
    proof {
        assert(final(out)@ =~= old(out)@ + tprops_text(sv));
    }
}

/// Renders the elements of `elems[i..]` and the closing marker.
#[verifier::rlimit(100)]
fn write_telems(out: &mut Vec<u8>, tag: &WStr, elems: &Vec<PropertyNode>, i: usize)
    requires
        i <= elems@.len(),
        wf_elems(
            tag@,
            crate::model::nodes_view(elems@).subrange(
                i as int,
                crate::model::nodes_view(elems@).len() as int,
            ),
        ),
        sizes_ok_nodes(
            crate::model::nodes_view(elems@).subrange(
                i as int,
                crate::model::nodes_view(elems@).len() as int,
            ),
        ),
    ensures
        final(out)@ == old(out)@ + telems_text(
            crate::model::nodes_view(elems@).subrange(
                i as int,
                crate::model::nodes_view(elems@).len() as int,
            ),
        ),
    decreases elems, elems@.len() - i,
{
    proof {
        crate::codec::lemma_nodes_view_len(elems@);
    }
    let ghost sv = crate::model::nodes_view(elems@).subrange(
        i as int,
        crate::model::nodes_view(elems@).len() as int,
    );
    if i == elems.len() {
        out.push(33u8);
        proof {
            assert(sv =~= Seq::<NodeV>::empty());
            assert(telems_text(sv) =~= seq![33u8]);
            assert(final(out)@ =~= old(out)@ + telems_text(sv));
        }
        return ;
    }
    proof {
        crate::codec::lemma_nodes_view_head(elems@, i as int);
        assert(sv[0] == crate::model::node_view(elems@[i as int]));
        assert(sv.subrange(1, sv.len() as int) =~= crate::model::nodes_view(elems@).subrange(
            i + 1,
            crate::model::nodes_view(elems@).len() as int,
        ));
    }
    proof {
        assert(wf_node(sv[0]) && sizes_ok(sv[0]));
        assert(crate::model::node_view(elems@[i as int]) == sv[0]);
    }
    out.push(69u8);
    write_text_node(out, &elems[i]);
    write_telems(out, tag, elems, i + 1);
    proof {
        assert(final(out)@ =~= old(out)@ + telems_text(sv));
    }
}

/// Renders the entries of `entries[i..]` and the closing marker.
#[verifier::rlimit(100)]
fn write_tentries(
    out: &mut Vec<u8>,
    kt: &WStr,
    vt: &WStr,
    entries: &Vec<(PropertyNode, PropertyNode)>,
    i: usize,
)
    requires
        i <= entries@.len(),
        wf_entries(
            kt@,
            vt@,
            crate::model::entries_view(entries@).subrange(
                i as int,
                crate::model::entries_view(entries@).len() as int,
            ),
        ),
        sizes_ok_entries(
            crate::model::entries_view(entries@).subrange(
                i as int,
                crate::model::entries_view(entries@).len() as int,
            ),
        ),
    ensures
        final(out)@ == old(out)@ + tentries_text(
            crate::model::entries_view(entries@).subrange(
                i as int,
                crate::model::entries_view(entries@).len() as int,
            ),
        ),
    decreases entries, entries@.len() - i,
{
    proof {
        crate::codec::lemma_entries_view_len(entries@);
    }
    let ghost sv = crate::model::entries_view(entries@).subrange(
        i as int,
        crate::model::entries_view(entries@).len() as int,
    );
    if i == entries.len() {
        out.push(33u8);
        proof {
            assert(sv =~= Seq::<(NodeV, NodeV)>::empty());
            assert(tentries_text(sv) =~= seq![33u8]);
            assert(final(out)@ =~= old(out)@ + tentries_text(sv));
        }
        return ;
    }
    proof {
        crate::codec::lemma_entries_view_head(entries@, i as int);
        assert(sv[0] == (
            crate::model::node_view(entries@[i as int].0),
            crate::model::node_view(entries@[i as int].1),
        ));
        assert(sv.subrange(1, sv.len() as int) =~= crate::model::entries_view(entries@).subrange(
            i + 1,
            crate::model::entries_view(entries@).len() as int,
        ));
    }
    proof {
        assert(wf_node(sv[0].0) && wf_node(sv[0].1));
        assert(sizes_ok(sv[0].0) && sizes_ok(sv[0].1));
        assert(crate::model::node_view(entries@[i as int].0) == sv[0].0);
        assert(crate::model::node_view(entries@[i as int].1) == sv[0].1);
    }
    out.push(69u8);
    write_text_node(out, &entries[i].0);
    write_text_node(out, &entries[i].1);
    write_tentries(out, kt, vt, entries, i + 1);
    proof {
        assert(final(out)@ =~= old(out)@ + tentries_text(sv));
    }
}

/// Renders a document as its text projection.
///
/// Accepts exactly the valid documents — the same set the binary encoder
/// accepts — and then returns precisely the specification text; the
/// validity decision is delegated to the encoder.
pub fn to_text(d: &crate::model::Document) -> (r: Result<Vec<u8>, Error>)
    ensures
        r matches Ok(t) ==> valid_doc(d@) && t@ == text_of(d@),
        r is Ok <==> valid_doc(d@),
        r matches Err(e) ==> e == Error::UnsupportedValue || e == Error::WriteOverflow,
{
    match crate::codec::encode(d) {
        Err(e) => Err(e),
        Ok(_) => {
            let mut out: Vec<u8> = Vec::new();
            out.push(83u8);
            out.push(65u8);
            out.push(86u8);
            out.push(84u8);
            proof {
                assert(out@ =~= seq![83u8, 65u8, 86u8, 84u8]);
            }
            let mut vb: Vec<u8> = Vec::new();
            crate::num::write_le(&mut vb, d.version as u64, 4);
            write_blob(&mut out, &vb);
            proof {
                let full = crate::model::props_view(d.props@);
                assert(full.subrange(0, full.len() as int) =~= full);
            }
            write_tprops(&mut out, &d.props, 0);
            write_blob(&mut out, &d.tail);
            proof {
                assert(out@ =~= text_of(d@));
            }
            Ok(out)
        },
    }
}

fn is_hex_x(c: u8) -> (r: bool)
    ensures
        r == is_hex(c),
{
    (48 <= c && c <= 57) || (97 <= c && c <= 102)
}

fn hex_val_x(c: u8) -> (r: u8)
    requires
        is_hex(c),
    ensures
        r as nat == hex_val(c),
{
    if 48 <= c && c <= 57 {
        c - 48
    } else {
        c - 87
    }
}

fn parse_blob_x(t: &Vec<u8>, pos: usize) -> (r: Result<(Vec<u8>, usize), Error>)
    ensures
        match parse_blob(t@, pos as int) {
            Ok((bs, p)) => r matches Ok(x) && x.0@ == bs && x.1 == p,
            Err(e) => r matches Err(e2) && e2 == e,
        },
    decreases t@.len() - pos,
{
    if !(pos < t.len()) {
        return Err(Error::MalformedText);
    }
    if t[pos] == 46u8 {
        let out: Vec<u8> = Vec::new();
        return Ok((out, pos + 1));
    }
    if t.len() - pos >= 2 && is_hex_x(t[pos]) && is_hex_x(t[pos + 1]) {
        let b: u8 = hex_val_x(t[pos]) * 16 + hex_val_x(t[pos + 1]);
        let (mut rest, p) = match parse_blob_x(t, pos + 2) {
            Ok(x) => x,
            Err(e) => {
                return Err(e);
            },
        };
        let ghost old_rest = rest@;
        rest.insert(0, b);
        proof {
            assert(rest@ =~= seq![b] + old_rest);
        }
        Ok((rest, p))
    } else {
        Err(Error::MalformedText)
    }
}

fn parse_wtext_x(t: &Vec<u8>, pos: usize) -> (r: Result<(WStr, usize), Error>)
    ensures
        match parse_wtext(t@, pos as int) {
            Ok((s, p)) => r matches Ok(x) && x.0@ == s && x.1 == p,
            Err(e) => r matches Err(e2) && e2 == e,
        },
{
    if !(pos < t.len()) {
        return Err(Error::MalformedText);
    }
    if t[pos] == 110u8 {
        match parse_blob_x(t, pos + 1) {
            Err(e) => Err(e),
            Ok((bs, p)) => Ok((WStr::Narrow(bs), p)),
        }
    } else if t[pos] == 119u8 {
        match parse_blob_x(t, pos + 1) {
            Err(e) => Err(e),
            Ok((bs, p)) => {
                if bs.len() % 2 == 0 {
                    let mut units: Vec<u16> = Vec::new();
                    let m = bs.len() / 2;
                    let mut i: usize = 0;
                    proof {
                        assert(u16s_of(bs@.subrange(0, 0)) =~= Seq::<u16>::empty());
                    }
                    while i < m
                        invariant
                            i <= m,
                            bs@.len() == 2 * m,
                            units@ =~= u16s_of(bs@.subrange(0, 2 * i)),
                        decreases m - i,
                    {
                        let w: u16 = (bs[2 * i] as u16) + 256 * (bs[2 * i + 1] as u16);
                        proof {
                            crate::codec::lemma_u16s_take_step(bs@, i as int);
                        }
                        units.push(w);
                        i = i + 1;
                        proof {
                            assert(units@ =~= u16s_of(bs@.subrange(0, 2 * i)));
                        }
                    }
                    proof {
                        assert(bs@.subrange(0, 2 * (m as int)) =~= bs@);
                    }
                    Ok((WStr::Wide(units), p))
                } else {
                    Err(Error::MalformedText)
                }
            },
        }
    } else {
        Err(Error::MalformedText)
    }
}

/// Parses one node text.
#[verifier::rlimit(100)]
#[verifier::spinoff_prover]
fn parse_node_x(t: &Vec<u8>, pos: usize) -> (r: Result<(PropertyNode, usize), Error>)
    ensures
        match parse_node(t@, pos as int) {
            Ok((v, p)) => r matches Ok(x) && crate::model::node_view(x.0) == v && x.1 == p,
            Err(e) => r matches Err(e2) && e2 == e,
        },
    decreases t@.len() - pos,
{
    if !(pos < t.len() && t[pos] == 84u8) {
        return Err(Error::MalformedText);
    }
    let (tag, p1) = match parse_wtext_x(t, pos + 1) {
        Ok(x) => x,
        Err(e) => {
            return Err(e);
        },
    };
    if !(pos < p1 && p1 < t.len() && t[p1] == 40u8) {
        return Err(Error::MalformedText);
    }
    let p2 = p1 + 1;
    match crate::codec::resolve_tag(&tag) {
        TagKind::StructT => {
            let (tn, p3) = match parse_wtext_x(t, p2) {
                Ok(x) => x,
                Err(e) => {
                    return Err(e);
                },
            };
            if !(pos < p3 && p3 <= t.len()) {
                return Err(Error::MalformedText);
            }
            let (fs, p4) = match parse_tprops_x(t, p3) {
                Ok(x) => x,
                Err(e) => {
                    return Err(e);
                },
            };
            close_node_x(t, p4, PropertyNode::StructVal { ty_name: tn, fields: fs })
        },
        TagKind::ArrayT => {
            let (et, p3) = match parse_wtext_x(t, p2) {
                Ok(x) => x,
                Err(e) => {
                    return Err(e);
                },
            };
            if !(pos < p3 && p3 <= t.len()) {
                return Err(Error::MalformedText);
            }
            let (es, p4) = match parse_telems_x(t, p3) {
                Ok(x) => x,
                Err(e) => {
                    return Err(e);
                },
            };
            close_node_x(t, p4, PropertyNode::ArrayVal { elem_tag: et, elems: es })
        },
        TagKind::MapT => {
            let (kt, p3) = match parse_wtext_x(t, p2) {
                Ok(x) => x,
                Err(e) => {
                    return Err(e);
                },
            };
            let (vt, p4) = match parse_wtext_x(t, p3) {
                Ok(x) => x,
                Err(e) => {
                    return Err(e);
                },
            };
            if !(pos < p4 && p4 <= t.len()) {
                return Err(Error::MalformedText);
            }
            let (en, p5) = match parse_tentries_x(t, p4) {
                Ok(x) => x,
                Err(e) => {
                    return Err(e);
                },
            };
            close_node_x(
                t,
                p5,
                PropertyNode::MapVal { key_tag: kt, value_tag: vt, entries: en },
            )
        },
        TagKind::SetT => {
            let (et, p3) = match parse_wtext_x(t, p2) {
                Ok(x) => x,
                Err(e) => {
                    return Err(e);
                },
            };
            if !(pos < p3 && p3 <= t.len()) {
                return Err(Error::MalformedText);
            }
            let (es, p4) = match parse_telems_x(t, p3) {
                Ok(x) => x,
                Err(e) => {
                    return Err(e);
                },
            };
            close_node_x(t, p4, PropertyNode::SetVal { elem_tag: et, elems: es })
        },
        TagKind::EnumT => {
            let (tn, p3) = match parse_wtext_x(t, p2) {
                Ok(x) => x,
                Err(e) => {
                    return Err(e);
                },
            };
            let (vn, p4) = match parse_wtext_x(t, p3) {
                Ok(x) => x,
                Err(e) => {
                    return Err(e);
                },
            };
            close_node_x(t, p4, PropertyNode::EnumVal { ty_name: tn, variant: vn })
        },
        _ => {
            let (bs, p3) = match parse_blob_x(t, p2) {
                Ok(x) => x,
                Err(e) => {
                    return Err(e);
                },
            };
            let (v, q) = match crate::codec::read_node(&bs, &tag, 0) {
                Ok(x) => x,
                Err(_) => {
                    return Err(Error::MalformedText);
                },
            };
            if q != bs.len() {
                return Err(Error::MalformedText);
            }
            close_node_x(t, p3, v)
        },
    }
}

/// Expects the closing parenthesis of a node text.
fn close_node_x(t: &Vec<u8>, pos: usize, v: PropertyNode) -> (r: Result<
    (PropertyNode, usize),
    Error,
>)
    ensures
        match close_node(t@, pos as int, crate::model::node_view(v)) {
            Ok((w, p)) => r matches Ok(x) && crate::model::node_view(x.0) == w && x.1 == p,
            Err(e) => r matches Err(e2) && e2 == e,
        },
{
    if pos < t.len() && t[pos] == 41u8 {
        Ok((v, pos + 1))
    } else {
        Err(Error::MalformedText)
    }
}

/// Parses fields up to and including the closing marker.
#[verifier::rlimit(100)]
fn parse_tprops_x(t: &Vec<u8>, pos: usize) -> (r: Result<(Vec<Property>, usize), Error>)
    ensures
        match parse_tprops(t@, pos as int) {
            Ok((ps, p)) => r matches Ok(x) && crate::model::props_view(x.0@) == ps && x.1 == p,
            Err(e) => r matches Err(e2) && e2 == e,
        },
    decreases t@.len() - pos,
{
    if !(pos < t.len()) {
        return Err(Error::MalformedText);
    }
    if t[pos] == 33u8 {
        let out: Vec<Property> = Vec::new();
        proof {
            assert(crate::model::props_view(out@) =~= Seq::<PropV>::empty());
        }
        return Ok((out, pos + 1));
    }
    if t[pos] != 80u8 {
        return Err(Error::MalformedText);
    }
    let (nm, p1) = match parse_wtext_x(t, pos + 1) {
        Ok(x) => x,
        Err(e) => {
            return Err(e);
        },
    };
    if !(pos < p1 && p1 <= t.len()) {
        return Err(Error::MalformedText);
    }
    let (v, p2) = match parse_node_x(t, p1) {
        Ok(x) => x,
        Err(e) => {
            return Err(e);
        },
    };
    if !(pos < p2 && p2 <= t.len()) {
        return Err(Error::MalformedText);
    }
    let (mut rest, p3) = match parse_tprops_x(t, p2) {
        Ok(x) => x,
        Err(e) => {
            return Err(e);
        },
    };
    let ghost old_rest = rest@;
    let prop = Property { name: nm, value: v };
    rest.insert(0, prop);
    proof {
        assert(rest@ =~= seq![prop] + old_rest);
        assert((seq![prop] + old_rest)[0] == prop);
        assert((seq![prop] + old_rest).subrange(1, (seq![prop] + old_rest).len() as int)
            =~= old_rest);
        assert(crate::model::props_view(rest@) =~= seq![crate::model::prop_view(prop)]
            + crate::model::props_view(old_rest));
    }
    Ok((rest, p3))
}

/// Parses elements up to and including the closing marker.
#[verifier::rlimit(100)]
fn parse_telems_x(t: &Vec<u8>, pos: usize) -> (r: Result<(Vec<PropertyNode>, usize), Error>)
    ensures
        match parse_telems(t@, pos as int) {
            Ok((es, p)) => r matches Ok(x) && crate::model::nodes_view(x.0@) == es && x.1 == p,
            Err(e) => r matches Err(e2) && e2 == e,
        },
    decreases t@.len() - pos,
{
    if !(pos < t.len()) {
        return Err(Error::MalformedText);
    }
    if t[pos] == 33u8 {
        let out: Vec<PropertyNode> = Vec::new();
        proof {
            assert(crate::model::nodes_view(out@) =~= Seq::<NodeV>::empty());
        }
        return Ok((out, pos + 1));
    }
    if t[pos] != 69u8 {
        return Err(Error::MalformedText);
    }
    let (v, p1) = match parse_node_x(t, pos + 1) {
        Ok(x) => x,
        Err(e) => {
            return Err(e);
        },
    };
    if !(pos < p1 && p1 <= t.len()) {
        return Err(Error::MalformedText);
    }
    let (mut rest, p2) = match parse_telems_x(t, p1) {
        Ok(x) => x,
        Err(e) => {
            return Err(e);
        },
    };
    let ghost old_rest = rest@;
    rest.insert(0, v);
    proof {
        assert(rest@ =~= seq![v] + old_rest);
        assert((seq![v] + old_rest)[0] == v);
        assert((seq![v] + old_rest).subrange(1, (seq![v] + old_rest).len() as int) =~= old_rest);
        assert(crate::model::nodes_view(rest@) =~= seq![crate::model::node_view(v)]
            + crate::model::nodes_view(old_rest));
    }
    Ok((rest, p2))
}

/// Parses key/value pairs up to and including the closing marker.
#[verifier::rlimit(100)]
fn parse_tentries_x(t: &Vec<u8>, pos: usize) -> (r: Result<
    (Vec<(PropertyNode, PropertyNode)>, usize),
    Error,
>)
    ensures
        match parse_tentries(t@, pos as int) {
            Ok((en, p)) => r matches Ok(x) && crate::model::entries_view(x.0@) == en && x.1 == p,
            Err(e) => r matches Err(e2) && e2 == e,
        },
    decreases t@.len() - pos,
{
    if !(pos < t.len()) {
        return Err(Error::MalformedText);
    }
    if t[pos] == 33u8 {
        let out: Vec<(PropertyNode, PropertyNode)> = Vec::new();
        proof {
            assert(crate::model::entries_view(out@) =~= Seq::<(NodeV, NodeV)>::empty());
        }
        return Ok((out, pos + 1));
    }
    if t[pos] != 69u8 {
        return Err(Error::MalformedText);
    }
    let (k, p1) = match parse_node_x(t, pos + 1) {
        Ok(x) => x,
        Err(e) => {
            return Err(e);
        },
    };
    if !(pos < p1 && p1 <= t.len()) {
        return Err(Error::MalformedText);
    }
    let (v, p2) = match parse_node_x(t, p1) {
        Ok(x) => x,
        Err(e) => {
            return Err(e);
        },
    };
    if !(pos < p2 && p2 <= t.len()) {
        return Err(Error::MalformedText);
    }
    let (mut rest, p3) = match parse_tentries_x(t, p2) {
        Ok(x) => x,
        Err(e) => {
            return Err(e);
        },
    };
    let ghost old_rest = rest@;
    let pair = (k, v);
    rest.insert(0, pair);
    proof {
        assert(rest@ =~= seq![pair] + old_rest);
        assert((seq![pair] + old_rest)[0] == pair);
        assert((seq![pair] + old_rest).subrange(1, (seq![pair] + old_rest).len() as int)
            =~= old_rest);
        assert(crate::model::entries_view(rest@) =~= seq![(
            crate::model::node_view(k),
            crate::model::node_view(v),
        )] + crate::model::entries_view(old_rest));
    }
    Ok((rest, p3))
}

/// Parses a whole text document.
///
/// The result — the document on success, and `MalformedText` otherwise — is
/// exactly what the specification text parser gives on the same bytes; an
/// unregistered type tag is not a failure but an `Unknown` node.
pub fn from_text(t: &Vec<u8>) -> (r: Result<crate::model::Document, Error>)
    ensures
        match parse_text(t@) {
            Ok(dv) => r matches Ok(d) && d@ == dv,
            Err(e) => r matches Err(e2) && e2 == e,
        },
{
    if !(t.len() >= 4 && t[0] == 83u8 && t[1] == 65u8 && t[2] == 86u8 && t[3] == 84u8) {
        return Err(Error::MalformedText);
    }
    let (vb, p) = match parse_blob_x(t, 4) {
        Ok(x) => x,
        Err(e) => {
            return Err(e);
        },
    };
    if vb.len() != 4 {
        return Err(Error::MalformedText);
    }
    let ver64 = crate::num::read_le(&vb, 0, 4);
    proof {
        lemma_pow_vals();
        crate::num::lemma_le_val_bound(vb@.subrange(0, 4));
        assert(vb@.subrange(0, 4) =~= vb@);
    }
    let ver = ver64 as u32;
    let (props, p2) = match parse_tprops_x(t, p) {
        Ok(x) => x,
        Err(e) => {
            return Err(e);
        },
    };
    let (tail, p3) = match parse_blob_x(t, p2) {
        Ok(x) => x,
        Err(e) => {
            return Err(e);
        },
    };
    if p3 != t.len() {
        return Err(Error::MalformedText);
    }
    let d = crate::model::Document { version: ver, props, tail };
    proof {
        assert(d@ =~~= parse_text(t@)->Ok_0);
    }
    Ok(d)
}

} // verus!
