//! The wire encoding, as a mathematical function of the property tree: the
//! reference that both the executable encoder and the decoder are held to.
//!
//! Layout: a document is the magic marker, a 32-bit version, each property in
//! order, the sentinel name, then the opaque tail verbatim. A property is its
//! name, its type tag, a 32-bit payload length, then the payload. All
//! integers are little-endian; strings carry a signed count whose sign picks
//! the narrow or wide unit width, counting units including the terminator.

use vstd::prelude::*;

use crate::model::DocV;
use crate::model::NodeV;
use crate::model::PropV;
use crate::model::WStrV;
use crate::model::none_name_v;
use crate::model::tag_of;
use crate::model::wf_doc;
use crate::num::le_bytes;

verus! {

/// The four magic bytes that open a document.
pub open spec fn magic() -> Seq<u8> {
    seq![83u8, 65u8, 86u8, 49u8]
}

/// Wide units, flattened to little-endian byte pairs.
pub open spec fn le16_seq(u: Seq<u16>) -> Seq<u8>
    decreases u.len(),
{
    if u.len() == 0 {
        Seq::empty()
    } else {
        le_bytes(u[0] as nat, 2) + le16_seq(u.subrange(1, u.len() as int))
    }
}

/// The 32-bit two's-complement pattern of the negative count `-(l + 1)`
/// that prefixes a wide string of `l` units.
pub open spec fn wide_count_bits(l: nat) -> nat {
    ((0x100000000 - ((l + 1) % 0x100000000)) % 0x100000000) as nat
}

/// A length-prefixed wire string: signed unit count (negative for wide),
/// units, then a zero terminator of the unit width.
pub open spec fn enc_wstr(s: WStrV) -> Seq<u8> {
    match s {
        WStrV::Narrow(b) => le_bytes((b.len() + 1) as nat, 4) + b + seq![0u8],
        WStrV::Wide(u) => le_bytes(wide_count_bits(u.len()), 4) + le16_seq(u) + seq![0u8, 0u8],
    }
}

/// A node's payload bytes.
pub open spec fn enc_node(n: NodeV) -> Seq<u8>
    decreases n, 0int,
{
    match n {
        NodeV::Bool(b) => seq![if b { 1u8 } else { 0u8 }],
        NodeV::I8(v) => le_bytes(crate::num::bits_of_i8(v), 1),
        NodeV::I16(v) => le_bytes(crate::num::bits_of_i16(v), 2),
        NodeV::I32(v) => le_bytes(crate::num::bits_of_i32(v), 4),
        NodeV::I64(v) => le_bytes(crate::num::bits_of_i64(v), 8),
        NodeV::U8(v) => le_bytes(v as nat, 1),
        NodeV::U16(v) => le_bytes(v as nat, 2),
        NodeV::U32(v) => le_bytes(v as nat, 4),
        NodeV::U64(v) => le_bytes(v as nat, 8),
        NodeV::F32Bits(v) => le_bytes(v as nat, 4),
        NodeV::F64Bits(v) => le_bytes(v as nat, 8),
        NodeV::Str(s) => enc_wstr(s),
        NodeV::Guid(a, b) => le_bytes(a as nat, 8) + le_bytes(b as nat, 8),
        NodeV::StructVal { ty_name, fields } => enc_wstr(ty_name) + enc_props(fields),
        NodeV::ArrayVal { elem_tag, elems } => enc_wstr(elem_tag) + le_bytes(elems.len(), 4)
            + enc_nodes(elems),
        NodeV::MapVal { key_tag, value_tag, entries } => enc_wstr(key_tag) + enc_wstr(value_tag)
            + le_bytes(entries.len(), 4) + enc_entries(entries),
        NodeV::SetVal { elem_tag, elems } => enc_wstr(elem_tag) + le_bytes(elems.len(), 4)
            + enc_nodes(elems),
        NodeV::EnumVal { ty_name, variant } => enc_wstr(ty_name) + enc_wstr(variant),
        NodeV::Unknown { tag: _, bytes } => le_bytes(bytes.len(), 4) + bytes,
    }
}

/// A full property record: name, tag, payload length, payload.
pub open spec fn enc_prop(p: PropV) -> Seq<u8>
    decreases p, 0int,
{
    enc_wstr(p.name) + enc_wstr(tag_of(p.value)) + le_bytes(enc_node(p.value).len(), 4) + enc_node(
        p.value,
    )
}

/// The property records of a field list, without the closing sentinel.
pub open spec fn enc_plist(s: Seq<PropV>) -> Seq<u8>
    decreases s, 0int,
{
    if s.len() == 0 {
        Seq::empty()
    } else {
        enc_prop(s[0]) + enc_plist(s.subrange(1, s.len() as int))
    }
}

/// A field list followed by the sentinel name that terminates it.
pub open spec fn enc_props(s: Seq<PropV>) -> Seq<u8>
    decreases s, 1int,
{
    enc_plist(s) + enc_wstr(none_name_v())
}

/// Bare element payloads, concatenated.
pub open spec fn enc_nodes(s: Seq<NodeV>) -> Seq<u8>
    decreases s, 0int,
{
    if s.len() == 0 {
        Seq::empty()
    } else {
        enc_node(s[0]) + enc_nodes(s.subrange(1, s.len() as int))
    }
}

/// Key and value payloads of each entry, concatenated in order.
pub open spec fn enc_entries(s: Seq<(NodeV, NodeV)>) -> Seq<u8>
    decreases s, 0int,
{
    if s.len() == 0 {
        Seq::empty()
    } else {
        enc_node(s[0].0) + enc_node(s[0].1) + enc_entries(s.subrange(1, s.len() as int))
    }
}

/// The whole document.
pub open spec fn enc_doc(d: DocV) -> Seq<u8> {
    magic() + le_bytes(d.version as nat, 4) + enc_props(d.props) + d.tail
}

/// Every property payload in the subtree fits its 32-bit length prefix.
pub open spec fn sizes_ok(n: NodeV) -> bool
    decreases n,
{
    match n {
        NodeV::StructVal { fields, .. } => sizes_ok_props(fields),
        NodeV::ArrayVal { elems, .. } => sizes_ok_nodes(elems),
        NodeV::MapVal { entries, .. } => sizes_ok_entries(entries),
        NodeV::SetVal { elems, .. } => sizes_ok_nodes(elems),
        _ => true,
    }
}

pub open spec fn sizes_ok_prop(p: PropV) -> bool
    decreases p,
{
    enc_node(p.value).len() <= 0xffffffff && sizes_ok(p.value)
}

pub open spec fn sizes_ok_props(s: Seq<PropV>) -> bool
    decreases s,
{
    s.len() == 0 || (sizes_ok_prop(s[0]) && sizes_ok_props(s.subrange(1, s.len() as int)))
}

pub open spec fn sizes_ok_nodes(s: Seq<NodeV>) -> bool
    decreases s,
{
    s.len() == 0 || (sizes_ok(s[0]) && sizes_ok_nodes(s.subrange(1, s.len() as int)))
}

pub open spec fn sizes_ok_entries(s: Seq<(NodeV, NodeV)>) -> bool
    decreases s,
{
    s.len() == 0 || (sizes_ok(s[0].0) && sizes_ok(s[0].1) && sizes_ok_entries(
        s.subrange(1, s.len() as int),
    ))
}

pub open spec fn sizes_ok_doc(d: DocV) -> bool {
    sizes_ok_props(d.props)
}

/// A document the encoder accepts: structurally well formed, with every
/// 32-bit length and count field in range.
pub open spec fn valid_doc(d: DocV) -> bool {
    wf_doc(d) && sizes_ok_doc(d)
}

pub proof fn lemma_le16_seq_len(u: Seq<u16>)
    ensures
        le16_seq(u).len() == 2 * u.len(),
    decreases u.len(),
{
    if u.len() > 0 {
        crate::num::lemma_le_bytes_len(u[0] as nat, 2);
        lemma_le16_seq_len(u.subrange(1, u.len() as int));
    }
}

pub proof fn lemma_enc_wstr_len(s: WStrV)
    ensures
        enc_wstr(s).len() == match s {
            WStrV::Narrow(b) => 5 + b.len(),
            WStrV::Wide(u) => 6 + 2 * u.len(),
        },
{
    match s {
        WStrV::Narrow(b) => {
            crate::num::lemma_le_bytes_len((b.len() + 1) as nat, 4);
        },
        WStrV::Wide(u) => {
            crate::num::lemma_le_bytes_len(wide_count_bits(u.len()), 4);
            lemma_le16_seq_len(u);
        },
    }
}

/// Concatenation distributes over property record lists.
pub proof fn lemma_enc_plist_concat(x: Seq<PropV>, y: Seq<PropV>)
    ensures
        enc_plist(x + y) =~= enc_plist(x) + enc_plist(y),
    decreases x.len(),
{
    if x.len() == 0 {
        assert(x + y =~= y);
    } else {
        lemma_enc_plist_concat(x.subrange(1, x.len() as int), y);
        assert((x + y).subrange(1, (x + y).len() as int) =~= x.subrange(1, x.len() as int) + y);
        assert((x + y)[0] == x[0]);
        assert((x + y).len() > 0);
    }
}

/// Appending one property on the right of a prefix of the record list.
pub proof fn lemma_enc_plist_snoc(s: Seq<PropV>, i: int)
    requires
        0 <= i < s.len(),
    ensures
        enc_plist(s.subrange(0, i + 1)) =~= enc_plist(s.subrange(0, i)) + enc_prop(s[i]),
{
    let one = seq![s[i]];
    reveal_with_fuel(enc_plist, 3);
    assert(s.subrange(0, i + 1) =~= s.subrange(0, i) + one);
    lemma_enc_plist_concat(s.subrange(0, i), one);
    assert(one.subrange(1, 1) =~= Seq::<PropV>::empty());
    assert(enc_plist(one) =~= enc_prop(s[i]));
}

/// Concatenation distributes over element payload lists.
pub proof fn lemma_enc_nodes_concat(x: Seq<NodeV>, y: Seq<NodeV>)
    ensures
        enc_nodes(x + y) =~= enc_nodes(x) + enc_nodes(y),
    decreases x.len(),
{
    if x.len() == 0 {
        assert(x + y =~= y);
    } else {
        lemma_enc_nodes_concat(x.subrange(1, x.len() as int), y);
        assert((x + y).subrange(1, (x + y).len() as int) =~= x.subrange(1, x.len() as int) + y);
        assert((x + y)[0] == x[0]);
        assert((x + y).len() > 0);
    }
}

/// Appending one element on the right of a prefix of the payload list.
pub proof fn lemma_enc_nodes_snoc(s: Seq<NodeV>, i: int)
    requires
        0 <= i < s.len(),
    ensures
        enc_nodes(s.subrange(0, i + 1)) =~= enc_nodes(s.subrange(0, i)) + enc_node(s[i]),
{
    let one = seq![s[i]];
    reveal_with_fuel(enc_nodes, 3);
    assert(s.subrange(0, i + 1) =~= s.subrange(0, i) + one);
    lemma_enc_nodes_concat(s.subrange(0, i), one);
    assert(one.subrange(1, 1) =~= Seq::<NodeV>::empty());
    assert(enc_nodes(one) =~= enc_node(s[i]));
}

/// Concatenation distributes over entry payload lists.
pub proof fn lemma_enc_entries_concat(x: Seq<(NodeV, NodeV)>, y: Seq<(NodeV, NodeV)>)
    ensures
        enc_entries(x + y) =~= enc_entries(x) + enc_entries(y),
    decreases x.len(),
{
    if x.len() == 0 {
        assert(x + y =~= y);
    } else {
        lemma_enc_entries_concat(x.subrange(1, x.len() as int), y);
        assert((x + y).subrange(1, (x + y).len() as int) =~= x.subrange(1, x.len() as int) + y);
        assert((x + y)[0] == x[0]);
        assert((x + y).len() > 0);
    }
}

/// Appending one entry on the right of a prefix of the entry list.
pub proof fn lemma_enc_entries_snoc(s: Seq<(NodeV, NodeV)>, i: int)
    requires
        0 <= i < s.len(),
    ensures
        enc_entries(s.subrange(0, i + 1)) =~= enc_entries(s.subrange(0, i)) + enc_node(s[i].0)
            + enc_node(s[i].1),
{
    let one = seq![s[i]];
    reveal_with_fuel(enc_entries, 3);
    assert(s.subrange(0, i + 1) =~= s.subrange(0, i) + one);
    lemma_enc_entries_concat(s.subrange(0, i), one);
    assert(one.subrange(1, 1) =~= Seq::<(NodeV, NodeV)>::empty());
    assert(enc_entries(one) =~= enc_node(s[i].0) + enc_node(s[i].1));
}

} // verus!
