//! The two round-trip theorems of the binary codec, proved by mutual
//! induction over the wire grammar:
//!
//! * every buffer the decoder accepts re-encodes to exactly itself, and
//! * every valid document decodes back from its own encoding.

use vstd::prelude::*;

use crate::dec::dec_doc;
use crate::dec::dec_elems;
use crate::dec::dec_entries;
use crate::dec::dec_fields;
use crate::dec::dec_node;
use crate::dec::dec_u16;
use crate::dec::dec_u32;
use crate::dec::dec_u64;
use crate::dec::dec_u8;
use crate::dec::dec_wstr;
use crate::dec::u16s_of;
use crate::enc::enc_doc;
use crate::enc::enc_entries;
use crate::enc::enc_node;
use crate::enc::enc_nodes;
use crate::enc::enc_plist;
use crate::enc::enc_prop;
use crate::enc::enc_props;
use crate::enc::enc_wstr;
use crate::enc::le16_seq;
use crate::enc::lemma_enc_wstr_len;
use crate::enc::lemma_le16_seq_len;
use crate::enc::magic;
use crate::enc::sizes_ok;
use crate::enc::sizes_ok_entries;
use crate::enc::sizes_ok_nodes;
use crate::enc::sizes_ok_prop;
use crate::enc::sizes_ok_props;
use crate::enc::valid_doc;
use crate::enc::wide_count_bits;
use crate::model::DocV;
use crate::model::Error;
use crate::model::NodeV;
use crate::model::PropV;
use crate::model::TagKind;
use crate::model::WStrV;
use crate::model::kind_of;
use crate::model::lemma_resolve_tag_of;
use crate::model::lemma_tag_bytes;
use crate::model::none_name_v;
use crate::model::resolve_spec;
use crate::model::tag_of;
use crate::model::wf_node;
use crate::model::wf_elems;
use crate::model::wf_entries;
use crate::model::wf_prop;
use crate::model::wf_props;
use crate::model::wstr_ok;
use crate::num::bits_of_i16;
use crate::num::bits_of_i32;
use crate::num::bits_of_i64;
use crate::num::bits_of_i8;
use crate::num::i16_of_bits;
use crate::num::i32_of_bits;
use crate::num::i64_of_bits;
use crate::num::i8_of_bits;
use crate::num::le_bytes;
use crate::num::le_val;
use crate::num::lemma_le_bytes_len;
use crate::num::lemma_le_bytes_of_le_val;
use crate::num::lemma_le_val_bound;
use crate::num::lemma_le_val_of_le_bytes;
use crate::num::pow256;

verus! {

pub proof fn lemma_pow_vals()
    ensures
        pow256(1) == 0x100,
        pow256(2) == 0x10000,
        pow256(4) == 0x100000000,
        pow256(8) == 0x10000000000000000,
{
    reveal_with_fuel(pow256, 9);
}

/// Adjacent subranges concatenate.
pub proof fn lemma_sub_cat(b: Seq<u8>, x: int, y: int, z: int)
    requires
        0 <= x <= y <= z <= b.len(),
    ensures
        b.subrange(x, z) =~= b.subrange(x, y) + b.subrange(y, z),
{
}

/// Signed values survive the trip through their bit patterns, and back.
pub proof fn lemma_signed_bits()
    ensures
        forall|v: i8| #[trigger] i8_of_bits(bits_of_i8(v)) == v && bits_of_i8(v) < 0x100,
        forall|v: i16| #[trigger] i16_of_bits(bits_of_i16(v)) == v && bits_of_i16(v) < 0x10000,
        forall|v: i32| #[trigger] i32_of_bits(bits_of_i32(v)) == v && bits_of_i32(v) < 0x100000000,
        forall|v: i64| #[trigger]
            i64_of_bits(bits_of_i64(v)) == v && bits_of_i64(v) < 0x10000000000000000,
        forall|u: nat| u < 0x100 ==> #[trigger] bits_of_i8(i8_of_bits(u)) == u,
        forall|u: nat| u < 0x10000 ==> #[trigger] bits_of_i16(i16_of_bits(u)) == u,
        forall|u: nat| u < 0x100000000 ==> #[trigger] bits_of_i32(i32_of_bits(u)) == u,
        forall|u: nat| u < 0x10000000000000000 ==> #[trigger] bits_of_i64(i64_of_bits(u)) == u,
{
}

pub proof fn lemma_u16s_of_len(s: Seq<u8>)
    ensures
        u16s_of(s).len() == s.len() / 2,
    decreases s.len(),
{
    if s.len() >= 2 {
        lemma_u16s_of_len(s.subrange(2, s.len() as int));
    }
}

/// Flattening wide units and reading them back is the identity.
pub proof fn lemma_u16s_of_le16(u: Seq<u16>)
    ensures
        u16s_of(le16_seq(u)) =~= u,
    decreases u.len(),
{
    if u.len() > 0 {
        let t = u.subrange(1, u.len() as int);
        lemma_u16s_of_le16(t);
        lemma_le16_seq_len(t);
        let s = le16_seq(u);
        lemma_le16_seq_len(u);
        assert(le_bytes(u[0] as nat, 2) =~= seq![(u[0] as nat % 256) as u8, (u[0] as nat / 256 % 256) as u8]) by {
            reveal_with_fuel(le_bytes, 3);
        }
        assert(s[0] == (u[0] as nat % 256) as u8);
        assert(s[1] == (u[0] as nat / 256 % 256) as u8);
        assert(u[0] as nat % 256 + 256 * (u[0] as nat / 256 % 256) == u[0] as nat)
            by (nonlinear_arith)
            requires
                u[0] < 0x10000,
        ;
        assert(s.subrange(2, s.len() as int) =~= le16_seq(t));
        assert(u16s_of(s)[0] == u[0]);
        assert(u16s_of(s) =~= seq![u[0]] + u16s_of(le16_seq(t)));
    }
}

/// Reading byte pairs as units and flattening again is the identity on
/// even-length byte strings.
pub proof fn lemma_le16_of_u16s(s: Seq<u8>)
    requires
        s.len() % 2 == 0,
    ensures
        le16_seq(u16s_of(s)) =~= s,
    decreases s.len(),
{
    if s.len() >= 2 {
        let t = s.subrange(2, s.len() as int);
        lemma_le16_of_u16s(t);
        let w = (s[0] + 256 * s[1]) as u16;
        assert(le_bytes(w as nat, 2) =~= seq![(w as nat % 256) as u8, (w as nat / 256 % 256) as u8]) by {
            reveal_with_fuel(le_bytes, 3);
        }
        assert(w as nat % 256 == s[0] && w as nat / 256 % 256 == s[1]) by (nonlinear_arith)
            requires
                w as nat == s[0] + 256 * s[1],
                s[0] < 256,
                s[1] < 256,
        ;
        assert(u16s_of(s) =~= seq![w] + u16s_of(t));
        assert(u16s_of(s).subrange(1, u16s_of(s).len() as int) =~= u16s_of(t)) by {
            lemma_u16s_of_len(s);
            lemma_u16s_of_len(t);
        }
        assert(le16_seq(u16s_of(s)) =~= le_bytes(w as nat, 2) + le16_seq(u16s_of(t)));
    }
}

/// An accepted wire string re-encodes to exactly the bytes it was read from.
pub proof fn lemma_dec_wstr_enc(b: Seq<u8>, pos: int)
    requires
        dec_wstr(b, pos) is Ok,
    ensures
        ({
            let (s, p) = dec_wstr(b, pos)->Ok_0;
            &&& wstr_ok(s)
            &&& pos + 5 <= p <= b.len()
            &&& enc_wstr(s) =~= b.subrange(pos, p)
        }),
{
    lemma_pow_vals();
    let (s, p) = dec_wstr(b, pos)->Ok_0;
    let sub4 = b.subrange(pos, pos + 4);
    lemma_le_val_bound(sub4);
    lemma_le_bytes_of_le_val(sub4);
    let c = le_val(sub4) as u32;
    let p1 = pos + 4;
    if c < 0x80000000u32 {
        let l = c as int;
        let content = b.subrange(p1, p1 + l - 1);
        assert(s == WStrV::Narrow(content) && p == p1 + l);
        assert(content.len() + 1 == c);
        assert(le_bytes((content.len() + 1) as nat, 4) =~= sub4);
        assert(enc_wstr(s) == le_bytes((content.len() + 1) as nat, 4) + content + seq![0u8]);
        lemma_le_bytes_len((content.len() + 1) as nat, 4);
        assert(b[p1 + l - 1] == 0u8);
        assert(enc_wstr(s) =~= b.subrange(pos, p));
    } else {
        let m = 0x100000000 - c as int;
        let units = u16s_of(b.subrange(p1, p1 + 2 * m - 2));
        assert(s == WStrV::Wide(units) && p == p1 + 2 * m);
        lemma_u16s_of_len(b.subrange(p1, p1 + 2 * m - 2));
        assert(units.len() == m - 1);
        assert(wide_count_bits(units.len()) == c as nat);
        lemma_le16_of_u16s(b.subrange(p1, p1 + 2 * m - 2));
        assert(le16_seq(units) =~= b.subrange(p1, p1 + 2 * m - 2));
        assert(le_bytes(wide_count_bits(units.len()), 4) =~= sub4);
        lemma_le_bytes_len(wide_count_bits(units.len()), 4);
        assert(b[p1 + 2 * m - 2] == 0u8 && b[p1 + 2 * m - 1] == 0u8);
        assert(enc_wstr(s) =~= b.subrange(pos, p));
    }
}

/// A wire string placed at `pos` decodes to itself.
pub proof fn lemma_enc_dec_wstr(s: WStrV, b: Seq<u8>, pos: int)
    requires
        wstr_ok(s),
        0 <= pos,
        pos + enc_wstr(s).len() <= b.len(),
        b.subrange(pos, pos + enc_wstr(s).len()) =~= enc_wstr(s),
    ensures
        dec_wstr(b, pos) == Ok::<(WStrV, int), Error>((s, pos + enc_wstr(s).len())),
{
    lemma_pow_vals();
    lemma_enc_wstr_len(s);
    let e = enc_wstr(s);
    let el = e.len() as int;
    assert(b.subrange(pos, pos + 4) =~= e.subrange(0, 4)) by {
        lemma_sub_cat(b, pos, pos + 4, pos + el);
    }
    match s {
        WStrV::Narrow(content) => {
            let c = (content.len() + 1) as nat;
            lemma_le_bytes_len(c, 4);
            assert(e.subrange(0, 4) =~= le_bytes(c, 4));
            lemma_le_val_of_le_bytes(c, 4);
            assert(le_val(b.subrange(pos, pos + 4)) == c);
            let p1 = pos + 4;
            let l = c as int;
            assert(b[p1 + l - 1] == e[4 + content.len() as int]);
            assert(e[4 + content.len() as int] == 0u8);
            assert(b.subrange(p1, p1 + l - 1) =~= content) by {
                assert(forall|i: int|
                    0 <= i < content.len() ==> b.subrange(p1, p1 + l - 1)[i] == e[4 + i]
                        && e[4 + i] == content[i]);
            }
        },
        WStrV::Wide(units) => {
            let c = wide_count_bits(units.len());
            lemma_le_bytes_len(c, 4);
            assert(e.subrange(0, 4) =~= le_bytes(c, 4));
            lemma_le_val_of_le_bytes(c, 4);
            assert(le_val(b.subrange(pos, pos + 4)) == c);
            assert(c == 0x100000000 - (units.len() + 1));
            assert(c > 0x80000000);
            let p1 = pos + 4;
            let m = 0x100000000 - c as int;
            assert(m == units.len() + 1);
            lemma_le16_seq_len(units);
            assert(b[p1 + 2 * m - 2] == e[4 + 2 * units.len() as int]);
            assert(e[4 + 2 * units.len() as int] == 0u8);
            assert(b[p1 + 2 * m - 1] == e[5 + 2 * units.len() as int]);
            assert(e[5 + 2 * units.len() as int] == 0u8);
            assert(b.subrange(p1, p1 + 2 * m - 2) =~= le16_seq(units)) by {
                assert(forall|i: int|
                    0 <= i < 2 * units.len() ==> b.subrange(p1, p1 + 2 * m - 2)[i] == e[4 + i]
                        && e[4 + i] == le16_seq(units)[i]);
            }
            lemma_u16s_of_le16(units);
        },
    }
}

/// `enc_props` of a nonempty list splits off its head record.
pub proof fn lemma_enc_props_cons(p0: PropV, rest: Seq<PropV>)
    ensures
        enc_props(seq![p0] + rest) =~= enc_prop(p0) + enc_props(rest),
{
    let s = seq![p0] + rest;
    assert(s.len() > 0);
    assert(s[0] == p0);
    assert(s.subrange(1, s.len() as int) =~= rest);
    assert(enc_plist(s) =~= enc_prop(p0) + enc_plist(rest));
}

/// A fixed-width field at `pos` is the little-endian bytes of its value.
pub proof fn lemma_dec_fixed(b: Seq<u8>, pos: int, n: nat)
    requires
        0 <= pos,
        pos + n <= b.len(),
    ensures
        le_val(b.subrange(pos, pos + n)) < pow256(n),
        le_bytes(le_val(b.subrange(pos, pos + n)), n) =~= b.subrange(pos, pos + n),
{
    lemma_le_val_bound(b.subrange(pos, pos + n));
    lemma_le_bytes_of_le_val(b.subrange(pos, pos + n));
}

/// Every node payload is at least one byte long.
pub proof fn lemma_enc_node_len_pos(n: NodeV)
    ensures
        enc_node(n).len() >= 1,
{
    match n {
        NodeV::Bool(_) => {},
        NodeV::I8(v) => { lemma_le_bytes_len(bits_of_i8(v), 1); },
        NodeV::I16(v) => { lemma_le_bytes_len(bits_of_i16(v), 2); },
        NodeV::I32(v) => { lemma_le_bytes_len(bits_of_i32(v), 4); },
        NodeV::I64(v) => { lemma_le_bytes_len(bits_of_i64(v), 8); },
        NodeV::U8(v) => { lemma_le_bytes_len(v as nat, 1); },
        NodeV::U16(v) => { lemma_le_bytes_len(v as nat, 2); },
        NodeV::U32(v) => { lemma_le_bytes_len(v as nat, 4); },
        NodeV::U64(v) => { lemma_le_bytes_len(v as nat, 8); },
        NodeV::F32Bits(v) => { lemma_le_bytes_len(v as nat, 4); },
        NodeV::F64Bits(v) => { lemma_le_bytes_len(v as nat, 8); },
        NodeV::Str(s) => { lemma_enc_wstr_len(s); },
        NodeV::Guid(a, _) => { lemma_le_bytes_len(a as nat, 8); },
        NodeV::StructVal { ty_name, .. } => { lemma_enc_wstr_len(ty_name); },
        NodeV::ArrayVal { elem_tag, .. } => { lemma_enc_wstr_len(elem_tag); },
        NodeV::MapVal { key_tag, .. } => { lemma_enc_wstr_len(key_tag); },
        NodeV::SetVal { elem_tag, .. } => { lemma_enc_wstr_len(elem_tag); },
        NodeV::EnumVal { ty_name, .. } => { lemma_enc_wstr_len(ty_name); },
        NodeV::Unknown { tag: _, bytes } => { lemma_le_bytes_len(bytes.len(), 4); },
    }
}

/// A node's own wire tag is a well-formed wire string.
pub proof fn lemma_wstr_ok_tag_of(n: NodeV)
    requires
        wf_node(n),
    ensures
        wstr_ok(tag_of(n)),
{
    lemma_tag_bytes();
}




/// The struct case of [`lemma_dec_node_enc`].
#[verifier::rlimit(80)]
pub proof fn lemma_dec_node_enc_struct(b: Seq<u8>, tag: WStrV, pos: int)
    requires
        dec_node(b, tag, pos) is Ok,
        wstr_ok(tag),
        resolve_spec(tag) == TagKind::StructT,
    ensures
        ({
            let (v, p) = dec_node(b, tag, pos)->Ok_0;
            &&& tag_of(v) == tag
            &&& wf_node(v)
            &&& sizes_ok(v)
            &&& pos <= p <= b.len()
            &&& enc_node(v) =~= b.subrange(pos, p)
        }),
    decreases b.len() - pos, 0int,
{
    let (v, p) = dec_node(b, tag, pos)->Ok_0;
    lemma_dec_wstr_enc(b, pos);
    let (tn, p1) = dec_wstr(b, pos)->Ok_0;
    lemma_dec_fields_enc(b, p1);
    let (fs, p2) = dec_fields(b, p1)->Ok_0;
    lemma_sub_cat(b, pos, p1, p2);
    assert(wf_node(v));
    assert(sizes_ok(v));
    assert(enc_node(v) =~= b.subrange(pos, p));
}

/// The array case of [`lemma_dec_node_enc`].
#[verifier::rlimit(80)]
pub proof fn lemma_dec_node_enc_array(b: Seq<u8>, tag: WStrV, pos: int)
    requires
        dec_node(b, tag, pos) is Ok,
        wstr_ok(tag),
        resolve_spec(tag) == TagKind::ArrayT,
    ensures
        ({
            let (v, p) = dec_node(b, tag, pos)->Ok_0;
            &&& tag_of(v) == tag
            &&& wf_node(v)
            &&& sizes_ok(v)
            &&& pos <= p <= b.len()
            &&& enc_node(v) =~= b.subrange(pos, p)
        }),
    decreases b.len() - pos, 0int,
{
    lemma_pow_vals();
    let (v, p) = dec_node(b, tag, pos)->Ok_0;
    lemma_dec_wstr_enc(b, pos);
    let (t, p1) = dec_wstr(b, pos)->Ok_0;
    lemma_dec_fixed(b, p1, 4);
    let (c, p2) = dec_u32(b, p1)->Ok_0;
    lemma_dec_elems_enc(b, t, c as nat, p2);
    let (es, p3) = dec_elems(b, t, c as nat, p2)->Ok_0;
    assert(le_bytes(es.len(), 4) =~= b.subrange(p1, p2));
    lemma_sub_cat(b, pos, p1, p2);
    lemma_sub_cat(b, pos, p2, p3);
    assert(enc_node(v) =~= b.subrange(pos, p));
}

/// The map case of [`lemma_dec_node_enc`].
#[verifier::rlimit(80)]
pub proof fn lemma_dec_node_enc_map(b: Seq<u8>, tag: WStrV, pos: int)
    requires
        dec_node(b, tag, pos) is Ok,
        wstr_ok(tag),
        resolve_spec(tag) == TagKind::MapT,
    ensures
        ({
            let (v, p) = dec_node(b, tag, pos)->Ok_0;
            &&& tag_of(v) == tag
            &&& wf_node(v)
            &&& sizes_ok(v)
            &&& pos <= p <= b.len()
            &&& enc_node(v) =~= b.subrange(pos, p)
        }),
    decreases b.len() - pos, 0int,
{
    lemma_pow_vals();
    let (v, p) = dec_node(b, tag, pos)->Ok_0;
    lemma_dec_wstr_enc(b, pos);
    let (kt, p1) = dec_wstr(b, pos)->Ok_0;
    lemma_dec_wstr_enc(b, p1);
    let (vt, p2) = dec_wstr(b, p1)->Ok_0;
    lemma_dec_fixed(b, p2, 4);
    let (c, p3) = dec_u32(b, p2)->Ok_0;
    lemma_dec_entries_enc(b, kt, vt, c as nat, p3);
    let (en, p4) = dec_entries(b, kt, vt, c as nat, p3)->Ok_0;
    assert(le_bytes(en.len(), 4) =~= b.subrange(p2, p3));
    lemma_sub_cat(b, pos, p1, p2);
    lemma_sub_cat(b, pos, p2, p3);
    lemma_sub_cat(b, pos, p3, p4);
    assert(enc_node(v) =~= b.subrange(pos, p));
}

/// The set case of [`lemma_dec_node_enc`].
#[verifier::rlimit(80)]
pub proof fn lemma_dec_node_enc_set(b: Seq<u8>, tag: WStrV, pos: int)
    requires
        dec_node(b, tag, pos) is Ok,
        wstr_ok(tag),
        resolve_spec(tag) == TagKind::SetT,
    ensures
        ({
            let (v, p) = dec_node(b, tag, pos)->Ok_0;
            &&& tag_of(v) == tag
            &&& wf_node(v)
            &&& sizes_ok(v)
            &&& pos <= p <= b.len()
            &&& enc_node(v) =~= b.subrange(pos, p)
        }),
    decreases b.len() - pos, 0int,
{
    lemma_pow_vals();
    let (v, p) = dec_node(b, tag, pos)->Ok_0;
    lemma_dec_wstr_enc(b, pos);
    let (t, p1) = dec_wstr(b, pos)->Ok_0;
    lemma_dec_fixed(b, p1, 4);
    let (c, p2) = dec_u32(b, p1)->Ok_0;
    lemma_dec_elems_enc(b, t, c as nat, p2);
    let (es, p3) = dec_elems(b, t, c as nat, p2)->Ok_0;
    assert(le_bytes(es.len(), 4) =~= b.subrange(p1, p2));
    lemma_sub_cat(b, pos, p1, p2);
    lemma_sub_cat(b, pos, p2, p3);
    assert(enc_node(v) =~= b.subrange(pos, p));
}

/// An accepted node payload re-encodes to exactly the bytes it was read
/// from; the node is well formed and its tag is the dispatched one.
#[verifier::rlimit(100)]
#[verifier::spinoff_prover]
pub proof fn lemma_dec_node_enc(b: Seq<u8>, tag: WStrV, pos: int)
    requires
        dec_node(b, tag, pos) is Ok,
        wstr_ok(tag),
    ensures
        ({
            let (v, p) = dec_node(b, tag, pos)->Ok_0;
            &&& tag_of(v) == tag
            &&& wf_node(v)
            &&& sizes_ok(v)
            &&& pos <= p <= b.len()
            &&& enc_node(v) =~= b.subrange(pos, p)
        }),
    decreases b.len() - pos, 1int,
{
    lemma_pow_vals();
    let (v, p) = dec_node(b, tag, pos)->Ok_0;
    match resolve_spec(tag) {
        TagKind::Bool => {
            assert(enc_node(v) =~= b.subrange(pos, p));
        },
        TagKind::I8 => {
            lemma_signed_bits();
            lemma_dec_fixed(b, pos, 1);
        },
        TagKind::I16 => {
            lemma_signed_bits();
            lemma_dec_fixed(b, pos, 2);
        },
        TagKind::I32 => {
            lemma_signed_bits();
            lemma_dec_fixed(b, pos, 4);
        },
        TagKind::I64 => {
            lemma_signed_bits();
            lemma_dec_fixed(b, pos, 8);
        },
        TagKind::U8 => {
            lemma_dec_fixed(b, pos, 1);
        },
        TagKind::U16 => {
            lemma_dec_fixed(b, pos, 2);
        },
        TagKind::U32 => {
            lemma_dec_fixed(b, pos, 4);
        },
        TagKind::U64 => {
            lemma_dec_fixed(b, pos, 8);
        },
        TagKind::F32 => {
            lemma_dec_fixed(b, pos, 4);
        },
        TagKind::F64 => {
            lemma_dec_fixed(b, pos, 8);
        },
        TagKind::Str => {
            lemma_dec_wstr_enc(b, pos);
        },
        TagKind::Guid => {
            lemma_dec_fixed(b, pos, 8);
            lemma_dec_fixed(b, pos + 8, 8);
            lemma_sub_cat(b, pos, pos + 8, pos + 16);
            assert(enc_node(v) =~= b.subrange(pos, p));
        },
        TagKind::StructT => {
            lemma_dec_node_enc_struct(b, tag, pos);
        },
        TagKind::ArrayT => {
            lemma_dec_node_enc_array(b, tag, pos);
        },
        TagKind::MapT => {
            lemma_dec_node_enc_map(b, tag, pos);
        },
        TagKind::SetT => {
            lemma_dec_node_enc_set(b, tag, pos);
        },
        TagKind::EnumT => {
            lemma_dec_wstr_enc(b, pos);
            let (tn, p1) = dec_wstr(b, pos)->Ok_0;
            lemma_dec_wstr_enc(b, p1);
            lemma_sub_cat(b, pos, p1, p);
            assert(enc_node(v) =~= b.subrange(pos, p));
        },
        TagKind::Opaque => {
            lemma_dec_fixed(b, pos, 4);
            let (l, p1) = dec_u32(b, pos)->Ok_0;
            assert(le_bytes((b.subrange(p1, p1 + l).len()) as nat, 4) =~= b.subrange(pos, p1));
            lemma_sub_cat(b, pos, p1, p);
            assert(enc_node(v) =~= b.subrange(pos, p));
        },
    }
}

/// An accepted field list re-encodes to exactly the bytes it was read from,
/// and every record in it is well formed.
#[verifier::rlimit(80)]
pub proof fn lemma_dec_fields_enc(b: Seq<u8>, pos: int)
    requires
        dec_fields(b, pos) is Ok,
    ensures
        ({
            let (ps, p) = dec_fields(b, pos)->Ok_0;
            &&& pos < p <= b.len()
            &&& wf_props(ps)
            &&& sizes_ok_props(ps)
            &&& enc_props(ps) =~= b.subrange(pos, p)
        }),
    decreases b.len() - pos, 2int,
{
    lemma_pow_vals();
    let (ps, p) = dec_fields(b, pos)->Ok_0;
    lemma_dec_wstr_enc(b, pos);
    let (nm, p1) = dec_wstr(b, pos)->Ok_0;
    if nm == none_name_v() {
        assert(ps =~= Seq::<PropV>::empty());
        assert(ps.len() == 0);
        assert(enc_plist(ps) =~= Seq::<u8>::empty());
        assert(enc_props(ps) =~= b.subrange(pos, p));
    } else {
        lemma_dec_wstr_enc(b, p1);
        let (tg, p2) = dec_wstr(b, p1)->Ok_0;
        lemma_dec_fixed(b, p2, 4);
        let (plen, p3) = dec_u32(b, p2)->Ok_0;
        lemma_dec_node_enc(b, tg, p3);
        let (v, p4) = dec_node(b, tg, p3)->Ok_0;
        lemma_dec_fields_enc(b, p4);
        let (rest, p5) = dec_fields(b, p4)->Ok_0;
        let prop = PropV { name: nm, value: v };
        assert(ps == seq![prop] + rest);
        lemma_enc_props_cons(prop, rest);
        assert(enc_node(v).len() == p4 - p3);
        assert(le_bytes(enc_node(v).len(), 4) =~= b.subrange(p2, p3));
        lemma_sub_cat(b, pos, p1, p2);
        lemma_sub_cat(b, pos, p2, p3);
        lemma_sub_cat(b, pos, p3, p4);
        lemma_sub_cat(b, pos, p4, p5);
        assert(enc_prop(prop) =~= b.subrange(pos, p4));
        assert(enc_props(ps) =~= b.subrange(pos, p));
        assert(wf_prop(prop) && sizes_ok_prop(prop));
        assert(ps[0] == prop);
        assert(ps.subrange(1, ps.len() as int) =~= rest);
        assert(wf_props(ps));
        assert(sizes_ok_props(ps));
    }
}

/// Accepted element payloads re-encode exactly; each element carries the
/// dispatched tag.
#[verifier::rlimit(80)]
pub proof fn lemma_dec_elems_enc(b: Seq<u8>, tag: WStrV, cnt: nat, pos: int)
    requires
        dec_elems(b, tag, cnt, pos) is Ok,
        wstr_ok(tag),
        0 <= pos <= b.len(),
    ensures
        ({
            let (es, p) = dec_elems(b, tag, cnt, pos)->Ok_0;
            &&& pos <= p <= b.len()
            &&& es.len() == cnt
            &&& wf_elems(tag, es)
            &&& sizes_ok_nodes(es)
            &&& enc_nodes(es) =~= b.subrange(pos, p)
        }),
    decreases b.len() - pos, 2int,
{
    let (es, p) = dec_elems(b, tag, cnt, pos)->Ok_0;
    if cnt == 0 {
        assert(es =~= Seq::<NodeV>::empty());
        assert(es.len() == 0);
        assert(dec_elems(b, tag, cnt, pos)->Ok_0.1 == pos);
        assert(b.subrange(pos, pos) =~= Seq::<u8>::empty());
    } else {
        lemma_dec_node_enc(b, tag, pos);
        let (v, p1) = dec_node(b, tag, pos)->Ok_0;
        lemma_dec_elems_enc(b, tag, (cnt - 1) as nat, p1);
        let (rest, p2) = dec_elems(b, tag, (cnt - 1) as nat, p1)->Ok_0;
        assert(es == seq![v] + rest);
        assert(es[0] == v);
        assert(es.subrange(1, es.len() as int) =~= rest);
        assert(enc_nodes(es) =~= enc_node(v) + enc_nodes(rest));
        lemma_sub_cat(b, pos, p1, p2);
        assert(enc_nodes(es) =~= b.subrange(pos, p));
        assert(wf_elems(tag, es));
        assert(sizes_ok_nodes(es));
    }
}

/// Accepted entry payload pairs re-encode exactly.
#[verifier::rlimit(80)]
pub proof fn lemma_dec_entries_enc(b: Seq<u8>, kt: WStrV, vt: WStrV, cnt: nat, pos: int)
    requires
        dec_entries(b, kt, vt, cnt, pos) is Ok,
        wstr_ok(kt),
        wstr_ok(vt),
        0 <= pos <= b.len(),
    ensures
        ({
            let (en, p) = dec_entries(b, kt, vt, cnt, pos)->Ok_0;
            &&& pos <= p <= b.len()
            &&& en.len() == cnt
            &&& wf_entries(kt, vt, en)
            &&& sizes_ok_entries(en)
            &&& enc_entries(en) =~= b.subrange(pos, p)
        }),
    decreases b.len() - pos, 2int,
{
    let (en, p) = dec_entries(b, kt, vt, cnt, pos)->Ok_0;
    if cnt == 0 {
        assert(en =~= Seq::<(NodeV, NodeV)>::empty());
        assert(en.len() == 0);
        assert(dec_entries(b, kt, vt, cnt, pos)->Ok_0.1 == pos);
        assert(b.subrange(pos, pos) =~= Seq::<u8>::empty());
    } else {
        lemma_dec_node_enc(b, kt, pos);
        let (k, p1) = dec_node(b, kt, pos)->Ok_0;
        lemma_dec_node_enc(b, vt, p1);
        let (v, p2) = dec_node(b, vt, p1)->Ok_0;
        lemma_dec_entries_enc(b, kt, vt, (cnt - 1) as nat, p2);
        let (rest, p3) = dec_entries(b, kt, vt, (cnt - 1) as nat, p2)->Ok_0;
        assert(en == seq![(k, v)] + rest);
        assert(en[0] == (k, v));
        assert(en.subrange(1, en.len() as int) =~= rest);
        assert(enc_entries(en) =~= enc_node(k) + enc_node(v) + enc_entries(rest));
        lemma_sub_cat(b, pos, p1, p2);
        lemma_sub_cat(b, pos, p2, p3);
        assert(enc_entries(en) =~= b.subrange(pos, p));
        assert(wf_entries(kt, vt, en));
        assert(sizes_ok_entries(en));
    }
}

/// Any buffer the decoder accepts is exactly the encoding of the document it
/// returns, which is itself valid: re-encoding is byte-exact, opaque tail
/// included.
#[verifier::rlimit(80)]
pub proof fn lemma_reencode_exact(b: Seq<u8>)
    requires
        dec_doc(b) is Ok,
    ensures
        valid_doc(dec_doc(b)->Ok_0),
        enc_doc(dec_doc(b)->Ok_0) =~= b,
{
    lemma_pow_vals();
    let d = dec_doc(b)->Ok_0;
    lemma_dec_fixed(b, 4, 4);
    let (ver, p) = dec_u32(b, 4)->Ok_0;
    lemma_dec_fields_enc(b, 8);
    let (props, p2) = dec_fields(b, 8)->Ok_0;
    assert(le_bytes(ver as nat, 4) =~= b.subrange(4, 8));
    lemma_sub_cat(b, 0, 4, 8);
    lemma_sub_cat(b, 0, 8, p2);
    lemma_sub_cat(b, 0, p2, b.len() as int);
    assert(b.subrange(0, b.len() as int) =~= b);
    assert(d.props == props);
    assert(enc_doc(d) =~= b);
}

/// A slice equal to a concatenation splits at the seam.
pub proof fn lemma_slice_split(b: Seq<u8>, pos: int, x: Seq<u8>, y: Seq<u8>)
    requires
        0 <= pos,
        pos + x.len() + y.len() <= b.len(),
        b.subrange(pos, pos + x.len() + y.len()) =~= x + y,
    ensures
        b.subrange(pos, pos + x.len()) =~= x,
        b.subrange(pos + x.len(), pos + x.len() + y.len()) =~= y,
{
    assert forall|i: int| 0 <= i < x.len() implies b.subrange(pos, pos + x.len() as int)[i]
        == x[i] by {
        assert(b.subrange(pos, pos + x.len() + y.len())[i] == x[i]);
    };
    assert forall|i: int|
        0 <= i < y.len() implies b.subrange(
        pos + x.len(),
        pos + x.len() + y.len(),
    )[i] == y[i] by {
        assert(b.subrange(pos, pos + x.len() + y.len())[x.len() + i] == y[i]);
    };
}

/// A node payload placed at `pos` decodes back to the node itself.
#[verifier::rlimit(100)]
#[verifier::spinoff_prover]
pub proof fn lemma_enc_dec_node(n: NodeV, b: Seq<u8>, pos: int)
    requires
        wf_node(n),
        sizes_ok(n),
        0 <= pos,
        pos + enc_node(n).len() <= b.len(),
        b.subrange(pos, pos + enc_node(n).len()) =~= enc_node(n),
    ensures
        dec_node(b, tag_of(n), pos) == Ok::<(NodeV, int), Error>(
            (n, pos + enc_node(n).len()),
        ),
    decreases n, 1int,
{
    lemma_pow_vals();
    lemma_resolve_tag_of(n);
    let len = enc_node(n).len() as int;
    match n {
        NodeV::Bool(v) => {
            assert(b[pos] == enc_node(n)[0]);
        },
        NodeV::I8(v) => {
            lemma_signed_bits();
            lemma_le_bytes_len(bits_of_i8(v), 1);
            lemma_le_val_of_le_bytes(bits_of_i8(v), 1);
        },
        NodeV::I16(v) => {
            lemma_signed_bits();
            lemma_le_bytes_len(bits_of_i16(v), 2);
            lemma_le_val_of_le_bytes(bits_of_i16(v), 2);
        },
        NodeV::I32(v) => {
            lemma_signed_bits();
            lemma_le_bytes_len(bits_of_i32(v), 4);
            lemma_le_val_of_le_bytes(bits_of_i32(v), 4);
        },
        NodeV::I64(v) => {
            lemma_signed_bits();
            lemma_le_bytes_len(bits_of_i64(v), 8);
            lemma_le_val_of_le_bytes(bits_of_i64(v), 8);
        },
        NodeV::U8(v) => {
            lemma_le_bytes_len(v as nat, 1);
            lemma_le_val_of_le_bytes(v as nat, 1);
        },
        NodeV::U16(v) => {
            lemma_le_bytes_len(v as nat, 2);
            lemma_le_val_of_le_bytes(v as nat, 2);
        },
        NodeV::U32(v) => {
            lemma_le_bytes_len(v as nat, 4);
            lemma_le_val_of_le_bytes(v as nat, 4);
        },
        NodeV::U64(v) => {
            lemma_le_bytes_len(v as nat, 8);
            lemma_le_val_of_le_bytes(v as nat, 8);
        },
        NodeV::F32Bits(v) => {
            lemma_le_bytes_len(v as nat, 4);
            lemma_le_val_of_le_bytes(v as nat, 4);
        },
        NodeV::F64Bits(v) => {
            lemma_le_bytes_len(v as nat, 8);
            lemma_le_val_of_le_bytes(v as nat, 8);
        },
        NodeV::Str(st) => {
            lemma_enc_dec_wstr(st, b, pos);
        },
        NodeV::Guid(a, c) => {
            lemma_le_bytes_len(a as nat, 8);
            lemma_le_bytes_len(c as nat, 8);
            lemma_slice_split(b, pos, le_bytes(a as nat, 8), le_bytes(c as nat, 8));
            lemma_le_val_of_le_bytes(a as nat, 8);
            lemma_le_val_of_le_bytes(c as nat, 8);
        },
        NodeV::StructVal { .. } => {
            lemma_enc_dec_node_struct(n, b, pos);
        },
        NodeV::ArrayVal { .. } => {
            lemma_enc_dec_node_array(n, b, pos);
        },
        NodeV::MapVal { .. } => {
            lemma_enc_dec_node_map(n, b, pos);
        },
        NodeV::SetVal { .. } => {
            lemma_enc_dec_node_set(n, b, pos);
        },
        NodeV::EnumVal { ty_name: tn, variant: vn } => {
            lemma_enc_wstr_len(tn);
            lemma_enc_wstr_len(vn);
            lemma_slice_split(b, pos, enc_wstr(tn), enc_wstr(vn));
            lemma_enc_dec_wstr(tn, b, pos);
            lemma_enc_dec_wstr(vn, b, pos + enc_wstr(tn).len());
        },
        NodeV::Unknown { tag, bytes } => {
            lemma_le_bytes_len(bytes.len(), 4);
            lemma_slice_split(b, pos, le_bytes(bytes.len(), 4), bytes);
            lemma_le_val_of_le_bytes(bytes.len(), 4);
            assert(b.subrange(pos + 4, pos + 4 + bytes.len() as int) =~= bytes);
        },
    }
}

/// The struct case of [`lemma_enc_dec_node`].
#[verifier::rlimit(100)]
pub proof fn lemma_enc_dec_node_struct(n: NodeV, b: Seq<u8>, pos: int)
    requires
        wf_node(n),
        sizes_ok(n),
        n is StructVal,
        0 <= pos,
        pos + enc_node(n).len() <= b.len(),
        b.subrange(pos, pos + enc_node(n).len()) =~= enc_node(n),
    ensures
        dec_node(b, tag_of(n), pos) == Ok::<(NodeV, int), Error>(
            (n, pos + enc_node(n).len()),
        ),
    decreases n, 0int,
{
    lemma_resolve_tag_of(n);
    match n {
        NodeV::StructVal { ty_name: tn, fields: fs } => {
            lemma_enc_wstr_len(tn);
            let w1 = enc_wstr(tn).len() as int;
            lemma_slice_split(b, pos, enc_wstr(tn), enc_props(fs));
            lemma_enc_dec_wstr(tn, b, pos);
            lemma_enc_dec_fields(fs, b, pos + w1);
            assert(n == NodeV::StructVal { ty_name: tn, fields: fs });
        },
        _ => {
            assert(false);
        },
    }
}

/// The array case of [`lemma_enc_dec_node`].
#[verifier::rlimit(100)]
pub proof fn lemma_enc_dec_node_array(n: NodeV, b: Seq<u8>, pos: int)
    requires
        wf_node(n),
        sizes_ok(n),
        n is ArrayVal,
        0 <= pos,
        pos + enc_node(n).len() <= b.len(),
        b.subrange(pos, pos + enc_node(n).len()) =~= enc_node(n),
    ensures
        dec_node(b, tag_of(n), pos) == Ok::<(NodeV, int), Error>(
            (n, pos + enc_node(n).len()),
        ),
    decreases n, 0int,
{
    lemma_pow_vals();
    lemma_resolve_tag_of(n);
    match n {
        NodeV::ArrayVal { elem_tag: t, elems: es } => {
            lemma_enc_wstr_len(t);
            lemma_le_bytes_len(es.len(), 4);
            let w1 = enc_wstr(t).len() as int;
            lemma_slice_split(b, pos, enc_wstr(t) + le_bytes(es.len(), 4), enc_nodes(es));
            lemma_slice_split(b, pos, enc_wstr(t), le_bytes(es.len(), 4));
            lemma_enc_dec_wstr(t, b, pos);
            lemma_le_val_of_le_bytes(es.len(), 4);
            lemma_enc_dec_elems(t, es, b, pos + w1 + 4);
            assert(n == NodeV::ArrayVal { elem_tag: t, elems: es });
        },
        _ => {
            assert(false);
        },
    }
}

/// The map case of [`lemma_enc_dec_node`].
#[verifier::rlimit(100)]
pub proof fn lemma_enc_dec_node_map(n: NodeV, b: Seq<u8>, pos: int)
    requires
        wf_node(n),
        sizes_ok(n),
        n is MapVal,
        0 <= pos,
        pos + enc_node(n).len() <= b.len(),
        b.subrange(pos, pos + enc_node(n).len()) =~= enc_node(n),
    ensures
        dec_node(b, tag_of(n), pos) == Ok::<(NodeV, int), Error>(
            (n, pos + enc_node(n).len()),
        ),
    decreases n, 0int,
{
    lemma_pow_vals();
    lemma_resolve_tag_of(n);
    match n {
        NodeV::MapVal { key_tag: kt, value_tag: vt, entries: en } => {
            lemma_enc_wstr_len(kt);
            lemma_enc_wstr_len(vt);
            lemma_le_bytes_len(en.len(), 4);
            let w1 = enc_wstr(kt).len() as int;
            let w2 = enc_wstr(vt).len() as int;
            lemma_slice_split(
                b,
                pos,
                enc_wstr(kt) + enc_wstr(vt) + le_bytes(en.len(), 4),
                enc_entries(en),
            );
            lemma_slice_split(b, pos, enc_wstr(kt) + enc_wstr(vt), le_bytes(en.len(), 4));
            lemma_slice_split(b, pos, enc_wstr(kt), enc_wstr(vt));
            lemma_enc_dec_wstr(kt, b, pos);
            lemma_enc_dec_wstr(vt, b, pos + w1);
            lemma_le_val_of_le_bytes(en.len(), 4);
            lemma_enc_dec_entries(kt, vt, en, b, pos + w1 + w2 + 4);
            assert(n == NodeV::MapVal { key_tag: kt, value_tag: vt, entries: en });
        },
        _ => {
            assert(false);
        },
    }
}

/// The set case of [`lemma_enc_dec_node`].
#[verifier::rlimit(100)]
pub proof fn lemma_enc_dec_node_set(n: NodeV, b: Seq<u8>, pos: int)
    requires
        wf_node(n),
        sizes_ok(n),
        n is SetVal,
        0 <= pos,
        pos + enc_node(n).len() <= b.len(),
        b.subrange(pos, pos + enc_node(n).len()) =~= enc_node(n),
    ensures
        dec_node(b, tag_of(n), pos) == Ok::<(NodeV, int), Error>(
            (n, pos + enc_node(n).len()),
        ),
    decreases n, 0int,
{
    lemma_pow_vals();
    lemma_resolve_tag_of(n);
    match n {
        NodeV::SetVal { elem_tag: t, elems: es } => {
            lemma_enc_wstr_len(t);
            lemma_le_bytes_len(es.len(), 4);
            let w1 = enc_wstr(t).len() as int;
            lemma_slice_split(b, pos, enc_wstr(t) + le_bytes(es.len(), 4), enc_nodes(es));
            lemma_slice_split(b, pos, enc_wstr(t), le_bytes(es.len(), 4));
            lemma_enc_dec_wstr(t, b, pos);
            lemma_le_val_of_le_bytes(es.len(), 4);
            lemma_enc_dec_elems(t, es, b, pos + w1 + 4);
            assert(n == NodeV::SetVal { elem_tag: t, elems: es });
        },
        _ => {
            assert(false);
        },
    }
}

/// A field list's records followed by the sentinel decode back to the list.
#[verifier::rlimit(100)]
#[verifier::spinoff_prover]
pub proof fn lemma_enc_dec_fields(s: Seq<PropV>, b: Seq<u8>, pos: int)
    requires
        wf_props(s),
        sizes_ok_props(s),
        0 <= pos,
        pos + enc_props(s).len() <= b.len(),
        b.subrange(pos, pos + enc_props(s).len()) =~= enc_props(s),
    ensures
        dec_fields(b, pos) == Ok::<(Seq<PropV>, int), Error>(
            (s, pos + enc_props(s).len()),
        ),
    decreases s, 1int,
{
    lemma_pow_vals();
    lemma_tag_bytes();
    let sent = none_name_v();
    lemma_enc_wstr_len(sent);
    if s.len() == 0 {
        assert(s =~= Seq::<PropV>::empty());
        assert(enc_plist(s) =~= Seq::<u8>::empty());
        assert(enc_props(s) =~= enc_wstr(sent));
        assert(b.subrange(pos, pos + enc_wstr(sent).len()) =~= enc_wstr(sent));
        lemma_enc_dec_wstr(sent, b, pos);
        assert(dec_wstr(b, pos) == Ok::<(WStrV, int), Error>(
            (sent, pos + enc_props(s).len()),
        ));
    } else {
        lemma_enc_dec_fields_cons(s, b, pos);
    }
}

/// The nonempty case of [`lemma_enc_dec_fields`].
#[verifier::rlimit(100)]
#[verifier::spinoff_prover]
pub proof fn lemma_enc_dec_fields_cons(s: Seq<PropV>, b: Seq<u8>, pos: int)
    requires
        s.len() > 0,
        wf_props(s),
        sizes_ok_props(s),
        0 <= pos,
        pos + enc_props(s).len() <= b.len(),
        b.subrange(pos, pos + enc_props(s).len()) =~= enc_props(s),
    ensures
        dec_fields(b, pos) == Ok::<(Seq<PropV>, int), Error>(
            (s, pos + enc_props(s).len()),
        ),
    decreases s, 0int,
{
    lemma_pow_vals();
    lemma_tag_bytes();
    {

        let p0 = s[0];
        let rest = s.subrange(1, s.len() as int);
        assert(wf_prop(p0) && wf_props(rest));
        assert(sizes_ok_prop(p0) && sizes_ok_props(rest));
        assert(s =~= seq![p0] + rest);
        lemma_enc_props_cons(p0, rest);
        assert(enc_props(s) =~= enc_prop(p0) + enc_props(rest));
        let nmv = p0.name;
        let tgv = tag_of(p0.value);
        let pay = enc_node(p0.value);
        lemma_enc_wstr_len(nmv);
        lemma_wstr_ok_tag_of(p0.value);
        lemma_enc_wstr_len(tgv);
        lemma_le_bytes_len(pay.len(), 4);
        let w1 = enc_wstr(nmv).len() as int;
        let w2 = enc_wstr(tgv).len() as int;
        assert(b.subrange(pos, pos + enc_props(s).len()) =~= enc_prop(p0) + enc_props(rest));
        lemma_slice_split(b, pos, enc_prop(p0), enc_props(rest));
        assert(enc_prop(p0) =~= (enc_wstr(nmv) + enc_wstr(tgv) + le_bytes(pay.len(), 4)) + pay);
        lemma_slice_split(b, pos, enc_wstr(nmv) + enc_wstr(tgv) + le_bytes(pay.len(), 4), pay);
        lemma_slice_split(b, pos, enc_wstr(nmv) + enc_wstr(tgv), le_bytes(pay.len(), 4));
        lemma_slice_split(b, pos, enc_wstr(nmv), enc_wstr(tgv));
        lemma_enc_dec_wstr(nmv, b, pos);
        assert(dec_wstr(b, pos) == Ok::<(WStrV, int), Error>((nmv, pos + w1)));
        assert(nmv != none_name_v());
        lemma_enc_dec_wstr(tgv, b, pos + w1);
        assert(dec_wstr(b, pos + w1) == Ok::<(WStrV, int), Error>((tgv, pos + w1 + w2)));
        lemma_le_val_of_le_bytes(pay.len(), 4);
        let p3 = pos + w1 + w2 + 4;
        assert(dec_u32(b, pos + w1 + w2) == Ok::<(u32, int), Error>((pay.len() as u32, p3)));
        lemma_enc_dec_node(p0.value, b, p3);
        assert(dec_node(b, tgv, p3) == Ok::<(NodeV, int), Error>((p0.value, p3 + pay.len())));
        lemma_enc_dec_fields(rest, b, p3 + pay.len());
        let pend = pos + enc_props(s).len() as int;
        assert(enc_prop(p0).len() == w1 + w2 + 4 + pay.len());
        assert(pend == p3 + pay.len() + enc_props(rest).len());
        assert(dec_fields(b, p3 + pay.len()) == Ok::<(Seq<PropV>, int), Error>((rest, pend)));
        assert(PropV { name: nmv, value: p0.value } == p0);
        assert(seq![p0] + rest =~= s);
        assert(dec_fields(b, pos) == Ok::<(Seq<PropV>, int), Error>((s, pend)));
    }
}

/// Concatenated element payloads decode back to the elements.
#[verifier::rlimit(100)]
pub proof fn lemma_enc_dec_elems(tag: WStrV, s: Seq<NodeV>, b: Seq<u8>, pos: int)
    requires
        wf_elems(tag, s),
        sizes_ok_nodes(s),
        0 <= pos,
        pos + enc_nodes(s).len() <= b.len(),
        b.subrange(pos, pos + enc_nodes(s).len()) =~= enc_nodes(s),
    ensures
        dec_elems(b, tag, s.len(), pos) == Ok::<(Seq<NodeV>, int), Error>(
            (s, pos + enc_nodes(s).len()),
        ),
    decreases s, 1int,
{
    if s.len() == 0 {
        assert(enc_nodes(s) =~= Seq::<u8>::empty());
        assert(s =~= Seq::<NodeV>::empty());
    } else {
        let e0 = s[0];
        let rest = s.subrange(1, s.len() as int);
        assert(enc_nodes(s) =~= enc_node(e0) + enc_nodes(rest));
        lemma_slice_split(b, pos, enc_node(e0), enc_nodes(rest));
        lemma_enc_node_len_pos(e0);
        lemma_enc_dec_node(e0, b, pos);
        lemma_enc_dec_elems(tag, rest, b, pos + enc_node(e0).len());
        assert(seq![e0] + rest =~= s);
        assert(dec_elems(b, tag, s.len(), pos) == Ok::<(Seq<NodeV>, int), Error>(
            (s, pos + enc_nodes(s).len()),
        ));
    }
}

/// Concatenated entry payload pairs decode back to the entries.
#[verifier::rlimit(100)]
pub proof fn lemma_enc_dec_entries(kt: WStrV, vt: WStrV, s: Seq<(NodeV, NodeV)>, b: Seq<u8>, pos: int)
    requires
        wf_entries(kt, vt, s),
        sizes_ok_entries(s),
        0 <= pos,
        pos + enc_entries(s).len() <= b.len(),
        b.subrange(pos, pos + enc_entries(s).len()) =~= enc_entries(s),
    ensures
        dec_entries(b, kt, vt, s.len(), pos) == Ok::<(Seq<(NodeV, NodeV)>, int), Error>(
            (s, pos + enc_entries(s).len()),
        ),
    decreases s, 1int,
{
    if s.len() == 0 {
        assert(enc_entries(s) =~= Seq::<u8>::empty());
        assert(s =~= Seq::<(NodeV, NodeV)>::empty());
    } else {
        let (k0, v0) = s[0];
        let rest = s.subrange(1, s.len() as int);
        assert(enc_entries(s) =~= (enc_node(k0) + enc_node(v0)) + enc_entries(rest));
        lemma_slice_split(b, pos, enc_node(k0) + enc_node(v0), enc_entries(rest));
        lemma_slice_split(b, pos, enc_node(k0), enc_node(v0));
        lemma_enc_node_len_pos(k0);
        lemma_enc_node_len_pos(v0);
        lemma_enc_dec_node(k0, b, pos);
        lemma_enc_dec_node(v0, b, pos + enc_node(k0).len());
        lemma_enc_dec_entries(kt, vt, rest, b, pos + enc_node(k0).len() + enc_node(v0).len());
        assert(s[0] == (k0, v0));
        assert(seq![(k0, v0)] + rest =~= s);
        assert(dec_entries(b, kt, vt, s.len(), pos) == Ok::<(Seq<(NodeV, NodeV)>, int), Error>(
            (s, pos + enc_entries(s).len()),
        ));
    }
}

/// Decoding the encoding of any valid document gives the document back,
/// version, property order, and opaque tail included.
#[verifier::rlimit(100)]
#[verifier::spinoff_prover]
pub proof fn lemma_decode_encode(d: DocV)
    requires
        valid_doc(d),
    ensures
        dec_doc(enc_doc(d)) == Ok::<DocV, Error>(d),
{
    lemma_pow_vals();
    let b = enc_doc(d);
    lemma_le_bytes_len(d.version as nat, 4);
    assert(b =~= (magic() + le_bytes(d.version as nat, 4)) + (enc_props(d.props) + d.tail));
    assert(b.subrange(0, b.len() as int) =~= b);
    lemma_slice_split(b, 0, magic() + le_bytes(d.version as nat, 4), enc_props(d.props) + d.tail);
    lemma_slice_split(b, 0, magic(), le_bytes(d.version as nat, 4));
    lemma_slice_split(b, 8, enc_props(d.props), d.tail);
    assert(b.subrange(0, 4) =~= magic());
    lemma_le_val_of_le_bytes(d.version as nat, 4);
    assert(dec_u32(b, 4) == Ok::<(u32, int), Error>((d.version, 8)));
    lemma_enc_dec_fields(d.props, b, 8);
    let p2 = 8 + enc_props(d.props).len() as int;
    assert(dec_fields(b, 8) == Ok::<(Seq<PropV>, int), Error>((d.props, p2)));
    assert(b.subrange(p2, b.len() as int) =~= d.tail);
    assert(dec_doc(b) == Ok::<DocV, Error>(
        DocV { version: d.version, props: d.props, tail: b.subrange(p2, b.len() as int) },
    ));
    assert(DocV { version: d.version, props: d.props, tail: b.subrange(p2, b.len() as int) }
        =~~= d);
}

} // verus!
