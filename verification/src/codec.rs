//! The executable codec: `decode` is held to the specification decoder
//! exactly — same documents, same errors, on every buffer — and `encode`
//! returns precisely the specification encoding of every valid document,
//! rejecting invalid ones.

use vstd::prelude::*;

use crate::dec::dec_doc;
use crate::dec::dec_elems;
use crate::dec::dec_entries;
use crate::dec::dec_fields;
use crate::dec::dec_node;
use crate::dec::dec_u16;
use crate::dec::dec_u32;
use crate::dec::dec_u64;
use crate::dec::dec_u8;
use crate::dec::dec_wstr;
use crate::dec::u16s_of;
use crate::enc::enc_node;
use crate::enc::enc_plist;
use crate::enc::enc_prop;
use crate::enc::enc_props;
use crate::enc::enc_wstr;
use crate::enc::enc_doc;
use crate::enc::le16_seq;
use crate::enc::magic;
use crate::enc::sizes_ok;
use crate::enc::sizes_ok_prop;
use crate::enc::sizes_ok_props;
use crate::enc::valid_doc;
use crate::enc::wide_count_bits;
use crate::model::Document;
use crate::model::Error;
use crate::model::NodeV;
use crate::model::PropV;
use crate::model::Property;
use crate::model::PropertyNode;
use crate::model::TagKind;
use crate::model::WStr;
use crate::model::WStrV;
use crate::model::kind_of;
use crate::model::node_view;
use crate::model::none_name;
use crate::model::none_name_v;
use crate::model::prop_view;
use crate::model::props_view;
use crate::model::resolve_spec;
use crate::model::tag_bool;
use crate::model::tag_i8;
use crate::model::tag_i16;
use crate::model::tag_i32;
use crate::model::tag_i64;
use crate::model::tag_u8;
use crate::model::tag_u16;
use crate::model::tag_u32;
use crate::model::tag_u64;
use crate::model::tag_f32;
use crate::model::tag_f64;
use crate::model::tag_str;
use crate::model::tag_guid;
use crate::model::tag_struct;
use crate::model::tag_array;
use crate::model::tag_map;
use crate::model::tag_set;
use crate::model::tag_enum;
use crate::model::tag_of;
use crate::model::wf_doc;
use crate::model::wf_node;
use crate::model::wf_prop;
use crate::model::wf_props;
use crate::num::bits_of_i16;
use crate::num::bits_of_i32;
use crate::num::bits_of_i64;
use crate::num::bits_of_i8;
use crate::num::i16_of_bits;
use crate::num::i32_of_bits;
use crate::num::i64_of_bits;
use crate::num::i8_of_bits;
use crate::num::le_val;
use crate::num::lemma_le_val_bound;
use crate::num::read_le;
use crate::num::write_le;
use crate::roundtrip::lemma_pow_vals;

verus! {

/// The wire tag bytes of a built-in handler; the opaque handler has none.
pub open spec fn spec_tag_bytes(k: TagKind) -> Seq<u8> {
    match k {
        TagKind::Bool => tag_bool(),
        TagKind::I8 => tag_i8(),
        TagKind::I16 => tag_i16(),
        TagKind::I32 => tag_i32(),
        TagKind::I64 => tag_i64(),
        TagKind::U8 => tag_u8(),
        TagKind::U16 => tag_u16(),
        TagKind::U32 => tag_u32(),
        TagKind::U64 => tag_u64(),
        TagKind::F32 => tag_f32(),
        TagKind::F64 => tag_f64(),
        TagKind::Str => tag_str(),
        TagKind::Guid => tag_guid(),
        TagKind::StructT => tag_struct(),
        TagKind::ArrayT => tag_array(),
        TagKind::MapT => tag_map(),
        TagKind::SetT => tag_set(),
        TagKind::EnumT => tag_enum(),
        TagKind::Opaque => Seq::empty(),
    }
}

/// A node's wire tag, seen through its handler.
pub proof fn lemma_tag_of_known(n: NodeV)
    requires
        kind_of(n) != TagKind::Opaque,
    ensures
        tag_of(n) == WStrV::Narrow(spec_tag_bytes(kind_of(n))),
{
}

fn push_all(out: &mut Vec<u8>, bytes: &[u8])
    ensures
        final(out)@ =~= old(out)@ + bytes@,
{
    let mut i: usize = 0;
    while i < bytes.len()
        invariant
            i <= bytes@.len(),
            out@ =~= old(out)@ + bytes@.take(i as int),
        decreases bytes@.len() - i,
    {
        out.push(bytes[i]);
        i = i + 1;
        proof {
            assert(out@ =~= old(out)@ + bytes@.take(i as int));
        }
    }
    proof {
        assert(bytes@.take(bytes@.len() as int) =~= bytes@);
    }
}

/// The wire bytes of a built-in tag.
pub(crate) fn tag_vec(k: TagKind) -> (v: Vec<u8>)
    ensures
        v@ =~= spec_tag_bytes(k),
{
    let mut v: Vec<u8> = Vec::new();
    match k {
        TagKind::Bool => push_all(&mut v, &[66u8, 111u8, 111u8, 108u8]),
        TagKind::I8 => push_all(&mut v, &[73u8, 110u8, 116u8, 56u8]),
        TagKind::I16 => push_all(&mut v, &[73u8, 110u8, 116u8, 49u8, 54u8]),
        TagKind::I32 => push_all(&mut v, &[73u8, 110u8, 116u8, 51u8, 50u8]),
        TagKind::I64 => push_all(&mut v, &[73u8, 110u8, 116u8, 54u8, 52u8]),
        TagKind::U8 => push_all(&mut v, &[85u8, 73u8, 110u8, 116u8, 56u8]),
        TagKind::U16 => push_all(&mut v, &[85u8, 73u8, 110u8, 116u8, 49u8, 54u8]),
        TagKind::U32 => push_all(&mut v, &[85u8, 73u8, 110u8, 116u8, 51u8, 50u8]),
        TagKind::U64 => push_all(&mut v, &[85u8, 73u8, 110u8, 116u8, 54u8, 52u8]),
        TagKind::F32 => push_all(&mut v, &[70u8, 108u8, 111u8, 97u8, 116u8]),
        TagKind::F64 => push_all(&mut v, &[68u8, 111u8, 117u8, 98u8, 108u8, 101u8]),
        TagKind::Str => push_all(&mut v, &[83u8, 116u8, 114u8]),
        TagKind::Guid => push_all(&mut v, &[71u8, 117u8, 105u8, 100u8]),
        TagKind::StructT => push_all(&mut v, &[83u8, 116u8, 114u8, 117u8, 99u8, 116u8]),
        TagKind::ArrayT => push_all(&mut v, &[65u8, 114u8, 114u8, 97u8, 121u8]),
        TagKind::MapT => push_all(&mut v, &[77u8, 97u8, 112u8]),
        TagKind::SetT => push_all(&mut v, &[83u8, 101u8, 116u8]),
        TagKind::EnumT => push_all(&mut v, &[69u8, 110u8, 117u8, 109u8]),
        TagKind::Opaque => (),
    }
    v
}

fn bytes_eq(a: &Vec<u8>, b: &Vec<u8>) -> (r: bool)
    ensures
        r == (a@ == b@),
{
    if a.len() != b.len() {
        return false;
    }
    let mut i: usize = 0;
    while i < a.len()
        invariant
            a@.len() == b@.len(),
            i <= a@.len(),
            forall|j: int| 0 <= j < i ==> a@[j] == b@[j],
        decreases a@.len() - i,
    {
        if a[i] != b[i] {
            return false;
        }
        i = i + 1;
    }
    proof {
        assert(a@ =~= b@);
    }
    true
}

/// The registry lookup: built-in tag names map to their handlers, anything
/// else to the opaque passthrough.
pub(crate) fn resolve_tag(w: &WStr) -> (k: TagKind)
    ensures
        k == resolve_spec(w@),
{
    match w {
        WStr::Wide(_) => TagKind::Opaque,
        WStr::Narrow(v) => {
            if bytes_eq(v, &tag_vec(TagKind::Bool)) {
                TagKind::Bool
            } else if bytes_eq(v, &tag_vec(TagKind::I8)) {
                TagKind::I8
            } else if bytes_eq(v, &tag_vec(TagKind::I16)) {
                TagKind::I16
            } else if bytes_eq(v, &tag_vec(TagKind::I32)) {
                TagKind::I32
            } else if bytes_eq(v, &tag_vec(TagKind::I64)) {
                TagKind::I64
            } else if bytes_eq(v, &tag_vec(TagKind::U8)) {
                TagKind::U8
            } else if bytes_eq(v, &tag_vec(TagKind::U16)) {
                TagKind::U16
            } else if bytes_eq(v, &tag_vec(TagKind::U32)) {
                TagKind::U32
            } else if bytes_eq(v, &tag_vec(TagKind::U64)) {
                TagKind::U64
            } else if bytes_eq(v, &tag_vec(TagKind::F32)) {
                TagKind::F32
            } else if bytes_eq(v, &tag_vec(TagKind::F64)) {
                TagKind::F64
            } else if bytes_eq(v, &tag_vec(TagKind::Str)) {
                TagKind::Str
            } else if bytes_eq(v, &tag_vec(TagKind::Guid)) {
                TagKind::Guid
            } else if bytes_eq(v, &tag_vec(TagKind::StructT)) {
                TagKind::StructT
            } else if bytes_eq(v, &tag_vec(TagKind::ArrayT)) {
                TagKind::ArrayT
            } else if bytes_eq(v, &tag_vec(TagKind::MapT)) {
                TagKind::MapT
            } else if bytes_eq(v, &tag_vec(TagKind::SetT)) {
                TagKind::SetT
            } else if bytes_eq(v, &tag_vec(TagKind::EnumT)) {
                TagKind::EnumT
            } else {
                TagKind::Opaque
            }
        },
    }
}

fn is_none_name(w: &WStr) -> (r: bool)
    ensures
        r == (w@ == none_name_v()),
{
    match w {
        WStr::Wide(_) => false,
        WStr::Narrow(v) => {
            let mut nn: Vec<u8> = Vec::new();
            push_all(&mut nn, &[78u8, 111u8, 110u8, 101u8]);
            proof {
                assert(nn@ =~= none_name());
            }
            bytes_eq(v, &nn)
        },
    }
}

fn copy_bytes(v: &Vec<u8>) -> (r: Vec<u8>)
    ensures
        r@ =~= v@,
{
    let mut r: Vec<u8> = Vec::new();
    let mut i: usize = 0;
    while i < v.len()
        invariant
            i <= v@.len(),
            r@ =~= v@.take(i as int),
        decreases v@.len() - i,
    {
        r.push(v[i]);
        i = i + 1;
        proof {
            assert(r@ =~= v@.take(i as int));
        }
    }
    proof {
        assert(v@.take(v@.len() as int) =~= v@);
    }
    r
}

fn copy_words(v: &Vec<u16>) -> (r: Vec<u16>)
    ensures
        r@ =~= v@,
{
    let mut r: Vec<u16> = Vec::new();
    let mut i: usize = 0;
    while i < v.len()
        invariant
            i <= v@.len(),
            r@ =~= v@.take(i as int),
        decreases v@.len() - i,
    {
        r.push(v[i]);
        i = i + 1;
        proof {
            assert(r@ =~= v@.take(i as int));
        }
    }
    proof {
        assert(v@.take(v@.len() as int) =~= v@);
    }
    r
}

fn wstr_copy(s: &WStr) -> (r: WStr)
    ensures
        r@ == s@,
{
    match s {
        WStr::Narrow(v) => WStr::Narrow(copy_bytes(v)),
        WStr::Wide(v) => WStr::Wide(copy_words(v)),
    }
}

/// A copy of `b[from .. to]`.
fn copy_range(b: &Vec<u8>, from: usize, to: usize) -> (r: Vec<u8>)
    requires
        from <= to <= b@.len(),
    ensures
        r@ =~= b@.subrange(from as int, to as int),
{
    let mut r: Vec<u8> = Vec::new();
    let mut i: usize = from;
    while i < to
        invariant
            from <= i <= to <= b@.len(),
            r@ =~= b@.subrange(from as int, i as int),
        decreases to - i,
    {
        r.push(b[i]);
        i = i + 1;
        proof {
            assert(r@ =~= b@.subrange(from as int, i as int));
        }
    }
    r
}

fn read_u8x(b: &Vec<u8>, pos: usize) -> (r: Result<(u8, usize), Error>)
    ensures
        match dec_u8(b@, pos as int) {
            Ok((v, p)) => r matches Ok(x) && x.0 == v && x.1 == p,
            Err(e) => r matches Err(e2) && e2 == e,
        },
{
    if pos < b.len() {
        Ok((b[pos], pos + 1))
    } else {
        Err(Error::UnexpectedEof)
    }
}

fn read_u16x(b: &Vec<u8>, pos: usize) -> (r: Result<(u16, usize), Error>)
    ensures
        match dec_u16(b@, pos as int) {
            Ok((v, p)) => r matches Ok(x) && x.0 == v && x.1 == p,
            Err(e) => r matches Err(e2) && e2 == e,
        },
{
    if pos <= b.len() && b.len() - pos >= 2 {
        let v = read_le(b, pos, 2);
        proof {
            lemma_pow_vals();
            lemma_le_val_bound(b@.subrange(pos as int, pos + 2));
            crate::num::lemma_pow256_mono(2, 8);
        }
        Ok((v as u16, pos + 2))
    } else {
        Err(Error::UnexpectedEof)
    }
}

fn read_u32x(b: &Vec<u8>, pos: usize) -> (r: Result<(u32, usize), Error>)
    ensures
        match dec_u32(b@, pos as int) {
            Ok((v, p)) => r matches Ok(x) && x.0 == v && x.1 == p,
            Err(e) => r matches Err(e2) && e2 == e,
        },
{
    if pos <= b.len() && b.len() - pos >= 4 {
        let v = read_le(b, pos, 4);
        proof {
            lemma_pow_vals();
            lemma_le_val_bound(b@.subrange(pos as int, pos + 4));
            crate::num::lemma_pow256_mono(4, 8);
        }
        Ok((v as u32, pos + 4))
    } else {
        Err(Error::UnexpectedEof)
    }
}

fn read_u64x(b: &Vec<u8>, pos: usize) -> (r: Result<(u64, usize), Error>)
    ensures
        match dec_u64(b@, pos as int) {
            Ok((v, p)) => r matches Ok(x) && x.0 == v && x.1 == p,
            Err(e) => r matches Err(e2) && e2 == e,
        },
{
    if pos <= b.len() && b.len() - pos >= 8 {
        let v = read_le(b, pos, 8);
        proof {
            lemma_pow_vals();
            lemma_le_val_bound(b@.subrange(pos as int, pos + 8));
        }
        Ok((v, pos + 8))
    } else {
        Err(Error::UnexpectedEof)
    }
}

/// Reads one wire string.
#[verifier::rlimit(80)]
fn read_wstr(b: &Vec<u8>, pos: usize) -> (r: Result<(WStr, usize), Error>)
    ensures
        match dec_wstr(b@, pos as int) {
            Ok((s, p)) => r matches Ok(x) && x.0@ == s && x.1 == p,
            Err(e) => r matches Err(e2) && e2 == e,
        },
{
    let (c, p) = match read_u32x(b, pos) {
        Ok(x) => x,
        Err(e) => {
            return Err(e);
        },
    };
    if c == 0 || c == 0x80000000u32 {
        return Err(Error::InvalidEncoding);
    }
    if c < 0x80000000u32 {
        let l = c as usize;
        if p <= b.len() && b.len() - p >= l {
            if b[p + l - 1] == 0u8 {
                let content = copy_range(b, p, p + l - 1);
                Ok((WStr::Narrow(content), p + l))
            } else {
                Err(Error::InvalidEncoding)
            }
        } else {
            Err(Error::UnexpectedEof)
        }
    } else {
        let m = (0x100000000u64 - c as u64) as usize;
        if p <= b.len() && (b.len() - p) as u64 >= 2 * m as u64 {
            if b[p + 2 * m - 2] == 0u8 && b[p + 2 * m - 1] == 0u8 {
                let mut units: Vec<u16> = Vec::new();
                let ghost span = b@.subrange(p as int, p + 2 * m - 2);
                let blen = b.len();
                let mut i: usize = 0;
                proof {
                    assert(u16s_of(span.subrange(0, 0)) =~= Seq::<u16>::empty());
                }
                while i < m - 1
                    invariant
                        i <= m - 1,
                        m >= 1,
                        p + 2 * m <= b@.len(),
                        b@.len() == blen,
                        span =~= b@.subrange(p as int, p + 2 * m - 2),
                        units@ =~= u16s_of(span.subrange(0, 2 * i)),
                    decreases m - 1 - i,
                {
                    let w: u16 = (b[p + 2 * i] as u16) + 256 * (b[p + 2 * i + 1] as u16);
                    proof {
                        lemma_u16s_take_step(span, i as int);
                        assert(span[2 * i] == b@[p + 2 * i]);
                        assert(span[2 * i + 1] == b@[p + 2 * i + 1]);
                    }
                    units.push(w);
                    i = i + 1;
                    proof {
                        assert(units@ =~= u16s_of(span.subrange(0, 2 * i)));
                    }
                }
                proof {
                    assert(span.subrange(0, 2 * (m - 1)) =~= span);
                }
                Ok((WStr::Wide(units), p + 2 * m))
            } else {
                Err(Error::InvalidEncoding)
            }
        } else {
            Err(Error::UnexpectedEof)
        }
    }
}

/// One step of reading byte pairs: the next unit extends the prefix.
pub(crate) proof fn lemma_u16s_take_step(span: Seq<u8>, i: int)
    requires
        0 <= i,
        2 * i + 2 <= span.len(),
    ensures
        u16s_of(span.subrange(0, 2 * i + 2)) =~= u16s_of(span.subrange(0, 2 * i)).push(
            (span[2 * i] + 256 * span[2 * i + 1]) as u16,
        ),
    decreases i,
{
    if i == 0 {
        let a = span.subrange(0, 2);
        assert(a.len() == 2);
        assert(a[0] == span[0] && a[1] == span[1]);
        assert(a.subrange(2, 2) =~= Seq::<u8>::empty());
        assert(u16s_of(a.subrange(2, 2)) =~= Seq::<u16>::empty());
        assert(u16s_of(a) =~= seq![(span[0] + 256 * span[1]) as u16]);
        assert(u16s_of(span.subrange(0, 0)) =~= Seq::<u16>::empty());
        assert(u16s_of(span.subrange(0, 0)).push((span[0] + 256 * span[1]) as u16) =~= seq![(
            span[0] + 256 * span[1]) as u16]);
    } else {
        let t = span.subrange(2, span.len() as int);
        lemma_u16s_take_step(t, i - 1);
        let a = span.subrange(0, 2 * i + 2);
        let c = span.subrange(0, 2 * i);
        assert(a.subrange(2, a.len() as int) =~= t.subrange(0, 2 * i));
        assert(c.subrange(2, c.len() as int) =~= t.subrange(0, 2 * i - 2));
        assert(a[0] == span[0] && a[1] == span[1]);
        assert(c[0] == span[0] && c[1] == span[1]);
        assert(t[2 * (i - 1)] == span[2 * i] && t[2 * (i - 1) + 1] == span[2 * i + 1]);
        assert(u16s_of(a) =~= seq![(span[0] + 256 * span[1]) as u16] + u16s_of(
            t.subrange(0, 2 * i),
        ));
        assert(u16s_of(c) =~= seq![(span[0] + 256 * span[1]) as u16] + u16s_of(
            t.subrange(0, 2 * i - 2),
        ));
    }
}


/// One container case of [`read_node`].
#[verifier::rlimit(100)]
fn read_node_struct(b: &Vec<u8>, tag: &WStr, pos: usize) -> (r: Result<(PropertyNode, usize), Error>)
    requires
        resolve_spec(tag@) == TagKind::StructT,
    ensures
        match dec_node(b@, tag@, pos as int) {
            Ok((v, p)) => r matches Ok(x) && node_view(x.0) == v && x.1 == p,
            Err(e) => r matches Err(e2) && e2 == e,
        },
    decreases b@.len() - pos, 0int,
{
    match read_wstr(b, pos) {
            Err(e) => Err(e),
            Ok((tn, p1)) => {
                if !(pos < p1 && p1 <= b.len()) {
                    Err(Error::InvalidEncoding)
                } else {
                    match read_fields(b, p1) {
                        Err(e) => Err(e),
                        Ok((fs, p2)) => Ok(
                            (PropertyNode::StructVal { ty_name: tn, fields: fs }, p2),
                        ),
                    }
                }
            },
        }
}

/// One container case of [`read_node`].
#[verifier::rlimit(100)]
fn read_node_array(b: &Vec<u8>, tag: &WStr, pos: usize) -> (r: Result<(PropertyNode, usize), Error>)
    requires
        resolve_spec(tag@) == TagKind::ArrayT,
    ensures
        match dec_node(b@, tag@, pos as int) {
            Ok((v, p)) => r matches Ok(x) && node_view(x.0) == v && x.1 == p,
            Err(e) => r matches Err(e2) && e2 == e,
        },
    decreases b@.len() - pos, 0int,
{
    match read_wstr(b, pos) {
            Err(e) => Err(e),
            Ok((t, p1)) => match read_u32x(b, p1) {
                Err(e) => Err(e),
                Ok((c, p2)) => {
                    if !(pos < p2 && p2 <= b.len()) {
                        Err(Error::InvalidEncoding)
                    } else {
                        match read_elems(b, &t, c, p2) {
                            Err(e) => Err(e),
                            Ok((es, p3)) => Ok(
                                (PropertyNode::ArrayVal { elem_tag: t, elems: es }, p3),
                            ),
                        }
                    }
                },
            },
        }
}

/// One container case of [`read_node`].
#[verifier::rlimit(100)]
fn read_node_map(b: &Vec<u8>, tag: &WStr, pos: usize) -> (r: Result<(PropertyNode, usize), Error>)
    requires
        resolve_spec(tag@) == TagKind::MapT,
    ensures
        match dec_node(b@, tag@, pos as int) {
            Ok((v, p)) => r matches Ok(x) && node_view(x.0) == v && x.1 == p,
            Err(e) => r matches Err(e2) && e2 == e,
        },
    decreases b@.len() - pos, 0int,
{
    match read_wstr(b, pos) {
            Err(e) => Err(e),
            Ok((kt, p1)) => match read_wstr(b, p1) {
                Err(e) => Err(e),
                Ok((vt, p2)) => match read_u32x(b, p2) {
                    Err(e) => Err(e),
                    Ok((c, p3)) => {
                        if !(pos < p3 && p3 <= b.len()) {
                            Err(Error::InvalidEncoding)
                        } else {
                            match read_entries(b, &kt, &vt, c, p3) {
                                Err(e) => Err(e),
                                Ok((en, p4)) => Ok(
                                    (
                                        PropertyNode::MapVal {
                                            key_tag: kt,
                                            value_tag: vt,
                                            entries: en,
                                        },
                                        p4,
                                    ),
                                ),
                            }
                        }
                    },
                },
            },
        }
}

/// One container case of [`read_node`].
#[verifier::rlimit(100)]
fn read_node_set(b: &Vec<u8>, tag: &WStr, pos: usize) -> (r: Result<(PropertyNode, usize), Error>)
    requires
        resolve_spec(tag@) == TagKind::SetT,
    ensures
        match dec_node(b@, tag@, pos as int) {
            Ok((v, p)) => r matches Ok(x) && node_view(x.0) == v && x.1 == p,
            Err(e) => r matches Err(e2) && e2 == e,
        },
    decreases b@.len() - pos, 0int,
{
    match read_wstr(b, pos) {
            Err(e) => Err(e),
            Ok((t, p1)) => match read_u32x(b, p1) {
                Err(e) => Err(e),
                Ok((c, p2)) => {
                    if !(pos < p2 && p2 <= b.len()) {
                        Err(Error::InvalidEncoding)
                    } else {
                        match read_elems(b, &t, c, p2) {
                            Err(e) => Err(e),
                            Ok((es, p3)) => Ok(
                                (PropertyNode::SetVal { elem_tag: t, elems: es }, p3),
                            ),
                        }
                    }
                },
            },
        }
}

/// Reads one node payload, dispatching on the property's tag.
#[verifier::rlimit(100)]
#[verifier::spinoff_prover]
pub(crate) fn read_node(b: &Vec<u8>, tag: &WStr, pos: usize) -> (r: Result<(PropertyNode, usize), Error>)
    ensures
        match dec_node(b@, tag@, pos as int) {
            Ok((v, p)) => r matches Ok(x) && node_view(x.0) == v && x.1 == p,
            Err(e) => r matches Err(e2) && e2 == e,
        },
    decreases b@.len() - pos, 1int,
{
    match resolve_tag(tag) {
        TagKind::Bool => match read_u8x(b, pos) {
            Err(e) => Err(e),
            Ok((x, p)) => {
                if x == 0 {
                    Ok((PropertyNode::Bool(false), p))
                } else if x == 1 {
                    Ok((PropertyNode::Bool(true), p))
                } else {
                    Err(Error::InvalidEncoding)
                }
            },
        },
        TagKind::I8 => match read_u8x(b, pos) {
            Err(e) => Err(e),
            Ok((x, p)) => Ok((PropertyNode::I8(i8_from_bits(x)), p)),
        },
        TagKind::I16 => match read_u16x(b, pos) {
            Err(e) => Err(e),
            Ok((x, p)) => Ok((PropertyNode::I16(i16_from_bits(x)), p)),
        },
        TagKind::I32 => match read_u32x(b, pos) {
            Err(e) => Err(e),
            Ok((x, p)) => Ok((PropertyNode::I32(i32_from_bits(x)), p)),
        },
        TagKind::I64 => match read_u64x(b, pos) {
            Err(e) => Err(e),
            Ok((x, p)) => Ok((PropertyNode::I64(i64_from_bits(x)), p)),
        },
        TagKind::U8 => match read_u8x(b, pos) {
            Err(e) => Err(e),
            Ok((x, p)) => Ok((PropertyNode::U8(x), p)),
        },
        TagKind::U16 => match read_u16x(b, pos) {
            Err(e) => Err(e),
            Ok((x, p)) => Ok((PropertyNode::U16(x), p)),
        },
        TagKind::U32 => match read_u32x(b, pos) {
            Err(e) => Err(e),
            Ok((x, p)) => Ok((PropertyNode::U32(x), p)),
        },
        TagKind::U64 => match read_u64x(b, pos) {
            Err(e) => Err(e),
            Ok((x, p)) => Ok((PropertyNode::U64(x), p)),
        },
        TagKind::F32 => match read_u32x(b, pos) {
            Err(e) => Err(e),
            Ok((x, p)) => Ok((PropertyNode::F32Bits(x), p)),
        },
        TagKind::F64 => match read_u64x(b, pos) {
            Err(e) => Err(e),
            Ok((x, p)) => Ok((PropertyNode::F64Bits(x), p)),
        },
        TagKind::Str => match read_wstr(b, pos) {
            Err(e) => Err(e),
            Ok((sv, p)) => Ok((PropertyNode::Str(sv), p)),
        },
        TagKind::Guid => match read_u64x(b, pos) {
            Err(e) => Err(e),
            Ok((a, p1)) => match read_u64x(b, p1) {
                Err(e) => Err(e),
                Ok((c, p2)) => Ok((PropertyNode::Guid(a, c), p2)),
            },
        },
        TagKind::StructT => read_node_struct(b, tag, pos),
        TagKind::ArrayT => read_node_array(b, tag, pos),
        TagKind::MapT => read_node_map(b, tag, pos),
        TagKind::SetT => read_node_set(b, tag, pos),
        TagKind::EnumT => match read_wstr(b, pos) {
            Err(e) => Err(e),
            Ok((tn, p1)) => match read_wstr(b, p1) {
                Err(e) => Err(e),
                Ok((vn, p2)) => Ok((PropertyNode::EnumVal { ty_name: tn, variant: vn }, p2)),
            },
        },
        TagKind::Opaque => match read_u32x(b, pos) {
            Err(e) => Err(e),
            Ok((l, p1)) => {
                if p1 <= b.len() && b.len() - p1 >= l as usize {
                    let bytes = copy_range(b, p1, p1 + l as usize);
                    Ok((PropertyNode::Unknown { tag: wstr_copy(tag), bytes }, p1 + l as usize))
                } else {
                    Err(Error::TruncatedInput)
                }
            },
        },
    }
}

/// Reads property records up to and including the sentinel name.
#[verifier::rlimit(100)]
fn read_fields(b: &Vec<u8>, pos: usize) -> (r: Result<(Vec<Property>, usize), Error>)
    ensures
        match dec_fields(b@, pos as int) {
            Ok((ps, p)) => r matches Ok(x) && props_view(x.0@) == ps && x.1 == p,
            Err(e) => r matches Err(e2) && e2 == e,
        },
    decreases b@.len() - pos, 2int,
{
    let (nm, p1) = match read_wstr(b, pos) {
        Ok(x) => x,
        Err(e) => {
            return Err(e);
        },
    };
    if is_none_name(&nm) {
        let out: Vec<Property> = Vec::new();
        proof {
            assert(props_view(out@) =~= Seq::<PropV>::empty());
        }
        return Ok((out, p1));
    }
    let (tg, p2) = match read_wstr(b, p1) {
        Ok(x) => x,
        Err(e) => {
            return Err(e);
        },
    };
    let (plen, p3) = match read_u32x(b, p2) {
        Ok(x) => x,
        Err(e) => {
            return Err(e);
        },
    };
    if !(p3 <= b.len() && b.len() - p3 >= plen as usize) {
        return Err(Error::TruncatedInput);
    }
    if !(pos < p3) {
        return Err(Error::InvalidEncoding);
    }
    let (v, p4) = match read_node(b, &tg, p3) {
        Ok(x) => x,
        Err(e) => {
            return Err(e);
        },
    };
    if p4 != p3 + plen as usize {
        return Err(Error::InvalidEncoding);
    }
    let (mut rest, p5) = match read_fields(b, p4) {
        Ok(x) => x,
        Err(e) => {
            return Err(e);
        },
    };
    let ghost old_rest = rest@;
    let prop = Property { name: nm, value: v };
    rest.insert(0, prop);
    proof {
        assert(rest@ =~= seq![prop] + old_rest);
        assert((seq![prop] + old_rest)[0] == prop);
        assert((seq![prop] + old_rest).subrange(1, (seq![prop] + old_rest).len() as int)
            =~= old_rest);
        assert(props_view(rest@) =~= seq![prop_view(prop)] + props_view(old_rest));
    }
    Ok((rest, p5))
}

/// Reads `cnt` bare element payloads of one tag.
#[verifier::rlimit(100)]
fn read_elems(b: &Vec<u8>, tag: &WStr, cnt: u32, pos: usize) -> (r: Result<
    (Vec<PropertyNode>, usize),
    Error,
>)
    ensures
        match dec_elems(b@, tag@, cnt as nat, pos as int) {
            Ok((es, p)) => r matches Ok(x) && crate::model::nodes_view(x.0@) == es && x.1 == p,
            Err(e) => r matches Err(e2) && e2 == e,
        },
    decreases b@.len() - pos, 2int, cnt,
{
    if cnt == 0 {
        let out: Vec<PropertyNode> = Vec::new();
        proof {
            assert(crate::model::nodes_view(out@) =~= Seq::<NodeV>::empty());
        }
        return Ok((out, pos));
    }
    let (v, p1) = match read_node(b, tag, pos) {
        Ok(x) => x,
        Err(e) => {
            return Err(e);
        },
    };
    if !(pos < p1 && p1 <= b.len()) {
        return Err(Error::InvalidEncoding);
    }
    let (mut rest, p2) = match read_elems(b, tag, cnt - 1, p1) {
        Ok(x) => x,
        Err(e) => {
            return Err(e);
        },
    };
    let ghost old_rest = rest@;
    rest.insert(0, v);
    proof {
        assert(rest@ =~= seq![v] + old_rest);
        assert((seq![v] + old_rest)[0] == v);
        assert((seq![v] + old_rest).subrange(1, (seq![v] + old_rest).len() as int) =~= old_rest);
        assert(crate::model::nodes_view(rest@) =~= seq![node_view(v)] + crate::model::nodes_view(
            old_rest,
        ));
    }
    Ok((rest, p2))
}

/// Reads `cnt` key/value payload pairs.
#[verifier::rlimit(100)]
fn read_entries(b: &Vec<u8>, kt: &WStr, vt: &WStr, cnt: u32, pos: usize) -> (r: Result<
    (Vec<(PropertyNode, PropertyNode)>, usize),
    Error,
>)
    ensures
        match dec_entries(b@, kt@, vt@, cnt as nat, pos as int) {
            Ok((en, p)) => r matches Ok(x) && crate::model::entries_view(x.0@) == en && x.1 == p,
            Err(e) => r matches Err(e2) && e2 == e,
        },
    decreases b@.len() - pos, 2int, cnt,
{
    if cnt == 0 {
        let out: Vec<(PropertyNode, PropertyNode)> = Vec::new();
        proof {
            assert(crate::model::entries_view(out@) =~= Seq::<(NodeV, NodeV)>::empty());
        }
        return Ok((out, pos));
    }
    let (k, p1) = match read_node(b, kt, pos) {
        Ok(x) => x,
        Err(e) => {
            return Err(e);
        },
    };
    if !(pos <= p1 && p1 <= b.len()) {
        return Err(Error::InvalidEncoding);
    }
    let (v, p2) = match read_node(b, vt, p1) {
        Ok(x) => x,
        Err(e) => {
            return Err(e);
        },
    };
    if !(pos < p2 && p2 <= b.len()) {
        return Err(Error::InvalidEncoding);
    }
    let (mut rest, p3) = match read_entries(b, kt, vt, cnt - 1, p2) {
        Ok(x) => x,
        Err(e) => {
            return Err(e);
        },
    };
    let ghost old_rest = rest@;
    let pair = (k, v);
    rest.insert(0, pair);
    proof {
        assert(rest@ =~= seq![pair] + old_rest);
        assert((seq![pair] + old_rest)[0] == pair);
        assert((seq![pair] + old_rest).subrange(1, (seq![pair] + old_rest).len() as int)
            =~= old_rest);
        assert(crate::model::entries_view(rest@) =~= seq![(node_view(k), node_view(v))]
            + crate::model::entries_view(old_rest));
    }
    Ok((rest, p3))
}

fn i8_from_bits(u: u8) -> (r: i8)
    ensures
        r == i8_of_bits(u as nat),
{
    if u < 0x80 {
        u as i8
    } else {
        ((u as i16) - 0x100) as i8
    }
}

fn i16_from_bits(u: u16) -> (r: i16)
    ensures
        r == i16_of_bits(u as nat),
{
    if u < 0x8000 {
        u as i16
    } else {
        ((u as i32) - 0x10000) as i16
    }
}

fn i32_from_bits(u: u32) -> (r: i32)
    ensures
        r == i32_of_bits(u as nat),
{
    if u < 0x80000000 {
        u as i32
    } else {
        ((u as i64) - 0x100000000i64) as i32
    }
}

fn i64_from_bits(u: u64) -> (r: i64)
    ensures
        r == i64_of_bits(u as nat),
{
    if u < 0x8000000000000000 {
        u as i64
    } else {
        let m: u64 = u64::MAX - u;
        -(m as i64) - 1
    }
}

/// Decodes a whole buffer into a document.
///
/// The result — the document on success, and which error otherwise — is
/// exactly what the specification decoder gives on the same bytes; in
/// particular, a buffer that ends inside a fixed-width field or a string
/// length prefix yields `UnexpectedEof`, and a declared length that
/// overruns the input yields `TruncatedInput`.
pub fn decode(bytes: &Vec<u8>) -> (r: Result<Document, Error>)
    ensures
        match dec_doc(bytes@) {
            Ok(dv) => r matches Ok(d) && d@ == dv,
            Err(e) => r matches Err(e2) && e2 == e,
        },
{
    if bytes.len() < 4 {
        return Err(Error::UnexpectedEof);
    }
    if !(bytes[0] == 83u8 && bytes[1] == 65u8 && bytes[2] == 86u8 && bytes[3] == 49u8) {
        proof {
            assert(bytes@.subrange(0, 4)[0] == bytes@[0]);
            assert(bytes@.subrange(0, 4)[1] == bytes@[1]);
            assert(bytes@.subrange(0, 4)[2] == bytes@[2]);
            assert(bytes@.subrange(0, 4)[3] == bytes@[3]);
            assert(bytes@.subrange(0, 4) != magic());
        }
        return Err(Error::InvalidEncoding);
    }
    proof {
        assert(bytes@.subrange(0, 4) =~= magic());
    }
    let (ver, p) = match read_u32x(bytes, 4) {
        Ok(x) => x,
        Err(e) => {
            return Err(e);
        },
    };
    let (props, p2) = match read_fields(bytes, p) {
        Ok(x) => x,
        Err(e) => {
            return Err(e);
        },
    };
    if !(p2 <= bytes.len()) {
        return Err(Error::InvalidEncoding);
    }
    let tail = copy_range(bytes, p2, bytes.len());
    let d = Document { version: ver, props, tail };
    proof {
        assert(d@ =~~= dec_doc(bytes@)->Ok_0);
    }
    Ok(d)
}

fn i8_bits(v: i8) -> (r: u8)
    ensures
        r as nat == bits_of_i8(v),
{
    if v >= 0 {
        v as u8
    } else {
        ((v as i16) + 0x100) as u8
    }
}

fn i16_bits(v: i16) -> (r: u16)
    ensures
        r as nat == bits_of_i16(v),
{
    if v >= 0 {
        v as u16
    } else {
        ((v as i32) + 0x10000) as u16
    }
}

fn i32_bits(v: i32) -> (r: u32)
    ensures
        r as nat == bits_of_i32(v),
{
    if v >= 0 {
        v as u32
    } else {
        ((v as i64) + 0x100000000i64) as u32
    }
}

fn i64_bits(v: i64) -> (r: u64)
    ensures
        r as nat == bits_of_i64(v),
{
    if v >= 0 {
        v as u64
    } else {
        let m: u64 = (-(v + 1)) as u64;
        u64::MAX - m
    }
}

/// Writes one wire string; fails only when its count cannot fit the
/// signed 32-bit prefix, leaving the output untouched.
#[verifier::rlimit(80)]
fn write_wstr(out: &mut Vec<u8>, s: &WStr) -> (r: Result<(), Error>)
    ensures
        r matches Ok(x) ==> crate::model::wstr_ok(s@) && final(out)@ == old(out)@ + enc_wstr(s@),
        r is Ok <==> crate::model::wstr_ok(s@),
        r matches Err(e) ==> final(out)@ == old(out)@ && e == Error::WriteOverflow,
{
    match s {
        WStr::Narrow(v) => {
            if v.len() as u64 >= 0x7fffffff {
                return Err(Error::WriteOverflow);
            }
            write_le(out, v.len() as u64 + 1, 4);
            push_all(out, v.as_slice());
            out.push(0u8);
            proof {
                assert(final(out)@ =~= old(out)@ + enc_wstr(s@));
            }
            Ok(())
        },
        WStr::Wide(u) => {
            if u.len() as u64 >= 0x7fffffff {
                return Err(Error::WriteOverflow);
            }
            let cb: u64 = 0x100000000u64 - (u.len() as u64 + 1);
            proof {
                assert(cb as nat == wide_count_bits(u@.len()));
            }
            write_le(out, cb, 4);
            let ghost mid = out@;
            let mut i: usize = 0;
            proof {
                assert(le16_seq(u@.subrange(0, 0)) =~= Seq::<u8>::empty());
                assert(out@ =~= mid + le16_seq(u@.subrange(0, 0)));
            }
            while i < u.len()
                invariant
                    i <= u@.len(),
                    out@ =~= mid + le16_seq(u@.subrange(0, i as int)),
                decreases u@.len() - i,
            {
                write_le(out, u[i] as u64, 2);
                i = i + 1;
                proof {
                    lemma_le16_take_step(u@, i - 1);
                    assert(out@ =~= mid + le16_seq(u@.subrange(0, i as int)));
                }
            }
            out.push(0u8);
            out.push(0u8);
            proof {
                assert(u@.subrange(0, u@.len() as int) =~= u@);
                assert(final(out)@ =~= old(out)@ + enc_wstr(s@));
            }
            Ok(())
        },
    }
}

/// One step of flattening wide units.
pub(crate) proof fn lemma_le16_take_step(u: Seq<u16>, i: int)
    requires
        0 <= i < u.len(),
    ensures
        le16_seq(u.subrange(0, i + 1)) =~= le16_seq(u.subrange(0, i)) + crate::num::le_bytes(
            u[i] as nat,
            2,
        ),
    decreases i,
{
    if i == 0 {
        let a = u.subrange(0, 1);
        assert(a[0] == u[0]);
        assert(a.subrange(1, 1) =~= Seq::<u16>::empty());
        assert(le16_seq(a.subrange(1, 1)) =~= Seq::<u8>::empty());
        assert(le16_seq(u.subrange(0, 0)) =~= Seq::<u8>::empty());
    } else {
        let t = u.subrange(1, u.len() as int);
        lemma_le16_take_step(t, i - 1);
        let a = u.subrange(0, i + 1);
        let c = u.subrange(0, i);
        assert(a[0] == u[0] && c[0] == u[0]);
        assert(a.subrange(1, a.len() as int) =~= t.subrange(0, i));
        assert(c.subrange(1, c.len() as int) =~= t.subrange(0, i - 1));
        assert(t[i - 1] == u[i]);
        assert(le16_seq(a) =~= crate::num::le_bytes(u[0] as nat, 2) + le16_seq(t.subrange(0, i)));
        assert(le16_seq(c) =~= crate::num::le_bytes(u[0] as nat, 2) + le16_seq(
            t.subrange(0, i - 1),
        ));
    }
}

/// Builds a node's payload bytes; accepts exactly the well formed, size
/// bounded nodes.
#[verifier::rlimit(100)]
#[verifier::spinoff_prover]
pub(crate) fn enc_node_x(n: &PropertyNode) -> (r: Result<Vec<u8>, Error>)
    ensures
        r matches Ok(bv) ==> wf_node(n@) && sizes_ok(n@) && bv@ == enc_node(n@),
        r is Ok <==> wf_node(n@) && sizes_ok(n@),
        r matches Err(e) ==> e == Error::UnsupportedValue || e == Error::WriteOverflow,
    decreases n, 0int,
{
    let mut out: Vec<u8> = Vec::new();
    match n {
        PropertyNode::Bool(v) => {
            out.push(if *v { 1u8 } else { 0u8 });
            proof {
                assert(out@ =~= enc_node(n@));
            }
            Ok(out)
        },
        PropertyNode::I8(v) => {
            write_le(&mut out, i8_bits(*v) as u64, 1);
            Ok(out)
        },
        PropertyNode::I16(v) => {
            write_le(&mut out, i16_bits(*v) as u64, 2);
            Ok(out)
        },
        PropertyNode::I32(v) => {
            write_le(&mut out, i32_bits(*v) as u64, 4);
            Ok(out)
        },
        PropertyNode::I64(v) => {
            write_le(&mut out, i64_bits(*v), 8);
            Ok(out)
        },
        PropertyNode::U8(v) => {
            write_le(&mut out, *v as u64, 1);
            Ok(out)
        },
        PropertyNode::U16(v) => {
            write_le(&mut out, *v as u64, 2);
            Ok(out)
        },
        PropertyNode::U32(v) => {
            write_le(&mut out, *v as u64, 4);
            Ok(out)
        },
        PropertyNode::U64(v) => {
            write_le(&mut out, *v, 8);
            Ok(out)
        },
        PropertyNode::F32Bits(v) => {
            write_le(&mut out, *v as u64, 4);
            Ok(out)
        },
        PropertyNode::F64Bits(v) => {
            write_le(&mut out, *v as u64, 8);
            Ok(out)
        },
        PropertyNode::Str(sv) => {
            match write_wstr(&mut out, sv) {
                Ok(_) => Ok(out),
                Err(e) => Err(e),
            }
        },
        PropertyNode::Guid(a, c) => {
            write_le(&mut out, *a, 8);
            write_le(&mut out, *c, 8);
            proof {
                assert(out@ =~= enc_node(n@));
            }
            Ok(out)
        },
        PropertyNode::StructVal { ty_name, fields } => {
            proof {
                let full = props_view(fields@);
                assert(full.subrange(0, full.len() as int) =~= full);
            }
            match write_wstr(&mut out, ty_name) {
                Err(e) => {
                    return Err(e);
                },
                Ok(_) => {},
            }
            match write_plist_x(&mut out, fields, 0) {
                Err(e) => {
                    return Err(e);
                },
                Ok(_) => {},
            }
            write_sentinel(&mut out);
            proof {
                assert(props_view(fields@).subrange(0, props_view(fields@).len() as int)
                    =~= props_view(fields@));
                assert(out@ =~= enc_node(n@));
            }
            Ok(out)
        },
        PropertyNode::ArrayVal { elem_tag, elems } => {
            proof {
                let full = crate::model::nodes_view(elems@);
                assert(full.subrange(0, full.len() as int) =~= full);
                lemma_nodes_view_len(elems@);
            }
            if elems.len() as u64 > 0xffffffff {
                return Err(Error::WriteOverflow);
            }
            match write_wstr(&mut out, elem_tag) {
                Err(e) => {
                    return Err(e);
                },
                Ok(_) => {},
            }
            write_le(&mut out, elems.len() as u64, 4);
            match write_elems_x(&mut out, elem_tag, elems, 0) {
                Err(e) => {
                    return Err(e);
                },
                Ok(_) => {},
            }
            proof {
                let ev = crate::model::nodes_view(elems@);
                assert(ev.subrange(0, ev.len() as int) =~= ev);
                assert(out@ =~= enc_node(n@));
            }
            Ok(out)
        },
        PropertyNode::MapVal { key_tag, value_tag, entries } => {
            proof {
                let full = crate::model::entries_view(entries@);
                assert(full.subrange(0, full.len() as int) =~= full);
                lemma_entries_view_len(entries@);
            }
            if entries.len() as u64 > 0xffffffff {
                return Err(Error::WriteOverflow);
            }
            match write_wstr(&mut out, key_tag) {
                Err(e) => {
                    return Err(e);
                },
                Ok(_) => {},
            }
            match write_wstr(&mut out, value_tag) {
                Err(e) => {
                    return Err(e);
                },
                Ok(_) => {},
            }
            write_le(&mut out, entries.len() as u64, 4);
            match write_entries_x(&mut out, key_tag, value_tag, entries, 0) {
                Err(e) => {
                    return Err(e);
                },
                Ok(_) => {},
            }
            proof {
                let ev = crate::model::entries_view(entries@);
                assert(ev.subrange(0, ev.len() as int) =~= ev);
                assert(out@ =~= enc_node(n@));
            }
            Ok(out)
        },
        PropertyNode::SetVal { elem_tag, elems } => {
            proof {
                let full = crate::model::nodes_view(elems@);
                assert(full.subrange(0, full.len() as int) =~= full);
                lemma_nodes_view_len(elems@);
            }
            if elems.len() as u64 > 0xffffffff {
                return Err(Error::WriteOverflow);
            }
            match write_wstr(&mut out, elem_tag) {
                Err(e) => {
                    return Err(e);
                },
                Ok(_) => {},
            }
            write_le(&mut out, elems.len() as u64, 4);
            match write_elems_x(&mut out, elem_tag, elems, 0) {
                Err(e) => {
                    return Err(e);
                },
                Ok(_) => {},
            }
            proof {
                let ev = crate::model::nodes_view(elems@);
                assert(ev.subrange(0, ev.len() as int) =~= ev);
                assert(out@ =~= enc_node(n@));
            }
            Ok(out)
        },
        PropertyNode::EnumVal { ty_name, variant } => {
            match write_wstr(&mut out, ty_name) {
                Err(e) => {
                    return Err(e);
                },
                Ok(_) => {},
            }
            match write_wstr(&mut out, variant) {
                Err(e) => {
                    return Err(e);
                },
                Ok(_) => {},
            }
            proof {
                assert(out@ =~= enc_node(n@));
            }
            Ok(out)
        },
        PropertyNode::Unknown { tag, bytes } => {
            if bytes.len() as u64 > 0xffffffff {
                return Err(Error::WriteOverflow);
            }
            match tag {
                WStr::Narrow(tv) => {
                    if tv.len() as u64 >= 0x7fffffff {
                        return Err(Error::WriteOverflow);
                    }
                },
                WStr::Wide(tv) => {
                    if tv.len() as u64 >= 0x7fffffff {
                        return Err(Error::WriteOverflow);
                    }
                },
            }
            if !matches!(resolve_tag(tag), TagKind::Opaque) {
                return Err(Error::UnsupportedValue);
            }
            write_le(&mut out, bytes.len() as u64, 4);
            push_all(&mut out, bytes.as_slice());
            proof {
                assert(out@ =~= enc_node(n@));
            }
            Ok(out)
        },
    }
}

/// Writes the sentinel name that closes a field list.
fn write_sentinel(out: &mut Vec<u8>)
    ensures
        final(out)@ == old(out)@ + enc_wstr(none_name_v()),
{
    proof {
        crate::model::lemma_tag_bytes();
    }
    let mut nn2: Vec<u8> = Vec::new();
    push_all(&mut nn2, &[78u8, 111u8, 110u8, 101u8]);
    proof {
        assert(nn2@ =~= none_name());
    }
    let s = WStr::Narrow(nn2);
    let r = write_wstr(out, &s);
    proof {
        assert(s@ == none_name_v());
        assert(crate::model::wstr_ok(none_name_v()));
        assert(r is Ok);
    }
}

/// Writes one full property record.
#[verifier::rlimit(100)]
fn write_prop_x(out: &mut Vec<u8>, p: &Property) -> (r: Result<(), Error>)
    ensures
        r matches Ok(x) ==> wf_prop(p@) && sizes_ok_prop(p@) && final(out)@ == old(out)@
            + enc_prop(p@),
        r is Ok <==> wf_prop(p@) && sizes_ok_prop(p@),
        r matches Err(e) ==> e == Error::UnsupportedValue || e == Error::WriteOverflow,
    decreases p, 0int,
{
    if is_none_name(&p.name) {
        return Err(Error::UnsupportedValue);
    }
    let payload = match enc_node_x(&p.value) {
        Ok(x) => x,
        Err(e) => {
            return Err(e);
        },
    };
    if payload.len() as u64 > 0xffffffff {
        return Err(Error::WriteOverflow);
    }
    match write_wstr(out, &p.name) {
        Err(e) => {
            return Err(e);
        },
        Ok(_) => {},
    }
    let k = node_kind(&p.value);
    match &p.value {
        PropertyNode::Unknown { tag, .. } => {
            let r2 = write_wstr(out, tag);
            proof {
                assert(r2 is Ok);
            }
        },
        _ => {
            let tv = WStr::Narrow(tag_vec(k));
            proof {
                lemma_tag_of_known(p.value@);
                crate::model::lemma_tag_bytes();
            }
            let r2 = write_wstr(out, &tv);
            proof {
                assert(tv@ == tag_of(p.value@));
                assert(r2 is Ok);
            }
        },
    }
    write_le(out, payload.len() as u64, 4);
    push_all(out, payload.as_slice());
    proof {
        assert(final(out)@ =~= old(out)@ + enc_prop(p@));
    }
    Ok(())
}

/// The handler of a node's own tag.
pub(crate) fn node_kind(n: &PropertyNode) -> (k: TagKind)
    ensures
        k == kind_of(n@),
{
    match n {
        PropertyNode::Bool(_) => TagKind::Bool,
        PropertyNode::I8(_) => TagKind::I8,
        PropertyNode::I16(_) => TagKind::I16,
        PropertyNode::I32(_) => TagKind::I32,
        PropertyNode::I64(_) => TagKind::I64,
        PropertyNode::U8(_) => TagKind::U8,
        PropertyNode::U16(_) => TagKind::U16,
        PropertyNode::U32(_) => TagKind::U32,
        PropertyNode::U64(_) => TagKind::U64,
        PropertyNode::F32Bits(_) => TagKind::F32,
        PropertyNode::F64Bits(_) => TagKind::F64,
        PropertyNode::Str(_) => TagKind::Str,
        PropertyNode::Guid(_, _) => TagKind::Guid,
        PropertyNode::StructVal { .. } => TagKind::StructT,
        PropertyNode::ArrayVal { .. } => TagKind::ArrayT,
        PropertyNode::MapVal { .. } => TagKind::MapT,
        PropertyNode::SetVal { .. } => TagKind::SetT,
        PropertyNode::EnumVal { .. } => TagKind::EnumT,
        PropertyNode::Unknown { .. } => TagKind::Opaque,
    }
}

/// Writes the records of `props[i..]`, without the sentinel.
#[verifier::rlimit(100)]
fn write_plist_x(out: &mut Vec<u8>, props: &Vec<Property>, i: usize) -> (r: Result<(), Error>)
    requires
        i <= props@.len(),
    ensures
        ({
            let sv = props_view(props@).subrange(i as int, props_view(props@).len() as int);
            &&& r matches Ok(x) ==> wf_props(sv) && sizes_ok_props(sv) && final(out)@ == old(out)@
                + enc_plist(sv)
            &&& r is Ok <==> wf_props(sv) && sizes_ok_props(sv)
            &&& r matches Err(e) ==> e == Error::UnsupportedValue || e == Error::WriteOverflow
        }),
    decreases props, props@.len() - i,
{
    proof {
        lemma_props_view_len(props@);
    }
    let ghost sv = props_view(props@).subrange(i as int, props_view(props@).len() as int);
    if i == props.len() {
        proof {
            assert(sv =~= Seq::<PropV>::empty());
            assert(enc_plist(sv) =~= Seq::<u8>::empty());
            assert(final(out)@ =~= old(out)@ + enc_plist(sv));
        }
        return Ok(());
    }
    proof {
        lemma_props_view_head(props@, i as int);
        assert(sv[0] == prop_view(props@[i as int]));
        assert(sv.subrange(1, sv.len() as int) =~= props_view(props@).subrange(
            i + 1,
            props_view(props@).len() as int,
        ));
    }
    match write_prop_x(out, &props[i]) {
        Err(e) => {
            return Err(e);
        },
        Ok(_) => {},
    }
    match write_plist_x(out, props, i + 1) {
        Err(e) => {
            return Err(e);
        },
        Ok(_) => {},
    }
    proof {
        assert(final(out)@ =~= old(out)@ + enc_plist(sv));
    }
    Ok(())
}

/// Writes the bare payloads of `elems[i..]`, checking each element's tag.
#[verifier::rlimit(100)]
fn write_elems_x(out: &mut Vec<u8>, tag: &WStr, elems: &Vec<PropertyNode>, i: usize) -> (r: Result<
    (),
    Error,
>)
    requires
        i <= elems@.len(),
    ensures
        ({
            let sv = crate::model::nodes_view(elems@).subrange(
                i as int,
                crate::model::nodes_view(elems@).len() as int,
            );
            &&& r matches Ok(x) ==> crate::model::wf_elems(tag@, sv) && crate::enc::sizes_ok_nodes(
                sv,
            ) && final(out)@ == old(out)@ + crate::enc::enc_nodes(sv)
            &&& r is Ok <==> crate::model::wf_elems(tag@, sv) && crate::enc::sizes_ok_nodes(sv)
            &&& r matches Err(e) ==> e == Error::UnsupportedValue || e == Error::WriteOverflow
        }),
    decreases elems, elems@.len() - i,
{
    proof {
        lemma_nodes_view_len(elems@);
    }
    let ghost sv = crate::model::nodes_view(elems@).subrange(
        i as int,
        crate::model::nodes_view(elems@).len() as int,
    );
    if i == elems.len() {
        proof {
            assert(sv =~= Seq::<NodeV>::empty());
            assert(crate::enc::enc_nodes(sv) =~= Seq::<u8>::empty());
            assert(final(out)@ =~= old(out)@ + crate::enc::enc_nodes(sv));
        }
        return Ok(());
    }
    proof {
        lemma_nodes_view_head(elems@, i as int);
        assert(sv[0] == node_view(elems@[i as int]));
        assert(sv.subrange(1, sv.len() as int) =~= crate::model::nodes_view(elems@).subrange(
            i + 1,
            crate::model::nodes_view(elems@).len() as int,
        ));
    }
    if !tag_matches(&elems[i], tag) {
        return Err(Error::UnsupportedValue);
    }
    let payload = match enc_node_x(&elems[i]) {
        Ok(x) => x,
        Err(e) => {
            return Err(e);
        },
    };
    push_all(out, payload.as_slice());
    match write_elems_x(out, tag, elems, i + 1) {
        Err(e) => {
            return Err(e);
        },
        Ok(_) => {},
    }
    proof {
        assert(final(out)@ =~= old(out)@ + crate::enc::enc_nodes(sv));
    }
    Ok(())
}

/// Writes the key and value payloads of `entries[i..]`, checking tags.
#[verifier::rlimit(100)]
fn write_entries_x(
    out: &mut Vec<u8>,
    kt: &WStr,
    vt: &WStr,
    entries: &Vec<(PropertyNode, PropertyNode)>,
    i: usize,
) -> (r: Result<(), Error>)
    requires
        i <= entries@.len(),
    ensures
        ({
            let sv = crate::model::entries_view(entries@).subrange(
                i as int,
                crate::model::entries_view(entries@).len() as int,
            );
            &&& r matches Ok(x) ==> crate::model::wf_entries(kt@, vt@, sv)
                && crate::enc::sizes_ok_entries(sv) && final(out)@ == old(out)@
                + crate::enc::enc_entries(sv)
            &&& r is Ok <==> crate::model::wf_entries(kt@, vt@, sv) && crate::enc::sizes_ok_entries(
                sv,
            )
            &&& r matches Err(e) ==> e == Error::UnsupportedValue || e == Error::WriteOverflow
        }),
    decreases entries, entries@.len() - i,
{
    proof {
        lemma_entries_view_len(entries@);
    }
    let ghost sv = crate::model::entries_view(entries@).subrange(
        i as int,
        crate::model::entries_view(entries@).len() as int,
    );
    if i == entries.len() {
        proof {
            assert(sv =~= Seq::<(NodeV, NodeV)>::empty());
            assert(crate::enc::enc_entries(sv) =~= Seq::<u8>::empty());
            assert(final(out)@ =~= old(out)@ + crate::enc::enc_entries(sv));
        }
        return Ok(());
    }
    proof {
        lemma_entries_view_head(entries@, i as int);
        assert(sv[0] == (node_view(entries@[i as int].0), node_view(entries@[i as int].1)));
        assert(sv.subrange(1, sv.len() as int) =~= crate::model::entries_view(entries@).subrange(
            i + 1,
            crate::model::entries_view(entries@).len() as int,
        ));
    }
    if !tag_matches(&entries[i].0, kt) {
        return Err(Error::UnsupportedValue);
    }
    if !tag_matches(&entries[i].1, vt) {
        return Err(Error::UnsupportedValue);
    }
    let kp = match enc_node_x(&entries[i].0) {
        Ok(x) => x,
        Err(e) => {
            return Err(e);
        },
    };
    let vp = match enc_node_x(&entries[i].1) {
        Ok(x) => x,
        Err(e) => {
            return Err(e);
        },
    };
    push_all(out, kp.as_slice());
    push_all(out, vp.as_slice());
    match write_entries_x(out, kt, vt, entries, i + 1) {
        Err(e) => {
            return Err(e);
        },
        Ok(_) => {},
    }
    proof {
        assert(final(out)@ =~= old(out)@ + crate::enc::enc_entries(sv));
    }
    Ok(())
}

/// Whether a node's own wire tag equals the given tag.
fn tag_matches(n: &PropertyNode, t: &WStr) -> (r: bool)
    ensures
        r == (tag_of(n@) == t@),
{
    match n {
        PropertyNode::Unknown { tag, .. } => wstr_eq(tag, t),
        _ => {
            let k = node_kind(n);
            proof {
                lemma_tag_of_known(n@);
            }
            match t {
                WStr::Wide(_) => false,
                WStr::Narrow(tv) => bytes_eq(tv, &tag_vec(k)),
            }
        },
    }
}

fn words_eq(a: &Vec<u16>, b: &Vec<u16>) -> (r: bool)
    ensures
        r == (a@ == b@),
{
    if a.len() != b.len() {
        return false;
    }
    let mut i: usize = 0;
    while i < a.len()
        invariant
            a@.len() == b@.len(),
            i <= a@.len(),
            forall|j: int| 0 <= j < i ==> a@[j] == b@[j],
        decreases a@.len() - i,
    {
        if a[i] != b[i] {
            return false;
        }
        i = i + 1;
    }
    proof {
        assert(a@ =~= b@);
    }
    true
}

fn wstr_eq(a: &WStr, b: &WStr) -> (r: bool)
    ensures
        r == (a@ == b@),
{
    match (a, b) {
        (WStr::Narrow(x), WStr::Narrow(y)) => bytes_eq(x, y),
        (WStr::Wide(x), WStr::Wide(y)) => words_eq(x, y),
        _ => false,
    }
}

pub(crate) proof fn lemma_props_view_len(s: Seq<Property>)
    ensures
        props_view(s).len() == s.len(),
    decreases s.len(),
{
    if s.len() > 0 {
        lemma_props_view_len(s.subrange(1, s.len() as int));
    }
}

pub(crate) proof fn lemma_props_view_head(s: Seq<Property>, i: int)
    requires
        0 <= i < s.len(),
    ensures
        props_view(s).subrange(i, props_view(s).len() as int)[0] == prop_view(s[i]),
        props_view(s).subrange(i, props_view(s).len() as int).subrange(
            1,
            props_view(s).subrange(i, props_view(s).len() as int).len() as int,
        ) =~= props_view(s).subrange(i + 1, props_view(s).len() as int),
    decreases i,
{
    lemma_props_view_len(s);
    if i == 0 {
        assert(props_view(s)[0] == prop_view(s[0]));
    } else {
        let t = s.subrange(1, s.len() as int);
        lemma_props_view_head(t, i - 1);
        lemma_props_view_len(t);
        assert(props_view(s)[i] == props_view(t)[i - 1]);
        assert(props_view(t).subrange(i - 1, props_view(t).len() as int)[0] == prop_view(
            t[i - 1],
        ));
        assert(t[i - 1] == s[i]);
        assert(props_view(s).subrange(i, props_view(s).len() as int)[0] == props_view(s)[i]);
        assert(props_view(t)[i - 1] == prop_view(s[i]));
    }
}

pub(crate) proof fn lemma_nodes_view_len(s: Seq<PropertyNode>)
    ensures
        crate::model::nodes_view(s).len() == s.len(),
    decreases s.len(),
{
    if s.len() > 0 {
        lemma_nodes_view_len(s.subrange(1, s.len() as int));
    }
}

pub(crate) proof fn lemma_nodes_view_head(s: Seq<PropertyNode>, i: int)
    requires
        0 <= i < s.len(),
    ensures
        crate::model::nodes_view(s).subrange(i, crate::model::nodes_view(s).len() as int)[0]
            == node_view(s[i]),
    decreases i,
{
    lemma_nodes_view_len(s);
    if i == 0 {
        assert(crate::model::nodes_view(s)[0] == node_view(s[0]));
    } else {
        let t = s.subrange(1, s.len() as int);
        lemma_nodes_view_head(t, i - 1);
        lemma_nodes_view_len(t);
        assert(crate::model::nodes_view(s)[i] == crate::model::nodes_view(t)[i - 1]);
        assert(crate::model::nodes_view(t).subrange(
            i - 1,
            crate::model::nodes_view(t).len() as int,
        )[0] == node_view(t[i - 1]));
        assert(t[i - 1] == s[i]);
    }
}

pub(crate) proof fn lemma_entries_view_len(s: Seq<(PropertyNode, PropertyNode)>)
    ensures
        crate::model::entries_view(s).len() == s.len(),
    decreases s.len(),
{
    if s.len() > 0 {
        lemma_entries_view_len(s.subrange(1, s.len() as int));
    }
}

pub(crate) proof fn lemma_entries_view_head(s: Seq<(PropertyNode, PropertyNode)>, i: int)
    requires
        0 <= i < s.len(),
    ensures
        crate::model::entries_view(s).subrange(i, crate::model::entries_view(s).len() as int)[0]
            == (node_view(s[i].0), node_view(s[i].1)),
    decreases i,
{
    lemma_entries_view_len(s);
    if i == 0 {
        assert(crate::model::entries_view(s)[0] == (node_view(s[0].0), node_view(s[0].1)));
    } else {
        let t = s.subrange(1, s.len() as int);
        lemma_entries_view_head(t, i - 1);
        lemma_entries_view_len(t);
        assert(crate::model::entries_view(s)[i] == crate::model::entries_view(t)[i - 1]);
        assert(crate::model::entries_view(t).subrange(
            i - 1,
            crate::model::entries_view(t).len() as int,
        )[0] == (node_view(t[i - 1].0), node_view(t[i - 1].1)));
        assert(t[i - 1] == s[i]);
    }
}

/// Encodes a document to its wire bytes.
///
/// Succeeds on exactly the valid documents — structurally well formed with
/// every 32-bit count and payload length in range — and then returns
/// precisely the specification encoding. A size violation reports
/// `WriteOverflow`; any structural violation reports `UnsupportedValue`.
#[verifier::rlimit(100)]
pub fn encode(d: &Document) -> (r: Result<Vec<u8>, Error>)
    ensures
        r matches Ok(bv) ==> valid_doc(d@) && bv@ == enc_doc(d@),
        r is Ok <==> valid_doc(d@),
        r matches Err(e) ==> e == Error::UnsupportedValue || e == Error::WriteOverflow,
{
    let mut out: Vec<u8> = Vec::new();
    push_all(&mut out, &[83u8, 65u8, 86u8, 49u8]);
    proof {
        assert(out@ =~= magic());
    }
    write_le(&mut out, d.version as u64, 4);
    proof {
        let full = props_view(d.props@);
        assert(full.subrange(0, full.len() as int) =~= full);
    }
    match write_plist_x(&mut out, &d.props, 0) {
        Err(e) => {
            return Err(e);
        },
        Ok(_) => {},
    }
    write_sentinel(&mut out);
    push_all(&mut out, d.tail.as_slice());
    proof {
        assert(props_view(d.props@).subrange(0, props_view(d.props@).len() as int) =~= props_view(
            d.props@,
        ));
        assert(out@ =~= enc_doc(d@));
    }
    Ok(out)
}

} // verus!
