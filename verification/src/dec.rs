//! The decoder, as a mathematical function from bytes to the property tree.
//!
//! Every executable read path is held to these functions, so which value or
//! which error `decode` returns on any buffer is pinned exactly. A read past
//! the end of the buffer is `UnexpectedEof`; a declared payload or raw-span
//! length that exceeds the remaining input is `TruncatedInput`; a structurally
//! impossible value (bad magic, a zero or minimum string count, a missing
//! terminator, a payload that does not fill its declared length) is
//! `InvalidEncoding`.

use vstd::prelude::*;

use crate::enc::magic;
use crate::model::DocV;
use crate::model::Error;
use crate::model::NodeV;
use crate::model::PropV;
use crate::model::TagKind;
use crate::model::WStrV;
use crate::model::none_name_v;
use crate::model::resolve_spec;
use crate::num::i16_of_bits;
use crate::num::i32_of_bits;
use crate::num::i64_of_bits;
use crate::num::i8_of_bits;
use crate::num::le_val;

verus! {

pub open spec fn dec_u8(b: Seq<u8>, pos: int) -> Result<(u8, int), Error> {
    if 0 <= pos && pos + 1 <= b.len() {
        Ok((b[pos], pos + 1))
    } else {
        Err(Error::UnexpectedEof)
    }
}

pub open spec fn dec_u16(b: Seq<u8>, pos: int) -> Result<(u16, int), Error> {
    if 0 <= pos && pos + 2 <= b.len() {
        Ok((le_val(b.subrange(pos, pos + 2)) as u16, pos + 2))
    } else {
        Err(Error::UnexpectedEof)
    }
}

pub open spec fn dec_u32(b: Seq<u8>, pos: int) -> Result<(u32, int), Error> {
    if 0 <= pos && pos + 4 <= b.len() {
        Ok((le_val(b.subrange(pos, pos + 4)) as u32, pos + 4))
    } else {
        Err(Error::UnexpectedEof)
    }
}

pub open spec fn dec_u64(b: Seq<u8>, pos: int) -> Result<(u64, int), Error> {
    if 0 <= pos && pos + 8 <= b.len() {
        Ok((le_val(b.subrange(pos, pos + 8)) as u64, pos + 8))
    } else {
        Err(Error::UnexpectedEof)
    }
}

/// Byte pairs, read as little-endian 16-bit units.
pub open spec fn u16s_of(s: Seq<u8>) -> Seq<u16>
    decreases s.len(),
{
    if s.len() < 2 {
        Seq::empty()
    } else {
        seq![(s[0] + 256 * s[1]) as u16] + u16s_of(s.subrange(2, s.len() as int))
    }
}

/// A wire string: a signed 32-bit unit count (units include the zero
/// terminator; negative means wide units), then the units. The count may be
/// neither zero nor the minimum signed value, and the terminator must be
/// present: every accepted byte form re-encodes to itself.
pub open spec fn dec_wstr(b: Seq<u8>, pos: int) -> Result<(WStrV, int), Error> {
    match dec_u32(b, pos) {
        Err(e) => Err(e),
        Ok((c, p)) => {
            if c == 0 || c == 0x80000000u32 {
                Err(Error::InvalidEncoding)
            } else if c < 0x80000000u32 {
                let l = c as int;
                if p + l <= b.len() {
                    if b[p + l - 1] == 0u8 {
                        Ok((WStrV::Narrow(b.subrange(p, p + l - 1)), p + l))
                    } else {
                        Err(Error::InvalidEncoding)
                    }
                } else {
                    Err(Error::UnexpectedEof)
                }
            } else {
                let m = 0x100000000 - c as int;
                if p + 2 * m <= b.len() {
                    if b[p + 2 * m - 2] == 0u8 && b[p + 2 * m - 1] == 0u8 {
                        Ok((WStrV::Wide(u16s_of(b.subrange(p, p + 2 * m - 2))), p + 2 * m))
                    } else {
                        Err(Error::InvalidEncoding)
                    }
                } else {
                    Err(Error::UnexpectedEof)
                }
            }
        },
    }
}

/// A node payload, dispatched through the registry on the property's tag.
pub open spec fn dec_node(b: Seq<u8>, tag: WStrV, pos: int) -> Result<(NodeV, int), Error>
    decreases b.len() - pos, 0int,
{
    match resolve_spec(tag) {
        TagKind::Bool => match dec_u8(b, pos) {
            Err(e) => Err(e),
            Ok((x, p)) => {
                if x == 0 {
                    Ok((NodeV::Bool(false), p))
                } else if x == 1 {
                    Ok((NodeV::Bool(true), p))
                } else {
                    Err(Error::InvalidEncoding)
                }
            },
        },
        TagKind::I8 => match dec_u8(b, pos) {
            Err(e) => Err(e),
            Ok((x, p)) => Ok((NodeV::I8(i8_of_bits(x as nat)), p)),
        },
        TagKind::I16 => match dec_u16(b, pos) {
            Err(e) => Err(e),
            Ok((x, p)) => Ok((NodeV::I16(i16_of_bits(x as nat)), p)),
        },
        TagKind::I32 => match dec_u32(b, pos) {
            Err(e) => Err(e),
            Ok((x, p)) => Ok((NodeV::I32(i32_of_bits(x as nat)), p)),
        },
        TagKind::I64 => match dec_u64(b, pos) {
            Err(e) => Err(e),
            Ok((x, p)) => Ok((NodeV::I64(i64_of_bits(x as nat)), p)),
        },
        TagKind::U8 => match dec_u8(b, pos) {
            Err(e) => Err(e),
            Ok((x, p)) => Ok((NodeV::U8(x), p)),
        },
        TagKind::U16 => match dec_u16(b, pos) {
            Err(e) => Err(e),
            Ok((x, p)) => Ok((NodeV::U16(x), p)),
        },
        TagKind::U32 => match dec_u32(b, pos) {
            Err(e) => Err(e),
            Ok((x, p)) => Ok((NodeV::U32(x), p)),
        },
        TagKind::U64 => match dec_u64(b, pos) {
            Err(e) => Err(e),
            Ok((x, p)) => Ok((NodeV::U64(x), p)),
        },
        TagKind::F32 => match dec_u32(b, pos) {
            Err(e) => Err(e),
            Ok((x, p)) => Ok((NodeV::F32Bits(x), p)),
        },
        TagKind::F64 => match dec_u64(b, pos) {
            Err(e) => Err(e),
            Ok((x, p)) => Ok((NodeV::F64Bits(x), p)),
        },
        TagKind::Str => match dec_wstr(b, pos) {
            Err(e) => Err(e),
            Ok((s, p)) => Ok((NodeV::Str(s), p)),
        },
        TagKind::Guid => match dec_u64(b, pos) {
            Err(e) => Err(e),
            Ok((a, p1)) => match dec_u64(b, p1) {
                Err(e) => Err(e),
                Ok((c, p2)) => Ok((NodeV::Guid(a, c), p2)),
            },
        },
        TagKind::StructT => match dec_wstr(b, pos) {
            Err(e) => Err(e),
            Ok((tn, p1)) => {
                if !(pos < p1 <= b.len()) {
                    Err(Error::InvalidEncoding)
                } else {
                    match dec_fields(b, p1) {
                        Err(e) => Err(e),
                        Ok((fs, p2)) => Ok((NodeV::StructVal { ty_name: tn, fields: fs }, p2)),
                    }
                }
            },
        },
        TagKind::ArrayT => match dec_wstr(b, pos) {
            Err(e) => Err(e),
            Ok((t, p1)) => match dec_u32(b, p1) {
                Err(e) => Err(e),
                Ok((c, p2)) => {
                    if !(pos < p2 <= b.len()) {
                        Err(Error::InvalidEncoding)
                    } else {
                        match dec_elems(b, t, c as nat, p2) {
                            Err(e) => Err(e),
                            Ok((es, p3)) => Ok(
                                (NodeV::ArrayVal { elem_tag: t, elems: es }, p3),
                            ),
                        }
                    }
                },
            },
        },
        TagKind::MapT => match dec_wstr(b, pos) {
            Err(e) => Err(e),
            Ok((kt, p1)) => match dec_wstr(b, p1) {
                Err(e) => Err(e),
                Ok((vt, p2)) => match dec_u32(b, p2) {
                    Err(e) => Err(e),
                    Ok((c, p3)) => {
                        if !(pos < p3 <= b.len()) {
                            Err(Error::InvalidEncoding)
                        } else {
                            match dec_entries(b, kt, vt, c as nat, p3) {
                                Err(e) => Err(e),
                                Ok((en, p4)) => Ok(
                                    (
                                        NodeV::MapVal {
                                            key_tag: kt,
                                            value_tag: vt,
                                            entries: en,
                                        },
                                        p4,
                                    ),
                                ),
                            }
                        }
                    },
                },
            },
        },
        TagKind::SetT => match dec_wstr(b, pos) {
            Err(e) => Err(e),
            Ok((t, p1)) => match dec_u32(b, p1) {
                Err(e) => Err(e),
                Ok((c, p2)) => {
                    if !(pos < p2 <= b.len()) {
                        Err(Error::InvalidEncoding)
                    } else {
                        match dec_elems(b, t, c as nat, p2) {
                            Err(e) => Err(e),
                            Ok((es, p3)) => Ok((NodeV::SetVal { elem_tag: t, elems: es }, p3)),
                        }
                    }
                },
            },
        },
        TagKind::EnumT => match dec_wstr(b, pos) {
            Err(e) => Err(e),
            Ok((tn, p1)) => match dec_wstr(b, p1) {
                Err(e) => Err(e),
                Ok((vn, p2)) => Ok((NodeV::EnumVal { ty_name: tn, variant: vn }, p2)),
            },
        },
        TagKind::Opaque => match dec_u32(b, pos) {
            Err(e) => Err(e),
            Ok((l, p1)) => {
                if p1 + l <= b.len() {
                    Ok((NodeV::Unknown { tag, bytes: b.subrange(p1, p1 + l) }, p1 + l))
                } else {
                    Err(Error::TruncatedInput)
                }
            },
        },
    }
}

/// A field list: property records up to and including the sentinel name.
pub open spec fn dec_fields(b: Seq<u8>, pos: int) -> Result<(Seq<PropV>, int), Error>
    decreases b.len() - pos, 1int,
{
    match dec_wstr(b, pos) {
        Err(e) => Err(e),
        Ok((nm, p1)) => {
            if nm == none_name_v() {
                Ok((Seq::empty(), p1))
            } else {
                match dec_wstr(b, p1) {
                    Err(e) => Err(e),
                    Ok((tg, p2)) => match dec_u32(b, p2) {
                        Err(e) => Err(e),
                        Ok((plen, p3)) => {
                            if !(p3 + plen <= b.len()) {
                                Err(Error::TruncatedInput)
                            } else if !(pos < p3) {
                                Err(Error::InvalidEncoding)
                            } else {
                                match dec_node(b, tg, p3) {
                                    Err(e) => Err(e),
                                    Ok((v, p4)) => {
                                        if p4 != p3 + plen {
                                            Err(Error::InvalidEncoding)
                                        } else {
                                            match dec_fields(b, p4) {
                                                Err(e) => Err(e),
                                                Ok((rest, p5)) => Ok(
                                                    (
                                                        seq![PropV { name: nm, value: v }] + rest,
                                                        p5,
                                                    ),
                                                ),
                                            }
                                        }
                                    },
                                }
                            }
                        },
                    },
                }
            }
        },
    }
}

/// `cnt` bare element payloads of one element tag.
pub open spec fn dec_elems(b: Seq<u8>, tag: WStrV, cnt: nat, pos: int) -> Result<
    (Seq<NodeV>, int),
    Error,
>
    decreases b.len() - pos, 1int, cnt,
{
    if cnt == 0 {
        Ok((Seq::empty(), pos))
    } else {
        match dec_node(b, tag, pos) {
            Err(e) => Err(e),
            Ok((v, p1)) => {
                if !(pos < p1 <= b.len()) {
                    Err(Error::InvalidEncoding)
                } else {
                    match dec_elems(b, tag, (cnt - 1) as nat, p1) {
                        Err(e) => Err(e),
                        Ok((rest, p2)) => Ok((seq![v] + rest, p2)),
                    }
                }
            },
        }
    }
}

/// `cnt` key/value payload pairs.
pub open spec fn dec_entries(b: Seq<u8>, kt: WStrV, vt: WStrV, cnt: nat, pos: int) -> Result<
    (Seq<(NodeV, NodeV)>, int),
    Error,
>
    decreases b.len() - pos, 1int, cnt,
{
    if cnt == 0 {
        Ok((Seq::empty(), pos))
    } else {
        match dec_node(b, kt, pos) {
            Err(e) => Err(e),
            Ok((k, p1)) => {
                if !(pos <= p1 <= b.len()) {
                    Err(Error::InvalidEncoding)
                } else {
                    match dec_node(b, vt, p1) {
                        Err(e) => Err(e),
                        Ok((v, p2)) => {
                            if !(pos < p2 <= b.len()) {
                                Err(Error::InvalidEncoding)
                            } else {
                                match dec_entries(b, kt, vt, (cnt - 1) as nat, p2) {
                                    Err(e) => Err(e),
                                    Ok((rest, p3)) => Ok((seq![(k, v)] + rest, p3)),
                                }
                            }
                        },
                    }
                }
            },
        }
    }
}

/// A whole document: magic, version, the field list, then the opaque tail.
pub open spec fn dec_doc(b: Seq<u8>) -> Result<DocV, Error> {
    if b.len() < 4 {
        Err(Error::UnexpectedEof)
    } else if b.subrange(0, 4) != magic() {
        Err(Error::InvalidEncoding)
    } else {
        match dec_u32(b, 4) {
            Err(e) => Err(e),
            Ok((ver, p)) => match dec_fields(b, p) {
                Err(e) => Err(e),
                Ok((props, p2)) => {
                    if 0 <= p2 <= b.len() {
                        Ok(DocV { version: ver, props, tail: b.subrange(p2, b.len() as int) })
                    } else {
                        Err(Error::InvalidEncoding)
                    }
                },
            },
        }
    }
}

} // verus!
