//! The property tree: a document is an ordered sequence of named, typed
//! properties; a property value is a scalar, a container, or an opaque span
//! of raw bytes for type tags the registry does not know.
//!
//! Floating-point scalars are carried as their IEEE-754 bit patterns, so the
//! codec can promise bit-exact round trips without doing float arithmetic.

use vstd::prelude::*;

verus! {

/// The error taxonomy of the codec.
///
/// `UnknownStructType` is reserved for wire layouts whose struct properties
/// may omit their type annotation; this layout always writes one, so the
/// variant is never produced here. `UnknownTypeTag` is likewise non-fatal by
/// design: an unregistered tag decodes to an `Unknown` node instead.
#[derive(Clone, Copy, PartialEq, Eq, Structural, Debug)]
pub enum Error {
    UnexpectedEof,
    InvalidEncoding,
    TruncatedInput,
    UnknownStructType,
    WriteOverflow,
    UnsupportedValue,
    MalformedText,
    UnknownTypeTag,
}

/// A wire string: the format length-prefixes strings with a signed count
/// whose sign selects a narrow (one byte per unit) or wide (two bytes per
/// unit) encoding. The choice is preserved so re-encoding is byte-exact.
#[derive(Debug, PartialEq, Eq)]
pub enum WStr {
    Narrow(Vec<u8>),
    Wide(Vec<u16>),
}

/// Mathematical value of a [`WStr`].
#[verifier::ext_equal]
pub enum WStrV {
    Narrow(Seq<u8>),
    Wide(Seq<u16>),
}

impl View for WStr {
    type V = WStrV;

    open spec fn view(&self) -> WStrV {
        match self {
            WStr::Narrow(v) => WStrV::Narrow(v@),
            WStr::Wide(v) => WStrV::Wide(v@),
        }
    }
}

/// A named property.
#[derive(Debug, PartialEq, Eq)]
pub struct Property {
    pub name: WStr,
    pub value: PropertyNode,
}

/// A property value.
#[derive(Debug, PartialEq, Eq)]
pub enum PropertyNode {
    Bool(bool),
    I8(i8),
    I16(i16),
    I32(i32),
    I64(i64),
    U8(u8),
    U16(u16),
    U32(u32),
    U64(u64),
    /// An IEEE-754 single-precision value, carried as its bit pattern.
    F32Bits(u32),
    /// An IEEE-754 double-precision value, carried as its bit pattern.
    F64Bits(u64),
    Str(WStr),
    Guid(u64, u64),
    /// Ordered named fields, terminated on the wire by a sentinel name.
    StructVal { ty_name: WStr, fields: Vec<Property> },
    /// Homogeneous elements; each element is encoded as a bare payload of
    /// the declared element tag.
    ArrayVal { elem_tag: WStr, elems: Vec<PropertyNode> },
    /// Ordered key/value pairs; insertion order is significant.
    MapVal { key_tag: WStr, value_tag: WStr, entries: Vec<(PropertyNode, PropertyNode)> },
    SetVal { elem_tag: WStr, elems: Vec<PropertyNode> },
    EnumVal { ty_name: WStr, variant: WStr },
    /// A property whose tag the registry does not know: its payload is kept
    /// verbatim so the round trip never loses data.
    Unknown { tag: WStr, bytes: Vec<u8> },
}

/// A decoded document: format version, ordered top-level properties, and the
/// opaque tail that followed the terminator on the wire.
#[derive(Debug, PartialEq, Eq)]
pub struct Document {
    pub version: u32,
    pub props: Vec<Property>,
    pub tail: Vec<u8>,
}

/// Mathematical value of a [`Property`].
#[verifier::ext_equal]
pub struct PropV {
    pub name: WStrV,
    pub value: NodeV,
}

/// Mathematical value of a [`PropertyNode`].
#[verifier::ext_equal]
pub enum NodeV {
    Bool(bool),
    I8(i8),
    I16(i16),
    I32(i32),
    I64(i64),
    U8(u8),
    U16(u16),
    U32(u32),
    U64(u64),
    F32Bits(u32),
    F64Bits(u64),
    Str(WStrV),
    Guid(u64, u64),
    StructVal { ty_name: WStrV, fields: Seq<PropV> },
    ArrayVal { elem_tag: WStrV, elems: Seq<NodeV> },
    MapVal { key_tag: WStrV, value_tag: WStrV, entries: Seq<(NodeV, NodeV)> },
    SetVal { elem_tag: WStrV, elems: Seq<NodeV> },
    EnumVal { ty_name: WStrV, variant: WStrV },
    Unknown { tag: WStrV, bytes: Seq<u8> },
}

/// Mathematical value of a [`Document`].
#[verifier::ext_equal]
pub struct DocV {
    pub version: u32,
    pub props: Seq<PropV>,
    pub tail: Seq<u8>,
}

pub open spec fn node_view(n: PropertyNode) -> NodeV
    decreases n,
{
    match n {
        PropertyNode::Bool(b) => NodeV::Bool(b),
        PropertyNode::I8(v) => NodeV::I8(v),
        PropertyNode::I16(v) => NodeV::I16(v),
        PropertyNode::I32(v) => NodeV::I32(v),
        PropertyNode::I64(v) => NodeV::I64(v),
        PropertyNode::U8(v) => NodeV::U8(v),
        PropertyNode::U16(v) => NodeV::U16(v),
        PropertyNode::U32(v) => NodeV::U32(v),
        PropertyNode::U64(v) => NodeV::U64(v),
        PropertyNode::F32Bits(v) => NodeV::F32Bits(v),
        PropertyNode::F64Bits(v) => NodeV::F64Bits(v),
        PropertyNode::Str(s) => NodeV::Str(s@),
        PropertyNode::Guid(a, b) => NodeV::Guid(a, b),
        PropertyNode::StructVal { ty_name, fields } => NodeV::StructVal {
            ty_name: ty_name@,
            fields: props_view(fields@),
        },
        PropertyNode::ArrayVal { elem_tag, elems } => NodeV::ArrayVal {
            elem_tag: elem_tag@,
            elems: nodes_view(elems@),
        },
        PropertyNode::MapVal { key_tag, value_tag, entries } => NodeV::MapVal {
            key_tag: key_tag@,
            value_tag: value_tag@,
            entries: entries_view(entries@),
        },
        PropertyNode::SetVal { elem_tag, elems } => NodeV::SetVal {
            elem_tag: elem_tag@,
            elems: nodes_view(elems@),
        },
        PropertyNode::EnumVal { ty_name, variant } => NodeV::EnumVal {
            ty_name: ty_name@,
            variant: variant@,
        },
        PropertyNode::Unknown { tag, bytes } => NodeV::Unknown { tag: tag@, bytes: bytes@ },
    }
}

pub open spec fn prop_view(p: Property) -> PropV
    decreases p,
{
    PropV { name: p.name@, value: node_view(p.value) }
}

pub open spec fn props_view(s: Seq<Property>) -> Seq<PropV>
    decreases s,
{
    if s.len() == 0 {
        Seq::empty()
    } else {
        seq![prop_view(s[0])] + props_view(s.subrange(1, s.len() as int))
    }
}

pub open spec fn nodes_view(s: Seq<PropertyNode>) -> Seq<NodeV>
    decreases s,
{
    if s.len() == 0 {
        Seq::empty()
    } else {
        seq![node_view(s[0])] + nodes_view(s.subrange(1, s.len() as int))
    }
}

pub open spec fn entries_view(s: Seq<(PropertyNode, PropertyNode)>) -> Seq<(NodeV, NodeV)>
    decreases s,
{
    if s.len() == 0 {
        Seq::empty()
    } else {
        seq![(node_view(s[0].0), node_view(s[0].1))] + entries_view(s.subrange(1, s.len() as int))
    }
}

impl View for PropertyNode {
    type V = NodeV;

    open spec fn view(&self) -> NodeV {
        node_view(*self)
    }
}

impl View for Property {
    type V = PropV;

    open spec fn view(&self) -> PropV {
        PropV { name: self.name@, value: node_view(self.value) }
    }
}

impl View for Document {
    type V = DocV;

    open spec fn view(&self) -> DocV {
        DocV { version: self.version, props: props_view(self.props@), tail: self.tail@ }
    }
}

/// The closed set of wire type tags the registry resolves, plus the opaque
/// fallback handler for everything else.
#[derive(Clone, Copy, PartialEq, Eq, Structural, Debug)]
pub enum TagKind {
    Bool,
    I8,
    I16,
    I32,
    I64,
    U8,
    U16,
    U32,
    U64,
    F32,
    F64,
    Str,
    Guid,
    StructT,
    ArrayT,
    MapT,
    SetT,
    EnumT,
    /// The unknown-type passthrough handler.
    Opaque,
}

pub open spec fn tag_bool() -> Seq<u8> {
    seq![66u8, 111u8, 111u8, 108u8]
}

pub open spec fn tag_i8() -> Seq<u8> {
    seq![73u8, 110u8, 116u8, 56u8]
}

pub open spec fn tag_i16() -> Seq<u8> {
    seq![73u8, 110u8, 116u8, 49u8, 54u8]
}

pub open spec fn tag_i32() -> Seq<u8> {
    seq![73u8, 110u8, 116u8, 51u8, 50u8]
}

pub open spec fn tag_i64() -> Seq<u8> {
    seq![73u8, 110u8, 116u8, 54u8, 52u8]
}

pub open spec fn tag_u8() -> Seq<u8> {
    seq![85u8, 73u8, 110u8, 116u8, 56u8]
}

pub open spec fn tag_u16() -> Seq<u8> {
    seq![85u8, 73u8, 110u8, 116u8, 49u8, 54u8]
}

pub open spec fn tag_u32() -> Seq<u8> {
    seq![85u8, 73u8, 110u8, 116u8, 51u8, 50u8]
}

pub open spec fn tag_u64() -> Seq<u8> {
    seq![85u8, 73u8, 110u8, 116u8, 54u8, 52u8]
}

pub open spec fn tag_f32() -> Seq<u8> {
    seq![70u8, 108u8, 111u8, 97u8, 116u8]
}

pub open spec fn tag_f64() -> Seq<u8> {
    seq![68u8, 111u8, 117u8, 98u8, 108u8, 101u8]
}

pub open spec fn tag_str() -> Seq<u8> {
    seq![83u8, 116u8, 114u8]
}

pub open spec fn tag_guid() -> Seq<u8> {
    seq![71u8, 117u8, 105u8, 100u8]
}

pub open spec fn tag_struct() -> Seq<u8> {
    seq![83u8, 116u8, 114u8, 117u8, 99u8, 116u8]
}

pub open spec fn tag_array() -> Seq<u8> {
    seq![65u8, 114u8, 114u8, 97u8, 121u8]
}

pub open spec fn tag_map() -> Seq<u8> {
    seq![77u8, 97u8, 112u8]
}

pub open spec fn tag_set() -> Seq<u8> {
    seq![83u8, 101u8, 116u8]
}

pub open spec fn tag_enum() -> Seq<u8> {
    seq![69u8, 110u8, 117u8, 109u8]
}

/// The sentinel property name that terminates a field list.
pub open spec fn none_name() -> Seq<u8> {
    seq![78u8, 111u8, 110u8, 101u8]
}

pub open spec fn none_name_v() -> WStrV {
    WStrV::Narrow(none_name())
}

/// The type registry: a narrow tag with one of the built-in names resolves
/// to its handler, anything else to the opaque passthrough. The set is fixed
/// at build time and shared read-only by every decode and encode pass.
pub open spec fn resolve_spec(w: WStrV) -> TagKind {
    match w {
        WStrV::Wide(_) => TagKind::Opaque,
        WStrV::Narrow(b) => {
            if b == tag_bool() {
                TagKind::Bool
            } else if b == tag_i8() {
                TagKind::I8
            } else if b == tag_i16() {
                TagKind::I16
            } else if b == tag_i32() {
                TagKind::I32
            } else if b == tag_i64() {
                TagKind::I64
            } else if b == tag_u8() {
                TagKind::U8
            } else if b == tag_u16() {
                TagKind::U16
            } else if b == tag_u32() {
                TagKind::U32
            } else if b == tag_u64() {
                TagKind::U64
            } else if b == tag_f32() {
                TagKind::F32
            } else if b == tag_f64() {
                TagKind::F64
            } else if b == tag_str() {
                TagKind::Str
            } else if b == tag_guid() {
                TagKind::Guid
            } else if b == tag_struct() {
                TagKind::StructT
            } else if b == tag_array() {
                TagKind::ArrayT
            } else if b == tag_map() {
                TagKind::MapT
            } else if b == tag_set() {
                TagKind::SetT
            } else if b == tag_enum() {
                TagKind::EnumT
            } else {
                TagKind::Opaque
            }
        },
    }
}

/// The wire tag a node is written under.
pub open spec fn tag_of(n: NodeV) -> WStrV {
    match n {
        NodeV::Bool(_) => WStrV::Narrow(tag_bool()),
        NodeV::I8(_) => WStrV::Narrow(tag_i8()),
        NodeV::I16(_) => WStrV::Narrow(tag_i16()),
        NodeV::I32(_) => WStrV::Narrow(tag_i32()),
        NodeV::I64(_) => WStrV::Narrow(tag_i64()),
        NodeV::U8(_) => WStrV::Narrow(tag_u8()),
        NodeV::U16(_) => WStrV::Narrow(tag_u16()),
        NodeV::U32(_) => WStrV::Narrow(tag_u32()),
        NodeV::U64(_) => WStrV::Narrow(tag_u64()),
        NodeV::F32Bits(_) => WStrV::Narrow(tag_f32()),
        NodeV::F64Bits(_) => WStrV::Narrow(tag_f64()),
        NodeV::Str(_) => WStrV::Narrow(tag_str()),
        NodeV::Guid(_, _) => WStrV::Narrow(tag_guid()),
        NodeV::StructVal { .. } => WStrV::Narrow(tag_struct()),
        NodeV::ArrayVal { .. } => WStrV::Narrow(tag_array()),
        NodeV::MapVal { .. } => WStrV::Narrow(tag_map()),
        NodeV::SetVal { .. } => WStrV::Narrow(tag_set()),
        NodeV::EnumVal { .. } => WStrV::Narrow(tag_enum()),
        NodeV::Unknown { tag, .. } => tag,
    }
}

/// The handler a node's own tag resolves to.
pub open spec fn kind_of(n: NodeV) -> TagKind {
    match n {
        NodeV::Bool(_) => TagKind::Bool,
        NodeV::I8(_) => TagKind::I8,
        NodeV::I16(_) => TagKind::I16,
        NodeV::I32(_) => TagKind::I32,
        NodeV::I64(_) => TagKind::I64,
        NodeV::U8(_) => TagKind::U8,
        NodeV::U16(_) => TagKind::U16,
        NodeV::U32(_) => TagKind::U32,
        NodeV::U64(_) => TagKind::U64,
        NodeV::F32Bits(_) => TagKind::F32,
        NodeV::F64Bits(_) => TagKind::F64,
        NodeV::Str(_) => TagKind::Str,
        NodeV::Guid(_, _) => TagKind::Guid,
        NodeV::StructVal { .. } => TagKind::StructT,
        NodeV::ArrayVal { .. } => TagKind::ArrayT,
        NodeV::MapVal { .. } => TagKind::MapT,
        NodeV::SetVal { .. } => TagKind::SetT,
        NodeV::EnumVal { .. } => TagKind::EnumT,
        NodeV::Unknown { .. } => TagKind::Opaque,
    }
}

/// A wire string's signed count (unit count plus terminator) must fit a
/// 32-bit signed prefix.
pub open spec fn wstr_ok(s: WStrV) -> bool {
    match s {
        WStrV::Narrow(b) => b.len() + 1 <= 0x7fffffff,
        WStrV::Wide(u) => u.len() + 1 <= 0x7fffffff,
    }
}

/// Structural well-formedness: tags of container elements match the declared
/// element tag, unknown nodes carry a tag the registry does not resolve, and
/// counts fit their 32-bit wire fields.
pub open spec fn wf_node(n: NodeV) -> bool
    decreases n,
{
    match n {
        NodeV::Str(s) => wstr_ok(s),
        NodeV::StructVal { ty_name, fields } => wstr_ok(ty_name) && wf_props(fields),
        NodeV::ArrayVal { elem_tag, elems } => wstr_ok(elem_tag) && elems.len() <= 0xffffffff
            && wf_elems(elem_tag, elems),
        NodeV::MapVal { key_tag, value_tag, entries } => wstr_ok(key_tag) && wstr_ok(value_tag)
            && entries.len() <= 0xffffffff && wf_entries(key_tag, value_tag, entries),
        NodeV::SetVal { elem_tag, elems } => wstr_ok(elem_tag) && elems.len() <= 0xffffffff
            && wf_elems(elem_tag, elems),
        NodeV::EnumVal { ty_name, variant } => wstr_ok(ty_name) && wstr_ok(variant),
        NodeV::Unknown { tag, bytes } => wstr_ok(tag) && resolve_spec(tag) == TagKind::Opaque
            && bytes.len() <= 0xffffffff,
        _ => true,
    }
}

/// A property's name is a well-formed wire string other than the sentinel.
pub open spec fn wf_prop(p: PropV) -> bool
    decreases p,
{
    wstr_ok(p.name) && p.name != none_name_v() && wf_node(p.value)
}

/// Every record of a field list is well formed.
pub open spec fn wf_props(s: Seq<PropV>) -> bool
    decreases s,
{
    s.len() == 0 || (wf_prop(s[0]) && wf_props(s.subrange(1, s.len() as int)))
}

/// Every element is well formed and carries the declared element tag.
pub open spec fn wf_elems(tag: WStrV, s: Seq<NodeV>) -> bool
    decreases s,
{
    s.len() == 0 || (tag_of(s[0]) == tag && wf_node(s[0]) && wf_elems(
        tag,
        s.subrange(1, s.len() as int),
    ))
}

/// Every key and value is well formed and carries its declared tag.
pub open spec fn wf_entries(kt: WStrV, vt: WStrV, s: Seq<(NodeV, NodeV)>) -> bool
    decreases s,
{
    s.len() == 0 || (tag_of(s[0].0) == kt && tag_of(s[0].1) == vt && wf_node(s[0].0) && wf_node(
        s[0].1,
    ) && wf_entries(kt, vt, s.subrange(1, s.len() as int)))
}

pub open spec fn wf_doc(d: DocV) -> bool {
    wf_props(d.props)
}

/// Concrete lengths and distinguishing bytes of the registry's tags and of
/// the sentinel name: enough to tell any two of them apart.
pub proof fn lemma_tag_bytes()
    ensures
        tag_bool().len() == 4 && tag_bool()[0] == 66u8 && tag_bool()[1] == 111u8 && tag_bool()[3]
            == 108u8,
        tag_i8().len() == 4 && tag_i8()[0] == 73u8 && tag_i8()[1] == 110u8 && tag_i8()[3] == 56u8,
        tag_i16().len() == 5 && tag_i16()[0] == 73u8 && tag_i16()[1] == 110u8 && tag_i16()[3]
            == 49u8 && tag_i16()[4] == 54u8,
        tag_i32().len() == 5 && tag_i32()[0] == 73u8 && tag_i32()[1] == 110u8 && tag_i32()[3]
            == 51u8 && tag_i32()[4] == 50u8,
        tag_i64().len() == 5 && tag_i64()[0] == 73u8 && tag_i64()[1] == 110u8 && tag_i64()[3]
            == 54u8 && tag_i64()[4] == 52u8,
        tag_u8().len() == 5 && tag_u8()[0] == 85u8 && tag_u8()[1] == 73u8 && tag_u8()[3] == 116u8
            && tag_u8()[4] == 56u8,
        tag_u16().len() == 6 && tag_u16()[0] == 85u8 && tag_u16()[1] == 73u8 && tag_u16()[4]
            == 49u8 && tag_u16()[5] == 54u8,
        tag_u32().len() == 6 && tag_u32()[0] == 85u8 && tag_u32()[1] == 73u8 && tag_u32()[4]
            == 51u8 && tag_u32()[5] == 50u8,
        tag_u64().len() == 6 && tag_u64()[0] == 85u8 && tag_u64()[1] == 73u8 && tag_u64()[4]
            == 54u8 && tag_u64()[5] == 52u8,
        tag_f32().len() == 5 && tag_f32()[0] == 70u8 && tag_f32()[1] == 108u8,
        tag_f64().len() == 6 && tag_f64()[0] == 68u8 && tag_f64()[1] == 111u8,
        tag_str().len() == 3 && tag_str()[0] == 83u8 && tag_str()[1] == 116u8,
        tag_guid().len() == 4 && tag_guid()[0] == 71u8 && tag_guid()[1] == 117u8,
        tag_struct().len() == 6 && tag_struct()[0] == 83u8 && tag_struct()[1] == 116u8,
        tag_array().len() == 5 && tag_array()[0] == 65u8 && tag_array()[1] == 114u8,
        tag_map().len() == 3 && tag_map()[0] == 77u8 && tag_map()[1] == 97u8,
        tag_set().len() == 3 && tag_set()[0] == 83u8 && tag_set()[1] == 101u8,
        tag_enum().len() == 4 && tag_enum()[0] == 69u8 && tag_enum()[1] == 110u8,
        none_name().len() == 4 && none_name()[0] == 78u8 && none_name()[1] == 111u8,
{
}

/// Every node's own tag resolves to its own handler: the registry is
/// consistent with the encoder's tagging.
pub proof fn lemma_resolve_tag_of(n: NodeV)
    requires
        wf_node(n),
    ensures
        resolve_spec(tag_of(n)) == kind_of(n),
{
    lemma_tag_bytes();
}

} // verus!
