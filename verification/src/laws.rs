//! The codec's round-trip guarantees, stated once over the mathematical
//! model so every caller can appeal to them.

use vstd::prelude::*;

use crate::dec::dec_doc;
use crate::enc::enc_doc;
use crate::enc::valid_doc;
use crate::model::DocV;
use crate::model::Error;
use crate::model::NodeV;
use crate::roundtrip::lemma_decode_encode;
use crate::roundtrip::lemma_reencode_exact;

verus! {

/// Binary round trip: decoding the encoding of any valid document gives the
/// document back, unchanged.
pub proof fn law_binary_round_trip(d: DocV)
    requires
        valid_doc(d),
    ensures
        dec_doc(enc_doc(d)) == Ok::<DocV, Error>(d),
{
    lemma_decode_encode(d);
}

/// Byte-exact re-encoding: any buffer the decoder accepts is exactly the
/// encoding of the document it returns — opaque tail segment included — and
/// that document is itself valid, so re-encoding it cannot fail.
pub proof fn law_reencode_byte_exact(b: Seq<u8>)
    requires
        dec_doc(b) is Ok,
    ensures
        valid_doc(dec_doc(b)->Ok_0),
        enc_doc(dec_doc(b)->Ok_0) == b,
{
    lemma_reencode_exact(b);
    assert(enc_doc(dec_doc(b)->Ok_0) =~= b);
}

/// Field order preservation: the round trip returns the very same ordered
/// field sequence, so no transformation between encode and decode can have
/// reordered the fields of any struct or the entries of any map.
pub proof fn law_field_order_preserved(d: DocV)
    requires
        valid_doc(d),
    ensures
        dec_doc(enc_doc(d))->Ok_0.props == d.props,
{
    lemma_decode_encode(d);
}

/// Unknown-node payload preservation: an opaque top-level node's raw bytes
/// are bit-identical after an encode/decode cycle; nodes nested deeper are
/// covered by the whole-document identity of [`law_binary_round_trip`].
pub proof fn law_unknown_bytes_preserved(d: DocV, i: int)
    requires
        valid_doc(d),
        0 <= i < d.props.len(),
        d.props[i].value is Unknown,
    ensures
        dec_doc(enc_doc(d))->Ok_0.props[i].value == d.props[i].value,
        dec_doc(enc_doc(d))->Ok_0.props[i].value->Unknown_bytes == d.props[i].value->Unknown_bytes,
{
    lemma_decode_encode(d);
}

} // verus!
