//! The tensor envelope: a MessagePack map with five named fields, and the encode/decode pipeline
//! around it.
use vstd::prelude::*;
use vstd::slice::slice_to_vec;

use crate::dtype::{
    bytes_eq, dtype_from_name, dtype_from_wire_tag, dtype_named, dtype_with_tag, lemma_named,
    lemma_tagged, Dtype,
};
use crate::wire::{
    enc_bool, enc_byte_array, enc_str, enc_u64_array, holds_at, lemma_holds_split,
    lemma_parse_bool_enc, lemma_parse_byte_array_enc, lemma_parse_str_enc,
    lemma_parse_u64_array_enc, lift_bytes, is_prefix, lemma_ext_bool, lemma_ext_byte_array,
    lemma_ext_str, lemma_ext_u64_array, lift_u64s, parse_bool,
    parse_byte_array, parse_str, parse_u64_array, push_bool, push_byte_array, push_str,
    push_u64_array, read_bool, read_byte_array, read_str, read_u64_array,
};

verus! {

/// Why an encode or decode did not produce a result.
#[derive(Clone, Debug)]
pub enum CodecError {
    /// The value handed to encode is not a tensor; holds the name of its type.
    TypeMismatch { actual_type: Vec<u8> },
    /// Moving the tensor to host memory failed.
    TransferError,
    /// The descriptor could not be serialised.
    EncodingError,
    /// The envelope is malformed, truncated or ill-typed.
    DecodingError,
    /// The byte length disagrees with the declared shape and type.
    ShapeMismatch { shape: Vec<u64>, dtype: Dtype, actual_len: usize },
    /// The type has no wire or narrow mapping; holds its name.
    UnsupportedDtype { name: Vec<u8> },
}

pub enum ErrorView {
    TypeMismatch { actual_type: Seq<u8> },
    TransferError,
    EncodingError,
    DecodingError,
    ShapeMismatch { shape: Seq<u64>, dtype: Dtype, actual_len: nat },
    UnsupportedDtype { name: Seq<u8> },
}

impl View for CodecError {
    type V = ErrorView;

    open spec fn view(&self) -> ErrorView {
        match self {
            CodecError::TypeMismatch { actual_type } => ErrorView::TypeMismatch { actual_type: actual_type@ },
            CodecError::TransferError => ErrorView::TransferError,
            CodecError::EncodingError => ErrorView::EncodingError,
            CodecError::DecodingError => ErrorView::DecodingError,
            CodecError::ShapeMismatch { shape, dtype, actual_len } => ErrorView::ShapeMismatch {
                shape: shape@,
                dtype: *dtype,
                actual_len: *actual_len as nat,
            },
            CodecError::UnsupportedDtype { name } => ErrorView::UnsupportedDtype { name: name@ },
        }
    }
}

/// A tensor's metadata and raw row-major element bytes, as they travel in the envelope.
#[derive(Clone, Debug)]
pub struct TensorDescriptor {
    pub marker: bool,
    pub data: Vec<u8>,
    pub wire_dtype: Dtype,
    pub shape: Vec<u64>,
    pub original_dtype: Dtype,
}

pub struct DescriptorView {
    pub marker: bool,
    pub data: Seq<u8>,
    pub wire_dtype: Dtype,
    pub shape: Seq<u64>,
    pub original_dtype: Dtype,
}

impl View for TensorDescriptor {
    type V = DescriptorView;

    open spec fn view(&self) -> DescriptorView {
        DescriptorView {
            marker: self.marker,
            data: self.data@,
            wire_dtype: self.wire_dtype,
            shape: self.shape@,
            original_dtype: self.original_dtype,
        }
    }
}

/// The number of elements of a tensor of this shape; 1 for a scalar.
pub open spec fn shape_product(s: Seq<u64>) -> nat
    decreases s.len(),
{
    if s.len() == 0 {
        1
    } else {
        shape_product(s.drop_last()) * (s.last() as nat)
    }
}

/// The byte length that a tensor of this shape and element type holds.
pub open spec fn expected_len(s: Seq<u64>, d: Dtype) -> nat {
    shape_product(s) * d.itemsize()
}

impl DescriptorView {
    pub open spec fn well_formed(self) -> bool {
        &&& self.wire_dtype.is_native()
        &&& self.original_dtype.wire_type() == self.wire_dtype
        &&& self.data.len() == expected_len(self.shape, self.wire_dtype)
    }

    /// The envelope bytes of this descriptor.
    pub open spec fn envelope(self) -> Seq<u8> {
        envelope_of(
            self.marker,
            self.data,
            self.wire_dtype.wire_tag(),
            self.shape,
            self.original_dtype.name(),
        )
    }
}

/// "__torch_tensor__"
#[verifier::opaque]
pub open spec fn key_marker() -> Seq<u8> {
    seq![95u8, 95, 116, 111, 114, 99, 104, 95, 116, 101, 110, 115, 111, 114, 95, 95]
}

/// "data"
#[verifier::opaque]
pub open spec fn key_data() -> Seq<u8> {
    seq![100u8, 97, 116, 97]
}

/// "dtype"
#[verifier::opaque]
pub open spec fn key_dtype() -> Seq<u8> {
    seq![100u8, 116, 121, 112, 101]
}

/// "shape"
#[verifier::opaque]
pub open spec fn key_shape() -> Seq<u8> {
    seq![115u8, 104, 97, 112, 101]
}

/// "original_dtype"
#[verifier::opaque]
pub open spec fn key_original() -> Seq<u8> {
    seq![111u8, 114, 105, 103, 105, 110, 97, 108, 95, 100, 116, 121, 112, 101]
}

/// The envelope: a map of five entries, in this order.
#[verifier::opaque]
pub open spec fn envelope_of(
    marker: bool,
    data: Seq<u8>,
    tag: Seq<u8>,
    shape: Seq<u64>,
    original: Seq<u8>,
) -> Seq<u8> {
    seq![0x85u8] + enc_str(key_marker()) + enc_bool(marker) + enc_str(key_data()) + enc_byte_array(
        data,
    ) + enc_str(key_dtype()) + enc_str(tag) + enc_str(key_shape()) + enc_u64_array(shape)
        + enc_str(key_original()) + enc_str(original)
}

/// The fields read from an envelope so far.
pub struct EnvelopeFields {
    pub marker: Option<bool>,
    pub data: Option<Seq<u8>>,
    pub dtype: Option<Seq<u8>>,
    pub shape: Option<Seq<u64>>,
    pub original: Option<Seq<u8>>,
}

pub open spec fn no_fields() -> EnvelopeFields {
    EnvelopeFields { marker: None, data: None, dtype: None, shape: None, original: None }
}

/// Reads one key and its value at `i`; a key that is unknown or already read fails.
pub open spec fn parse_entry(b: Seq<u8>, i: int, f: EnvelopeFields) -> Option<(EnvelopeFields, int)> {
    match parse_str(b, i) {
        Some((k, j)) => if k == key_marker() && f.marker is None {
            match parse_bool(b, j) {
                Some((v, l)) => Some((EnvelopeFields { marker: Some(v), ..f }, l)),
                None => None,
            }
        } else if k == key_data() && f.data is None {
            match parse_byte_array(b, j) {
                Some((v, l)) => Some((EnvelopeFields { data: Some(v), ..f }, l)),
                None => None,
            }
        } else if k == key_dtype() && f.dtype is None {
            match parse_str(b, j) {
                Some((v, l)) => Some((EnvelopeFields { dtype: Some(v), ..f }, l)),
                None => None,
            }
        } else if k == key_shape() && f.shape is None {
            match parse_u64_array(b, j) {
                Some((v, l)) => Some((EnvelopeFields { shape: Some(v), ..f }, l)),
                None => None,
            }
        } else if k == key_original() && f.original is None {
            match parse_str(b, j) {
                Some((v, l)) => Some((EnvelopeFields { original: Some(v), ..f }, l)),
                None => None,
            }
        } else {
            None
        },
        None => None,
    }
}

pub open spec fn parse_entries(b: Seq<u8>, i: int, n: nat) -> Option<(EnvelopeFields, int)>
    decreases n,
{
    if n == 0 {
        Some((no_fields(), i))
    } else {
        match parse_entries(b, i, (n - 1) as nat) {
            Some((f, j)) => parse_entry(b, j, f),
            None => None,
        }
    }
}

/// The fields of a whole envelope: a map header of five entries, the entries, nothing after.
pub open spec fn parse_envelope(b: Seq<u8>) -> Option<EnvelopeFields> {
    if b.len() > 0 && b[0] == 0x85 {
        match parse_entries(b, 1, 5) {
            Some((f, j)) => if j == b.len() {
                Some(f)
            } else {
                None
            },
            None => None,
        }
    } else {
        None
    }
}

/// What decoding `b` gives.
pub open spec fn spec_decode(b: Seq<u8>) -> Result<DescriptorView, ErrorView> {
    match parse_envelope(b) {
        Some(f) => if f.marker is Some && f.data is Some && f.dtype is Some && f.shape is Some
            && f.original is Some {
            let data = f.data->0;
            let shape = f.shape->0;
            match dtype_with_tag(f.dtype->0) {
                None => Err(ErrorView::UnsupportedDtype { name: f.dtype->0 }),
                Some(w) => if data.len() != expected_len(shape, w) {
                    Err(ErrorView::ShapeMismatch { shape, dtype: w, actual_len: data.len() })
                } else {
                    match dtype_named(f.original->0) {
                        Some(o) => if o.wire_type() == w {
                            Ok(
                                DescriptorView {
                                    marker: f.marker->0,
                                    data,
                                    wire_dtype: w,
                                    shape,
                                    original_dtype: o,
                                },
                            )
                        } else {
                            Err(ErrorView::UnsupportedDtype { name: f.original->0 })
                        },
                        None => Err(ErrorView::UnsupportedDtype { name: f.original->0 }),
                    }
                },
            }
        } else {
            Err(ErrorView::DecodingError)
        },
        None => Err(ErrorView::DecodingError),
    }
}

pub open spec fn result_view(r: Result<TensorDescriptor, CodecError>) -> Result<DescriptorView, ErrorView> {
    match r {
        Ok(d) => Ok(d@),
        Err(e) => Err(e@),
    }
}

fn key_marker_bytes() -> (r: Vec<u8>)
    ensures
        r@ == key_marker(),
{
    reveal(key_marker);
    let r = vec![95u8, 95, 116, 111, 114, 99, 104, 95, 116, 101, 110, 115, 111, 114, 95, 95]; // "__torch_tensor__"
    assert(r@ =~= key_marker());
    r
}

fn key_data_bytes() -> (r: Vec<u8>)
    ensures
        r@ == key_data(),
{
    reveal(key_data);
    let r = vec![100u8, 97, 116, 97]; // "data"
    assert(r@ =~= key_data());
    r
}

fn key_dtype_bytes() -> (r: Vec<u8>)
    ensures
        r@ == key_dtype(),
{
    reveal(key_dtype);
    let r = vec![100u8, 116, 121, 112, 101]; // "dtype"
    assert(r@ =~= key_dtype());
    r
}

fn key_shape_bytes() -> (r: Vec<u8>)
    ensures
        r@ == key_shape(),
{
    reveal(key_shape);
    let r = vec![115u8, 104, 97, 112, 101]; // "shape"
    assert(r@ =~= key_shape());
    r
}

fn key_original_bytes() -> (r: Vec<u8>)
    ensures
        r@ == key_original(),
{
    reveal(key_original);
    let r = vec![111u8, 114, 105, 103, 105, 110, 97, 108, 95, 100, 116, 121, 112, 101]; // "original_dtype"
    assert(r@ =~= key_original());
    r
}

/// Whether `len` bytes is exactly what a tensor of this shape and element type holds.
pub fn len_matches(shape: &[u64], d: Dtype, len: usize) -> (r: bool)
    ensures
        r == (len as nat == expected_len(shape@, d)),
{
    let cap: u128 = 0x1_0000_0000_0000_0000;
    let mut acc: u128 = 1;
    let mut i: usize = 0;
    while i < shape.len()
        invariant
            i <= shape@.len(),
            cap == 0x1_0000_0000_0000_0000,
            acc as nat == if shape_product(shape@.subrange(0, i as int)) < cap {
                shape_product(shape@.subrange(0, i as int))
            } else {
                cap as nat
            },
        decreases shape@.len() - i,
    {
        let dim = shape[i];
        proof {
            let p = shape@.subrange(0, i as int);
            let q = shape@.subrange(0, i + 1);
            assert(q.drop_last() =~= p);
            let pp = shape_product(p);
            let dd = dim as nat;
            assert(shape_product(q) == pp * dd);
            assert((acc as nat) * dd <= (cap as nat) * 0xffff_ffff_ffff_ffff) by (nonlinear_arith)
                requires
                    acc as nat <= cap as nat,
                    dd <= 0xffff_ffff_ffff_ffff,
            ;
            if pp >= cap && dd >= 1 {
                assert(pp * dd >= cap) by (nonlinear_arith)
                    requires
                        pp >= cap as nat,
                        dd >= 1,
                ;
                assert((cap as nat) * dd >= cap) by (nonlinear_arith)
                    requires
                        dd >= 1,
                ;
            }
        }
        let prod = acc * (dim as u128);
        proof {
            let p = shape@.subrange(0, i as int);
            let q = shape@.subrange(0, i + 1);
            let pp = shape_product(p);
            let dd = dim as nat;
            assert(prod as nat == (acc as nat) * dd);
            if dd == 0 {
                assert(pp * dd == 0);
                assert((acc as nat) * dd == 0);
            }
            if pp < cap {
                assert(acc as nat == pp);
            }
            assert(shape_product(q) == pp * dd);
        }
        acc = if prod < cap {
            prod
        } else {
            cap
        };
        i = i + 1;
    }
    proof {
        assert(shape@.subrange(0, shape@.len() as int) =~= shape@);
        let pp = shape_product(shape@);
        let sz = d.itemsize();
        if pp >= cap {
            assert(pp * sz >= cap) by (nonlinear_arith)
                requires
                    pp >= cap as nat,
                    sz >= 1,
            ;
        }
    }
    let sz = d.itemsize_exec();
    proof {
        assert((acc as nat) * (sz as nat) <= (cap as nat) * 16) by (nonlinear_arith)
            requires
                acc as nat <= cap as nat,
                sz as nat <= 16,
        ;
    }
    let total = acc * (sz as u128);
    total == len as u128
}

/// Serialises a descriptor into its envelope. Fails only where a length does not fit the
/// format's 32-bit array header.
pub fn encode_descriptor(d: &TensorDescriptor) -> (r: Result<Vec<u8>, CodecError>)
    ensures
        r is Ok <==> (d.data@.len() < 0x1_0000_0000 && d.shape@.len() < 0x1_0000_0000),
        r matches Ok(v) ==> v@ == d@.envelope(),
        r matches Err(e) ==> e@ == ErrorView::EncodingError,
{
    if d.data.len() as u64 >= 0x1_0000_0000 || d.shape.len() as u64 >= 0x1_0000_0000 {
        return Err(CodecError::EncodingError);
    }
    let tag = d.wire_dtype.wire_tag_bytes();
    let name = d.original_dtype.name_bytes();
    proof {
        lemma_keys_distinct();
    }
    let mut out: Vec<u8> = Vec::new();
    out.push(0x85);
    push_str(&mut out, key_marker_bytes().as_slice());
    push_bool(&mut out, d.marker);
    push_str(&mut out, key_data_bytes().as_slice());
    push_byte_array(&mut out, d.data.as_slice());
    push_str(&mut out, key_dtype_bytes().as_slice());
    push_str(&mut out, tag.as_slice());
    push_str(&mut out, key_shape_bytes().as_slice());
    push_u64_array(&mut out, d.shape.as_slice());
    push_str(&mut out, key_original_bytes().as_slice());
    push_str(&mut out, name.as_slice());
    proof {
        reveal(envelope_of);
        assert(out@ =~= d@.envelope());
    }
    Ok(out)
}

pub open spec fn fields_of(
    marker: Option<bool>,
    data: Option<Vec<u8>>,
    dtype: Option<Vec<u8>>,
    shape: Option<Vec<u64>>,
    original: Option<Vec<u8>>,
) -> EnvelopeFields {
    EnvelopeFields {
        marker,
        data: match data {
            Some(v) => Some(v@),
            None => None,
        },
        dtype: match dtype {
            Some(v) => Some(v@),
            None => None,
        },
        shape: match shape {
            Some(v) => Some(v@),
            None => None,
        },
        original: match original {
            Some(v) => Some(v@),
            None => None,
        },
    }
}

proof fn lemma_entries_fail(b: Seq<u8>, i: int, t: nat, n: nat)
    requires
        t <= n,
        parse_entries(b, i, t) is None,
    ensures
        parse_entries(b, i, n) is None,
    decreases n - t,
{
    if t < n {
        lemma_entries_fail(b, i, t + 1, n);
    }
}

/// Parses and validates an envelope, giving the descriptor it carries.
pub fn decode(b: &[u8]) -> (r: Result<TensorDescriptor, CodecError>)
    ensures
        result_view(r) == spec_decode(b@),
        r matches Ok(d) ==> d@.well_formed(),
{
    if b.len() == 0 || b[0] != 0x85 {
        return Err(CodecError::DecodingError);
    }
    let mut marker: Option<bool> = None;
    let mut data: Option<Vec<u8>> = None;
    let mut dtype: Option<Vec<u8>> = None;
    let mut shape: Option<Vec<u64>> = None;
    let mut original: Option<Vec<u8>> = None;
    let mut pos: usize = 1;
    let mut t: usize = 0;
    let km = key_marker_bytes();
    let kd = key_data_bytes();
    let kt = key_dtype_bytes();
    let ks = key_shape_bytes();
    let ko = key_original_bytes();
    while t < 5
        invariant
            t <= 5,
            b@.len() > 0 && b@[0] == 0x85,
            km@ == key_marker(),
            kd@ == key_data(),
            kt@ == key_dtype(),
            ks@ == key_shape(),
            ko@ == key_original(),
            parse_entries(b@, 1, t as nat) == Some(
                (fields_of(marker, data, dtype, shape, original), pos as int),
            ),
        decreases 5 - t,
    {
        let ghost f = fields_of(marker, data, dtype, shape, original);
        let ghost p = pos as int;
        let key = read_str(b, pos);
        let ok = match key {
            Some((k, j)) => {
                if bytes_eq(k.as_slice(), km.as_slice()) && marker.is_none() {
                    match read_bool(b, j) {
                        Some((v, l)) => {
                            marker = Some(v);
                            pos = l;
                            true
                        },
                        None => false,
                    }
                } else if bytes_eq(k.as_slice(), kd.as_slice()) && data.is_none() {
                    match read_byte_array(b, j) {
                        Some((v, l)) => {
                            data = Some(v);
                            pos = l;
                            true
                        },
                        None => false,
                    }
                } else if bytes_eq(k.as_slice(), kt.as_slice()) && dtype.is_none() {
                    match read_str(b, j) {
                        Some((v, l)) => {
                            dtype = Some(v);
                            pos = l;
                            true
                        },
                        None => false,
                    }
                } else if bytes_eq(k.as_slice(), ks.as_slice()) && shape.is_none() {
                    match read_u64_array(b, j) {
                        Some((v, l)) => {
                            shape = Some(v);
                            pos = l;
                            true
                        },
                        None => false,
                    }
                } else if bytes_eq(k.as_slice(), ko.as_slice()) && original.is_none() {
                    match read_str(b, j) {
                        Some((v, l)) => {
                            original = Some(v);
                            pos = l;
                            true
                        },
                        None => false,
                    }
                } else {
                    false
                }
            },
            None => false,
        };
        if !ok {
            proof {
                assert(lift_bytes(key) == parse_str(b@, p));
                assert(parse_entry(b@, p, f) is None);
                lemma_entries_fail(b@, 1, (t + 1) as nat, 5);
            }
            return Err(CodecError::DecodingError);
        }
        proof {
            assert(lift_bytes(key) == parse_str(b@, p));
            assert(parse_entry(b@, p, f) == Some(
                (fields_of(marker, data, dtype, shape, original), pos as int),
            ));
        }
        t = t + 1;
    }
    if pos != b.len() {
        return Err(CodecError::DecodingError);
    }
    if marker.is_none() || data.is_none() || dtype.is_none() || shape.is_none()
        || original.is_none() {
        return Err(CodecError::DecodingError);
    }
    let marker = marker.unwrap();
    let data = data.unwrap();
    let dtype = dtype.unwrap();
    let shape = shape.unwrap();
    let original = original.unwrap();
    let w = match dtype_from_wire_tag(dtype.as_slice()) {
        Some(w) => w,
        None => {
            return Err(CodecError::UnsupportedDtype { name: dtype });
        },
    };
    if !len_matches(shape.as_slice(), w, data.len()) {
        let actual_len = data.len();
        return Err(CodecError::ShapeMismatch { shape, dtype: w, actual_len });
    }
    let o = match dtype_from_name(original.as_slice()) {
        Some(o) => o,
        None => {
            return Err(CodecError::UnsupportedDtype { name: original });
        },
    };
    if o.wire_type_for() != w {
        return Err(CodecError::UnsupportedDtype { name: original });
    }
    Ok(TensorDescriptor { marker, data, wire_dtype: w, shape, original_dtype: o })
}

proof fn lemma_keys_distinct()
    ensures
        key_marker().len() == 16,
        key_data().len() == 4,
        key_dtype().len() == 5,
        key_shape().len() == 5,
        key_original().len() == 14,
        key_marker() != key_data(),
        key_marker() != key_dtype(),
        key_marker() != key_shape(),
        key_marker() != key_original(),
        key_data() != key_dtype(),
        key_data() != key_shape(),
        key_data() != key_original(),
        key_dtype() != key_shape(),
        key_dtype() != key_original(),
        key_shape() != key_original(),
{
    reveal(key_marker);
    reveal(key_data);
    reveal(key_dtype);
    reveal(key_shape);
    reveal(key_original);
    assert(key_marker().len() != key_data().len());
    assert(key_dtype()[0] != key_shape()[0]);
}

/// The `k`-th piece of an envelope, counting the map header as piece 0.
#[verifier::opaque]
pub open spec fn part(d: DescriptorView, k: int) -> Seq<u8> {
    if k == 0 {
        seq![0x85u8]
    } else if k == 1 {
        enc_str(key_marker())
    } else if k == 2 {
        enc_bool(d.marker)
    } else if k == 3 {
        enc_str(key_data())
    } else if k == 4 {
        enc_byte_array(d.data)
    } else if k == 5 {
        enc_str(key_dtype())
    } else if k == 6 {
        enc_str(d.wire_dtype.wire_tag())
    } else if k == 7 {
        enc_str(key_shape())
    } else if k == 8 {
        enc_u64_array(d.shape)
    } else if k == 9 {
        enc_str(key_original())
    } else {
        enc_str(d.original_dtype.name())
    }
}

/// Pieces 0 through `k` of an envelope.
pub open spec fn upto(d: DescriptorView, k: nat) -> Seq<u8>
    decreases k,
{
    if k == 0 {
        part(d, 0)
    } else {
        upto(d, (k - 1) as nat) + part(d, k as int)
    }
}

proof fn lemma_parts(d: DescriptorView, k: nat)
    requires
        1 <= k <= 10,
        holds_at(d.envelope(), 0, upto(d, k)),
    ensures
        forall|j: nat| 1 <= j <= k ==> holds_at(d.envelope(), upto(d, (j - 1) as nat).len() as int, #[trigger] part(d, j as int)),
        holds_at(d.envelope(), 0, part(d, 0)),
    decreases k,
{
    lemma_holds_split(d.envelope(), 0, upto(d, (k - 1) as nat), part(d, k as int));
    if k > 1 {
        lemma_parts(d, (k - 1) as nat);
    }
}

proof fn lemma_envelope_parts(d: DescriptorView)
    ensures
        forall|j: nat| 1 <= j <= 10 ==> holds_at(d.envelope(), upto(d, (j - 1) as nat).len() as int, #[trigger] part(d, j as int)),
        d.envelope().len() > 0,
        d.envelope()[0] == 0x85,
        upto(d, 10) == d.envelope(),
{
    let b = d.envelope();
    reveal(envelope_of);
    reveal(part);
    reveal_with_fuel(upto, 11);
    assert(upto(d, 10) =~= b);
    assert(b.subrange(0, b.len() as int) =~= b);
    lemma_parts(d, 10);
    assert(b.subrange(0, 1)[0] == b[0]);
}

/// Piece `k + 1` of an envelope reads back as the value it was written from.
proof fn lemma_piece_parses(d: DescriptorView, k: int)
    requires
        0 <= k < 10,
        d.data.len() < 0x1_0000_0000,
        d.shape.len() < 0x1_0000_0000,
    ensures
        k == 0 ==> parse_str(d.envelope(), upto(d, 0).len() as int) == Some((key_marker(), upto(d, 1).len() as int)),
        k == 1 ==> parse_bool(d.envelope(), upto(d, 1).len() as int) == Some((d.marker, upto(d, 2).len() as int)),
        k == 2 ==> parse_str(d.envelope(), upto(d, 2).len() as int) == Some((key_data(), upto(d, 3).len() as int)),
        k == 3 ==> parse_byte_array(d.envelope(), upto(d, 3).len() as int) == Some((d.data, upto(d, 4).len() as int)),
        k == 4 ==> parse_str(d.envelope(), upto(d, 4).len() as int) == Some((key_dtype(), upto(d, 5).len() as int)),
        k == 5 ==> parse_str(d.envelope(), upto(d, 5).len() as int) == Some((d.wire_dtype.wire_tag(), upto(d, 6).len() as int)),
        k == 6 ==> parse_str(d.envelope(), upto(d, 6).len() as int) == Some((key_shape(), upto(d, 7).len() as int)),
        k == 7 ==> parse_u64_array(d.envelope(), upto(d, 7).len() as int) == Some((d.shape, upto(d, 8).len() as int)),
        k == 8 ==> parse_str(d.envelope(), upto(d, 8).len() as int) == Some((key_original(), upto(d, 9).len() as int)),
        k == 9 ==> parse_str(d.envelope(), upto(d, 9).len() as int) == Some((d.original_dtype.name(), upto(d, 10).len() as int)),
{
    let b = d.envelope();
    lemma_envelope_parts(d);
    lemma_keys_distinct();
    if k == 0 {
        assert(part(d, 1) == enc_str(key_marker())) by {
            reveal(part);
        }
        assert(holds_at(b, upto(d, 0).len() as int, part(d, 1)));
        lemma_parse_str_enc(b, upto(d, 0).len() as int, key_marker());
    }     else if k == 1 {
        assert(part(d, 2) == enc_bool(d.marker)) by {
            reveal(part);
        }
        assert(holds_at(b, upto(d, 1).len() as int, part(d, 2)));
        lemma_parse_bool_enc(b, upto(d, 1).len() as int, d.marker);
    }     else if k == 2 {
        assert(part(d, 3) == enc_str(key_data())) by {
            reveal(part);
        }
        assert(holds_at(b, upto(d, 2).len() as int, part(d, 3)));
        lemma_parse_str_enc(b, upto(d, 2).len() as int, key_data());
    }     else if k == 3 {
        assert(part(d, 4) == enc_byte_array(d.data)) by {
            reveal(part);
        }
        assert(holds_at(b, upto(d, 3).len() as int, part(d, 4)));
        lemma_parse_byte_array_enc(b, upto(d, 3).len() as int, d.data);
    }     else if k == 4 {
        assert(part(d, 5) == enc_str(key_dtype())) by {
            reveal(part);
        }
        assert(holds_at(b, upto(d, 4).len() as int, part(d, 5)));
        lemma_parse_str_enc(b, upto(d, 4).len() as int, key_dtype());
    }     else if k == 5 {
        assert(part(d, 6) == enc_str(d.wire_dtype.wire_tag())) by {
            reveal(part);
        }
        assert(holds_at(b, upto(d, 5).len() as int, part(d, 6)));
        lemma_parse_str_enc(b, upto(d, 5).len() as int, d.wire_dtype.wire_tag());
    }     else if k == 6 {
        assert(part(d, 7) == enc_str(key_shape())) by {
            reveal(part);
        }
        assert(holds_at(b, upto(d, 6).len() as int, part(d, 7)));
        lemma_parse_str_enc(b, upto(d, 6).len() as int, key_shape());
    }     else if k == 7 {
        assert(part(d, 8) == enc_u64_array(d.shape)) by {
            reveal(part);
        }
        assert(holds_at(b, upto(d, 7).len() as int, part(d, 8)));
        lemma_parse_u64_array_enc(b, upto(d, 7).len() as int, d.shape);
    }     else if k == 8 {
        assert(part(d, 9) == enc_str(key_original())) by {
            reveal(part);
        }
        assert(holds_at(b, upto(d, 8).len() as int, part(d, 9)));
        lemma_parse_str_enc(b, upto(d, 8).len() as int, key_original());
    }     else if k == 9 {
        assert(part(d, 10) == enc_str(d.original_dtype.name())) by {
            reveal(part);
        }
        assert(holds_at(b, upto(d, 9).len() as int, part(d, 10)));
        lemma_parse_str_enc(b, upto(d, 9).len() as int, d.original_dtype.name());
    }
}

proof fn lemma_envelope_parses(d: DescriptorView)
    requires
        d.data.len() < 0x1_0000_0000,
        d.shape.len() < 0x1_0000_0000,
    ensures
        parse_str(d.envelope(), upto(d, 0).len() as int) == Some((key_marker(), upto(d, 1).len() as int)),
        parse_bool(d.envelope(), upto(d, 1).len() as int) == Some((d.marker, upto(d, 2).len() as int)),
        parse_str(d.envelope(), upto(d, 2).len() as int) == Some((key_data(), upto(d, 3).len() as int)),
        parse_byte_array(d.envelope(), upto(d, 3).len() as int) == Some((d.data, upto(d, 4).len() as int)),
        parse_str(d.envelope(), upto(d, 4).len() as int) == Some((key_dtype(), upto(d, 5).len() as int)),
        parse_str(d.envelope(), upto(d, 5).len() as int) == Some((d.wire_dtype.wire_tag(), upto(d, 6).len() as int)),
        parse_str(d.envelope(), upto(d, 6).len() as int) == Some((key_shape(), upto(d, 7).len() as int)),
        parse_u64_array(d.envelope(), upto(d, 7).len() as int) == Some((d.shape, upto(d, 8).len() as int)),
        parse_str(d.envelope(), upto(d, 8).len() as int) == Some((key_original(), upto(d, 9).len() as int)),
        parse_str(d.envelope(), upto(d, 9).len() as int) == Some((d.original_dtype.name(), upto(d, 10).len() as int)),
        d.envelope().len() > 0,
        d.envelope()[0] == 0x85,
        upto(d, 10).len() as int == d.envelope().len(),
        upto(d, 0).len() as int == 1,
{
    lemma_envelope_parts(d);
    assert(upto(d, 0).len() == 1) by {
        reveal(part);
    }
    lemma_piece_parses(d, 0);
    lemma_piece_parses(d, 1);
    lemma_piece_parses(d, 2);
    lemma_piece_parses(d, 3);
    lemma_piece_parses(d, 4);
    lemma_piece_parses(d, 5);
    lemma_piece_parses(d, 6);
    lemma_piece_parses(d, 7);
    lemma_piece_parses(d, 8);
    lemma_piece_parses(d, 9);
}

/// The envelope of any descriptor reads back as its five fields.
pub proof fn lemma_envelope_fields(d: DescriptorView)
    requires
        d.data.len() < 0x1_0000_0000,
        d.shape.len() < 0x1_0000_0000,
    ensures
        parse_envelope(d.envelope()) == Some(
            EnvelopeFields {
                marker: Some(d.marker),
                data: Some(d.data),
                dtype: Some(d.wire_dtype.wire_tag()),
                shape: Some(d.shape),
                original: Some(d.original_dtype.name()),
            },
        ),
{
    let tag = d.wire_dtype.wire_tag();
    let name = d.original_dtype.name();
    let b = d.envelope();
    lemma_envelope_parses(d);
    lemma_keys_distinct();
    let f1 = EnvelopeFields { marker: Some(d.marker), ..no_fields() };
    let f2 = EnvelopeFields { data: Some(d.data), ..f1 };
    let f3 = EnvelopeFields { dtype: Some(tag), ..f2 };
    let f4 = EnvelopeFields { shape: Some(d.shape), ..f3 };
    let f5 = EnvelopeFields { original: Some(name), ..f4 };
    assert(parse_entries(b, 1, 0) == Some((no_fields(), 1int)));
    assert(parse_entries(b, 1, 1) == Some((f1, upto(d, 2).len() as int)));
    assert(parse_entries(b, 1, 2) == Some((f2, upto(d, 4).len() as int)));
    assert(parse_entries(b, 1, 3) == Some((f3, upto(d, 6).len() as int)));
    assert(parse_entries(b, 1, 4) == Some((f4, upto(d, 8).len() as int)));
    assert(parse_entries(b, 1, 5) == Some((f5, upto(d, 10).len() as int)));
    assert(parse_envelope(b) == Some(f5));
}

/// Decoding the envelope of a well-formed descriptor gives that descriptor back: the same bytes,
/// shape, wire type and semantic type, whether or not the type was widened for transport.
pub proof fn lemma_round_trip(d: DescriptorView)
    requires
        d.well_formed(),
        d.data.len() < 0x1_0000_0000,
        d.shape.len() < 0x1_0000_0000,
    ensures
        spec_decode(d.envelope()) == Ok::<DescriptorView, ErrorView>(d),
{
    lemma_envelope_fields(d);
    lemma_tagged(d.wire_dtype);
    lemma_named(d.original_dtype);
}

/// An envelope whose data is not as long as its declared shape and wire type ask fails with a
/// shape mismatch that reports the declared shape, the type and the actual length.
pub proof fn lemma_size_mismatch(d: DescriptorView)
    requires
        d.wire_dtype.is_native(),
        d.data.len() != expected_len(d.shape, d.wire_dtype),
        d.data.len() < 0x1_0000_0000,
        d.shape.len() < 0x1_0000_0000,
    ensures
        spec_decode(d.envelope()) == Err::<DescriptorView, ErrorView>(
            ErrorView::ShapeMismatch {
                shape: d.shape,
                dtype: d.wire_dtype,
                actual_len: d.data.len(),
            },
        ),
{
    lemma_envelope_fields(d);
    lemma_tagged(d.wire_dtype);
}

/// "Tensor": the type name of a value that encode accepts.
pub open spec fn tensor_type_name() -> Seq<u8> {
    seq![84u8, 101, 110, 115, 111, 114]
}

/// "torch.": the namespace prefix that the tensor library prints before a type's name.
pub open spec fn namespace_prefix() -> Seq<u8> {
    seq![116u8, 111, 114, 99, 104, 46]
}

/// "cpu": the device name of host memory.
pub open spec fn host_device() -> Seq<u8> {
    seq![99u8, 112, 117]
}

/// A printed type name without its namespace prefix.
pub open spec fn semantic_name(s: Seq<u8>) -> Seq<u8> {
    if s.len() >= 6 && s.subrange(0, 6) == namespace_prefix() {
        s.subrange(6, s.len() as int)
    } else {
        s
    }
}

/// Accepts a value for encoding only if its type is the tensor type.
pub fn check_tensor_type(actual_type: &[u8]) -> (r: Result<(), CodecError>)
    ensures
        r is Ok <==> actual_type@ == tensor_type_name(),
        r matches Err(e) ==> e@ == (ErrorView::TypeMismatch { actual_type: actual_type@ }),
{
    let expected = vec![84u8, 101, 110, 115, 111, 114]; // "Tensor"
    assert(expected@ =~= tensor_type_name());
    if bytes_eq(actual_type, expected.as_slice()) {
        Ok(())
    } else {
        Err(CodecError::TypeMismatch { actual_type: slice_to_vec(actual_type) })
    }
}

/// Strips the namespace prefix from a printed type name.
pub fn strip_namespace(s: &[u8]) -> (r: Vec<u8>)
    ensures
        r@ == semantic_name(s@),
{
    let prefix = vec![116u8, 111, 114, 99, 104, 46]; // "torch."
    assert(prefix@ =~= namespace_prefix());
    let has_prefix = s.len() >= 6 && bytes_eq(&s[0..6], prefix.as_slice());
    let start: usize = if has_prefix {
        6
    } else {
        0
    };
    let mut r: Vec<u8> = Vec::new();
    let mut i: usize = start;
    while i < s.len()
        invariant
            start <= i <= s@.len(),
            r@ == s@.subrange(start as int, i as int),
        decreases s@.len() - i,
    {
        r.push(s[i]);
        proof {
            assert(s@.subrange(start as int, i + 1) =~= s@.subrange(start as int, i as int).push(
                s@[i as int],
            ));
        }
        i = i + 1;
    }
    proof {
        assert(s@.subrange(0, s@.len() as int) =~= s@);
    }
    r
}

/// What the encoder asks of the tensor collaborator before it exports the buffer.
#[derive(Clone, Copy, Debug, PartialEq, Eq, Structural)]
pub struct EncodePlan {
    /// Request a host-resident copy first.
    pub to_host: bool,
    /// The tensor's semantic type, recorded as `original_dtype`.
    pub original: Dtype,
    /// The type to cast to before export, when the semantic type is not native.
    pub cast_to: Option<Dtype>,
}

pub open spec fn spec_plan(device: Seq<u8>, printed_dtype: Seq<u8>) -> Result<EncodePlan, ErrorView> {
    match dtype_named(semantic_name(printed_dtype)) {
        Some(o) => Ok(
            EncodePlan {
                to_host: device != host_device(),
                original: o,
                cast_to: if o.is_native() {
                    None
                } else {
                    Some(o.wire_type())
                },
            },
        ),
        None => Err(ErrorView::UnsupportedDtype { name: semantic_name(printed_dtype) }),
    }
}

/// Decides the normalisation steps for a tensor on `device` whose type prints as `printed_dtype`.
pub fn plan_encode(device: &[u8], printed_dtype: &[u8]) -> (r: Result<EncodePlan, CodecError>)
    ensures
        match r {
            Ok(p) => spec_plan(device@, printed_dtype@) == Ok::<EncodePlan, ErrorView>(p),
            Err(e) => spec_plan(device@, printed_dtype@) == Err::<EncodePlan, ErrorView>(e@),
        },
{
    let name = strip_namespace(printed_dtype);
    let o = match dtype_from_name(name.as_slice()) {
        Some(o) => o,
        None => {
            return Err(CodecError::UnsupportedDtype { name });
        },
    };
    let host = vec![99u8, 112, 117]; // "cpu"
    assert(host@ =~= host_device());
    let to_host = !bytes_eq(device, host.as_slice());
    let cast_to = if o.is_native_exec() {
        None
    } else {
        Some(o.wire_type_for())
    };
    Ok(EncodePlan { to_host, original: o, cast_to })
}

/// What encoding gives for an exported buffer: its bytes, wire descriptor and shape, and the
/// tensor's semantic type before any cast.
pub open spec fn spec_encode(original: Dtype, data: Seq<u8>, tag: Seq<u8>, shape: Seq<u64>) -> Result<
    Seq<u8>,
    ErrorView,
> {
    match dtype_with_tag(tag) {
        Some(w) => if w != original.wire_type() {
            Err(ErrorView::UnsupportedDtype { name: tag })
        } else if data.len() != expected_len(shape, w) {
            Err(ErrorView::ShapeMismatch { shape, dtype: w, actual_len: data.len() })
        } else if data.len() >= 0x1_0000_0000 || shape.len() >= 0x1_0000_0000 {
            Err(ErrorView::EncodingError)
        } else {
            Ok(
                DescriptorView {
                    marker: true,
                    data,
                    wire_dtype: w,
                    shape,
                    original_dtype: original,
                }.envelope(),
            )
        },
        None => Err(ErrorView::UnsupportedDtype { name: tag }),
    }
}

/// Builds the descriptor of an exported buffer and serialises it.
pub fn encode(original: Dtype, data: Vec<u8>, wire_tag: &[u8], shape: Vec<u64>) -> (r: Result<
    Vec<u8>,
    CodecError,
>)
    ensures
        match r {
            Ok(v) => spec_encode(original, data@, wire_tag@, shape@) == Ok::<Seq<u8>, ErrorView>(
                v@,
            ),
            Err(e) => spec_encode(original, data@, wire_tag@, shape@) == Err::<Seq<u8>, ErrorView>(
                e@,
            ),
        },
{
    let tag = slice_to_vec(wire_tag);
    let w = match dtype_from_wire_tag(wire_tag) {
        Some(w) => w,
        None => {
            return Err(CodecError::UnsupportedDtype { name: tag });
        },
    };
    if w != original.wire_type_for() {
        return Err(CodecError::UnsupportedDtype { name: tag });
    }
    if !len_matches(shape.as_slice(), w, data.len()) {
        let actual_len = data.len();
        return Err(CodecError::ShapeMismatch { shape, dtype: w, actual_len });
    }
    let d = TensorDescriptor { marker: true, data, wire_dtype: w, shape, original_dtype: original };
    encode_descriptor(&d)
}

impl TensorDescriptor {
    /// The type to cast the rebuilt tensor back to, when the encoder widened it.
    pub fn narrow_target(&self) -> (r: Option<Dtype>)
        ensures
            r == (if self.original_dtype != self.wire_dtype {
                Some(self.original_dtype)
            } else {
                None::<Dtype>
            }),
    {
        if self.original_dtype != self.wire_dtype {
            Some(self.original_dtype)
        } else {
            None
        }
    }
}

/// Whatever encode produces, decode turns back into the same bytes, shape and semantic type,
/// with the marker set; the wire type is the one the semantic type travels as.
pub proof fn lemma_encode_decode(original: Dtype, data: Seq<u8>, tag: Seq<u8>, shape: Seq<u64>)
    requires
        spec_encode(original, data, tag, shape) is Ok,
    ensures
        spec_decode(spec_encode(original, data, tag, shape)->Ok_0) == Ok::<DescriptorView, ErrorView>(
            DescriptorView {
                marker: true,
                data,
                wire_dtype: original.wire_type(),
                shape,
                original_dtype: original,
            },
        ),
{
    let w = dtype_with_tag(tag)->0;
    let d = DescriptorView { marker: true, data, wire_dtype: w, shape, original_dtype: original };
    assert(w.is_native());
    lemma_round_trip(d);
}

/// A tensor of the widened type travels as 4-byte floats and is narrowed back after decoding.
pub proof fn lemma_widened_round_trip(data: Seq<u8>, tag: Seq<u8>, shape: Seq<u64>)
    requires
        spec_encode(Dtype::BFloat16, data, tag, shape) is Ok,
    ensures
        spec_decode(spec_encode(Dtype::BFloat16, data, tag, shape)->Ok_0) matches Ok(d) && d.wire_dtype
            == Dtype::Float32 && d.original_dtype == Dtype::BFloat16 && d.shape == shape && d.data
            == data,
{
    lemma_encode_decode(Dtype::BFloat16, data, tag, shape);
}

proof fn lemma_ext_entry(p: Seq<u8>, b: Seq<u8>, i: int, f: EnvelopeFields)
    requires
        is_prefix(p, b),
        parse_entry(p, i, f) is Some,
    ensures
        parse_entry(b, i, f) == parse_entry(p, i, f),
{
    lemma_ext_str(p, b, i);
    let (k, j) = parse_str(p, i)->0;
    if k == key_marker() && f.marker is None {
        lemma_ext_bool(p, b, j);
    } else if k == key_data() && f.data is None {
        lemma_ext_byte_array(p, b, j);
    } else if k == key_dtype() && f.dtype is None {
        lemma_ext_str(p, b, j);
    } else if k == key_shape() && f.shape is None {
        lemma_ext_u64_array(p, b, j);
    } else {
        lemma_ext_str(p, b, j);
    }
}

proof fn lemma_ext_entries(p: Seq<u8>, b: Seq<u8>, i: int, n: nat)
    requires
        is_prefix(p, b),
        parse_entries(p, i, n) is Some,
    ensures
        parse_entries(b, i, n) == parse_entries(p, i, n),
    decreases n,
{
    if n > 0 {
        lemma_ext_entries(p, b, i, (n - 1) as nat);
        let (f, j) = parse_entries(p, i, (n - 1) as nat)->0;
        lemma_ext_entry(p, b, j, f);
    }
}

/// An envelope is read whole or not at all: no proper prefix of an envelope parses.
pub proof fn lemma_no_envelope_prefix(p: Seq<u8>, b: Seq<u8>)
    requires
        parse_envelope(b) is Some,
        is_prefix(p, b),
        p.len() < b.len(),
    ensures
        parse_envelope(p) is None,
{
    if parse_envelope(p) is Some {
        lemma_ext_entries(p, b, 1, 5);
    }
}

/// Any envelope that decodes fails to decode as malformed once its last byte is removed.
pub proof fn lemma_truncated(b: Seq<u8>)
    requires
        spec_decode(b) is Ok,
    ensures
        spec_decode(b.drop_last()) == Err::<DescriptorView, ErrorView>(ErrorView::DecodingError),
{
    let p = b.drop_last();
    assert(p =~= b.subrange(0, p.len() as int));
    lemma_no_envelope_prefix(p, b);
}

} // verus!
