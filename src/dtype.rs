//! Element types: their names, wire descriptors, sizes, and the widening table.
use vstd::prelude::*;

verus! {

/// The semantic element types that the codec recognises.
#[derive(Clone, Copy, Debug, PartialEq, Eq, Structural)]
pub enum Dtype {
    Bool,
    UInt8,
    Int8,
    Int16,
    Int32,
    Int64,
    Float16,
    BFloat16,
    Float32,
    Float64,
    Complex64,
    Complex128,
}

impl Dtype {
    /// The semantic name of the type, as the tensor library spells it.
    pub open spec fn name(self) -> Seq<u8> {
        match self {
            Dtype::Bool => seq![98u8, 111, 111, 108], // "bool"
            Dtype::UInt8 => seq![117u8, 105, 110, 116, 56], // "uint8"
            Dtype::Int8 => seq![105u8, 110, 116, 56], // "int8"
            Dtype::Int16 => seq![105u8, 110, 116, 49, 54], // "int16"
            Dtype::Int32 => seq![105u8, 110, 116, 51, 50], // "int32"
            Dtype::Int64 => seq![105u8, 110, 116, 54, 52], // "int64"
            Dtype::Float16 => seq![102u8, 108, 111, 97, 116, 49, 54], // "float16"
            Dtype::BFloat16 => seq![98u8, 102, 108, 111, 97, 116, 49, 54], // "bfloat16"
            Dtype::Float32 => seq![102u8, 108, 111, 97, 116, 51, 50], // "float32"
            Dtype::Float64 => seq![102u8, 108, 111, 97, 116, 54, 52], // "float64"
            Dtype::Complex64 => seq![99u8, 111, 109, 112, 108, 101, 120, 54, 52], // "complex64"
            Dtype::Complex128 => seq![99u8, 111, 109, 112, 108, 101, 120, 49, 50, 56], // "complex128"
        }
    }

    /// Whether the transport can export a buffer of this type as it is.
    pub open spec fn is_native(self) -> bool {
        self != Dtype::BFloat16
    }

    /// The wire descriptor (array-library dtype string, little-endian host) of a native type.
    pub open spec fn wire_tag(self) -> Seq<u8> {
        match self {
            Dtype::Bool => seq![124u8, 98, 49], // "|b1"
            Dtype::UInt8 => seq![124u8, 117, 49], // "|u1"
            Dtype::Int8 => seq![124u8, 105, 49], // "|i1"
            Dtype::Int16 => seq![60u8, 105, 50], // "<i2"
            Dtype::Int32 => seq![60u8, 105, 52], // "<i4"
            Dtype::Int64 => seq![60u8, 105, 56], // "<i8"
            Dtype::Float16 => seq![60u8, 102, 50], // "<f2"
            Dtype::BFloat16 => Seq::empty(),
            Dtype::Float32 => seq![60u8, 102, 52], // "<f4"
            Dtype::Float64 => seq![60u8, 102, 56], // "<f8"
            Dtype::Complex64 => seq![60u8, 99, 56], // "<c8"
            Dtype::Complex128 => seq![60u8, 99, 49, 54], // "<c16"
        }
    }

    /// Size in bytes of one element.
    pub open spec fn itemsize(self) -> nat {
        match self {
            Dtype::Bool | Dtype::UInt8 | Dtype::Int8 => 1,
            Dtype::Int16 | Dtype::Float16 | Dtype::BFloat16 => 2,
            Dtype::Int32 | Dtype::Float32 => 4,
            Dtype::Int64 | Dtype::Float64 | Dtype::Complex64 => 8,
            Dtype::Complex128 => 16,
        }
    }

    /// The type a tensor of this type travels as: itself when native, else its widened type.
    pub open spec fn wire_type(self) -> Dtype {
        if self == Dtype::BFloat16 {
            Dtype::Float32
        } else {
            self
        }
    }

    pub fn name_bytes(&self) -> (r: Vec<u8>)
        ensures
            r@ == self.name(),
    {
        let r = match self {
            Dtype::Bool => vec![98u8, 111, 111, 108], // "bool"
            Dtype::UInt8 => vec![117u8, 105, 110, 116, 56], // "uint8"
            Dtype::Int8 => vec![105u8, 110, 116, 56], // "int8"
            Dtype::Int16 => vec![105u8, 110, 116, 49, 54], // "int16"
            Dtype::Int32 => vec![105u8, 110, 116, 51, 50], // "int32"
            Dtype::Int64 => vec![105u8, 110, 116, 54, 52], // "int64"
            Dtype::Float16 => vec![102u8, 108, 111, 97, 116, 49, 54], // "float16"
            Dtype::BFloat16 => vec![98u8, 102, 108, 111, 97, 116, 49, 54], // "bfloat16"
            Dtype::Float32 => vec![102u8, 108, 111, 97, 116, 51, 50], // "float32"
            Dtype::Float64 => vec![102u8, 108, 111, 97, 116, 54, 52], // "float64"
            Dtype::Complex64 => vec![99u8, 111, 109, 112, 108, 101, 120, 54, 52], // "complex64"
            Dtype::Complex128 => vec![99u8, 111, 109, 112, 108, 101, 120, 49, 50, 56], // "complex128"
        };
        proof {
            assert(r@ =~= self.name());
        }
        r
    }

    /// The wire descriptor of a native type; empty for a type that must be widened first.
    pub fn wire_tag_bytes(&self) -> (r: Vec<u8>)
        ensures
            r@ == self.wire_tag(),
    {
        let r = match self {
            Dtype::Bool => vec![124u8, 98, 49], // "|b1"
            Dtype::UInt8 => vec![124u8, 117, 49], // "|u1"
            Dtype::Int8 => vec![124u8, 105, 49], // "|i1"
            Dtype::Int16 => vec![60u8, 105, 50], // "<i2"
            Dtype::Int32 => vec![60u8, 105, 52], // "<i4"
            Dtype::Int64 => vec![60u8, 105, 56], // "<i8"
            Dtype::Float16 => vec![60u8, 102, 50], // "<f2"
            Dtype::BFloat16 => Vec::new(),
            Dtype::Float32 => vec![60u8, 102, 52], // "<f4"
            Dtype::Float64 => vec![60u8, 102, 56], // "<f8"
            Dtype::Complex64 => vec![60u8, 99, 56], // "<c8"
            Dtype::Complex128 => vec![60u8, 99, 49, 54], // "<c16"
        };
        proof {
            assert(r@ =~= self.wire_tag());
        }
        r
    }

    pub fn itemsize_exec(&self) -> (r: usize)
        ensures
            r as nat == self.itemsize(),
    {
        match self {
            Dtype::Bool | Dtype::UInt8 | Dtype::Int8 => 1,
            Dtype::Int16 | Dtype::Float16 | Dtype::BFloat16 => 2,
            Dtype::Int32 | Dtype::Float32 => 4,
            Dtype::Int64 | Dtype::Float64 | Dtype::Complex64 => 8,
            Dtype::Complex128 => 16,
        }
    }

    pub fn is_native_exec(&self) -> (r: bool)
        ensures
            r == self.is_native(),
    {
        !matches!(self, Dtype::BFloat16)
    }

    /// The type that the encoder casts a tensor of this type to before export.
    pub fn wire_type_for(&self) -> (r: Dtype)
        ensures
            r == self.wire_type(),
            r.is_native(),
            self.is_native() ==> r == *self,
    {
        match self {
            Dtype::BFloat16 => Dtype::Float32,
            _ => *self,
        }
    }
}

/// Whether two byte strings are equal.
pub fn bytes_eq(a: &[u8], b: &[u8]) -> (r: bool)
    ensures
        r == (a@ == b@),
{
    if a.len() != b.len() {
        return false;
    }
    let mut i: usize = 0;
    while i < a.len()
        invariant
            a@.len() == b@.len(),
            i <= a@.len(),
            a@.subrange(0, i as int) == b@.subrange(0, i as int),
        decreases a@.len() - i,
    {
        if a[i] != b[i] {
            return false;
        }
        proof {
            assert(a@.subrange(0, i + 1) =~= a@.subrange(0, i as int).push(a@[i as int]));
            assert(b@.subrange(0, i + 1) =~= b@.subrange(0, i as int).push(b@[i as int]));
        }
        i = i + 1;
    }
    proof {
        assert(a@ =~= a@.subrange(0, a@.len() as int));
        assert(b@ =~= b@.subrange(0, b@.len() as int));
    }
    true
}

/// The recognised type whose name is `s`.
pub open spec fn dtype_named(s: Seq<u8>) -> Option<Dtype> {
    if s == Dtype::Bool.name() {
        Some(Dtype::Bool)
    } else if s == Dtype::UInt8.name() {
        Some(Dtype::UInt8)
    } else if s == Dtype::Int8.name() {
        Some(Dtype::Int8)
    } else if s == Dtype::Int16.name() {
        Some(Dtype::Int16)
    } else if s == Dtype::Int32.name() {
        Some(Dtype::Int32)
    } else if s == Dtype::Int64.name() {
        Some(Dtype::Int64)
    } else if s == Dtype::Float16.name() {
        Some(Dtype::Float16)
    } else if s == Dtype::BFloat16.name() {
        Some(Dtype::BFloat16)
    } else if s == Dtype::Float32.name() {
        Some(Dtype::Float32)
    } else if s == Dtype::Float64.name() {
        Some(Dtype::Float64)
    } else if s == Dtype::Complex64.name() {
        Some(Dtype::Complex64)
    } else if s == Dtype::Complex128.name() {
        Some(Dtype::Complex128)
    } else {
        None
    }
}

/// The native type whose wire descriptor is `s`.
pub open spec fn dtype_with_tag(s: Seq<u8>) -> Option<Dtype> {
    if s == Dtype::Bool.wire_tag() {
        Some(Dtype::Bool)
    } else if s == Dtype::UInt8.wire_tag() {
        Some(Dtype::UInt8)
    } else if s == Dtype::Int8.wire_tag() {
        Some(Dtype::Int8)
    } else if s == Dtype::Int16.wire_tag() {
        Some(Dtype::Int16)
    } else if s == Dtype::Int32.wire_tag() {
        Some(Dtype::Int32)
    } else if s == Dtype::Int64.wire_tag() {
        Some(Dtype::Int64)
    } else if s == Dtype::Float16.wire_tag() {
        Some(Dtype::Float16)
    } else if s == Dtype::Float32.wire_tag() {
        Some(Dtype::Float32)
    } else if s == Dtype::Float64.wire_tag() {
        Some(Dtype::Float64)
    } else if s == Dtype::Complex64.wire_tag() {
        Some(Dtype::Complex64)
    } else if s == Dtype::Complex128.wire_tag() {
        Some(Dtype::Complex128)
    } else {
        None
    }
}

/// Recognises a semantic type by its name; `None` for a name the table does not hold.
pub fn dtype_from_name(s: &[u8]) -> (r: Option<Dtype>)
    ensures
        r == dtype_named(s@),
{
    if bytes_eq(s, Dtype::Bool.name_bytes().as_slice()) {
        Some(Dtype::Bool)
    } else if bytes_eq(s, Dtype::UInt8.name_bytes().as_slice()) {
        Some(Dtype::UInt8)
    } else if bytes_eq(s, Dtype::Int8.name_bytes().as_slice()) {
        Some(Dtype::Int8)
    } else if bytes_eq(s, Dtype::Int16.name_bytes().as_slice()) {
        Some(Dtype::Int16)
    } else if bytes_eq(s, Dtype::Int32.name_bytes().as_slice()) {
        Some(Dtype::Int32)
    } else if bytes_eq(s, Dtype::Int64.name_bytes().as_slice()) {
        Some(Dtype::Int64)
    } else if bytes_eq(s, Dtype::Float16.name_bytes().as_slice()) {
        Some(Dtype::Float16)
    } else if bytes_eq(s, Dtype::BFloat16.name_bytes().as_slice()) {
        Some(Dtype::BFloat16)
    } else if bytes_eq(s, Dtype::Float32.name_bytes().as_slice()) {
        Some(Dtype::Float32)
    } else if bytes_eq(s, Dtype::Float64.name_bytes().as_slice()) {
        Some(Dtype::Float64)
    } else if bytes_eq(s, Dtype::Complex64.name_bytes().as_slice()) {
        Some(Dtype::Complex64)
    } else if bytes_eq(s, Dtype::Complex128.name_bytes().as_slice()) {
        Some(Dtype::Complex128)
    } else {
        None
    }
}

/// Recognises a native type by its wire descriptor; `None` for any other descriptor.
pub fn dtype_from_wire_tag(s: &[u8]) -> (r: Option<Dtype>)
    ensures
        r == dtype_with_tag(s@),
{
    if bytes_eq(s, Dtype::Bool.wire_tag_bytes().as_slice()) {
        Some(Dtype::Bool)
    } else if bytes_eq(s, Dtype::UInt8.wire_tag_bytes().as_slice()) {
        Some(Dtype::UInt8)
    } else if bytes_eq(s, Dtype::Int8.wire_tag_bytes().as_slice()) {
        Some(Dtype::Int8)
    } else if bytes_eq(s, Dtype::Int16.wire_tag_bytes().as_slice()) {
        Some(Dtype::Int16)
    } else if bytes_eq(s, Dtype::Int32.wire_tag_bytes().as_slice()) {
        Some(Dtype::Int32)
    } else if bytes_eq(s, Dtype::Int64.wire_tag_bytes().as_slice()) {
        Some(Dtype::Int64)
    } else if bytes_eq(s, Dtype::Float16.wire_tag_bytes().as_slice()) {
        Some(Dtype::Float16)
    } else if bytes_eq(s, Dtype::Float32.wire_tag_bytes().as_slice()) {
        Some(Dtype::Float32)
    } else if bytes_eq(s, Dtype::Float64.wire_tag_bytes().as_slice()) {
        Some(Dtype::Float64)
    } else if bytes_eq(s, Dtype::Complex64.wire_tag_bytes().as_slice()) {
        Some(Dtype::Complex64)
    } else if bytes_eq(s, Dtype::Complex128.wire_tag_bytes().as_slice()) {
        Some(Dtype::Complex128)
    } else {
        None
    }
}

/// Every type is found again by its name.
pub proof fn lemma_named(d: Dtype)
    ensures
        dtype_named(d.name()) == Some(d),
{
    match d {
        Dtype::Bool => {},
        Dtype::UInt8 => {},
        Dtype::Int8 => {},
        Dtype::Int16 => {},
        Dtype::Int32 => {},
        Dtype::Int64 => {},
        Dtype::Float16 => {},
        Dtype::BFloat16 => {},
        Dtype::Float32 => {},
        Dtype::Float64 => {},
        Dtype::Complex64 => {},
        Dtype::Complex128 => {},
    }
}

/// Every native type is found again by its wire descriptor.
pub proof fn lemma_tagged(d: Dtype)
    requires
        d.is_native(),
    ensures
        dtype_with_tag(d.wire_tag()) == Some(d),
{
    match d {
        Dtype::Bool => {},
        Dtype::UInt8 => {},
        Dtype::Int8 => {},
        Dtype::Int16 => {},
        Dtype::Int32 => {},
        Dtype::Int64 => {},
        Dtype::Float16 => {},
        Dtype::Float32 => {},
        Dtype::Float64 => {},
        Dtype::Complex64 => {},
        Dtype::Complex128 => {},
        Dtype::BFloat16 => {},
    }
}

} // verus!
