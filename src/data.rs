//! Numbers of the fixed-width integer types, coded directly as raw bytes.

use vstd::prelude::*;
use crate::endian::Endian;
use crate::plain::{Prim, Scalar};
use crate::stream::{Be, DecodeError, IntoMagic, Le, Reader, Writer};

verus! {

/// A fixed-width number that converts to and from its raw bytes in a given
/// byte order.
pub trait PlainData: Sized {
    /// The value as a number of its kind.
    spec fn as_scalar(&self) -> Scalar;

    /// The kind of the type's values.
    spec fn kind() -> Prim;

    /// The number of bytes of a value.
    fn size() -> (r: usize)
        ensures
            r == Self::kind().size(),
    ;

    /// The type's name, used to say what could not be decoded.
    fn kind_name() -> (r: &'static str)
        ensures
            r == Self::kind().spec_name(),
    ;

    /// Every value is a number of the type's kind, and is determined by it.
    proof fn lemma_as_scalar(a: Self, b: Self)
        ensures
            a.as_scalar().kind() == Self::kind(),
            a.as_scalar() == b.as_scalar() ==> a == b,
    ;

    /// The raw bytes of the value.
    fn to_bytes(&self, endian: Endian) -> (r: Vec<u8>)
        ensures
            r@ == self.as_scalar().spec_to_bytes(endian),
    ;

    /// The value that raw bytes stand for.
    fn from_bytes(bytes: &[u8], endian: Endian) -> (r: Self)
        requires
            bytes@.len() == Self::kind().size(),
        ensures
            r.as_scalar() == Scalar::spec_from_bytes(Self::kind(), bytes@, endian),
    ;
}

impl PlainData for u8 {
    open spec fn as_scalar(&self) -> Scalar {
        Scalar::U8(*self)
    }

    open spec fn kind() -> Prim {
        Prim::U8
    }

    fn size() -> (r: usize) {
        Prim::U8.width()
    }

    fn kind_name() -> (r: &'static str) {
        Prim::U8.name()
    }

    proof fn lemma_as_scalar(a: Self, b: Self) {
    }

    fn to_bytes(&self, endian: Endian) -> (r: Vec<u8>) {
        Scalar::U8(*self).to_bytes(endian)
    }

    fn from_bytes(bytes: &[u8], endian: Endian) -> (r: Self) {
        match Scalar::from_bytes(Prim::U8, bytes, endian) {
            Scalar::U8(x) => x,
            _ => {
                proof {
                    assert(false);
                }
                0
            },
        }
    }
}

impl PlainData for u16 {
    open spec fn as_scalar(&self) -> Scalar {
        Scalar::U16(*self)
    }

    open spec fn kind() -> Prim {
        Prim::U16
    }

    fn size() -> (r: usize) {
        Prim::U16.width()
    }

    fn kind_name() -> (r: &'static str) {
        Prim::U16.name()
    }

    proof fn lemma_as_scalar(a: Self, b: Self) {
    }

    fn to_bytes(&self, endian: Endian) -> (r: Vec<u8>) {
        Scalar::U16(*self).to_bytes(endian)
    }

    fn from_bytes(bytes: &[u8], endian: Endian) -> (r: Self) {
        match Scalar::from_bytes(Prim::U16, bytes, endian) {
            Scalar::U16(x) => x,
            _ => {
                proof {
                    assert(false);
                }
                0
            },
        }
    }
}

impl PlainData for u32 {
    open spec fn as_scalar(&self) -> Scalar {
        Scalar::U32(*self)
    }

    open spec fn kind() -> Prim {
        Prim::U32
    }

    fn size() -> (r: usize) {
        Prim::U32.width()
    }

    fn kind_name() -> (r: &'static str) {
        Prim::U32.name()
    }

    proof fn lemma_as_scalar(a: Self, b: Self) {
    }

    fn to_bytes(&self, endian: Endian) -> (r: Vec<u8>) {
        Scalar::U32(*self).to_bytes(endian)
    }

    fn from_bytes(bytes: &[u8], endian: Endian) -> (r: Self) {
        match Scalar::from_bytes(Prim::U32, bytes, endian) {
            Scalar::U32(x) => x,
            _ => {
                proof {
                    assert(false);
                }
                0
            },
        }
    }
}

impl PlainData for u64 {
    open spec fn as_scalar(&self) -> Scalar {
        Scalar::U64(*self)
    }

    open spec fn kind() -> Prim {
        Prim::U64
    }

    fn size() -> (r: usize) {
        Prim::U64.width()
    }

    fn kind_name() -> (r: &'static str) {
        Prim::U64.name()
    }

    proof fn lemma_as_scalar(a: Self, b: Self) {
    }

    fn to_bytes(&self, endian: Endian) -> (r: Vec<u8>) {
        Scalar::U64(*self).to_bytes(endian)
    }

    fn from_bytes(bytes: &[u8], endian: Endian) -> (r: Self) {
        match Scalar::from_bytes(Prim::U64, bytes, endian) {
            Scalar::U64(x) => x,
            _ => {
                proof {
                    assert(false);
                }
                0
            },
        }
    }
}

impl PlainData for u128 {
    open spec fn as_scalar(&self) -> Scalar {
        Scalar::U128(*self)
    }

    open spec fn kind() -> Prim {
        Prim::U128
    }

    fn size() -> (r: usize) {
        Prim::U128.width()
    }

    fn kind_name() -> (r: &'static str) {
        Prim::U128.name()
    }

    proof fn lemma_as_scalar(a: Self, b: Self) {
    }

    fn to_bytes(&self, endian: Endian) -> (r: Vec<u8>) {
        Scalar::U128(*self).to_bytes(endian)
    }

    fn from_bytes(bytes: &[u8], endian: Endian) -> (r: Self) {
        match Scalar::from_bytes(Prim::U128, bytes, endian) {
            Scalar::U128(x) => x,
            _ => {
                proof {
                    assert(false);
                }
                0
            },
        }
    }
}

impl PlainData for i8 {
    open spec fn as_scalar(&self) -> Scalar {
        Scalar::I8(*self)
    }

    open spec fn kind() -> Prim {
        Prim::I8
    }

    fn size() -> (r: usize) {
        Prim::I8.width()
    }

    fn kind_name() -> (r: &'static str) {
        Prim::I8.name()
    }

    proof fn lemma_as_scalar(a: Self, b: Self) {
    }

    fn to_bytes(&self, endian: Endian) -> (r: Vec<u8>) {
        Scalar::I8(*self).to_bytes(endian)
    }

    fn from_bytes(bytes: &[u8], endian: Endian) -> (r: Self) {
        match Scalar::from_bytes(Prim::I8, bytes, endian) {
            Scalar::I8(x) => x,
            _ => {
                proof {
                    assert(false);
                }
                0
            },
        }
    }
}

impl PlainData for i16 {
    open spec fn as_scalar(&self) -> Scalar {
        Scalar::I16(*self)
    }

    open spec fn kind() -> Prim {
        Prim::I16
    }

    fn size() -> (r: usize) {
        Prim::I16.width()
    }

    fn kind_name() -> (r: &'static str) {
        Prim::I16.name()
    }

    proof fn lemma_as_scalar(a: Self, b: Self) {
    }

    fn to_bytes(&self, endian: Endian) -> (r: Vec<u8>) {
        Scalar::I16(*self).to_bytes(endian)
    }

    fn from_bytes(bytes: &[u8], endian: Endian) -> (r: Self) {
        match Scalar::from_bytes(Prim::I16, bytes, endian) {
            Scalar::I16(x) => x,
            _ => {
                proof {
                    assert(false);
                }
                0
            },
        }
    }
}

impl PlainData for i32 {
    open spec fn as_scalar(&self) -> Scalar {
        Scalar::I32(*self)
    }

    open spec fn kind() -> Prim {
        Prim::I32
    }

    fn size() -> (r: usize) {
        Prim::I32.width()
    }

    fn kind_name() -> (r: &'static str) {
        Prim::I32.name()
    }

    proof fn lemma_as_scalar(a: Self, b: Self) {
    }

    fn to_bytes(&self, endian: Endian) -> (r: Vec<u8>) {
        Scalar::I32(*self).to_bytes(endian)
    }

    fn from_bytes(bytes: &[u8], endian: Endian) -> (r: Self) {
        match Scalar::from_bytes(Prim::I32, bytes, endian) {
            Scalar::I32(x) => x,
            _ => {
                proof {
                    assert(false);
                }
                0
            },
        }
    }
}

impl PlainData for i64 {
    open spec fn as_scalar(&self) -> Scalar {
        Scalar::I64(*self)
    }

    open spec fn kind() -> Prim {
        Prim::I64
    }

    fn size() -> (r: usize) {
        Prim::I64.width()
    }

    fn kind_name() -> (r: &'static str) {
        Prim::I64.name()
    }

    proof fn lemma_as_scalar(a: Self, b: Self) {
    }

    fn to_bytes(&self, endian: Endian) -> (r: Vec<u8>) {
        Scalar::I64(*self).to_bytes(endian)
    }

    fn from_bytes(bytes: &[u8], endian: Endian) -> (r: Self) {
        match Scalar::from_bytes(Prim::I64, bytes, endian) {
            Scalar::I64(x) => x,
            _ => {
                proof {
                    assert(false);
                }
                0
            },
        }
    }
}

impl PlainData for i128 {
    open spec fn as_scalar(&self) -> Scalar {
        Scalar::I128(*self)
    }

    open spec fn kind() -> Prim {
        Prim::I128
    }

    fn size() -> (r: usize) {
        Prim::I128.width()
    }

    fn kind_name() -> (r: &'static str) {
        Prim::I128.name()
    }

    proof fn lemma_as_scalar(a: Self, b: Self) {
    }

    fn to_bytes(&self, endian: Endian) -> (r: Vec<u8>) {
        Scalar::I128(*self).to_bytes(endian)
    }

    fn from_bytes(bytes: &[u8], endian: Endian) -> (r: Self) {
        match Scalar::from_bytes(Prim::I128, bytes, endian) {
            Scalar::I128(x) => x,
            _ => {
                proof {
                    assert(false);
                }
                0
            },
        }
    }
}

/// Decodes a number of type `T`: exactly its size in bytes, in the given
/// byte order.
pub fn plain_data_decode_with<T: PlainData>(reader: &mut Reader, endian: Endian) -> (r: Result<T, DecodeError>)
    ensures
        ({
            let input = old(reader)@;
            let width = T::kind().size();
            &&& width <= input.len() ==> (r matches Ok(v) && v.as_scalar() == Scalar::spec_from_bytes(
                T::kind(),
                input.subrange(0, width as int),
                endian,
            ) && final(reader)@ == input.subrange(width as int, input.len() as int))
            &&& width > input.len() ==> r == Err::<T, DecodeError>(
                DecodeError::IncompleteData {
                    context: T::kind().spec_name(),
                    needed: width as usize,
                    available: input.len() as usize,
                },
            ) && final(reader)@ == input
        }),
{
    let bytes = reader.read_exact(T::size(), T::kind_name())?;
    Ok(T::from_bytes(bytes.as_slice(), endian))
}

/// Encodes a number of type `T` as its raw bytes in the given byte order.
pub fn plain_data_encode_with<T: PlainData>(value: &T, writer: &mut Writer, endian: Endian)
    ensures
        final(writer)@ == old(writer)@ + value.as_scalar().spec_to_bytes(endian),
        final(writer)@.len() == old(writer)@.len() + T::kind().size(),
{
    proof {
        T::lemma_as_scalar(*value, *value);
        crate::plain::lemma_scalar_round_trip(value.as_scalar(), endian);
    }
    let b = value.to_bytes(endian);
    writer.write_all(b.as_slice());
}

impl<T: PlainData> Le<T> {
    /// Decodes a number that is always little-endian.
    pub fn decode(reader: &mut Reader) -> (r: Result<Le<T>, DecodeError>)
        ensures
            ({
                let input = old(reader)@;
                let width = T::kind().size();
                &&& width <= input.len() ==> (r matches Ok(v) && v.0.as_scalar() == Scalar::spec_from_bytes(
                    T::kind(),
                    input.subrange(0, width as int),
                    Endian::Little,
                ) && final(reader)@ == input.subrange(width as int, input.len() as int))
                &&& width > input.len() ==> r == Err::<Self, DecodeError>(
                    DecodeError::IncompleteData {
                        context: T::kind().spec_name(),
                        needed: width as usize,
                        available: input.len() as usize,
                    },
                ) && final(reader)@ == input
            }),
    {
        let v = plain_data_decode_with::<T>(reader, Endian::Little)?;
        Ok(Le(v))
    }

    /// Encodes the number little-endian.
    pub fn encode(&self, writer: &mut Writer)
        ensures
            final(writer)@ == old(writer)@ + self.0.as_scalar().spec_to_bytes(Endian::Little),
    {
        plain_data_encode_with(&self.0, writer, Endian::Little);
    }
}

impl<T: PlainData> Be<T> {
    /// Decodes a number that is always big-endian.
    pub fn decode(reader: &mut Reader) -> (r: Result<Be<T>, DecodeError>)
        ensures
            ({
                let input = old(reader)@;
                let width = T::kind().size();
                &&& width <= input.len() ==> (r matches Ok(v) && v.0.as_scalar() == Scalar::spec_from_bytes(
                    T::kind(),
                    input.subrange(0, width as int),
                    Endian::Big,
                ) && final(reader)@ == input.subrange(width as int, input.len() as int))
                &&& width > input.len() ==> r == Err::<Self, DecodeError>(
                    DecodeError::IncompleteData {
                        context: T::kind().spec_name(),
                        needed: width as usize,
                        available: input.len() as usize,
                    },
                ) && final(reader)@ == input
            }),
    {
        let v = plain_data_decode_with::<T>(reader, Endian::Big)?;
        Ok(Be(v))
    }

    /// Encodes the number big-endian.
    pub fn encode(&self, writer: &mut Writer)
        ensures
            final(writer)@ == old(writer)@ + self.0.as_scalar().spec_to_bytes(Endian::Big),
    {
        plain_data_encode_with(&self.0, writer, Endian::Big);
    }
}

impl<T: PlainData> IntoMagic for Le<T> {
    open spec fn magic_bytes(&self) -> Seq<u8> {
        self.0.as_scalar().spec_to_bytes(Endian::Little)
    }

    fn into_magic(self) -> (r: Vec<u8>) {
        self.0.to_bytes(Endian::Little)
    }
}

impl<T: PlainData> IntoMagic for Be<T> {
    open spec fn magic_bytes(&self) -> Seq<u8> {
        self.0.as_scalar().spec_to_bytes(Endian::Big)
    }

    fn into_magic(self) -> (r: Vec<u8>) {
        self.0.to_bytes(Endian::Big)
    }
}

} // verus!
