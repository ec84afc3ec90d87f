//! Codecs: paired encoders and decoders for one value type, and the combinators that build them.
use std::marker::PhantomData;

use vstd::prelude::*;

use crate::byte_vector::{
    append, bounds_error, drop_error, empty, fill, filled, from_slice_copy, view_error, ByteVector,
};
use crate::error::{join_context, plain_error, render, with_label, Error, ErrorModel};
use crate::hlist::{HCons, HList, HNil};
use crate::integral::{
    decode_uint, decode_uint_spec, encode_uint, lemma_decode_uint_bytes, lemma_decode_uint_prefix,
    lemma_pow256_widths, uint_bytes,
};
use crate::text::{decimal, hex, push_decimal};

verus! {

/// What encoding gives, as a model: the bytes, or the error.
pub type SpecEncoded = Result<Seq<u8>, ErrorModel>;

/// What decoding gives, as a model: the value and the unconsumed bytes, or the error.
pub type SpecDecoded<V> = Result<(V, Seq<u8>), ErrorModel>;

/// A result type returned by `encode` operations.
pub type EncodeResult = Result<ByteVector, Error>;

/// A decoded value and the data that decoding left unconsumed.
#[derive(Debug)]
pub struct DecoderResult<V> {
    /// The decoded value.
    pub value: V,
    /// The unconsumed data.
    pub remainder: ByteVector,
}

/// A result type returned by `decode` operations.
pub type DecodeResult<V> = Result<DecoderResult<V>, Error>;

/// `r` is what the model `s` says encoding gives.
pub open spec fn encoded_as(r: EncodeResult, s: SpecEncoded) -> bool {
    match r {
        Ok(b) => s == Ok::<Seq<u8>, ErrorModel>(b@),
        Err(e) => s == Err::<Seq<u8>, ErrorModel>(e@),
    }
}

/// `r` is what the model `s` says decoding gives.
pub open spec fn decoded_as<V: View>(r: DecodeResult<V>, s: SpecDecoded<V::V>) -> bool {
    match r {
        Ok(d) => s == Ok::<(V::V, Seq<u8>), ErrorModel>((d.value@, d.remainder@)),
        Err(e) => s == Err::<(V::V, Seq<u8>), ErrorModel>(e@),
    }
}

/// Encodes values of type `Value` into byte vectors and decodes them back.
pub trait Codec {
    /// The value type.
    type Value: View;

    /// What encoding `v` gives.
    spec fn spec_encode(&self, v: <Self::Value as View>::V) -> SpecEncoded;

    /// What decoding the bytes `b` gives.
    spec fn spec_decode(&self, b: Seq<u8>) -> SpecDecoded<<Self::Value as View>::V>;

    /// Attempts to encode a value into a byte vector.
    fn encode(&self, value: &Self::Value) -> (r: EncodeResult)
        ensures
            encoded_as(r, self.spec_encode(value@)),
    ;

    /// Attempts to decode a value from the front of the given byte vector.
    fn decode(&self, bv: &ByteVector) -> (r: DecodeResult<Self::Value>)
        ensures
            decoded_as(r, self.spec_decode(bv@)),
    ;
}

impl<C: Codec> Codec for Box<C> {
    type Value = C::Value;

    open spec fn spec_encode(&self, v: <C::Value as View>::V) -> SpecEncoded {
        (**self).spec_encode(v)
    }

    open spec fn spec_decode(&self, b: Seq<u8>) -> SpecDecoded<<C::Value as View>::V> {
        (**self).spec_decode(b)
    }

    fn encode(&self, value: &C::Value) -> (r: EncodeResult) {
        (**self).encode(value)
    }

    fn decode(&self, bv: &ByteVector) -> (r: DecodeResult<C::Value>) {
        (**self).decode(bv)
    }
}

impl<'a, C: Codec> Codec for &'a C {
    type Value = C::Value;

    open spec fn spec_encode(&self, v: <C::Value as View>::V) -> SpecEncoded {
        (**self).spec_encode(v)
    }

    open spec fn spec_decode(&self, b: Seq<u8>) -> SpecDecoded<<C::Value as View>::V> {
        (**self).spec_decode(b)
    }

    fn encode(&self, value: &C::Value) -> (r: EncodeResult) {
        (**self).encode(value)
    }

    fn decode(&self, bv: &ByteVector) -> (r: DecodeResult<C::Value>) {
        (**self).decode(bv)
    }
}

//
// Integral codecs
//

/// Unsigned 8-bit integer codec.
pub struct Uint8Codec;

/// Unsigned 8-bit integer codec.
#[allow(non_upper_case_globals)]
pub const uint8: Uint8Codec = Uint8Codec;

impl Codec for Uint8Codec {
    type Value = u8;

    open spec fn spec_encode(&self, v: u8) -> SpecEncoded {
        Ok(uint_bytes(v as nat, 1, true))
    }

    open spec fn spec_decode(&self, b: Seq<u8>) -> SpecDecoded<u8> {
        match decode_uint_spec(b, 1, true) {
            Ok((n, rest)) => Ok((n as u8, rest)),
            Err(e) => Err(e),
        }
    }

    fn encode(&self, value: &u8) -> (r: EncodeResult) {
        Ok(encode_uint(*value as u64, 1, true))
    }

    fn decode(&self, bv: &ByteVector) -> (r: DecodeResult<u8>) {
        match decode_uint(bv, 1, true) {
            Ok((n, remainder)) => Ok(DecoderResult { value: n as u8, remainder }),
            Err(e) => Err(e),
        }
    }
}

/// Signed 8-bit integer codec.
pub struct Int8Codec;

/// Signed 8-bit integer codec.
#[allow(non_upper_case_globals)]
pub const int8: Int8Codec = Int8Codec;

impl Codec for Int8Codec {
    type Value = i8;

    open spec fn spec_encode(&self, v: i8) -> SpecEncoded {
        Ok(uint_bytes((v as u8) as nat, 1, true))
    }

    open spec fn spec_decode(&self, b: Seq<u8>) -> SpecDecoded<i8> {
        match decode_uint_spec(b, 1, true) {
            Ok((n, rest)) => Ok(((n as u8) as i8, rest)),
            Err(e) => Err(e),
        }
    }

    fn encode(&self, value: &i8) -> (r: EncodeResult) {
        Ok(encode_uint((*value as u8) as u64, 1, true))
    }

    fn decode(&self, bv: &ByteVector) -> (r: DecodeResult<i8>) {
        match decode_uint(bv, 1, true) {
            Ok((n, remainder)) => Ok(DecoderResult { value: (n as u8) as i8, remainder }),
            Err(e) => Err(e),
        }
    }
}

/// Big-endian unsigned 16-bit integer codec.
pub struct Uint16Codec;

/// Big-endian unsigned 16-bit integer codec.
#[allow(non_upper_case_globals)]
pub const uint16: Uint16Codec = Uint16Codec;

impl Codec for Uint16Codec {
    type Value = u16;

    open spec fn spec_encode(&self, v: u16) -> SpecEncoded {
        Ok(uint_bytes(v as nat, 2, true))
    }

    open spec fn spec_decode(&self, b: Seq<u8>) -> SpecDecoded<u16> {
        match decode_uint_spec(b, 2, true) {
            Ok((n, rest)) => Ok((n as u16, rest)),
            Err(e) => Err(e),
        }
    }

    fn encode(&self, value: &u16) -> (r: EncodeResult) {
        Ok(encode_uint(*value as u64, 2, true))
    }

    fn decode(&self, bv: &ByteVector) -> (r: DecodeResult<u16>) {
        match decode_uint(bv, 2, true) {
            Ok((n, remainder)) => Ok(DecoderResult { value: n as u16, remainder }),
            Err(e) => Err(e),
        }
    }
}

/// Big-endian signed 16-bit integer codec.
pub struct Int16Codec;

/// Big-endian signed 16-bit integer codec.
#[allow(non_upper_case_globals)]
pub const int16: Int16Codec = Int16Codec;

impl Codec for Int16Codec {
    type Value = i16;

    open spec fn spec_encode(&self, v: i16) -> SpecEncoded {
        Ok(uint_bytes((v as u16) as nat, 2, true))
    }

    open spec fn spec_decode(&self, b: Seq<u8>) -> SpecDecoded<i16> {
        match decode_uint_spec(b, 2, true) {
            Ok((n, rest)) => Ok(((n as u16) as i16, rest)),
            Err(e) => Err(e),
        }
    }

    fn encode(&self, value: &i16) -> (r: EncodeResult) {
        Ok(encode_uint((*value as u16) as u64, 2, true))
    }

    fn decode(&self, bv: &ByteVector) -> (r: DecodeResult<i16>) {
        match decode_uint(bv, 2, true) {
            Ok((n, remainder)) => Ok(DecoderResult { value: (n as u16) as i16, remainder }),
            Err(e) => Err(e),
        }
    }
}

/// Big-endian unsigned 32-bit integer codec.
pub struct Uint32Codec;

/// Big-endian unsigned 32-bit integer codec.
#[allow(non_upper_case_globals)]
pub const uint32: Uint32Codec = Uint32Codec;

impl Codec for Uint32Codec {
    type Value = u32;

    open spec fn spec_encode(&self, v: u32) -> SpecEncoded {
        Ok(uint_bytes(v as nat, 4, true))
    }

    open spec fn spec_decode(&self, b: Seq<u8>) -> SpecDecoded<u32> {
        match decode_uint_spec(b, 4, true) {
            Ok((n, rest)) => Ok((n as u32, rest)),
            Err(e) => Err(e),
        }
    }

    fn encode(&self, value: &u32) -> (r: EncodeResult) {
        Ok(encode_uint(*value as u64, 4, true))
    }

    fn decode(&self, bv: &ByteVector) -> (r: DecodeResult<u32>) {
        match decode_uint(bv, 4, true) {
            Ok((n, remainder)) => Ok(DecoderResult { value: n as u32, remainder }),
            Err(e) => Err(e),
        }
    }
}

/// Big-endian signed 32-bit integer codec.
pub struct Int32Codec;

/// Big-endian signed 32-bit integer codec.
#[allow(non_upper_case_globals)]
pub const int32: Int32Codec = Int32Codec;

impl Codec for Int32Codec {
    type Value = i32;

    open spec fn spec_encode(&self, v: i32) -> SpecEncoded {
        Ok(uint_bytes((v as u32) as nat, 4, true))
    }

    open spec fn spec_decode(&self, b: Seq<u8>) -> SpecDecoded<i32> {
        match decode_uint_spec(b, 4, true) {
            Ok((n, rest)) => Ok(((n as u32) as i32, rest)),
            Err(e) => Err(e),
        }
    }

    fn encode(&self, value: &i32) -> (r: EncodeResult) {
        Ok(encode_uint((*value as u32) as u64, 4, true))
    }

    fn decode(&self, bv: &ByteVector) -> (r: DecodeResult<i32>) {
        match decode_uint(bv, 4, true) {
            Ok((n, remainder)) => Ok(DecoderResult { value: (n as u32) as i32, remainder }),
            Err(e) => Err(e),
        }
    }
}

/// Big-endian unsigned 64-bit integer codec.
pub struct Uint64Codec;

/// Big-endian unsigned 64-bit integer codec.
#[allow(non_upper_case_globals)]
pub const uint64: Uint64Codec = Uint64Codec;

impl Codec for Uint64Codec {
    type Value = u64;

    open spec fn spec_encode(&self, v: u64) -> SpecEncoded {
        Ok(uint_bytes(v as nat, 8, true))
    }

    open spec fn spec_decode(&self, b: Seq<u8>) -> SpecDecoded<u64> {
        match decode_uint_spec(b, 8, true) {
            Ok((n, rest)) => Ok((n as u64, rest)),
            Err(e) => Err(e),
        }
    }

    fn encode(&self, value: &u64) -> (r: EncodeResult) {
        Ok(encode_uint(*value as u64, 8, true))
    }

    fn decode(&self, bv: &ByteVector) -> (r: DecodeResult<u64>) {
        match decode_uint(bv, 8, true) {
            Ok((n, remainder)) => Ok(DecoderResult { value: n as u64, remainder }),
            Err(e) => Err(e),
        }
    }
}

/// Big-endian signed 64-bit integer codec.
pub struct Int64Codec;

/// Big-endian signed 64-bit integer codec.
#[allow(non_upper_case_globals)]
pub const int64: Int64Codec = Int64Codec;

impl Codec for Int64Codec {
    type Value = i64;

    open spec fn spec_encode(&self, v: i64) -> SpecEncoded {
        Ok(uint_bytes((v as u64) as nat, 8, true))
    }

    open spec fn spec_decode(&self, b: Seq<u8>) -> SpecDecoded<i64> {
        match decode_uint_spec(b, 8, true) {
            Ok((n, rest)) => Ok(((n as u64) as i64, rest)),
            Err(e) => Err(e),
        }
    }

    fn encode(&self, value: &i64) -> (r: EncodeResult) {
        Ok(encode_uint((*value as u64) as u64, 8, true))
    }

    fn decode(&self, bv: &ByteVector) -> (r: DecodeResult<i64>) {
        match decode_uint(bv, 8, true) {
            Ok((n, remainder)) => Ok(DecoderResult { value: (n as u64) as i64, remainder }),
            Err(e) => Err(e),
        }
    }
}

/// Little-endian unsigned 16-bit integer codec.
pub struct Uint16LCodec;

/// Little-endian unsigned 16-bit integer codec.
#[allow(non_upper_case_globals)]
pub const uint16_l: Uint16LCodec = Uint16LCodec;

impl Codec for Uint16LCodec {
    type Value = u16;

    open spec fn spec_encode(&self, v: u16) -> SpecEncoded {
        Ok(uint_bytes(v as nat, 2, false))
    }

    open spec fn spec_decode(&self, b: Seq<u8>) -> SpecDecoded<u16> {
        match decode_uint_spec(b, 2, false) {
            Ok((n, rest)) => Ok((n as u16, rest)),
            Err(e) => Err(e),
        }
    }

    fn encode(&self, value: &u16) -> (r: EncodeResult) {
        Ok(encode_uint(*value as u64, 2, false))
    }

    fn decode(&self, bv: &ByteVector) -> (r: DecodeResult<u16>) {
        match decode_uint(bv, 2, false) {
            Ok((n, remainder)) => Ok(DecoderResult { value: n as u16, remainder }),
            Err(e) => Err(e),
        }
    }
}

/// Little-endian signed 16-bit integer codec.
pub struct Int16LCodec;

/// Little-endian signed 16-bit integer codec.
#[allow(non_upper_case_globals)]
pub const int16_l: Int16LCodec = Int16LCodec;

impl Codec for Int16LCodec {
    type Value = i16;

    open spec fn spec_encode(&self, v: i16) -> SpecEncoded {
        Ok(uint_bytes((v as u16) as nat, 2, false))
    }

    open spec fn spec_decode(&self, b: Seq<u8>) -> SpecDecoded<i16> {
        match decode_uint_spec(b, 2, false) {
            Ok((n, rest)) => Ok(((n as u16) as i16, rest)),
            Err(e) => Err(e),
        }
    }

    fn encode(&self, value: &i16) -> (r: EncodeResult) {
        Ok(encode_uint((*value as u16) as u64, 2, false))
    }

    fn decode(&self, bv: &ByteVector) -> (r: DecodeResult<i16>) {
        match decode_uint(bv, 2, false) {
            Ok((n, remainder)) => Ok(DecoderResult { value: (n as u16) as i16, remainder }),
            Err(e) => Err(e),
        }
    }
}

/// Little-endian unsigned 32-bit integer codec.
pub struct Uint32LCodec;

/// Little-endian unsigned 32-bit integer codec.
#[allow(non_upper_case_globals)]
pub const uint32_l: Uint32LCodec = Uint32LCodec;

impl Codec for Uint32LCodec {
    type Value = u32;

    open spec fn spec_encode(&self, v: u32) -> SpecEncoded {
        Ok(uint_bytes(v as nat, 4, false))
    }

    open spec fn spec_decode(&self, b: Seq<u8>) -> SpecDecoded<u32> {
        match decode_uint_spec(b, 4, false) {
            Ok((n, rest)) => Ok((n as u32, rest)),
            Err(e) => Err(e),
        }
    }

    fn encode(&self, value: &u32) -> (r: EncodeResult) {
        Ok(encode_uint(*value as u64, 4, false))
    }

    fn decode(&self, bv: &ByteVector) -> (r: DecodeResult<u32>) {
        match decode_uint(bv, 4, false) {
            Ok((n, remainder)) => Ok(DecoderResult { value: n as u32, remainder }),
            Err(e) => Err(e),
        }
    }
}

/// Little-endian signed 32-bit integer codec.
pub struct Int32LCodec;

/// Little-endian signed 32-bit integer codec.
#[allow(non_upper_case_globals)]
pub const int32_l: Int32LCodec = Int32LCodec;

impl Codec for Int32LCodec {
    type Value = i32;

    open spec fn spec_encode(&self, v: i32) -> SpecEncoded {
        Ok(uint_bytes((v as u32) as nat, 4, false))
    }

    open spec fn spec_decode(&self, b: Seq<u8>) -> SpecDecoded<i32> {
        match decode_uint_spec(b, 4, false) {
            Ok((n, rest)) => Ok(((n as u32) as i32, rest)),
            Err(e) => Err(e),
        }
    }

    fn encode(&self, value: &i32) -> (r: EncodeResult) {
        Ok(encode_uint((*value as u32) as u64, 4, false))
    }

    fn decode(&self, bv: &ByteVector) -> (r: DecodeResult<i32>) {
        match decode_uint(bv, 4, false) {
            Ok((n, remainder)) => Ok(DecoderResult { value: (n as u32) as i32, remainder }),
            Err(e) => Err(e),
        }
    }
}

/// Little-endian unsigned 64-bit integer codec.
pub struct Uint64LCodec;

/// Little-endian unsigned 64-bit integer codec.
#[allow(non_upper_case_globals)]
pub const uint64_l: Uint64LCodec = Uint64LCodec;

impl Codec for Uint64LCodec {
    type Value = u64;

    open spec fn spec_encode(&self, v: u64) -> SpecEncoded {
        Ok(uint_bytes(v as nat, 8, false))
    }

    open spec fn spec_decode(&self, b: Seq<u8>) -> SpecDecoded<u64> {
        match decode_uint_spec(b, 8, false) {
            Ok((n, rest)) => Ok((n as u64, rest)),
            Err(e) => Err(e),
        }
    }

    fn encode(&self, value: &u64) -> (r: EncodeResult) {
        Ok(encode_uint(*value as u64, 8, false))
    }

    fn decode(&self, bv: &ByteVector) -> (r: DecodeResult<u64>) {
        match decode_uint(bv, 8, false) {
            Ok((n, remainder)) => Ok(DecoderResult { value: n as u64, remainder }),
            Err(e) => Err(e),
        }
    }
}

/// Little-endian signed 64-bit integer codec.
pub struct Int64LCodec;

/// Little-endian signed 64-bit integer codec.
#[allow(non_upper_case_globals)]
pub const int64_l: Int64LCodec = Int64LCodec;

impl Codec for Int64LCodec {
    type Value = i64;

    open spec fn spec_encode(&self, v: i64) -> SpecEncoded {
        Ok(uint_bytes((v as u64) as nat, 8, false))
    }

    open spec fn spec_decode(&self, b: Seq<u8>) -> SpecDecoded<i64> {
        match decode_uint_spec(b, 8, false) {
            Ok((n, rest)) => Ok(((n as u64) as i64, rest)),
            Err(e) => Err(e),
        }
    }

    fn encode(&self, value: &i64) -> (r: EncodeResult) {
        Ok(encode_uint((*value as u64) as u64, 8, false))
    }

    fn decode(&self, bv: &ByteVector) -> (r: DecodeResult<i64>) {
        match decode_uint(bv, 8, false) {
            Ok((n, remainder)) => Ok(DecoderResult { value: (n as u64) as i64, remainder }),
            Err(e) => Err(e),
        }
    }
}

//
// Sequencing
//

/// The message of an encoding whose length would not fit a machine word.
pub open spec fn concat_text(a: nat, b: nat) -> Seq<char> {
    "Combined length of "@ + decimal(a) + " and "@ + decimal(b)
        + " bytes would overflow maximum value of usize"@
}

/// Two encodings one after the other, or the error when the total length would not fit a
/// machine word.
pub open spec fn spec_concat(a: Seq<u8>, b: Seq<u8>) -> SpecEncoded {
    if a.len() + b.len() > usize::MAX {
        Err(plain_error(concat_text(a.len(), b.len())))
    } else {
        Ok(a + b)
    }
}

/// The first encoding followed by the second; the first error if either fails.
pub open spec fn spec_then(first: SpecEncoded, second: SpecEncoded) -> SpecEncoded {
    match first {
        Err(e) => Err(e),
        Ok(a) => match second {
            Err(e) => Err(e),
            Ok(b) => spec_concat(a, b),
        },
    }
}

fn concat(a: &ByteVector, b: &ByteVector) -> (r: EncodeResult)
    ensures
        encoded_as(r, spec_concat(a@, b@)),
{
    let alen = a.length();
    let blen = b.length();
    if usize::MAX - alen < blen {
        let mut s = String::from_str("Combined length of ");
        push_decimal(&mut s, alen as u64);
        s.append(" and ");
        push_decimal(&mut s, blen as u64);
        s.append(" bytes would overflow maximum value of usize");
        Err(Error::new(s))
    } else {
        Ok(append(a, b))
    }
}

//
// Ignore codec
//

/// Codec that encodes `len` zero bytes and decodes by discarding `len` bytes.
pub fn ignore(len: usize) -> (r: IgnoreCodec)
    ensures
        r.len() == len,
{
    IgnoreCodec { len }
}

/// Encodes `len` zero bytes; decodes by skipping `len` bytes.
pub struct IgnoreCodec {
    len: usize,
}

impl IgnoreCodec {
    /// The number of bytes written and skipped.
    pub closed spec fn len(&self) -> nat {
        self.len as nat
    }
}

impl Codec for IgnoreCodec {
    type Value = ();

    open spec fn spec_encode(&self, v: ()) -> SpecEncoded {
        Ok(filled(0, self.len()))
    }

    open spec fn spec_decode(&self, b: Seq<u8>) -> SpecDecoded<()> {
        if self.len() > b.len() {
            Err(drop_error(self.len(), b.len()))
        } else {
            Ok(((), b.skip(self.len() as int)))
        }
    }

    fn encode(&self, _value: &()) -> (r: EncodeResult) {
        Ok(fill(0, self.len))
    }

    fn decode(&self, bv: &ByteVector) -> (r: DecodeResult<()>) {
        match bv.drop(self.len) {
            Ok(remainder) => Ok(DecoderResult { value: (), remainder }),
            Err(e) => Err(e),
        }
    }
}

//
// Constant codec
//

/// The error of finding `got` where the constant `expected` belongs.
pub open spec fn constant_error(expected: Seq<u8>, got: Seq<u8>) -> ErrorModel {
    plain_error("Expected constant "@ + hex(expected) + " but got "@ + hex(got))
}

/// Codec that always encodes the given bytes, and decodes by checking that they come next.
pub fn constant(bytes: &ByteVector) -> (r: ConstantCodec)
    ensures
        r.bytes() == bytes@,
{
    ConstantCodec { bytes: bytes.clone() }
}

/// Encodes fixed bytes; decodes by matching them.
pub struct ConstantCodec {
    bytes: ByteVector,
}

impl ConstantCodec {
    /// The expected bytes.
    pub closed spec fn bytes(&self) -> Seq<u8> {
        self.bytes@
    }
}

impl Codec for ConstantCodec {
    type Value = ();

    open spec fn spec_encode(&self, v: ()) -> SpecEncoded {
        Ok(self.bytes())
    }

    open spec fn spec_decode(&self, b: Seq<u8>) -> SpecDecoded<()> {
        let n = self.bytes().len();
        if n > b.len() {
            Err(view_error(0, n, b.len()))
        } else if b.take(n as int) == self.bytes() {
            Ok(((), b.skip(n as int)))
        } else {
            Err(constant_error(self.bytes(), b.take(n as int)))
        }
    }

    fn encode(&self, _value: &()) -> (r: EncodeResult) {
        Ok(self.bytes.clone())
    }

    fn decode(&self, bv: &ByteVector) -> (r: DecodeResult<()>) {
        let n = self.bytes.length();
        match bv.take(n) {
            Err(e) => Err(e),
            Ok(taken) => {
                if taken == self.bytes {
                    match bv.drop(n) {
                        Ok(remainder) => Ok(DecoderResult { value: (), remainder }),
                        Err(e) => Err(e),
                    }
                } else {
                    let mut s = String::from_str("Expected constant ");
                    s.append(self.bytes.to_hex().as_str());
                    s.append(" but got ");
                    s.append(taken.to_hex().as_str());
                    Err(Error::new(s))
                }
            },
        }
    }
}

//
// Identity codec
//

/// Codec that encodes a byte vector as itself and decodes by taking all remaining bytes.
pub fn identity_bytes() -> IdentityCodec {
    IdentityCodec
}

/// Encodes a byte vector verbatim; decodes the whole input.
pub struct IdentityCodec;

impl Codec for IdentityCodec {
    type Value = ByteVector;

    open spec fn spec_encode(&self, v: Seq<u8>) -> SpecEncoded {
        Ok(v)
    }

    open spec fn spec_decode(&self, b: Seq<u8>) -> SpecDecoded<Seq<u8>> {
        Ok((b, Seq::empty()))
    }

    fn encode(&self, value: &ByteVector) -> (r: EncodeResult) {
        Ok(value.clone())
    }

    fn decode(&self, bv: &ByteVector) -> (r: DecodeResult<ByteVector>) {
        Ok(DecoderResult { value: bv.clone(), remainder: empty() })
    }
}

//
// Fixed size codec
//

/// Byte vector codec that encodes exactly `len` bytes (zero-padded) and decodes `len` bytes.
pub fn bytes(len: usize) -> (r: FixedSizeCodec<IdentityCodec>)
    ensures
        r.len() == len,
{
    fixed_size_bytes(len, identity_bytes())
}

/// The error of an encoding of `k` bytes that does not fit a region of `n` bytes.
pub open spec fn fixed_size_error(k: nat, n: nat) -> ErrorModel {
    plain_error(
        "Encoding requires "@ + decimal(k) + " bytes but codec is limited to fixed length of "@
            + decimal(n),
    )
}

/// Codec that limits `codec` to a region of `len` bytes: encodings are right-padded with zero
/// bytes, and decoding hands `codec` exactly `len` bytes and discards what it leaves.
pub fn fixed_size_bytes<C: Codec>(len: usize, codec: C) -> (r: FixedSizeCodec<C>)
    ensures
        r.len() == len,
        r.inner() == codec,
{
    FixedSizeCodec { len, codec }
}

/// Runs an inner codec within a region of fixed length.
pub struct FixedSizeCodec<C> {
    len: usize,
    codec: C,
}

impl<C> FixedSizeCodec<C> {
    /// The length of the region.
    pub closed spec fn len(&self) -> nat {
        self.len as nat
    }

    /// The codec run within the region.
    pub closed spec fn inner(&self) -> C {
        self.codec
    }
}

impl<C: Codec> Codec for FixedSizeCodec<C> {
    type Value = C::Value;

    open spec fn spec_encode(&self, v: <C::Value as View>::V) -> SpecEncoded {
        match self.inner().spec_encode(v) {
            Err(e) => Err(e),
            Ok(e) => if e.len() > self.len() {
                Err(fixed_size_error(e.len(), self.len()))
            } else {
                Ok(e + filled(0, (self.len() - e.len()) as nat))
            },
        }
    }

    open spec fn spec_decode(&self, b: Seq<u8>) -> SpecDecoded<<C::Value as View>::V> {
        if self.len() > b.len() {
            Err(view_error(0, self.len(), b.len()))
        } else {
            match self.inner().spec_decode(b.take(self.len() as int)) {
                Err(e) => Err(e),
                Ok((v, _rest)) => Ok((v, b.skip(self.len() as int))),
            }
        }
    }

    fn encode(&self, value: &C::Value) -> (r: EncodeResult) {
        match self.codec.encode(value) {
            Err(e) => Err(e),
            Ok(encoded) => {
                let k = encoded.length();
                if k > self.len {
                    let mut s = String::from_str("Encoding requires ");
                    push_decimal(&mut s, k as u64);
                    s.append(" bytes but codec is limited to fixed length of ");
                    push_decimal(&mut s, self.len as u64);
                    Err(Error::new(s))
                } else {
                    encoded.pad_right(self.len)
                }
            },
        }
    }

    fn decode(&self, bv: &ByteVector) -> (r: DecodeResult<C::Value>) {
        match bv.take(self.len) {
            Err(e) => Err(e),
            Ok(taken) => match self.codec.decode(&taken) {
                Err(e) => Err(e),
                Ok(decoded) => match bv.drop(self.len) {
                    Ok(remainder) => Ok(DecoderResult { value: decoded.value, remainder }),
                    Err(e) => Err(e),
                },
            },
        }
    }
}

//
// Variable size codec
//

/// An unsigned integer codec that can carry a length prefix.
pub trait LengthCodec: Codec {
    /// The largest length a value can carry.
    spec fn spec_max_length(&self) -> nat;

    /// The length that the value `v` carries.
    spec fn spec_length(&self, v: <Self::Value as View>::V) -> nat;

    /// The value that carries the length `n`.
    spec fn spec_value_of(&self, n: nat) -> <Self::Value as View>::V;

    /// A length up to the maximum survives the trip through its value.
    proof fn lemma_length_of_value(&self, n: nat)
        requires
            n <= self.spec_max_length(),
        ensures
            self.spec_length(self.spec_value_of(n)) == n,
    ;

    /// The largest length a value can carry.
    fn max_length(&self) -> (r: u64)
        ensures
            r == self.spec_max_length(),
    ;

    /// The length that `v` carries.
    fn length_of(&self, v: &Self::Value) -> (r: u64)
        ensures
            r == self.spec_length(v@),
    ;

    /// The value that carries the length `n`.
    fn value_of(&self, n: usize) -> (r: Self::Value)
        requires
            n <= self.spec_max_length(),
        ensures
            r@ == self.spec_value_of(n as nat),
    ;
}

impl LengthCodec for Uint8Codec {
    open spec fn spec_max_length(&self) -> nat {
        u8::MAX as nat
    }

    open spec fn spec_length(&self, v: u8) -> nat {
        v as nat
    }

    open spec fn spec_value_of(&self, n: nat) -> u8 {
        n as u8
    }

    proof fn lemma_length_of_value(&self, n: nat) {
    }

    fn max_length(&self) -> (r: u64) {
        u8::MAX as u64
    }

    fn length_of(&self, v: &u8) -> (r: u64) {
        *v as u64
    }

    fn value_of(&self, n: usize) -> (r: u8) {
        n as u8
    }
}

impl LengthCodec for Uint16Codec {
    open spec fn spec_max_length(&self) -> nat {
        u16::MAX as nat
    }

    open spec fn spec_length(&self, v: u16) -> nat {
        v as nat
    }

    open spec fn spec_value_of(&self, n: nat) -> u16 {
        n as u16
    }

    proof fn lemma_length_of_value(&self, n: nat) {
    }

    fn max_length(&self) -> (r: u64) {
        u16::MAX as u64
    }

    fn length_of(&self, v: &u16) -> (r: u64) {
        *v as u64
    }

    fn value_of(&self, n: usize) -> (r: u16) {
        n as u16
    }
}

impl LengthCodec for Uint16LCodec {
    open spec fn spec_max_length(&self) -> nat {
        u16::MAX as nat
    }

    open spec fn spec_length(&self, v: u16) -> nat {
        v as nat
    }

    open spec fn spec_value_of(&self, n: nat) -> u16 {
        n as u16
    }

    proof fn lemma_length_of_value(&self, n: nat) {
    }

    fn max_length(&self) -> (r: u64) {
        u16::MAX as u64
    }

    fn length_of(&self, v: &u16) -> (r: u64) {
        *v as u64
    }

    fn value_of(&self, n: usize) -> (r: u16) {
        n as u16
    }
}

impl LengthCodec for Uint32Codec {
    open spec fn spec_max_length(&self) -> nat {
        u32::MAX as nat
    }

    open spec fn spec_length(&self, v: u32) -> nat {
        v as nat
    }

    open spec fn spec_value_of(&self, n: nat) -> u32 {
        n as u32
    }

    proof fn lemma_length_of_value(&self, n: nat) {
    }

    fn max_length(&self) -> (r: u64) {
        u32::MAX as u64
    }

    fn length_of(&self, v: &u32) -> (r: u64) {
        *v as u64
    }

    fn value_of(&self, n: usize) -> (r: u32) {
        n as u32
    }
}

impl LengthCodec for Uint32LCodec {
    open spec fn spec_max_length(&self) -> nat {
        u32::MAX as nat
    }

    open spec fn spec_length(&self, v: u32) -> nat {
        v as nat
    }

    open spec fn spec_value_of(&self, n: nat) -> u32 {
        n as u32
    }

    proof fn lemma_length_of_value(&self, n: nat) {
    }

    fn max_length(&self) -> (r: u64) {
        u32::MAX as u64
    }

    fn length_of(&self, v: &u32) -> (r: u64) {
        *v as u64
    }

    fn value_of(&self, n: usize) -> (r: u32) {
        n as u32
    }
}

impl LengthCodec for Uint64Codec {
    open spec fn spec_max_length(&self) -> nat {
        u64::MAX as nat
    }

    open spec fn spec_length(&self, v: u64) -> nat {
        v as nat
    }

    open spec fn spec_value_of(&self, n: nat) -> u64 {
        n as u64
    }

    proof fn lemma_length_of_value(&self, n: nat) {
    }

    fn max_length(&self) -> (r: u64) {
        u64::MAX as u64
    }

    fn length_of(&self, v: &u64) -> (r: u64) {
        *v as u64
    }

    fn value_of(&self, n: usize) -> (r: u64) {
        n as u64
    }
}

impl LengthCodec for Uint64LCodec {
    open spec fn spec_max_length(&self) -> nat {
        u64::MAX as nat
    }

    open spec fn spec_length(&self, v: u64) -> nat {
        v as nat
    }

    open spec fn spec_value_of(&self, n: nat) -> u64 {
        n as u64
    }

    proof fn lemma_length_of_value(&self, n: nat) {
    }

    fn max_length(&self) -> (r: u64) {
        u64::MAX as u64
    }

    fn length_of(&self, v: &u64) -> (r: u64) {
        *v as u64
    }

    fn value_of(&self, n: usize) -> (r: u64) {
        n as u64
    }
}
/// The error of an encoding of `k` bytes whose length exceeds what the prefix can carry.
pub open spec fn length_range_error(k: nat, max: nat) -> ErrorModel {
    plain_error(
        "Length of encoded value ("@ + decimal(k) + " bytes) is greater than maximum value ("@
            + decimal(max) + ") of length type"@,
    )
}

/// Codec for length-delimited values: the length of the encoded value in bytes, encoded by
/// `len_codec`, followed by the value encoded by `val_codec`.
pub fn variable_size_bytes<LC: LengthCodec, VC: Codec>(len_codec: LC, val_codec: VC) -> (r:
    VariableSizeCodec<LC, VC>)
    ensures
        r.length_codec() == len_codec,
        r.value_codec() == val_codec,
{
    VariableSizeCodec { len_codec, val_codec }
}

/// Writes a length prefix before the encoded value.
pub struct VariableSizeCodec<LC, VC> {
    len_codec: LC,
    val_codec: VC,
}

impl<LC, VC> VariableSizeCodec<LC, VC> {
    /// The codec of the length prefix.
    pub closed spec fn length_codec(&self) -> LC {
        self.len_codec
    }

    /// The codec of the value.
    pub closed spec fn value_codec(&self) -> VC {
        self.val_codec
    }
}

impl<LC: LengthCodec, VC: Codec> Codec for VariableSizeCodec<LC, VC> {
    type Value = VC::Value;

    open spec fn spec_encode(&self, v: <VC::Value as View>::V) -> SpecEncoded {
        let lc = self.length_codec();
        match self.value_codec().spec_encode(v) {
            Err(e) => Err(e),
            Ok(e) => if e.len() > lc.spec_max_length() {
                Err(length_range_error(e.len(), lc.spec_max_length()))
            } else {
                spec_then(lc.spec_encode(lc.spec_value_of(e.len())), Ok(e))
            },
        }
    }

    open spec fn spec_decode(&self, b: Seq<u8>) -> SpecDecoded<<VC::Value as View>::V> {
        let lc = self.length_codec();
        match lc.spec_decode(b) {
            Err(e) => Err(e),
            Ok((lv, rest)) => {
                let n = lc.spec_length(lv);
                if n > rest.len() {
                    Err(view_error(0, n, rest.len()))
                } else {
                    match self.value_codec().spec_decode(rest.take(n as int)) {
                        Err(e) => Err(e),
                        Ok((v, _unused)) => Ok((v, rest.skip(n as int))),
                    }
                }
            },
        }
    }

    fn encode(&self, value: &VC::Value) -> (r: EncodeResult) {
        match self.val_codec.encode(value) {
            Err(e) => Err(e),
            Ok(encoded) => {
                let k = encoded.length();
                let max = self.len_codec.max_length();
                if k as u64 > max {
                    let mut s = String::from_str("Length of encoded value (");
                    push_decimal(&mut s, k as u64);
                    s.append(" bytes) is greater than maximum value (");
                    push_decimal(&mut s, max);
                    s.append(") of length type");
                    Err(Error::new(s))
                } else {
                    match self.len_codec.encode(&self.len_codec.value_of(k)) {
                        Err(e) => Err(e),
                        Ok(prefix) => concat(&prefix, &encoded),
                    }
                }
            },
        }
    }

    fn decode(&self, bv: &ByteVector) -> (r: DecodeResult<VC::Value>) {
        match self.len_codec.decode(bv) {
            Err(e) => Err(e),
            Ok(decoded_len) => {
                let n = self.len_codec.length_of(&decoded_len.value);
                let rest = decoded_len.remainder;
                let rest_len = rest.length();
                if n > rest_len as u64 {
                    Err(bounds_error("view", 0, n, rest_len as u64))
                } else {
                    match rest.take(n as usize) {
                        Err(e) => Err(e),
                        Ok(taken) => match self.val_codec.decode(&taken) {
                            Err(e) => Err(e),
                            Ok(decoded) => match rest.drop(n as usize) {
                                Ok(remainder) => Ok(DecoderResult { value: decoded.value, remainder }),
                                Err(e) => Err(e),
                            },
                        },
                    }
                }
            },
        }
    }
}

//
// Eager bytes codec
//

/// Codec for owned byte buffers, through a codec for byte vectors.
pub fn eager<C: Codec<Value = ByteVector>>(bv_codec: C) -> (r: EagerCodec<C>)
    ensures
        r.inner() == bv_codec,
{
    EagerCodec { bv_codec }
}

/// Encodes and decodes `Vec<u8>` values through a byte vector codec.
pub struct EagerCodec<C> {
    bv_codec: C,
}

impl<C> EagerCodec<C> {
    /// The byte vector codec.
    pub closed spec fn inner(&self) -> C {
        self.bv_codec
    }
}

impl<C: Codec<Value = ByteVector>> Codec for EagerCodec<C> {
    type Value = Vec<u8>;

    open spec fn spec_encode(&self, v: Seq<u8>) -> SpecEncoded {
        self.inner().spec_encode(v)
    }

    open spec fn spec_decode(&self, b: Seq<u8>) -> SpecDecoded<Seq<u8>> {
        self.inner().spec_decode(b)
    }

    fn encode(&self, value: &Vec<u8>) -> (r: EncodeResult) {
        self.bv_codec.encode(&from_slice_copy(value.as_slice()))
    }

    fn decode(&self, bv: &ByteVector) -> (r: DecodeResult<Vec<u8>>) {
        match self.bv_codec.decode(bv) {
            Err(e) => Err(e),
            Ok(decoded) => match decoded.value.to_vec() {
                Ok(value) => Ok(DecoderResult { value, remainder: decoded.remainder }),
                Err(e) => Err(e),
            },
        }
    }
}

//
// HList codecs
//

/// Codec for the empty list.
pub fn hnil_codec() -> HNilCodec {
    HNilCodec
}

/// Encodes the empty list as no bytes; decodes it without consuming any.
pub struct HNilCodec;

impl Codec for HNilCodec {
    type Value = HNil;

    open spec fn spec_encode(&self, v: HNil) -> SpecEncoded {
        Ok(Seq::empty())
    }

    open spec fn spec_decode(&self, b: Seq<u8>) -> SpecDecoded<HNil> {
        Ok((HNil, b))
    }

    fn encode(&self, _value: &HNil) -> (r: EncodeResult) {
        Ok(empty())
    }

    fn decode(&self, bv: &ByteVector) -> (r: DecodeResult<HNil>) {
        Ok(DecoderResult { value: HNil, remainder: bv.clone() })
    }
}

/// Codec for a list whose head is handled by `head_codec` and whose tail by `tail_codec`.
pub fn hlist_prepend_codec<HC: Codec, TC: Codec>(head_codec: HC, tail_codec: TC) -> (r:
    HListPrependCodec<HC, TC>) where TC::Value: HList
    ensures
        r.head_codec() == head_codec,
        r.tail_codec() == tail_codec,
{
    HListPrependCodec { head_codec, tail_codec }
}

/// Encodes the head, then the tail; decodes the head, then the tail from what is left.
pub struct HListPrependCodec<HC, TC> {
    head_codec: HC,
    tail_codec: TC,
}

impl<HC, TC> HListPrependCodec<HC, TC> {
    /// The codec of the head.
    pub closed spec fn head_codec(&self) -> HC {
        self.head_codec
    }

    /// The codec of the tail.
    pub closed spec fn tail_codec(&self) -> TC {
        self.tail_codec
    }
}

impl<HC: Codec, TC: Codec> Codec for HListPrependCodec<HC, TC> where TC::Value: HList {
    type Value = HCons<HC::Value, TC::Value>;

    open spec fn spec_encode(
        &self,
        v: HCons<<HC::Value as View>::V, <TC::Value as View>::V>,
    ) -> SpecEncoded {
        spec_then(self.head_codec().spec_encode(v.0), self.tail_codec().spec_encode(v.1))
    }

    open spec fn spec_decode(&self, b: Seq<u8>) -> SpecDecoded<
        HCons<<HC::Value as View>::V, <TC::Value as View>::V>,
    > {
        match self.head_codec().spec_decode(b) {
            Err(e) => Err(e),
            Ok((h, rest)) => match self.tail_codec().spec_decode(rest) {
                Err(e) => Err(e),
                Ok((t, rest2)) => Ok((HCons(h, t), rest2)),
            },
        }
    }

    fn encode(&self, value: &HCons<HC::Value, TC::Value>) -> (r: EncodeResult) {
        match self.head_codec.encode(value.head()) {
            Err(e) => Err(e),
            Ok(encoded_head) => match self.tail_codec.encode(value.tail()) {
                Err(e) => Err(e),
                Ok(encoded_tail) => concat(&encoded_head, &encoded_tail),
            },
        }
    }

    fn decode(&self, bv: &ByteVector) -> (r: DecodeResult<HCons<HC::Value, TC::Value>>) {
        match self.head_codec.decode(bv) {
            Err(e) => Err(e),
            Ok(decoded_head) => match self.tail_codec.decode(&decoded_head.remainder) {
                Err(e) => Err(e),
                Ok(decoded_tail) => Ok(
                    DecoderResult {
                        value: HCons(decoded_head.value, decoded_tail.value),
                        remainder: decoded_tail.remainder,
                    },
                ),
            },
        }
    }
}

/// Chooses the codec of a list's tail from the value of its head.
pub trait TailCodecFn<H: View> {
    /// The codec of the tail.
    type Tail: Codec;

    /// The tail codec chosen for the head value `head`.
    spec fn spec_tail(&self, head: H::V) -> Self::Tail;

    /// The tail codec for `head`; a function of the head's value alone.
    fn tail_codec(&self, head: &H) -> (r: Self::Tail)
        ensures
            r == self.spec_tail(head@),
    ;
}

/// Codec for a list whose tail codec is chosen from the head value, by `tail_codec_fn`.
pub fn hlist_flat_prepend_codec<HC: Codec, F: TailCodecFn<HC::Value>>(
    head_codec: HC,
    tail_codec_fn: F,
) -> (r: HListFlatPrependCodec<HC, F>)
    ensures
        r.head_codec() == head_codec,
        r.tail_codec_fn() == tail_codec_fn,
{
    HListFlatPrependCodec { head_codec, tail_codec_fn }
}

/// Encodes and decodes the head, then the tail with the codec that the head value selects.
pub struct HListFlatPrependCodec<HC, F> {
    head_codec: HC,
    tail_codec_fn: F,
}

impl<HC, F> HListFlatPrependCodec<HC, F> {
    /// The codec of the head.
    pub closed spec fn head_codec(&self) -> HC {
        self.head_codec
    }

    /// The choice of the tail codec.
    pub closed spec fn tail_codec_fn(&self) -> F {
        self.tail_codec_fn
    }
}

impl<HC: Codec, F: TailCodecFn<HC::Value>> Codec for HListFlatPrependCodec<HC, F> {
    type Value = HCons<HC::Value, <F::Tail as Codec>::Value>;

    open spec fn spec_encode(
        &self,
        v: HCons<<HC::Value as View>::V, <<F::Tail as Codec>::Value as View>::V>,
    ) -> SpecEncoded {
        spec_then(
            self.head_codec().spec_encode(v.0),
            self.tail_codec_fn().spec_tail(v.0).spec_encode(v.1),
        )
    }

    open spec fn spec_decode(&self, b: Seq<u8>) -> SpecDecoded<
        HCons<<HC::Value as View>::V, <<F::Tail as Codec>::Value as View>::V>,
    > {
        match self.head_codec().spec_decode(b) {
            Err(e) => Err(e),
            Ok((h, rest)) => match self.tail_codec_fn().spec_tail(h).spec_decode(rest) {
                Err(e) => Err(e),
                Ok((t, rest2)) => Ok((HCons(h, t), rest2)),
            },
        }
    }

    fn encode(&self, value: &HCons<HC::Value, <F::Tail as Codec>::Value>) -> (r: EncodeResult) {
        match self.head_codec.encode(value.head()) {
            Err(e) => Err(e),
            Ok(encoded_head) => {
                let tail_codec = self.tail_codec_fn.tail_codec(value.head());
                match tail_codec.encode(value.tail()) {
                    Err(e) => Err(e),
                    Ok(encoded_tail) => concat(&encoded_head, &encoded_tail),
                }
            },
        }
    }

    fn decode(&self, bv: &ByteVector) -> (r: DecodeResult<
        HCons<HC::Value, <F::Tail as Codec>::Value>,
    >) {
        match self.head_codec.decode(bv) {
            Err(e) => Err(e),
            Ok(decoded_head) => {
                let tail_codec = self.tail_codec_fn.tail_codec(&decoded_head.value);
                match tail_codec.decode(&decoded_head.remainder) {
                    Err(e) => Err(e),
                    Ok(decoded_tail) => Ok(
                        DecoderResult {
                            value: HCons(decoded_head.value, decoded_tail.value),
                            remainder: decoded_tail.remainder,
                        },
                    ),
                }
            },
        }
    }
}

//
// Struct codec
//

/// A record that can be built from the list of its fields.
pub trait FromHList<H: View>: View + Sized {
    /// The record whose fields are the list `h`.
    spec fn spec_from_hlist(h: H::V) -> Self::V;

    /// Builds the record from the list of its fields, in order.
    fn from_hlist(h: H) -> (r: Self)
        ensures
            r@ == Self::spec_from_hlist(h@),
    ;
}

/// A record that can be taken apart into the list of its fields.
pub trait ToHList<H: View>: View {
    /// The list of the fields of the record `v`.
    spec fn spec_to_hlist(v: Self::V) -> H::V;

    /// The list of this record's fields, in order.
    fn to_hlist(&self) -> (r: H)
        ensures
            r@ == Self::spec_to_hlist(self@),
    ;
}

/// Codec for records, through a codec for the list of their fields.
pub fn struct_codec<S: FromHList<HC::Value> + ToHList<HC::Value>, HC: Codec>(hlist_codec: HC) -> (r:
    RecordStructCodec<S, HC>) where HC::Value: HList
    ensures
        r.hlist_codec() == hlist_codec,
{
    RecordStructCodec { hlist_codec, _marker: PhantomData }
}

/// Encodes a record as the list of its fields; decodes the list and builds the record.
pub struct RecordStructCodec<S, HC> {
    hlist_codec: HC,
    _marker: PhantomData<S>,
}

impl<S, HC> RecordStructCodec<S, HC> {
    /// The codec of the field list.
    pub closed spec fn hlist_codec(&self) -> HC {
        self.hlist_codec
    }
}

impl<S: FromHList<HC::Value> + ToHList<HC::Value>, HC: Codec> Codec for RecordStructCodec<
    S,
    HC,
> where HC::Value: HList {
    type Value = S;

    open spec fn spec_encode(&self, v: S::V) -> SpecEncoded {
        self.hlist_codec().spec_encode(S::spec_to_hlist(v))
    }

    open spec fn spec_decode(&self, b: Seq<u8>) -> SpecDecoded<S::V> {
        match self.hlist_codec().spec_decode(b) {
            Err(e) => Err(e),
            Ok((h, rest)) => Ok((S::spec_from_hlist(h), rest)),
        }
    }

    fn encode(&self, value: &S) -> (r: EncodeResult) {
        self.hlist_codec.encode(&value.to_hlist())
    }

    fn decode(&self, bv: &ByteVector) -> (r: DecodeResult<S>) {
        match self.hlist_codec.decode(bv) {
            Err(e) => Err(e),
            Ok(decoded) => Ok(
                DecoderResult { value: S::from_hlist(decoded.value), remainder: decoded.remainder },
            ),
        }
    }
}

//
// Context codec
//

/// Codec that pushes `context` onto any error that `codec` reports.
pub fn with_context<C: Codec>(context: &'static str, codec: C) -> (r: ContextCodec<C>)
    ensures
        r.label() == context@,
        r.inner() == codec,
{
    ContextCodec { codec, context }
}

/// Runs an inner codec and labels its errors.
pub struct ContextCodec<C> {
    codec: C,
    context: &'static str,
}

impl<C> ContextCodec<C> {
    /// The label pushed onto errors.
    pub closed spec fn label(&self) -> Seq<char> {
        self.context@
    }

    /// The labelled codec.
    pub closed spec fn inner(&self) -> C {
        self.codec
    }
}

/// `r` with `label` pushed onto its error, if it is one.
pub open spec fn labelled<T>(r: Result<T, ErrorModel>, label: Seq<char>) -> Result<T, ErrorModel> {
    match r {
        Ok(v) => Ok(v),
        Err(e) => Err(with_label(e, label)),
    }
}

impl<C: Codec> Codec for ContextCodec<C> {
    type Value = C::Value;

    open spec fn spec_encode(&self, v: <C::Value as View>::V) -> SpecEncoded {
        labelled(self.inner().spec_encode(v), self.label())
    }

    open spec fn spec_decode(&self, b: Seq<u8>) -> SpecDecoded<<C::Value as View>::V> {
        labelled(self.inner().spec_decode(b), self.label())
    }

    fn encode(&self, value: &C::Value) -> (r: EncodeResult) {
        match self.codec.encode(value) {
            Ok(b) => Ok(b),
            Err(e) => Err(e.push_context(self.context)),
        }
    }

    fn decode(&self, bv: &ByteVector) -> (r: DecodeResult<C::Value>) {
        match self.codec.decode(bv) {
            Ok(d) => Ok(d),
            Err(e) => Err(e.push_context(self.context)),
        }
    }
}

//
// Drop-left codec
//

/// Codec for a unit-valued part followed by a value; decoding discards the unit.
pub fn drop_left<LC: Codec<Value = ()>, RC: Codec>(lhs: LC, rhs: RC) -> (r: DropLeftCodec<LC, RC>)
    ensures
        r.lhs() == lhs,
        r.rhs() == rhs,
{
    DropLeftCodec { lhs, rhs }
}

/// Encodes the unit part and then the value; decodes both and keeps the value.
pub struct DropLeftCodec<LC, RC> {
    lhs: LC,
    rhs: RC,
}

impl<LC, RC> DropLeftCodec<LC, RC> {
    /// The codec of the unit part.
    pub closed spec fn lhs(&self) -> LC {
        self.lhs
    }

    /// The codec of the value.
    pub closed spec fn rhs(&self) -> RC {
        self.rhs
    }
}

impl<LC: Codec<Value = ()>, RC: Codec> Codec for DropLeftCodec<LC, RC> {
    type Value = RC::Value;

    open spec fn spec_encode(&self, v: <RC::Value as View>::V) -> SpecEncoded {
        spec_then(self.lhs().spec_encode(()), self.rhs().spec_encode(v))
    }

    open spec fn spec_decode(&self, b: Seq<u8>) -> SpecDecoded<<RC::Value as View>::V> {
        match self.lhs().spec_decode(b) {
            Err(e) => Err(e),
            Ok((_unit, rest)) => self.rhs().spec_decode(rest),
        }
    }

    fn encode(&self, value: &RC::Value) -> (r: EncodeResult) {
        match self.lhs.encode(&()) {
            Err(e) => Err(e),
            Ok(encoded_lhs) => match self.rhs.encode(value) {
                Err(e) => Err(e),
                Ok(encoded_rhs) => concat(&encoded_lhs, &encoded_rhs),
            },
        }
    }

    fn decode(&self, bv: &ByteVector) -> (r: DecodeResult<RC::Value>) {
        match self.lhs.decode(bv) {
            Err(e) => Err(e),
            Ok(decoded) => self.rhs.decode(&decoded.remainder),
        }
    }
}

//
// Laws
//

/// Decoding what `c` encodes for `v` gives `v` back and consumes every byte.
pub open spec fn round_trips<C: Codec>(c: C, v: <C::Value as View>::V) -> bool {
    c.spec_encode(v) is Ok ==> c.spec_decode(c.spec_encode(v)->Ok_0) == Ok::<
        (<C::Value as View>::V, Seq<u8>),
        ErrorModel,
    >((v, Seq::empty()))
}

/// When decoding `b` succeeds, decoding `b + g` gives the same value, and leaves what decoding
/// `b` leaves followed by `g`.
pub open spec fn stable_on<C: Codec>(c: C, b: Seq<u8>, g: Seq<u8>) -> bool {
    c.spec_decode(b) is Ok ==> c.spec_decode(b + g) == Ok::<
        (<C::Value as View>::V, Seq<u8>),
        ErrorModel,
    >((c.spec_decode(b)->Ok_0.0, c.spec_decode(b)->Ok_0.1 + g))
}

/// Trailing bytes never change what `c` decodes; they are handed on in the remainder.
pub open spec fn prefix_stable<C: Codec>(c: C) -> bool {
    forall|b: Seq<u8>, g: Seq<u8>| #[trigger] stable_on(c, b, g)
}

/// Every integer codec decodes what it encodes, and ignores what follows its bytes.
pub proof fn lemma_integral_laws()
    ensures
        forall|v: u8| #[trigger] round_trips(Uint8Codec, v),
        prefix_stable(Uint8Codec),
        forall|v: i8| #[trigger] round_trips(Int8Codec, v),
        prefix_stable(Int8Codec),
        forall|v: u16| #[trigger] round_trips(Uint16Codec, v),
        prefix_stable(Uint16Codec),
        forall|v: i16| #[trigger] round_trips(Int16Codec, v),
        prefix_stable(Int16Codec),
        forall|v: u32| #[trigger] round_trips(Uint32Codec, v),
        prefix_stable(Uint32Codec),
        forall|v: i32| #[trigger] round_trips(Int32Codec, v),
        prefix_stable(Int32Codec),
        forall|v: u64| #[trigger] round_trips(Uint64Codec, v),
        prefix_stable(Uint64Codec),
        forall|v: i64| #[trigger] round_trips(Int64Codec, v),
        prefix_stable(Int64Codec),
        forall|v: u16| #[trigger] round_trips(Uint16LCodec, v),
        prefix_stable(Uint16LCodec),
        forall|v: i16| #[trigger] round_trips(Int16LCodec, v),
        prefix_stable(Int16LCodec),
        forall|v: u32| #[trigger] round_trips(Uint32LCodec, v),
        prefix_stable(Uint32LCodec),
        forall|v: i32| #[trigger] round_trips(Int32LCodec, v),
        prefix_stable(Int32LCodec),
        forall|v: u64| #[trigger] round_trips(Uint64LCodec, v),
        prefix_stable(Uint64LCodec),
        forall|v: i64| #[trigger] round_trips(Int64LCodec, v),
        prefix_stable(Int64LCodec),
{
    lemma_pow256_widths();
    assert forall|v: u8| #[trigger] round_trips(Uint8Codec, v) by {
        lemma_decode_uint_bytes(v as nat, 1, true);
    }
    assert forall|b: Seq<u8>, g: Seq<u8>| #[trigger] stable_on(Uint8Codec, b, g) by {
        if decode_uint_spec(b, 1, true) is Ok {
            lemma_decode_uint_prefix(b, g, 1, true);
        }
    }
    assert forall|v: i8| #[trigger] round_trips(Int8Codec, v) by {
        lemma_decode_uint_bytes((v as u8) as nat, 1, true);
        assert(((v as u8) as i8) == v) by (bit_vector);
    }
    assert forall|b: Seq<u8>, g: Seq<u8>| #[trigger] stable_on(Int8Codec, b, g) by {
        if decode_uint_spec(b, 1, true) is Ok {
            lemma_decode_uint_prefix(b, g, 1, true);
        }
    }
    assert forall|v: u16| #[trigger] round_trips(Uint16Codec, v) by {
        lemma_decode_uint_bytes(v as nat, 2, true);
    }
    assert forall|b: Seq<u8>, g: Seq<u8>| #[trigger] stable_on(Uint16Codec, b, g) by {
        if decode_uint_spec(b, 2, true) is Ok {
            lemma_decode_uint_prefix(b, g, 2, true);
        }
    }
    assert forall|v: i16| #[trigger] round_trips(Int16Codec, v) by {
        lemma_decode_uint_bytes((v as u16) as nat, 2, true);
        assert(((v as u16) as i16) == v) by (bit_vector);
    }
    assert forall|b: Seq<u8>, g: Seq<u8>| #[trigger] stable_on(Int16Codec, b, g) by {
        if decode_uint_spec(b, 2, true) is Ok {
            lemma_decode_uint_prefix(b, g, 2, true);
        }
    }
    assert forall|v: u32| #[trigger] round_trips(Uint32Codec, v) by {
        lemma_decode_uint_bytes(v as nat, 4, true);
    }
    assert forall|b: Seq<u8>, g: Seq<u8>| #[trigger] stable_on(Uint32Codec, b, g) by {
        if decode_uint_spec(b, 4, true) is Ok {
            lemma_decode_uint_prefix(b, g, 4, true);
        }
    }
    assert forall|v: i32| #[trigger] round_trips(Int32Codec, v) by {
        lemma_decode_uint_bytes((v as u32) as nat, 4, true);
        assert(((v as u32) as i32) == v) by (bit_vector);
    }
    assert forall|b: Seq<u8>, g: Seq<u8>| #[trigger] stable_on(Int32Codec, b, g) by {
        if decode_uint_spec(b, 4, true) is Ok {
            lemma_decode_uint_prefix(b, g, 4, true);
        }
    }
    assert forall|v: u64| #[trigger] round_trips(Uint64Codec, v) by {
        lemma_decode_uint_bytes(v as nat, 8, true);
    }
    assert forall|b: Seq<u8>, g: Seq<u8>| #[trigger] stable_on(Uint64Codec, b, g) by {
        if decode_uint_spec(b, 8, true) is Ok {
            lemma_decode_uint_prefix(b, g, 8, true);
        }
    }
    assert forall|v: i64| #[trigger] round_trips(Int64Codec, v) by {
        lemma_decode_uint_bytes((v as u64) as nat, 8, true);
        assert(((v as u64) as i64) == v) by (bit_vector);
    }
    assert forall|b: Seq<u8>, g: Seq<u8>| #[trigger] stable_on(Int64Codec, b, g) by {
        if decode_uint_spec(b, 8, true) is Ok {
            lemma_decode_uint_prefix(b, g, 8, true);
        }
    }
    assert forall|v: u16| #[trigger] round_trips(Uint16LCodec, v) by {
        lemma_decode_uint_bytes(v as nat, 2, false);
    }
    assert forall|b: Seq<u8>, g: Seq<u8>| #[trigger] stable_on(Uint16LCodec, b, g) by {
        if decode_uint_spec(b, 2, false) is Ok {
            lemma_decode_uint_prefix(b, g, 2, false);
        }
    }
    assert forall|v: i16| #[trigger] round_trips(Int16LCodec, v) by {
        lemma_decode_uint_bytes((v as u16) as nat, 2, false);
        assert(((v as u16) as i16) == v) by (bit_vector);
    }
    assert forall|b: Seq<u8>, g: Seq<u8>| #[trigger] stable_on(Int16LCodec, b, g) by {
        if decode_uint_spec(b, 2, false) is Ok {
            lemma_decode_uint_prefix(b, g, 2, false);
        }
    }
    assert forall|v: u32| #[trigger] round_trips(Uint32LCodec, v) by {
        lemma_decode_uint_bytes(v as nat, 4, false);
    }
    assert forall|b: Seq<u8>, g: Seq<u8>| #[trigger] stable_on(Uint32LCodec, b, g) by {
        if decode_uint_spec(b, 4, false) is Ok {
            lemma_decode_uint_prefix(b, g, 4, false);
        }
    }
    assert forall|v: i32| #[trigger] round_trips(Int32LCodec, v) by {
        lemma_decode_uint_bytes((v as u32) as nat, 4, false);
        assert(((v as u32) as i32) == v) by (bit_vector);
    }
    assert forall|b: Seq<u8>, g: Seq<u8>| #[trigger] stable_on(Int32LCodec, b, g) by {
        if decode_uint_spec(b, 4, false) is Ok {
            lemma_decode_uint_prefix(b, g, 4, false);
        }
    }
    assert forall|v: u64| #[trigger] round_trips(Uint64LCodec, v) by {
        lemma_decode_uint_bytes(v as nat, 8, false);
    }
    assert forall|b: Seq<u8>, g: Seq<u8>| #[trigger] stable_on(Uint64LCodec, b, g) by {
        if decode_uint_spec(b, 8, false) is Ok {
            lemma_decode_uint_prefix(b, g, 8, false);
        }
    }
    assert forall|v: i64| #[trigger] round_trips(Int64LCodec, v) by {
        lemma_decode_uint_bytes((v as u64) as nat, 8, false);
        assert(((v as u64) as i64) == v) by (bit_vector);
    }
    assert forall|b: Seq<u8>, g: Seq<u8>| #[trigger] stable_on(Int64LCodec, b, g) by {
        if decode_uint_spec(b, 8, false) is Ok {
            lemma_decode_uint_prefix(b, g, 8, false);
        }
    }
}

/// The ignore codec decodes what it encodes, and ignores what follows its bytes.
pub proof fn lemma_ignore_laws(c: IgnoreCodec)
    ensures
        round_trips(c, ()),
        prefix_stable(c),
{
    assert(filled(0, c.len()).skip(c.len() as int) =~= Seq::<u8>::empty());
    assert forall|b: Seq<u8>, g: Seq<u8>| #[trigger] stable_on(c, b, g) by {
        if c.len() <= b.len() {
            assert((b + g).skip(c.len() as int) =~= b.skip(c.len() as int) + g);
        }
    }
}

/// The constant codec decodes what it encodes, and ignores what follows its bytes.
pub proof fn lemma_constant_laws(c: ConstantCodec)
    ensures
        round_trips(c, ()),
        prefix_stable(c),
{
    let n = c.bytes().len() as int;
    assert(c.bytes().take(n) =~= c.bytes());
    assert(c.bytes().skip(n) =~= Seq::<u8>::empty());
    assert forall|b: Seq<u8>, g: Seq<u8>| #[trigger] stable_on(c, b, g) by {
        if n <= b.len() {
            assert((b + g).take(n) =~= b.take(n));
            assert((b + g).skip(n) =~= b.skip(n) + g);
        }
    }
}

/// The identity codec decodes what it encodes.
pub proof fn lemma_identity_laws(v: Seq<u8>)
    ensures
        round_trips(IdentityCodec, v),
{
}

/// The empty-list codec decodes what it encodes, and ignores what follows.
pub proof fn lemma_hnil_laws()
    ensures
        round_trips(HNilCodec, HNil),
        prefix_stable(HNilCodec),
{
    assert forall|b: Seq<u8>, g: Seq<u8>| #[trigger] stable_on(HNilCodec, b, g) by {
    }
}

/// A fixed-size region never looks past its own bytes; and it gives back a value whose
/// encoding it decodes, provided the encoding is not followed by padding that the inner
/// codec would take in.
pub proof fn lemma_fixed_size_laws<C: Codec>(c: FixedSizeCodec<C>, v: <C::Value as View>::V)
    requires
        round_trips(c.inner(), v),
        prefix_stable(c.inner()) || (c.inner().spec_encode(v) matches Ok(e) && e.len() == c.len()),
    ensures
        round_trips(c, v),
        prefix_stable(c),
{
    let n = c.len() as int;
    assert forall|b: Seq<u8>, g: Seq<u8>| #[trigger] stable_on(c, b, g) by {
        if n <= b.len() {
            assert((b + g).take(n) =~= b.take(n));
            assert((b + g).skip(n) =~= b.skip(n) + g);
        }
    }
    if c.spec_encode(v) is Ok {
        let e = c.inner().spec_encode(v)->Ok_0;
        let pad = filled(0, (c.len() - e.len()) as nat);
        let enc = e + pad;
        assert(enc.take(n) =~= enc);
        assert(enc.skip(n) =~= Seq::<u8>::empty());
        if e.len() == c.len() {
            assert(pad =~= Seq::<u8>::empty());
            assert(enc =~= e);
        } else {
            assert(stable_on(c.inner(), e, pad));
            assert(Seq::<u8>::empty() + pad =~= pad);
        }
    }
}

/// A length-prefixed value decodes back from its encoding, and trailing bytes are ignored,
/// whenever the length codec has both properties.
pub proof fn lemma_variable_size_laws<LC: LengthCodec, VC: Codec>(
    c: VariableSizeCodec<LC, VC>,
    v: <VC::Value as View>::V,
)
    requires
        forall|x: <LC::Value as View>::V| #[trigger] round_trips(c.length_codec(), x),
        prefix_stable(c.length_codec()),
        round_trips(c.value_codec(), v),
    ensures
        round_trips(c, v),
        prefix_stable(c),
{
    let lc = c.length_codec();
    assert forall|b: Seq<u8>, g: Seq<u8>| #[trigger] stable_on(c, b, g) by {
        assert(stable_on(lc, b, g));
        if lc.spec_decode(b) is Ok {
            let rest = lc.spec_decode(b)->Ok_0.1;
            let n = lc.spec_length(lc.spec_decode(b)->Ok_0.0) as int;
            if n <= rest.len() {
                assert((rest + g).take(n) =~= rest.take(n));
                assert((rest + g).skip(n) =~= rest.skip(n) + g);
            }
        }
    }
    if c.spec_encode(v) is Ok {
        let e = c.value_codec().spec_encode(v)->Ok_0;
        let x = lc.spec_value_of(e.len());
        lc.lemma_length_of_value(e.len());
        assert(round_trips(lc, x));
        let p = lc.spec_encode(x)->Ok_0;
        assert(stable_on(lc, p, e));
        assert(Seq::<u8>::empty() + e =~= e);
        assert(e.take(e.len() as int) =~= e);
        assert(e.skip(e.len() as int) =~= Seq::<u8>::empty());
    }
}

/// An owned-buffer codec has the laws of its byte vector codec.
pub proof fn lemma_eager_laws<C: Codec<Value = ByteVector>>(c: EagerCodec<C>, v: Seq<u8>)
    requires
        round_trips(c.inner(), v),
        prefix_stable(c.inner()),
    ensures
        round_trips(c, v),
        prefix_stable(c),
{
    assert forall|b: Seq<u8>, g: Seq<u8>| #[trigger] stable_on(c, b, g) by {
        assert(stable_on(c.inner(), b, g));
    }
}

/// A list decodes back from its encoding when its head does, without looking past its own
/// bytes, and its tail does; trailing bytes are ignored when both parts ignore them.
pub proof fn lemma_hlist_prepend_laws<HC: Codec, TC: Codec>(
    c: HListPrependCodec<HC, TC>,
    v: HCons<<HC::Value as View>::V, <TC::Value as View>::V>,
) where TC::Value: HList
    ensures
        round_trips(c.head_codec(), v.0) && prefix_stable(c.head_codec()) && round_trips(
            c.tail_codec(),
            v.1,
        ) ==> round_trips(c, v),
        prefix_stable(c.head_codec()) && prefix_stable(c.tail_codec()) ==> prefix_stable(c),
{
    if round_trips(c.head_codec(), v.0) && prefix_stable(c.head_codec()) && round_trips(
        c.tail_codec(),
        v.1,
    ) && c.spec_encode(v) is Ok {
        let hb = c.head_codec().spec_encode(v.0)->Ok_0;
        let tb = c.tail_codec().spec_encode(v.1)->Ok_0;
        assert(stable_on(c.head_codec(), hb, tb));
        assert(Seq::<u8>::empty() + tb =~= tb);
    }
    if prefix_stable(c.head_codec()) && prefix_stable(c.tail_codec()) {
        assert forall|b: Seq<u8>, g: Seq<u8>| #[trigger] stable_on(c, b, g) by {
            assert(stable_on(c.head_codec(), b, g));
            if c.head_codec().spec_decode(b) is Ok {
                assert(stable_on(c.tail_codec(), c.head_codec().spec_decode(b)->Ok_0.1, g));
            }
        }
    }
}

/// A list whose tail codec is chosen by its head decodes back from its encoding: the decoded
/// head is the encoded one, so decoding chooses the tail codec that encoding used.
pub proof fn lemma_hlist_flat_prepend_laws<HC: Codec, F: TailCodecFn<HC::Value>>(
    c: HListFlatPrependCodec<HC, F>,
    v: HCons<<HC::Value as View>::V, <<F::Tail as Codec>::Value as View>::V>,
)
    ensures
        round_trips(c.head_codec(), v.0) && prefix_stable(c.head_codec()) && round_trips(
            c.tail_codec_fn().spec_tail(v.0),
            v.1,
        ) ==> round_trips(c, v),
        round_trips(c.head_codec(), v.0) && prefix_stable(c.head_codec()) && c.spec_encode(v) is Ok
            ==> c.head_codec().spec_decode(c.spec_encode(v)->Ok_0) is Ok
            && c.head_codec().spec_decode(c.spec_encode(v)->Ok_0)->Ok_0.0 == v.0,
        prefix_stable(c.head_codec()) && (forall|h: <HC::Value as View>::V| #[trigger]
            prefix_stable(c.tail_codec_fn().spec_tail(h))) ==> prefix_stable(c),
{
    if round_trips(c.head_codec(), v.0) && prefix_stable(c.head_codec()) && c.spec_encode(v) is Ok {
        let hb = c.head_codec().spec_encode(v.0)->Ok_0;
        let tb = c.tail_codec_fn().spec_tail(v.0).spec_encode(v.1)->Ok_0;
        assert(stable_on(c.head_codec(), hb, tb));
        assert(Seq::<u8>::empty() + tb =~= tb);
    }
    if prefix_stable(c.head_codec()) && (forall|h: <HC::Value as View>::V| #[trigger]
        prefix_stable(c.tail_codec_fn().spec_tail(h))) {
        assert forall|b: Seq<u8>, g: Seq<u8>| #[trigger] stable_on(c, b, g) by {
            assert(stable_on(c.head_codec(), b, g));
            if c.head_codec().spec_decode(b) is Ok {
                let (h, rest) = c.head_codec().spec_decode(b)->Ok_0;
                assert(prefix_stable(c.tail_codec_fn().spec_tail(h)));
                assert(stable_on(c.tail_codec_fn().spec_tail(h), rest, g));
            }
        }
    }
}

/// A record decodes back from its encoding when its field list does and rebuilding the
/// record from its fields gives it back; trailing bytes are ignored when the list codec
/// ignores them.
pub proof fn lemma_struct_laws<S: FromHList<HC::Value> + ToHList<HC::Value>, HC: Codec>(
    c: RecordStructCodec<S, HC>,
    v: S::V,
) where HC::Value: HList
    ensures
        round_trips(c.hlist_codec(), S::spec_to_hlist(v)) && S::spec_from_hlist(
            S::spec_to_hlist(v),
        ) == v ==> round_trips(c, v),
        prefix_stable(c.hlist_codec()) ==> prefix_stable(c),
{
    if prefix_stable(c.hlist_codec()) {
        assert forall|b: Seq<u8>, g: Seq<u8>| #[trigger] stable_on(c, b, g) by {
            assert(stable_on(c.hlist_codec(), b, g));
        }
    }
}

/// Nesting list codecs concatenates the encodings of the elements in order.
pub proof fn lemma_hlist_encoding_in_order<AC: Codec, BC: Codec, CC: Codec>(
    c: HListPrependCodec<AC, HListPrependCodec<BC, CC>>,
    v: HCons<<AC::Value as View>::V, HCons<<BC::Value as View>::V, <CC::Value as View>::V>>,
) where CC::Value: HList
    ensures
        c.spec_encode(v) is Ok ==> c.spec_encode(v) == Ok::<Seq<u8>, ErrorModel>(
            c.head_codec().spec_encode(v.0)->Ok_0 + c.tail_codec().head_codec().spec_encode(
                v.1.0,
            )->Ok_0 + c.tail_codec().tail_codec().spec_encode(v.1.1)->Ok_0,
        ),
{
    if c.spec_encode(v) is Ok {
        let a = c.head_codec().spec_encode(v.0)->Ok_0;
        let b = c.tail_codec().head_codec().spec_encode(v.1.0)->Ok_0;
        let d = c.tail_codec().tail_codec().spec_encode(v.1.1)->Ok_0;
        assert(a + (b + d) =~= a + b + d);
    }
}

/// Labelling errors changes neither what a codec decodes nor whether it ignores trailing bytes.
pub proof fn lemma_context_laws<C: Codec>(c: ContextCodec<C>, v: <C::Value as View>::V)
    ensures
        round_trips(c.inner(), v) ==> round_trips(c, v),
        prefix_stable(c.inner()) ==> prefix_stable(c),
{
    if prefix_stable(c.inner()) {
        assert forall|b: Seq<u8>, g: Seq<u8>| #[trigger] stable_on(c, b, g) by {
            assert(stable_on(c.inner(), b, g));
        }
    }
}

/// A value behind a unit-valued part decodes back from its encoding when both parts do and
/// the unit part does not look past its own bytes.
pub proof fn lemma_drop_left_laws<LC: Codec<Value = ()>, RC: Codec>(
    c: DropLeftCodec<LC, RC>,
    v: <RC::Value as View>::V,
)
    ensures
        round_trips(c.lhs(), ()) && prefix_stable(c.lhs()) && round_trips(c.rhs(), v) ==> round_trips(
            c,
            v,
        ),
        prefix_stable(c.lhs()) && prefix_stable(c.rhs()) ==> prefix_stable(c),
{
    if round_trips(c.lhs(), ()) && prefix_stable(c.lhs()) && round_trips(c.rhs(), v) && c.spec_encode(
        v,
    ) is Ok {
        let lb = c.lhs().spec_encode(())->Ok_0;
        let rb = c.rhs().spec_encode(v)->Ok_0;
        assert(stable_on(c.lhs(), lb, rb));
        assert(Seq::<u8>::empty() + rb =~= rb);
    }
    if prefix_stable(c.lhs()) && prefix_stable(c.rhs()) {
        assert forall|b: Seq<u8>, g: Seq<u8>| #[trigger] stable_on(c, b, g) by {
            assert(stable_on(c.lhs(), b, g));
            if c.lhs().spec_decode(b) is Ok {
                assert(stable_on(c.rhs(), c.lhs().spec_decode(b)->Ok_0.1, g));
            }
        }
    }
}

/// Nested labels appear outermost first: an error that `c` reports comes out of
/// `with_context(a, with_context(b, c))` with `a` and `b` in front of its own labels, and is
/// rendered `a/b: ...` when it had none.
pub proof fn lemma_context_path<C: Codec>(c: ContextCodec<ContextCodec<C>>, b: Seq<u8>)
    requires
        c.inner().inner().spec_decode(b) is Err,
    ensures
        ({
            let e = c.inner().inner().spec_decode(b)->Err_0;
            &&& c.spec_decode(b) == Err::<(<C::Value as View>::V, Seq<u8>), ErrorModel>(
                (e.0, seq![c.label(), c.inner().label()] + e.1),
            )
            &&& e.1.len() == 0 ==> render(c.spec_decode(b)->Err_0.0, c.spec_decode(b)->Err_0.1)
                == c.label() + seq!['/'] + c.inner().label() + seq![':', ' '] + e.0
        }),
{
    let e = c.inner().inner().spec_decode(b)->Err_0;
    let ctx = seq![c.label(), c.inner().label()] + e.1;
    assert(seq![c.label()] + (seq![c.inner().label()] + e.1) =~= ctx);
    assert(c.inner().spec_decode(b) == Err::<(<C::Value as View>::V, Seq<u8>), ErrorModel>(
        with_label(e, c.inner().label()),
    ));
    assert(c.spec_decode(b) == Err::<(<C::Value as View>::V, Seq<u8>), ErrorModel>(
        with_label(with_label(e, c.inner().label()), c.label()),
    ));
    if e.1.len() == 0 {
        assert(ctx =~= seq![c.label(), c.inner().label()]);
        assert(ctx.drop_last() =~= seq![c.label()]);
        assert(join_context(ctx.drop_last()) == c.label());
        assert(join_context(ctx) == c.label() + seq!['/'] + c.inner().label());
    }
}

} // verus!
