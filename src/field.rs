//! Fields: the smallest framed unit, a tag and an opaque payload.
use crate::error::{Error, Result};
use crate::le::{
    le16, le16_bytes, le32, le32_bytes, lemma_le16_bytes_of, lemma_le16_round_trip,
    lemma_le32_bytes_of, lemma_le32_round_trip, push_all, push_u16_le, push_u32_le, read_u16_le, read_u32_le,
};
use crate::signature::{xxxx_tag, Signature};
use vstd::prelude::*;
use vstd::slice::{slice_subrange, slice_to_vec};

verus! {

/// The payload of a field.
#[derive(Debug, Clone, PartialEq, Eq, Hash)]
pub enum FieldData {
    Empty,
    Raw(Vec<u8>),
}

impl FieldData {
    /// The payload's bytes; `Empty` holds none.
    pub open spec fn payload(&self) -> Seq<u8> {
        match self {
            FieldData::Empty => Seq::empty(),
            FieldData::Raw(b) => b@,
        }
    }

    fn to_bytes(&self) -> (r: Vec<u8>)
        ensures
            r@ == self.payload(),
    {
        match self {
            FieldData::Empty => Vec::new(),
            FieldData::Raw(b) => b.clone(),
        }
    }

    /// The number of payload bytes.
    pub fn len(&self) -> (r: usize)
        ensures
            r == self.payload().len(),
    {
        match self {
            FieldData::Empty => 0,
            FieldData::Raw(b) => b.len(),
        }
    }

    /// Whether the payload holds no byte.
    pub fn is_empty(&self) -> (r: bool)
        ensures
            r == (self.payload().len() == 0),
    {
        match self {
            FieldData::Empty => true,
            FieldData::Raw(b) => b.len() == 0,
        }
    }
}

/// A tag and its payload.
#[derive(Debug, Clone, PartialEq, Eq, Hash)]
pub struct Field {
    pub signature: Signature,
    pub data: FieldData,
}

/// The largest payload that the two-byte length of a normal field header can give.
pub open spec fn max_short_payload() -> int {
    65535
}

/// The wire form of a field: the normal six-byte header and the payload, or, for a
/// payload longer than 65535 bytes, the `XXXX` escape (a field whose four-byte payload
/// is the real length) followed by the real header with its length set to 0.
pub open spec fn field_bytes(f: Field) -> Seq<u8> {
    let p = f.data.payload();
    if p.len() > max_short_payload() {
        xxxx_tag() + le16_bytes(4) + le32_bytes(p.len() as int) + f.signature.0@ + le16_bytes(0)
            + p
    } else {
        f.signature.0@ + le16_bytes(p.len() as int) + p
    }
}

/// The decoding of the field at the start of `b`: its tag, its payload and the number
/// of bytes it takes, or `None` when the buffer is too short for what its header says.
pub open spec fn field_decode(b: Seq<u8>) -> Option<(Seq<u8>, Seq<u8>, int)> {
    if b.len() < 6 {
        None
    } else if b.subrange(0, 4) == xxxx_tag() {
        if b.len() < 16 {
            None
        } else {
            let size = le32(b.subrange(6, 10));
            if b.len() - 16 < size {
                None
            } else {
                Some((b.subrange(10, 14), b.subrange(16, 16 + size), 16 + size))
            }
        }
    } else {
        let size = le16(b.subrange(4, 6));
        if b.len() - 6 < size {
            None
        } else {
            Some((b.subrange(0, 4), b.subrange(6, 6 + size), 6 + size))
        }
    }
}

/// Whether an escaped field's header is the one this library writes: the escape's
/// own length is 4, the real header's length is 0 and the payload needs the escape.
pub open spec fn field_is_canonical(b: Seq<u8>) -> bool {
    b.subrange(0, 4) == xxxx_tag() ==> {
        &&& le16(b.subrange(4, 6)) == 4
        &&& le16(b.subrange(14, 16)) == 0
        &&& le32(b.subrange(6, 10)) > max_short_payload()
    }
}

fn is_xxxx(b: &[u8]) -> (r: bool)
    requires
        b@.len() >= 4,
    ensures
        r == (b@.subrange(0, 4) == xxxx_tag()),
{
    let r = b[0] == 88u8 && b[1] == 88u8 && b[2] == 88u8 && b[3] == 88u8;
    assert(r ==> b@.subrange(0, 4) =~= xxxx_tag());
    assert(b@.subrange(0, 4) == xxxx_tag() ==> b@.subrange(0, 4)[0] == 88u8 && b@.subrange(0, 4)[1]
        == 88u8 && b@.subrange(0, 4)[2] == 88u8 && b@.subrange(0, 4)[3] == 88u8);
    r
}

impl Field {
    pub const HEADER_SIZE: usize = 6;
    pub const MAXIMUM_SIZE: usize = 6 + 65535;

    /// A field with this tag and payload.
    pub fn new(signature: Signature, data: FieldData) -> (r: Field)
        ensures
            r == (Field { signature, data }),
    {
        Field { signature, data }
    }

    /// Decodes the field at the start of `buf`, unwrapping the oversized escape, and
    /// gives it with the number of bytes it took. Fails with `BufferTooShort` exactly
    /// when `field_decode` finds the buffer too short.
    pub fn from_bytes(buf: &[u8]) -> (r: Result<(Field, usize)>)
        ensures
            match r {
                Ok((f, n)) => {
                    &&& field_decode(buf@) == Some((f.signature.0@, f.data.payload(), n as int))
                    &&& f.data is Raw
                },
                Err(e) => field_decode(buf@) is None && e is BufferTooShort,
            },
    {
        if buf.len() < 6 {
            return Err(Error::BufferTooShort);
        }
        let signature = Signature::from_bytes(slice_subrange(buf, 0, 4));
        let data_size = read_u16_le(buf, 4);
        if is_xxxx(buf) {
            if buf.len() < 10 {
                return Err(Error::BufferTooShort);
            }
            let size = read_u32_le(buf, 6);
            let rest = slice_subrange(buf, 10, buf.len());
            assert(rest@ == buf@.subrange(10, buf@.len() as int));
            assert(buf@.subrange(6, 10) =~= buf@.subrange(6, 10));
            return match Field::from_oversized_field(rest, size) {
                Ok((f, n)) => {
                    assert(rest@.subrange(0, 4) =~= buf@.subrange(10, 14));
                    assert(rest@.subrange(6, 6 + size) =~= buf@.subrange(16, 16 + size));
                    Ok((f, n + 10))
                },
                Err(e) => Err(e),
            };
        }
        if buf.len() - 6 < data_size as usize {
            return Err(Error::BufferTooShort);
        }
        let data = slice_to_vec(slice_subrange(buf, 6, 6 + data_size as usize));
        Ok((Field { signature, data: FieldData::Raw(data) }, 6 + data_size as usize))
    }

    /// Decodes the real header and the payload that follow an `XXXX` escape whose
    /// length is `size`.
    fn from_oversized_field(buf: &[u8], size: u32) -> (r: Result<(Field, usize)>)
        ensures
            match r {
                Ok((f, n)) => {
                    &&& buf@.len() >= 6 + size
                    &&& f.signature.0@ == buf@.subrange(0, 4)
                    &&& f.data.payload() == buf@.subrange(6, 6 + size)
                    &&& n == 6 + size
                    &&& f.data is Raw
                },
                Err(e) => buf@.len() < 6 + size && e is BufferTooShort,
            },
    {
        if buf.len() < 6 {
            return Err(Error::BufferTooShort);
        }
        let signature = Signature::from_bytes(slice_subrange(buf, 0, 4));
        if buf.len() - 6 < size as usize {
            return Err(Error::BufferTooShort);
        }
        let data = slice_to_vec(slice_subrange(buf, 6, 6 + size as usize));
        Ok((Field { signature, data: FieldData::Raw(data) }, 6 + size as usize))
    }

    /// The wire form of the field, as `field_bytes` gives it.
    pub fn as_bytes(&self) -> (r: Vec<u8>)
        requires
            self.data.payload().len() <= u32::MAX,
        ensures
            r@ == field_bytes(*self),
    {
        let mut bytes: Vec<u8> = Vec::new();
        let data = self.data.to_bytes();
        let data_len = data.len();
        if data_len > 65535 {
            push_all(&mut bytes, &[88u8, 88u8, 88u8, 88u8]);
            push_u16_le(&mut bytes, 4);
            push_u32_le(&mut bytes, data_len as u32);
            push_all(&mut bytes, self.signature.as_slice());
            push_u16_le(&mut bytes, 0);
        } else {
            push_all(&mut bytes, self.signature.as_slice());
            push_u16_le(&mut bytes, data_len as u16);
        }
        push_all(&mut bytes, data.as_slice());
        assert(bytes@ =~= field_bytes(*self));
        bytes
    }

    /// The field's tag.
    pub fn get_signature(&self) -> (r: &Signature)
        ensures
            *r == self.signature,
    {
        &self.signature
    }

    /// The field's payload.
    pub fn get_data(&self) -> (r: &FieldData)
        ensures
            *r == self.data,
    {
        &self.data
    }
}

/// Decoding a field and encoding it again gives back the bytes it was decoded from,
/// for every field whose header is in the form this library writes.
pub proof fn field_decode_encode(b: Seq<u8>, f: Field)
    requires
        field_decode(b) matches Some((s, p, n)) && f.signature.0@ == s && f.data.payload() == p,
        field_is_canonical(b),
    ensures
        field_decode(b) matches Some((_, _, n)) ==> field_bytes(f) == b.subrange(0, n),
{
    let p = f.data.payload();
    if b.subrange(0, 4) == xxxx_tag() {
        let size = le32(b.subrange(6, 10));
        lemma_le16_bytes_of(b.subrange(4, 6));
        lemma_le32_bytes_of(b.subrange(6, 10));
        lemma_le16_bytes_of(b.subrange(14, 16));
        assert(p.len() == size);
        assert(field_bytes(f) =~= b.subrange(0, 16 + size));
    } else {
        let size = le16(b.subrange(4, 6));
        lemma_le16_bytes_of(b.subrange(4, 6));
        assert(p.len() == size);
        assert(field_bytes(f) =~= b.subrange(0, 6 + size));
    }
}

/// Encoding a field and decoding the result gives back its tag and payload and takes
/// exactly the encoded bytes, whatever follows them; an escaped payload of more than
/// 65535 bytes comes back whole. A short field tagged `XXXX` is left out: its header
/// reads as an escape.
pub proof fn field_encode_decode(f: Field, rest: Seq<u8>)
    requires
        f.data.payload().len() <= u32::MAX,
        f.signature.0@ != xxxx_tag() || f.data.payload().len() > max_short_payload(),
    ensures
        field_decode(field_bytes(f) + rest) == Some(
            (f.signature.0@, f.data.payload(), field_bytes(f).len() as int),
        ),
{
    let p = f.data.payload();
    let b = field_bytes(f) + rest;
    if p.len() > max_short_payload() {
        lemma_le16_round_trip(4);
        lemma_le16_round_trip(0);
        lemma_le32_round_trip(p.len() as int);
        assert(b.subrange(0, 4) =~= xxxx_tag());
        assert(b.subrange(6, 10) =~= le32_bytes(p.len() as int));
        assert(b.subrange(10, 14) =~= f.signature.0@);
        assert(b.subrange(16, 16 + p.len() as int) =~= p);
    } else {
        lemma_le16_round_trip(p.len() as int);
        assert(b.subrange(0, 4) =~= f.signature.0@);
        assert(b.subrange(4, 6) =~= le16_bytes(p.len() as int));
        assert(b.subrange(6, 6 + p.len() as int) =~= p);
    }
}

} // verus!
