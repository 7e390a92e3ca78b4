//! Records: a 24-byte header and a payload that is raw, zlib-compressed, or a
//! decoded list of fields.
use crate::error::{Error, Result};
use crate::field::{field_bytes, field_decode, field_decode_encode, field_is_canonical, Field};
use crate::form_id::FormID;
use crate::le::{
    le16, le16_bytes, le32, le32_bytes, push_all, push_u16_le, push_u32_le, read_u16_le,
    read_u32_le,
};
use crate::signature::Signature;
use crate::timestamp::Timestamp;
use crate::vcs_info::VcsInfo;
use vstd::prelude::*;
use vstd::slice::{slice_subrange, slice_to_vec};

verus! {

/// The payload of a record.
#[derive(Debug, Clone, PartialEq, Eq, Hash)]
pub enum RecordData {
    Empty,
    /// Undecoded field bytes.
    Raw(Vec<u8>),
    /// A four-byte little-endian inflated length followed by a zlib stream of field bytes.
    Compressed(Vec<u8>),
    /// The decoded fields, in the order of the bytes they came from.
    Generic(Vec<Field>),
}

/// The field bytes of a list of fields, back to back.
pub open spec fn fields_bytes(fs: Seq<Field>) -> Seq<u8>
    decreases fs.len(),
{
    if fs.len() == 0 {
        Seq::empty()
    } else {
        fields_bytes(fs.drop_last()) + field_bytes(fs.last())
    }
}

/// The wire form of a payload: stored bytes as they are, fields re-encoded.
pub open spec fn record_data_bytes(d: RecordData) -> Seq<u8> {
    match d {
        RecordData::Empty => Seq::empty(),
        RecordData::Raw(b) => b@,
        RecordData::Compressed(b) => b@,
        RecordData::Generic(fs) => fields_bytes(fs@),
    }
}

/// `Some(done + r)` when `o` is `Some(r)`.
pub open spec fn prepend<A>(done: Seq<A>, o: Option<Seq<A>>) -> Option<Seq<A>> {
    match o {
        None => None,
        Some(r) => Some(done + r),
    }
}

/// The tags and payloads of the fields that fill `b` exactly, in order, or `None`
/// when a field does not fit in what is left.
pub open spec fn fields_decode(b: Seq<u8>) -> Option<Seq<(Seq<u8>, Seq<u8>)>>
    decreases b.len(),
{
    if b.len() == 0 {
        Some(Seq::empty())
    } else {
        match field_decode(b) {
            None => None,
            Some((s, p, n)) => if 0 < n <= b.len() {
                prepend(seq![(s, p)], fields_decode(b.subrange(n, b.len() as int)))
            } else {
                None
            },
        }
    }
}

/// Whether the fields `fs` are raw fields with the tags and payloads of `ps`.
pub open spec fn fields_match(fs: Seq<Field>, ps: Seq<(Seq<u8>, Seq<u8>)>) -> bool {
    &&& fs.len() == ps.len()
    &&& forall|i: int|
        0 <= i < fs.len() ==> {
            &&& (#[trigger] fs[i]).signature.0@ == ps[i].0
            &&& fs[i].data is Raw
            &&& fs[i].data.payload() == ps[i].1
        }
}

/// What `flate2`'s zlib decoder makes of a byte stream: the inflated bytes, or
/// `None` when the stream is corrupt or ends early.
pub uninterp spec fn zlib_inflate(b: Seq<u8>) -> Option<Seq<u8>>;

/// Relies on `flate2::read::ZlibDecoder` read to its end: the outcome depends on the
/// compressed bytes alone. `size_hint` only reserves room for the output.
#[verifier::external_body]
fn inflate(b: &[u8], size_hint: usize) -> (r: Option<Vec<u8>>)
    ensures
        match r {
            Some(out) => zlib_inflate(b@) == Some(out@),
            None => zlib_inflate(b@) is None,
        },
{
    let mut out: Vec<u8> = Vec::with_capacity(size_hint);
    let mut decoder = flate2::read::ZlibDecoder::new(b);
    match std::io::Read::read_to_end(&mut decoder, &mut out) {
        Ok(_) => Some(out),
        Err(_) => None,
    }
}

/// The fields that resolving a stored payload `p` gives, or `None` when resolution
/// fails: raw bytes are decoded as fields; compressed bytes are inflated (after their
/// four-byte length) and the result decoded as fields.
pub open spec fn resolved_payload(compressed: bool, p: Seq<u8>) -> Option<Seq<(Seq<u8>, Seq<u8>)>> {
    if !compressed {
        fields_decode(p)
    } else if p.len() < 4 {
        None
    } else {
        match zlib_inflate(p.subrange(4, p.len() as int)) {
            None => None,
            Some(out) => fields_decode(out),
        }
    }
}

/// The fields that resolving a payload gives (see `resolved_payload`); `None` for a
/// payload that holds no stored bytes.
pub open spec fn resolved_fields(d: RecordData) -> Option<Seq<(Seq<u8>, Seq<u8>)>> {
    match d {
        RecordData::Raw(b) => resolved_payload(false, b@),
        RecordData::Compressed(b) => resolved_payload(true, b@),
        _ => None,
    }
}

/// The error that resolving a stored payload reports when `resolved_fields` is `None`.
pub open spec fn resolve_error_is(d: RecordData, e: Error) -> bool {
    match d {
        RecordData::Compressed(b) => if b@.len() >= 4 && zlib_inflate(
            b@.subrange(4, b@.len() as int),
        ) is None {
            e is DecompressError
        } else {
            e is BufferTooShort
        },
        _ => e is BufferTooShort,
    }
}

pub proof fn lemma_fields_bytes_bound(fs: Seq<Field>, i: int)
    requires
        0 <= i < fs.len(),
    ensures
        fs[i].data.payload().len() <= fields_bytes(fs).len(),
    decreases fs.len(),
{
    if i < fs.len() - 1 {
        lemma_fields_bytes_bound(fs.drop_last(), i);
    }
}

impl RecordData {
    /// The wire form of the payload, as `record_data_bytes` gives it.
    pub fn as_bytes(&self) -> (r: Vec<u8>)
        requires
            record_data_bytes(*self).len() <= u32::MAX,
        ensures
            r@ == record_data_bytes(*self),
    {
        match self {
            RecordData::Empty => Vec::new(),
            RecordData::Raw(v) => v.clone(),
            RecordData::Compressed(v) => v.clone(),
            RecordData::Generic(f) => {
                let mut bytes: Vec<u8> = Vec::new();
                let mut i: usize = 0;
                while i < f.len()
                    invariant
                        i <= f@.len(),
                        bytes@ == fields_bytes(f@.subrange(0, i as int)),
                        fields_bytes(f@).len() <= u32::MAX,
                    decreases f@.len() - i,
                {
                    proof {
                        lemma_fields_bytes_bound(f@, i as int);
                        assert(f@.subrange(0, i + 1).drop_last() =~= f@.subrange(0, i as int));
                    }
                    let fb = f[i].as_bytes();
                    push_all(&mut bytes, fb.as_slice());
                    i = i + 1;
                }
                assert(f@.subrange(0, f@.len() as int) =~= f@);
                bytes
            },
        }
    }

    /// Decodes fields until `buf` is used up. Fails with `BufferTooShort` exactly when
    /// `fields_decode` finds no such list.
    pub fn generic_from_bytes(buf: &[u8]) -> (r: Result<RecordData>)
        ensures
            match r {
                Ok(d) => d matches RecordData::Generic(fs) && fields_decode(buf@) == Some(
                    fs@.map_values(|f: Field| (f.signature.0@, f.data.payload())),
                ) && fields_match(fs@, fields_decode(buf@)->0),
                Err(e) => fields_decode(buf@) is None && e is BufferTooShort,
            },
    {
        let mut fields: Vec<Field> = Vec::new();
        let mut pos: usize = 0;
        let ghost mut done: Seq<(Seq<u8>, Seq<u8>)> = Seq::empty();
        assert(buf@.subrange(0, buf@.len() as int) =~= buf@);
        proof {
            match fields_decode(buf@) {
                None => {},
                Some(t) => assert(done + t =~= t),
            }
        }
        while pos < buf.len()
            invariant
                pos <= buf@.len(),
                fields_match(fields@, done),
                done == fields@.map_values(|f: Field| (f.signature.0@, f.data.payload())),
                fields_decode(buf@) == prepend(
                    done,
                    fields_decode(buf@.subrange(pos as int, buf@.len() as int)),
                ),
            decreases buf@.len() - pos,
        {
            let ghost sub = buf@.subrange(pos as int, buf@.len() as int);
            let rest = slice_subrange(buf, pos, buf.len());
            match Field::from_bytes(rest) {
                Ok((f, n)) => {
                    proof {
                        let ghost s = f.signature.0@;
                        let ghost p = f.data.payload();
                        assert(sub.subrange(n as int, sub.len() as int) =~= buf@.subrange(
                            pos + n,
                            buf@.len() as int,
                        ));
                        let ghost tail = fields_decode(buf@.subrange(pos + n, buf@.len() as int));
                        assert(fields_decode(sub) == prepend(seq![(s, p)], tail));
                        match tail {
                            None => {},
                            Some(t) => {
                                assert(done + (seq![(s, p)] + t) =~= done.push((s, p)) + t);
                            },
                        }
                        done = done.push((s, p));
                    }
                    fields.push(f);
                    pos = pos + n;
                    assert(done =~= fields@.map_values(
                        |f: Field| (f.signature.0@, f.data.payload()),
                    ));
                },
                Err(e) => {
                    return Err(e);
                },
            }
        }
        assert(buf@.subrange(pos as int, buf@.len() as int) =~= Seq::<u8>::empty());
        assert(done + Seq::<(Seq<u8>, Seq<u8>)>::empty() =~= done);
        Ok(RecordData::Generic(fields))
    }

    fn generic_from_zlib_bytes(buf: &[u8]) -> (r: Result<RecordData>)
        ensures
            buf@.len() < 4 ==> (r matches Err(e) && e is BufferTooShort),
            buf@.len() >= 4 ==> match zlib_inflate(buf@.subrange(4, buf@.len() as int)) {
                None => (r matches Err(e) && e is DecompressError),
                Some(out) => match r {
                    Ok(d) => d matches RecordData::Generic(fs) && fields_decode(out) == Some(
                        fs@.map_values(|f: Field| (f.signature.0@, f.data.payload())),
                    ) && fields_match(fs@, fields_decode(out)->0),
                    Err(e) => fields_decode(out) is None && e is BufferTooShort,
                },
            },
    {
        if buf.len() < 4 {
            return Err(Error::BufferTooShort);
        }
        let len = read_u32_le(buf, 0);
        match inflate(slice_subrange(buf, 4, buf.len()), len as usize) {
            None => Err(Error::DecompressError),
            Some(out) => RecordData::generic_from_bytes(out.as_slice()),
        }
    }
}

impl RecordData {
    /// The decoded fields; none unless the payload is resolved.
    pub fn get_fields(&self) -> (r: Vec<&Field>)
        ensures
            match self {
                RecordData::Generic(fs) => r@.len() == fs@.len() && forall|j: int|
                    0 <= j < fs@.len() ==> *#[trigger] r@[j] == fs@[j],
                _ => r@.len() == 0,
            },
    {
        let mut out: Vec<&Field> = Vec::new();
        match self {
            RecordData::Generic(f) => {
                let mut i: usize = 0;
                while i < f.len()
                    invariant
                        i <= f@.len(),
                        out@.len() == i,
                        forall|j: int| 0 <= j < i ==> *#[trigger] out@[j] == f@[j],
                    decreases f@.len() - i,
                {
                    out.push(&f[i]);
                    i = i + 1;
                }
            },
            _ => {},
        }
        out
    }

    /// Resolves a stored payload into its fields, in place: raw bytes are decoded as
    /// fields, compressed bytes inflated and then decoded. On failure the payload is
    /// left as it was and the error says why; a payload that is already resolved, or
    /// empty, is left as it is.
    pub fn process(&mut self) -> (r: Result<()>)
        ensures
            match *old(self) {
                RecordData::Raw(_) | RecordData::Compressed(_) => match resolved_fields(*old(self)) {
                    Some(ps) => r is Ok && (*final(self) matches RecordData::Generic(fs) && fields_match(fs@, ps)),
                    None => (r matches Err(e) && resolve_error_is(*old(self), e)) && *final(self) == *old(self),
                },
                _ => r is Ok && *final(self) == *old(self),
            },
    {
        let resolved = match self {
            RecordData::Raw(b) => RecordData::generic_from_bytes(b.as_slice()),
            RecordData::Compressed(b) => RecordData::generic_from_zlib_bytes(b.as_slice()),
            _ => {
                return Ok(());
            },
        };
        match resolved {
            Ok(d) => {
                *self = d;
                Ok(())
            },
            Err(e) => Err(e),
        }
    }
}

/// Whether a flag word marks the payload as zlib-compressed.
pub open spec fn is_compressed_flag(flags: u32) -> bool {
    flags & 0x00040000u32 != 0
}

/// A record: a tag, flags, identity and version, and a payload.
#[derive(Debug, Clone, PartialEq, Eq, Hash)]
pub struct Record {
    pub signature: Signature,
    pub raw_flags: u32,
    pub form_id: FormID,
    pub timestamp: Timestamp,
    pub vcs_info: VcsInfo,
    pub form_version: u16,
    pub reserved: u16,
    pub data: RecordData,
}

/// The number of bytes that the record at the start of `b` takes, header included,
/// or `None` when the buffer is too short for its header or its payload.
pub open spec fn record_frame(b: Seq<u8>) -> Option<int> {
    if b.len() < 24 {
        None
    } else {
        let size = le32(b.subrange(4, 8));
        if b.len() - 24 < size {
            None
        } else {
            Some(24 + size)
        }
    }
}

/// Whether the header fields of `r` are those that the 24 bytes at the start of `b`
/// give. The editor-user word reads as the zero pair (see `VcsInfo::from_u16`).
pub open spec fn record_header_from(r: Record, b: Seq<u8>) -> bool {
    &&& r.signature.0@ == b.subrange(0, 4)
    &&& r.raw_flags == le32(b.subrange(8, 12))
    &&& r.form_id.0 == le32(b.subrange(12, 16))
    &&& r.timestamp == Timestamp::spec_from_u16(le16(b.subrange(16, 18)) as u16)
    &&& r.vcs_info == (VcsInfo { last_user: 0, current_user: 0 })
    &&& r.form_version == le16(b.subrange(20, 22))
    &&& r.reserved == le16(b.subrange(22, 24))
}

/// Whether `d` is the stored payload `p` of a record with these flags: compressed when
/// the flags say so, raw otherwise.
pub open spec fn stored_data_is(d: RecordData, flags: u32, p: Seq<u8>) -> bool {
    if is_compressed_flag(flags) {
        d matches RecordData::Compressed(v) && v@ == p
    } else {
        d matches RecordData::Raw(v) && v@ == p
    }
}

/// The flag word that a record is written with. A payload that is not stored
/// compressed bytes is written uncompressed, so its compression bit is cleared; stored
/// compressed bytes keep the flags as they are.
pub open spec fn written_flags(r: Record) -> u32 {
    match r.data {
        RecordData::Compressed(_) => r.raw_flags,
        _ => r.raw_flags & 0xFFFB_FFFFu32,
    }
}

/// The wire form of a record: the 24-byte header with a freshly computed payload
/// length and the flags of `written_flags`, then the payload. The editor-user word is
/// written as 0 (see `VcsInfo::to_u16`).
#[verifier::opaque]
pub open spec fn record_bytes(r: Record) -> Seq<u8> {
    let d = record_data_bytes(r.data);
    r.signature.0@ + le32_bytes(d.len() as int) + le32_bytes(written_flags(r) as int) + le32_bytes(
        r.form_id.0 as int,
    ) + le16_bytes(r.timestamp.spec_to_u16() as int) + le16_bytes(0) + le16_bytes(
        r.form_version as int,
    ) + le16_bytes(r.reserved as int) + d
}

impl Record {
    pub const HEADER_SIZE: usize = 24;

    /// Decodes the record at the start of `buf` and gives it with the number of bytes
    /// it took. Its payload is stored as it is, raw or compressed as the flags say.
    /// Fails with `BufferTooShort` exactly when `record_frame` finds no record.
    pub fn from_bytes(buf: &[u8]) -> (r: Result<(Record, usize)>)
        ensures
            match r {
                Ok((rec, n)) => {
                    &&& record_frame(buf@) == Some(n as int)
                    &&& record_header_from(rec, buf@)
                    &&& stored_data_is(rec.data, rec.raw_flags, buf@.subrange(24, n as int))
                },
                Err(e) => record_frame(buf@) is None && e is BufferTooShort,
            },
    {
        if buf.len() < 24 {
            return Err(Error::BufferTooShort);
        }
        let data_size = read_u32_le(buf, 4);
        let flags = read_u32_le(buf, 8);
        if buf.len() - 24 < data_size as usize {
            return Err(Error::BufferTooShort);
        }
        let payload = slice_to_vec(slice_subrange(buf, 24, 24 + data_size as usize));
        let data = if flags & 0x00040000u32 != 0 {
            RecordData::Compressed(payload)
        } else {
            RecordData::Raw(payload)
        };
        let rec = Record {
            signature: Signature::from_bytes(slice_subrange(buf, 0, 4)),
            raw_flags: flags,
            form_id: FormID(read_u32_le(buf, 12)),
            timestamp: Timestamp::from_u16(read_u16_le(buf, 16)),
            vcs_info: VcsInfo::from_u16(read_u16_le(buf, 18)),
            form_version: read_u16_le(buf, 20),
            reserved: read_u16_le(buf, 22),
            data,
        };
        Ok((rec, 24 + data_size as usize))
    }

    /// The wire form of the record, as `record_bytes` gives it.
    pub fn as_bytes(&self) -> (r: Vec<u8>)
        requires
            record_data_bytes(self.data).len() <= u32::MAX,
        ensures
            r@ == record_bytes(*self),
    {
        let mut bytes: Vec<u8> = Vec::new();
        let data = self.data.as_bytes();
        let data_len = data.len();
        push_all(&mut bytes, self.signature.as_slice());
        push_u32_le(&mut bytes, data_len as u32);
        let flags = match &self.data {
            RecordData::Compressed(_) => self.raw_flags,
            _ => self.raw_flags & 0xFFFB_FFFFu32,
        };
        push_u32_le(&mut bytes, flags);
        push_u32_le(&mut bytes, self.form_id.0);
        push_u16_le(&mut bytes, self.timestamp.to_u16());
        push_u16_le(&mut bytes, self.vcs_info.to_u16());
        push_u16_le(&mut bytes, self.form_version);
        push_u16_le(&mut bytes, self.reserved);
        push_all(&mut bytes, data.as_slice());
        reveal(record_bytes);
        assert(bytes@ =~= record_bytes(*self));
        bytes
    }

    /// The record's tag.
    pub fn get_signature(&self) -> (r: &Signature)
        ensures
            *r == self.signature,
    {
        &self.signature
    }

    /// The record's identifier.
    pub fn get_form_id(&self) -> (r: &FormID)
        ensures
            *r == self.form_id,
    {
        &self.form_id
    }

    /// The record's form version.
    pub fn get_form_version(&self) -> (r: &u16)
        ensures
            *r == self.form_version,
    {
        &self.form_version
    }

    /// The record's payload.
    pub fn get_data(&self) -> (r: &RecordData)
        ensures
            *r == self.data,
    {
        &self.data
    }

    /// Resolves the payload in place (see `RecordData::process`); when that fails the
    /// payload stays as it was.
    pub fn process(&mut self)
        ensures
            final(self).signature == old(self).signature,
            final(self).raw_flags == old(self).raw_flags,
            final(self).form_id == old(self).form_id,
            final(self).timestamp == old(self).timestamp,
            final(self).vcs_info == old(self).vcs_info,
            final(self).form_version == old(self).form_version,
            final(self).reserved == old(self).reserved,
            match old(self).data {
                RecordData::Raw(_) | RecordData::Compressed(_) => match resolved_fields(old(self).data) {
                    Some(ps) => final(self).data matches RecordData::Generic(fs) && fields_match(fs@, ps),
                    None => final(self).data == old(self).data,
                },
                _ => final(self).data == old(self).data,
            },
    {
        let _ = self.data.process();
    }
}

/// Decoding a record and encoding it again gives back the bytes it was decoded from,
/// provided its editor-user word is 0: that word is not kept (see `VcsInfo`).
pub proof fn record_decode_encode(b: Seq<u8>, r: Record)
    requires
        record_frame(b) is Some,
        record_header_from(r, b),
        stored_data_is(r.data, r.raw_flags, b.subrange(24, record_frame(b)->0)),
        b[18] == 0 && b[19] == 0,
    ensures
        record_frame(b) matches Some(n) && record_bytes(r) == b.subrange(0, n),
{
    let n = record_frame(b)->0;
    crate::le::lemma_le32_bytes_of(b.subrange(4, 8));
    crate::le::lemma_le32_bytes_of(b.subrange(8, 12));
    crate::le::lemma_le32_bytes_of(b.subrange(12, 16));
    crate::le::lemma_le16_bytes_of(b.subrange(16, 18));
    crate::le::lemma_le16_bytes_of(b.subrange(18, 20));
    crate::le::lemma_le16_bytes_of(b.subrange(20, 22));
    crate::le::lemma_le16_bytes_of(b.subrange(22, 24));
    crate::timestamp::timestamp_bits_round_trip(le16(b.subrange(16, 18)) as u16);
    let flags = r.raw_flags;
    assert(!is_compressed_flag(flags) ==> flags & 0xFFFB_FFFFu32 == flags) by (bit_vector);
    reveal(record_bytes);
    assert(record_bytes(r) =~= b.subrange(0, n));
}

/// A record written with a payload that is not stored compressed bytes never claims
/// compression, so decoding what is written stores that payload as raw bytes.
pub proof fn written_uncompressed_is_unflagged(r: Record)
    requires
        !(r.data is Compressed),
    ensures
        !is_compressed_flag(written_flags(r)),
{
    let f = r.raw_flags;
    assert((f & 0xFFFB_FFFFu32) & 0x00040000u32 == 0) by (bit_vector);
}

/// Whether every field that fills `b` has its header in the form this library writes.
pub open spec fn fields_canonical(b: Seq<u8>) -> bool
    decreases b.len(),
{
    if b.len() == 0 {
        true
    } else {
        match field_decode(b) {
            Some((_, _, n)) => 0 < n <= b.len() && field_is_canonical(b) && fields_canonical(
                b.subrange(n, b.len() as int),
            ),
            None => false,
        }
    }
}

pub proof fn lemma_fields_bytes_cons(f: Field, t: Seq<Field>)
    ensures
        fields_bytes(seq![f] + t) == field_bytes(f) + fields_bytes(t),
    decreases t.len(),
{
    let s = seq![f] + t;
    if t.len() == 0 {
        assert(s.drop_last() =~= Seq::<Field>::empty());
        assert(s.last() == f);
        assert(fields_bytes(s) == fields_bytes(s.drop_last()) + field_bytes(f));
        assert(fields_bytes(Seq::<Field>::empty()) == Seq::<u8>::empty());
        assert(fields_bytes(s) =~= field_bytes(f) + fields_bytes(t));
    } else {
        let fb = field_bytes(t.last());
        assert(s.drop_last() =~= seq![f] + t.drop_last());
        assert(s.last() == t.last());
        lemma_fields_bytes_cons(f, t.drop_last());
        assert(fields_bytes(s) == fields_bytes(s.drop_last()) + fb);
        assert(fields_bytes(t) == fields_bytes(t.drop_last()) + fb);
        assert(fields_bytes(s) =~= field_bytes(f) + fields_bytes(t));
    }
}

/// Resolving a payload into fields and encoding the fields again gives back the
/// payload, when every field header in it is in the form this library writes.
pub proof fn fields_decode_encode(b: Seq<u8>, fs: Seq<Field>)
    requires
        fields_decode(b) matches Some(ps) && fields_match(fs, ps),
        fields_canonical(b),
    ensures
        fields_bytes(fs) == b,
    decreases b.len(),
{
    if b.len() == 0 {
        assert(fs.len() == 0);
    } else {
        let (sig0, pay0, n) = field_decode(b)->0;
        let rest_b = b.subrange(n, b.len() as int);
        let ps = fields_decode(b)->0;
        let rest_ps = fields_decode(rest_b)->0;
        assert(ps == seq![(sig0, pay0)] + rest_ps);
        let rest = fs.subrange(1, fs.len() as int);
        assert(ps[0] == (sig0, pay0));
        field_decode_encode(b, fs[0]);
        assert(rest_ps =~= ps.subrange(1, ps.len() as int));
        assert forall|i: int| 0 <= i < rest.len() implies {
            &&& (#[trigger] rest[i]).signature.0@ == rest_ps[i].0
            &&& rest[i].data is Raw
            &&& rest[i].data.payload() == rest_ps[i].1
        } by {
            assert(rest[i] == fs[i + 1]);
            assert(rest_ps[i] == ps[i + 1]);
        }
        fields_decode_encode(rest_b, rest);
        assert(fs =~= seq![fs[0]] + rest);
        lemma_fields_bytes_cons(fs[0], rest);
        assert(b.subrange(0, n) + rest_b =~= b);
    }
}

} // verus!
