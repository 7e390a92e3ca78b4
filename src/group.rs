//! Groups: a 24-byte header with a polymorphic label, and a payload that is raw
//! bytes or an ordered list of records and nested groups.
use crate::error::{Error, Result};
use crate::group_label::{label_bytes, label_resolve_encode, resolves_to, GroupLabel};
use crate::le::{le16, le16_bytes, le32, le32_bytes, push_all, push_u16_le, push_u32_le, read_u16_le, read_u32_le};
use crate::record::{
    fields_canonical, fields_decode, fields_decode_encode, fields_match, is_compressed_flag,
    record_bytes, record_data_bytes, record_frame, record_header_from, resolved_payload,
    stored_data_is, written_flags, Record, RecordData,
};
use crate::signature::grup_tag;
use crate::timestamp::Timestamp;
use crate::vcs_info::VcsInfo;
use vstd::prelude::*;
use vstd::slice::{slice_subrange, slice_to_vec};

verus! {

broadcast use vstd::std_specs::vec::axiom_vec_decreases_to_view, vstd::std_specs::vec::axiom_vec_index_decreases, vstd::seq::axiom_seq_subrange_decreases;

/// A group: a label, a timestamp, editor users, a reserved word and a payload.
#[derive(Debug, PartialEq, Eq, Hash)]
pub struct Group {
    pub label: GroupLabel,
    pub timestamp: Timestamp,
    pub vcs_info: VcsInfo,
    pub reserved: u32,
    pub data: GroupData,
}

/// The payload of a group.
#[derive(Debug, PartialEq, Eq, Hash)]
pub enum GroupData {
    Empty,
    /// Undecoded component bytes.
    Raw(Vec<u8>),
    /// The decoded records and groups, in the order of the bytes they came from.
    Structured(Vec<GroupDataComponent>),
}

/// One entry of a group's payload.
#[derive(Debug, PartialEq, Eq, Hash)]
pub enum GroupDataComponent {
    Empty,
    Group(Group),
    Record(Record),
}

/// Whether `b` starts with the group tag `GRUP`.
pub open spec fn starts_with_grup(b: Seq<u8>) -> bool {
    b.len() >= 4 && b.subrange(0, 4) == grup_tag()
}

/// The number of bytes that the group at the start of `b` takes, as its header's
/// total size says, or `None` when `b` does not start with `GRUP`, is shorter than a
/// header, or is shorter than the declared size, or when that size is smaller than a
/// header.
pub open spec fn group_frame(b: Seq<u8>) -> Option<int> {
    if !starts_with_grup(b) || b.len() < 24 {
        None
    } else {
        let size = le32(b.subrange(4, 8));
        if size < 24 || b.len() < size {
            None
        } else {
            Some(size)
        }
    }
}

/// Whether the header fields of `g` other than its label are those that the 24 bytes
/// at the start of `b` give. The editor-user word reads as the zero pair.
pub open spec fn group_fields_from(g: Group, b: Seq<u8>) -> bool {
    &&& g.timestamp == Timestamp::spec_from_u16(le16(b.subrange(16, 18)) as u16)
    &&& g.vcs_info == (VcsInfo { last_user: 0, current_user: 0 })
    &&& g.reserved == le32(b.subrange(20, 24))
}

/// Whether `l` is the unresolved label held by the header at the start of `b`.
pub open spec fn raw_label_from(l: GroupLabel, b: Seq<u8>) -> bool {
    l matches GroupLabel::Raw { label, label_type } && label@ == b.subrange(8, 12) && label_type
        == le32(b.subrange(12, 16))
}

/// The wire form of a group: the header with a freshly computed total size, then the
/// payload. The editor-user word is written as 0 (see `VcsInfo::to_u16`).
pub open spec fn group_bytes(g: Group) -> Seq<u8>
    decreases g,
{
    let d = group_data_bytes(g.data);
    grup_tag() + le32_bytes(24 + d.len() as int) + label_bytes(g.label) + le16_bytes(
        g.timestamp.spec_to_u16() as int,
    ) + le16_bytes(0) + le32_bytes(g.reserved as int) + d
}

/// The wire form of a group payload: stored bytes as they are, components re-encoded
/// back to back.
pub open spec fn group_data_bytes(d: GroupData) -> Seq<u8>
    decreases d,
{
    match d {
        GroupData::Empty => Seq::empty(),
        GroupData::Raw(b) => b@,
        GroupData::Structured(cs) => components_bytes(cs@),
    }
}

/// The wire forms of components, back to back.
pub open spec fn components_bytes(cs: Seq<GroupDataComponent>) -> Seq<u8>
    decreases cs,
{
    if cs.len() == 0 {
        Seq::empty()
    } else {
        components_bytes(cs.drop_last()) + component_bytes(cs.last())
    }
}

/// The wire form of one component.
pub open spec fn component_bytes(c: GroupDataComponent) -> Seq<u8>
    decreases c,
{
    match c {
        GroupDataComponent::Empty => Seq::empty(),
        GroupDataComponent::Group(g) => group_bytes(g),
        GroupDataComponent::Record(r) => record_bytes(r),
    }
}

pub proof fn lemma_components_bytes_bound(cs: Seq<GroupDataComponent>, i: int)
    requires
        0 <= i < cs.len(),
    ensures
        component_bytes(cs[i]).len() <= components_bytes(cs).len(),
    decreases cs.len(),
{
    if i < cs.len() - 1 {
        lemma_components_bytes_bound(cs.drop_last(), i);
    }
}

fn is_grup(b: &[u8]) -> (r: bool)
    requires
        b@.len() >= 4,
    ensures
        r == (b@.subrange(0, 4) == grup_tag()),
{
    let r = b[0] == 71u8 && b[1] == 82u8 && b[2] == 85u8 && b[3] == 80u8;
    assert(r ==> b@.subrange(0, 4) =~= grup_tag());
    assert(b@.subrange(0, 4) == grup_tag() ==> b@.subrange(0, 4)[0] == 71u8 && b@.subrange(0, 4)[1]
        == 82u8 && b@.subrange(0, 4)[2] == 85u8 && b@.subrange(0, 4)[3] == 80u8);
    r
}

impl Group {
    pub const HEADER_SIZE: usize = 24;
    pub const MAXIMUM_SIZE: usize = 0xFFFF_FFFF;

    /// Decodes the group at the start of `buf` and gives it with the number of bytes it
    /// took. Its label stays unresolved and its payload stays raw. Fails with
    /// `NonGroupSignature` when the first four bytes are not `GRUP`, and with
    /// `BufferTooShort` whenever else `group_frame` finds no group.
    pub fn from_bytes(buf: &[u8]) -> (r: Result<(Group, usize)>)
        ensures
            match r {
                Ok((g, n)) => {
                    &&& group_frame(buf@) == Some(n as int)
                    &&& raw_label_from(g.label, buf@)
                    &&& group_fields_from(g, buf@)
                    &&& g.data matches GroupData::Raw(v) && v@ == buf@.subrange(24, n as int)
                },
                Err(e) => {
                    &&& group_frame(buf@) is None
                    &&& if buf@.len() >= 4 && !starts_with_grup(buf@) {
                        e matches Error::NonGroupSignature(v) && v@ == buf@.subrange(0, 4)
                    } else {
                        e is BufferTooShort
                    }
                },
            },
    {
        if buf.len() < 4 {
            return Err(Error::BufferTooShort);
        }
        if !is_grup(buf) {
            return Err(Error::NonGroupSignature(slice_to_vec(slice_subrange(buf, 0, 4))));
        }
        if buf.len() < 24 {
            return Err(Error::BufferTooShort);
        }
        let size = read_u32_le(buf, 4);
        if size < 24 || buf.len() < size as usize {
            return Err(Error::BufferTooShort);
        }
        let data = slice_to_vec(slice_subrange(buf, 24, size as usize));
        let label = [buf[8], buf[9], buf[10], buf[11]];
        assert(label@ =~= buf@.subrange(8, 12));
        let g = Group {
            label: GroupLabel::Raw { label, label_type: read_u32_le(buf, 12) },
            timestamp: Timestamp::from_u16(read_u16_le(buf, 16)),
            vcs_info: VcsInfo::from_u16(read_u16_le(buf, 18)),
            reserved: read_u32_le(buf, 20),
            data: GroupData::Raw(data),
        };
        Ok((g, size as usize))
    }

    /// The wire form of the group, as `group_bytes` gives it.
    #[verifier::rlimit(50)]
    pub fn as_bytes(&self) -> (r: Vec<u8>)
        requires
            group_bytes(*self).len() <= u32::MAX,
        ensures
            r@ == group_bytes(*self),
        decreases self,
    {
        let mut bytes: Vec<u8> = Vec::new();
        let data = self.data.as_bytes();
        let total = data.len() + 24;
        push_all(&mut bytes, &[71u8, 82u8, 85u8, 80u8]);
        push_u32_le(&mut bytes, total as u32);
        let label = self.label.as_bytes();
        push_all(&mut bytes, label.as_slice());
        push_u16_le(&mut bytes, self.timestamp.to_u16());
        push_u16_le(&mut bytes, self.vcs_info.to_u16());
        push_u32_le(&mut bytes, self.reserved);
        push_all(&mut bytes, data.as_slice());
        assert(bytes@ =~= group_bytes(*self));
        bytes
    }
}

impl GroupData {
    /// The wire form of the payload, as `group_data_bytes` gives it.
    #[verifier::loop_isolation(false)]
    pub fn as_bytes(&self) -> (r: Vec<u8>)
        requires
            group_data_bytes(*self).len() <= u32::MAX,
        ensures
            r@ == group_data_bytes(*self),
        decreases self,
    {
        match self {
            GroupData::Empty => Vec::new(),
            GroupData::Raw(b) => b.clone(),
            GroupData::Structured(s) => {
                let mut bytes: Vec<u8> = Vec::new();
                let mut i: usize = 0;
                while i < s.len()
                    invariant
                        i <= s@.len(),
                        bytes@ == components_bytes(s@.subrange(0, i as int)),
                    decreases s@.len() - i,
                {
                    proof {
                        lemma_components_bytes_bound(s@, i as int);
                        assert(s@.subrange(0, i + 1).drop_last() =~= s@.subrange(0, i as int));
                    }
                    let cb = s[i].as_bytes();
                    push_all(&mut bytes, cb.as_slice());
                    i = i + 1;
                }
                assert(s@.subrange(0, s@.len() as int) =~= s@);
                bytes
            },
        }
    }
}

impl GroupDataComponent {
    fn as_bytes(&self) -> (r: Vec<u8>)
        requires
            component_bytes(*self).len() <= u32::MAX,
        ensures
            r@ == component_bytes(*self),
        decreases self,
    {
        match self {
            GroupDataComponent::Empty => Vec::new(),
            GroupDataComponent::Group(g) => g.as_bytes(),
            GroupDataComponent::Record(r) => {
                assert(record_data_bytes(r.data).len() <= u32::MAX) by {
                    reveal(record_bytes);
                }
                r.as_bytes()
            },
        }
    }
}

/// The number of bytes that the component at the start of `b` takes: a group when
/// `b` starts with `GRUP`, a record otherwise.
pub open spec fn component_frame(b: Seq<u8>) -> Option<int> {
    if starts_with_grup(b) {
        group_frame(b)
    } else {
        record_frame(b)
    }
}

/// Whether `b` is exactly filled by framed components, one after the other.
pub open spec fn components_frame_ok(b: Seq<u8>) -> bool
    decreases b.len(),
{
    if b.len() == 0 {
        true
    } else {
        match component_frame(b) {
            Some(n) => 0 < n <= b.len() && components_frame_ok(b.subrange(n, b.len() as int)),
            None => false,
        }
    }
}

/// Whether `l` is the label that resolving the header at the start of `b` gives: its
/// interpretation when the discriminant is in `0..=10`, the raw label otherwise.
pub open spec fn label_resolved_from(l: GroupLabel, b: Seq<u8>) -> bool {
    let t = le32(b.subrange(12, 16));
    if t <= 10 {
        resolves_to(b.subrange(8, 12), t as u32, l)
    } else {
        raw_label_from(l, b)
    }
}

/// Whether `r` is the record that decoding and resolving the frame `b` gives: the
/// header of `b`, and the decoded fields of its payload, or the stored payload when
/// resolving it fails.
pub open spec fn record_resolved_from(r: Record, b: Seq<u8>) -> bool {
    let flags = le32(b.subrange(8, 12)) as u32;
    let p = b.subrange(24, b.len() as int);
    &&& record_header_from(r, b)
    &&& match resolved_payload(is_compressed_flag(flags), p) {
        Some(ps) => r.data matches RecordData::Generic(fs) && fields_match(fs@, ps),
        None => stored_data_is(r.data, flags, p),
    }
}

/// Whether `d` is what resolving the group payload `p` gives: its components, each
/// resolved, when `p` is exactly filled by framed components; `p` itself otherwise.
pub open spec fn data_resolved_from(d: GroupData, p: Seq<u8>) -> bool
    decreases p.len(), 2int,
{
    if components_frame_ok(p) {
        d matches GroupData::Structured(cs) && components_resolved_from(cs@, p)
    } else {
        d matches GroupData::Raw(v) && v@ == p
    }
}

/// Whether `cs` are the components that decoding and resolving `b` gives, in order.
pub open spec fn components_resolved_from(cs: Seq<GroupDataComponent>, b: Seq<u8>) -> bool
    decreases b.len(), 1int,
{
    if b.len() == 0 {
        cs.len() == 0
    } else {
        match component_frame(b) {
            Some(n) => {
                &&& 0 < n <= b.len()
                &&& cs.len() > 0
                &&& component_resolved_from(cs[0], b.subrange(0, n))
                &&& components_resolved_from(
                    cs.subrange(1, cs.len() as int),
                    b.subrange(n, b.len() as int),
                )
            },
            None => false,
        }
    }
}

/// Whether `c` is the component that decoding and resolving the frame `b` gives: a
/// group with its label and payload resolved, or a record with its payload resolved.
pub open spec fn component_resolved_from(c: GroupDataComponent, b: Seq<u8>) -> bool
    decreases b.len(), 0int,
{
    if starts_with_grup(b) {
        &&& b.len() >= 24
        &&& c matches GroupDataComponent::Group(g)
        &&& group_fields_from(g, b)
        &&& label_resolved_from(g.label, b)
        &&& data_resolved_from(g.data, b.subrange(24, b.len() as int))
    } else {
        c matches GroupDataComponent::Record(r) && record_resolved_from(r, b)
    }
}

/// Decodes the components that fill `b` and resolves each, nested groups included.
/// Fails with `BufferTooShort` exactly when `b` is not filled by framed components.
#[verifier::rlimit(50)]
fn resolve_components(b: &[u8]) -> (r: Result<Vec<GroupDataComponent>>)
    ensures
        match r {
            Ok(cs) => components_frame_ok(b@) && components_resolved_from(cs@, b@),
            Err(e) => !components_frame_ok(b@) && e is BufferTooShort,
        },
    decreases b@.len(),
{
    let mut cs: Vec<GroupDataComponent> = Vec::new();
    let mut pos: usize = 0;
    assert(b@.subrange(0, b@.len() as int) =~= b@);
    assert forall|t: Seq<GroupDataComponent>|
        components_resolved_from(t, b@.subrange(0, b@.len() as int)) implies components_resolved_from(
        cs@ + t,
        b@,
    ) by {
        assert(cs@ + t =~= t);
    }
    while pos < b.len()
        invariant
            pos <= b@.len(),
            components_frame_ok(b@) == components_frame_ok(b@.subrange(pos as int, b@.len() as int)),
            forall|t: Seq<GroupDataComponent>|
                components_resolved_from(t, b@.subrange(pos as int, b@.len() as int))
                    ==> #[trigger] components_resolved_from(cs@ + t, b@),
        decreases b@.len() - pos,
    {
        let rest = slice_subrange(b, pos, b.len());
        let ghost rs = rest@;
        let grup = rest.len() >= 4 && is_grup(rest);
        let c: GroupDataComponent;
        let n: usize;
        if grup {
            match Group::from_bytes(rest) {
                Ok((g0, size)) => {
                    let mut g = g0;
                    g.process_label();
                    let payload = slice_subrange(rest, 24, size);
                    match resolve_components(payload) {
                        Ok(sub) => {
                            g.data = GroupData::Structured(sub);
                        },
                        Err(_) => {},
                    }
                    proof {
                        let f = rs.subrange(0, size as int);
                        assert(f.subrange(0, 4) =~= rs.subrange(0, 4));
                        assert(f.subrange(8, 12) =~= rs.subrange(8, 12));
                        assert(f.subrange(12, 16) =~= rs.subrange(12, 16));
                        assert(f.subrange(16, 18) =~= rs.subrange(16, 18));
                        assert(f.subrange(20, 24) =~= rs.subrange(20, 24));
                        assert(f.subrange(24, f.len() as int) =~= payload@);
                    }
                    c = GroupDataComponent::Group(g);
                    n = size;
                },
                Err(_) => {
                    return Err(Error::BufferTooShort);
                },
            }
        } else {
            match Record::from_bytes(rest) {
                Ok((r0, size)) => {
                    let mut r = r0;
                    r.process();
                    proof {
                        let f = rs.subrange(0, size as int);
                        assert(f.subrange(0, 4) =~= rs.subrange(0, 4));
                        assert(f.subrange(8, 12) =~= rs.subrange(8, 12));
                        assert(f.subrange(12, 16) =~= rs.subrange(12, 16));
                        assert(f.subrange(16, 18) =~= rs.subrange(16, 18));
                        assert(f.subrange(20, 22) =~= rs.subrange(20, 22));
                        assert(f.subrange(22, 24) =~= rs.subrange(22, 24));
                        assert(f.subrange(24, f.len() as int) =~= rs.subrange(24, size as int));
                        if f.len() >= 4 {
                            assert(f.subrange(0, 4) =~= rs.subrange(0, 4));
                        }
                    }
                    c = GroupDataComponent::Record(r);
                    n = size;
                },
                Err(e) => {
                    return Err(e);
                },
            }
        }
        proof {
            assert(component_frame(rs) == Some(n as int));
            assert(component_resolved_from(c, rs.subrange(0, n as int)));
            assert(rs.subrange(n as int, rs.len() as int) =~= b@.subrange(pos + n, b@.len() as int));
            assert forall|t: Seq<GroupDataComponent>|
                components_resolved_from(t, b@.subrange(pos + n, b@.len() as int)) implies #[trigger] components_resolved_from(
                cs@.push(c) + t,
                b@,
            ) by {
                let t2 = seq![c] + t;
                assert(t2.subrange(1, t2.len() as int) =~= t);
                assert(t2[0] == c);
                assert(components_resolved_from(t2, rs));
                assert(cs@ + t2 =~= cs@.push(c) + t);
            }
        }
        cs.push(c);
        pos = pos + n;
    }
    proof {
        assert(b@.subrange(pos as int, b@.len() as int) =~= Seq::<u8>::empty());
        assert(components_resolved_from(Seq::<GroupDataComponent>::empty(), Seq::<u8>::empty()));
        assert(cs@ + Seq::<GroupDataComponent>::empty() =~= cs@);
    }
    Ok(cs)
}

impl Group {
    /// Resolves the label in place; a label that cannot be resolved stays as it is.
    pub fn process_label(&mut self)
        ensures
            final(self).timestamp == old(self).timestamp,
            final(self).vcs_info == old(self).vcs_info,
            final(self).reserved == old(self).reserved,
            final(self).data == old(self).data,
            match old(self).label {
                GroupLabel::Raw { label, label_type } => if label_type <= 10 {
                    resolves_to(label@, label_type, final(self).label)
                } else {
                    final(self).label == old(self).label
                },
                _ => final(self).label == old(self).label,
            },
    {
        match self.label.process() {
            Ok(l) => {
                self.label = l;
            },
            Err(_) => {},
        }
    }

    /// Resolves the payload in place (see `GroupData::process`); a payload that cannot
    /// be resolved stays as it is.
    pub fn process_data(&mut self)
        ensures
            final(self).label == old(self).label,
            final(self).timestamp == old(self).timestamp,
            final(self).vcs_info == old(self).vcs_info,
            final(self).reserved == old(self).reserved,
            match old(self).data {
                GroupData::Raw(v) => data_resolved_from(final(self).data, v@),
                _ => final(self).data == old(self).data,
            },
    {
        let _ = self.data.process();
    }

    /// Resolves the label and then the payload; the failure of one does not stop the
    /// other.
    pub fn process(&mut self)
        ensures
            group_processed(*old(self), *final(self)),
    {
        self.process_label();
        self.process_data();
    }
}

impl GroupData {
    /// Resolves a raw payload in place into its components, each resolved in turn. On
    /// failure (`BufferTooShort`, when the bytes are not exactly filled by framed
    /// components) the payload stays as it was; a payload already structured, or
    /// empty, is left as it is.
    pub fn process(&mut self) -> (r: Result<()>)
        ensures
            match *old(self) {
                GroupData::Raw(v) => {
                    &&& data_resolved_from(*final(self), v@)
                    &&& if components_frame_ok(v@) {
                        r is Ok
                    } else {
                        (r matches Err(e) && e is BufferTooShort) && *final(self) == *old(self)
                    }
                },
                _ => r is Ok && *final(self) == *old(self),
            },
    {
        let resolved = match self {
            GroupData::Raw(b) => resolve_components(b.as_slice()),
            _ => {
                return Ok(());
            },
        };
        match resolved {
            Ok(cs) => {
                *self = GroupData::Structured(cs);
                Ok(())
            },
            Err(e) => Err(e),
        }
    }
}

/// The records among `cs`, in order, without looking into groups.
pub open spec fn direct_records(cs: Seq<GroupDataComponent>) -> Seq<Record>
    decreases cs.len(),
{
    if cs.len() == 0 {
        Seq::empty()
    } else {
        direct_records(cs.drop_last()) + match cs.last() {
            GroupDataComponent::Record(r) => seq![r],
            _ => Seq::empty(),
        }
    }
}

/// The groups among `cs`, in order, without looking into them.
pub open spec fn direct_groups(cs: Seq<GroupDataComponent>) -> Seq<Group>
    decreases cs.len(),
{
    if cs.len() == 0 {
        Seq::empty()
    } else {
        direct_groups(cs.drop_last()) + match cs.last() {
            GroupDataComponent::Group(g) => seq![g],
            _ => Seq::empty(),
        }
    }
}

/// Every record that a payload holds, nested groups included, depth first in
/// document order; a payload that is not structured holds none.
pub open spec fn records_recurse(d: GroupData) -> Seq<Record>
    decreases d,
{
    match d {
        GroupData::Structured(cs) => components_records(cs@),
        _ => Seq::empty(),
    }
}

/// Every record that the components hold, depth first in document order.
pub open spec fn components_records(cs: Seq<GroupDataComponent>) -> Seq<Record>
    decreases cs,
{
    if cs.len() == 0 {
        Seq::empty()
    } else {
        components_records(cs.drop_last()) + component_records(cs.last())
    }
}

/// Every record that one component holds: itself, or those of a group's payload.
pub open spec fn component_records(c: GroupDataComponent) -> Seq<Record>
    decreases c,
{
    match c {
        GroupDataComponent::Empty => Seq::empty(),
        GroupDataComponent::Group(g) => records_recurse(g.data),
        GroupDataComponent::Record(r) => seq![r],
    }
}

/// The values that a sequence of references points to.
pub open spec fn derefs<T>(s: Seq<&T>) -> Seq<T> {
    s.map_values(|x: &T| *x)
}

impl Group {
    /// The group's label.
    pub fn get_label(&self) -> (r: &GroupLabel)
        ensures
            *r == self.label,
    {
        &self.label
    }

    /// The group's timestamp.
    pub fn get_timestamp(&self) -> (r: &Timestamp)
        ensures
            *r == self.timestamp,
    {
        &self.timestamp
    }

    /// The group's editor users.
    pub fn get_vcs_info(&self) -> (r: &VcsInfo)
        ensures
            *r == self.vcs_info,
    {
        &self.vcs_info
    }

    /// The group's payload.
    pub fn get_data(&self) -> (r: &GroupData)
        ensures
            *r == self.data,
    {
        &self.data
    }
}

impl GroupData {
    /// The components of a structured payload; `None` for any other.
    pub fn get_components(&self) -> (r: Option<&Vec<GroupDataComponent>>)
        ensures
            match self {
                GroupData::Structured(cs) => r == Some(cs),
                _ => r is None,
            },
    {
        match self {
            GroupData::Structured(s) => Some(s),
            _ => None,
        }
    }

    /// The records directly in a structured payload, in order; nested groups are not
    /// looked into.
    pub fn get_records(&self) -> (r: Vec<&Record>)
        ensures
            derefs(r@) == match self {
                GroupData::Structured(cs) => direct_records(cs@),
                _ => Seq::empty(),
            },
    {
        let mut records: Vec<&Record> = Vec::new();
        match self {
            GroupData::Structured(s) => {
                let mut i: usize = 0;
                while i < s.len()
                    invariant
                        i <= s@.len(),
                        derefs(records@) == direct_records(s@.subrange(0, i as int)),
                    decreases s@.len() - i,
                {
                    proof {
                        assert(s@.subrange(0, i + 1).drop_last() =~= s@.subrange(0, i as int));
                    }
                    match &s[i] {
                        GroupDataComponent::Record(r) => {
                            records.push(r);
                        },
                        _ => {},
                    }
                    i = i + 1;
                    assert(derefs(records@) =~= direct_records(s@.subrange(0, i as int)));
                }
                assert(s@.subrange(0, s@.len() as int) =~= s@);
            },
            _ => {
                assert(derefs(records@) =~= Seq::<Record>::empty());
            },
        }
        records
    }

    /// The groups directly in a structured payload, in order.
    pub fn get_subgroups(&self) -> (r: Vec<&Group>)
        ensures
            derefs(r@) == match self {
                GroupData::Structured(cs) => direct_groups(cs@),
                _ => Seq::empty(),
            },
    {
        let mut groups: Vec<&Group> = Vec::new();
        match self {
            GroupData::Structured(s) => {
                let mut i: usize = 0;
                while i < s.len()
                    invariant
                        i <= s@.len(),
                        derefs(groups@) == direct_groups(s@.subrange(0, i as int)),
                    decreases s@.len() - i,
                {
                    proof {
                        assert(s@.subrange(0, i + 1).drop_last() =~= s@.subrange(0, i as int));
                    }
                    match &s[i] {
                        GroupDataComponent::Group(g) => {
                            groups.push(g);
                        },
                        _ => {},
                    }
                    i = i + 1;
                    assert(derefs(groups@) =~= direct_groups(s@.subrange(0, i as int)));
                }
                assert(s@.subrange(0, s@.len() as int) =~= s@);
            },
            _ => {
                assert(derefs(groups@) =~= Seq::<Group>::empty());
            },
        }
        groups
    }

    /// Every record in the payload, nested groups included, depth first in document
    /// order, as `records_recurse` gives them.
    #[verifier::loop_isolation(false)]
    #[verifier::rlimit(40)]
    pub fn get_records_recurse(&self) -> (r: Vec<&Record>)
        ensures
            derefs(r@) == records_recurse(*self),
        decreases self,
    {
        let mut records: Vec<&Record> = Vec::new();
        match self {
            GroupData::Structured(s) => {
                let mut i: usize = 0;
                while i < s.len()
                    invariant
                        i <= s@.len(),
                        derefs(records@) == components_records(s@.subrange(0, i as int)),
                    decreases s@.len() - i,
                {
                    proof {
                        assert(s@.subrange(0, i + 1).drop_last() =~= s@.subrange(0, i as int));
                    }
                    let ghost before = records@;
                    let ghost cur = s@.subrange(0, i + 1);
                    assert(cur.last() == s@[i as int]);
                    assert(components_records(cur) == components_records(cur.drop_last())
                        + component_records(s@[i as int]));
                    match &s[i] {
                        GroupDataComponent::Record(r) => {
                            records.push(r);
                            assert(derefs(records@) =~= derefs(before) + seq![*r]);
                        },
                        GroupDataComponent::Group(g) => {
                            let mut sub = g.data.get_records_recurse();
                            let ghost subv = sub@;
                            records.append(&mut sub);
                            assert(derefs(records@) =~= derefs(before) + derefs(subv));
                        },
                        GroupDataComponent::Empty => {},
                    }
                    i = i + 1;
                    assert(derefs(records@) =~= components_records(s@.subrange(0, i as int)));
                }
                assert(s@.subrange(0, s@.len() as int) =~= s@);
            },
            _ => {
                assert(derefs(records@) =~= Seq::<Record>::empty());
            },
        }
        records
    }
}

/// Whether `h` is what resolving `g` gives: the label resolved when it is raw with a
/// known discriminant, the payload resolved when it is raw (see
/// `data_resolved_from`), everything else unchanged.
pub open spec fn group_processed(g: Group, h: Group) -> bool {
    &&& h.timestamp == g.timestamp
    &&& h.vcs_info == g.vcs_info
    &&& h.reserved == g.reserved
    &&& match g.label {
        GroupLabel::Raw { label, label_type } => if label_type <= 10 {
            resolves_to(label@, label_type, h.label)
        } else {
            h.label == g.label
        },
        _ => h.label == g.label,
    }
    &&& match g.data {
        GroupData::Raw(v) => data_resolved_from(h.data, v@),
        _ => h.data == g.data,
    }
}

/// Decoding a group and encoding it again gives back the bytes it was decoded from,
/// provided its editor-user word is 0: that word is not kept (see `VcsInfo`).
pub proof fn group_decode_encode(b: Seq<u8>, g: Group)
    requires
        group_frame(b) is Some,
        raw_label_from(g.label, b),
        group_fields_from(g, b),
        g.data matches GroupData::Raw(v) && v@ == b.subrange(24, group_frame(b)->0),
        b[18] == 0 && b[19] == 0,
    ensures
        group_frame(b) matches Some(n) && group_bytes(g) == b.subrange(0, n),
{
    let n = group_frame(b)->0;
    crate::le::lemma_le32_bytes_of(b.subrange(4, 8));
    crate::le::lemma_le32_bytes_of(b.subrange(12, 16));
    crate::le::lemma_le16_bytes_of(b.subrange(16, 18));
    crate::le::lemma_le16_bytes_of(b.subrange(18, 20));
    crate::le::lemma_le32_bytes_of(b.subrange(20, 24));
    crate::timestamp::timestamp_bits_round_trip(le16(b.subrange(16, 18)) as u16);
    assert(b.subrange(0, 4) == grup_tag());
    assert(group_bytes(g) =~= b.subrange(0, n));
}

/// Whether the record frame `f` re-encodes exactly once resolved: its editor-user word
/// is 0, it is not compressed, and if its payload decodes into fields, every field
/// header is in the form this library writes.
pub open spec fn record_frame_canonical(f: Seq<u8>) -> bool {
    let p = f.subrange(24, f.len() as int);
    &&& f[18] == 0 && f[19] == 0
    &&& !is_compressed_flag(le32(f.subrange(8, 12)) as u32)
    &&& fields_decode(p) is Some ==> fields_canonical(p)
}

/// Whether every component that fills `b`, nested ones included, re-encodes exactly
/// once resolved (see `record_frame_canonical`; groups need a zero editor-user word).
pub open spec fn components_canonical(b: Seq<u8>) -> bool
    decreases b.len(), 1int,
{
    if b.len() == 0 {
        true
    } else {
        match component_frame(b) {
            Some(n) => 0 < n <= b.len() && component_canonical(b.subrange(0, n))
                && components_canonical(b.subrange(n, b.len() as int)),
            None => false,
        }
    }
}

/// Whether the component frame `f` re-encodes exactly once resolved.
pub open spec fn component_canonical(f: Seq<u8>) -> bool
    decreases f.len(), 0int,
{
    if starts_with_grup(f) {
        &&& f.len() >= 24
        &&& f[18] == 0 && f[19] == 0
        &&& components_frame_ok(f.subrange(24, f.len() as int)) ==> components_canonical(
            f.subrange(24, f.len() as int),
        )
    } else {
        record_frame_canonical(f)
    }
}

pub proof fn lemma_components_bytes_cons(c: GroupDataComponent, t: Seq<GroupDataComponent>)
    ensures
        components_bytes(seq![c] + t) == component_bytes(c) + components_bytes(t),
    decreases t.len(),
{
    let s = seq![c] + t;
    if t.len() == 0 {
        assert(s.drop_last() =~= Seq::<GroupDataComponent>::empty());
        assert(s.last() == c);
        assert(components_bytes(s) == components_bytes(s.drop_last()) + component_bytes(c));
        assert(components_bytes(Seq::<GroupDataComponent>::empty()) == Seq::<u8>::empty());
        assert(components_bytes(s) =~= component_bytes(c) + components_bytes(t));
    } else {
        let cb = component_bytes(t.last());
        assert(s.drop_last() =~= seq![c] + t.drop_last());
        assert(s.last() == t.last());
        lemma_components_bytes_cons(c, t.drop_last());
        assert(components_bytes(s) == components_bytes(s.drop_last()) + cb);
        assert(components_bytes(t) == components_bytes(t.drop_last()) + cb);
        assert(components_bytes(s) =~= component_bytes(c) + components_bytes(t));
    }
}

/// Resolving a group payload and encoding the resulting components gives back the
/// payload, when every component in it re-encodes exactly (see
/// `components_canonical`).
pub proof fn components_resolve_encode(cs: Seq<GroupDataComponent>, b: Seq<u8>)
    requires
        components_resolved_from(cs, b),
        components_canonical(b),
    ensures
        components_bytes(cs) == b,
    decreases b.len(), 1int,
{
    if b.len() == 0 {
        assert(components_bytes(cs) == Seq::<u8>::empty());
    } else {
        let n = component_frame(b)->0;
        let rest = cs.subrange(1, cs.len() as int);
        let rest_b = b.subrange(n, b.len() as int);
        let f = b.subrange(0, n);
        assert(f.subrange(0, 4) =~= b.subrange(0, 4));
        assert(f.subrange(4, 8) =~= b.subrange(4, 8));
        assert(component_frame(f) == Some(n));
        component_resolve_encode(cs[0], f);
        components_resolve_encode(rest, rest_b);
        assert(cs =~= seq![cs[0]] + rest);
        lemma_components_bytes_cons(cs[0], rest);
        assert(b.subrange(0, n) + rest_b =~= b);
    }
}

/// Resolving one component frame and encoding the result gives back the frame, when it
/// re-encodes exactly (see `component_canonical`).
#[verifier::rlimit(60)]
pub proof fn component_resolve_encode(c: GroupDataComponent, f: Seq<u8>)
    requires
        component_resolved_from(c, f),
        component_canonical(f),
        component_frame(f) == Some(f.len() as int),
    ensures
        component_bytes(c) == f,
    decreases f.len(), 0int,
{
    if starts_with_grup(f) {
        let g = c->Group_0;
        let p = f.subrange(24, f.len() as int);
        let d = group_data_bytes(g.data);
        assert(d == p) by {
            if components_frame_ok(p) {
                let cs = g.data->Structured_0;
                components_resolve_encode(cs@, p);
            }
        }
        let t = le32(f.subrange(12, 16));
        assert(label_bytes(g.label) == f.subrange(8, 16)) by {
            crate::le::lemma_le32_bytes_of(f.subrange(12, 16));
            if t <= 10 {
                label_resolve_encode(f.subrange(8, 12), t as u32, g.label);
            }
            assert(f.subrange(8, 12) + f.subrange(12, 16) =~= f.subrange(8, 16));
        }
        crate::le::lemma_le32_bytes_of(f.subrange(4, 8));
        crate::le::lemma_le16_bytes_of(f.subrange(16, 18));
        crate::le::lemma_le16_bytes_of(f.subrange(18, 20));
        crate::le::lemma_le32_bytes_of(f.subrange(20, 24));
        crate::timestamp::timestamp_bits_round_trip(le16(f.subrange(16, 18)) as u16);
        assert(f.subrange(0, 4) == grup_tag());
        assert(group_bytes(g) =~= f);
    } else {
        let r = c->Record_0;
        let p = f.subrange(24, f.len() as int);
        let flags = le32(f.subrange(8, 12)) as u32;
        crate::le::lemma_le32_bytes_of(f.subrange(8, 12));
        assert(record_data_bytes(r.data) == p) by {
            match resolved_payload(false, p) {
                Some(ps) => {
                    fields_decode_encode(p, r.data->Generic_0@);
                },
                None => {},
            }
        }
        assert(written_flags(r) == flags) by {
            assert(!is_compressed_flag(flags) ==> flags & 0xFFFB_FFFFu32 == flags) by (bit_vector);
        }
        crate::le::lemma_le32_bytes_of(f.subrange(4, 8));
        crate::le::lemma_le32_bytes_of(f.subrange(12, 16));
        crate::le::lemma_le16_bytes_of(f.subrange(16, 18));
        crate::le::lemma_le16_bytes_of(f.subrange(18, 20));
        crate::le::lemma_le16_bytes_of(f.subrange(20, 22));
        crate::le::lemma_le16_bytes_of(f.subrange(22, 24));
        crate::timestamp::timestamp_bits_round_trip(le16(f.subrange(16, 18)) as u16);
        reveal(record_bytes);
        assert(record_bytes(r) =~= f);
    }
}

/// Decoding a group, resolving it with `Group::process` and encoding the result gives
/// back the bytes it was decoded from, when every component in it re-encodes exactly
/// (see `component_canonical`).
pub proof fn group_process_encode(f: Seq<u8>, g: Group, h: Group)
    requires
        group_frame(f) == Some(f.len() as int),
        raw_label_from(g.label, f),
        group_fields_from(g, f),
        g.data matches GroupData::Raw(v) && v@ == f.subrange(24, f.len() as int),
        group_processed(g, h),
        component_canonical(f),
    ensures
        group_bytes(h) == f,
{
    assert(component_resolved_from(GroupDataComponent::Group(h), f));
    component_resolve_encode(GroupDataComponent::Group(h), f);
}

} // verus!
