//! Whole plugin files: one header record followed by the top-level groups.
use crate::error::{Error, Result};
use crate::group::{
    component_canonical, component_resolve_encode, component_resolved_from, derefs, group_bytes,
    group_decode_encode, group_fields_from, group_frame, group_process_encode, group_processed,
    raw_label_from, record_frame_canonical, record_resolved_from, records_recurse, starts_with_grup,
    Group, GroupData, GroupDataComponent,
};
use crate::group_label::GroupLabel;
use crate::le::push_all;
use crate::record::{
    record_bytes, record_data_bytes, record_decode_encode, record_frame, record_header_from, resolved_fields,
    fields_match, stored_data_is, Record, RecordData,
};
use crate::timestamp::Timestamp;
use crate::vcs_info::VcsInfo;
use vstd::prelude::*;
use vstd::slice::slice_subrange;

verus! {

/// A decoded plugin file.
#[derive(Debug, PartialEq, Eq, Hash)]
pub struct ESx {
    pub header_record: Record,
    pub top_groups: Vec<Group>,
}

/// The magic of the supported format, `TES4`.
pub open spec fn tes4_magic() -> Seq<u8> {
    seq![84u8, 69u8, 83u8, 52u8]
}

/// The magic of the legacy format, `TES3`, which is rejected.
pub open spec fn tes3_magic() -> Seq<u8> {
    seq![84u8, 69u8, 83u8, 51u8]
}

/// Whether `g` is the group that decoding the frame `f` gives, label and payload
/// left unresolved.
pub open spec fn group_decoded_from(g: Group, f: Seq<u8>) -> bool {
    &&& raw_label_from(g.label, f)
    &&& group_fields_from(g, f)
    &&& g.data matches GroupData::Raw(v) && v@ == f.subrange(24, f.len() as int)
}

/// Whether `gs` are the groups that decoding `b` gives, one frame after the other
/// until `b` is used up.
pub open spec fn groups_decoded_from(gs: Seq<Group>, b: Seq<u8>) -> bool
    decreases b.len(),
{
    if b.len() == 0 {
        gs.len() == 0
    } else {
        match group_frame(b) {
            Some(n) => {
                &&& 0 < n <= b.len()
                &&& gs.len() > 0
                &&& group_decoded_from(gs[0], b.subrange(0, n))
                &&& groups_decoded_from(gs.subrange(1, gs.len() as int), b.subrange(n, b.len() as int))
            },
            None => false,
        }
    }
}

/// Whether `b` is exactly filled by group frames.
pub open spec fn groups_frame_ok(b: Seq<u8>) -> bool
    decreases b.len(),
{
    if b.len() == 0 {
        true
    } else {
        match group_frame(b) {
            Some(n) => 0 < n <= b.len() && groups_frame_ok(b.subrange(n, b.len() as int)),
            None => false,
        }
    }
}

/// Whether `e` is the error of decoding a group at the start of `b`, when there is
/// none there.
pub open spec fn group_error_is(b: Seq<u8>, e: Error) -> bool {
    if b.len() >= 4 && !starts_with_grup(b) {
        e matches Error::NonGroupSignature(v) && v@ == b.subrange(0, 4)
    } else {
        e is BufferTooShort
    }
}

/// Whether `e` is the error of the first group frame of `b` that fails.
pub open spec fn groups_error_is(b: Seq<u8>, e: Error) -> bool
    decreases b.len(),
{
    if b.len() == 0 {
        false
    } else {
        match group_frame(b) {
            Some(n) => 0 < n <= b.len() && groups_error_is(b.subrange(n, b.len() as int), e),
            None => group_error_is(b, e),
        }
    }
}

/// The wire forms of groups, back to back.
pub open spec fn groups_bytes(gs: Seq<Group>) -> Seq<u8>
    decreases gs.len(),
{
    if gs.len() == 0 {
        Seq::empty()
    } else {
        groups_bytes(gs.drop_last()) + group_bytes(gs.last())
    }
}

/// Every record under the groups, depth first in document order.
pub open spec fn groups_records(gs: Seq<Group>) -> Seq<Record>
    decreases gs.len(),
{
    if gs.len() == 0 {
        Seq::empty()
    } else {
        groups_records(gs.drop_last()) + records_recurse(gs.last().data)
    }
}

/// The wire form of a file: the header record, then every top-level group.
pub open spec fn esx_bytes(e: ESx) -> Seq<u8> {
    record_bytes(e.header_record) + groups_bytes(e.top_groups@)
}

/// Whether `r` is what resolving the record `q` gives (see `Record::process`).
pub open spec fn record_processed(q: Record, r: Record) -> bool {
    &&& r.signature == q.signature
    &&& r.raw_flags == q.raw_flags
    &&& r.form_id == q.form_id
    &&& r.timestamp == q.timestamp
    &&& r.vcs_info == q.vcs_info
    &&& r.form_version == q.form_version
    &&& r.reserved == q.reserved
    &&& match q.data {
        RecordData::Raw(_) | RecordData::Compressed(_) => match resolved_fields(q.data) {
            Some(ps) => r.data matches RecordData::Generic(fs) && fields_match(fs@, ps),
            None => r.data == q.data,
        },
        _ => r.data == q.data,
    }
}

fn has_magic(b: &[u8], last: u8) -> (r: bool)
    requires
        b@.len() >= 4,
    ensures
        r == (b@.subrange(0, 4) == seq![84u8, 69u8, 83u8, last]),
{
    let r = b[0] == 84u8 && b[1] == 69u8 && b[2] == 83u8 && b[3] == last;
    assert(r ==> b@.subrange(0, 4) =~= seq![84u8, 69u8, 83u8, last]);
    assert(b@.subrange(0, 4) == seq![84u8, 69u8, 83u8, last] ==> b@.subrange(0, 4)[0] == 84u8
        && b@.subrange(0, 4)[1] == 69u8 && b@.subrange(0, 4)[2] == 83u8 && b@.subrange(0, 4)[3]
        == last);
    r
}

impl ESx {
    /// Decodes a whole file: the magic, the header record, then top-level groups until
    /// the buffer is used up. Labels and payloads are left unresolved. Fails with
    /// `TES3Header` for the legacy magic, `UnknownFileType` for any other that is not
    /// `TES4`, and otherwise with the error of the first frame that does not fit.
    pub fn from_bytes(buf: &[u8]) -> (r: Result<ESx>)
        ensures
            match r {
                Ok(e) => {
                    &&& buf@.subrange(0, 4) == tes4_magic()
                    &&& record_frame(buf@) matches Some(n) && {
                        &&& record_header_from(e.header_record, buf@)
                        &&& stored_data_is(
                            e.header_record.data,
                            e.header_record.raw_flags,
                            buf@.subrange(24, n),
                        )
                        &&& groups_decoded_from(e.top_groups@, buf@.subrange(n, buf@.len() as int))
                    }
                },
                Err(e) => if buf@.len() < 4 {
                    e is BufferTooShort
                } else if buf@.subrange(0, 4) == tes3_magic() {
                    e is TES3Header
                } else if buf@.subrange(0, 4) != tes4_magic() {
                    e is UnknownFileType
                } else {
                    match record_frame(buf@) {
                        None => e is BufferTooShort,
                        Some(n) => {
                            &&& !groups_frame_ok(buf@.subrange(n, buf@.len() as int))
                            &&& groups_error_is(buf@.subrange(n, buf@.len() as int), e)
                        },
                    }
                },
            },
    {
        if buf.len() < 4 {
            return Err(Error::BufferTooShort);
        }
        if !has_magic(buf, 52u8) {
            if has_magic(buf, 51u8) {
                return Err(Error::TES3Header);
            }
            return Err(Error::UnknownFileType);
        }
        assert(buf@.subrange(0, 4) != tes3_magic()) by {
            if buf@.subrange(0, 4) == tes3_magic() {
                assert(buf@.subrange(0, 4)[3] == 51u8);
            }
        }
        let (header_record, start) = match Record::from_bytes(buf) {
            Ok(x) => x,
            Err(e) => {
                return Err(e);
            },
        };
        let mut top_groups: Vec<Group> = Vec::new();
        let mut pos: usize = start;
        let ghost tail = buf@.subrange(start as int, buf@.len() as int);
        assert(buf@.subrange(start as int, buf@.len() as int) =~= tail);
        assert forall|t: Seq<Group>|
            groups_decoded_from(t, buf@.subrange(start as int, buf@.len() as int)) implies groups_decoded_from(
            top_groups@ + t,
            tail,
        ) by {
            assert(top_groups@ + t =~= t);
        }
        while pos < buf.len()
            invariant
                start <= pos <= buf@.len(),
                buf@.len() >= 4,
                buf@.subrange(0, 4) == tes4_magic(),
                buf@.subrange(0, 4) != tes3_magic(),
                record_frame(buf@) == Some(start as int),
                tail == buf@.subrange(start as int, buf@.len() as int),
                groups_frame_ok(tail) == groups_frame_ok(buf@.subrange(pos as int, buf@.len() as int)),
                forall|e: Error|
                    groups_error_is(tail, e) == groups_error_is(
                        buf@.subrange(pos as int, buf@.len() as int),
                        e,
                    ),
                forall|t: Seq<Group>|
                    groups_decoded_from(t, buf@.subrange(pos as int, buf@.len() as int))
                        ==> #[trigger] groups_decoded_from(top_groups@ + t, tail),
            decreases buf@.len() - pos,
        {
            let rest = slice_subrange(buf, pos, buf.len());
            let ghost rs = rest@;
            match Group::from_bytes(rest) {
                Ok((g, n)) => {
                    proof {
                        let f = rs.subrange(0, n as int);
                        assert(f.subrange(8, 12) =~= rs.subrange(8, 12));
                        assert(f.subrange(12, 16) =~= rs.subrange(12, 16));
                        assert(f.subrange(16, 18) =~= rs.subrange(16, 18));
                        assert(f.subrange(20, 24) =~= rs.subrange(20, 24));
                        assert(f.subrange(24, f.len() as int) =~= rs.subrange(24, n as int));
                        assert(group_decoded_from(g, f));
                        assert(rs.subrange(n as int, rs.len() as int) =~= buf@.subrange(
                            pos + n,
                            buf@.len() as int,
                        ));
                        assert forall|t: Seq<Group>|
                            groups_decoded_from(t, buf@.subrange(pos + n, buf@.len() as int)) implies #[trigger] groups_decoded_from(
                            top_groups@.push(g) + t,
                            tail,
                        ) by {
                            let t2 = seq![g] + t;
                            assert(t2.subrange(1, t2.len() as int) =~= t);
                            assert(t2[0] == g);
                            assert(groups_decoded_from(t2, rs));
                            assert(top_groups@ + t2 =~= top_groups@.push(g) + t);
                        }
                    }
                    top_groups.push(g);
                    pos = pos + n;
                },
                Err(e) => {
                    proof {
                        assert(rs.len() > 0);
                        assert(!groups_frame_ok(rs));
                        assert(groups_error_is(rs, e));
                        assert(groups_error_is(tail, e));
                    }
                    return Err(e);
                },
            }
        }
        proof {
            assert(buf@.subrange(pos as int, buf@.len() as int) =~= Seq::<u8>::empty());
            assert(groups_decoded_from(Seq::<Group>::empty(), Seq::<u8>::empty()));
            assert(top_groups@ + Seq::<Group>::empty() =~= top_groups@);
        }
        Ok(ESx { header_record, top_groups })
    }

    /// The wire form of the file, as `esx_bytes` gives it.
    pub fn as_bytes(&self) -> (r: Vec<u8>)
        requires
            record_data_bytes(self.header_record.data).len() <= u32::MAX,
            forall|i: int|
                0 <= i < self.top_groups@.len() ==> (#[trigger] group_bytes(self.top_groups@[i])).len()
                    <= u32::MAX,
        ensures
            r@ == esx_bytes(*self),
    {
        let mut bytes = self.header_record.as_bytes();
        let mut data: Vec<u8> = Vec::new();
        let mut i: usize = 0;
        while i < self.top_groups.len()
            invariant
                i <= self.top_groups@.len(),
                data@ == groups_bytes(self.top_groups@.subrange(0, i as int)),
                forall|j: int|
                    0 <= j < self.top_groups@.len() ==> (#[trigger] group_bytes(self.top_groups@[j])).len()
                        <= u32::MAX,
            decreases self.top_groups@.len() - i,
        {
            proof {
                assert(self.top_groups@.subrange(0, i + 1).drop_last() =~= self.top_groups@.subrange(0, i as int));
            }
            let gb = self.top_groups[i].as_bytes();
            push_all(&mut data, gb.as_slice());
            i = i + 1;
        }
        assert(self.top_groups@.subrange(0, self.top_groups@.len() as int) =~= self.top_groups@);
        push_all(&mut bytes, data.as_slice());
        bytes
    }

    /// The header record.
    pub fn get_header_record(&self) -> (r: &Record)
        ensures
            *r == self.header_record,
    {
        &self.header_record
    }

    /// The top-level groups, in file order.
    pub fn get_top_groups(&self) -> (r: &Vec<Group>)
        ensures
            *r == self.top_groups,
    {
        &self.top_groups
    }

    /// The header record, then every record under the top-level groups, depth first in
    /// document order.
    pub fn get_all_records(&self) -> (r: Vec<&Record>)
        ensures
            derefs(r@) == seq![self.header_record] + groups_records(self.top_groups@),
    {
        let mut records: Vec<&Record> = Vec::new();
        records.push(&self.header_record);
        let mut i: usize = 0;
        while i < self.top_groups.len()
            invariant
                i <= self.top_groups@.len(),
                derefs(records@) == seq![self.header_record] + groups_records(
                    self.top_groups@.subrange(0, i as int),
                ),
            decreases self.top_groups@.len() - i,
        {
            proof {
                assert(self.top_groups@.subrange(0, i + 1).drop_last() =~= self.top_groups@.subrange(0, i as int));
            }
            let ghost before = records@;
            let mut sub = self.top_groups[i].get_data().get_records_recurse();
            let ghost subv = sub@;
            records.append(&mut sub);
            assert(derefs(records@) =~= derefs(before) + derefs(subv));
            i = i + 1;
            assert(derefs(records@) =~= seq![self.header_record] + groups_records(
                self.top_groups@.subrange(0, i as int),
            ));
        }
        assert(self.top_groups@.subrange(0, self.top_groups@.len() as int) =~= self.top_groups@);
        records
    }

    /// Resolves the header record and every top-level group, and transitively all
    /// beneath them.
    pub fn process(&mut self)
        ensures
            record_processed(old(self).header_record, final(self).header_record),
            final(self).top_groups@.len() == old(self).top_groups@.len(),
            forall|i: int|
                0 <= i < old(self).top_groups@.len() ==> group_processed(
                    #[trigger] old(self).top_groups@[i],
                    final(self).top_groups@[i],
                ),
    {
        self.process_header();
        self.process_groups();
    }

    /// Resolves the header record.
    pub fn process_header(&mut self)
        ensures
            record_processed(old(self).header_record, final(self).header_record),
            final(self).top_groups == old(self).top_groups,
    {
        self.header_record.process();
    }

    /// Resolves every top-level group, in place.
    pub fn process_groups(&mut self)
        ensures
            final(self).header_record == old(self).header_record,
            final(self).top_groups@.len() == old(self).top_groups@.len(),
            forall|i: int|
                0 <= i < old(self).top_groups@.len() ==> group_processed(
                    #[trigger] old(self).top_groups@[i],
                    final(self).top_groups@[i],
                ),
    {
        let ghost start = self.top_groups@;
        let mut i: usize = 0;
        while i < self.top_groups.len()
            invariant
                i <= self.top_groups@.len(),
                self.top_groups@.len() == start.len(),
                self.header_record == old(self).header_record,
                forall|j: int| 0 <= j < i ==> group_processed(#[trigger] start[j], self.top_groups@[j]),
                forall|j: int| i <= j < start.len() ==> #[trigger] self.top_groups@[j] == start[j],
            decreases start.len() - i,
        {
            let mut g = Group {
                label: GroupLabel::Raw { label: [0u8, 0u8, 0u8, 0u8], label_type: 0 },
                timestamp: Timestamp { year: 0, month: 0, day: 0 },
                vcs_info: VcsInfo { last_user: 0, current_user: 0 },
                reserved: 0,
                data: GroupData::Empty,
            };
            self.top_groups.set_and_swap(i, &mut g);
            g.process();
            self.top_groups.set_and_swap(i, &mut g);
            i = i + 1;
        }
    }
}

/// Whether every group frame of `b` has a zero editor-user word.
pub open spec fn groups_users_zero(b: Seq<u8>) -> bool
    decreases b.len(),
{
    if b.len() == 0 {
        true
    } else {
        match group_frame(b) {
            Some(n) => 0 < n <= b.len() && b[18] == 0 && b[19] == 0 && groups_users_zero(
                b.subrange(n, b.len() as int),
            ),
            None => false,
        }
    }
}

pub proof fn lemma_groups_bytes_cons(g: Group, t: Seq<Group>)
    ensures
        groups_bytes(seq![g] + t) == group_bytes(g) + groups_bytes(t),
    decreases t.len(),
{
    let s = seq![g] + t;
    if t.len() == 0 {
        assert(s.drop_last() =~= Seq::<Group>::empty());
        assert(s.last() == g);
        assert(groups_bytes(s) == groups_bytes(s.drop_last()) + group_bytes(g));
        assert(groups_bytes(s) =~= group_bytes(g) + groups_bytes(t));
    } else {
        let gb = group_bytes(t.last());
        let front = groups_bytes(t.drop_last());
        assert(s.drop_last() =~= seq![g] + t.drop_last());
        assert(s.last() == t.last());
        lemma_groups_bytes_cons(g, t.drop_last());
        assert(groups_bytes(s) == groups_bytes(s.drop_last()) + gb);
        assert(groups_bytes(t) == front + gb);
        assert(groups_bytes(s) =~= group_bytes(g) + groups_bytes(t));
    }
}

#[verifier::rlimit(60)]
pub proof fn lemma_groups_decode_encode(gs: Seq<Group>, b: Seq<u8>)
    requires
        groups_decoded_from(gs, b),
        groups_users_zero(b),
    ensures
        groups_bytes(gs) == b,
    decreases b.len(),
{
    if b.len() == 0 {
    } else {
        let n = group_frame(b)->0;
        let f = b.subrange(0, n);
        let rest = gs.subrange(1, gs.len() as int);
        assert(f.subrange(0, 4) =~= b.subrange(0, 4));
        assert(f.subrange(4, 8) =~= b.subrange(4, 8));
        assert(group_frame(f) == Some(n));
        group_decode_encode(f, gs[0]);
        assert(f.subrange(0, n) =~= f);
        lemma_groups_decode_encode(rest, b.subrange(n, b.len() as int));
        assert(gs =~= seq![gs[0]] + rest);
        lemma_groups_bytes_cons(gs[0], rest);
        assert(f + b.subrange(n, b.len() as int) =~= b);
    }
}

/// Decoding a file and encoding it again gives back its bytes, provided the editor-user
/// word of the header record and of every top-level group is 0: that word is not kept
/// (see `VcsInfo`).
#[verifier::rlimit(60)]
pub proof fn esx_decode_encode(b: Seq<u8>, e: ESx)
    requires
        record_frame(b) is Some,
        record_header_from(e.header_record, b),
        stored_data_is(e.header_record.data, e.header_record.raw_flags, b.subrange(24, record_frame(b)->0)),
        groups_decoded_from(e.top_groups@, b.subrange(record_frame(b)->0, b.len() as int)),
        b[18] == 0 && b[19] == 0,
        groups_users_zero(b.subrange(record_frame(b)->0, b.len() as int)),
    ensures
        esx_bytes(e) == b,
{
    let n = record_frame(b)->0;
    record_decode_encode(b, e.header_record);
    lemma_groups_decode_encode(e.top_groups@, b.subrange(n, b.len() as int));
    assert(b.subrange(0, n) + b.subrange(n, b.len() as int) =~= b);
}

/// Whether every group frame of `b` re-encodes exactly once resolved (see
/// `component_canonical`).
pub open spec fn groups_canonical(b: Seq<u8>) -> bool
    decreases b.len(),
{
    if b.len() == 0 {
        true
    } else {
        match group_frame(b) {
            Some(n) => 0 < n <= b.len() && component_canonical(b.subrange(0, n)) && groups_canonical(
                b.subrange(n, b.len() as int),
            ),
            None => false,
        }
    }
}

pub proof fn lemma_groups_process_encode(gs: Seq<Group>, hs: Seq<Group>, b: Seq<u8>)
    requires
        groups_decoded_from(gs, b),
        hs.len() == gs.len(),
        forall|i: int| 0 <= i < gs.len() ==> group_processed(#[trigger] gs[i], hs[i]),
        groups_canonical(b),
    ensures
        groups_bytes(hs) == b,
    decreases b.len(),
{
    if b.len() == 0 {
    } else {
        let n = group_frame(b)->0;
        let f = b.subrange(0, n);
        let rest_b = b.subrange(n, b.len() as int);
        let gs_rest = gs.subrange(1, gs.len() as int);
        let hs_rest = hs.subrange(1, hs.len() as int);
        assert(f.subrange(0, 4) =~= b.subrange(0, 4));
        assert(f.subrange(4, 8) =~= b.subrange(4, 8));
        assert(group_frame(f) == Some(n));
        assert(group_processed(gs[0], hs[0]));
        group_process_encode(f, gs[0], hs[0]);
        assert forall|i: int| 0 <= i < gs_rest.len() implies group_processed(
            #[trigger] gs_rest[i],
            hs_rest[i],
        ) by {
            assert(gs_rest[i] == gs[i + 1] && hs_rest[i] == hs[i + 1]);
        }
        lemma_groups_process_encode(gs_rest, hs_rest, rest_b);
        assert(hs =~= seq![hs[0]] + hs_rest);
        lemma_groups_bytes_cons(hs[0], hs_rest);
        assert(f + rest_b =~= b);
    }
}

/// Decoding a file, resolving it with `ESx::process` and encoding the result gives
/// back its bytes, when the header record and every group frame re-encode exactly
/// once resolved (see `record_frame_canonical` and `component_canonical`).
#[verifier::rlimit(60)]
pub proof fn esx_process_encode(b: Seq<u8>, e: ESx, p: ESx)
    requires
        b.len() >= 4 && b.subrange(0, 4) == tes4_magic(),
        record_frame(b) is Some,
        record_header_from(e.header_record, b),
        stored_data_is(e.header_record.data, e.header_record.raw_flags, b.subrange(24, record_frame(b)->0)),
        groups_decoded_from(e.top_groups@, b.subrange(record_frame(b)->0, b.len() as int)),
        record_processed(e.header_record, p.header_record),
        p.top_groups@.len() == e.top_groups@.len(),
        forall|i: int|
            0 <= i < e.top_groups@.len() ==> group_processed(
                #[trigger] e.top_groups@[i],
                p.top_groups@[i],
            ),
        record_frame_canonical(b.subrange(0, record_frame(b)->0)),
        groups_canonical(b.subrange(record_frame(b)->0, b.len() as int)),
    ensures
        esx_bytes(p) == b,
{
    let n = record_frame(b)->0;
    let f = b.subrange(0, n);
    let h = p.header_record;
    assert(f.subrange(0, 4) =~= b.subrange(0, 4));
    assert(f.subrange(4, 8) =~= b.subrange(4, 8));
    assert(f.subrange(8, 12) =~= b.subrange(8, 12));
    assert(f.subrange(12, 16) =~= b.subrange(12, 16));
    assert(f.subrange(16, 18) =~= b.subrange(16, 18));
    assert(f.subrange(20, 22) =~= b.subrange(20, 22));
    assert(f.subrange(22, 24) =~= b.subrange(22, 24));
    assert(f.subrange(24, f.len() as int) =~= b.subrange(24, n));
    assert(!starts_with_grup(f)) by {
        if starts_with_grup(f) {
            assert(f.subrange(0, 4)[0] == 71u8);
            assert(b.subrange(0, 4)[0] == 84u8);
        }
    }
    assert(record_resolved_from(h, f));
    assert(component_resolved_from(GroupDataComponent::Record(h), f));
    component_resolve_encode(GroupDataComponent::Record(h), f);
    lemma_groups_process_encode(e.top_groups@, p.top_groups@, b.subrange(n, b.len() as int));
    assert(f + b.subrange(n, b.len() as int) =~= b);
}

} // verus!
