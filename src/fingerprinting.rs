//! Guessing what kind of data field payloads hold, from their bytes alone.
use crate::field::{Field, FieldData};
use crate::le::le16;
use vstd::prelude::*;

verus! {

/// A guess at what a payload holds. The string kinds carry the payload length: a
/// `B` string starts with a one-byte length, a `W` string with a two-byte length, and
/// a `Z` string ends with a zero byte.
#[derive(Debug, Clone, Copy, PartialEq, Eq, Structural, Hash)]
pub enum FieldDataType {
    Unknown(usize),
    Null,
    Char,
    WChar,
    VariableValue,
    FileTime,
    SystemTime,
    BString(usize),
    BZString(usize),
    WString(usize),
    WZString(usize),
    ZString(usize),
    String(usize),
}

/// Whether every byte is ASCII.
pub open spec fn all_ascii(b: Seq<u8>) -> bool {
    forall|i: int| 0 <= i < b.len() ==> b[i] < 128
}

/// The kind of a payload: `Null` when empty; a string kind when the bytes between the
/// length prefix (one byte when it equals the remaining length, two bytes when those
/// do) and the final zero (if any) are non-empty ASCII; `Unknown` otherwise. When the
/// prefix would overlap the final zero, the text checked is a single zero byte.
pub open spec fn data_type_of(d: Seq<u8>) -> FieldDataType {
    let len = d.len();
    if len == 0 {
        FieldDataType::Null
    } else {
        let u8_match = d[0] + 1 == len;
        let u16_match = len >= 2 && le16(d.subrange(0, 2)) + 2 == len;
        let nullterm = d[len - 1] == 0;
        let end = if nullterm { len - 1 } else { len as int };
        let start = if u16_match { 2int } else if u8_match { 1int } else { 0int };
        let text = if start <= end { d.subrange(start, end) } else { seq![0u8] };
        let l = len as usize;
        if text.len() > 0 && all_ascii(text) {
            if u16_match {
                if nullterm { FieldDataType::WZString(l) } else { FieldDataType::WString(l) }
            } else if u8_match {
                if nullterm { FieldDataType::BZString(l) } else { FieldDataType::BString(l) }
            } else {
                if nullterm { FieldDataType::ZString(l) } else { FieldDataType::String(l) }
            }
        } else {
            FieldDataType::Unknown(l)
        }
    }
}

/// The kind of a field's payload; an empty payload is `Null`.
pub open spec fn field_data_type(f: Field) -> FieldDataType {
    data_type_of(f.data.payload())
}

/// The number of fields in `fs` whose payload is of kind `t`.
pub open spec fn type_count(fs: Seq<Field>, t: FieldDataType) -> nat
    decreases fs.len(),
{
    if fs.len() == 0 {
        0
    } else {
        type_count(fs.drop_last(), t) + if field_data_type(fs.last()) == t {
            1nat
        } else {
            0nat
        }
    }
}

/// The number stored for kind `t` in `entries`; 0 when it has no entry.
pub open spec fn type_tally(entries: Seq<(FieldDataType, u32)>, t: FieldDataType) -> nat
    decreases entries.len(),
{
    if entries.len() == 0 {
        0
    } else if entries.last().0 == t {
        entries.last().1 as nat
    } else {
        type_tally(entries.drop_last(), t)
    }
}

/// Whether the kinds of `entries` are unique.
pub open spec fn unique_types(entries: Seq<(FieldDataType, u32)>) -> bool {
    forall|i: int, j: int| 0 <= i < j < entries.len() ==> (#[trigger] entries[i]).0 != (#[trigger] entries[j]).0
}

/// How many payloads of each kind a set of fields holds.
#[derive(Debug, PartialEq, Eq)]
pub struct FieldFingerprint {
    data_types: Vec<(FieldDataType, u32)>,
}

/// Guessing the kinds of the payloads of a set of fields.
pub trait FieldFingerprinting {
    /// The fields whose payloads are looked at.
    spec fn fingerprinted_fields(&self) -> Seq<Field>;

    /// How many payloads of each kind the fields hold.
    fn fingerprint(&self) -> (r: FieldFingerprint)
        requires
            self.fingerprinted_fields().len() <= u32::MAX,
        ensures
            forall|t: FieldDataType| #[trigger] r.tally(t) == type_count(self.fingerprinted_fields(), t),
    ;
}

impl FieldFingerprint {
    /// The number of payloads of kind `t`.
    pub closed spec fn tally(&self, t: FieldDataType) -> nat {
        type_tally(self.data_types@, t)
    }

    /// One entry per kind met, with its count, in the order in which the kinds were first
    /// met.
    pub fn get_data_types(&self) -> (r: &Vec<(FieldDataType, u32)>)
        ensures
            forall|t: FieldDataType| #[trigger] type_tally(r@, t) == self.tally(t),
    {
        &self.data_types
    }
}

pub proof fn lemma_type_tally_at(entries: Seq<(FieldDataType, u32)>, i: int)
    requires
        unique_types(entries),
        0 <= i < entries.len(),
    ensures
        type_tally(entries, entries[i].0) == entries[i].1,
    decreases entries.len(),
{
    if i < entries.len() - 1 {
        assert(entries.last() == entries[entries.len() - 1]);
        lemma_type_tally_at(entries.drop_last(), i);
    }
}

pub proof fn lemma_type_tally_absent(entries: Seq<(FieldDataType, u32)>, t: FieldDataType)
    requires
        forall|i: int| 0 <= i < entries.len() ==> (#[trigger] entries[i]).0 != t,
    ensures
        type_tally(entries, t) == 0,
    decreases entries.len(),
{
    if entries.len() > 0 {
        assert(entries.last() == entries[entries.len() - 1]);
        lemma_type_tally_absent(entries.drop_last(), t);
    }
}

pub proof fn lemma_type_tally_update(
    entries: Seq<(FieldDataType, u32)>,
    i: int,
    e: (FieldDataType, u32),
    t: FieldDataType,
)
    requires
        unique_types(entries),
        0 <= i < entries.len(),
        e.0 == entries[i].0,
    ensures
        type_tally(entries.update(i, e), t) == if t == e.0 {
            e.1 as nat
        } else {
            type_tally(entries, t)
        },
    decreases entries.len(),
{
    let u = entries.update(i, e);
    if i == entries.len() - 1 {
        assert(u.drop_last() =~= entries.drop_last());
    } else {
        assert(u.drop_last() =~= entries.drop_last().update(i, e));
        assert(u.last() == entries.last());
        lemma_type_tally_update(entries.drop_last(), i, e, t);
        if t == e.0 {
            assert(entries.last() == entries[entries.len() - 1]);
        }
    }
}

fn find_type(entries: &Vec<(FieldDataType, u32)>, t: FieldDataType) -> (r: Option<usize>)
    ensures
        match r {
            Some(i) => i < entries@.len() && entries@[i as int].0 == t,
            None => forall|i: int| 0 <= i < entries@.len() ==> (#[trigger] entries@[i]).0 != t,
        },
{
    let mut i: usize = 0;
    while i < entries.len()
        invariant
            i <= entries@.len(),
            forall|j: int| 0 <= j < i ==> (#[trigger] entries@[j]).0 != t,
        decreases entries@.len() - i,
    {
        if entries[i].0 == t {
            return Some(i);
        }
        i = i + 1;
    }
    None
}

/// Counts the kinds of the payloads of `fields`.
pub fn fingerprint_fields(fields: &Vec<&Field>) -> (r: FieldFingerprint)
    requires
        fields@.len() <= u32::MAX,
    ensures
        forall|t: FieldDataType| #[trigger] r.tally(t) == type_count(fields@.map_values(|f: &Field| *f), t),
{
    let ghost all = fields@.map_values(|f: &Field| *f);
    let mut entries: Vec<(FieldDataType, u32)> = Vec::new();
    let mut i: usize = 0;
    while i < fields.len()
        invariant
            i <= fields@.len(),
            fields@.len() <= u32::MAX,
            all == fields@.map_values(|f: &Field| *f),
            unique_types(entries@),
            forall|t: FieldDataType| #[trigger] type_tally(entries@, t) == type_count(all.subrange(0, i as int), t),
            forall|t: FieldDataType| #[trigger] type_count(all.subrange(0, i as int), t) <= i,
        decreases fields@.len() - i,
    {
        let t = match &fields[i].data {
            FieldData::Empty => FieldDataType::Null,
            FieldData::Raw(d) => data_type(d.as_slice()),
        };
        let ghost before = entries@;
        proof {
            assert(all[i as int] == *fields@[i as int]);
            assert(t == field_data_type(all[i as int]));
            assert forall|u: FieldDataType| #[trigger] type_count(all.subrange(0, i + 1), u) == type_count(
                all.subrange(0, i as int),
                u,
            ) + if field_data_type(all[i as int]) == u {
                1nat
            } else {
                0nat
            } by {
                assert(all.subrange(0, i + 1).drop_last() =~= all.subrange(0, i as int));
            }
            assert(type_tally(before, t) == type_count(all.subrange(0, i as int), t));
            assert(type_count(all.subrange(0, i as int), t) <= i);
        }
        match find_type(&entries, t) {
            Some(j) => {
                let c = entries[j].1;
                proof {
                    lemma_type_tally_at(entries@, j as int);
                }
                let e = (t, c + 1);
                entries.set(j, e);
                proof {
                    assert forall|u: FieldDataType| #[trigger] type_tally(entries@, u) == type_count(
                        all.subrange(0, i + 1),
                        u,
                    ) by {
                        lemma_type_tally_update(before, j as int, e, u);
                        assert(type_tally(before, u) == type_count(all.subrange(0, i as int), u));
                    }
                }
            },
            None => {
                entries.push((t, 1));
                proof {
                    assert(entries@.drop_last() =~= before);
                    assert forall|u: FieldDataType| #[trigger] type_tally(entries@, u) == type_count(
                        all.subrange(0, i + 1),
                        u,
                    ) by {
                        assert(type_tally(before, u) == type_count(all.subrange(0, i as int), u));
                        assert(entries@.last() == (t, 1u32));
                        if u == t {
                            lemma_type_tally_absent(before, u);
                        }
                    }
                }
            },
        }
        i = i + 1;
    }
    assert(all.subrange(0, fields@.len() as int) =~= all);
    FieldFingerprint { data_types: entries }
}

impl<'a> FieldFingerprinting for Vec<&'a Field> {
    open spec fn fingerprinted_fields(&self) -> Seq<Field> {
        self@.map_values(|f: &Field| *f)
    }

    fn fingerprint(&self) -> (r: FieldFingerprint) {
        fingerprint_fields(self)
    }
}

fn is_ascii_range(d: &[u8], start: usize, end: usize) -> (r: bool)
    requires
        start <= end <= d@.len(),
    ensures
        r == all_ascii(d@.subrange(start as int, end as int)),
{
    let mut i = start;
    while i < end
        invariant
            start <= i <= end,
            end <= d@.len(),
            forall|j: int| start <= j < i ==> d@[j] < 128,
        decreases end - i,
    {
        if d[i] >= 128 {
            assert(d@.subrange(start as int, end as int)[i - start] >= 128);
            return false;
        }
        i = i + 1;
    }
    assert forall|j: int| 0 <= j < end - start implies d@.subrange(start as int, end as int)[j] < 128 by {
        assert(d@.subrange(start as int, end as int)[j] == d@[start + j]);
    }
    true
}

/// The kind of a payload, as `data_type_of` gives it.
pub fn data_type(d: &[u8]) -> (r: FieldDataType)
    ensures
        r == data_type_of(d@),
{
    let len = d.len();
    if len == 0 {
        return FieldDataType::Null;
    }
    let u8_match = d[0] as usize + 1 == len;
    let u16_match = len >= 2 && d[0] as usize + (d[1] as usize) * 256 + 2 == len;
    proof {
        if len >= 2 {
            assert(le16(d@.subrange(0, 2)) == d@[0] + 256 * d@[1]);
        }
    }
    let nullterm = d[len - 1] == 0;
    let end: usize = if nullterm { len - 1 } else { len };
    let start: usize = if u16_match { 2 } else if u8_match { 1 } else { 0 };
    let ascii = if start <= end {
        end > start && is_ascii_range(d, start, end)
    } else {
        assert(all_ascii(seq![0u8]));
        true
    };
    if ascii {
        if u16_match {
            if nullterm { FieldDataType::WZString(len) } else { FieldDataType::WString(len) }
        } else if u8_match {
            if nullterm { FieldDataType::BZString(len) } else { FieldDataType::BString(len) }
        } else {
            if nullterm { FieldDataType::ZString(len) } else { FieldDataType::String(len) }
        }
    } else {
        FieldDataType::Unknown(len)
    }
}

} // verus!
