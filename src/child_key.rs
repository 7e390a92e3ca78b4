//! An ordering of the records and groups that share a parent, by identity. Nothing in
//! decoding or encoding uses it; it is offered to tools that sort or compare trees.
use crate::form_id::FormID;
use crate::group::Group;
use crate::group_label::GroupLabel;
use crate::record::Record;
use crate::signature::{signature_name, Signature};
use core::cmp::Ordering;
use vstd::prelude::*;
use vstd::std_specs::iter::IteratorSpec;

verus! {

/// The lexicographic order of two character sequences, by code point.
pub open spec fn lex_cmp(a: Seq<char>, b: Seq<char>) -> Ordering
    decreases a.len(),
{
    if a.len() == 0 && b.len() == 0 {
        Ordering::Equal
    } else if a.len() == 0 {
        Ordering::Less
    } else if b.len() == 0 {
        Ordering::Greater
    } else if (a[0] as u32) < (b[0] as u32) {
        Ordering::Less
    } else if (a[0] as u32) > (b[0] as u32) {
        Ordering::Greater
    } else {
        lex_cmp(a.drop_first(), b.drop_first())
    }
}

/// The order of two integers.
pub open spec fn int_cmp(a: int, b: int) -> Ordering {
    if a < b {
        Ordering::Less
    } else if a > b {
        Ordering::Greater
    } else {
        Ordering::Equal
    }
}

/// `first`, unless it is `Equal`, in which case `then`.
pub open spec fn then_cmp(first: Ordering, then: Ordering) -> Ordering {
    if first is Equal {
        then
    } else {
        first
    }
}

/// The opposite order.
pub open spec fn reverse_cmp(o: Ordering) -> Ordering {
    match o {
        Ordering::Less => Ordering::Greater,
        Ordering::Greater => Ordering::Less,
        Ordering::Equal => Ordering::Equal,
    }
}

/// The order of two tags: by their names (see `signature_name`).
pub open spec fn signature_cmp(a: Signature, b: Signature) -> Ordering {
    lex_cmp(signature_name(a.0@), signature_name(b.0@))
}

/// The order of two byte sequences of the same length, byte by byte.
pub open spec fn bytes_cmp(a: Seq<u8>, b: Seq<u8>) -> Ordering
    decreases a.len(),
{
    if a.len() == 0 || b.len() == 0 {
        Ordering::Equal
    } else {
        then_cmp(int_cmp(a[0] as int, b[0] as int), bytes_cmp(a.drop_first(), b.drop_first()))
    }
}

/// The position of a label's kind in the declaration of `GroupLabel`.
pub open spec fn label_rank(l: GroupLabel) -> int {
    match l {
        GroupLabel::Top(_) => 0,
        GroupLabel::WorldChildren(_) => 1,
        GroupLabel::InteriorCellBlock(_) => 2,
        GroupLabel::InteriorCellSubBlock(_) => 3,
        GroupLabel::ExteriorCellBlock { .. } => 4,
        GroupLabel::ExteriorCellSubBlock { .. } => 5,
        GroupLabel::CellChildren(_) => 6,
        GroupLabel::TopicChildren(_) => 7,
        GroupLabel::CellPersistentChildren(_) => 8,
        GroupLabel::CellTemporaryChildren(_) => 9,
        GroupLabel::QuestScene(_) => 10,
        GroupLabel::Raw { .. } => 11,
    }
}

/// The order of two labels: by kind, in declaration order, then by payload, field by
/// field; tags by name, identifiers and block numbers by value, raw labels by their
/// bytes and then their discriminant.
pub open spec fn label_cmp(a: GroupLabel, b: GroupLabel) -> Ordering {
    if label_rank(a) != label_rank(b) {
        int_cmp(label_rank(a), label_rank(b))
    } else {
        match (a, b) {
            (GroupLabel::Top(x), GroupLabel::Top(y)) => signature_cmp(x, y),
            (GroupLabel::WorldChildren(x), GroupLabel::WorldChildren(y)) => int_cmp(x.0 as int, y.0 as int),
            (GroupLabel::InteriorCellBlock(x), GroupLabel::InteriorCellBlock(y)) => int_cmp(x as int, y as int),
            (GroupLabel::InteriorCellSubBlock(x), GroupLabel::InteriorCellSubBlock(y)) => int_cmp(x as int, y as int),
            (GroupLabel::ExteriorCellBlock { x: ax, y: ay }, GroupLabel::ExteriorCellBlock { x: bx, y: by }) =>
                then_cmp(int_cmp(ax as int, bx as int), int_cmp(ay as int, by as int)),
            (GroupLabel::ExteriorCellSubBlock { x: ax, y: ay }, GroupLabel::ExteriorCellSubBlock { x: bx, y: by }) =>
                then_cmp(int_cmp(ax as int, bx as int), int_cmp(ay as int, by as int)),
            (GroupLabel::CellChildren(x), GroupLabel::CellChildren(y)) => int_cmp(x.0 as int, y.0 as int),
            (GroupLabel::TopicChildren(x), GroupLabel::TopicChildren(y)) => int_cmp(x.0 as int, y.0 as int),
            (GroupLabel::CellPersistentChildren(x), GroupLabel::CellPersistentChildren(y)) => int_cmp(x.0 as int, y.0 as int),
            (GroupLabel::CellTemporaryChildren(x), GroupLabel::CellTemporaryChildren(y)) => int_cmp(x.0 as int, y.0 as int),
            (GroupLabel::QuestScene(x), GroupLabel::QuestScene(y)) => int_cmp(x.0 as int, y.0 as int),
            (GroupLabel::Raw { label: la, label_type: ta }, GroupLabel::Raw { label: lb, label_type: tb }) =>
                then_cmp(bytes_cmp(la@, lb@), int_cmp(ta as int, tb as int)),
            _ => Ordering::Equal,
        }
    }
}

fn chars_of(s: &str) -> (r: Vec<char>)
    ensures
        r@ == s@,
{
    broadcast use vstd::string::axiom_spec_iter, vstd::string::next_postcondition;

    let mut it = s.chars();
    let mut out: Vec<char> = Vec::new();
    loop
        invariant
            out@ + it.remaining() == s@,
        ensures
            out@ == s@,
        decreases s@.len() - out@.len(),
    {
        let ghost before = it.remaining();
        match it.next() {
            Some(c) => {
                assert(out@.push(c) + it.remaining() =~= out@ + before);
                out.push(c);
            },
            None => {
                assert(out@ =~= s@);
                break;
            },
        }
    }
    out
}

fn is_equal(o: Ordering) -> (r: bool)
    ensures
        r == (o is Equal),
{
    match o {
        Ordering::Equal => true,
        _ => false,
    }
}

fn cmp_u64(a: u64, b: u64) -> (r: Ordering)
    ensures
        r == int_cmp(a as int, b as int),
{
    if a < b {
        Ordering::Less
    } else if a > b {
        Ordering::Greater
    } else {
        Ordering::Equal
    }
}

fn cmp_i64(a: i64, b: i64) -> (r: Ordering)
    ensures
        r == int_cmp(a as int, b as int),
{
    if a < b {
        Ordering::Less
    } else if a > b {
        Ordering::Greater
    } else {
        Ordering::Equal
    }
}

fn lex_cmp_exec(a: &Vec<char>, b: &Vec<char>) -> (r: Ordering)
    ensures
        r == lex_cmp(a@, b@),
{
    let mut i: usize = 0;
    assert(a@.subrange(0, a@.len() as int) =~= a@);
    assert(b@.subrange(0, b@.len() as int) =~= b@);
    while i < a.len() && i < b.len()
        invariant
            i <= a@.len(),
            i <= b@.len(),
            lex_cmp(a@, b@) == lex_cmp(a@.subrange(i as int, a@.len() as int), b@.subrange(i as int, b@.len() as int)),
        decreases a@.len() - i,
    {
        let ghost sa = a@.subrange(i as int, a@.len() as int);
        let ghost sb = b@.subrange(i as int, b@.len() as int);
        assert(sa[0] == a@[i as int] && sb[0] == b@[i as int]);
        if (a[i] as u32) < (b[i] as u32) {
            return Ordering::Less;
        }
        if (a[i] as u32) > (b[i] as u32) {
            return Ordering::Greater;
        }
        assert(sa.drop_first() =~= a@.subrange(i + 1, a@.len() as int));
        assert(sb.drop_first() =~= b@.subrange(i + 1, b@.len() as int));
        i = i + 1;
    }
    if i < a.len() {
        Ordering::Greater
    } else if i < b.len() {
        Ordering::Less
    } else {
        Ordering::Equal
    }
}

impl Signature {
    /// Orders two tags by their names, so that tags that read the same sort together.
    pub fn compare(&self, other: &Signature) -> (r: Ordering)
        ensures
            r == signature_cmp(*self, *other),
    {
        let a = self.as_string();
        let b = other.as_string();
        let ca = chars_of(a.as_str());
        let cb = chars_of(b.as_str());
        lex_cmp_exec(&ca, &cb)
    }
}

fn rank(l: &GroupLabel) -> (r: u8)
    ensures
        r == label_rank(*l),
{
    match l {
        GroupLabel::Top(_) => 0,
        GroupLabel::WorldChildren(_) => 1,
        GroupLabel::InteriorCellBlock(_) => 2,
        GroupLabel::InteriorCellSubBlock(_) => 3,
        GroupLabel::ExteriorCellBlock { .. } => 4,
        GroupLabel::ExteriorCellSubBlock { .. } => 5,
        GroupLabel::CellChildren(_) => 6,
        GroupLabel::TopicChildren(_) => 7,
        GroupLabel::CellPersistentChildren(_) => 8,
        GroupLabel::CellTemporaryChildren(_) => 9,
        GroupLabel::QuestScene(_) => 10,
        GroupLabel::Raw { .. } => 11,
    }
}

fn cmp_bytes4(a: &[u8; 4], b: &[u8; 4]) -> (r: Ordering)
    ensures
        r == bytes_cmp(a@, b@),
{
    let ghost s0 = a@;
    let ghost t0 = b@;
    assert(s0.drop_first().drop_first().drop_first().drop_first().len() == 0);
    let c0 = cmp_u64(a[0] as u64, b[0] as u64);
    let c1 = cmp_u64(a[1] as u64, b[1] as u64);
    let c2 = cmp_u64(a[2] as u64, b[2] as u64);
    let c3 = cmp_u64(a[3] as u64, b[3] as u64);
    proof {
        reveal_with_fuel(bytes_cmp, 5);
        assert(s0.drop_first()[0] == s0[1] && s0.drop_first().drop_first()[0] == s0[2]);
        assert(s0.drop_first().drop_first().drop_first()[0] == s0[3]);
        assert(t0.drop_first()[0] == t0[1] && t0.drop_first().drop_first()[0] == t0[2]);
        assert(t0.drop_first().drop_first().drop_first()[0] == t0[3]);
    }
    if !is_equal(c0) {
        c0
    } else if !is_equal(c1) {
        c1
    } else if !is_equal(c2) {
        c2
    } else {
        c3
    }
}

impl GroupLabel {
    /// Orders two labels as `label_cmp` says.
    pub fn compare(&self, other: &GroupLabel) -> (r: Ordering)
        ensures
            r == label_cmp(*self, *other),
    {
        let ra = rank(self);
        let rb = rank(other);
        if ra != rb {
            return cmp_u64(ra as u64, rb as u64);
        }
        match (self, other) {
            (GroupLabel::Top(x), GroupLabel::Top(y)) => x.compare(y),
            (GroupLabel::WorldChildren(x), GroupLabel::WorldChildren(y)) => cmp_u64(x.0 as u64, y.0 as u64),
            (GroupLabel::InteriorCellBlock(x), GroupLabel::InteriorCellBlock(y)) => cmp_i64(*x as i64, *y as i64),
            (GroupLabel::InteriorCellSubBlock(x), GroupLabel::InteriorCellSubBlock(y)) => cmp_i64(*x as i64, *y as i64),
            (GroupLabel::ExteriorCellBlock { x: ax, y: ay }, GroupLabel::ExteriorCellBlock { x: bx, y: by }) => {
                let c = cmp_i64(*ax as i64, *bx as i64);
                if is_equal(c) { cmp_i64(*ay as i64, *by as i64) } else { c }
            },
            (GroupLabel::ExteriorCellSubBlock { x: ax, y: ay }, GroupLabel::ExteriorCellSubBlock { x: bx, y: by }) => {
                let c = cmp_i64(*ax as i64, *bx as i64);
                if is_equal(c) { cmp_i64(*ay as i64, *by as i64) } else { c }
            },
            (GroupLabel::CellChildren(x), GroupLabel::CellChildren(y)) => cmp_u64(x.0 as u64, y.0 as u64),
            (GroupLabel::TopicChildren(x), GroupLabel::TopicChildren(y)) => cmp_u64(x.0 as u64, y.0 as u64),
            (GroupLabel::CellPersistentChildren(x), GroupLabel::CellPersistentChildren(y)) => cmp_u64(x.0 as u64, y.0 as u64),
            (GroupLabel::CellTemporaryChildren(x), GroupLabel::CellTemporaryChildren(y)) => cmp_u64(x.0 as u64, y.0 as u64),
            (GroupLabel::QuestScene(x), GroupLabel::QuestScene(y)) => cmp_u64(x.0 as u64, y.0 as u64),
            (GroupLabel::Raw { label: la, label_type: ta }, GroupLabel::Raw { label: lb, label_type: tb }) => {
                let c = cmp_bytes4(la, lb);
                if is_equal(c) { cmp_u64(*ta as u64, *tb as u64) } else { c }
            },
            _ => Ordering::Equal,
        }
    }
}

/// The identity of a child of a group: a record's identifier, a group's label, or
/// neither.
#[derive(Debug, Clone, Copy, PartialEq, Eq, Hash)]
pub enum ChildKey {
    Record(FormID),
    Group(GroupLabel),
    Raw,
}

/// The order of a record against a group under the same parent: after groups that
/// hold records by type or by cell block, before raw-labelled groups, and against a
/// group of some parent's children by identifier, the parent record first.
pub open spec fn record_group_cmp(r: FormID, g: GroupLabel) -> Ordering {
    match g {
        GroupLabel::Top(_) | GroupLabel::InteriorCellBlock(_) | GroupLabel::InteriorCellSubBlock(_)
        | GroupLabel::ExteriorCellBlock { .. } | GroupLabel::ExteriorCellSubBlock { .. } => Ordering::Greater,
        GroupLabel::WorldChildren(b) | GroupLabel::CellChildren(b) | GroupLabel::TopicChildren(b)
        | GroupLabel::CellPersistentChildren(b) | GroupLabel::CellTemporaryChildren(b)
        | GroupLabel::QuestScene(b) => {
            let c = int_cmp(r.0 as int, b.0 as int);
            if c is Equal {
                Ordering::Less
            } else {
                c
            }
        },
        GroupLabel::Raw { .. } => Ordering::Less,
    }
}

/// The order of two child keys: records by identifier, groups by label, a record
/// against a group by `record_group_cmp`, and keys of neither kind last.
pub open spec fn child_key_cmp(a: ChildKey, b: ChildKey) -> Ordering {
    match (a, b) {
        (ChildKey::Record(x), ChildKey::Record(y)) => int_cmp(x.0 as int, y.0 as int),
        (ChildKey::Group(x), ChildKey::Group(y)) => label_cmp(x, y),
        (ChildKey::Record(x), ChildKey::Group(y)) => record_group_cmp(x, y),
        (ChildKey::Group(x), ChildKey::Record(y)) => reverse_cmp(record_group_cmp(y, x)),
        (ChildKey::Raw, ChildKey::Raw) => Ordering::Equal,
        (_, ChildKey::Raw) => Ordering::Less,
        (ChildKey::Raw, _) => Ordering::Greater,
    }
}

fn record_group_compare(r: &FormID, g: &GroupLabel) -> (o: Ordering)
    ensures
        o == record_group_cmp(*r, *g),
{
    match g {
        GroupLabel::Top(_) | GroupLabel::InteriorCellBlock(_) | GroupLabel::InteriorCellSubBlock(_)
        | GroupLabel::ExteriorCellBlock { .. } | GroupLabel::ExteriorCellSubBlock { .. } => Ordering::Greater,
        GroupLabel::WorldChildren(b) | GroupLabel::CellChildren(b) | GroupLabel::TopicChildren(b)
        | GroupLabel::CellPersistentChildren(b) | GroupLabel::CellTemporaryChildren(b)
        | GroupLabel::QuestScene(b) => {
            let c = cmp_u64(r.0 as u64, b.0 as u64);
            if is_equal(c) {
                Ordering::Less
            } else {
                c
            }
        },
        GroupLabel::Raw { .. } => Ordering::Less,
    }
}

fn reverse(o: Ordering) -> (r: Ordering)
    ensures
        r == reverse_cmp(o),
{
    match o {
        Ordering::Less => Ordering::Greater,
        Ordering::Greater => Ordering::Less,
        Ordering::Equal => Ordering::Equal,
    }
}

impl ChildKey {
    /// The key of a record: its identifier.
    pub fn from_record(record: &Record) -> (k: ChildKey)
        ensures
            k == ChildKey::Record(record.form_id),
    {
        ChildKey::Record(record.form_id)
    }

    /// The key of a group: its label.
    pub fn from_group(group: &Group) -> (k: ChildKey)
        ensures
            k == ChildKey::Group(group.label),
    {
        ChildKey::Group(group.label)
    }

    /// Orders two keys as `child_key_cmp` says.
    pub fn compare(&self, other: &ChildKey) -> (r: Ordering)
        ensures
            r == child_key_cmp(*self, *other),
    {
        match (self, other) {
            (ChildKey::Record(a), ChildKey::Record(b)) => cmp_u64(a.0 as u64, b.0 as u64),
            (ChildKey::Group(a), ChildKey::Group(b)) => a.compare(b),
            (ChildKey::Record(a), ChildKey::Group(b)) => record_group_compare(a, b),
            (ChildKey::Group(a), ChildKey::Record(b)) => reverse(record_group_compare(b, a)),
            (ChildKey::Raw, ChildKey::Raw) => Ordering::Equal,
            (_, ChildKey::Raw) => Ordering::Less,
            (ChildKey::Raw, _) => Ordering::Greater,
        }
    }
}

} // verus!
