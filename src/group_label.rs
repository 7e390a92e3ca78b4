//! Group labels: eight bytes whose last four select how the first four are read.
use crate::error::{Error, Result};
use crate::form_id::FormID;
use crate::le::{
    i16_from_bits, i16_to_bits, i32_from_bits, i32_to_bits, le16, le16_bytes, le32, le32_bytes,
    lemma_le16_bytes_of, lemma_le32_bytes_of,
    push_all, push_u16_le, push_u32_le, read_u16_le, read_u32_le, signed16, signed32, unsigned16,
    unsigned32,
};
use crate::signature::Signature;
use vstd::prelude::*;

verus! {

/// What a group holds, as its label says. `Raw` is a label not yet resolved: its
/// four payload bytes and its discriminant, kept as read.
#[derive(Debug, Clone, Copy, PartialEq, Eq, Hash)]
pub enum GroupLabel {
    /// Discriminant 0: the records of one type.
    Top(Signature),
    /// Discriminant 1: the children of a worldspace.
    WorldChildren(FormID),
    /// Discriminant 2: an interior cell block.
    InteriorCellBlock(i32),
    /// Discriminant 3: an interior cell sub-block.
    InteriorCellSubBlock(i32),
    /// Discriminant 4: an exterior cell block; Y comes first on the wire.
    ExteriorCellBlock { x: i16, y: i16 },
    /// Discriminant 5: an exterior cell sub-block; Y comes first on the wire.
    ExteriorCellSubBlock { x: i16, y: i16 },
    /// Discriminant 6: the children of a cell.
    CellChildren(FormID),
    /// Discriminant 7: the children of a dialogue topic.
    TopicChildren(FormID),
    /// Discriminant 8: the persistent children of a cell.
    CellPersistentChildren(FormID),
    /// Discriminant 9: the temporary children of a cell.
    CellTemporaryChildren(FormID),
    /// Discriminant 10: the scenes of a quest.
    QuestScene(FormID),
    Raw { label: [u8; 4], label_type: u32 },
}

/// The four payload bytes of two signed 16-bit coordinates, Y first.
pub open spec fn coord_bytes(x: i16, y: i16) -> Seq<u8> {
    le16_bytes(unsigned16(y as int)) + le16_bytes(unsigned16(x as int))
}

/// The eight wire bytes of a label: payload, then little-endian discriminant.
pub open spec fn label_bytes(l: GroupLabel) -> Seq<u8> {
    match l {
        GroupLabel::Top(s) => s.0@ + le32_bytes(0),
        GroupLabel::WorldChildren(id) => le32_bytes(id.0 as int) + le32_bytes(1),
        GroupLabel::InteriorCellBlock(b) => le32_bytes(unsigned32(b as int)) + le32_bytes(2),
        GroupLabel::InteriorCellSubBlock(b) => le32_bytes(unsigned32(b as int)) + le32_bytes(3),
        GroupLabel::ExteriorCellBlock { x, y } => coord_bytes(x, y) + le32_bytes(4),
        GroupLabel::ExteriorCellSubBlock { x, y } => coord_bytes(x, y) + le32_bytes(5),
        GroupLabel::CellChildren(id) => le32_bytes(id.0 as int) + le32_bytes(6),
        GroupLabel::TopicChildren(id) => le32_bytes(id.0 as int) + le32_bytes(7),
        GroupLabel::CellPersistentChildren(id) => le32_bytes(id.0 as int) + le32_bytes(8),
        GroupLabel::CellTemporaryChildren(id) => le32_bytes(id.0 as int) + le32_bytes(9),
        GroupLabel::QuestScene(id) => le32_bytes(id.0 as int) + le32_bytes(10),
        GroupLabel::Raw { label, label_type } => label@ + le32_bytes(label_type as int),
    }
}

/// Whether `l` is the label that four payload bytes `p` and the discriminant `t`
/// stand for, as the discriminant table gives it. No label stands for a discriminant
/// outside `0..=10`.
pub open spec fn resolves_to(p: Seq<u8>, t: u32, l: GroupLabel) -> bool {
    let id = le32(p);
    let block = signed32(le32(p));
    let y = signed16(le16(p.subrange(0, 2)));
    let x = signed16(le16(p.subrange(2, 4)));
    match l {
        GroupLabel::Top(s) => t == 0 && s.0@ == p,
        GroupLabel::WorldChildren(f) => t == 1 && f.0 == id,
        GroupLabel::InteriorCellBlock(b) => t == 2 && b == block,
        GroupLabel::InteriorCellSubBlock(b) => t == 3 && b == block,
        GroupLabel::ExteriorCellBlock { x: lx, y: ly } => t == 4 && lx == x && ly == y,
        GroupLabel::ExteriorCellSubBlock { x: lx, y: ly } => t == 5 && lx == x && ly == y,
        GroupLabel::CellChildren(f) => t == 6 && f.0 == id,
        GroupLabel::TopicChildren(f) => t == 7 && f.0 == id,
        GroupLabel::CellPersistentChildren(f) => t == 8 && f.0 == id,
        GroupLabel::CellTemporaryChildren(f) => t == 9 && f.0 == id,
        GroupLabel::QuestScene(f) => t == 10 && f.0 == id,
        GroupLabel::Raw { .. } => false,
    }
}

/// The label that resolving `l` gives: the interpretation of a raw label whose
/// discriminant is known, or `l` itself for a label already resolved.
pub open spec fn resolved_label_is(l: GroupLabel, r: GroupLabel) -> bool {
    match l {
        GroupLabel::Raw { label, label_type } => resolves_to(label@, label_type, r),
        _ => r == l,
    }
}

impl GroupLabel {
    /// The eight wire bytes of the label, as `label_bytes` gives them.
    pub fn as_bytes(&self) -> (r: Vec<u8>)
        ensures
            r@ == label_bytes(*self),
    {
        let mut b: Vec<u8> = Vec::new();
        match self {
            GroupLabel::Raw { label, label_type } => {
                push_all(&mut b, label.as_slice());
                push_u32_le(&mut b, *label_type);
            },
            GroupLabel::Top(s) => {
                push_all(&mut b, s.as_slice());
                push_u32_le(&mut b, 0);
            },
            GroupLabel::WorldChildren(id) => {
                push_u32_le(&mut b, id.0);
                push_u32_le(&mut b, 1);
            },
            GroupLabel::InteriorCellBlock(block) => {
                push_u32_le(&mut b, i32_to_bits(*block));
                push_u32_le(&mut b, 2);
            },
            GroupLabel::InteriorCellSubBlock(block) => {
                push_u32_le(&mut b, i32_to_bits(*block));
                push_u32_le(&mut b, 3);
            },
            GroupLabel::ExteriorCellBlock { x, y } => {
                push_u16_le(&mut b, i16_to_bits(*y));
                push_u16_le(&mut b, i16_to_bits(*x));
                push_u32_le(&mut b, 4);
            },
            GroupLabel::ExteriorCellSubBlock { x, y } => {
                push_u16_le(&mut b, i16_to_bits(*y));
                push_u16_le(&mut b, i16_to_bits(*x));
                push_u32_le(&mut b, 5);
            },
            GroupLabel::CellChildren(id) => {
                push_u32_le(&mut b, id.0);
                push_u32_le(&mut b, 6);
            },
            GroupLabel::TopicChildren(id) => {
                push_u32_le(&mut b, id.0);
                push_u32_le(&mut b, 7);
            },
            GroupLabel::CellPersistentChildren(id) => {
                push_u32_le(&mut b, id.0);
                push_u32_le(&mut b, 8);
            },
            GroupLabel::CellTemporaryChildren(id) => {
                push_u32_le(&mut b, id.0);
                push_u32_le(&mut b, 9);
            },
            GroupLabel::QuestScene(id) => {
                push_u32_le(&mut b, id.0);
                push_u32_le(&mut b, 10);
            },
        }
        assert(b@ =~= label_bytes(*self));
        b
    }

    /// Resolves a raw label by its discriminant; a label already resolved comes back
    /// as it is. Fails with `UnknownGroupLabelType` for a discriminant outside `0..=10`.
    pub fn process(&self) -> (r: Result<GroupLabel>)
        ensures
            match *self {
                GroupLabel::Raw { label_type, .. } => if label_type <= 10 {
                    r matches Ok(l) && resolved_label_is(*self, l)
                } else {
                    r matches Err(Error::UnknownGroupLabelType(t)) && t == label_type
                },
                _ => r == Ok::<GroupLabel, Error>(*self),
            },
    {
        match self {
            GroupLabel::Raw { label, label_type } => {
                let p: &[u8] = label.as_slice();
                let t = *label_type;
                let id = FormID(read_u32_le(p, 0));
                if t == 0 {
                    Ok(GroupLabel::Top(Signature::new(label)))
                } else if t == 1 {
                    Ok(GroupLabel::WorldChildren(id))
                } else if t == 2 {
                    Ok(GroupLabel::InteriorCellBlock(i32_from_bits(read_u32_le(p, 0))))
                } else if t == 3 {
                    Ok(GroupLabel::InteriorCellSubBlock(i32_from_bits(read_u32_le(p, 0))))
                } else if t == 4 {
                    Ok(
                        GroupLabel::ExteriorCellBlock {
                            y: i16_from_bits(read_u16_le(p, 0)),
                            x: i16_from_bits(read_u16_le(p, 2)),
                        },
                    )
                } else if t == 5 {
                    Ok(
                        GroupLabel::ExteriorCellSubBlock {
                            y: i16_from_bits(read_u16_le(p, 0)),
                            x: i16_from_bits(read_u16_le(p, 2)),
                        },
                    )
                } else if t == 6 {
                    Ok(GroupLabel::CellChildren(id))
                } else if t == 7 {
                    Ok(GroupLabel::TopicChildren(id))
                } else if t == 8 {
                    Ok(GroupLabel::CellPersistentChildren(id))
                } else if t == 9 {
                    Ok(GroupLabel::CellTemporaryChildren(id))
                } else if t == 10 {
                    Ok(GroupLabel::QuestScene(id))
                } else {
                    Err(Error::UnknownGroupLabelType(t))
                }
            },
            _ => Ok(*self),
        }
    }
}

/// For every discriminant in the table and every payload, the label it resolves to
/// encodes back to exactly the payload and discriminant it came from.
pub proof fn label_resolve_encode(p: Seq<u8>, t: u32, l: GroupLabel)
    requires
        p.len() == 4,
        resolves_to(p, t, l),
    ensures
        label_bytes(l) == p + le32_bytes(t as int),
{
    lemma_le32_bytes_of(p);
    lemma_le16_bytes_of(p.subrange(0, 2));
    lemma_le16_bytes_of(p.subrange(2, 4));
    assert(p =~= p.subrange(0, 2) + p.subrange(2, 4));
}

/// An unresolved label encodes to its own payload and discriminant.
pub proof fn label_raw_encode(label: [u8; 4], label_type: u32)
    ensures
        label_bytes(GroupLabel::Raw { label, label_type }) == label@ + le32_bytes(
            label_type as int,
        ),
{
}

/// What resolving gives is a resolved label, and resolving that again gives it back
/// unchanged.
pub proof fn label_resolution_is_final(p: Seq<u8>, t: u32, l: GroupLabel, again: GroupLabel)
    requires
        resolves_to(p, t, l),
    ensures
        !(l is Raw),
        resolved_label_is(l, again) <==> again == l,
{
}

} // verus!
