use esx_lib::child_key::ChildKey;
use esx_lib::field::{Field, FieldData};
use esx_lib::fingerprinting::{data_type, FieldDataType, FieldFingerprinting};
use esx_lib::form_id::FormID;
use esx_lib::group_label::GroupLabel;
use esx_lib::signature::Signature;
use std::cmp::Ordering;

#[test]
fn signatures_order_by_name() {
    assert_eq!(Signature::new(b"ACTI").compare(&Signature::new(b"WEAP")), Ordering::Less);
    assert_eq!(Signature::new(b"WEAP").compare(&Signature::new(b"WEAP")), Ordering::Equal);
    // "(5a)IAD" sorts before "ACTI" although its first byte is 'Z'
    assert_eq!(Signature::new(&[b'Z', b'I', b'A', b'D']).compare(&Signature::new(b"ACTI")), Ordering::Less);
}

#[test]
fn labels_order_by_kind_then_payload() {
    let top = GroupLabel::Top(Signature::new(b"WEAP"));
    let world = GroupLabel::WorldChildren(FormID(1));
    assert_eq!(top.compare(&world), Ordering::Less);
    assert_eq!(
        GroupLabel::ExteriorCellBlock { x: -1, y: 5 }.compare(&GroupLabel::ExteriorCellBlock { x: 0, y: 0 }),
        Ordering::Less
    );
    assert_eq!(
        GroupLabel::Raw { label: [1, 2, 3, 4], label_type: 20 }
            .compare(&GroupLabel::Raw { label: [1, 2, 3, 5], label_type: 12 }),
        Ordering::Less
    );
}

#[test]
fn child_keys_order() {
    let rec = ChildKey::Record(FormID(0x20));
    let children = ChildKey::Group(GroupLabel::CellChildren(FormID(0x20)));
    let top = ChildKey::Group(GroupLabel::Top(Signature::new(b"CELL")));
    assert_eq!(rec.compare(&children), Ordering::Less);
    assert_eq!(children.compare(&rec), Ordering::Greater);
    assert_eq!(rec.compare(&top), Ordering::Greater);
    assert_eq!(rec.compare(&ChildKey::Record(FormID(0x21))), Ordering::Less);
    assert_eq!(ChildKey::Raw.compare(&rec), Ordering::Greater);
    assert_eq!(ChildKey::Raw.compare(&ChildKey::Raw), Ordering::Equal);
}

#[test]
fn child_keys_of_records_and_groups() {
    let mut rb = b"CELL".to_vec();
    rb.extend_from_slice(&[0, 0, 0, 0, 0, 0, 0, 0, 0x20, 0, 0, 0]);
    rb.extend_from_slice(&[0u8; 8]);
    let (r, _) = esx_lib::record::Record::from_bytes(&rb).unwrap();
    assert_eq!(ChildKey::from_record(&r), ChildKey::Record(FormID(0x20)));
    let mut gb = b"GRUP".to_vec();
    gb.extend_from_slice(&24u32.to_le_bytes());
    gb.extend_from_slice(&[0x20, 0, 0, 0, 6, 0, 0, 0]);
    gb.extend_from_slice(&[0u8; 8]);
    let (mut g, _) = esx_lib::group::Group::from_bytes(&gb).unwrap();
    g.process();
    assert_eq!(*g.get_vcs_info(), esx_lib::vcs_info::VcsInfo { last_user: 0, current_user: 0 });
    let gk = ChildKey::from_group(&g);
    assert_eq!(gk, ChildKey::Group(GroupLabel::CellChildren(FormID(0x20))));
    assert_eq!(ChildKey::from_record(&r).compare(&gk), Ordering::Less);
}

#[test]
fn payload_kinds() {
    assert_eq!(data_type(&[]), FieldDataType::Null);
    assert_eq!(data_type(b"Iron\0"), FieldDataType::ZString(5));
    assert_eq!(data_type(b"Iron"), FieldDataType::String(4));
    assert_eq!(data_type(&[4, b'I', b'r', b'o', b'n']), FieldDataType::BString(5));
    assert_eq!(data_type(&[4, b'I', b'r', b'o', 0]), FieldDataType::BZString(5));
    assert_eq!(data_type(&[3, 0, b'a', b'b', b'c']), FieldDataType::WString(5));
    assert_eq!(data_type(&[3, 0, b'a', b'b', 0]), FieldDataType::WZString(5));
    assert_eq!(data_type(&[0xFF, 0x10]), FieldDataType::Unknown(2));
    assert_eq!(data_type(&[0]), FieldDataType::BZString(1));
}

#[test]
fn fingerprint_counts_kinds() {
    let a = Field::new(Signature::new(b"EDID"), FieldData::Raw(b"a\0".to_vec()));
    let b = Field::new(Signature::new(b"EDID"), FieldData::Raw(b"bb\0".to_vec()));
    let c = Field::new(Signature::new(b"EDID"), FieldData::Raw(b"c\0".to_vec()));
    let d = Field::new(Signature::new(b"EDID"), FieldData::Empty);
    let fields: Vec<&Field> = vec![&a, &b, &c, &d];
    let fp = fields.fingerprint();
    assert_eq!(
        fp.get_data_types(),
        &vec![(FieldDataType::ZString(2), 2), (FieldDataType::ZString(3), 1), (FieldDataType::Null, 1)]
    );
}
