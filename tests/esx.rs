use esx_lib::error::Error;
use esx_lib::esx::ESx;
use esx_lib::field::Field;
use esx_lib::group::GroupData;
use esx_lib::group_label::GroupLabel;
use esx_lib::record::RecordData;
use esx_lib::signature::Signature;
use esx_lib::statistics::RecordTypeLayout;

fn record_bytes(sig: &[u8; 4], form_id: u32, form_version: u16, payload: &[u8]) -> Vec<u8> {
    let mut v = sig.to_vec();
    v.extend_from_slice(&(payload.len() as u32).to_le_bytes());
    v.extend_from_slice(&0u32.to_le_bytes());
    v.extend_from_slice(&form_id.to_le_bytes());
    v.extend_from_slice(&[0, 0, 0, 0]);
    v.extend_from_slice(&form_version.to_le_bytes());
    v.extend_from_slice(&[0, 0]);
    v.extend_from_slice(payload);
    v
}

fn group_bytes(label: [u8; 4], label_type: u32, payload: &[u8]) -> Vec<u8> {
    let mut v = b"GRUP".to_vec();
    v.extend_from_slice(&(payload.len() as u32 + 24).to_le_bytes());
    v.extend_from_slice(&label);
    v.extend_from_slice(&label_type.to_le_bytes());
    v.extend_from_slice(&[0u8; 8]);
    v.extend_from_slice(payload);
    v
}

fn field(sig: &[u8; 4], payload: &[u8]) -> Vec<u8> {
    let mut v = sig.to_vec();
    v.extend_from_slice(&(payload.len() as u16).to_le_bytes());
    v.extend_from_slice(payload);
    v
}

fn plugin() -> Vec<u8> {
    let header = record_bytes(b"TES4", 0, 131, &field(b"HEDR", &[1, 2, 3, 4]));
    let w1 = record_bytes(b"WEAP", 0x10, 44, &[field(b"EDID", b"a\0"), field(b"DATA", &[1])].concat());
    let w2 = record_bytes(b"WEAP", 0x11, 44, &[field(b"EDID", b"b\0"), field(b"EDID", b"c\0")].concat());
    let g1 = group_bytes(*b"WEAP", 0, &[w1, w2].concat());
    let c1 = record_bytes(b"CELL", 0x20, 44, &[]);
    let inner = group_bytes(0x20u32.to_le_bytes(), 9, &record_bytes(b"REFR", 0x21, 44, &[]));
    let g2 = group_bytes(*b"CELL", 0, &[c1, inner].concat());
    [header, g1, g2].concat()
}

#[test]
fn esx_legacy_and_unknown_magic() {
    assert_eq!(ESx::from_bytes(b"TES3\0\0\0\0").unwrap_err(), Error::TES3Header);
    assert_eq!(ESx::from_bytes(b"TES5\0\0\0\0").unwrap_err(), Error::UnknownFileType);
    assert_eq!(ESx::from_bytes(b"TE").unwrap_err(), Error::BufferTooShort);
    assert_eq!(ESx::from_bytes(b"TES4\0\0").unwrap_err(), Error::BufferTooShort);
}

#[test]
fn esx_bad_top_level_group() {
    let mut b = record_bytes(b"TES4", 0, 131, &[]);
    b.extend(record_bytes(b"WEAP", 1, 44, &[]));
    assert_eq!(ESx::from_bytes(&b).unwrap_err(), Error::NonGroupSignature(b"WEAP".to_vec()));
    let mut c = plugin();
    c.push(0);
    assert_eq!(ESx::from_bytes(&c).unwrap_err(), Error::BufferTooShort);
}

#[test]
fn esx_round_trip_and_flatten() {
    let b = plugin();
    let mut e = ESx::from_bytes(&b).unwrap();
    assert_eq!(e.as_bytes(), b);
    assert_eq!(e.get_top_groups().len(), 2);
    let unresolved: Vec<u32> = e.get_all_records().iter().map(|r| r.form_id.0).collect();
    assert_eq!(unresolved, vec![0]);
    e.process();
    let all: Vec<u32> = e.get_all_records().iter().map(|r| r.form_id.0).collect();
    assert_eq!(all, vec![0, 0x10, 0x11, 0x20, 0x21]);
    assert_eq!(e.get_header_record().get_data().get_fields().len(), 1);
    assert_eq!(*e.get_top_groups()[0].get_label(), GroupLabel::Top(Signature::new(b"WEAP")));
    assert_eq!(e.as_bytes(), b);
}

#[test]
fn esx_header_only() {
    let b = record_bytes(b"TES4", 0, 131, &[]);
    let e = ESx::from_bytes(&b).unwrap();
    assert!(e.get_top_groups().is_empty());
    assert_eq!(*e.get_header_record().get_data(), RecordData::Raw(vec![]));
    assert_eq!(e.as_bytes(), b);
}

#[test]
fn record_type_layout_counts_fields() {
    let b = plugin();
    let mut e = ESx::from_bytes(&b).unwrap();
    e.process();
    let mut layout = RecordTypeLayout::new();
    let top = &e.get_top_groups()[0];
    let GroupData::Structured(_) = top.get_data() else { panic!("not resolved") };
    for r in top.get_data().get_records() {
        layout.process_record(r);
    }
    let edid = Signature::new(b"EDID");
    let data = Signature::new(b"DATA");
    let full = Signature::new(b"FULL");
    assert_eq!(*layout.total_count(), 2);
    assert!(layout.is_always_present(&edid));
    assert!(!layout.is_always_present(&data));
    assert!(!layout.is_always_present(&full));
    assert_eq!(layout.field_min(&edid), 1);
    assert_eq!(layout.field_max(&edid), 2);
    assert_eq!(layout.field_min(&data), 0);
    assert_eq!(layout.field_max(&data), 1);
    assert_eq!(layout.field_max(&full), 0);
    let entries = layout.fields();
    assert_eq!(entries.len(), 2);
    assert_eq!(entries[0].0.as_slice(), b"EDID");
    assert_eq!(entries[0].1, vec![1, 2]);
    assert_eq!(entries[1].1, vec![1]);
}

#[test]
fn empty_layout() {
    let layout = RecordTypeLayout::new();
    assert_eq!(*layout.total_count(), 0);
    assert!(!layout.is_always_present(&Signature::new(b"EDID")));
    assert_eq!(layout.field_min(&Signature::new(b"EDID")), 0);
    let _unused: Option<Field> = None;
}
