use esx_lib::error::Error;
use esx_lib::form_id::FormID;
use esx_lib::group::{Group, GroupData, GroupDataComponent};
use esx_lib::group_label::GroupLabel;
use esx_lib::record::RecordData;
use esx_lib::signature::Signature;

fn record_bytes(sig: &[u8; 4], form_id: u32, payload: &[u8]) -> Vec<u8> {
    let mut v = sig.to_vec();
    v.extend_from_slice(&(payload.len() as u32).to_le_bytes());
    v.extend_from_slice(&0u32.to_le_bytes());
    v.extend_from_slice(&form_id.to_le_bytes());
    v.extend_from_slice(&[0u8; 8]);
    v.extend_from_slice(payload);
    v
}

fn group_bytes(label: [u8; 4], label_type: u32, payload: &[u8]) -> Vec<u8> {
    let mut v = b"GRUP".to_vec();
    v.extend_from_slice(&(payload.len() as u32 + 24).to_le_bytes());
    v.extend_from_slice(&label);
    v.extend_from_slice(&label_type.to_le_bytes());
    v.extend_from_slice(&[0x21, 0x00, 0, 0, 9, 0, 0, 0]);
    v.extend_from_slice(payload);
    v
}

fn field(sig: &[u8; 4], payload: &[u8]) -> Vec<u8> {
    let mut v = sig.to_vec();
    v.extend_from_slice(&(payload.len() as u16).to_le_bytes());
    v.extend_from_slice(payload);
    v
}

fn nested() -> Vec<u8> {
    let r1 = record_bytes(b"CELL", 1, &field(b"EDID", b"a\0"));
    let r2 = record_bytes(b"REFR", 2, &[]);
    let r3 = record_bytes(b"REFR", 3, &[]);
    let inner = group_bytes(1u32.to_le_bytes(), 6, &[r2, r3].concat());
    let outer_payload = [r1, inner].concat();
    group_bytes(*b"CELL", 0, &outer_payload)
}

#[test]
fn group_short_buffer() {
    assert_eq!(Group::from_bytes(b"GRU").unwrap_err(), Error::BufferTooShort);
    assert_eq!(Group::from_bytes(&b"GRUP"[..]).unwrap_err(), Error::BufferTooShort);
}

#[test]
fn group_wrong_tag() {
    let mut b = group_bytes(*b"WEAP", 0, &[]);
    b[0] = b'X';
    assert_eq!(Group::from_bytes(&b).unwrap_err(), Error::NonGroupSignature(b"XRUP".to_vec()));
}

#[test]
fn group_size_smaller_than_header() {
    let mut b = group_bytes(*b"WEAP", 0, &[]);
    b[4] = 10;
    assert_eq!(Group::from_bytes(&b).unwrap_err(), Error::BufferTooShort);
}

#[test]
fn group_size_past_end() {
    let mut b = group_bytes(*b"WEAP", 0, &[1, 2, 3]);
    b.pop();
    assert_eq!(Group::from_bytes(&b).unwrap_err(), Error::BufferTooShort);
}

#[test]
fn group_decode_keeps_raw_and_round_trips() {
    let b = nested();
    let (g, n) = Group::from_bytes(&b).unwrap();
    assert_eq!(n, b.len());
    assert_eq!(*g.get_label(), GroupLabel::Raw { label: *b"CELL", label_type: 0 });
    assert_eq!(g.get_timestamp().day, 1);
    assert_eq!(g.get_timestamp().month, 1);
    assert_eq!(g.reserved, 9);
    assert_eq!(*g.get_data(), GroupData::Raw(b[24..].to_vec()));
    assert_eq!(g.as_bytes(), b);
}

#[test]
fn group_process_resolves_tree() {
    let b = nested();
    let (mut g, _) = Group::from_bytes(&b).unwrap();
    g.process();
    assert_eq!(*g.get_label(), GroupLabel::Top(Signature::new(b"CELL")));
    let comps = g.get_data().get_components().unwrap();
    assert_eq!(comps.len(), 2);
    let records = g.get_data().get_records();
    assert_eq!(records.len(), 1);
    assert_eq!(records[0].form_id, FormID(1));
    assert_eq!(records[0].get_data().get_fields().len(), 1);
    let subgroups = g.get_data().get_subgroups();
    assert_eq!(subgroups.len(), 1);
    assert_eq!(*subgroups[0].get_label(), GroupLabel::CellChildren(FormID(1)));
    let all: Vec<u32> = g.get_data().get_records_recurse().iter().map(|r| r.form_id.0).collect();
    assert_eq!(all, vec![1, 2, 3]);
    assert_eq!(g.as_bytes(), b);
}

#[test]
fn group_data_bad_framing_stays_raw() {
    let payload = vec![b'W', b'E', b'A', b'P', 1, 0];
    let mut d = GroupData::Raw(payload.clone());
    assert_eq!(d.process(), Err(Error::BufferTooShort));
    assert_eq!(d, GroupData::Raw(payload));
}

#[test]
fn group_data_resolve_twice_is_unchanged() {
    let r = record_bytes(b"WEAP", 5, &field(b"EDID", b"x\0"));
    let mut d = GroupData::Raw(r);
    assert_eq!(d.process(), Ok(()));
    assert!(matches!(d, GroupData::Structured(_)));
    let before = format!("{:?}", d);
    assert_eq!(d.process(), Ok(()));
    assert_eq!(format!("{:?}", d), before);
    let mut e = GroupData::Empty;
    assert_eq!(e.process(), Ok(()));
    assert_eq!(e, GroupData::Empty);
    assert!(e.get_components().is_none());
    assert!(e.get_records_recurse().is_empty());
}

#[test]
fn nested_group_with_bad_payload_stays_raw() {
    let inner = group_bytes(*b"WEAP", 0, &[1, 2, 3]);
    let b = group_bytes(*b"WRLD", 0, &inner);
    let (mut g, _) = Group::from_bytes(&b).unwrap();
    g.process();
    let subs = g.get_data().get_subgroups();
    assert_eq!(subs.len(), 1);
    assert_eq!(*subs[0].get_data(), GroupData::Raw(vec![1, 2, 3]));
    assert_eq!(*subs[0].get_label(), GroupLabel::Top(Signature::new(b"WEAP")));
    assert_eq!(g.as_bytes(), b);
}

#[test]
fn unknown_label_stays_raw_in_group() {
    let b = group_bytes([1, 2, 3, 4], 11, &[]);
    let (mut g, _) = Group::from_bytes(&b).unwrap();
    g.process_label();
    assert_eq!(*g.get_label(), GroupLabel::Raw { label: [1, 2, 3, 4], label_type: 11 });
    g.process_data();
    assert_eq!(*g.get_data(), GroupData::Structured(vec![]));
}

#[test]
fn structured_group_data_encodes_components() {
    let r = record_bytes(b"WEAP", 5, &[]);
    let (rec, _) = esx_lib::record::Record::from_bytes(&r).unwrap();
    let d = GroupData::Structured(vec![GroupDataComponent::Record(rec), GroupDataComponent::Empty]);
    assert_eq!(d.as_bytes(), r);
    assert_eq!(d.get_records().len(), 1);
    assert_eq!(*d.get_records()[0].get_data(), RecordData::Raw(vec![]));
}
