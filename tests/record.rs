use esx_lib::error::Error;
use esx_lib::form_id::FormID;
use esx_lib::record::{Record, RecordData};
use esx_lib::timestamp::Timestamp;
use esx_lib::vcs_info::VcsInfo;
use std::io::Write;

const SAMPLE: [u8; 24] = [
    0x54, 0x45, 0x53, 0x34, // 'TES4' as bytes
    0x00, 0x00, 0x00, 0x00, // Data field size in bytes (0)
    0x00, 0x00, 0x00, 0x00, // Flags (None)
    0xDE, 0xAD, 0xBE, 0xEF, // Form ID (DEADBEEF)
    0x00, 0x00, // Timestamp (unset)
    0x00, 0x00, // VCS (unset)
    0x83, 0x00, // Internal version 131
    0x00, 0x00, // Unknown u16
];

fn field_bytes(sig: &[u8; 4], payload: &[u8]) -> Vec<u8> {
    let mut v = sig.to_vec();
    v.extend_from_slice(&(payload.len() as u16).to_le_bytes());
    v.extend_from_slice(payload);
    v
}

fn record_bytes(sig: &[u8; 4], flags: u32, form_id: u32, payload: &[u8]) -> Vec<u8> {
    let mut v = sig.to_vec();
    v.extend_from_slice(&(payload.len() as u32).to_le_bytes());
    v.extend_from_slice(&flags.to_le_bytes());
    v.extend_from_slice(&form_id.to_le_bytes());
    v.extend_from_slice(&[0, 0, 0, 0, 44, 0, 0, 0]);
    v.extend_from_slice(payload);
    v
}

fn zlib(bytes: &[u8]) -> Vec<u8> {
    let mut e = flate2::write::ZlibEncoder::new(Vec::new(), flate2::Compression::default());
    e.write_all(bytes).unwrap();
    e.finish().unwrap()
}

#[test]
fn record_from_buffer() {
    let buf: Vec<u8> = SAMPLE.to_vec();

    let (record, n) = Record::from_bytes(&buf.clone()).unwrap();
    println!("Record Test: {:#?}", record);
    let bytes = record.as_bytes();
    println!("Bytes: {:?}", bytes);
    assert_eq!(bytes, buf);
    assert_eq!(n, 24);
}

#[test]
fn fixture_header_fields() {
    let (record, n) = Record::from_bytes(&SAMPLE).unwrap();
    assert_eq!(n, 24);
    assert_eq!(record.get_signature().as_slice(), b"TES4");
    assert_eq!(record.raw_flags, 0);
    assert_eq!(*record.get_form_id(), FormID(u32::from_le_bytes([0xDE, 0xAD, 0xBE, 0xEF])));
    assert_eq!(record.get_form_id().as_bytes(), vec![0xDE, 0xAD, 0xBE, 0xEF]);
    assert_eq!(record.timestamp, Timestamp { year: 0, month: 0, day: 0 });
    assert_eq!(record.vcs_info, VcsInfo { last_user: 0, current_user: 0 });
    assert_eq!(*record.get_form_version(), 131);
    assert_eq!(record.reserved, 0);
    assert_eq!(*record.get_data(), RecordData::Raw(vec![]));
}

#[test]
fn record_short_header_is_buffer_too_short() {
    assert_eq!(Record::from_bytes(&SAMPLE[..23]).unwrap_err(), Error::BufferTooShort);
    assert_eq!(Record::from_bytes(&[]).unwrap_err(), Error::BufferTooShort);
}

#[test]
fn record_payload_longer_than_buffer_is_buffer_too_short() {
    let mut b = record_bytes(b"WEAP", 0, 7, &[1, 2, 3, 4]);
    b.pop();
    assert_eq!(Record::from_bytes(&b).unwrap_err(), Error::BufferTooShort);
}

#[test]
fn record_takes_only_its_frame() {
    let mut b = record_bytes(b"WEAP", 0, 7, &[9, 9]);
    b.extend_from_slice(&[1, 2, 3]);
    let (r, n) = Record::from_bytes(&b).unwrap();
    assert_eq!(n, 26);
    assert_eq!(r.data, RecordData::Raw(vec![9, 9]));
    assert_eq!(r.timestamp, Timestamp::from_u16(0));
    assert_eq!(r.form_version, 44);
}

#[test]
fn record_raw_payload_resolves_to_fields() {
    let mut payload = field_bytes(b"EDID", b"Iron\0");
    payload.extend(field_bytes(b"DATA", &[1, 2, 3]));
    let b = record_bytes(b"WEAP", 0, 7, &payload);
    let (mut r, _) = Record::from_bytes(&b).unwrap();
    r.process();
    let fields = r.get_data().get_fields();
    assert_eq!(fields.len(), 2);
    assert_eq!(fields[0].get_signature().as_slice(), b"EDID");
    assert_eq!(fields[0].get_data().len(), 5);
    assert_eq!(fields[1].get_signature().as_slice(), b"DATA");
    assert_eq!(r.as_bytes(), b);
}

#[test]
fn record_bad_field_framing_keeps_raw_payload() {
    let payload = vec![b'E', b'D', b'I', b'D', 10, 0, 1];
    let b = record_bytes(b"WEAP", 0, 7, &payload);
    let (r, _) = Record::from_bytes(&b).unwrap();
    let mut d = r.data.clone();
    assert_eq!(d.process(), Err(Error::BufferTooShort));
    assert_eq!(d, RecordData::Raw(payload));
}

#[test]
fn record_compressed_payload_resolves_to_fields() {
    let fields = field_bytes(b"EDID", b"Steel\0");
    let mut payload = (fields.len() as u32).to_le_bytes().to_vec();
    payload.extend(zlib(&fields));
    let b = record_bytes(b"WEAP", 0x0004_0000, 7, &payload);
    let (mut r, _) = Record::from_bytes(&b).unwrap();
    assert_eq!(r.data, RecordData::Compressed(payload.clone()));
    r.process();
    let fs = r.get_data().get_fields();
    assert_eq!(fs.len(), 1);
    assert_eq!(fs[0].get_signature().as_slice(), b"EDID");
    assert_eq!(r.raw_flags, 0x0004_0000);
    assert_eq!(r.get_data().as_bytes(), fields);
}

#[test]
fn resolved_compressed_record_writes_back_consistently() {
    let fields = [field_bytes(b"EDID", b"Steel\0"), field_bytes(b"DATA", &[5, 6])].concat();
    let mut payload = (fields.len() as u32).to_le_bytes().to_vec();
    payload.extend(zlib(&fields));
    let b = record_bytes(b"WEAP", 0x0004_0001, 7, &payload);
    let (mut r, _) = Record::from_bytes(&b).unwrap();
    assert_eq!(r.as_bytes(), b);
    r.process();
    let written = r.as_bytes();
    // written uncompressed, so the compression bit is cleared and the other flags kept
    assert_eq!(&written[8..12], &0x0000_0001u32.to_le_bytes());
    assert_eq!(&written[24..], fields.as_slice());
    let (mut again, n) = Record::from_bytes(&written).unwrap();
    assert_eq!(n, written.len());
    assert_eq!(again.data, RecordData::Raw(fields.clone()));
    again.process();
    assert_eq!(again.data, r.data);
    assert_eq!(again.as_bytes(), written);
}

#[test]
fn record_invalid_zlib_is_decompress_error() {
    let payload = vec![5, 0, 0, 0, 1, 2, 3, 4, 5];
    let mut d = RecordData::Compressed(payload.clone());
    assert_eq!(d.process(), Err(Error::DecompressError));
    assert_eq!(d, RecordData::Compressed(payload));
}

#[test]
fn record_compressed_shorter_than_length_word() {
    let mut d = RecordData::Compressed(vec![1, 2]);
    assert_eq!(d.process(), Err(Error::BufferTooShort));
}

#[test]
fn resolved_record_data_resolves_to_itself() {
    let payload = field_bytes(b"FULL", b"x");
    let mut d = RecordData::Raw(payload);
    assert_eq!(d.process(), Ok(()));
    let once = d.clone();
    assert_eq!(d.process(), Ok(()));
    assert_eq!(d, once);
    let mut e = RecordData::Empty;
    assert_eq!(e.process(), Ok(()));
    assert_eq!(e, RecordData::Empty);
}

#[test]
fn record_editor_word_is_not_kept() {
    let mut b = record_bytes(b"WEAP", 0, 7, &[]);
    b[18] = 3;
    b[19] = 4;
    let (r, _) = Record::from_bytes(&b).unwrap();
    assert_eq!(r.vcs_info, VcsInfo { last_user: 0, current_user: 0 });
    let out = r.as_bytes();
    assert_eq!(&out[18..20], &[0, 0]);
}
