use esx_lib::error::Error;
use esx_lib::field::{Field, FieldData};
use esx_lib::signature::Signature;

#[test]
fn field_decodes_normal_header() {
    let b = vec![b'E', b'D', b'I', b'D', 3, 0, b'a', b'b', 0, 0xFF];
    let (f, n) = Field::from_bytes(&b).unwrap();
    assert_eq!(n, 9);
    assert_eq!(f.get_signature().as_slice(), b"EDID");
    assert_eq!(*f.get_data(), FieldData::Raw(vec![b'a', b'b', 0]));
    assert_eq!(f.as_bytes(), b[..9].to_vec());
}

#[test]
fn field_five_bytes_is_buffer_too_short() {
    assert_eq!(Field::from_bytes(&[b'E', b'D', b'I', b'D', 0]).unwrap_err(), Error::BufferTooShort);
}

#[test]
fn field_payload_past_end_is_buffer_too_short() {
    assert_eq!(Field::from_bytes(&[b'E', b'D', b'I', b'D', 4, 0, 1, 2, 3]).unwrap_err(), Error::BufferTooShort);
}

#[test]
fn oversized_field_round_trip() {
    let payload: Vec<u8> = (0..70_000u32).map(|i| (i % 251) as u8).collect();
    let f = Field::new(Signature::new(b"DATA"), FieldData::Raw(payload.clone()));
    let bytes = f.as_bytes();
    assert_eq!(&bytes[0..4], b"XXXX");
    assert_eq!(&bytes[4..6], &[4, 0]);
    assert_eq!(&bytes[6..10], &70_000u32.to_le_bytes());
    assert_eq!(&bytes[10..14], b"DATA");
    assert_eq!(&bytes[14..16], &[0, 0]);
    assert_eq!(bytes.len(), 16 + 70_000);
    let (g, n) = Field::from_bytes(&bytes).unwrap();
    assert_eq!(n, bytes.len());
    assert_eq!(g, f);
    assert_eq!(g.as_bytes(), bytes);
}

#[test]
fn oversized_escape_truncated() {
    let b = vec![b'X', b'X', b'X', b'X', 4, 0, 0x10, 0, 0];
    assert_eq!(Field::from_bytes(&b).unwrap_err(), Error::BufferTooShort);
    let mut c = vec![b'X', b'X', b'X', b'X', 4, 0, 5, 0, 0, 0, b'D', b'A', b'T', b'A', 0, 0];
    c.extend_from_slice(&[1, 2, 3, 4]);
    assert_eq!(Field::from_bytes(&c).unwrap_err(), Error::BufferTooShort);
    c.push(5);
    let (f, n) = Field::from_bytes(&c).unwrap();
    assert_eq!(n, 21);
    assert_eq!(f.get_data().len(), 5);
}

#[test]
fn largest_short_field_uses_normal_header() {
    let payload = vec![7u8; 65_535];
    let f = Field::new(Signature::new(b"DATA"), FieldData::Raw(payload));
    let bytes = f.as_bytes();
    assert_eq!(&bytes[0..6], &[b'D', b'A', b'T', b'A', 0xFF, 0xFF]);
    assert_eq!(bytes.len(), 6 + 65_535);
}

#[test]
fn empty_field_data() {
    let f = Field::new(Signature::new(b"NULL"), FieldData::Empty);
    assert!(f.get_data().is_empty());
    assert_eq!(f.get_data().len(), 0);
    assert_eq!(f.as_bytes(), vec![b'N', b'U', b'L', b'L', 0, 0]);
}
