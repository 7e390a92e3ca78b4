use esx_lib::form_id::FormID;
use esx_lib::signature::Signature;
use esx_lib::timestamp::Timestamp;
use esx_lib::vcs_info::VcsInfo;

#[test]
fn timestamp_packing() {
    let t = Timestamp { year: 0x55, month: 0x0A, day: 0x13 };
    let v = t.to_u16();
    assert_eq!(v, (0x55 << 9) | (0x0A << 5) | 0x13);
    assert_eq!(Timestamp::from_u16(v), t);
}

#[test]
fn timestamp_round_trip_all_fields() {
    for year in [0u8, 1, 64, 127] {
        for month in 0u8..16 {
            for day in [0u8, 1, 15, 31] {
                let t = Timestamp { year, month, day };
                assert_eq!(Timestamp::from_u16(t.to_u16()), t);
            }
        }
    }
    assert_eq!(Timestamp::from_u16(0xFFFF), Timestamp { year: 127, month: 15, day: 31 });
}

#[test]
fn timestamp_drops_bits_beyond_width() {
    let t = Timestamp { year: 200, month: 17, day: 40 };
    assert_eq!(t.to_u16(), ((200 % 128) << 9) + ((17 % 16) << 5) + 40 % 32);
}

#[test]
fn vcs_bytes_are_exact_and_word_is_lossy() {
    let v = VcsInfo::from_bytes(&[7, 9]);
    assert_eq!(v, VcsInfo { last_user: 7, current_user: 9 });
    assert_eq!(v.as_bytes(), vec![7, 9]);
    assert_eq!(VcsInfo::from_u16(0x0907), VcsInfo { last_user: 0, current_user: 0 });
    assert_eq!(v.to_u16(), 0);
}

#[test]
fn form_id_bytes() {
    assert_eq!(FormID::from_bytes(&[0xEF, 0xBE, 0xAD, 0xDE, 1]), FormID(0xDEADBEEF));
    assert_eq!(FormID(0xDEADBEEF).as_bytes(), vec![0xEF, 0xBE, 0xAD, 0xDE]);
}

#[test]
fn signature_names() {
    assert_eq!(Signature::new(b"EDID").as_string(), "EDID");
    assert_eq!(Signature::new(&[0x0A, b'I', b'A', b'D']).as_string(), "(0a)IAD");
    assert_eq!(Signature::new(&[0xFF, b'I', b'A', b'D']).as_string(), "(ff)IAD");
    assert_eq!(Signature::new(&[b'A', 0xFF, b'B', b'C']).as_string(), "A\u{FFFD}BC");
    assert_eq!(Signature::from_bytes(b"GRUP").as_bytes(), b"GRUP".to_vec());
    assert_eq!(Signature::new(b"WEAP").as_slice(), b"WEAP");
}
