use esx_lib::error::Error;
use esx_lib::form_id::FormID;
use esx_lib::group_label::GroupLabel;
use esx_lib::signature::Signature;

#[test]
fn label_dispatch_round_trips_for_every_known_discriminant() {
    let payload = [0xFE, 0xFF, 0x03, 0x80];
    for t in 0u32..=10 {
        let raw = GroupLabel::Raw { label: payload, label_type: t };
        let resolved = raw.process().unwrap();
        assert!(!matches!(resolved, GroupLabel::Raw { .. }));
        let mut expected = payload.to_vec();
        expected.extend_from_slice(&t.to_le_bytes());
        assert_eq!(resolved.as_bytes(), expected);
        assert_eq!(raw.as_bytes(), expected);
    }
}

#[test]
fn label_unknown_discriminant() {
    let raw = GroupLabel::Raw { label: [1, 2, 3, 4], label_type: 11 };
    assert_eq!(raw.process(), Err(Error::UnknownGroupLabelType(11)));
}

#[test]
fn label_interpretations() {
    let p = [0xFE, 0xFF, 0x03, 0x80];
    let l = |t| GroupLabel::Raw { label: p, label_type: t }.process().unwrap();
    assert_eq!(l(0), GroupLabel::Top(Signature::new(&p)));
    assert_eq!(l(1), GroupLabel::WorldChildren(FormID(0x8003FFFE)));
    assert_eq!(l(2), GroupLabel::InteriorCellBlock(0x8003FFFEu32 as i32));
    assert_eq!(l(3), GroupLabel::InteriorCellSubBlock(-2147221506));
    assert_eq!(l(4), GroupLabel::ExteriorCellBlock { x: -32765, y: -2 });
    assert_eq!(l(5), GroupLabel::ExteriorCellSubBlock { x: -32765, y: -2 });
    assert_eq!(l(6), GroupLabel::CellChildren(FormID(0x8003FFFE)));
    assert_eq!(l(7), GroupLabel::TopicChildren(FormID(0x8003FFFE)));
    assert_eq!(l(8), GroupLabel::CellPersistentChildren(FormID(0x8003FFFE)));
    assert_eq!(l(9), GroupLabel::CellTemporaryChildren(FormID(0x8003FFFE)));
    assert_eq!(l(10), GroupLabel::QuestScene(FormID(0x8003FFFE)));
}

#[test]
fn resolved_label_resolves_to_itself() {
    let l = GroupLabel::ExteriorCellBlock { x: 3, y: -4 };
    assert_eq!(l.process(), Ok(l));
    assert_eq!(l.as_bytes(), vec![0xFC, 0xFF, 3, 0, 4, 0, 0, 0]);
}
