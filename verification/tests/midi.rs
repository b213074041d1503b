use juce_daito::midi::MidiMessage;

fn msg(bytes: &[u8]) -> MidiMessage {
    MidiMessage { timestamp_us: 42, data: bytes.to_vec() }
}

#[test]
fn note_on_with_velocity() {
    let m = msg(&[0x91, 60, 100]);
    assert!(m.is_note_on());
    assert!(!m.is_note_off());
    assert_eq!(m.status(), Some(0x91));
    assert_eq!(m.note_number(), Some(60));
    assert_eq!(m.velocity(), Some(100));
}

#[test]
fn note_on_with_zero_velocity_is_note_off() {
    let m = msg(&[0x90, 60, 0]);
    assert!(!m.is_note_on());
    assert!(m.is_note_off());
}

#[test]
fn note_off_status() {
    let m = msg(&[0x8F, 64, 40]);
    assert!(m.is_note_off());
    assert!(!m.is_note_on());
}

#[test]
fn short_note_on_without_velocity_is_note_off() {
    let m = msg(&[0x90, 60]);
    assert!(!m.is_note_on());
    assert!(m.is_note_off());
    assert_eq!(m.velocity(), None);
    assert_eq!(m.note_number(), Some(60));
}

#[test]
fn other_messages_are_neither() {
    let cc = msg(&[0xB0, 7, 100]);
    assert!(!cc.is_note_on());
    assert!(!cc.is_note_off());
    let empty = msg(&[]);
    assert_eq!(empty.status(), None);
    assert_eq!(empty.note_number(), None);
    assert!(!empty.is_note_on());
    assert!(!empty.is_note_off());
}
