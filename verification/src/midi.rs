//! MIDI messages as raw bytes.
use vstd::prelude::*;

verus! {

/// The byte at `i`, if the message is long enough.
pub open spec fn byte_at(data: Seq<u8>, i: int) -> Option<u8> {
    if 0 <= i < data.len() {
        Some(data[i])
    } else {
        None
    }
}

/// The message type: the high nibble of a status byte (8 = note off,
/// 9 = note on, ...).
pub open spec fn message_kind(status: u8) -> int {
    status as int / 16
}

/// The third byte (velocity of a note message), 0 when absent.
pub open spec fn velocity_or_zero(data: Seq<u8>) -> u8 {
    match byte_at(data, 2) {
        Some(v) => v,
        None => 0,
    }
}

/// A note-on: status of kind 9 with a non-zero velocity.
pub open spec fn spec_is_note_on(data: Seq<u8>) -> bool {
    data.len() > 0 && message_kind(data[0]) == 9 && velocity_or_zero(data) > 0
}

/// A note-off: status of kind 8, or of kind 9 with velocity 0 (or none).
pub open spec fn spec_is_note_off(data: Seq<u8>) -> bool {
    data.len() > 0 && (message_kind(data[0]) == 8 || (message_kind(data[0]) == 9
        && velocity_or_zero(data) == 0))
}

/// A MIDI message: a timestamp in microseconds and its raw bytes.
#[derive(Debug, Clone)]
pub struct MidiMessage {
    pub timestamp_us: u64,
    pub data: Vec<u8>,
}

fn kind_is(status: u8, kind: u8) -> (b: bool)
    requires
        kind < 16,
    ensures
        b == (message_kind(status) == kind),
{
    let hi = status & 0xF0u8;
    assert(hi == (status / 16) * 16) by (bit_vector)
        requires
            hi == status & 0xF0u8,
    ;
    hi == kind * 16
}

impl MidiMessage {
    /// The status byte: the first byte, if any.
    pub fn status(&self) -> (s: Option<u8>)
        ensures
            s == byte_at(self.data@, 0),
            s == (if self.data@.len() > 0 { Some(self.data@[0]) } else { None }),
    {
        if self.data.len() > 0 {
            Some(self.data[0])
        } else {
            None
        }
    }

    pub fn is_note_on(&self) -> (b: bool)
        ensures
            b == spec_is_note_on(self.data@),
            b == (self.data@.len() > 2 && self.data@[0] / 16 == 9 && self.data@[2] > 0),
    {
        match self.status() {
            Some(s) => kind_is(s, 9) && self.velocity_or_zero() > 0,
            None => false,
        }
    }

    pub fn is_note_off(&self) -> (b: bool)
        ensures
            b == spec_is_note_off(self.data@),
            b == (self.data@.len() > 0 && (self.data@[0] / 16 == 8 || (self.data@[0] / 16 == 9 && (
            self.data@.len() <= 2 || self.data@[2] == 0)))),
    {
        match self.status() {
            Some(s) => {
                if kind_is(s, 8) {
                    true
                } else if kind_is(s, 9) {
                    self.velocity_or_zero() == 0
                } else {
                    false
                }
            },
            None => false,
        }
    }

    /// The second byte (note number of a note message), if any.
    pub fn note_number(&self) -> (n: Option<u8>)
        ensures
            n == byte_at(self.data@, 1),
            n == (if self.data@.len() > 1 { Some(self.data@[1]) } else { None }),
    {
        if self.data.len() > 1 {
            Some(self.data[1])
        } else {
            None
        }
    }

    /// The third byte (velocity of a note message), if any.
    pub fn velocity(&self) -> (v: Option<u8>)
        ensures
            v == byte_at(self.data@, 2),
            v == (if self.data@.len() > 2 { Some(self.data@[2]) } else { None }),
    {
        if self.data.len() > 2 {
            Some(self.data[2])
        } else {
            None
        }
    }

    fn velocity_or_zero(&self) -> (v: u8)
        ensures
            v == velocity_or_zero(self.data@),
    {
        match self.velocity() {
            Some(v) => v,
            None => 0,
        }
    }
}

/// The classification on the raw bytes: a note-on is a status byte whose
/// high nibble is 9 followed by a note and a non-zero velocity; a note-off
/// is a status byte whose high nibble is 8, or 9 with a zero or missing
/// velocity. Any other status (aftertouch, controllers, ...) is neither.
pub proof fn lemma_note_classification(data: Seq<u8>)
    ensures
        spec_is_note_on(data) == (data.len() > 2 && data[0] / 16 == 9 && data[2] > 0),
        spec_is_note_off(data) == (data.len() > 0 && (data[0] / 16 == 8 || (data[0] / 16 == 9 && (
        data.len() <= 2 || data[2] == 0)))),
        data.len() > 0 && data[0] / 16 != 8 && data[0] / 16 != 9 ==> !spec_is_note_on(data)
            && !spec_is_note_off(data),
{
}

/// No message is both a note-on and a note-off.
pub proof fn lemma_note_on_off_exclusive(data: Seq<u8>)
    ensures
        !(spec_is_note_on(data) && spec_is_note_off(data)),
{
}

/// A note message of kind 9 is a note-on exactly when it is not a note-off:
/// velocity 0 turns a note-on into a note-off.
pub proof fn lemma_kind_nine_is_on_or_off(data: Seq<u8>)
    requires
        data.len() > 0,
        message_kind(data[0]) == 9,
    ensures
        spec_is_note_on(data) != spec_is_note_off(data),
{
}

} // verus!
