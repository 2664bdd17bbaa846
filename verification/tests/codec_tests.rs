use bootlick::state::{SerializationError, State, MAX_SERIALIZED_SIZE};
use bootlick::{Slot, Step};

fn round_trip(state: State) {
    let bytes = state.serialize();
    assert!(bytes.len() <= MAX_SERIALIZED_SIZE);
    assert_eq!(State::deserialize_from(&bytes), Ok(state));
}

#[test]
fn round_trip_every_variant() {
    round_trip(State::Initial);
    round_trip(State::Trialing { target: Slot(1), old: Slot(0) });
    round_trip(State::Failed { current: Slot(0), failed: Slot(1) });
    round_trip(State::Confirmed { target: Slot(1) });
    round_trip(State::Request { current: Slot(0), target: Slot(1) });
    round_trip(State::Swapping { target: Slot(1), old: Slot(0), step: Step(7) });
    round_trip(State::Returning { failed: Slot(1), old: Slot(0), step: Step(2) });
}

#[test]
fn round_trip_step_boundaries() {
    for step in [0u16, 1, 127, 128, 300, 16383, 16384, 65535] {
        round_trip(State::Swapping { target: Slot(3), old: Slot(4), step: Step(step) });
        round_trip(State::Returning { failed: Slot(9), old: Slot(8), step: Step(step) });
    }
}

#[test]
fn encoding_is_tag_slots_varint() {
    assert_eq!(State::Initial.serialize(), vec![0x00]);
    assert_eq!(
        State::Trialing { target: Slot(5), old: Slot(6) }.serialize(),
        vec![0x01, 0x05, 0x06]
    );
    // A step of 300 encodes as the two varint bytes 0xAC 0x02.
    assert_eq!(
        State::Swapping { target: Slot(1), old: Slot(0), step: Step(300) }.serialize(),
        vec![0x05, 0x01, 0x00, 0xAC, 0x02]
    );
    // A one-byte step has no continuation bit.
    assert_eq!(
        State::Returning { failed: Slot(2), old: Slot(3), step: Step(9) }.serialize(),
        vec![0x06, 0x02, 0x03, 0x09]
    );
}

#[test]
fn deserialize_rejects_empty_buffer() {
    assert_eq!(
        State::deserialize_from(&[]),
        Err(SerializationError::BufferTooSmall)
    );
}

#[test]
fn deserialize_rejects_truncated_record() {
    // A Trialing record missing its second slot byte.
    assert_eq!(
        State::deserialize_from(&[0x01, 0x05]),
        Err(SerializationError::BufferTooSmall)
    );
    // A Swapping record whose varint promises a continuation that never comes.
    assert_eq!(
        State::deserialize_from(&[0x05, 0x01, 0x00, 0xAC]),
        Err(SerializationError::BufferTooSmall)
    );
}

#[test]
fn deserialize_rejects_unknown_tag() {
    assert_eq!(
        State::deserialize_from(&[0x07]),
        Err(SerializationError::InvalidFormat)
    );
    assert_eq!(
        State::deserialize_from(&[0xFF, 0x00, 0x00]),
        Err(SerializationError::InvalidFormat)
    );
}

#[test]
fn deserialize_rejects_step_overflow() {
    // Three varint bytes whose third byte does not fit the two remaining
    // bits of a sixteen-bit step.
    assert_eq!(
        State::deserialize_from(&[0x05, 0x01, 0x00, 0x80, 0x80, 0x04]),
        Err(SerializationError::InvalidFormat)
    );
}

#[test]
fn deserialize_ignores_trailing_bytes() {
    assert_eq!(
        State::deserialize_from(&[0x00, 0xAA, 0xBB]),
        Ok(State::Initial)
    );
}

#[test]
fn serialize_into_reports_length() {
    let state = State::Swapping { target: Slot(1), old: Slot(0), step: Step(300) };
    let mut buffer = vec![0u8; MAX_SERIALIZED_SIZE];
    let written = state.serialize_into(&mut buffer).unwrap();
    assert_eq!(written, 5);
    assert_eq!(&buffer[..written], &[0x05, 0x01, 0x00, 0xAC, 0x02]);
    assert_eq!(State::deserialize_from(&buffer), Ok(state));
}

#[test]
fn serialize_into_rejects_short_buffer() {
    let state = State::Request { current: Slot(0), target: Slot(1) };
    let mut buffer = vec![0u8; 2];
    assert_eq!(
        state.serialize_into(&mut buffer),
        Err(SerializationError::BufferTooSmall)
    );
    // The buffer is left untouched.
    assert_eq!(buffer, vec![0u8, 0u8]);
}
