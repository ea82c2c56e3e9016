use lennox_ir::broadlink::{Recording, Transport};
use lennox_ir::duration::Duration;
use lennox_ir::lennox::packet::EncodeError;
use lennox_ir::lennox::{ControlState, DecodeError, Fan, Mode, PhyError, StateError};
use lennox_ir::modem::codecs::{BroadlinkBase64, BroadlinkHex, Codec};
use lennox_ir::pwm::CodecError;
use lennox_ir::smartir::{command_states, encode_state};

const OFF_HEX: &str = "2600c800838312331233121212331212123312331233123312331233123312331233123312331233123312331233123312331233123312331233123312121212121212331212123312331212121212121233121212121233121212121212121212331212123312a9838312121212123312121233121212121212121212121212121212121212121212121212121212121212121212121212121212121212121212331233123312121233121212121233123312331212123312331212123312331233123312121233121212a9";

const OFF_BASE64: &str = "JgDIAIODEjMSMxISEjMSEhIzEjMSMxIzEjMSMxIzEjMSMxIzEjMSMxIzEjMSMxIzEjMSMxIzEjMSMxIzEhISEhISEjMSEhIzEjMSEhISEhISMxISEhISMxISEhISEhISEjMSEhIzEqmDgxISEhISMxISEjMSEhISEhISEhISEhISEhISEhISEhISEhISEhISEhISEhISEhISEhISEhISEhIzEjMSMxISEjMSEhISEjMSMxIzEhISMxIzEhISMxIzEjMSMxISEjMSEhKp";

fn off() -> ControlState {
    ControlState {
        power: false,
        mode: Mode::Heat,
        temperature: Some(24),
        fan: Fan::Auto,
    }
}

#[test]
fn a_state_has_one_recording() {
    let recording = off().to_recording().unwrap();
    assert_eq!(recording.transport, Transport::Ir);
    assert_eq!(recording.repeat_count, 0);
    assert_eq!(recording.pulses.len(), 200);
    assert_eq!(BroadlinkHex.encode(&recording).unwrap(), OFF_HEX);
    assert_eq!(BroadlinkBase64.encode(&recording).unwrap(), OFF_BASE64);
    assert_eq!(encode_state(&off()).unwrap(), OFF_BASE64);
}

#[test]
fn a_recording_sets_a_state() {
    let recording = BroadlinkHex.decode(OFF_HEX).unwrap();
    assert_eq!(ControlState::from_recording(&recording), Ok(off()));
    let recording = BroadlinkBase64.decode(OFF_BASE64).unwrap();
    assert_eq!(ControlState::from_recording(&recording), Ok(off()));
}

#[test]
fn every_valid_state_survives_the_wire() {
    let mut temperatures: Vec<Option<u8>> = vec![None];
    for t in 17..=30 {
        temperatures.push(Some(t));
    }
    for power in [false, true] {
        for mode in [Mode::Auto, Mode::Cool, Mode::Dry, Mode::Heat, Mode::Fan] {
            for fan in [Fan::Zero, Fan::Min, Fan::Medium, Fan::Max, Fan::Auto] {
                for &temperature in temperatures.iter() {
                    let state = ControlState {
                        power,
                        mode,
                        temperature,
                        fan,
                    };
                    let sent = state.to_recording().unwrap();
                    assert_eq!(ControlState::from_recording(&sent), Ok(state));
                    let received = Recording::from_bytes(sent.to_bytes()).unwrap();
                    assert_eq!(received.pulses.len(), 200);
                    assert_eq!(ControlState::from_recording(&received), Ok(state));
                    assert_eq!(received.to_bytes(), sent.to_bytes());
                }
            }
        }
    }
}

#[test]
fn a_temperature_out_of_range_has_no_recording() {
    for t in [0, 16, 31, 255] {
        let state = ControlState {
            temperature: Some(t),
            ..off()
        };
        assert_eq!(
            state.to_recording(),
            Err(EncodeError::TemperatureOutOfRange)
        );
        assert_eq!(encode_state(&state), Err(EncodeError::TemperatureOutOfRange));
    }
}

#[test]
fn from_recording_tells_link_errors_from_packet_errors() {
    let mut recording = off().to_recording().unwrap();
    recording.pulses[3] = Duration::from_micros(2500);
    assert_eq!(
        ControlState::from_recording(&recording),
        Err(StateError::Link(PhyError::PWMError(
            CodecError::InvalidPulseLength(Duration::from_micros(2500))
        )))
    );
    let mut recording = off().to_recording().unwrap();
    // the lowest bit of the payload, in the first frame only
    recording.pulses[3] = Duration::from_micros(550);
    assert_eq!(
        ControlState::from_recording(&recording),
        Err(StateError::Link(PhyError::DecodeError(
            DecodeError::RepeatMismatch
        )))
    );
    // the lowest bit of the payload in both frames: another checksum
    recording.pulses[103] = Duration::from_micros(1550);
    assert_eq!(
        ControlState::from_recording(&recording),
        Err(StateError::Packet(EncodeError::ChecksumMismatch))
    );
    let empty = Recording::new_ir(Vec::new());
    assert_eq!(
        ControlState::from_recording(&empty),
        Err(StateError::Link(PhyError::DecodeError(
            DecodeError::TruncatedMessage
        )))
    );
}

#[test]
fn the_code_file_lists_every_mode_and_fan_speed() {
    let states = command_states();
    assert_eq!(states.len(), 4 * 4 * 14 + 4 + 1);
    assert_eq!(
        states[0],
        ControlState {
            power: true,
            mode: Mode::Auto,
            temperature: Some(17),
            fan: Fan::Min,
        }
    );
    assert_eq!(
        states[13],
        ControlState {
            power: true,
            mode: Mode::Auto,
            temperature: Some(30),
            fan: Fan::Min,
        }
    );
    assert_eq!(
        states[14],
        ControlState {
            power: true,
            mode: Mode::Auto,
            temperature: Some(17),
            fan: Fan::Medium,
        }
    );
    assert_eq!(
        states[4 * 14],
        ControlState {
            power: true,
            mode: Mode::Cool,
            temperature: Some(17),
            fan: Fan::Min,
        }
    );
    assert_eq!(
        &states[224..228],
        &[Fan::Min, Fan::Medium, Fan::Max, Fan::Auto].map(|fan| ControlState {
            power: true,
            mode: Mode::Fan,
            temperature: None,
            fan,
        })
    );
    assert_eq!(
        states[228],
        ControlState {
            power: false,
            mode: Mode::Auto,
            temperature: None,
            fan: Fan::Auto,
        }
    );
    assert!(states.iter().all(|state| state.fan != Fan::Zero));
    for (i, state) in states.iter().enumerate() {
        assert!(encode_state(state).is_ok());
        assert!(!states[..i].contains(state));
    }
}

#[test]
fn test_generate() {
    let codes: Vec<String> = command_states()
        .iter()
        .map(|state| encode_state(state).unwrap())
        .collect();
    assert_eq!(codes.len(), 229);
    // the state that switches the unit off comes last
    assert_eq!(
        codes[228],
        encode_state(&ControlState {
            power: false,
            mode: Mode::Auto,
            temperature: None,
            fan: Fan::Auto,
        })
        .unwrap()
    );
    for code in codes.iter() {
        let recording = BroadlinkBase64.decode(code).unwrap();
        assert_eq!(recording.pulses.len(), 200);
    }
}
