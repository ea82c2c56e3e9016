use lennox_ir::lennox::packet::{rev, EncodeError, Packet};
use lennox_ir::lennox::{ControlState, Fan, Mode};

const MODES: [Mode; 5] = [Mode::Auto, Mode::Cool, Mode::Dry, Mode::Heat, Mode::Fan];
const FANS: [Fan; 5] = [Fan::Zero, Fan::Min, Fan::Medium, Fan::Max, Fan::Auto];

#[test]
fn packet_test_decode() {
    // Power
    let off = 0xa12347ffffeb;
    let on = 0xa1a347ffff6b;

    assert_eq!(Packet(off).power(), false);
    assert_eq!(Packet(on).power(), true);
    assert_eq!(Packet(on).mode().unwrap(), Mode::Heat);
    assert_eq!(Packet(on).fan().unwrap(), Fan::Auto);

    // Temperatures
    assert_eq!(Packet(0xa1a348ffff65).temperature(), Some(25));
    assert_eq!(Packet(0xa1a349ffff64).temperature(), Some(26));
    assert_eq!(Packet(0xa1a34affff66).temperature(), Some(27));
    assert_eq!(Packet(0xa1a34bffff67).temperature(), Some(28));
    assert_eq!(Packet(0xa1a34cffff61).temperature(), Some(29));
    assert_eq!(Packet(0xa1a34dffff60).temperature(), Some(30));

    let state: ControlState = (&Packet(0xa1a34dffff60)).try_into().unwrap();
    assert_eq!(
        state,
        ControlState {
            power: true,
            mode: Mode::Heat,
            temperature: Some(30),
            fan: Fan::Auto,
        }
    );
}

#[test]
fn packet_test_encode() {
    let packets = [Packet(0xa1a348ffff65)];

    for packet in packets.iter() {
        let state: ControlState = packet.try_into().unwrap();
        let packet2: Packet = (&state).try_into().unwrap();
        assert_eq!(packet.0, packet2.0);
    }
}

#[test]
fn test_checksum() {
    let known_packets: &[u64; 7] = &[
        0xa12347ffffeb,
        0xa1a347ffff6b,
        0xa1a348ffff65,
        0xa1a349ffff64,
        0xa1a34affff66,
        0xa1e34dffff20,
        0xa1a34dffff60,
    ];
    let actual_checksums = known_packets.map(|p| Packet(p).checksum());
    let computed_checksums = known_packets.map(|p| Packet(p).compute_checksum());
    assert_eq!(actual_checksums, computed_checksums);
}

#[test]
fn test_rev() {
    let i = 0b1000_1000;
    let o = 0b0001_0001;
    assert_eq!(rev(i), o);
}

#[test]
fn rev_reverses_each_bit() {
    assert_eq!(rev(0), 0);
    assert_eq!(rev(0xFF), 0xFF);
    assert_eq!(rev(0b0000_0001), 0b1000_0000);
    assert_eq!(rev(0b0100_1101), 0b1011_0010);
    for b in 0..=u8::MAX {
        assert_eq!(rev(rev(b)), b);
        assert_eq!(rev(b), b.reverse_bits());
    }
}

#[test]
fn known_packets_decode_to_their_states() {
    let off = Packet(0xa12347ffffeb).to_control_state().unwrap();
    assert_eq!(off.power, false);
    assert_eq!(off.mode, Mode::Heat);
    assert_eq!(off.fan, Fan::Auto);
    assert_eq!(off.temperature, Some(24));
    let on = Packet(0xa1a347ffff6b).to_control_state().unwrap();
    assert_eq!(on.power, true);
    assert_eq!(on.mode, Mode::Heat);
    assert_eq!(on.fan, Fan::Auto);
    assert_eq!(
        Packet(0xa1a348ffff65)
            .to_control_state()
            .unwrap()
            .temperature,
        Some(25)
    );
    assert_eq!(
        Packet(0xa1a34dffff60)
            .to_control_state()
            .unwrap()
            .temperature,
        Some(30)
    );
    // the sleep bit is no part of the state
    assert_eq!(
        Packet(0xa1e34dffff20).to_control_state().unwrap(),
        Packet(0xa1a34dffff60).to_control_state().unwrap()
    );
}

#[test]
fn every_valid_state_survives_its_packet() {
    let mut temperatures: Vec<Option<u8>> = vec![None];
    for t in 17..=30 {
        temperatures.push(Some(t));
    }
    for power in [false, true] {
        for mode in MODES {
            for fan in FANS {
                for &temperature in temperatures.iter() {
                    let state = ControlState {
                        power,
                        mode,
                        temperature,
                        fan,
                    };
                    let packet = Packet::from_control_state(&state).unwrap();
                    assert!(packet.0 <= 0xFFFF_FFFF_FFFF);
                    assert!(packet.validate_checksum());
                    assert_eq!(packet.to_control_state(), Ok(state));
                    let through_trait: Packet = (&state).try_into().unwrap();
                    assert_eq!(through_trait, packet);
                }
            }
        }
    }
}

#[test]
fn from_control_state_writes_each_field() {
    let state = ControlState {
        power: true,
        mode: Mode::Heat,
        temperature: Some(25),
        fan: Fan::Auto,
    };
    assert_eq!(
        Packet::from_control_state(&state),
        Ok(Packet(0xa1a348ffff65))
    );
    let off = ControlState {
        power: false,
        mode: Mode::Heat,
        temperature: Some(24),
        fan: Fan::Auto,
    };
    assert_eq!(Packet::from_control_state(&off), Ok(Packet(0xa12347ffffeb)));
    let fan_only = ControlState {
        power: true,
        mode: Mode::Fan,
        temperature: None,
        fan: Fan::Max,
    };
    let packet = Packet::from_control_state(&fan_only).unwrap();
    assert_eq!(packet.cmd_type(), 0xA1);
    assert_eq!(packet.power(), true);
    assert_eq!(packet.sleep(), false);
    assert_eq!(packet.fan_raw(), 0b011);
    assert_eq!(packet.mode_raw(), 0b100);
    assert_eq!(packet.unknown(), 0b010);
    assert_eq!(packet.temperature_raw(), 0b1110);
    assert_eq!(packet.ones(), 0xFFFF);
    assert_eq!(packet.checksum(), packet.compute_checksum());
    assert_eq!(packet.temperature(), None);
}

#[test]
fn set_temperature_refuses_what_is_out_of_range() {
    let mut packet = Packet::new();
    let before = packet;
    assert_eq!(
        packet.set_temperature(Some(16)),
        Err(EncodeError::TemperatureOutOfRange)
    );
    assert_eq!(
        packet.set_temperature(Some(31)),
        Err(EncodeError::TemperatureOutOfRange)
    );
    assert_eq!(
        packet.set_temperature(Some(0)),
        Err(EncodeError::TemperatureOutOfRange)
    );
    assert_eq!(
        packet.set_temperature(Some(255)),
        Err(EncodeError::TemperatureOutOfRange)
    );
    assert_eq!(packet, before);
    assert_eq!(packet.set_temperature(Some(17)), Ok(()));
    assert_eq!(packet.temperature_raw(), 0);
    assert_eq!(packet.temperature(), Some(17));
    assert_eq!(packet.set_temperature(Some(30)), Ok(()));
    assert_eq!(packet.temperature_raw(), 13);
    assert_eq!(packet.set_temperature(None), Ok(()));
    assert_eq!(packet.temperature_raw(), 0b1110);
    assert_eq!(packet.temperature(), None);
    let state = ControlState {
        power: true,
        mode: Mode::Cool,
        temperature: Some(31),
        fan: Fan::Min,
    };
    assert_eq!(
        Packet::from_control_state(&state),
        Err(EncodeError::TemperatureOutOfRange)
    );
}

#[test]
fn new_sets_the_fixed_fields() {
    let packet = Packet::new();
    assert_eq!(packet.0, 0xa1_00_40_ffff_00);
    assert_eq!(packet.cmd_type(), 0b10100001);
    assert_eq!(packet.unknown(), 0b010);
    assert_eq!(packet.ones(), 0xFFFF);
    assert_eq!(packet.checksum(), 0);
}

#[test]
fn setters_change_one_field() {
    let mut packet = Packet(0xFFFF_0000_0000_0000);
    packet.set_cmd_type(0xA1);
    assert_eq!(packet.0, 0xFFFF_a100_0000_0000);
    packet.set_power(true);
    assert_eq!(packet.0, 0xFFFF_a180_0000_0000);
    packet.set_sleep(true);
    assert_eq!(packet.0, 0xFFFF_a1c0_0000_0000);
    packet.set_sleep(false);
    packet.set_fan_raw(0xFF);
    assert_eq!(packet.0, 0xFFFF_a1b8_0000_0000);
    packet.set_mode_raw(0b101);
    assert_eq!(packet.0, 0xFFFF_a1bd_0000_0000);
    packet.set_unknown(0b010);
    assert_eq!(packet.0, 0xFFFF_a1bd_4000_0000);
    packet.set_temperature_raw(0xFF);
    assert_eq!(packet.0, 0xFFFF_a1bd_5f00_0000);
    packet.set_ones(0x1234);
    assert_eq!(packet.0, 0xFFFF_a1bd_5f12_3400);
    packet.set_checksum(0x56);
    assert_eq!(packet.0, 0xFFFF_a1bd_5f12_3456);
    packet.set_mode(Mode::Dry);
    assert_eq!(packet.mode_raw(), 0b001);
    packet.set_fan(Fan::Medium);
    assert_eq!(packet.fan_raw(), 0b010);
    assert_eq!(packet.0, 0xFFFF_a191_5f12_3456);
}

#[test]
fn mode_and_fan_codes() {
    let codes = [0b010, 0b000, 0b001, 0b011, 0b100];
    for (mode, code) in MODES.iter().zip(codes) {
        let mut packet = Packet::new();
        packet.set_mode(*mode);
        assert_eq!(packet.mode_raw(), code);
        assert_eq!(packet.mode(), Ok(*mode));
    }
    let codes = [0b000, 0b001, 0b010, 0b011, 0b100];
    for (fan, code) in FANS.iter().zip(codes) {
        let mut packet = Packet::new();
        packet.set_fan(*fan);
        assert_eq!(packet.fan_raw(), code);
        assert_eq!(packet.fan(), Ok(*fan));
    }
}

#[test]
fn unknown_codes_are_refused_with_their_value() {
    for code in 5..8u8 {
        let mut packet = Packet::new();
        packet.set_mode_raw(code);
        assert_eq!(packet.mode(), Err(EncodeError::ModeOutOfRange(code)));
        packet.apply_checksum();
        assert_eq!(
            packet.to_control_state(),
            Err(EncodeError::ModeOutOfRange(code))
        );

        let mut packet = Packet::new();
        packet.set_fan_raw(code);
        assert_eq!(packet.fan(), Err(EncodeError::FanOutOfRange(code)));
        packet.apply_checksum();
        assert_eq!(
            packet.to_control_state(),
            Err(EncodeError::FanOutOfRange(code))
        );

        // the mode is looked at before the fan speed
        packet.set_mode_raw(code);
        packet.apply_checksum();
        assert_eq!(
            packet.to_control_state(),
            Err(EncodeError::ModeOutOfRange(code))
        );
    }
}

#[test]
fn fixed_fields_are_checked_before_the_checksum() {
    // wrong command type
    assert_eq!(
        Packet(0xa02347ffffeb).to_control_state(),
        Err(EncodeError::UnexpectedFixedValues)
    );
    // wrong bits 31..29
    assert_eq!(
        Packet(0xa12327ffffeb).to_control_state(),
        Err(EncodeError::UnexpectedFixedValues)
    );
    // wrong bits 23..8
    assert_eq!(
        Packet(0xa12347fffeeb).to_control_state(),
        Err(EncodeError::UnexpectedFixedValues)
    );
    assert_eq!(
        Packet(0).to_control_state(),
        Err(EncodeError::UnexpectedFixedValues)
    );
    let result: Result<ControlState, EncodeError> = (&Packet(0)).try_into();
    assert_eq!(result, Err(EncodeError::UnexpectedFixedValues));
}

#[test]
fn a_wrong_checksum_is_refused() {
    assert_eq!(
        Packet(0xa12347ffffea).to_control_state(),
        Err(EncodeError::ChecksumMismatch)
    );
    // power changed, checksum not
    assert_eq!(
        Packet(0xa1a347ffffeb).to_control_state(),
        Err(EncodeError::ChecksumMismatch)
    );
    assert!(!Packet(0xa1a347ffffeb).validate_checksum());
    assert!(Packet(0xa1a347ffff6b).validate_checksum());
}

#[test]
fn checksum_is_computed_from_the_fields_above_it() {
    assert_eq!(Packet(0xa12347ffffeb).compute_checksum(), 0xeb);
    assert_eq!(Packet(0xa12347ffff00).compute_checksum(), 0xeb);
    assert_eq!(Packet(0).compute_checksum(), 0);
    // reversed bytes that add up to 256 leave nothing to add
    assert_eq!(Packet(0x0101_00).compute_checksum(), 0);
    assert_eq!(Packet(0x01_00).compute_checksum(), 0x01);
    let mut packet = Packet(0xa1a348ffff00);
    packet.apply_checksum();
    assert_eq!(packet.0, 0xa1a348ffff65);
}
