use lennox_ir::duration::Duration;
use lennox_ir::pwm::{Codec, CodecError, Rule};

#[derive(Debug, Clone, Copy, Eq, PartialEq, Hash)]
enum Pulse {
    Short,
    Long,
}

fn get_codec() -> Codec<Pulse> {
    let rules = [
        (Pulse::Short, Rule::new(Duration::from_micros(100))),
        (Pulse::Long, Rule::new(Duration::from_micros(500))),
    ];
    Codec::new(rules.to_vec())
}

#[test]
fn pwm_test_decode() {
    let pulses = [100, 500, 100, 500, 500, 500, 500, 100].map(|d| Duration::from_micros(d));
    let decoded = get_codec().decode(&pulses).unwrap();
    assert_eq!(
        decoded,
        vec![
            (Pulse::Short, Pulse::Long),
            (Pulse::Short, Pulse::Long),
            (Pulse::Long, Pulse::Long),
            (Pulse::Long, Pulse::Short),
        ]
    );
}

#[test]
fn pwm_test_encode() {
    let pulses = [
        Pulse::Short,
        Pulse::Long,
        Pulse::Long,
        Pulse::Long,
        Pulse::Long,
        Pulse::Short,
    ];

    let encoded = get_codec().encode(&pulses).unwrap();
    assert_eq!(
        encoded,
        vec![
            Duration::from_micros(100),
            Duration::from_micros(500),
            Duration::from_micros(500),
            Duration::from_micros(500),
            Duration::from_micros(500),
            Duration::from_micros(100),
        ]
    );
}

#[test]
fn rule_tolerance_is_a_fifth() {
    let rule = Rule::new(Duration::from_micros(550));
    assert_eq!(rule.duration, Duration::from_micros(550));
    assert_eq!(rule.tolerance, Duration::from_micros(110));
    assert_eq!(
        Rule::new(Duration::from_nanos(9)).tolerance,
        Duration::from_nanos(1)
    );
}

#[test]
fn rule_window_includes_its_bounds() {
    let rule = Rule::new(Duration::from_micros(550));
    assert!(rule.matches(Duration::from_micros(550)));
    assert!(rule.matches(Duration::from_micros(440)));
    assert!(rule.matches(Duration::from_micros(660)));
    assert!(!rule.matches(Duration::from_nanos(439_999)));
    assert!(!rule.matches(Duration::from_nanos(660_001)));
}

#[test]
fn decode_pulse_prefers_the_shorter_rule() {
    // given longest first: 5150 +- 1030 and 4000 +- 800 share 4120..4800
    let codec = Codec::new(vec![
        (5150u32, Rule::new(Duration::from_micros(5150))),
        (4000u32, Rule::new(Duration::from_micros(4000))),
    ]);
    assert_eq!(codec.decode_pulse(Duration::from_micros(4500)), Ok(4000));
    assert_eq!(codec.decode_pulse(Duration::from_micros(4800)), Ok(4000));
    assert_eq!(codec.decode_pulse(Duration::from_micros(4801)), Ok(5150));
    assert_eq!(codec.decode_pulse(Duration::from_micros(3200)), Ok(4000));
    assert_eq!(codec.decode_pulse(Duration::from_micros(6180)), Ok(5150));
}

#[test]
fn decode_pulse_refuses_a_pulse_in_no_window() {
    let codec = get_codec();
    assert_eq!(
        codec.decode_pulse(Duration::from_micros(300)),
        Err(CodecError::InvalidPulseLength(Duration::from_micros(300)))
    );
    assert_eq!(
        Codec::<Pulse>::new(Vec::new()).decode_pulse(Duration::from_micros(1)),
        Err(CodecError::InvalidPulseLength(Duration::from_micros(1)))
    );
}

#[test]
fn decode_reports_the_first_pulse_in_no_window() {
    let pulses = [100, 500, 250, 700, 100, 100].map(|d| Duration::from_micros(d));
    assert_eq!(
        get_codec().decode(&pulses),
        Err(CodecError::InvalidPulseLength(Duration::from_micros(250)))
    );
    let pulses = [100, 700, 250, 100].map(|d| Duration::from_micros(d));
    assert_eq!(
        get_codec().decode(&pulses),
        Err(CodecError::InvalidPulseLength(Duration::from_micros(700)))
    );
}

#[test]
fn decode_misses_the_off_pulse_of_an_odd_train() {
    let pulses = [100, 500, 100].map(|d| Duration::from_micros(d));
    assert_eq!(
        get_codec().decode(&pulses),
        Err(CodecError::MissingOffPulse)
    );
    // a pulse of a whole pair that fits no window is found first
    let pulses = [100, 300, 100].map(|d| Duration::from_micros(d));
    assert_eq!(
        get_codec().decode(&pulses),
        Err(CodecError::InvalidPulseLength(Duration::from_micros(300)))
    );
    // the pulse that is left over is not looked at
    let pulses = [100, 500, 300].map(|d| Duration::from_micros(d));
    assert_eq!(
        get_codec().decode(&pulses),
        Err(CodecError::MissingOffPulse)
    );
    assert_eq!(get_codec().decode(&[]), Ok(Vec::new()));
}

#[test]
fn encode_refuses_a_symbol_without_a_rule() {
    let codec = Codec::new(vec![(Pulse::Short, Rule::new(Duration::from_micros(100)))]);
    assert_eq!(
        codec.encode_pulse(Pulse::Short),
        Some(Duration::from_micros(100))
    );
    assert_eq!(codec.encode_pulse(Pulse::Long), None);
    assert_eq!(
        codec.encode(&[Pulse::Short, Pulse::Long, Pulse::Short]),
        Err(CodecError::InvalidPulse(Pulse::Long))
    );
    assert_eq!(codec.encode(&[]), Ok(Vec::new()));
}

#[test]
fn encode_pulse_takes_the_last_rule_of_a_symbol() {
    let codec = Codec::new(vec![
        (Pulse::Short, Rule::new(Duration::from_micros(300))),
        (Pulse::Long, Rule::new(Duration::from_micros(200))),
        (Pulse::Short, Rule::new(Duration::from_micros(100))),
    ]);
    // in ascending order the rule of 300 us comes last
    assert_eq!(
        codec.encode_pulse(Pulse::Short),
        Some(Duration::from_micros(300))
    );
    assert_eq!(
        codec.decode_pulse(Duration::from_micros(100)),
        Ok(Pulse::Short)
    );
    assert_eq!(
        codec.decode_pulse(Duration::from_micros(210)),
        Ok(Pulse::Long)
    );
}

#[test]
fn rules_of_one_duration_keep_their_order() {
    let codec = Codec::new(vec![
        (1u8, Rule::new(Duration::from_micros(100))),
        (2u8, Rule::new(Duration::from_micros(100))),
    ]);
    assert_eq!(codec.decode_pulse(Duration::from_micros(100)), Ok(1));
}
