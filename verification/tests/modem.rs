use lennox_ir::broadlink::{ParseError, Recording, Transport};
use lennox_ir::duration::Duration;
use lennox_ir::modem::codecs::{
    decode_line, AnyCodec, Base64Error, BroadlinkBase64, BroadlinkHex, HexError, Line, Raw,
};
use lennox_ir::modem::{create_codec, Codec, CodecError, CodecType};

fn sample() -> Recording {
    Recording {
        repeat_count: 1,
        transport: Transport::Rf315,
        pulses: vec![
            Duration::from_micros(550),
            Duration::from_micros(100_000),
            Duration::from_micros(1550),
            Duration::from_micros(4000),
        ],
    }
}

fn read_back(recording: &Recording) -> Recording {
    Recording::parse(&recording.serialize()).unwrap()
}

#[test]
fn test() {
    let b = r"JgDKAIyREjQSEhI0EjUTERESETUTERETETQSEhISETUSNBISEjQTNBISEhESNBM0EjQTNBM0EhISNBI0ExESERISEhESERISEhESNBM0EjQTNBISEhESNBM0EhISERIREhISNBI0E6qRkBM0ExESNBI0ExESEhI0EhISERI0EhISERI0EzQSEhE1EjQTERETETUSNBI1ETUSNRIREjUSNRESEhIREhESERMREhESETUSNRI0EjUSEhATETUSNRISERIQFA8TETYQNhEADQUAAAAAAAAAAAAAAAAAAA==";
    let d = BroadlinkBase64.decode(b).unwrap();
    assert_eq!(d.transport, Transport::Ir);
    assert_eq!(d.repeat_count, 0);
    assert_eq!(d.pulses.len(), 200);
    assert_eq!(d.pulses[0], Duration::from_broadlink(0x8c));
    assert_eq!(d.pulses[199], Duration::from_broadlink(0x0d05));
}

#[test]
fn hex_codec_writes_lower_case_digits() {
    let text = BroadlinkHex.encode(&sample()).unwrap();
    assert_eq!(text, "d701060012000cd43383");
    assert_eq!(BroadlinkHex.decode(&text).unwrap(), read_back(&sample()));
    assert_eq!(
        BroadlinkHex.decode("D701060012000CD43383").unwrap(),
        read_back(&sample())
    );
}

#[test]
fn hex_codec_completes_an_odd_number_of_bytes() {
    // five bytes: the header and an escape that is cut short by the end
    let recording = BroadlinkHex.decode("2603020012").unwrap();
    assert_eq!(recording.repeat_count, 3);
    assert_eq!(
        recording.pulses,
        vec![Duration::from_broadlink(0x12), Duration::from_millis(100)]
    );
    // three bytes become four, with a length of zero
    let empty = BroadlinkHex.decode("260500").unwrap();
    assert_eq!(empty.repeat_count, 5);
    assert!(empty.pulses.is_empty());
}

#[test]
fn hex_codec_errors() {
    assert!(matches!(
        BroadlinkHex.decode(""),
        Err(CodecError::EmptyInput)
    ));
    assert!(matches!(
        BroadlinkHex.decode("260"),
        Err(CodecError::HexDecodeError(HexError::OddLength))
    ));
    assert!(matches!(
        BroadlinkHex.decode("26zz"),
        Err(CodecError::HexDecodeError(HexError::InvalidHexCharacter {
            c: 'z',
            index: 2
        }))
    ));
    assert!(matches!(
        BroadlinkHex.decode("27000000"),
        Err(CodecError::BroadlinkParseError(
            ParseError::InvalidTransport(0x27)
        ))
    ));
    assert!(matches!(
        BroadlinkHex.decode("2600"),
        Err(CodecError::BroadlinkParseError(ParseError::Truncated))
    ));
}

#[test]
fn base64_codec_roundtrip() {
    let text = BroadlinkBase64.encode(&sample()).unwrap();
    assert_eq!(text, "1wEGABIADNQzgw==");
    assert_eq!(
        BroadlinkBase64.decode(&text).unwrap(),
        read_back(&sample())
    );
}

#[test]
fn base64_codec_errors() {
    assert!(matches!(
        BroadlinkBase64.decode("1wEH*BIA"),
        Err(CodecError::Base64DecodeError(Base64Error::InvalidByte(
            4, b'*'
        )))
    ));
    assert!(matches!(
        BroadlinkBase64.decode("1wEHA"),
        Err(CodecError::Base64DecodeError(Base64Error::InvalidLength))
    ));
    assert!(matches!(
        BroadlinkBase64.decode("1wEHAB=="),
        Err(CodecError::Base64DecodeError(
            Base64Error::InvalidLastSymbol(5, b'B')
        ))
    ));
    assert!(matches!(
        BroadlinkBase64.decode(""),
        Err(CodecError::BroadlinkParseError(ParseError::Truncated))
    ));
    assert!(matches!(
        BroadlinkBase64.decode("AAAA"),
        Err(CodecError::BroadlinkParseError(
            ParseError::InvalidTransport(0)
        ))
    ));
}

#[test]
fn raw_codec_reads_signed_microseconds() {
    let recording = Raw.decode("+9000 -4500 +560").unwrap();
    assert_eq!(recording.transport, Transport::Ir);
    assert_eq!(recording.repeat_count, 0);
    assert_eq!(
        recording.pulses,
        vec![
            Duration::from_micros(9000),
            Duration::from_micros(4500),
            Duration::from_micros(560)
        ]
    );
    assert_eq!(
        Raw.encode(&recording).unwrap(),
        "+9000 -4500 +560 "
    );
    assert_eq!(
        Raw.decode(&Raw.encode(&recording).unwrap()).unwrap(),
        recording
    );
}

#[test]
fn raw_codec_reads_the_first_bracket_behind_a_frequency() {
    let recording = Raw.decode("Freq=38400Hz[+9000 -4500][+560 -560]").unwrap();
    assert_eq!(
        recording.pulses,
        vec![Duration::from_micros(9000), Duration::from_micros(4500)]
    );
    assert_eq!(Raw::payload("Freq=38400Hz[+1 -2][+3]"), Some("+1 -2"));
    assert_eq!(Raw::payload("Freq=38400Hz[+1 -2"), Some("+1 -2"));
    assert_eq!(Raw::payload("Freq=[]"), Some(""));
    assert_eq!(Raw::payload("Freq=38400Hz"), None);
    assert_eq!(Raw::payload("Freq"), Some("Freq"));
    assert_eq!(Raw::payload("freq=1[+1]"), Some("freq=1[+1]"));
    assert_eq!(Raw::payload("+1 -2]"), Some("+1 -2]"));
    assert_eq!(Raw::payload(""), Some(""));
}

#[test]
fn raw_codec_errors() {
    assert!(matches!(
        Raw.decode("Freq=38400Hz"),
        Err(CodecError::RawParseError)
    ));
    assert!(matches!(Raw.decode(""), Err(CodecError::RawParseError)));
    assert!(matches!(
        Raw.decode("+9000 +4500"),
        Err(CodecError::RawParseError)
    ));
    assert!(matches!(
        Raw.decode("Freq=38400Hz[][+560]"),
        Err(CodecError::RawParseError)
    ));
}

#[test]
fn create_codec_picks_the_text_form() {
    let recording = sample();
    let hex = create_codec(CodecType::Hex);
    assert_eq!(hex, AnyCodec { ty: CodecType::Hex });
    assert_eq!(hex.encode(&recording).unwrap(), "d701060012000cd43383");
    assert_eq!(
        hex.decode("d701060012000cd43383").unwrap(),
        read_back(&recording)
    );
    let base64 = create_codec(CodecType::Base64);
    assert_eq!(base64.encode(&recording).unwrap(), "1wEGABIADNQzgw==");
    assert_eq!(
        base64.decode("1wEGABIADNQzgw==").unwrap(),
        read_back(&recording)
    );
    let raw = create_codec(CodecType::Raw);
    assert_eq!(
        raw.encode(&recording).unwrap(),
        "+550 -100000 +1550 -4000 "
    );
    assert_eq!(
        raw.decode("+550 -100000 +1550 -4000").unwrap().pulses,
        recording.pulses
    );
    assert!(matches!(
        raw.decode("d701060012000cd43383"),
        Err(CodecError::RawParseError)
    ));
}

#[test]
fn decode_line_reads_hexadecimal_before_base64() {
    // hexadecimal: 26 00 00 00, and the zero byte at the end
    assert_eq!(
        decode_line("26000000"),
        Ok(Line::Recording(Recording::new_ir(Vec::new())))
    );
    // "JgEAAA==" is no hexadecimal, and base64 of 26 01 00 00
    let recording = match decode_line("JgEAAA==") {
        Ok(Line::Recording(recording)) => recording,
        other => panic!("{:?}", other),
    };
    assert_eq!(recording.repeat_count, 1);
    assert!(recording.pulses.is_empty());
    // a text of hexadecimal digits that is base64 as well is read as the first
    let recording = match decode_line("b2050100aa") {
        Ok(Line::Recording(recording)) => recording,
        other => panic!("{:?}", other),
    };
    assert_eq!(recording.transport, Transport::Rf433);
    assert_eq!(recording.repeat_count, 5);
    assert_eq!(
        recording.pulses,
        vec![Duration::from_broadlink(0xaa), Duration::from_millis(100)]
    );
}

#[test]
fn decode_line_adds_a_zero_byte() {
    // the announced length is one byte more than the line holds
    let recording = match decode_line("2600020012") {
        Ok(Line::Recording(recording)) => recording,
        other => panic!("{:?}", other),
    };
    assert_eq!(
        recording.pulses,
        vec![Duration::from_broadlink(0x12), Duration::from_millis(100)]
    );
}

#[test]
fn decode_line_passes_other_lines_on() {
    assert_eq!(decode_line("learning started"), Ok(Line::Text));
    assert_eq!(decode_line("26z!"), Ok(Line::Text));
    // no hexadecimal, and base64 of db ac f3
    assert_eq!(
        decode_line("26zz"),
        Err(ParseError::InvalidTransport(0xdb))
    );
    assert_eq!(decode_line(""), Ok(Line::Empty));
    assert_eq!(
        decode_line("27000000"),
        Err(ParseError::InvalidTransport(0x27))
    );
    assert_eq!(decode_line("2600ff"), Err(ParseError::Truncated));
}
