//! The text forms in which a recording is written down: the wire format in
//! hexadecimal or in base64, and the pulse lengths in plain numbers.

use crate::broadlink::{
    pulses_view, raw_format, wire_decoded, wire_encoded, ParseError, Recording, RecordingView,
};
use vstd::prelude::*;
use vstd::string::StrSliceExecFns;

verus! {

/// The text forms of a recording.
#[derive(Debug, Clone, Copy, PartialEq, Eq, Structural)]
pub enum CodecType {
    Base64,
    Hex,
    Raw,
}

/// A text form of a recording.
pub trait Codec {
    type Error;

    /// Reads a recording from its text form.
    fn decode(&self, input: &str) -> Result<Recording, Self::Error>;

    /// Writes a recording down.
    fn encode(&self, recording: &Recording) -> Result<String, Self::Error>;
}

/// Why a text is no hexadecimal number of whole bytes.
#[derive(Debug, Clone, Copy, PartialEq, Eq)]
pub enum HexError {
    /// The character at the given byte offset is no hexadecimal digit.
    InvalidHexCharacter { c: char, index: usize },
    /// The number of digits is odd.
    OddLength,
    /// The number of digits is not the one that was asked for.
    InvalidStringLength,
}

/// Why a text is no base64.
#[derive(Debug, Clone, Copy, PartialEq, Eq)]
pub enum Base64Error {
    /// The byte at the given offset is no base64 symbol.
    InvalidByte(usize, u8),
    /// The text has a length that no base64 text has.
    InvalidLength,
    /// The last symbol, at the given offset, holds bits that belong to no
    /// byte.
    InvalidLastSymbol(usize, u8),
}

/// Why a text holds no recording.
#[derive(Debug)]
pub enum CodecError {
    /// The text is no hexadecimal number of whole bytes.
    HexDecodeError(HexError),
    /// The text is no base64.
    Base64DecodeError(Base64Error),
    /// The bytes are no recording in the wire format.
    BroadlinkParseError(ParseError),
    /// The text is no list of pulse lengths.
    RawParseError,
    /// The text holds no byte.
    EmptyInput,
}

/// The value of a hexadecimal digit, upper or lower case.
pub open spec fn hex_digit_value(c: char) -> Option<u8> {
    if '0' <= c <= '9' {
        Some((c as u8 - '0' as u8) as u8)
    } else if 'a' <= c <= 'f' {
        Some((c as u8 - 'a' as u8 + 10) as u8)
    } else if 'A' <= c <= 'F' {
        Some((c as u8 - 'A' as u8 + 10) as u8)
    } else {
        None
    }
}

/// The bytes that a text of hexadecimal digits stands for, two digits for
/// each byte; none where a character is no digit or a digit is left over.
pub open spec fn hex_decoded(text: Seq<char>) -> Option<Seq<u8>> {
    if text.len() % 2 == 0 && forall|i: int|
        0 <= i < text.len() ==> hex_digit_value(#[trigger] text[i]) is Some {
        Some(
            Seq::new(
                text.len() / 2,
                |i: int|
                    (hex_digit_value(text[2 * i]).unwrap() * 16 + hex_digit_value(
                        text[2 * i + 1],
                    ).unwrap()) as u8,
            ),
        )
    } else {
        None
    }
}

/// The lower-case hexadecimal digit of a value below 16.
pub open spec fn hex_digit(value: int) -> char {
    if value < 10 {
        ('0' as u8 + value) as char
    } else {
        ('a' as u8 + value - 10) as char
    }
}

/// `data` in lower-case hexadecimal digits, two for each byte.
pub open spec fn hex_encoded(data: Seq<u8>) -> Seq<char> {
    Seq::new(
        2 * data.len(),
        |i: int|
            if i % 2 == 0 {
                hex_digit(data[i / 2] as int / 16)
            } else {
                hex_digit(data[i / 2] as int % 16)
            },
    )
}

/// Why `hex::decode` reads no bytes from a text, where it reads none.
pub uninterp spec fn hex_failure(text: Seq<char>) -> HexError;

/// What `base64::decode` gives for a text: the bytes that it reads, or why
/// it reads none.
pub uninterp spec fn base64_decoded(text: Seq<char>) -> Result<Seq<u8>, Base64Error>;

/// The text that `base64::encode` writes for `data`.
pub uninterp spec fn base64_encoded(data: Seq<u8>) -> Seq<char>;

/// The pulse lengths in microseconds that `irp::Message::parse` reads from a
/// text such as `+9000 -4500 +560`, if it reads any.
pub uninterp spec fn raw_parsed(text: Seq<char>) -> Option<Seq<u32>>;

/// `hex::decode`: reads two hexadecimal digits for each byte, in upper or
/// lower case, and fails on any other character and on an odd number of
/// digits; why it fails depends on the text alone. Its error is handed out
/// case by case.
#[verifier::external_body]
fn hex_decode(input: &str) -> (r: Result<Vec<u8>, HexError>)
    ensures
        match r {
            Ok(bytes) => hex_decoded(input@) == Some(bytes@),
            Err(e) => hex_decoded(input@) is None && e == hex_failure(input@),
        },
{
    match hex::decode(input) {
        Ok(bytes) => Ok(bytes),
        Err(hex::FromHexError::InvalidHexCharacter { c, index }) => Err(
            HexError::InvalidHexCharacter { c, index },
        ),
        Err(hex::FromHexError::OddLength) => Err(HexError::OddLength),
        Err(hex::FromHexError::InvalidStringLength) => Err(HexError::InvalidStringLength),
    }
}

/// `hex::encode`: writes two lower-case hexadecimal digits for each byte.
#[verifier::external_body]
fn hex_encode(data: &[u8]) -> (text: String)
    ensures
        text@ == hex_encoded(data@),
{
    hex::encode(data)
}

/// `base64::decode`: what it reads, or why it reads nothing, depends on the
/// text alone. Its length computations cannot overflow, since no text holds
/// more than `isize::MAX` bytes. Its error is handed out case by case.
#[verifier::external_body]
fn base64_decode(input: &str) -> (r: Result<Vec<u8>, Base64Error>)
    ensures
        match r {
            Ok(bytes) => base64_decoded(input@) == Ok::<Seq<u8>, Base64Error>(bytes@),
            Err(e) => base64_decoded(input@) == Err::<Seq<u8>, Base64Error>(e),
        },
{
    match base64::decode(input) {
        Ok(bytes) => Ok(bytes),
        Err(base64::DecodeError::InvalidByte(at, byte)) => Err(Base64Error::InvalidByte(at, byte)),
        Err(base64::DecodeError::InvalidLength) => Err(Base64Error::InvalidLength),
        Err(base64::DecodeError::InvalidLastSymbol(at, byte)) => Err(
            Base64Error::InvalidLastSymbol(at, byte),
        ),
    }
}

/// `base64::encode`: what it writes depends on the bytes alone. Its length
/// computation cannot overflow, since no slice holds more than `isize::MAX`
/// bytes.
#[verifier::external_body]
fn base64_encode(data: &[u8]) -> (text: String)
    ensures
        text@ == base64_encoded(data@),
{
    base64::encode(data)
}

/// `irp::Message::parse`: what it reads depends on the text alone. The pulse
/// lengths are handed out; the reason of a failure is dropped.
#[verifier::external_body]
fn raw_parse(input: &str) -> (r: Option<Vec<u32>>)
    ensures
        match r {
            Some(micros) => raw_parsed(input@) == Some(micros@),
            None => raw_parsed(input@) is None,
        },
{
    match irp::Message::parse(input) {
        Ok(message) => Some(message.raw),
        Err(_) => None,
    }
}

/// The wire format in hexadecimal digits.
pub struct BroadlinkHex;

/// The wire format in base64.
pub struct BroadlinkBase64;

/// The pulse lengths in plain numbers, as in `+9000 -4500 +560`.
pub struct Raw;

/// `bytes`, with a zero byte at the end where their number is odd.
pub open spec fn even_padded(bytes: Seq<u8>) -> Seq<u8> {
    if bytes.len() % 2 != 0 {
        bytes.push(0u8)
    } else {
        bytes
    }
}



/// The index of the first `c` in `text` at or after `from`, or the length
/// of `text` where there is none.
pub open spec fn index_of(text: Seq<char>, c: char, from: int) -> int
    decreases text.len() - from,
{
    if from < 0 || from >= text.len() {
        text.len() as int
    } else if text[from] == c {
        from
    } else {
        index_of(text, c, from + 1)
    }
}

/// The marker that begins a text with a carrier frequency in front, as in
/// `Freq=38400Hz[+9000 -4500][+560 -560]`.
pub open spec fn frequency_marker() -> Seq<char> {
    seq!['F', 'r', 'e', 'q', '=']
}

/// The part of `text` that holds the pulse lengths. A text that begins with
/// the frequency marker holds them between its first `[` and the next `]`,
/// or the end where no `]` follows; without a `[` it holds none. Any other
/// text holds them as it is.
pub open spec fn raw_payload(text: Seq<char>) -> Option<Seq<char>> {
    if text.len() >= 5 && text.subrange(0, 5) == frequency_marker() {
        let open = index_of(text, '[', 0);
        if open >= text.len() {
            None
        } else {
            Some(text.subrange(open + 1, index_of(text, ']', open + 1)))
        }
    } else {
        Some(text)
    }
}

/// Whether `r` is what reading `text` as the wire format in hexadecimal
/// digits gives: the recording, or the first of these errors that applies:
/// the text is no hexadecimal; it holds no byte; its bytes, completed to an
/// even number by a zero byte, are no recording.
pub open spec fn hex_reading(text: Seq<char>, r: Result<Recording, CodecError>) -> bool {
    match r {
        Ok(rec) => hex_decoded(text) matches Some(bytes) && bytes.len() > 0 && wire_decoded(
            even_padded(bytes),
        ) == Ok::<RecordingView, ParseError>(rec@),
        Err(CodecError::HexDecodeError(e)) => hex_decoded(text) is None && e == hex_failure(text),
        Err(CodecError::EmptyInput) => hex_decoded(text) == Some(Seq::<u8>::empty()),
        Err(CodecError::BroadlinkParseError(e)) => hex_decoded(text) matches Some(bytes)
            && bytes.len() > 0 && wire_decoded(even_padded(bytes)) == Err::<
            RecordingView,
            ParseError,
        >(e),
        Err(_) => false,
    }
}

/// Whether `r` is what reading `text` as the wire format in base64 gives:
/// the recording, or the first of these errors that applies: the text is no
/// base64; its bytes are no recording.
pub open spec fn base64_reading(text: Seq<char>, r: Result<Recording, CodecError>) -> bool {
    match r {
        Ok(rec) => base64_decoded(text) matches Ok(bytes) && wire_decoded(bytes) == Ok::<
            RecordingView,
            ParseError,
        >(rec@),
        Err(CodecError::Base64DecodeError(e)) => base64_decoded(text) == Err::<
            Seq<u8>,
            Base64Error,
        >(e),
        Err(CodecError::BroadlinkParseError(e)) => base64_decoded(text) matches Ok(bytes)
            && wire_decoded(bytes) == Err::<RecordingView, ParseError>(e),
        Err(_) => false,
    }
}

/// Whether `r` is what reading `text` as pulse lengths gives: the
/// recording, or an error where the text holds no pulse lengths.
pub open spec fn raw_reading(text: Seq<char>, r: Result<Recording, CodecError>) -> bool {
    match r {
        Ok(rec) => raw_payload(text) matches Some(part) && raw_parsed(part) matches Some(micros)
            && rec@ == pulses_view(micros),
        Err(CodecError::RawParseError) => raw_payload(text) matches Some(part) ==> raw_parsed(
            part,
        ) is None,
        Err(_) => false,
    }
}


impl Codec for BroadlinkHex {
    type Error = CodecError;

    /// Reads the wire format from hexadecimal digits. An odd number of
    /// bytes is completed by a zero byte.
    fn decode(&self, input: &str) -> (r: Result<Recording, CodecError>)
        ensures
            hex_reading(input@, r),
    {
        let mut decoded = match hex_decode(input) {
            Ok(bytes) => bytes,
            Err(e) => {
                return Err(CodecError::HexDecodeError(e));
            },
        };
        if decoded.len() == 0 {
            assert(decoded@ =~= Seq::<u8>::empty());
            return Err(CodecError::EmptyInput);
        } else if decoded.len() % 2 != 0 {
            decoded.push(0);
        }
        match Recording::parse(decoded.as_slice()) {
            Ok(rec) => Ok(rec),
            Err(e) => Err(CodecError::BroadlinkParseError(e)),
        }
    }

    /// Writes the wire format in hexadecimal digits.
    fn encode(&self, recording: &Recording) -> (r: Result<String, CodecError>)
        ensures
            r matches Ok(text) && text@ == hex_encoded(wire_encoded(recording@)),
    {
        let encoded = recording.serialize();
        Ok(hex_encode(encoded.as_slice()))
    }
}


impl Codec for BroadlinkBase64 {
    type Error = CodecError;

    /// Reads the wire format from base64.
    fn decode(&self, input: &str) -> (r: Result<Recording, CodecError>)
        ensures
            base64_reading(input@, r),
    {
        let decoded = match base64_decode(input) {
            Ok(bytes) => bytes,
            Err(e) => {
                return Err(CodecError::Base64DecodeError(e));
            },
        };
        match Recording::parse(decoded.as_slice()) {
            Ok(rec) => Ok(rec),
            Err(e) => Err(CodecError::BroadlinkParseError(e)),
        }
    }

    /// Writes the wire format in base64.
    fn encode(&self, recording: &Recording) -> (r: Result<String, CodecError>)
        ensures
            r matches Ok(text) && text@ == base64_encoded(wire_encoded(recording@)),
    {
        let encoded = recording.serialize();
        Ok(base64_encode(encoded.as_slice()))
    }
}

/// The index of the first `c` in `text` at or after `from`, see
/// [`index_of`].
fn find_char(text: &str, c: char, from: usize) -> (at: usize)
    requires
        from <= text@.len(),
    ensures
        at == index_of(text@, c, from as int),
        from <= at <= text@.len(),
{
    let n = text.unicode_len();
    let mut i: usize = from;
    while i < n
        invariant
            n == text@.len(),
            from <= i <= n,
            index_of(text@, c, from as int) == index_of(text@, c, i as int),
        decreases n - i,
    {
        if text.get_char(i) == c {
            return i;
        }
        i = i + 1;
    }
    n
}

/// Whether `text` begins with the frequency marker.
fn has_frequency(text: &str) -> (b: bool)
    ensures
        b == (text@.len() >= 5 && text@.subrange(0, 5) == frequency_marker()),
{
    if text.unicode_len() < 5 {
        return false;
    }
    let b = text.get_char(0) == 'F' && text.get_char(1) == 'r' && text.get_char(2) == 'e'
        && text.get_char(3) == 'q' && text.get_char(4) == '=';
    proof {
        let head = text@.subrange(0, 5);
        if b {
            assert(head =~= frequency_marker());
        } else {
            assert(head[0] == text@[0] && head[1] == text@[1] && head[2] == text@[2] && head[3]
                == text@[3] && head[4] == text@[4]);
        }
    }
    b
}

impl Raw {
    /// The part of `input` that holds the pulse lengths, see
    /// [`raw_payload`].
    pub fn payload<'a>(input: &'a str) -> (r: Option<&'a str>)
        ensures
            match r {
                Some(part) => raw_payload(input@) == Some(part@),
                None => raw_payload(input@) is None,
            },
    {
        if has_frequency(input) {
            let open = find_char(input, '[', 0);
            if open >= input.unicode_len() {
                None
            } else {
                let close = find_char(input, ']', open + 1);
                Some(input.substring_char(open + 1, close))
            }
        } else {
            Some(input)
        }
    }
}

impl Codec for Raw {
    type Error = CodecError;

    /// Reads pulse lengths in microseconds, on and off in turn, as an
    /// infrared recording that is sent once.
    fn decode(&self, input: &str) -> (r: Result<Recording, CodecError>)
        ensures
            raw_reading(input@, r),
    {
        let part = match Raw::payload(input) {
            Some(part) => part,
            None => {
                return Err(CodecError::RawParseError);
            },
        };
        match raw_parse(part) {
            Some(micros) => Ok(Recording::from_pulses(micros.as_slice())),
            None => Err(CodecError::RawParseError),
        }
    }

    /// Writes the pulse lengths in whole microseconds, each with its sign.
    fn encode(&self, recording: &Recording) -> (r: Result<String, CodecError>)
        ensures
            r matches Ok(text) && text@ == raw_format(recording.pulses@),
    {
        Ok(recording.to_raw_format())
    }
}

/// What a line of text holds.
#[derive(Debug, Clone, PartialEq, Eq)]
pub enum Line {
    /// Neither hexadecimal digits nor base64: a line to pass on as it is.
    Text,
    /// No byte at all.
    Empty,
    /// A recording.
    Recording(Recording),
}

/// The bytes that a line holds in hexadecimal digits or, failing that, in
/// base64.
pub open spec fn line_bytes(text: Seq<char>) -> Option<Seq<u8>> {
    match hex_decoded(text) {
        Some(bytes) => Some(bytes),
        None => match base64_decoded(text) {
            Ok(bytes) => Some(bytes),
            Err(_) => None,
        },
    }
}

/// Whether `r` is what reading the line `text` gives: a line that holds no
/// bytes is text; one that holds bytes holds the recording in their wire
/// format, a zero byte being added at their end.
pub open spec fn line_reading(text: Seq<char>, r: Result<Line, ParseError>) -> bool {
    match line_bytes(text) {
        None => r matches Ok(Line::Text),
        Some(bytes) => if bytes.len() == 0 {
            r matches Ok(Line::Empty)
        } else {
            match wire_decoded(bytes.push(0u8)) {
                Ok(recording) => r matches Ok(Line::Recording(rec)) && rec@ == recording,
                Err(e) => r matches Err(found) && found == e,
            }
        },
    }
}

/// Reads a line that may hold a recording in hexadecimal digits or in
/// base64, see [`line_reading`].
pub fn decode_line(line: &str) -> (r: Result<Line, ParseError>)
    ensures
        line_reading(line@, r),
{
    let mut bytes = match hex_decode(line) {
        Ok(bytes) => bytes,
        Err(_) => match base64_decode(line) {
            Ok(bytes) => bytes,
            Err(_) => {
                return Ok(Line::Text);
            },
        },
    };
    if bytes.len() == 0 {
        assert(bytes@ =~= Seq::<u8>::empty());
        return Ok(Line::Empty);
    }
    bytes.push(0);
    match Recording::parse(bytes.as_slice()) {
        Ok(recording) => Ok(Line::Recording(recording)),
        Err(e) => Err(e),
    }
}

/// A codec that is chosen at run time.
#[derive(Debug, Clone, Copy, PartialEq, Eq, Structural)]
pub struct AnyCodec {
    pub ty: CodecType,
}

impl Codec for AnyCodec {
    type Error = CodecError;

    /// Reads a recording from the text form that was chosen.
    fn decode(&self, input: &str) -> (r: Result<Recording, CodecError>)
        ensures
            match self.ty {
                CodecType::Base64 => base64_reading(input@, r),
                CodecType::Hex => hex_reading(input@, r),
                CodecType::Raw => raw_reading(input@, r),
            },
    {
        match self.ty {
            CodecType::Base64 => BroadlinkBase64.decode(input),
            CodecType::Hex => BroadlinkHex.decode(input),
            CodecType::Raw => Raw.decode(input),
        }
    }

    /// Writes a recording down in the text form that was chosen.
    fn encode(&self, recording: &Recording) -> (r: Result<String, CodecError>)
        ensures
            r matches Ok(text) && text@ == match self.ty {
                CodecType::Base64 => base64_encoded(wire_encoded(recording@)),
                CodecType::Hex => hex_encoded(wire_encoded(recording@)),
                CodecType::Raw => raw_format(recording.pulses@),
            },
    {
        match self.ty {
            CodecType::Base64 => BroadlinkBase64.encode(recording),
            CodecType::Hex => BroadlinkHex.encode(recording),
            CodecType::Raw => Raw.encode(recording),
        }
    }
}

/// The codec of a text form.
pub fn create_codec(ty: CodecType) -> (codec: AnyCodec)
    ensures
        codec.ty == ty,
{
    AnyCodec { ty }
}

} // verus!
