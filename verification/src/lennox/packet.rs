//! The 48-bit control packet.
//!
//! | bits   | field                                   |
//! |--------|-----------------------------------------|
//! | 47..40 | command type, always `0xA1`             |
//! | 39     | power                                   |
//! | 38     | sleep, not used                         |
//! | 37..35 | fan speed code                          |
//! | 34..32 | mode code                               |
//! | 31..29 | always `0b010`                          |
//! | 28..24 | temperature above 17 °C, or `0b1110`    |
//! | 23..8  | always `0xFFFF`                         |
//! | 7..0   | checksum over bits 47..8                |

use super::{ControlState, Fan, Mode};
use vstd::prelude::*;
use vstd::std_specs::convert::TryFromSpecImpl;

verus! {

/// Why a state has no packet, or a packet no state.
#[derive(Clone, Copy, Debug, PartialEq, Eq, Structural)]
pub enum EncodeError {
    /// The temperature is below 17 °C or above 30 °C.
    TemperatureOutOfRange,
    /// The mode code stands for no mode.
    ModeOutOfRange(u8),
    /// The fan speed code stands for no fan speed.
    FanOutOfRange(u8),
    /// A field that is the same in every packet holds another value.
    UnexpectedFixedValues,
    /// The checksum field does not hold the checksum of the other fields.
    ChecksumMismatch,
}

/// A control packet: the low 48 bits of the number it holds.
#[derive(Clone, Copy, Debug, PartialEq, Eq, Structural)]
pub struct Packet(pub u64);

pub const CHECKSUM_LSB: u64 = 0;

pub const CHECKSUM_MASK: u64 = 0xFF;

pub const ONES_LSB: u64 = 8;

pub const ONES_MASK: u64 = 0xFFFF;

pub const TEMPERATURE_LSB: u64 = 24;

pub const TEMPERATURE_MASK: u64 = 0x1F;

pub const UNKNOWN_LSB: u64 = 29;

pub const UNKNOWN_MASK: u64 = 0x7;

pub const MODE_LSB: u64 = 32;

pub const MODE_MASK: u64 = 0x7;

pub const FAN_LSB: u64 = 35;

pub const FAN_MASK: u64 = 0x7;

pub const SLEEP_LSB: u64 = 38;

pub const SLEEP_MASK: u64 = 0x1;

pub const POWER_LSB: u64 = 39;

pub const POWER_MASK: u64 = 0x1;

pub const CMD_TYPE_LSB: u64 = 40;

pub const CMD_TYPE_MASK: u64 = 0xFF;

/// The temperature field of a packet that sets no temperature.
pub const TEMP_NONE: u8 = 0b1110;

/// The lowest temperature that a packet can set, in degrees Celsius.
pub const TEMP_MIN: u8 = 17;

/// The highest temperature that a packet can set, in degrees Celsius.
pub const TEMP_MAX: u8 = 30;

pub const MODE_AUTO: u8 = 0b010;

pub const MODE_COOL: u8 = 0b000;

pub const MODE_DRY: u8 = 0b001;

pub const MODE_HEAT: u8 = 0b011;

pub const MODE_FAN: u8 = 0b100;

pub const FAN_ZERO: u8 = 0b000;

pub const FAN_MIN: u8 = 0b001;

pub const FAN_MEDIUM: u8 = 0b010;

pub const FAN_MAX: u8 = 0b011;

pub const FAN_AUTO: u8 = 0b100;

/// The value of the field that every packet holds in bits 23..8.
pub const ONES: u16 = 0xFFFF;

/// The value of the field that every packet holds in bits 31..29.
pub const UNKNOWN: u8 = 0b010;

/// The command type of every packet.
pub const CMD_TYPE: u8 = 0b10100001;

/// The field of `raw` that begins at bit `lsb` and is as wide as `mask`.
pub open spec fn field(raw: u64, lsb: u64, mask: u64) -> u64 {
    (raw >> lsb) & mask
}

/// `raw` with the field at bit `lsb`, as wide as `mask`, set to the low
/// bits of `value`.
pub open spec fn with_field(raw: u64, lsb: u64, mask: u64, value: u64) -> u64 {
    (raw & !(mask << lsb)) | ((value & mask) << lsb)
}

/// `b` with its bits in reverse order: bit 0 in place of bit 7, and so on.
pub open spec fn rev8(b: u8) -> u8 {
    ((b & 0x01) << 7) | ((b & 0x02) << 5) | ((b & 0x04) << 3) | ((b & 0x08) << 1) | ((b & 0x10)
        >> 1) | ((b & 0x20) >> 3) | ((b & 0x40) >> 5) | ((b & 0x80) >> 7)
}

/// Byte `k` of `raw`, byte 0 being the lowest.
pub open spec fn byte_at(raw: u64, k: u64) -> u8 {
    ((raw >> (8 * k) as u64) & 0xFF) as u8
}

/// The checksum of the packet `raw`: the bytes above the checksum field are
/// reversed bit by bit and added up, and the checksum is what is missing to
/// the next multiple of 256, reversed in turn.
pub open spec fn checksum_of(raw: u64) -> u8 {
    let sum = rev8(byte_at(raw, 1)) + rev8(byte_at(raw, 2)) + rev8(byte_at(raw, 3)) + rev8(
        byte_at(raw, 4),
    ) + rev8(byte_at(raw, 5));
    rev8(((256 - sum % 256) % 256) as u8)
}

/// The code of each mode.
pub open spec fn mode_code(mode: Mode) -> u8 {
    match mode {
        Mode::Auto => MODE_AUTO,
        Mode::Cool => MODE_COOL,
        Mode::Dry => MODE_DRY,
        Mode::Heat => MODE_HEAT,
        Mode::Fan => MODE_FAN,
    }
}

/// The mode that a code stands for.
pub open spec fn mode_of_code(code: u8) -> Option<Mode> {
    if code == MODE_AUTO {
        Some(Mode::Auto)
    } else if code == MODE_COOL {
        Some(Mode::Cool)
    } else if code == MODE_DRY {
        Some(Mode::Dry)
    } else if code == MODE_HEAT {
        Some(Mode::Heat)
    } else if code == MODE_FAN {
        Some(Mode::Fan)
    } else {
        None
    }
}

/// The code of each fan speed.
pub open spec fn fan_code(fan: Fan) -> u8 {
    match fan {
        Fan::Zero => FAN_ZERO,
        Fan::Min => FAN_MIN,
        Fan::Medium => FAN_MEDIUM,
        Fan::Max => FAN_MAX,
        Fan::Auto => FAN_AUTO,
    }
}

/// The fan speed that a code stands for.
pub open spec fn fan_of_code(code: u8) -> Option<Fan> {
    if code == FAN_ZERO {
        Some(Fan::Zero)
    } else if code == FAN_MIN {
        Some(Fan::Min)
    } else if code == FAN_MEDIUM {
        Some(Fan::Medium)
    } else if code == FAN_MAX {
        Some(Fan::Max)
    } else if code == FAN_AUTO {
        Some(Fan::Auto)
    } else {
        None
    }
}

/// Whether a packet can set `temperature`.
pub open spec fn temperature_in_range(temperature: Option<u8>) -> bool {
    match temperature {
        Some(t) => TEMP_MIN <= t <= TEMP_MAX,
        None => true,
    }
}

/// The temperature field for a temperature in range.
pub open spec fn temperature_code(temperature: Option<u8>) -> u8 {
    match temperature {
        Some(t) => (t - TEMP_MIN) as u8,
        None => TEMP_NONE,
    }
}

/// The temperature that a temperature field stands for.
pub open spec fn temperature_of_code(code: u8) -> Option<u8> {
    if code == TEMP_NONE {
        None
    } else {
        Some((code + TEMP_MIN) as u8)
    }
}

/// The fields of a [`Packet`].
pub struct PacketView {
    /// Bits 63..48, which belong to no field.
    pub spare: u16,
    pub cmd_type: u8,
    pub power: bool,
    pub sleep: bool,
    pub fan_raw: u8,
    pub mode_raw: u8,
    pub unknown: u8,
    pub temperature_raw: u8,
    pub ones: u16,
    pub checksum: u8,
}

impl View for Packet {
    type V = PacketView;

    open spec fn view(&self) -> PacketView {
        PacketView {
            spare: (self.0 >> 48) as u16,
            cmd_type: field(self.0, CMD_TYPE_LSB, CMD_TYPE_MASK) as u8,
            power: field(self.0, POWER_LSB, POWER_MASK) != 0,
            sleep: field(self.0, SLEEP_LSB, SLEEP_MASK) != 0,
            fan_raw: field(self.0, FAN_LSB, FAN_MASK) as u8,
            mode_raw: field(self.0, MODE_LSB, MODE_MASK) as u8,
            unknown: field(self.0, UNKNOWN_LSB, UNKNOWN_MASK) as u8,
            temperature_raw: field(self.0, TEMPERATURE_LSB, TEMPERATURE_MASK) as u8,
            ones: field(self.0, ONES_LSB, ONES_MASK) as u16,
            checksum: field(self.0, CHECKSUM_LSB, CHECKSUM_MASK) as u8,
        }
    }
}

/// Whether each field is as narrow as its place in the packet.
pub open spec fn fits(v: PacketView) -> bool {
    v.fan_raw <= FAN_MASK && v.mode_raw <= MODE_MASK && v.unknown <= UNKNOWN_MASK
        && v.temperature_raw <= TEMPERATURE_MASK
}

/// The number that holds the fields `v`, each at its place.
pub open spec fn packed(v: PacketView) -> u64 {
    (v.spare * 0x1_0000_0000_0000 + v.cmd_type * 0x100_0000_0000 + (if v.power {
        0x80_0000_0000int
    } else {
        0int
    }) + (if v.sleep {
        0x40_0000_0000int
    } else {
        0int
    }) + v.fan_raw * 0x8_0000_0000 + v.mode_raw * 0x1_0000_0000 + v.unknown * 0x2000_0000
        + v.temperature_raw * 0x100_0000 + v.ones * 0x100 + v.checksum) as u64
}

/// The fields of the packet that sets `state`, with the given checksum.
pub open spec fn state_view(state: ControlState, checksum: u8) -> PacketView {
    PacketView {
        spare: 0,
        cmd_type: CMD_TYPE,
        power: state.power,
        sleep: false,
        fan_raw: fan_code(state.fan),
        mode_raw: mode_code(state.mode),
        unknown: UNKNOWN,
        temperature_raw: temperature_code(state.temperature),
        ones: ONES,
        checksum,
    }
}

/// The packet that sets `state`, or why there is none.
pub open spec fn encoded_state(state: ControlState) -> Result<Packet, EncodeError> {
    if !temperature_in_range(state.temperature) {
        Err(EncodeError::TemperatureOutOfRange)
    } else {
        Ok(Packet(packed(state_view(state, checksum_of(packed(state_view(state, 0)))))))
    }
}

/// The state that `packet` sets, or why it sets none.
pub open spec fn decoded_state(packet: Packet) -> Result<ControlState, EncodeError> {
    let v = packet@;
    if v.cmd_type != CMD_TYPE || v.unknown != UNKNOWN || v.ones != ONES {
        Err(EncodeError::UnexpectedFixedValues)
    } else if checksum_of(packet.0) != v.checksum {
        Err(EncodeError::ChecksumMismatch)
    } else {
        match mode_of_code(v.mode_raw) {
            None => Err(EncodeError::ModeOutOfRange(v.mode_raw)),
            Some(mode) => match fan_of_code(v.fan_raw) {
                None => Err(EncodeError::FanOutOfRange(v.fan_raw)),
                Some(fan) => Ok(
                    ControlState {
                        power: v.power,
                        mode,
                        fan,
                        temperature: temperature_of_code(v.temperature_raw),
                    },
                ),
            },
        }
    }
}

/// No field is wider than its type.
proof fn lemma_field_bounds(raw: u64)
    by (bit_vector)
    ensures
        (raw >> 40u64) & 0xFFu64 <= 0xFF,
        (raw >> 35u64) & 0x7u64 <= 0x7,
        (raw >> 32u64) & 0x7u64 <= 0x7,
        (raw >> 29u64) & 0x7u64 <= 0x7,
        (raw >> 24u64) & 0x1Fu64 <= 0x1F,
        (raw >> 8u64) & 0xFFFFu64 <= 0xFFFF,
        (raw >> 0u64) & 0xFFu64 <= 0xFF,
        (raw >> 8u64) & 0xFFu64 <= 0xFF,
        (raw >> 16u64) & 0xFFu64 <= 0xFF,
        (raw >> 24u64) & 0xFFu64 <= 0xFF,
        (raw >> 32u64) & 0xFFu64 <= 0xFF,
{
}

/// A packet is the number that holds its fields, and its fields fit.
pub proof fn lemma_packed_view(p: Packet)
    ensures
        packed(p@) == p.0,
        fits(p@),
{
    let raw = p.0;
    assert((raw >> 48u64) * 0x1_0000_0000_0000u64 + ((raw >> 40u64) & 0xFFu64) * 0x100_0000_0000u64
        + ((raw >> 39u64) & 1u64) * 0x80_0000_0000u64 + ((raw >> 38u64) & 1u64) * 0x40_0000_0000u64
        + ((raw >> 35u64) & 7u64) * 0x8_0000_0000u64 + ((raw >> 32u64) & 7u64) * 0x1_0000_0000u64
        + ((raw >> 29u64) & 7u64) * 0x2000_0000u64 + ((raw >> 24u64) & 0x1Fu64) * 0x100_0000u64 + (
    (raw >> 8u64) & 0xFFFFu64) * 0x100u64 + ((raw >> 0u64) & 0xFFu64) == raw && (raw >> 48u64)
        <= 0xFFFFu64 && ((raw >> 39u64) & 1u64) <= 1 && ((raw >> 38u64) & 1u64) <= 1) by (bit_vector);
    lemma_field_bounds(raw);
}

/// The number that holds fields that fit is the packet with these fields.
pub proof fn lemma_view_packed(v: PacketView)
    requires
        fits(v),
    ensures
        Packet(packed(v))@ == v,
{
    let spare = v.spare as u64;
    let cmd_type = v.cmd_type as u64;
    let power: u64 = if v.power {
        1
    } else {
        0
    };
    let sleep: u64 = if v.sleep {
        1
    } else {
        0
    };
    let fan = v.fan_raw as u64;
    let mode = v.mode_raw as u64;
    let unknown = v.unknown as u64;
    let temperature = v.temperature_raw as u64;
    let ones = v.ones as u64;
    let checksum = v.checksum as u64;
    let raw = packed(v);
    assert(raw == spare * 0x1_0000_0000_0000 + cmd_type * 0x100_0000_0000 + power * 0x80_0000_0000
        + sleep * 0x40_0000_0000 + fan * 0x8_0000_0000 + mode * 0x1_0000_0000 + unknown
        * 0x2000_0000 + temperature * 0x100_0000 + ones * 0x100 + checksum);
    assert((raw >> 48u64) == spare && (raw >> 40u64) & 0xFFu64 == cmd_type && (raw >> 39u64) & 1u64
        == power && (raw >> 38u64) & 1u64 == sleep && (raw >> 35u64) & 7u64 == fan && (raw >> 32u64)
        & 7u64 == mode && (raw >> 29u64) & 7u64 == unknown && (raw >> 24u64) & 0x1Fu64
        == temperature && (raw >> 8u64) & 0xFFFFu64 == ones && (raw >> 0u64) & 0xFFu64 == checksum)
        by (bit_vector)
        requires
            spare <= 0xFFFF,
            cmd_type <= 0xFF,
            power <= 1,
            sleep <= 1,
            fan <= 7,
            mode <= 7,
            unknown <= 7,
            temperature <= 0x1F,
            ones <= 0xFFFF,
            checksum <= 0xFF,
            raw == spare * 0x1_0000_0000_0000u64 + cmd_type * 0x100_0000_0000u64 + power
                * 0x80_0000_0000u64 + sleep * 0x40_0000_0000u64 + fan * 0x8_0000_0000u64 + mode
                * 0x1_0000_0000u64 + unknown * 0x2000_0000u64 + temperature * 0x100_0000u64 + ones
                * 0x100u64 + checksum,
    ;
}

/// The checksum of a packet does not depend on its checksum field.
pub proof fn lemma_checksum_ignores_checksum(raw: u64, value: u64)
    ensures
        checksum_of(with_field(raw, CHECKSUM_LSB, CHECKSUM_MASK, value)) == checksum_of(raw),
{
    let set = with_field(raw, CHECKSUM_LSB, CHECKSUM_MASK, value);
    assert(set == (raw & !(0xFFu64 << 0u64)) | ((value & 0xFFu64) << 0u64));
    assert((set >> 8u64) & 0xFFu64 == (raw >> 8u64) & 0xFFu64 && (set >> 16u64) & 0xFFu64 == (raw
        >> 16u64) & 0xFFu64 && (set >> 24u64) & 0xFFu64 == (raw >> 24u64) & 0xFFu64 && (set
        >> 32u64) & 0xFFu64 == (raw >> 32u64) & 0xFFu64 && (set >> 40u64) & 0xFFu64 == (raw
        >> 40u64) & 0xFFu64) by (bit_vector)
        requires
            set == (raw & !(0xFFu64 << 0u64)) | ((value & 0xFFu64) << 0u64),
    ;
}

/// Reversing the bits of a byte puts bit `k` in place of bit `7 - k`, and
/// reversing twice gives the byte back.
pub proof fn lemma_rev8(b: u8, k: u8)
    by (bit_vector)
    requires
        k < 8,
    ensures
        (rev8(b) >> k) & 1 == (b >> (7 - k) as u8) & 1,
        rev8(rev8(b)) == b,
{
}

/// Writing the command type changes no other field.
proof fn lemma_set_cmd_type(raw: u64, value: u8, set: u64)
    by (bit_vector)
    requires
        set == (raw & !(0xFFu64 << 40u64)) | ((value as u64 & 0xFFu64) << 40u64),
    ensures
        (set >> 48u64) == (raw >> 48u64),
        (set >> 39u64) & 0x1u64 == (raw >> 39u64) & 0x1u64,
        (set >> 38u64) & 0x1u64 == (raw >> 38u64) & 0x1u64,
        (set >> 35u64) & 0x7u64 == (raw >> 35u64) & 0x7u64,
        (set >> 32u64) & 0x7u64 == (raw >> 32u64) & 0x7u64,
        (set >> 29u64) & 0x7u64 == (raw >> 29u64) & 0x7u64,
        (set >> 24u64) & 0x1Fu64 == (raw >> 24u64) & 0x1Fu64,
        (set >> 8u64) & 0xFFFFu64 == (raw >> 8u64) & 0xFFFFu64,
        (set >> 0u64) & 0xFFu64 == (raw >> 0u64) & 0xFFu64,
        (set >> 40u64) & 0xFFu64 == value as u64,
{
}

/// Writing the power bit changes no other field.
proof fn lemma_set_power(raw: u64, value: u64, set: u64)
    by (bit_vector)
    requires
        value <= 1,
        set == (raw & !(0x1u64 << 39u64)) | ((value as u64 & 0x1u64) << 39u64),
    ensures
        (set >> 48u64) == (raw >> 48u64),
        (set >> 40u64) & 0xFFu64 == (raw >> 40u64) & 0xFFu64,
        (set >> 38u64) & 0x1u64 == (raw >> 38u64) & 0x1u64,
        (set >> 35u64) & 0x7u64 == (raw >> 35u64) & 0x7u64,
        (set >> 32u64) & 0x7u64 == (raw >> 32u64) & 0x7u64,
        (set >> 29u64) & 0x7u64 == (raw >> 29u64) & 0x7u64,
        (set >> 24u64) & 0x1Fu64 == (raw >> 24u64) & 0x1Fu64,
        (set >> 8u64) & 0xFFFFu64 == (raw >> 8u64) & 0xFFFFu64,
        (set >> 0u64) & 0xFFu64 == (raw >> 0u64) & 0xFFu64,
        (set >> 39u64) & 0x1u64 == value,
{
}

/// Writing the sleep bit changes no other field.
proof fn lemma_set_sleep(raw: u64, value: u64, set: u64)
    by (bit_vector)
    requires
        value <= 1,
        set == (raw & !(0x1u64 << 38u64)) | ((value as u64 & 0x1u64) << 38u64),
    ensures
        (set >> 48u64) == (raw >> 48u64),
        (set >> 40u64) & 0xFFu64 == (raw >> 40u64) & 0xFFu64,
        (set >> 39u64) & 0x1u64 == (raw >> 39u64) & 0x1u64,
        (set >> 35u64) & 0x7u64 == (raw >> 35u64) & 0x7u64,
        (set >> 32u64) & 0x7u64 == (raw >> 32u64) & 0x7u64,
        (set >> 29u64) & 0x7u64 == (raw >> 29u64) & 0x7u64,
        (set >> 24u64) & 0x1Fu64 == (raw >> 24u64) & 0x1Fu64,
        (set >> 8u64) & 0xFFFFu64 == (raw >> 8u64) & 0xFFFFu64,
        (set >> 0u64) & 0xFFu64 == (raw >> 0u64) & 0xFFu64,
        (set >> 38u64) & 0x1u64 == value,
{
}

/// Writing the fan speed code changes no other field.
proof fn lemma_set_fan_raw(raw: u64, value: u8, set: u64)
    by (bit_vector)
    requires
        set == (raw & !(0x7u64 << 35u64)) | ((value as u64 & 0x7u64) << 35u64),
    ensures
        (set >> 48u64) == (raw >> 48u64),
        (set >> 40u64) & 0xFFu64 == (raw >> 40u64) & 0xFFu64,
        (set >> 39u64) & 0x1u64 == (raw >> 39u64) & 0x1u64,
        (set >> 38u64) & 0x1u64 == (raw >> 38u64) & 0x1u64,
        (set >> 32u64) & 0x7u64 == (raw >> 32u64) & 0x7u64,
        (set >> 29u64) & 0x7u64 == (raw >> 29u64) & 0x7u64,
        (set >> 24u64) & 0x1Fu64 == (raw >> 24u64) & 0x1Fu64,
        (set >> 8u64) & 0xFFFFu64 == (raw >> 8u64) & 0xFFFFu64,
        (set >> 0u64) & 0xFFu64 == (raw >> 0u64) & 0xFFu64,
        (set >> 35u64) & 0x7u64 == (value & 0x7u8) as u64,
{
}

/// Writing the mode code changes no other field.
proof fn lemma_set_mode_raw(raw: u64, value: u8, set: u64)
    by (bit_vector)
    requires
        set == (raw & !(0x7u64 << 32u64)) | ((value as u64 & 0x7u64) << 32u64),
    ensures
        (set >> 48u64) == (raw >> 48u64),
        (set >> 40u64) & 0xFFu64 == (raw >> 40u64) & 0xFFu64,
        (set >> 39u64) & 0x1u64 == (raw >> 39u64) & 0x1u64,
        (set >> 38u64) & 0x1u64 == (raw >> 38u64) & 0x1u64,
        (set >> 35u64) & 0x7u64 == (raw >> 35u64) & 0x7u64,
        (set >> 29u64) & 0x7u64 == (raw >> 29u64) & 0x7u64,
        (set >> 24u64) & 0x1Fu64 == (raw >> 24u64) & 0x1Fu64,
        (set >> 8u64) & 0xFFFFu64 == (raw >> 8u64) & 0xFFFFu64,
        (set >> 0u64) & 0xFFu64 == (raw >> 0u64) & 0xFFu64,
        (set >> 32u64) & 0x7u64 == (value & 0x7u8) as u64,
{
}

/// Writing the field in bits 31..29 changes no other field.
proof fn lemma_set_unknown(raw: u64, value: u8, set: u64)
    by (bit_vector)
    requires
        set == (raw & !(0x7u64 << 29u64)) | ((value as u64 & 0x7u64) << 29u64),
    ensures
        (set >> 48u64) == (raw >> 48u64),
        (set >> 40u64) & 0xFFu64 == (raw >> 40u64) & 0xFFu64,
        (set >> 39u64) & 0x1u64 == (raw >> 39u64) & 0x1u64,
        (set >> 38u64) & 0x1u64 == (raw >> 38u64) & 0x1u64,
        (set >> 35u64) & 0x7u64 == (raw >> 35u64) & 0x7u64,
        (set >> 32u64) & 0x7u64 == (raw >> 32u64) & 0x7u64,
        (set >> 24u64) & 0x1Fu64 == (raw >> 24u64) & 0x1Fu64,
        (set >> 8u64) & 0xFFFFu64 == (raw >> 8u64) & 0xFFFFu64,
        (set >> 0u64) & 0xFFu64 == (raw >> 0u64) & 0xFFu64,
        (set >> 29u64) & 0x7u64 == (value & 0x7u8) as u64,
{
}

/// Writing the temperature field changes no other field.
proof fn lemma_set_temperature_raw(raw: u64, value: u8, set: u64)
    by (bit_vector)
    requires
        set == (raw & !(0x1Fu64 << 24u64)) | ((value as u64 & 0x1Fu64) << 24u64),
    ensures
        (set >> 48u64) == (raw >> 48u64),
        (set >> 40u64) & 0xFFu64 == (raw >> 40u64) & 0xFFu64,
        (set >> 39u64) & 0x1u64 == (raw >> 39u64) & 0x1u64,
        (set >> 38u64) & 0x1u64 == (raw >> 38u64) & 0x1u64,
        (set >> 35u64) & 0x7u64 == (raw >> 35u64) & 0x7u64,
        (set >> 32u64) & 0x7u64 == (raw >> 32u64) & 0x7u64,
        (set >> 29u64) & 0x7u64 == (raw >> 29u64) & 0x7u64,
        (set >> 8u64) & 0xFFFFu64 == (raw >> 8u64) & 0xFFFFu64,
        (set >> 0u64) & 0xFFu64 == (raw >> 0u64) & 0xFFu64,
        (set >> 24u64) & 0x1Fu64 == (value & 0x1Fu8) as u64,
{
}

/// Writing the field in bits 23..8 changes no other field.
proof fn lemma_set_ones(raw: u64, value: u16, set: u64)
    by (bit_vector)
    requires
        set == (raw & !(0xFFFFu64 << 8u64)) | ((value as u64 & 0xFFFFu64) << 8u64),
    ensures
        (set >> 48u64) == (raw >> 48u64),
        (set >> 40u64) & 0xFFu64 == (raw >> 40u64) & 0xFFu64,
        (set >> 39u64) & 0x1u64 == (raw >> 39u64) & 0x1u64,
        (set >> 38u64) & 0x1u64 == (raw >> 38u64) & 0x1u64,
        (set >> 35u64) & 0x7u64 == (raw >> 35u64) & 0x7u64,
        (set >> 32u64) & 0x7u64 == (raw >> 32u64) & 0x7u64,
        (set >> 29u64) & 0x7u64 == (raw >> 29u64) & 0x7u64,
        (set >> 24u64) & 0x1Fu64 == (raw >> 24u64) & 0x1Fu64,
        (set >> 0u64) & 0xFFu64 == (raw >> 0u64) & 0xFFu64,
        (set >> 8u64) & 0xFFFFu64 == value as u64,
{
}

/// Writing the checksum field changes no other field.
proof fn lemma_set_checksum(raw: u64, value: u8, set: u64)
    by (bit_vector)
    requires
        set == (raw & !(0xFFu64 << 0u64)) | ((value as u64 & 0xFFu64) << 0u64),
    ensures
        (set >> 48u64) == (raw >> 48u64),
        (set >> 40u64) & 0xFFu64 == (raw >> 40u64) & 0xFFu64,
        (set >> 39u64) & 0x1u64 == (raw >> 39u64) & 0x1u64,
        (set >> 38u64) & 0x1u64 == (raw >> 38u64) & 0x1u64,
        (set >> 35u64) & 0x7u64 == (raw >> 35u64) & 0x7u64,
        (set >> 32u64) & 0x7u64 == (raw >> 32u64) & 0x7u64,
        (set >> 29u64) & 0x7u64 == (raw >> 29u64) & 0x7u64,
        (set >> 24u64) & 0x1Fu64 == (raw >> 24u64) & 0x1Fu64,
        (set >> 8u64) & 0xFFFFu64 == (raw >> 8u64) & 0xFFFFu64,
        (set >> 0u64) & 0xFFu64 == value as u64,
{
}

/// A code that fits its field is set as it is.
proof fn lemma_narrow_codes(value: u8)
    by (bit_vector)
    ensures
        value <= 0x7u8 ==> value & 0x7u8 == value,
        value <= 0x1Fu8 ==> value & 0x1Fu8 == value,
{
}

impl Packet {
    /// The command type field.
    pub fn cmd_type(&self) -> (v: u8)
        ensures
            v == self@.cmd_type,
    {
        proof {
            lemma_field_bounds(self.0);
        }
        ((self.0 >> CMD_TYPE_LSB) & CMD_TYPE_MASK) as u8
    }

    /// The power bit.
    pub fn power(&self) -> (v: bool)
        ensures
            v == self@.power,
    {
        (self.0 >> POWER_LSB) & POWER_MASK != 0
    }

    /// The sleep bit.
    pub fn sleep(&self) -> (v: bool)
        ensures
            v == self@.sleep,
    {
        (self.0 >> SLEEP_LSB) & SLEEP_MASK != 0
    }

    /// The fan speed code.
    pub fn fan_raw(&self) -> (v: u8)
        ensures
            v == self@.fan_raw,
    {
        proof {
            lemma_field_bounds(self.0);
        }
        ((self.0 >> FAN_LSB) & FAN_MASK) as u8
    }

    /// The mode code.
    pub fn mode_raw(&self) -> (v: u8)
        ensures
            v == self@.mode_raw,
    {
        proof {
            lemma_field_bounds(self.0);
        }
        ((self.0 >> MODE_LSB) & MODE_MASK) as u8
    }

    /// The field in bits 31..29.
    pub fn unknown(&self) -> (v: u8)
        ensures
            v == self@.unknown,
    {
        proof {
            lemma_field_bounds(self.0);
        }
        ((self.0 >> UNKNOWN_LSB) & UNKNOWN_MASK) as u8
    }

    /// The temperature field.
    pub fn temperature_raw(&self) -> (v: u8)
        ensures
            v == self@.temperature_raw,
    {
        proof {
            lemma_field_bounds(self.0);
        }
        ((self.0 >> TEMPERATURE_LSB) & TEMPERATURE_MASK) as u8
    }

    /// The field in bits 23..8.
    pub fn ones(&self) -> (v: u16)
        ensures
            v == self@.ones,
    {
        proof {
            lemma_field_bounds(self.0);
        }
        ((self.0 >> ONES_LSB) & ONES_MASK) as u16
    }

    /// The checksum field.
    pub fn checksum(&self) -> (v: u8)
        ensures
            v == self@.checksum,
    {
        proof {
            lemma_field_bounds(self.0);
        }
        ((self.0 >> CHECKSUM_LSB) & CHECKSUM_MASK) as u8
    }

    /// Sets the command type field.
    pub fn set_cmd_type(&mut self, value: u8)
        ensures
            final(self)@ == (PacketView { cmd_type: value, ..old(self)@ }),
    {
        let set: u64 = (self.0 & !(CMD_TYPE_MASK << CMD_TYPE_LSB)) | ((value as u64 & CMD_TYPE_MASK) << CMD_TYPE_LSB);
        proof {
            lemma_set_cmd_type(self.0, value, set);
            lemma_field_bounds(self.0);
            lemma_field_bounds(set);
        }
        self.0 = set;
    }

    /// Sets the power bit.
    pub fn set_power(&mut self, value: bool)
        ensures
            final(self)@ == (PacketView { power: value, ..old(self)@ }),
    {
        let bit: u64 = if value {
            1
        } else {
            0
        };
        let set: u64 = (self.0 & !(POWER_MASK << POWER_LSB)) | ((bit & POWER_MASK) << POWER_LSB);
        proof {
            lemma_set_power(self.0, bit, set);
        }
        self.0 = set;
    }

    /// Sets the sleep bit.
    pub fn set_sleep(&mut self, value: bool)
        ensures
            final(self)@ == (PacketView { sleep: value, ..old(self)@ }),
    {
        let bit: u64 = if value {
            1
        } else {
            0
        };
        let set: u64 = (self.0 & !(SLEEP_MASK << SLEEP_LSB)) | ((bit & SLEEP_MASK) << SLEEP_LSB);
        proof {
            lemma_set_sleep(self.0, bit, set);
        }
        self.0 = set;
    }

    /// Sets the fan speed code to the low three bits of `value`.
    pub fn set_fan_raw(&mut self, value: u8)
        ensures
            final(self)@ == (PacketView { fan_raw: value & 0x7, ..old(self)@ }),
    {
        let set: u64 = (self.0 & !(FAN_MASK << FAN_LSB)) | ((value as u64 & FAN_MASK) << FAN_LSB);
        proof {
            lemma_set_fan_raw(self.0, value, set);
            lemma_field_bounds(self.0);
            lemma_field_bounds(set);
        }
        self.0 = set;
    }

    /// Sets the mode code to the low three bits of `value`.
    pub fn set_mode_raw(&mut self, value: u8)
        ensures
            final(self)@ == (PacketView { mode_raw: value & 0x7, ..old(self)@ }),
    {
        let set: u64 = (self.0 & !(MODE_MASK << MODE_LSB)) | ((value as u64 & MODE_MASK) << MODE_LSB);
        proof {
            lemma_set_mode_raw(self.0, value, set);
            lemma_field_bounds(self.0);
            lemma_field_bounds(set);
        }
        self.0 = set;
    }

    /// Sets the field in bits 31..29 to the low three bits of `value`.
    pub fn set_unknown(&mut self, value: u8)
        ensures
            final(self)@ == (PacketView { unknown: value & 0x7, ..old(self)@ }),
    {
        let set: u64 = (self.0 & !(UNKNOWN_MASK << UNKNOWN_LSB)) | ((value as u64 & UNKNOWN_MASK) << UNKNOWN_LSB);
        proof {
            lemma_set_unknown(self.0, value, set);
            lemma_field_bounds(self.0);
            lemma_field_bounds(set);
        }
        self.0 = set;
    }

    /// Sets the temperature field to the low five bits of `value`.
    pub fn set_temperature_raw(&mut self, value: u8)
        ensures
            final(self)@ == (PacketView { temperature_raw: value & 0x1F, ..old(self)@ }),
    {
        let set: u64 = (self.0 & !(TEMPERATURE_MASK << TEMPERATURE_LSB)) | ((value as u64 & TEMPERATURE_MASK) << TEMPERATURE_LSB);
        proof {
            lemma_set_temperature_raw(self.0, value, set);
            lemma_field_bounds(self.0);
            lemma_field_bounds(set);
        }
        self.0 = set;
    }

    /// Sets the field in bits 23..8.
    pub fn set_ones(&mut self, value: u16)
        ensures
            final(self)@ == (PacketView { ones: value, ..old(self)@ }),
    {
        let set: u64 = (self.0 & !(ONES_MASK << ONES_LSB)) | ((value as u64 & ONES_MASK) << ONES_LSB);
        proof {
            lemma_set_ones(self.0, value, set);
            lemma_field_bounds(self.0);
            lemma_field_bounds(set);
        }
        self.0 = set;
    }

    /// Sets the checksum field.
    pub fn set_checksum(&mut self, value: u8)
        ensures
            final(self)@ == (PacketView { checksum: value, ..old(self)@ }),
    {
        let set: u64 = (self.0 & !(CHECKSUM_MASK << CHECKSUM_LSB)) | ((value as u64 & CHECKSUM_MASK) << CHECKSUM_LSB);
        proof {
            lemma_set_checksum(self.0, value, set);
            lemma_field_bounds(self.0);
            lemma_field_bounds(set);
        }
        self.0 = set;
    }

    /// The packet in which only the fields that every packet shares are set.
    pub fn new() -> (p: Packet)
        ensures
            p@ == (PacketView {
                spare: 0,
                cmd_type: CMD_TYPE,
                power: false,
                sleep: false,
                fan_raw: 0,
                mode_raw: 0,
                unknown: UNKNOWN,
                temperature_raw: 0,
                ones: ONES,
                checksum: 0,
            }),
    {
        let mut p = Packet(0);
        proof {
            lemma_view_packed(
                PacketView {
                    spare: 0,
                    cmd_type: 0,
                    power: false,
                    sleep: false,
                    fan_raw: 0,
                    mode_raw: 0,
                    unknown: 0,
                    temperature_raw: 0,
                    ones: 0,
                    checksum: 0,
                },
            );
            lemma_narrow_codes(UNKNOWN);
        }
        p.set_cmd_type(CMD_TYPE);
        p.set_ones(ONES);
        p.set_unknown(UNKNOWN);
        p
    }

    /// The temperature in degrees Celsius, or none if the packet sets none.
    pub fn temperature(&self) -> (t: Option<u8>)
        ensures
            t == temperature_of_code(self@.temperature_raw),
    {
        proof {
            lemma_field_bounds(self.0);
        }
        if self.temperature_raw() == TEMP_NONE {
            None
        } else {
            Some(self.temperature_raw() + TEMP_MIN)
        }
    }

    /// Sets the temperature in degrees Celsius, 17 to 30, or none. A
    /// temperature out of this range is refused, and the packet stays as
    /// it is.
    pub fn set_temperature(&mut self, temp: Option<u8>) -> (r: Result<(), EncodeError>)
        ensures
            temperature_in_range(temp) ==> r is Ok && final(self)@ == (PacketView {
                temperature_raw: temperature_code(temp),
                ..old(self)@
            }),
            !temperature_in_range(temp) ==> r == Err::<(), EncodeError>(
                EncodeError::TemperatureOutOfRange,
            ) && *final(self) == *old(self),
    {
        let code = match temp {
            Some(t) => {
                if t < TEMP_MIN || t > TEMP_MAX {
                    return Err(EncodeError::TemperatureOutOfRange);
                }
                t - TEMP_MIN
            },
            None => TEMP_NONE,
        };
        proof {
            lemma_narrow_codes(code);
        }
        self.set_temperature_raw(code);
        Ok(())
    }

    /// The mode, or the code that stands for none.
    pub fn mode(&self) -> (r: Result<Mode, EncodeError>)
        ensures
            r == match mode_of_code(self@.mode_raw) {
                Some(mode) => Ok::<Mode, EncodeError>(mode),
                None => Err(EncodeError::ModeOutOfRange(self@.mode_raw)),
            },
    {
        let code = self.mode_raw();
        if code == MODE_AUTO {
            Ok(Mode::Auto)
        } else if code == MODE_COOL {
            Ok(Mode::Cool)
        } else if code == MODE_DRY {
            Ok(Mode::Dry)
        } else if code == MODE_HEAT {
            Ok(Mode::Heat)
        } else if code == MODE_FAN {
            Ok(Mode::Fan)
        } else {
            Err(EncodeError::ModeOutOfRange(code))
        }
    }

    /// Sets the mode.
    pub fn set_mode(&mut self, mode: Mode)
        ensures
            final(self)@ == (PacketView { mode_raw: mode_code(mode), ..old(self)@ }),
    {
        let code = match mode {
            Mode::Auto => MODE_AUTO,
            Mode::Cool => MODE_COOL,
            Mode::Dry => MODE_DRY,
            Mode::Heat => MODE_HEAT,
            Mode::Fan => MODE_FAN,
        };
        proof {
            lemma_narrow_codes(code);
        }
        self.set_mode_raw(code)
    }

    /// The fan speed, or the code that stands for none.
    pub fn fan(&self) -> (r: Result<Fan, EncodeError>)
        ensures
            r == match fan_of_code(self@.fan_raw) {
                Some(fan) => Ok::<Fan, EncodeError>(fan),
                None => Err(EncodeError::FanOutOfRange(self@.fan_raw)),
            },
    {
        let code = self.fan_raw();
        if code == FAN_ZERO {
            Ok(Fan::Zero)
        } else if code == FAN_MIN {
            Ok(Fan::Min)
        } else if code == FAN_MEDIUM {
            Ok(Fan::Medium)
        } else if code == FAN_MAX {
            Ok(Fan::Max)
        } else if code == FAN_AUTO {
            Ok(Fan::Auto)
        } else {
            Err(EncodeError::FanOutOfRange(code))
        }
    }

    /// Sets the fan speed.
    pub fn set_fan(&mut self, fan: Fan)
        ensures
            final(self)@ == (PacketView { fan_raw: fan_code(fan), ..old(self)@ }),
    {
        let code = match fan {
            Fan::Zero => FAN_ZERO,
            Fan::Min => FAN_MIN,
            Fan::Medium => FAN_MEDIUM,
            Fan::Max => FAN_MAX,
            Fan::Auto => FAN_AUTO,
        };
        proof {
            lemma_narrow_codes(code);
        }
        self.set_fan_raw(code)
    }

    /// The checksum of the fields above the checksum field, see
    /// [`checksum_of`].
    pub fn compute_checksum(&self) -> (c: u8)
        ensures
            c == checksum_of(self.0),
    {
        proof {
            lemma_field_bounds(self.0);
        }
        let mut sum: u32 = 0;
        sum = sum + rev(((self.0 >> 8) & 0xFF) as u8) as u32;
        sum = sum + rev(((self.0 >> 16) & 0xFF) as u8) as u32;
        sum = sum + rev(((self.0 >> 24) & 0xFF) as u8) as u32;
        sum = sum + rev(((self.0 >> 32) & 0xFF) as u8) as u32;
        sum = sum + rev(((self.0 >> 40) & 0xFF) as u8) as u32;
        rev(((256 - sum % 256) % 256) as u8)
    }

    /// Sets the checksum field to the checksum of the other fields.
    pub fn apply_checksum(&mut self)
        ensures
            final(self)@ == (PacketView { checksum: checksum_of(old(self).0), ..old(self)@ }),
            checksum_of(final(self).0) == final(self)@.checksum,
    {
        let c = self.compute_checksum();
        proof {
            lemma_checksum_ignores_checksum(self.0, c as u64);
            lemma_set_checksum(
                self.0,
                c,
                with_field(self.0, CHECKSUM_LSB, CHECKSUM_MASK, c as u64),
            );
            lemma_packed_view(*self);
            lemma_packed_view(Packet(with_field(self.0, CHECKSUM_LSB, CHECKSUM_MASK, c as u64)));
        }
        self.set_checksum(c);
        proof {
            lemma_packed_view(*self);
        }
    }

    /// Whether the checksum field holds the checksum of the other fields.
    pub fn validate_checksum(&self) -> (b: bool)
        ensures
            b == (checksum_of(self.0) == self@.checksum),
    {
        self.compute_checksum() == self.checksum()
    }

    /// The packet that sets `state`, see [`encoded_state`]. Its checksum is
    /// computed here.
    pub fn from_control_state(state: &ControlState) -> (r: Result<Packet, EncodeError>)
        ensures
            r == encoded_state(*state),
    {
        let mut packet = Packet::new();
        match packet.set_temperature(state.temperature) {
            Ok(()) => {},
            Err(e) => {
                return Err(e);
            },
        }
        packet.set_power(state.power);
        packet.set_mode(state.mode);
        packet.set_fan(state.fan);
        proof {
            assert(packet@ == state_view(*state, 0));
            lemma_packed_view(packet);
        }
        packet.apply_checksum();
        proof {
            lemma_packed_view(packet);
        }
        Ok(packet)
    }

    /// The state that this packet sets, see [`decoded_state`].
    pub fn to_control_state(&self) -> (r: Result<ControlState, EncodeError>)
        ensures
            r == decoded_state(*self),
    {
        if self.cmd_type() != CMD_TYPE || self.unknown() != UNKNOWN || self.ones() != ONES {
            return Err(EncodeError::UnexpectedFixedValues);
        }
        if !self.validate_checksum() {
            return Err(EncodeError::ChecksumMismatch);
        }
        let mode = match self.mode() {
            Ok(mode) => mode,
            Err(e) => {
                return Err(e);
            },
        };
        let fan = match self.fan() {
            Ok(fan) => fan,
            Err(e) => {
                return Err(e);
            },
        };
        Ok(ControlState { power: self.power(), mode, fan, temperature: self.temperature() })
    }
}

impl<'a> TryFrom<&'a ControlState> for Packet {
    type Error = EncodeError;

    fn try_from(state: &'a ControlState) -> (r: Result<Packet, EncodeError>) {
        Packet::from_control_state(state)
    }
}

impl<'a> TryFromSpecImpl<&'a ControlState> for Packet {
    open spec fn obeys_try_from_spec() -> bool {
        true
    }

    open spec fn try_from_spec(state: &'a ControlState) -> Result<Packet, EncodeError> {
        encoded_state(*state)
    }
}

impl<'a> TryFrom<&'a Packet> for ControlState {
    type Error = EncodeError;

    fn try_from(packet: &'a Packet) -> (r: Result<ControlState, EncodeError>) {
        packet.to_control_state()
    }
}

impl<'a> TryFromSpecImpl<&'a Packet> for ControlState {
    open spec fn obeys_try_from_spec() -> bool {
        true
    }

    open spec fn try_from_spec(packet: &'a Packet) -> Result<ControlState, EncodeError> {
        decoded_state(*packet)
    }
}

/// Whether a packet can carry `state`: its temperature, if it has one, lies
/// between 17 and 30 degrees Celsius.
pub open spec fn valid_state(state: ControlState) -> bool {
    temperature_in_range(state.temperature)
}

/// The packet of a valid state is read back as this state.
pub proof fn lemma_state_roundtrip(state: ControlState)
    requires
        valid_state(state),
    ensures
        encoded_state(state) matches Ok(packet) && decoded_state(packet) == Ok::<
            ControlState,
            EncodeError,
        >(state),
{
    let plain = state_view(state, 0);
    let c = checksum_of(packed(plain));
    let full = state_view(state, c);
    lemma_view_packed(plain);
    lemma_view_packed(full);
    let set = with_field(packed(plain), CHECKSUM_LSB, CHECKSUM_MASK, c as u64);
    lemma_set_checksum(packed(plain), c, set);
    lemma_field_bounds(set);
    lemma_packed_view(Packet(set));
    assert(Packet(set)@ == full);
    lemma_checksum_ignores_checksum(packed(plain), c as u64);
}

/// `input` with its bits in reverse order, see [`rev8`].
pub fn rev(input: u8) -> (output: u8)
    ensures
        output == rev8(input),
{
    let mut output: u8 = 0;
    let mut i: u8 = 0;
    assert(0u8 == rev8(input) & !(0xFFu8 >> 0u8)) by (bit_vector);
    while i < 8
        invariant
            i <= 8,
            output == rev8(input) & !(0xFFu8 >> i),
        decreases 8 - i,
    {
        let is_set: u8 = if input & (1u8 << i) != 0 {
            1
        } else {
            0
        };
        let ghost before = output;
        output = output | (is_set << (7 - i));
        assert(output == rev8(input) & !(0xFFu8 >> ((i + 1) as u8))) by (bit_vector)
            requires
                i < 8,
                before == rev8(input) & !(0xFFu8 >> i),
                is_set == (if input & (1u8 << i) != 0 {
                    1u8
                } else {
                    0u8
                }),
                output == before | (is_set << ((7 - i) as u8)),
        ;
        i = i + 1;
    }
    assert(rev8(input) & !(0xFFu8 >> 8u8) == rev8(input)) by (bit_vector);
    output
}

} // verus!
