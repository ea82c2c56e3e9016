//! The remote-control protocol of Lennox heat pumps: the state that one
//! message carries, its 48-bit packet and the pulses that frame it.

pub mod packet;
pub mod phy;

pub use phy::{DecodeError, Phy, PhyError, PulseType};

use crate::broadlink::{
    dequantize, encode_units, lemma_wire_roundtrip, quantize, wire_decoded, wire_encoded,
    Recording, RecordingView, Transport,
};
use crate::duration::Duration;
use crate::pwm::{classify, first_match};
use packet::{
    checksum_of, decoded_state, encoded_state, lemma_state_roundtrip, packed, state_view,
    valid_state, EncodeError, Packet,
};
use phy::{
    flatten, lemma_decode_classified, lemma_decode_message_of_message, lemma_link_roundtrip,
    link_decoded, link_encoded, link_rules, message, PAYLOAD_MASK,
};
use vstd::prelude::*;

verus! {

/// The complete state that one message sets on the heat pump.
#[derive(Debug, Clone, Copy, PartialEq, Eq, Structural)]
pub struct ControlState {
    /// Whether the unit runs.
    pub power: bool,
    /// Operating mode.
    pub mode: Mode,
    /// Set temperature in degrees Celsius, 17 to 30; none in fan mode.
    pub temperature: Option<u8>,
    /// Fan speed.
    pub fan: Fan,
}

/// Fan speed.
#[derive(Debug, Clone, Copy, PartialEq, Eq, Hash, Structural)]
pub enum Fan {
    Min,
    Medium,
    Max,
    Auto,
    /// Used in modes in which the unit controls the fan by itself.
    Zero,
}

/// Operating mode.
#[derive(Debug, Clone, Copy, PartialEq, Eq, Hash, Structural)]
pub enum Mode {
    Auto,
    Cool,
    Dry,
    Heat,
    Fan,
}

/// Why a recording sets no state.
#[derive(Debug, Clone, Copy, PartialEq, Eq)]
pub enum StateError {
    /// The pulses carry no message.
    Link(PhyError),
    /// The message is no valid packet.
    Packet(EncodeError),
}

/// The recording that sets `state`: an infrared recording, sent once, of
/// the message that carries the packet of `state`.
pub open spec fn state_encoded(state: ControlState) -> Result<RecordingView, EncodeError> {
    match encoded_state(state) {
        Err(e) => Err(e),
        Ok(packet) => Ok(
            RecordingView {
                repeat_count: 0,
                transport: Transport::Ir,
                pulses: link_encoded(packet.0),
            },
        ),
    }
}

/// The state that the pulses of `recording` set, or why they set none.
pub open spec fn state_decoded(recording: RecordingView) -> Result<ControlState, StateError> {
    match link_decoded(recording.pulses) {
        Err(e) => Err(StateError::Link(e)),
        Ok(bits) => match decoded_state(Packet(bits)) {
            Err(e) => Err(StateError::Packet(e)),
            Ok(state) => Ok(state),
        },
    }
}

impl ControlState {
    /// The recording that sets this state, see [`state_encoded`]. A
    /// temperature below 17 or above 30 degrees Celsius is refused.
    pub fn to_recording(&self) -> (r: Result<Recording, EncodeError>)
        ensures
            match r {
                Ok(recording) => state_encoded(*self) == Ok::<RecordingView, EncodeError>(
                    recording@,
                ),
                Err(e) => state_encoded(*self) == Err::<RecordingView, EncodeError>(e),
            },
    {
        let packet = match Packet::from_control_state(self) {
            Ok(packet) => packet,
            Err(e) => {
                return Err(e);
            },
        };
        match Phy::new().encode(packet.0) {
            Ok(pulses) => Ok(Recording::new_ir(pulses)),
            Err(_) => unreached(),
        }
    }

    /// The state that the pulses of `recording` set, see [`state_decoded`].
    pub fn from_recording(recording: &Recording) -> (r: Result<ControlState, StateError>)
        ensures
            r == state_decoded(recording@),
    {
        let bits = match Phy::new().decode(recording.pulses.as_slice()) {
            Ok(bits) => bits,
            Err(e) => {
                return Err(StateError::Link(e));
            },
        };
        match Packet(bits).to_control_state() {
            Ok(state) => Ok(state),
            Err(e) => Err(StateError::Packet(e)),
        }
    }
}

/// The packet of a state has no bit above the payload.
pub proof fn lemma_packet_is_payload(state: ControlState)
    requires
        valid_state(state),
    ensures
        encoded_state(state) matches Ok(packet) && packet.0 <= PAYLOAD_MASK,
{
    let v = state_view(state, checksum_of(packed(state_view(state, 0))));
    assert(packed(v) <= PAYLOAD_MASK);
}

/// The recording of a valid state sets this state.
pub proof fn lemma_state_recording_roundtrip(state: ControlState)
    requires
        valid_state(state),
    ensures
        state_encoded(state) matches Ok(recording) && state_decoded(recording) == Ok::<
            ControlState,
            StateError,
        >(state),
{
    lemma_packet_is_payload(state);
    lemma_state_roundtrip(state);
    lemma_link_roundtrip(encoded_state(state).unwrap().0);
}

/// The recording of a valid state still sets this state after it went
/// through the wire format, although the wire rounds each pulse to whole
/// units.
pub proof fn lemma_state_wire_roundtrip(state: ControlState)
    requires
        valid_state(state),
    ensures
        state_encoded(state) matches Ok(recording) && wire_decoded(wire_encoded(recording))
            matches Ok(received) && received.repeat_count == 0 && received.transport
            == Transport::Ir && state_decoded(received) == Ok::<ControlState, StateError>(state),
{
    lemma_packet_is_payload(state);
    lemma_state_roundtrip(state);
    let bits = encoded_state(state).unwrap().0;
    let recording = state_encoded(state).unwrap();
    let pairs = message(bits);
    let sent = link_encoded(bits);
    assert(sent.len() == 200);
    assert forall|i: int| 0 <= i < sent.len() implies quantize(#[trigger] sent[i]) != 0
        && quantize(sent[i]) < 256 && flatten(pairs)[i] != PulseType::Huge && classify(
        link_rules(),
        dequantize(quantize(sent[i])),
    ) == Some(flatten(pairs)[i]) by {
        reveal_with_fuel(first_match, 6);
    }
    lemma_encoded_length(sent, 200);
    assert(sent.take(200) =~= sent);
    lemma_wire_roundtrip(recording);
    let received = sent.map_values(|d: Duration| dequantize(quantize(d)));
    assert forall|i: int| 0 <= i < received.len() implies classify(
        link_rules(),
        #[trigger] received[i],
    ) == Some(flatten(pairs)[i]) by {
        assert(quantize(sent[i]) != 0);
    }
    lemma_decode_classified(pairs, received, pairs.len());
    assert(pairs.take(pairs.len() as int) =~= pairs);
    lemma_decode_message_of_message(bits);
}

/// Pulses of less than 256 units take one byte each.
proof fn lemma_encoded_length(pulses: Seq<Duration>, count: nat)
    requires
        count <= pulses.len(),
        forall|i: int| 0 <= i < pulses.len() ==> quantize(#[trigger] pulses[i]) < 256,
    ensures
        encode_units(pulses.take(count as int)).len() == count,
    decreases count,
{
    if count > 0 {
        lemma_encoded_length(pulses, (count - 1) as nat);
        assert(pulses.take(count as int).drop_last() =~= pulses.take(count - 1));
        assert(pulses.take(count as int).last() == pulses[count - 1]);
    }
}

} // verus!
