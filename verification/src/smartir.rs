//! Codes for SmartIR, the Home Assistant integration: each state as the
//! base64 text of the recording that sets it.

use crate::broadlink::wire_encoded;
use crate::lennox::packet::{valid_state, EncodeError};
use crate::lennox::{state_encoded, ControlState, Fan, Mode};
use crate::modem::codecs::{base64_encoded, BroadlinkBase64, Codec};
use vstd::prelude::*;

verus! {

/// The modes that the code file lists, in its order.
pub open spec fn listed_modes() -> Seq<Mode> {
    seq![Mode::Auto, Mode::Cool, Mode::Dry, Mode::Heat, Mode::Fan]
}

/// The fan speeds that the code file lists, in its order.
pub open spec fn listed_fans() -> Seq<Fan> {
    seq![Fan::Min, Fan::Medium, Fan::Max, Fan::Auto]
}

/// The states that the code file lists for one mode and one fan speed: in
/// fan mode the one without a temperature, in any other mode one for each
/// temperature from 17 to 30 degrees Celsius.
pub open spec fn listed_for(mode: Mode, fan: Fan) -> Seq<ControlState> {
    if mode == Mode::Fan {
        seq![ControlState { power: true, mode, temperature: None, fan }]
    } else {
        Seq::new(
            14,
            |i: int| ControlState { power: true, mode, temperature: Some((17 + i) as u8), fan },
        )
    }
}

/// The states of the first `count` pairs of a mode and a fan speed, the fan
/// speeds of one mode following each other.
pub open spec fn listed_upto(count: nat) -> Seq<ControlState>
    decreases count,
{
    if count == 0 {
        Seq::empty()
    } else {
        listed_upto((count - 1) as nat) + listed_for(
            listed_modes()[(count - 1) / 4],
            listed_fans()[(count - 1) % 4],
        )
    }
}

/// The state that switches the unit off.
pub open spec fn off_state() -> ControlState {
    ControlState { power: false, mode: Mode::Auto, temperature: None, fan: Fan::Auto }
}

/// The states that the code file lists: those of every mode and fan speed,
/// and the one that switches the unit off.
pub open spec fn listed_states() -> Seq<ControlState> {
    listed_upto(20).push(off_state())
}

/// The states of the code file, see [`listed_states`].
pub fn command_states() -> (states: Vec<ControlState>)
    ensures
        states@ == listed_states(),
{
    let modes = [Mode::Auto, Mode::Cool, Mode::Dry, Mode::Heat, Mode::Fan];
    let fans = [Fan::Min, Fan::Medium, Fan::Max, Fan::Auto];
    assert(modes@ =~= listed_modes());
    assert(fans@ =~= listed_fans());
    let mut states: Vec<ControlState> = Vec::new();
    let mut m: usize = 0;
    while m < 5
        invariant
            m <= 5,
            modes@ == listed_modes(),
            fans@ == listed_fans(),
            states@ == listed_upto((4 * m) as nat),
        decreases 5 - m,
    {
        let mode = modes[m];
        let mut f: usize = 0;
        while f < 4
            invariant
                m < 5,
                f <= 4,
                mode == listed_modes()[m as int],
                fans@ == listed_fans(),
                states@ == listed_upto((4 * m + f) as nat),
            decreases 4 - f,
        {
            let fan = fans[f];
            let ghost before = states@;
            assert((4 * m + f) / 4 == m && (4 * m + f) % 4 == f);
            match mode {
                Mode::Fan => {
                    states.push(ControlState { power: true, mode, temperature: None, fan });
                    assert(states@ =~= before + listed_for(mode, fan));
                },
                _ => {
                    let mut temperature: u8 = 17;
                    while temperature <= 30
                        invariant
                            17 <= temperature <= 31,
                            mode != Mode::Fan,
                            states@ == before + listed_for(mode, fan).take(temperature - 17),
                        decreases 31 - temperature,
                    {
                        states.push(
                            ControlState { power: true, mode, temperature: Some(temperature), fan },
                        );
                        assert(states@ =~= before + listed_for(mode, fan).take(
                            temperature + 1 - 17,
                        ));
                        temperature = temperature + 1;
                    }
                    assert(listed_for(mode, fan).take(14) =~= listed_for(mode, fan));
                },
            }
            f = f + 1;
        }
        m = m + 1;
    }
    states.push(ControlState { power: false, mode: Mode::Auto, temperature: None, fan: Fan::Auto });
    states
}

/// Every state of the code file has a code.
pub proof fn lemma_listed_states_are_valid(i: int)
    requires
        0 <= i < listed_states().len(),
    ensures
        valid_state(listed_states()[i]),
{
    lemma_listed_upto_valid(20, i);
}

/// The first pairs of a mode and a fan speed list valid states only.
proof fn lemma_listed_upto_valid(count: nat, i: int)
    requires
        count <= 20,
        0 <= i < listed_upto(count).len() + 1,
    ensures
        i < listed_upto(count).len() ==> valid_state(listed_upto(count)[i]),
        valid_state(off_state()),
    decreases count,
{
    if count > 0 {
        let front = listed_upto((count - 1) as nat);
        if i < front.len() {
            lemma_listed_upto_valid((count - 1) as nat, i);
        }
    }
}

/// The code of `state`: the wire format of its recording in base64. A
/// temperature below 17 or above 30 degrees Celsius is refused.
pub fn encode_state(state: &ControlState) -> (r: Result<String, EncodeError>)
    ensures
        match r {
            Ok(code) => state_encoded(*state) matches Ok(recording) && code@ == base64_encoded(
                wire_encoded(recording),
            ),
            Err(e) => !valid_state(*state) && e == EncodeError::TemperatureOutOfRange,
        },
{
    let recording = match state.to_recording() {
        Ok(recording) => recording,
        Err(e) => {
            return Err(e);
        },
    };
    match BroadlinkBase64.encode(&recording) {
        Ok(code) => Ok(code),
        Err(_) => unreached(),
    }
}

} // verus!
