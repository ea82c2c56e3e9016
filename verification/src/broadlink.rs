//! The byte format in which a Broadlink blaster carries a pulse train.
//!
//! | offset | contents                                                        |
//! |--------|-----------------------------------------------------------------|
//! | 0      | transport tag: `0x26` IR, `0xb2` RF 433 MHz, `0xd7` RF 315 MHz  |
//! | 1      | repeat count                                                    |
//! | 2..4   | length of the pulse data in bytes, little endian                |
//! | 4..    | pulse data: one byte per pulse, or `0x00` and a big-endian `u16` |
//!
//! Pulse lengths are counted in units of 8192/269 microseconds.

use crate::buffer::{bytes_from_vec, bytes_seq, vec_from_bytes};
use crate::duration::Duration;
use bytes::Bytes;
use vstd::prelude::*;
use vstd::string::StringExecFns;

verus! {

/// The medium a recording is sent over.
#[derive(Debug, Clone, Copy, PartialEq, Eq, Structural)]
pub enum Transport {
    Ir,
    Rf433,
    Rf315,
}

impl Transport {
    /// The byte that stands for this transport on the wire.
    pub open spec fn spec_tag(self) -> u8 {
        match self {
            Transport::Ir => 0x26,
            Transport::Rf433 => 0xb2,
            Transport::Rf315 => 0xd7,
        }
    }

    /// The transport that `tag` stands for, if any.
    pub open spec fn spec_from_tag(tag: u8) -> Option<Transport> {
        if tag == 0x26 {
            Some(Transport::Ir)
        } else if tag == 0xb2 {
            Some(Transport::Rf433)
        } else if tag == 0xd7 {
            Some(Transport::Rf315)
        } else {
            None
        }
    }

    /// The byte that stands for this transport on the wire.
    #[verifier::when_used_as_spec(spec_tag)]
    pub fn tag(self) -> (t: u8)
        ensures
            t == self.spec_tag(),
    {
        match self {
            Transport::Ir => 0x26,
            Transport::Rf433 => 0xb2,
            Transport::Rf315 => 0xd7,
        }
    }

    /// The transport that `tag` stands for, if any.
    #[verifier::when_used_as_spec(spec_from_tag)]
    pub fn from_tag(tag: u8) -> (t: Option<Transport>)
        ensures
            t == Transport::spec_from_tag(tag),
    {
        match tag {
            0x26 => Some(Transport::Ir),
            0xb2 => Some(Transport::Rf433),
            0xd7 => Some(Transport::Rf315),
            _ => None,
        }
    }
}

/// Why a byte buffer is not a recording.
#[derive(Debug, Clone, Copy, PartialEq, Eq, Structural)]
pub enum ParseError {
    /// The first byte names no known transport.
    InvalidTransport(u8),
    /// The buffer ends inside the header, or before the pulse data that the
    /// header announces is complete.
    Truncated,
}

/// A pulse train as the blaster sends or learns it. The pulses alternate
/// between carrier on and carrier off, starting with on.
#[derive(Clone, Debug, PartialEq, Eq)]
pub struct Recording {
    pub repeat_count: u8,
    pub transport: Transport,
    pub pulses: Vec<Duration>,
}

/// The mathematical content of a [`Recording`].
pub struct RecordingView {
    pub repeat_count: u8,
    pub transport: Transport,
    pub pulses: Seq<Duration>,
}

impl View for Recording {
    type V = RecordingView;

    open spec fn view(&self) -> RecordingView {
        RecordingView {
            repeat_count: self.repeat_count,
            transport: self.transport,
            pulses: self.pulses@,
        }
    }
}

/// The pulse that completes a recording whose last on pulse has no off pulse.
pub open spec fn filler() -> Duration {
    Duration { nanos: 100_000_000 }
}

/// The number of wire units nearest to `d`, at most `0xFFFF`. Microseconds
/// are taken whole, and a half unit rounds up.
pub open spec fn quantize(d: Duration) -> u16 {
    let q = (d.micros() * 269 + 4096) / 8192;
    if q > 0xFFFF {
        0xFFFFu16
    } else {
        q as u16
    }
}

/// The duration nearest to `q` wire units, in whole nanoseconds.
pub open spec fn dequantize(q: u16) -> Duration {
    Duration { nanos: ((2 * (q * 8_192_000) + 269) / 538) as u128 }
}

/// The value of two bytes read as a big-endian number.
pub open spec fn be16(hi: u8, lo: u8) -> u16 {
    (hi * 256 + lo) as u16
}

/// The value of two bytes read as a little-endian number.
pub open spec fn le16(lo: u8, hi: u8) -> u16 {
    (hi * 256 + lo) as u16
}

impl Duration {
    /// This duration in wire units, see [`quantize`].
    pub fn to_broadlink(self) -> (q: u16)
        ensures
            q == quantize(self),
    {
        let micros: u128 = self.nanos / 1_000;
        let units: u128 = (micros * 269 + 4096) / 8192;
        if units > 0xFFFF {
            0xFFFF
        } else {
            units as u16
        }
    }

    /// The duration of `q` wire units, see [`dequantize`].
    pub fn from_broadlink(q: u16) -> (d: Duration)
        ensures
            d == dequantize(q),
    {
        Duration { nanos: (2 * (q as u128 * 8_192_000) + 269) / 538 }
    }
}

/// The pulses, in wire units, that the pulse data holds from byte `pos` on,
/// reading no more than `budget` bytes. A zero byte announces a two-byte
/// unit; where the data or the budget ends inside such an escape, reading
/// stops there and the escape yields no pulse. `None` where the data ends at
/// the start of a pulse while the budget asks for more.
pub open spec fn decode_units(data: Seq<u8>, pos: int, budget: nat) -> Option<Seq<u16>>
    decreases budget,
{
    if budget == 0 {
        Some(Seq::empty())
    } else if pos >= data.len() {
        None
    } else if data[pos] != 0 {
        match decode_units(data, pos + 1, (budget - 1) as nat) {
            Some(rest) => Some(seq![data[pos] as u16] + rest),
            None => None,
        }
    } else if budget < 3 || pos + 3 > data.len() {
        Some(Seq::empty())
    } else {
        match decode_units(data, pos + 3, (budget - 3) as nat) {
            Some(rest) => Some(seq![be16(data[pos + 1], data[pos + 2])] + rest),
            None => None,
        }
    }
}

/// `pulses`, with the filler at the end where their number is odd.
pub open spec fn with_filler(pulses: Seq<Duration>) -> Seq<Duration> {
    if pulses.len() % 2 != 0 {
        pulses.push(filler())
    } else {
        pulses
    }
}

/// The recording that the byte buffer `data` holds, or why it holds none.
pub open spec fn wire_decoded(data: Seq<u8>) -> Result<RecordingView, ParseError> {
    if data.len() == 0 {
        Err(ParseError::Truncated)
    } else {
        match Transport::spec_from_tag(data[0]) {
            None => Err(ParseError::InvalidTransport(data[0])),
            Some(transport) => if data.len() < 4 {
                Err(ParseError::Truncated)
            } else {
                match decode_units(data, 4, le16(data[2], data[3]) as nat) {
                    None => Err(ParseError::Truncated),
                    Some(units) => Ok(
                        RecordingView {
                            repeat_count: data[1],
                            transport,
                            pulses: with_filler(units.map_values(|q: u16| dequantize(q))),
                        },
                    ),
                }
            },
        }
    }
}

/// The bytes that carry one pulse of `q` wire units.
pub open spec fn encode_unit(q: u16) -> Seq<u8> {
    if q < 256 {
        seq![q as u8]
    } else {
        seq![0u8, (q / 256) as u8, (q % 256) as u8]
    }
}

/// The pulse data that carries `pulses`.
pub open spec fn encode_units(pulses: Seq<Duration>) -> Seq<u8>
    decreases pulses.len(),
{
    if pulses.len() == 0 {
        Seq::empty()
    } else {
        encode_units(pulses.drop_last()) + encode_unit(quantize(pulses.last()))
    }
}

/// The byte buffer that carries the recording `r`. The length field holds
/// the length of the pulse data modulo 65536.
pub open spec fn wire_encoded(r: RecordingView) -> Seq<u8> {
    let body = encode_units(r.pulses);
    seq![
        r.transport.spec_tag(),
        r.repeat_count,
        (body.len() % 256) as u8,
        ((body.len() / 256) % 256) as u8,
    ] + body
}

/// `rest` after `head`, where there is a rest.
pub open spec fn prepend(head: Seq<u16>, rest: Option<Seq<u16>>) -> Option<Seq<u16>> {
    match rest {
        Some(rest) => Some(head + rest),
        None => None,
    }
}

/// The infrared recording, sent once, of pulses given in microseconds.
pub open spec fn pulses_view(micros: Seq<u32>) -> RecordingView {
    RecordingView {
        repeat_count: 0,
        transport: Transport::Ir,
        pulses: micros.map_values(|t: u32| Duration { nanos: (t * 1_000) as u128 }),
    }
}

/// The character that stands for the decimal digit `d`.
pub open spec fn digit_char(d: nat) -> char {
    if d == 0 {
        '0'
    } else if d == 1 {
        '1'
    } else if d == 2 {
        '2'
    } else if d == 3 {
        '3'
    } else if d == 4 {
        '4'
    } else if d == 5 {
        '5'
    } else if d == 6 {
        '6'
    } else if d == 7 {
        '7'
    } else if d == 8 {
        '8'
    } else {
        '9'
    }
}

/// `n` in decimal, without leading zeros.
pub open spec fn decimal(n: nat) -> Seq<char>
    decreases n,
{
    if n < 10 {
        seq![digit_char(n)]
    } else {
        decimal(n / 10).push(digit_char(n % 10))
    }
}

/// The sign in front of the pulse at `index`: `+` for on, `-` for off.
pub open spec fn sign_char(index: int) -> char {
    if index % 2 == 0 {
        '+'
    } else {
        '-'
    }
}

/// The pulses in readable form: each pulse as its sign, its whole
/// microseconds in decimal and a space.
pub open spec fn raw_format(pulses: Seq<Duration>) -> Seq<char>
    decreases pulses.len(),
{
    if pulses.len() == 0 {
        Seq::empty()
    } else {
        raw_format(pulses.drop_last()) + seq![sign_char(pulses.len() - 1)] + decimal(
            pulses.last().micros(),
        ) + seq![' ']
    }
}

/// The digits of `rest` where it is not zero.
spec fn decimal_prefix(rest: nat) -> Seq<char> {
    if rest == 0 {
        Seq::empty()
    } else {
        decimal(rest)
    }
}

/// The one-character string of the decimal digit `d`.
fn digit_str(d: u8) -> (s: &'static str)
    requires
        d < 10,
    ensures
        s@ == seq![digit_char(d as nat)],
{
    proof {
        reveal_strlit("0");
        reveal_strlit("1");
        reveal_strlit("2");
        reveal_strlit("3");
        reveal_strlit("4");
        reveal_strlit("5");
        reveal_strlit("6");
        reveal_strlit("7");
        reveal_strlit("8");
        reveal_strlit("9");
    }
    let s = match d {
        0 => "0",
        1 => "1",
        2 => "2",
        3 => "3",
        4 => "4",
        5 => "5",
        6 => "6",
        7 => "7",
        8 => "8",
        _ => "9",
    };
    assert(s@ =~= seq![digit_char(d as nat)]);
    s
}

/// Appends `n` in decimal to `out`.
fn push_decimal(out: &mut String, n: u128)
    ensures
        final(out)@ == old(out)@ + decimal(n as nat),
{
    let mut digits: Vec<u8> = Vec::new();
    digits.push((n % 10) as u8);
    let mut rest: u128 = n / 10;
    let ghost mut tail: Seq<char> = seq![digit_char((n % 10) as nat)];
    assert(decimal(n as nat) =~= decimal_prefix(rest as nat) + tail);
    while rest > 0
        invariant
            tail.len() == digits.len(),
            forall|i: int| 0 <= i < digits.len() ==> digits[i] < 10,
            forall|i: int|
                0 <= i < digits.len() ==> #[trigger] tail[i] == digit_char(
                    digits[digits.len() - 1 - i] as nat,
                ),
            decimal(n as nat) == decimal_prefix(rest as nat) + tail,
        decreases rest,
    {
        let d: u8 = (rest % 10) as u8;
        proof {
            let c = digit_char(d as nat);
            assert(decimal_prefix(rest as nat) + tail =~= decimal_prefix((rest / 10) as nat) + (
            seq![c] + tail));
            tail = seq![c] + tail;
        }
        digits.push(d);
        rest = rest / 10;
    }
    let mut k: usize = digits.len();
    while k > 0
        invariant
            k <= digits.len(),
            tail.len() == digits.len(),
            forall|i: int| 0 <= i < digits.len() ==> digits[i] < 10,
            forall|i: int|
                0 <= i < digits.len() ==> #[trigger] tail[i] == digit_char(
                    digits[digits.len() - 1 - i] as nat,
                ),
            out@ == old(out)@ + tail.take(digits.len() - k),
        decreases k,
    {
        k = k - 1;
        out.append(digit_str(digits[k]));
        proof {
            let j = digits.len() - 1 - k;
            assert(tail[j] == digit_char(digits[digits.len() - 1 - j] as nat));
            assert(tail.take(j + 1) =~= tail.take(j) + seq![tail[j]]);
        }
    }
    assert(tail.take(digits.len() as int) =~= tail);
}

/// Whether two durations differ by no more than one wire unit, that is by
/// 8192/269 microseconds.
pub open spec fn within_one_unit(a: Duration, b: Duration) -> bool {
    (a.nanos - b.nanos) * 269 <= 8_192_000 && (b.nanos - a.nanos) * 269 <= 8_192_000
}

/// Whether `d` neither rounds to zero units, which the wire format reads as
/// an escape, nor exceeds the largest unit count.
pub open spec fn representable(d: Duration) -> bool {
    0 < (d.micros() * 269 + 4096) / 8192 <= 0xFFFF
}

/// A whole number of units survives the way through a duration.
pub proof fn lemma_quantize_dequantize(q: u16)
    ensures
        quantize(dequantize(q)) == q,
{
    let n = q * 8_192_000;
    let nanos = (2 * n + 269) / 538;
    let micros = nanos / 1_000;
    assert(538 * nanos <= 2 * n + 269 < 538 * nanos + 538);
    assert(1_000 * micros <= nanos < 1_000 * micros + 1_000);
    assert(q * 8192 <= micros * 269 + 4096 < q * 8192 + 8192);
}

/// A duration that is representable comes back from the wire within one
/// unit of itself.
pub proof fn lemma_dequantize_quantize(d: Duration)
    requires
        (d.micros() * 269 + 4096) / 8192 <= 0xFFFF,
    ensures
        within_one_unit(dequantize(quantize(d)), d),
{
    let micros = d.micros() as int;
    let q = (micros * 269 + 4096) / 8192;
    assert(q == quantize(d));
    let back = (2 * (q * 8_192_000) + 269) / 538;
    assert(back == dequantize(quantize(d)).nanos);
    assert(8192 * q <= micros * 269 + 4096 < 8192 * q + 8192);
    assert(1_000 * micros <= d.nanos < 1_000 * micros + 1_000);
    assert(538 * back <= 2 * (q * 8_192_000) + 269 < 538 * back + 538);
}

/// Pulse data that holds the encoding of `pulses` from `pos` on reads back
/// as their unit counts, followed by whatever the rest of the data holds.
pub proof fn lemma_decode_encoded_units(data: Seq<u8>, pos: int, budget: nat, pulses: Seq<Duration>)
    requires
        0 <= pos,
        pos + encode_units(pulses).len() <= data.len(),
        encode_units(pulses).len() <= budget,
        data.subrange(pos, pos + encode_units(pulses).len()) == encode_units(pulses),
        forall|i: int| 0 <= i < pulses.len() ==> quantize(#[trigger] pulses[i]) != 0,
    ensures
        decode_units(data, pos, budget) == prepend(
            pulses.map_values(|d: Duration| quantize(d)),
            decode_units(
                data,
                pos + encode_units(pulses).len(),
                (budget - encode_units(pulses).len()) as nat,
            ),
        ),
    decreases pulses.len(),
{
    let units = pulses.map_values(|d: Duration| quantize(d));
    if pulses.len() == 0 {
        let rest = decode_units(data, pos, budget);
        if rest is Some {
            assert(units + rest.unwrap() =~= rest.unwrap());
        }
    } else {
        let front = pulses.drop_last();
        let front_len = encode_units(front).len() as int;
        let q = quantize(pulses.last());
        let all = encode_units(pulses);
        assert(all == encode_units(front) + encode_unit(q));
        assert(data.subrange(pos, pos + front_len) =~= encode_units(front)) by {
            assert forall|i: int| 0 <= i < front_len implies data[pos + i] == encode_units(
                front,
            )[i] by {
                assert(data.subrange(pos, pos + all.len())[i] == all[i]);
            }
        }
        lemma_decode_encoded_units(data, pos, budget, front);
        let front_units = front.map_values(|d: Duration| quantize(d));
        assert(units =~= front_units.push(q));
        let at = pos + front_len;
        let left = (budget - front_len) as nat;
        assert(pulses[pulses.len() - 1] == pulses.last());
        assert(q != 0);
        let window = data.subrange(pos, pos + all.len());
        assert(window[front_len] == data[at] && all[front_len] == encode_unit(q)[0]);
        if q < 256 {
            assert(data[at] == q);
            let rest = decode_units(data, at + 1, (left - 1) as nat);
            assert(decode_units(data, at, left) == prepend(seq![q], rest));
            if rest is Some {
                assert(front_units + (seq![q] + rest.unwrap()) =~= units + rest.unwrap());
            }
        } else {
            assert(window[front_len + 1] == data[at + 1] && all[front_len + 1] == encode_unit(
                q,
            )[1]);
            assert(window[front_len + 2] == data[at + 2] && all[front_len + 2] == encode_unit(
                q,
            )[2]);
            assert(data[at] == 0);
            assert(data[at + 1] == q / 256);
            assert(data[at + 2] == q % 256);
            assert(be16(data[at + 1], data[at + 2]) == q);
            let rest = decode_units(data, at + 3, (left - 3) as nat);
            assert(decode_units(data, at, left) == prepend(seq![q], rest));
            if rest is Some {
                assert(front_units + (seq![q] + rest.unwrap()) =~= units + rest.unwrap());
            }
        }
    }
}

/// Reading back what was written gives the same transport and repeat count,
/// and each pulse as the wire could hold it: rounded to whole units. A
/// filler follows where the number of pulses is odd.
///
/// This holds where the pulse data fits the length field and no pulse rounds
/// to zero units.
pub proof fn lemma_wire_roundtrip(r: RecordingView)
    requires
        encode_units(r.pulses).len() <= 0xFFFF,
        forall|i: int| 0 <= i < r.pulses.len() ==> quantize(#[trigger] r.pulses[i]) != 0,
    ensures
        wire_decoded(wire_encoded(r)) == Ok::<RecordingView, ParseError>(
            RecordingView {
                repeat_count: r.repeat_count,
                transport: r.transport,
                pulses: with_filler(
                    r.pulses.map_values(|d: Duration| dequantize(quantize(d))),
                ),
            },
        ),
{
    let body = encode_units(r.pulses);
    let data = wire_encoded(r);
    let len = body.len() as int;
    assert(data.len() == 4 + len);
    assert(data[0] == r.transport.spec_tag());
    assert(data[1] == r.repeat_count);
    assert(le16(data[2], data[3]) == len);
    assert(data.subrange(4, 4 + len) =~= body);
    lemma_decode_encoded_units(data, 4, len as nat, r.pulses);
    let units = r.pulses.map_values(|d: Duration| quantize(d));
    assert(decode_units(data, 4 + len, 0) == Some(Seq::<u16>::empty()));
    assert(units + Seq::<u16>::empty() =~= units);
    assert(units.map_values(|q: u16| dequantize(q)) =~= r.pulses.map_values(
        |d: Duration| dequantize(quantize(d)),
    ));
}

/// Reading back what was written gives the same transport and repeat count,
/// and each pulse within one wire unit of what it was.
///
/// This holds where the pulse data fits the length field and every pulse is
/// representable.
pub proof fn lemma_wire_roundtrip_within_unit(r: RecordingView)
    requires
        encode_units(r.pulses).len() <= 0xFFFF,
        forall|i: int| 0 <= i < r.pulses.len() ==> representable(#[trigger] r.pulses[i]),
    ensures
        wire_decoded(wire_encoded(r)) is Ok,
        wire_decoded(wire_encoded(r)).unwrap().transport == r.transport,
        wire_decoded(wire_encoded(r)).unwrap().repeat_count == r.repeat_count,
        wire_decoded(wire_encoded(r)).unwrap().pulses.len() == r.pulses.len() + r.pulses.len() % 2,
        forall|i: int|
            0 <= i < r.pulses.len() ==> within_one_unit(
                #[trigger] wire_decoded(wire_encoded(r)).unwrap().pulses[i],
                r.pulses[i],
            ),
        r.pulses.len() % 2 == 1 ==> wire_decoded(wire_encoded(r)).unwrap().pulses.last()
            == filler(),
{
    lemma_wire_roundtrip(r);
    let back = wire_decoded(wire_encoded(r)).unwrap().pulses;
    assert forall|i: int| 0 <= i < r.pulses.len() implies within_one_unit(
        #[trigger] back[i],
        r.pulses[i],
    ) by {
        assert(representable(r.pulses[i]));
        lemma_dequantize_quantize(r.pulses[i]);
    }
}

impl Recording {
    /// An infrared recording of `pulses` that is sent once.
    pub fn new_ir(pulses: Vec<Duration>) -> (r: Recording)
        ensures
            r.repeat_count == 0,
            r.transport == Transport::Ir,
            r.pulses == pulses,
    {
        Recording { repeat_count: 0, transport: Transport::Ir, pulses }
    }

    /// Reads a recording from the byte buffer `data`.
    #[verifier::loop_isolation(false)]
    pub fn parse(data: &[u8]) -> (r: Result<Recording, ParseError>)
        ensures
            match r {
                Ok(rec) => wire_decoded(data@) == Ok::<RecordingView, ParseError>(rec@),
                Err(e) => wire_decoded(data@) == Err::<RecordingView, ParseError>(e),
            },
    {
        if data.len() == 0 {
            return Err(ParseError::Truncated);
        }
        let transport = match Transport::from_tag(data[0]) {
            Some(t) => t,
            None => {
                return Err(ParseError::InvalidTransport(data[0]));
            },
        };
        if data.len() < 4 {
            return Err(ParseError::Truncated);
        }
        let repeat_count = data[1];
        let length: usize = data[3] as usize * 256 + data[2] as usize;

        let mut pulses: Vec<Duration> = Vec::new();
        let ghost mut units: Seq<u16> = Seq::empty();
        let mut pos: usize = 4;
        let mut remain: usize = length;
        while remain > 0
            invariant
                4 <= pos <= data.len(),
                pulses@ == units.map_values(|q: u16| dequantize(q)),
                decode_units(data@, 4, length as nat) == prepend(
                    units,
                    decode_units(data@, pos as int, remain as nat),
                ),
            decreases remain,
        {
            if pos >= data.len() {
                return Err(ParseError::Truncated);
            }
            let first = data[pos];
            if first != 0 {
                proof {
                    let rest = decode_units(data@, pos + 1, (remain - 1) as nat);
                    if rest is Some {
                        assert(units + (seq![first as u16] + rest.unwrap()) == units.push(
                            first as u16,
                        ) + rest.unwrap());
                    }
                    assert(units.push(first as u16).map_values(|q: u16| dequantize(q))
                        == units.map_values(|q: u16| dequantize(q)).push(
                        dequantize(first as u16),
                    ));
                    units = units.push(first as u16);
                }
                pulses.push(Duration::from_broadlink(first as u16));
                pos = pos + 1;
                remain = remain - 1;
            } else if remain < 3 || data.len() - pos < 3 {
                // The escape is cut short: what is left of the budget is dropped.
                remain = 0;
            } else {
                let value: u16 = data[pos + 1] as u16 * 256 + data[pos + 2] as u16;
                proof {
                    let rest = decode_units(data@, pos + 3, (remain - 3) as nat);
                    if rest is Some {
                        assert(units + (seq![value] + rest.unwrap()) == units.push(value)
                            + rest.unwrap());
                    }
                    assert(units.push(value).map_values(|q: u16| dequantize(q))
                        == units.map_values(|q: u16| dequantize(q)).push(dequantize(value)));
                    units = units.push(value);
                }
                pulses.push(Duration::from_broadlink(value));
                pos = pos + 3;
                remain = remain - 3;
            }
        }
        assert(units + Seq::<u16>::empty() == units);
        if pulses.len() % 2 != 0 {
            pulses.push(Duration::from_millis(100));
        }
        Ok(Recording { repeat_count, transport, pulses })
    }
    /// Reads a recording from the buffer `buf`.
    pub fn from_bytes(buf: Bytes) -> (r: Result<Recording, ParseError>)
        ensures
            match r {
                Ok(rec) => wire_decoded(bytes_seq(buf)) == Ok::<RecordingView, ParseError>(rec@),
                Err(e) => wire_decoded(bytes_seq(buf)) == Err::<RecordingView, ParseError>(e),
            },
    {
        let data = vec_from_bytes(buf);
        Recording::parse(data.as_slice())
    }

    /// The bytes that carry this recording.
    pub fn serialize(&self) -> (bytes: Vec<u8>)
        ensures
            bytes@ == wire_encoded(self@),
    {
        let mut body: Vec<u8> = Vec::new();
        let n = self.pulses.len();
        let mut i: usize = 0;
        while i < n
            invariant
                n == self.pulses.len(),
                i <= n,
                body@ == encode_units(self.pulses@.take(i as int)),
            decreases n - i,
        {
            let q = self.pulses[i].to_broadlink();
            proof {
                assert(self.pulses@.take(i + 1).drop_last() =~= self.pulses@.take(i as int));
            }
            if q < 256 {
                body.push(q as u8);
                assert(body@ =~= encode_units(self.pulses@.take(i + 1)));
            } else {
                body.push(0);
                body.push((q / 256) as u8);
                body.push((q % 256) as u8);
                assert(body@ =~= encode_units(self.pulses@.take(i + 1)));
            }
            i = i + 1;
        }
        assert(self.pulses@.take(n as int) =~= self.pulses@);
        let len = body.len();
        let mut bytes: Vec<u8> = Vec::new();
        bytes.push(self.transport.tag());
        bytes.push(self.repeat_count);
        bytes.push((len % 256) as u8);
        bytes.push(((len / 256) % 256) as u8);
        bytes.extend_from_slice(body.as_slice());
        assert(bytes@ =~= wire_encoded(self@));
        bytes
    }

    /// The buffer that carries this recording.
    pub fn to_bytes(&self) -> (b: Bytes)
        ensures
            bytes_seq(b) == wire_encoded(self@),
    {
        bytes_from_vec(self.serialize())
    }

    /// An infrared recording, sent once, of pulses given in microseconds.
    pub fn from_pulses(micros: &[u32]) -> (r: Recording)
        ensures
            r@ == pulses_view(micros@),
    {
        let mut pulses: Vec<Duration> = Vec::new();
        let n = micros.len();
        let mut i: usize = 0;
        while i < n
            invariant
                n == micros.len(),
                i <= n,
                pulses@ == micros@.take(i as int).map_values(
                    |t: u32| Duration { nanos: (t * 1_000) as u128 },
                ),
            decreases n - i,
        {
            pulses.push(Duration::from_micros(micros[i] as u64));
            assert(pulses@ =~= micros@.take(i + 1).map_values(
                |t: u32| Duration { nanos: (t * 1_000) as u128 },
            ));
            i = i + 1;
        }
        assert(micros@.take(n as int) =~= micros@);
        Recording::new_ir(pulses)
    }

    /// The pulses in whole microseconds, each reduced modulo 2^32.
    pub fn to_pulses(&self) -> (micros: Vec<u32>)
        ensures
            micros@.len() == self.pulses@.len(),
            forall|i: int|
                0 <= i < micros@.len() ==> micros@[i] == self.pulses@[i].micros() % 0x1_0000_0000,
    {
        let mut micros: Vec<u32> = Vec::new();
        let n = self.pulses.len();
        let mut i: usize = 0;
        while i < n
            invariant
                n == self.pulses.len(),
                i <= n,
                micros@.len() == i,
                forall|j: int|
                    0 <= j < i ==> micros@[j] == self.pulses@[j].micros() % 0x1_0000_0000,
            decreases n - i,
        {
            let m: u128 = self.pulses[i].as_micros();
            micros.push((m % 0x1_0000_0000) as u32);
            i = i + 1;
        }
        micros
    }

    /// The pulses in readable form, as in `+4000 -4000 +550 `, see
    /// [`raw_format`].
    pub fn to_raw_format(&self) -> (out: String)
        ensures
            out@ == raw_format(self.pulses@),
    {
        proof {
            reveal_strlit("+");
            reveal_strlit("-");
            reveal_strlit(" ");
        }
        let mut out = String::new();
        let n = self.pulses.len();
        let mut i: usize = 0;
        while i < n
            invariant
                n == self.pulses.len(),
                i <= n,
                "+"@ == seq!['+'],
                "-"@ == seq!['-'],
                " "@ == seq![' '],
                out@ == raw_format(self.pulses@.take(i as int)),
            decreases n - i,
        {
            proof {
                assert(self.pulses@.take(i + 1).drop_last() =~= self.pulses@.take(i as int));
            }
            if i % 2 == 0 {
                out.append("+");
            } else {
                out.append("-");
            }
            push_decimal(&mut out, self.pulses[i].as_micros());
            out.append(" ");
            assert(out@ =~= raw_format(self.pulses@.take(i + 1)));
            i = i + 1;
        }
        assert(self.pulses@.take(n as int) =~= self.pulses@);
        out
    }
}

} // verus!
