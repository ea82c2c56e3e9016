//! The link layer: a 48-bit payload as a train of pulse pairs.
//!
//! A frame is a preamble pair, one pair for each of the 48 bits with the
//! lowest bit first, and an end marker. A message is the frame of the
//! payload followed by the frame of its complement; the receiver accepts
//! the first only where the second confirms it.

use crate::duration::Duration;
use crate::pwm::{
    ascending, classify, decode_pairs, decode_train, encode_symbols,
    lemma_sort_rules_of_ascending, nominal, Codec, CodecError, Rule,
};
use vstd::laws_eq::obeys_concrete_eq;
use vstd::prelude::*;
use vstd::std_specs::cmp::PartialEqSpecImpl;

verus! {

/// The symbols of the link layer, each a class of pulse lengths.
#[derive(Clone, Copy, Debug, Eq, Hash)]
pub enum PulseType {
    /// 550 microseconds.
    Short,
    /// 1550 microseconds.
    Long,
    /// 4000 microseconds.
    FourThousand,
    /// 5150 microseconds.
    FiveThousand,
    /// 100 milliseconds, as some captures end with.
    Huge,
}

impl PartialEq for PulseType {
    fn eq(&self, other: &PulseType) -> (r: bool) {
        match (*self, *other) {
            (PulseType::Short, PulseType::Short) => true,
            (PulseType::Long, PulseType::Long) => true,
            (PulseType::FourThousand, PulseType::FourThousand) => true,
            (PulseType::FiveThousand, PulseType::FiveThousand) => true,
            (PulseType::Huge, PulseType::Huge) => true,
            _ => false,
        }
    }
}

impl PartialEqSpecImpl for PulseType {
    open spec fn obeys_eq_spec() -> bool {
        true
    }

    open spec fn eq_spec(&self, other: &PulseType) -> bool {
        match (*self, *other) {
            (PulseType::Short, PulseType::Short) => true,
            (PulseType::Long, PulseType::Long) => true,
            (PulseType::FourThousand, PulseType::FourThousand) => true,
            (PulseType::FiveThousand, PulseType::FiveThousand) => true,
            (PulseType::Huge, PulseType::Huge) => true,
            _ => false,
        }
    }
}

/// `==` on symbols is equality.
pub proof fn lemma_pulse_type_eq()
    ensures
        obeys_concrete_eq::<PulseType>(),
{
    reveal(obeys_concrete_eq);
}

/// Why a train of symbol pairs is no message.
#[derive(Debug, Copy, Clone, PartialEq, Eq)]
pub enum DecodeError {
    /// A frame does not begin with the preamble.
    InvalidPreamble,
    /// The pair stands neither for a bit nor for the end of a frame.
    InvalidCombination((PulseType, PulseType)),
    /// The second frame does not hold the complement of the first.
    RepeatMismatch,
    /// The train ends where a frame should begin.
    TruncatedMessage,
}

/// Why a pulse train is no message.
#[derive(Debug, Copy, Clone, PartialEq, Eq)]
pub enum PhyError {
    /// The pulses are no train of symbol pairs.
    PWMError(CodecError<PulseType>),
    /// The symbol pairs are no message.
    DecodeError(DecodeError),
}

/// The bits of a payload.
pub const PAYLOAD_MASK: u64 = 0xFFFF_FFFF_FFFF;

/// The number of bits of a payload.
pub const PAYLOAD_BITS: usize = 48;

/// The pair that begins a frame.
pub open spec fn preamble() -> (PulseType, PulseType) {
    (PulseType::FourThousand, PulseType::FourThousand)
}

/// The pair that ends a frame.
pub open spec fn end_marker(long_ending: bool) -> (PulseType, PulseType) {
    if long_ending {
        (PulseType::Short, PulseType::Huge)
    } else {
        (PulseType::Short, PulseType::FiveThousand)
    }
}

/// The pair that stands for one bit.
pub open spec fn bit_pair(bit: bool) -> (PulseType, PulseType) {
    if bit {
        (PulseType::Short, PulseType::Long)
    } else {
        (PulseType::Short, PulseType::Short)
    }
}

/// Whether bit `i` of `bits` is set.
pub open spec fn bit_at(bits: u64, i: int) -> bool {
    bits & (1u64 << (i as u64)) != 0
}

/// The frame that carries the low 48 bits of `bits`: 50 pairs.
pub open spec fn frame(bits: u64, long_ending: bool) -> Seq<(PulseType, PulseType)> {
    Seq::new(
        50,
        |k: int|
            if k == 0 {
                preamble()
            } else if k <= 48 {
                bit_pair(bit_at(bits, k - 1))
            } else {
                end_marker(long_ending)
            },
    )
}

/// The message that carries the low 48 bits of `bits`: the frame of the
/// payload, then that of its complement.
pub open spec fn message(bits: u64) -> Seq<(PulseType, PulseType)> {
    frame(bits, false) + frame(bits ^ PAYLOAD_MASK, false)
}

/// The symbols of `pairs` one after the other.
pub open spec fn flatten(pairs: Seq<(PulseType, PulseType)>) -> Seq<PulseType> {
    Seq::new(
        2 * pairs.len(),
        |i: int|
            if i % 2 == 0 {
                pairs[i / 2].0
            } else {
                pairs[i / 2].1
            },
    )
}

/// `acc` with bit `count` set, where a `u64` has such a bit.
pub open spec fn with_bit(acc: u64, count: nat) -> u64 {
    if count < 64 {
        acc | (1u64 << (count as u64))
    } else {
        acc
    }
}

/// Reads the bits of a frame from the pair at `from` on, `count` bits with
/// the value `acc` being read already: the value of the frame and the index
/// behind it. The frame ends with an end marker or with the train.
pub open spec fn scan_bits(
    pairs: Seq<(PulseType, PulseType)>,
    from: int,
    count: nat,
    acc: u64,
) -> Result<(u64, int), DecodeError>
    decreases pairs.len() - from,
{
    if from < 0 || from >= pairs.len() {
        Ok((acc, from))
    } else {
        match pairs[from] {
            (PulseType::Short, PulseType::Short) => scan_bits(pairs, from + 1, count + 1, acc),
            (PulseType::Short, PulseType::Long) => scan_bits(
                pairs,
                from + 1,
                count + 1,
                with_bit(acc, count),
            ),
            (PulseType::Short, PulseType::FiveThousand) => Ok((acc, from + 1)),
            (PulseType::Short, PulseType::Huge) => Ok((acc, from + 1)),
            other => Err(DecodeError::InvalidCombination(other)),
        }
    }
}

/// Reads the frame that begins with the pair at `from`: its value, lowest
/// bit first, and the index behind it.
pub open spec fn decode_frame(pairs: Seq<(PulseType, PulseType)>, from: int) -> Result<
    (u64, int),
    DecodeError,
> {
    if from < 0 || from >= pairs.len() {
        Err(DecodeError::TruncatedMessage)
    } else if pairs[from] != preamble() {
        Err(DecodeError::InvalidPreamble)
    } else {
        scan_bits(pairs, from + 1, 0, 0)
    }
}

/// Reads a message: two frames, of which the second must hold the
/// complement of the first. What follows the second frame is not read.
pub open spec fn decode_message(pairs: Seq<(PulseType, PulseType)>) -> Result<u64, DecodeError> {
    match decode_frame(pairs, 0) {
        Err(e) => Err(e),
        Ok((bits, next)) => match decode_frame(pairs, next) {
            Err(e) => Err(e),
            Ok((repeated, _)) => if bits ^ repeated != PAYLOAD_MASK {
                Err(DecodeError::RepeatMismatch)
            } else {
                Ok(bits)
            },
        },
    }
}

/// The nominal duration of each symbol.
pub open spec fn nominal_duration(symbol: PulseType) -> Duration {
    match symbol {
        PulseType::Short => Duration { nanos: 550_000 },
        PulseType::Long => Duration { nanos: 1_550_000 },
        PulseType::FourThousand => Duration { nanos: 4_000_000 },
        PulseType::FiveThousand => Duration { nanos: 5_150_000 },
        PulseType::Huge => Duration { nanos: 100_000_000 },
    }
}

/// The rule of a symbol: its nominal duration, give or take a fifth.
pub open spec fn link_rule(symbol: PulseType) -> (PulseType, Rule) {
    (
        symbol,
        Rule {
            duration: nominal_duration(symbol),
            tolerance: Duration { nanos: (nominal_duration(symbol).nanos / 5) as u128 },
        },
    )
}

/// The rules of the link layer, in ascending order.
pub open spec fn link_rules() -> Seq<(PulseType, Rule)> {
    seq![
        link_rule(PulseType::Short),
        link_rule(PulseType::Long),
        link_rule(PulseType::FourThousand),
        link_rule(PulseType::FiveThousand),
        link_rule(PulseType::Huge),
    ]
}

/// The message that the pulse train `pulses` carries, or why it carries
/// none.
pub open spec fn link_decoded(pulses: Seq<Duration>) -> Result<u64, PhyError> {
    match decode_train(link_rules(), pulses) {
        Err(e) => Err(PhyError::PWMError(e)),
        Ok(pairs) => match decode_message(pairs) {
            Ok(bits) => Ok(bits),
            Err(e) => Err(PhyError::DecodeError(e)),
        },
    }
}

/// The pulse train that carries the low 48 bits of `bits`: each symbol of
/// the message at its nominal duration.
pub open spec fn link_encoded(bits: u64) -> Seq<Duration> {
    flatten(message(bits)).map_values(|s: PulseType| nominal_duration(s))
}

/// The bits of `bits` from bit `from` up to the end of the payload.
pub open spec fn high_bits(bits: u64, from: int) -> u64 {
    bits & PAYLOAD_MASK & (0xFFFF_FFFF_FFFF_FFFFu64 << (from as u64))
}

/// The bits of `bits` below bit `upto`.
pub open spec fn low_bits(bits: u64, upto: int) -> u64 {
    bits & !(0xFFFF_FFFF_FFFF_FFFFu64 << (upto as u64))
}

/// Each symbol has a rule, and its nominal duration lies in the window of
/// no rule before its own.
pub proof fn lemma_link_rules(symbol: PulseType)
    ensures
        ascending(link_rules()),
        nominal(link_rules(), symbol) == Some(nominal_duration(symbol)),
        classify(link_rules(), nominal_duration(symbol)) == Some(symbol),
{
    reveal_with_fuel(crate::pwm::last_rule_of, 6);
    reveal_with_fuel(crate::pwm::first_match, 6);
}

/// The symbols of a train have the durations of [`nominal_duration`].
proof fn lemma_encode_symbols(symbols: Seq<PulseType>, count: nat)
    requires
        count <= symbols.len(),
    ensures
        encode_symbols(link_rules(), symbols, count) == Ok::<Seq<Duration>, CodecError<PulseType>>(
            symbols.take(count as int).map_values(|s: PulseType| nominal_duration(s)),
        ),
    decreases count,
{
    let durations = symbols.take(count as int).map_values(|s: PulseType| nominal_duration(s));
    if count == 0 {
        assert(durations =~= Seq::empty());
    } else {
        lemma_encode_symbols(symbols, (count - 1) as nat);
        lemma_link_rules(symbols[count - 1]);
        let front = symbols.take(count - 1).map_values(|s: PulseType| nominal_duration(s));
        assert(front.push(nominal_duration(symbols[count - 1])) =~= durations);
    }
}

/// A pulse train in which each pulse lies in the window of its symbol, and
/// of no shorter one, is read as these symbols.
pub proof fn lemma_decode_classified(
    pairs: Seq<(PulseType, PulseType)>,
    pulses: Seq<Duration>,
    count: nat,
)
    requires
        count <= pairs.len(),
        pulses.len() == 2 * pairs.len(),
        forall|i: int|
            0 <= i < pulses.len() ==> classify(link_rules(), #[trigger] pulses[i]) == Some(
                flatten(pairs)[i],
            ),
    ensures
        decode_pairs(link_rules(), pulses, count) == Ok::<
            Seq<(PulseType, PulseType)>,
            CodecError<PulseType>,
        >(pairs.take(count as int)),
    decreases count,
{
    if count == 0 {
        assert(pairs.take(0) =~= Seq::empty());
    } else {
        lemma_decode_classified(pairs, pulses, (count - 1) as nat);
        let last = pairs[count - 1];
        assert(classify(link_rules(), pulses[2 * count - 2]) == Some(
            flatten(pairs)[2 * count - 2],
        ));
        assert(classify(link_rules(), pulses[2 * count - 1]) == Some(
            flatten(pairs)[2 * count - 1],
        ));
        assert(pairs.take(count - 1).push(last) =~= pairs.take(count as int));
    }
}

/// Reading on inside a frame of `bits`, behind its first `done` bits, adds
/// the bits that are left and ends behind the frame.
proof fn lemma_scan_rest(
    pairs: Seq<(PulseType, PulseType)>,
    base: int,
    bits: u64,
    long_ending: bool,
    done: int,
    acc: u64,
)
    requires
        0 <= base,
        base + 50 <= pairs.len(),
        0 <= done <= 48,
        forall|k: int| done < k <= 49 ==> #[trigger] pairs[base + k] == frame(bits, long_ending)[k],
    ensures
        scan_bits(pairs, base + 1 + done, done as nat, acc) == Ok::<(u64, int), DecodeError>(
            (acc | high_bits(bits, done), base + 50),
        ),
    decreases 48 - done,
{
    let pair = pairs[base + (done + 1)];
    assert(pair == frame(bits, long_ending)[done + 1]);
    let d = done as u64;
    if done == 48 {
        assert(acc | (bits & 0xFFFF_FFFF_FFFFu64 & (0xFFFF_FFFF_FFFF_FFFFu64 << 48u64)) == acc)
            by (bit_vector);
    } else {
        if bit_at(bits, done) {
            let next = with_bit(acc, done as nat);
            lemma_scan_rest(pairs, base, bits, long_ending, done + 1, next);
            assert((acc | (1u64 << d)) | (bits & 0xFFFF_FFFF_FFFFu64 & (0xFFFF_FFFF_FFFF_FFFFu64 << (
            (d + 1) as u64))) == acc | (bits & 0xFFFF_FFFF_FFFFu64 & (0xFFFF_FFFF_FFFF_FFFFu64
                << d))) by (bit_vector)
                requires
                    d < 48,
                    bits & (1u64 << d) != 0,
            ;
        } else {
            lemma_scan_rest(pairs, base, bits, long_ending, done + 1, acc);
            assert(acc | (bits & 0xFFFF_FFFF_FFFFu64 & (0xFFFF_FFFF_FFFF_FFFFu64 << ((d + 1) as u64)))
                == acc | (bits & 0xFFFF_FFFF_FFFFu64 & (0xFFFF_FFFF_FFFF_FFFFu64 << d)))
                by (bit_vector)
                requires
                    d < 48,
                    bits & (1u64 << d) == 0,
            ;
        }
    }
}

/// A frame of `bits` that stands at `base` is read as the payload of
/// `bits`, and reading ends behind it.
pub proof fn lemma_decode_frame(
    pairs: Seq<(PulseType, PulseType)>,
    base: int,
    bits: u64,
    long_ending: bool,
)
    requires
        0 <= base,
        base + 50 <= pairs.len(),
        forall|k: int| 0 <= k <= 49 ==> #[trigger] pairs[base + k] == frame(bits, long_ending)[k],
    ensures
        decode_frame(pairs, base) == Ok::<(u64, int), DecodeError>(
            (bits & PAYLOAD_MASK, base + 50),
        ),
{
    assert(pairs[base + 0] == frame(bits, long_ending)[0]);
    lemma_scan_rest(pairs, base, bits, long_ending, 0, 0);
    assert(0u64 | (bits & 0xFFFF_FFFF_FFFFu64 & (0xFFFF_FFFF_FFFF_FFFFu64 << 0u64)) == bits
        & 0xFFFF_FFFF_FFFFu64) by (bit_vector);
}

/// What is encoded is decoded to the same payload.
pub proof fn lemma_decode_message_of_message(bits: u64)
    ensures
        decode_message(message(bits)) == Ok::<u64, DecodeError>(bits & PAYLOAD_MASK),
        bits <= PAYLOAD_MASK ==> decode_message(message(bits)) == Ok::<u64, DecodeError>(bits),
{
    let pairs = message(bits);
    let other = bits ^ PAYLOAD_MASK;
    assert forall|k: int| 0 <= k <= 49 implies #[trigger] pairs[0 + k] == frame(bits, false)[k] by {}
    assert forall|k: int| 0 <= k <= 49 implies #[trigger] pairs[50 + k] == frame(other, false)[k] by {}
    lemma_decode_frame(pairs, 0, bits, false);
    lemma_decode_frame(pairs, 50, other, false);
    assert((bits & 0xFFFF_FFFF_FFFFu64) ^ ((bits ^ 0xFFFF_FFFF_FFFFu64) & 0xFFFF_FFFF_FFFFu64)
        == 0xFFFF_FFFF_FFFFu64) by (bit_vector);
    assert(bits <= 0xFFFF_FFFF_FFFFu64 ==> bits & 0xFFFF_FFFF_FFFFu64 == bits) by (bit_vector);
}

/// What the link layer sends, it receives as the same payload.
pub proof fn lemma_link_roundtrip(bits: u64)
    ensures
        link_decoded(link_encoded(bits)) == Ok::<u64, PhyError>(bits & PAYLOAD_MASK),
        bits <= PAYLOAD_MASK ==> link_decoded(link_encoded(bits)) == Ok::<u64, PhyError>(bits),
{
    let pairs = message(bits);
    let pulses = link_encoded(bits);
    assert forall|i: int| 0 <= i < pulses.len() implies classify(
        link_rules(),
        #[trigger] pulses[i],
    ) == Some(flatten(pairs)[i]) by {
        lemma_link_rules(flatten(pairs)[i]);
    }
    lemma_decode_classified(pairs, pulses, pairs.len());
    assert(pairs.take(pairs.len() as int) =~= pairs);
    lemma_decode_message_of_message(bits);
}

/// Whether `new` differs from `old` in exactly one of its two symbols.
pub open spec fn one_symbol_differs(
    old_pair: (PulseType, PulseType),
    new_pair: (PulseType, PulseType),
) -> bool {
    (old_pair.0 != new_pair.0 && old_pair.1 == new_pair.1) || (old_pair.0 == new_pair.0
        && old_pair.1 != new_pair.1)
}

/// The changes of one symbol that leave the message of `bits` readable:
/// - an end marker that becomes the long end marker;
/// - the last end marker that becomes a zero bit, after which the train ends;
/// - a bit of the second frame that becomes an end marker, where the payload
///   has only ones from there on, so that what is cut off are zeros.
pub open spec fn harmless(bits: u64, k: int, pair: (PulseType, PulseType)) -> bool {
    ||| (k == 49 || k == 99) && pair == end_marker(true)
    ||| k == 99 && pair == bit_pair(false)
    ||| 51 <= k <= 98 && (pair == end_marker(false) || pair == end_marker(true)) && high_bits(
        bits,
        k - 51,
    ) == high_bits(PAYLOAD_MASK, k - 51)
}

/// The low bits of `bits` grow by bit `i`.
proof fn lemma_low_bits_step(bits: u64, i: u64)
    by (bit_vector)
    requires
        i < 48,
    ensures
        bits & !(0xFFFF_FFFF_FFFF_FFFFu64 << 0u64) == 0,
        bits & (1u64 << i) != 0 ==> (bits & !(0xFFFF_FFFF_FFFF_FFFFu64 << i)) | (1u64 << i) == bits
            & !(0xFFFF_FFFF_FFFF_FFFFu64 << ((i + 1) as u64)),
        bits & (1u64 << i) == 0 ==> bits & !(0xFFFF_FFFF_FFFF_FFFFu64 << i) == bits & !(
        0xFFFF_FFFF_FFFF_FFFFu64 << ((i + 1) as u64)),
{
}

/// A payload in which bit `i` is flipped is no complement of the complement
/// of the payload.
proof fn lemma_flipped_bit(x: u64, y: u64, i: u64)
    by (bit_vector)
    requires
        i < 48,
        x <= 0xFFFF_FFFF_FFFFu64,
        y == x ^ 0xFFFF_FFFF_FFFFu64,
    ensures
        x & (1u64 << i) != 0 ==> ((x & !(0xFFFF_FFFF_FFFF_FFFFu64 << i)) | (x
            & 0xFFFF_FFFF_FFFFu64 & (0xFFFF_FFFF_FFFF_FFFFu64 << ((i + 1) as u64)))) ^ (y
            & 0xFFFF_FFFF_FFFFu64) != 0xFFFF_FFFF_FFFFu64,
        x & (1u64 << i) == 0 ==> (((x & !(0xFFFF_FFFF_FFFF_FFFFu64 << i)) | (1u64 << i)) | (x
            & 0xFFFF_FFFF_FFFFu64 & (0xFFFF_FFFF_FFFF_FFFFu64 << ((i + 1) as u64)))) ^ (y
            & 0xFFFF_FFFF_FFFFu64) != 0xFFFF_FFFF_FFFFu64,
        x & (1u64 << i) != 0 ==> (y & 0xFFFF_FFFF_FFFFu64) ^ ((x & !(0xFFFF_FFFF_FFFF_FFFFu64
            << i)) | (x & 0xFFFF_FFFF_FFFFu64 & (0xFFFF_FFFF_FFFF_FFFFu64 << ((i + 1) as u64))))
            != 0xFFFF_FFFF_FFFFu64,
        x & (1u64 << i) == 0 ==> (y & 0xFFFF_FFFF_FFFFu64) ^ (((x & !(0xFFFF_FFFF_FFFF_FFFFu64
            << i)) | (1u64 << i)) | (x & 0xFFFF_FFFF_FFFFu64 & (0xFFFF_FFFF_FFFF_FFFFu64 << ((i
            + 1) as u64)))) != 0xFFFF_FFFF_FFFFu64,
        y <= 0xFFFF_FFFF_FFFFu64,
        y ^ 0xFFFF_FFFF_FFFFu64 == x,
{
}

/// A payload and its complement have no bit above the payload, and differ
/// in every bit of it.
proof fn lemma_whole_frames(x: u64, y: u64)
    by (bit_vector)
    requires
        x <= 0xFFFF_FFFF_FFFFu64,
        y == x ^ 0xFFFF_FFFF_FFFFu64,
    ensures
        x & !(0xFFFF_FFFF_FFFF_FFFFu64 << 48u64) == x,
        x & 0xFFFF_FFFF_FFFFu64 == x,
        y & !(0xFFFF_FFFF_FFFF_FFFFu64 << 48u64) == y,
        y & 0xFFFF_FFFF_FFFFu64 == y,
        x ^ y == 0xFFFF_FFFF_FFFFu64,
        x ^ (y | (1u64 << 48u64)) != 0xFFFF_FFFF_FFFFu64,
        y <= 0xFFFF_FFFF_FFFFu64,
        y ^ 0xFFFF_FFFF_FFFFu64 == x,
{
}

/// The low `i` bits of the complement confirm a payload where the payload
/// has only ones from bit `i` on.
proof fn lemma_cut_second_frame(x: u64, y: u64, i: u64)
    by (bit_vector)
    requires
        i < 48,
        x <= 0xFFFF_FFFF_FFFFu64,
        y == x ^ 0xFFFF_FFFF_FFFFu64,
    ensures
        (x ^ (y & !(0xFFFF_FFFF_FFFF_FFFFu64 << i)) == 0xFFFF_FFFF_FFFFu64) <==> (x
            & 0xFFFF_FFFF_FFFFu64 & (0xFFFF_FFFF_FFFF_FFFFu64 << i)) == (0xFFFF_FFFF_FFFFu64
            & 0xFFFF_FFFF_FFFFu64 & (0xFFFF_FFFF_FFFF_FFFFu64 << i)),
{
}

/// Reading the first `done` bits of a frame of `bits` gives their value.
proof fn lemma_scan_prefix(pairs: Seq<(PulseType, PulseType)>, base: int, bits: u64, done: int)
    requires
        0 <= base,
        0 <= done <= 48,
        base + done < pairs.len(),
        forall|k: int|
            1 <= k <= done ==> #[trigger] pairs[base + k] == bit_pair(bit_at(bits, k - 1)),
    ensures
        scan_bits(pairs, base + 1, 0, 0) == scan_bits(
            pairs,
            base + 1 + done,
            done as nat,
            low_bits(bits, done),
        ),
    decreases done,
{
    if done == 0 {
        lemma_low_bits_step(bits, 0);
    } else {
        lemma_scan_prefix(pairs, base, bits, done - 1);
        assert(pairs[base + done] == bit_pair(bit_at(bits, done - 1)));
        lemma_low_bits_step(bits, (done - 1) as u64);
    }
}

/// A message in which one symbol is changed is refused, or is still read as
/// the payload it was sent with: it is never read as another payload. It is
/// read where the change is [`harmless`], and refused in every other case.
pub proof fn lemma_single_corruption(bits: u64, k: int, pair: (PulseType, PulseType))
    requires
        bits <= PAYLOAD_MASK,
        0 <= k < 100,
        one_symbol_differs(message(bits)[k], pair),
    ensures
        harmless(bits, k, pair) ==> decode_message(message(bits).update(k, pair)) == Ok::<
            u64,
            DecodeError,
        >(bits),
        !harmless(bits, k, pair) ==> decode_message(message(bits).update(k, pair)) is Err,
{
    let other = bits ^ PAYLOAD_MASK;
    let sent = message(bits);
    let got = sent.update(k, pair);
    lemma_whole_frames(bits, other);
    assert forall|j: int| 0 <= j <= 49 implies #[trigger] sent[0 + j] == frame(bits, false)[j] by {}
    assert forall|j: int| 0 <= j <= 49 implies #[trigger] sent[50 + j] == frame(other, false)[j] by {}
    if k < 50 {
        // The change is in the first frame, and the second is whole.
        assert forall|j: int| 0 <= j <= 49 implies #[trigger] got[50 + j] == frame(other, false)[j] by {
            assert(got[50 + j] == sent[50 + j]);
        }
        lemma_decode_frame(got, 50, other, false);
        if k == 0 {
            assert(got[0] != preamble());
        } else {
            let i = k - 1;
            assert(got[0] == preamble());
            assert forall|j: int| 1 <= j <= i implies #[trigger] got[0 + j] == bit_pair(
                bit_at(bits, j - 1),
            ) by {
                assert(got[0 + j] == sent[0 + j]);
            }
            lemma_scan_prefix(got, 0, bits, i);
            let acc = low_bits(bits, i);
            assert(decode_frame(got, 0) == scan_bits(got, k, i as nat, acc));
            assert(got[k] == pair);
            if k <= 48 {
                assert(sent[0 + k] == bit_pair(bit_at(bits, i)));
                if pair.0 == PulseType::Short && (pair.1 == PulseType::Short || pair.1
                    == PulseType::Long) {
                    let next = if pair.1 == PulseType::Long {
                        with_bit(acc, i as nat)
                    } else {
                        acc
                    };
                    assert forall|j: int| i + 1 < j <= 49 implies #[trigger] got[0 + j] == frame(
                        bits,
                        false,
                    )[j] by {
                        assert(got[0 + j] == sent[0 + j]);
                    }
                    lemma_scan_rest(got, 0, bits, false, i + 1, next);
                    lemma_flipped_bit(bits, other, i as u64);
                } else if pair.0 == PulseType::Short && (pair.1 == PulseType::FiveThousand
                    || pair.1 == PulseType::Huge) {
                    assert(decode_frame(got, 0) == Ok::<(u64, int), DecodeError>((acc, k + 1)));
                    assert(got[k + 1] == sent[0 + (k + 1)]);
                    assert(got[k + 1] != preamble());
                }
            } else {
                assert(sent[0 + 49int] == end_marker(false));
                if pair.0 == PulseType::Short && (pair.1 == PulseType::Short || pair.1
                    == PulseType::Long) {
                    assert(got[50] == sent[50 + 0int]);
                    assert(got[50] == preamble());
                }
            }
        }
    } else {
        // The first frame is whole, and the change is in the second.
        assert forall|j: int| 0 <= j <= 49 implies #[trigger] got[0 + j] == frame(bits, false)[j] by {
            assert(got[0 + j] == sent[0 + j]);
        }
        lemma_decode_frame(got, 0, bits, false);
        if k == 50 {
            assert(got[50] != preamble());
        } else {
            let i = k - 51;
            assert(got[50] == sent[50 + 0int]);
            assert(got[50] == preamble());
            assert forall|j: int| 1 <= j <= i implies #[trigger] got[50 + j] == bit_pair(
                bit_at(other, j - 1),
            ) by {
                assert(got[50 + j] == sent[50 + j]);
            }
            lemma_scan_prefix(got, 50, other, i);
            let acc = low_bits(other, i);
            assert(decode_frame(got, 50) == scan_bits(got, k, i as nat, acc));
            assert(got[k] == pair);
            if k <= 98 {
                assert(sent[50 + (i + 1)] == bit_pair(bit_at(other, i)));
                lemma_flipped_bit(other, bits, i as u64);
                lemma_cut_second_frame(bits, other, i as u64);
                if pair.0 == PulseType::Short && (pair.1 == PulseType::Short || pair.1
                    == PulseType::Long) {
                    let next = if pair.1 == PulseType::Long {
                        with_bit(acc, i as nat)
                    } else {
                        acc
                    };
                    assert forall|j: int| i + 1 < j <= 49 implies #[trigger] got[50 + j] == frame(
                        other,
                        false,
                    )[j] by {
                        assert(got[50 + j] == sent[50 + j]);
                    }
                    lemma_scan_rest(got, 50, other, false, i + 1, next);
                } else if pair.0 == PulseType::Short && (pair.1 == PulseType::FiveThousand
                    || pair.1 == PulseType::Huge) {
                    assert(decode_frame(got, 50) == Ok::<(u64, int), DecodeError>((acc, k + 1)));
                }
            } else {
                assert(sent[50 + 49int] == end_marker(false));
                if pair.0 == PulseType::Short && (pair.1 == PulseType::Short || pair.1
                    == PulseType::Long) {
                    let next = if pair.1 == PulseType::Long {
                        with_bit(acc, 48)
                    } else {
                        acc
                    };
                    assert(scan_bits(got, 100, 49, next) == Ok::<(u64, int), DecodeError>(
                        (next, 100),
                    ));
                }
            }
        }
    }
}

/// The link layer of the remote control.
pub struct Phy {
    codec: Codec<PulseType>,
}

impl Phy {
    #[verifier::type_invariant]
    spec fn holds_link_rules(self) -> bool {
        self.codec.rules() == link_rules()
    }

    /// The rules by which this link layer tells its symbols apart.
    pub closed spec fn rules(&self) -> Seq<(PulseType, Rule)> {
        self.codec.rules()
    }

    /// The link layer with its five symbols, see [`link_rules`].
    pub fn new() -> (phy: Phy)
        ensures
            phy.rules() == link_rules(),
    {
        let mut rules: Vec<(PulseType, Rule)> = Vec::new();
        rules.push((PulseType::Short, Rule::new(Duration::from_micros(550))));
        rules.push((PulseType::Long, Rule::new(Duration::from_micros(1550))));
        rules.push((PulseType::FourThousand, Rule::new(Duration::from_micros(4000))));
        rules.push((PulseType::FiveThousand, Rule::new(Duration::from_micros(5150))));
        rules.push((PulseType::Huge, Rule::new(Duration::from_millis(100))));
        proof {
            assert(rules@ =~= link_rules());
            lemma_sort_rules_of_ascending(link_rules());
        }
        let codec = Codec::new(rules);
        Phy { codec }
    }

    /// Appends the frame of `bits` to `pulses`, symbol by symbol.
    pub fn append_bits(bits: u64, long_ending: bool, pulses: &mut Vec<PulseType>)
        ensures
            final(pulses)@ == old(pulses)@ + flatten(frame(bits, long_ending)),
    {
        pulses.push(PulseType::FourThousand);
        pulses.push(PulseType::FourThousand);
        let mut bit: usize = 0;
        while bit < PAYLOAD_BITS
            invariant
                bit <= PAYLOAD_BITS,
                pulses@ == old(pulses)@ + flatten(frame(bits, long_ending)).take(2 + 2 * bit),
            decreases PAYLOAD_BITS - bit,
        {
            let val = bits & (1u64 << (bit as u64)) != 0;
            pulses.push(PulseType::Short);
            if val {
                pulses.push(PulseType::Long);
            } else {
                pulses.push(PulseType::Short);
            }
            assert(pulses@ =~= old(pulses)@ + flatten(frame(bits, long_ending)).take(4 + 2 * bit));
            bit = bit + 1;
        }
        pulses.push(PulseType::Short);
        if long_ending {
            pulses.push(PulseType::Huge);
        } else {
            pulses.push(PulseType::FiveThousand);
        }
        assert(pulses@ =~= old(pulses)@ + flatten(frame(bits, long_ending)));
    }

    /// The pulse train that carries the low 48 bits of `bits`, see
    /// [`link_encoded`].
    pub fn encode(&self, bits: u64) -> (r: Result<Vec<Duration>, PhyError>)
        ensures
            r matches Ok(durations) && durations@ == link_encoded(bits),
    {
        let pulses = self.encode_pulses(bits);
        proof {
            use_type_invariant(self);
            lemma_pulse_type_eq();
            lemma_encode_symbols(pulses@, pulses@.len());
            assert(pulses@.take(pulses@.len() as int) =~= pulses@);
        }
        match self.codec.encode(pulses.as_slice()) {
            Ok(durations) => Ok(durations),
            Err(e) => Err(PhyError::PWMError(e)),
        }
    }

    /// Reads a message from a pulse train, see [`link_decoded`].
    pub fn decode(&self, pulses: &[Duration]) -> (r: Result<u64, PhyError>)
        ensures
            r == link_decoded(pulses@),
    {
        proof {
            use_type_invariant(self);
        }
        let pairs = match self.codec.decode(pulses) {
            Ok(pairs) => pairs,
            Err(e) => {
                return Err(PhyError::PWMError(e));
            },
        };
        match self.decode_pulses(pairs.as_slice()) {
            Ok(bits) => Ok(bits),
            Err(e) => Err(PhyError::DecodeError(e)),
        }
    }

    /// The symbols of the message that carries the low 48 bits of `bits`.
    pub fn encode_pulses(&self, bits: u64) -> (pulses: Vec<PulseType>)
        ensures
            pulses@ == flatten(message(bits)),
    {
        let mut pulses: Vec<PulseType> = Vec::new();
        Phy::append_bits(bits, false, &mut pulses);
        Phy::append_bits(bits ^ PAYLOAD_MASK, false, &mut pulses);
        assert(pulses@ =~= flatten(message(bits)));
        pulses
    }

    /// Reads the frame that begins with the pair at `from`: its value and
    /// the index behind it, see [`decode_frame`].
    pub fn decode_bits(pulses: &[(PulseType, PulseType)], from: usize) -> (r: Result<
        (u64, usize),
        DecodeError,
    >)
        ensures
            match r {
                Ok((bits, next)) => decode_frame(pulses@, from as int) == Ok::<
                    (u64, int),
                    DecodeError,
                >((bits, next as int)) && next <= pulses.len(),
                Err(e) => decode_frame(pulses@, from as int) == Err::<(u64, int), DecodeError>(e),
            },
    {
        if from >= pulses.len() {
            return Err(DecodeError::TruncatedMessage);
        }
        match pulses[from] {
            (PulseType::FourThousand, PulseType::FourThousand) => {},
            _ => {
                return Err(DecodeError::InvalidPreamble);
            },
        }
        let mut ret: u64 = 0;
        let mut count: usize = 0;
        let mut i: usize = from + 1;
        while i < pulses.len()
            invariant
                from < i <= pulses.len(),
                count < i,
                decode_frame(pulses@, from as int) == scan_bits(pulses@, i as int, count as nat, ret),
            decreases pulses.len() - i,
        {
            match pulses[i] {
                (PulseType::Short, PulseType::Short) => {
                    count = count + 1;
                },
                (PulseType::Short, PulseType::Long) => {
                    if count < 64 {
                        ret = ret | (1u64 << (count as u64));
                    }
                    count = count + 1;
                },
                (PulseType::Short, PulseType::FiveThousand) => {
                    return Ok((ret, i + 1));
                },
                (PulseType::Short, PulseType::Huge) => {
                    return Ok((ret, i + 1));
                },
                any => {
                    return Err(DecodeError::InvalidCombination(any));
                },
            }
            i = i + 1;
        }
        Ok((ret, i))
    }

    /// Reads a message from a train of symbol pairs, see [`decode_message`].
    pub fn decode_pulses(&self, pulses: &[(PulseType, PulseType)]) -> (r: Result<u64, DecodeError>)
        ensures
            r == decode_message(pulses@),
    {
        let (bits, next) = match Phy::decode_bits(pulses, 0) {
            Ok(frame) => frame,
            Err(e) => {
                return Err(e);
            },
        };
        let (repeated, _) = match Phy::decode_bits(pulses, next) {
            Ok(frame) => frame,
            Err(e) => {
                return Err(e);
            },
        };
        if bits ^ repeated != PAYLOAD_MASK {
            return Err(DecodeError::RepeatMismatch);
        }
        Ok(bits)
    }
}

} // verus!
