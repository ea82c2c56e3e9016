//! A pulse-width codec: it sorts measured pulse lengths into a small
//! alphabet of symbols, and gives each symbol its nominal length.
//!
//! A symbol is known by a [`Rule`]: a nominal duration and a tolerance. A
//! measured pulse is the symbol of the first rule, in ascending order of
//! nominal duration, whose window holds it.

use crate::duration::Duration;
use vstd::laws_eq::obeys_concrete_eq;
use vstd::prelude::*;

verus! {

/// The window of pulse lengths that stand for one symbol.
#[derive(Debug, Clone, Copy, PartialEq, Eq, Structural)]
pub struct Rule {
    pub duration: Duration,
    pub tolerance: Duration,
}

impl Rule {
    /// The rule for `duration` with a tolerance of a fifth of it, rounded
    /// down to whole nanoseconds.
    pub fn new(duration: Duration) -> (r: Rule)
        ensures
            r.duration == duration,
            r.tolerance.nanos == duration.nanos / 5,
    {
        Rule { duration, tolerance: Duration { nanos: duration.nanos / 5 } }
    }

    /// Whether `pulse` differs from the nominal duration by no more than the
    /// tolerance.
    pub open spec fn spec_matches(&self, pulse: Duration) -> bool {
        &&& self.duration.nanos - pulse.nanos <= self.tolerance.nanos
        &&& pulse.nanos - self.duration.nanos <= self.tolerance.nanos
    }

    /// Whether `pulse` differs from the nominal duration by no more than the
    /// tolerance.
    #[verifier::when_used_as_spec(spec_matches)]
    pub fn matches(&self, pulse: Duration) -> (b: bool)
        ensures
            b == self.spec_matches(pulse),
    {
        let diff: u128 = if self.duration.nanos >= pulse.nanos {
            self.duration.nanos - pulse.nanos
        } else {
            pulse.nanos - self.duration.nanos
        };
        diff <= self.tolerance.nanos
    }
}

/// Why a pulse train has no symbols, or a sequence of symbols no durations.
#[derive(Debug, Clone, Copy, PartialEq, Eq)]
pub enum CodecError<T> {
    /// The pulse lies in no rule's window.
    InvalidPulseLength(Duration),
    /// The symbol has no rule, so no duration is known for it.
    InvalidPulse(T),
    /// The pulse train ends with an on pulse that no off pulse follows.
    MissingOffPulse,
}

/// The index of the first rule from `from` on whose window holds `pulse`.
pub open spec fn first_match<T>(rules: Seq<(T, Rule)>, pulse: Duration, from: int) -> Option<int>
    decreases rules.len() - from,
{
    if from < 0 || from >= rules.len() {
        None
    } else if rules[from].1.spec_matches(pulse) {
        Some(from)
    } else {
        first_match(rules, pulse, from + 1)
    }
}

/// The symbol of the first rule whose window holds `pulse`.
pub open spec fn classify<T>(rules: Seq<(T, Rule)>, pulse: Duration) -> Option<T> {
    match first_match(rules, pulse, 0) {
        Some(i) => Some(rules[i].0),
        None => None,
    }
}

/// The index of the last rule before `upto` that belongs to `symbol`.
pub open spec fn last_rule_of<T>(rules: Seq<(T, Rule)>, symbol: T, upto: int) -> Option<int>
    decreases upto,
{
    if upto <= 0 || upto > rules.len() {
        None
    } else if rules[upto - 1].0 == symbol {
        Some(upto - 1)
    } else {
        last_rule_of(rules, symbol, upto - 1)
    }
}

/// The nominal duration of `symbol`: that of the last rule that belongs to it.
pub open spec fn nominal<T>(rules: Seq<(T, Rule)>, symbol: T) -> Option<Duration> {
    match last_rule_of(rules, symbol, rules.len() as int) {
        Some(i) => Some(rules[i].1.duration),
        None => None,
    }
}

/// The first `pairs` on/off pairs of `pulses` as symbols, or the error of
/// the first pulse among them that no rule matches.
pub open spec fn decode_pairs<T>(rules: Seq<(T, Rule)>, pulses: Seq<Duration>, pairs: nat) -> Result<
    Seq<(T, T)>,
    CodecError<T>,
>
    decreases pairs,
{
    if pairs == 0 {
        Ok(Seq::empty())
    } else {
        match decode_pairs(rules, pulses, (pairs - 1) as nat) {
            Err(e) => Err(e),
            Ok(front) => {
                let on = pulses[2 * pairs - 2];
                let off = pulses[2 * pairs - 1];
                match classify(rules, on) {
                    None => Err(CodecError::InvalidPulseLength(on)),
                    Some(a) => match classify(rules, off) {
                        None => Err(CodecError::InvalidPulseLength(off)),
                        Some(b) => Ok(front.push((a, b))),
                    },
                }
            },
        }
    }
}

/// The pulse train `pulses` as pairs of symbols. Where a pulse of a full
/// pair matches no rule, the first such pulse is the error; else a train of
/// odd length misses its last off pulse.
pub open spec fn decode_train<T>(rules: Seq<(T, Rule)>, pulses: Seq<Duration>) -> Result<
    Seq<(T, T)>,
    CodecError<T>,
> {
    match decode_pairs(rules, pulses, pulses.len() / 2) {
        Err(e) => Err(e),
        Ok(pairs) => if pulses.len() % 2 == 1 {
            Err(CodecError::MissingOffPulse)
        } else {
            Ok(pairs)
        },
    }
}

/// The nominal durations of the first `count` of `symbols`, or the first
/// symbol among them that has no rule.
pub open spec fn encode_symbols<T>(rules: Seq<(T, Rule)>, symbols: Seq<T>, count: nat) -> Result<
    Seq<Duration>,
    CodecError<T>,
>
    decreases count,
{
    if count == 0 {
        Ok(Seq::empty())
    } else {
        match encode_symbols(rules, symbols, (count - 1) as nat) {
            Err(e) => Err(e),
            Ok(front) => match nominal(rules, symbols[count - 1]) {
                None => Err(CodecError::InvalidPulse(symbols[count - 1])),
                Some(d) => Ok(front.push(d)),
            },
        }
    }
}

/// `sorted` with `rule` put behind the last rule that is no longer than it.
pub open spec fn insert_rule<T>(sorted: Seq<(T, Rule)>, rule: (T, Rule)) -> Seq<(T, Rule)>
    decreases sorted.len(),
{
    if sorted.len() == 0 || sorted.last().1.duration.nanos <= rule.1.duration.nanos {
        sorted.push(rule)
    } else {
        insert_rule(sorted.drop_last(), rule).push(sorted.last())
    }
}

/// `rules` in ascending order of nominal duration; rules of one duration
/// keep the order in which they were given.
pub open spec fn sort_rules<T>(rules: Seq<(T, Rule)>) -> Seq<(T, Rule)>
    decreases rules.len(),
{
    if rules.len() == 0 {
        Seq::empty()
    } else {
        insert_rule(sort_rules(rules.drop_last()), rules.last())
    }
}

/// Whether no rule stands before a shorter one.
pub open spec fn ascending<T>(rules: Seq<(T, Rule)>) -> bool {
    forall|i: int, j: int|
        0 <= i <= j < rules.len() ==> (#[trigger] rules[i]).1.duration.nanos <= (
        #[trigger] rules[j]).1.duration.nanos
}

/// Putting a rule at `pos` is what [`insert_rule`] does, where every rule
/// from `pos` on is longer than it and the one before `pos` is not.
proof fn lemma_insert_at<T>(sorted: Seq<(T, Rule)>, rule: (T, Rule), pos: int)
    requires
        0 <= pos <= sorted.len(),
        pos > 0 ==> sorted[pos - 1].1.duration.nanos <= rule.1.duration.nanos,
        forall|k: int|
            pos <= k < sorted.len() ==> (#[trigger] sorted[k]).1.duration.nanos
                > rule.1.duration.nanos,
    ensures
        insert_rule(sorted, rule) == sorted.insert(pos, rule),
    decreases sorted.len() - pos,
{
    if pos == sorted.len() {
        assert(sorted.push(rule) =~= sorted.insert(pos, rule));
    } else {
        let front = sorted.drop_last();
        assert(sorted.last() == sorted[sorted.len() - 1]);
        lemma_insert_at(front, rule, pos);
        assert(front.insert(pos, rule).push(sorted.last()) =~= sorted.insert(pos, rule));
    }
}

/// [`insert_rule`] keeps an ascending sequence ascending.
pub proof fn lemma_insert_rule_ascending<T>(sorted: Seq<(T, Rule)>, rule: (T, Rule))
    requires
        ascending(sorted),
    ensures
        ascending(insert_rule(sorted, rule)),
        insert_rule(sorted, rule).to_multiset() == sorted.to_multiset().insert(rule),
        insert_rule(sorted, rule).len() == sorted.len() + 1,
    decreases sorted.len(),
{
    broadcast use vstd::seq_lib::group_to_multiset_ensures;

    if sorted.len() == 0 || sorted.last().1.duration.nanos <= rule.1.duration.nanos {
        let out = sorted.push(rule);
        assert forall|i: int, j: int| 0 <= i <= j < out.len() implies (#[trigger] out[i]).1.duration.nanos
            <= (#[trigger] out[j]).1.duration.nanos by {
            if j == sorted.len() && i < j {
                assert(sorted[i].1.duration.nanos <= sorted[sorted.len() - 1].1.duration.nanos);
            }
        }
    } else {
        let front = sorted.drop_last();
        let last = sorted.last();
        assert forall|i: int, j: int| 0 <= i <= j < front.len() implies (#[trigger] front[i]).1.duration.nanos
            <= (#[trigger] front[j]).1.duration.nanos by {
            assert(front[i] == sorted[i] && front[j] == sorted[j]);
        }
        lemma_insert_rule_ascending(front, rule);
        let mid = insert_rule(front, rule);
        let out = mid.push(last);
        assert(sorted =~= front.push(last));
        assert forall|i: int| 0 <= i < mid.len() implies (#[trigger] mid[i]).1.duration.nanos
            <= last.1.duration.nanos by {
            assert(mid.to_multiset().count(mid[i]) > 0);
            if mid[i] != rule {
                assert(front.to_multiset().count(mid[i]) > 0);
                let k = choose|k: int| 0 <= k < front.len() && front[k] == mid[i];
                assert(sorted[k] == front[k]);
                assert(sorted[k].1.duration.nanos <= sorted[sorted.len() - 1].1.duration.nanos);
            }
        }
        assert forall|i: int, j: int| 0 <= i <= j < out.len() implies (#[trigger] out[i]).1.duration.nanos
            <= (#[trigger] out[j]).1.duration.nanos by {
            if j < mid.len() {
                assert(out[i] == mid[i] && out[j] == mid[j]);
            } else if i < mid.len() {
                assert(out[i] == mid[i]);
            }
        }
        assert(out.to_multiset() =~= sorted.to_multiset().insert(rule));
    }
}

/// [`sort_rules`] gives the same rules, each as often as it was given, in
/// ascending order of nominal duration.
pub proof fn lemma_sort_rules<T>(rules: Seq<(T, Rule)>)
    ensures
        ascending(sort_rules(rules)),
        sort_rules(rules).to_multiset() == rules.to_multiset(),
        sort_rules(rules).len() == rules.len(),
    decreases rules.len(),
{
    broadcast use vstd::seq_lib::group_to_multiset_ensures;

    if rules.len() == 0 {
        assert(sort_rules(rules).to_multiset() =~= rules.to_multiset());
    } else {
        lemma_sort_rules(rules.drop_last());
        lemma_insert_rule_ascending(sort_rules(rules.drop_last()), rules.last());
        assert(rules =~= rules.drop_last().push(rules.last()));
    }
}

/// Rules that are given in ascending order stay as they are.
pub proof fn lemma_sort_rules_of_ascending<T>(rules: Seq<(T, Rule)>)
    requires
        ascending(rules),
    ensures
        sort_rules(rules) == rules,
    decreases rules.len(),
{
    if rules.len() > 0 {
        let front = rules.drop_last();
        assert forall|i: int, j: int| 0 <= i <= j < front.len() implies (#[trigger] front[i]).1.duration.nanos
            <= (#[trigger] front[j]).1.duration.nanos by {
            assert(front[i] == rules[i] && front[j] == rules[j]);
        }
        lemma_sort_rules_of_ascending(front);
        if front.len() > 0 {
            assert(front.last() == rules[rules.len() - 2]);
            assert(rules[rules.len() - 2].1.duration.nanos <= rules[rules.len() - 1].1.duration.nanos);
        }
        assert(front.push(rules.last()) =~= rules);
    }
}

/// Where windows overlap, the shorter rule wins: no rule whose window holds
/// `pulse` is shorter than the one that [`first_match`] finds.
pub proof fn lemma_first_match_is_shortest<T>(rules: Seq<(T, Rule)>, pulse: Duration, other: int)
    requires
        ascending(rules),
        0 <= other < rules.len(),
        rules[other].1.spec_matches(pulse),
    ensures
        first_match(rules, pulse, 0) matches Some(i) && 0 <= i <= other
            && rules[i].1.spec_matches(pulse) && rules[i].1.duration.nanos
            <= rules[other].1.duration.nanos,
{
    lemma_first_match_from(rules, pulse, 0, other);
}

/// [`first_match`] from `from` on finds the first rule whose window holds
/// `pulse`, where there is one at `other`.
proof fn lemma_first_match_from<T>(rules: Seq<(T, Rule)>, pulse: Duration, from: int, other: int)
    requires
        0 <= from <= other < rules.len(),
        rules[other].1.spec_matches(pulse),
    ensures
        first_match(rules, pulse, from) matches Some(i) && from <= i <= other
            && rules[i].1.spec_matches(pulse),
    decreases other - from,
{
    if !rules[from].1.spec_matches(pulse) {
        lemma_first_match_from(rules, pulse, from + 1, other);
    }
}

/// A pulse-width codec over the symbols `T`.
pub struct Codec<T> {
    sorted_rules: Vec<(T, Rule)>,
}

impl<T: Copy + PartialEq> Codec<T> {
    /// The rules of this codec, in the order in which they are tried.
    pub closed spec fn rules(&self) -> Seq<(T, Rule)> {
        self.sorted_rules@
    }

    /// Whether the rules stand in ascending order of nominal duration.
    pub open spec fn well_formed(&self) -> bool {
        ascending(self.rules())
    }

    /// A codec with the given rules, see [`sort_rules`].
    pub fn new(rules: Vec<(T, Rule)>) -> (codec: Codec<T>)
        ensures
            codec.rules() == sort_rules(rules@),
            codec.well_formed(),
    {
        let mut sorted: Vec<(T, Rule)> = Vec::new();
        let n = rules.len();
        let mut i: usize = 0;
        while i < n
            invariant
                n == rules.len(),
                i <= n,
                sorted@ == sort_rules(rules@.take(i as int)),
            decreases n - i,
        {
            let rule = rules[i];
            let mut pos: usize = sorted.len();
            while pos > 0 && sorted[pos - 1].1.duration.nanos > rule.1.duration.nanos
                invariant
                    pos <= sorted.len(),
                    forall|k: int|
                        pos <= k < sorted.len() ==> (#[trigger] sorted[k]).1.duration.nanos
                            > rule.1.duration.nanos,
                decreases pos,
            {
                pos = pos - 1;
            }
            proof {
                lemma_insert_at(sorted@, rule, pos as int);
                assert(rules@.take(i + 1).drop_last() =~= rules@.take(i as int));
            }
            sorted.insert(pos, rule);
            i = i + 1;
        }
        proof {
            assert(rules@.take(n as int) =~= rules@);
            lemma_sort_rules(rules@);
        }
        Codec { sorted_rules: sorted }
    }

    /// The symbol of `pulse`: that of the first rule, in ascending order of
    /// nominal duration, whose window holds it.
    pub fn decode_pulse(&self, pulse: Duration) -> (r: Result<T, CodecError<T>>)
        ensures
            r == match classify(self.rules(), pulse) {
                Some(symbol) => Ok::<T, CodecError<T>>(symbol),
                None => Err(CodecError::InvalidPulseLength(pulse)),
            },
    {
        let n = self.sorted_rules.len();
        let mut i: usize = 0;
        while i < n
            invariant
                n == self.sorted_rules.len(),
                i <= n,
                first_match(self.rules(), pulse, 0) == first_match(self.rules(), pulse, i as int),
            decreases n - i,
        {
            if self.sorted_rules[i].1.matches(pulse) {
                return Ok(self.sorted_rules[i].0);
            }
            i = i + 1;
        }
        Err(CodecError::InvalidPulseLength(pulse))
    }

    /// The pulse train `pulses` as pairs of symbols, see [`decode_train`].
    pub fn decode(&self, pulses: &[Duration]) -> (r: Result<Vec<(T, T)>, CodecError<T>>)
        ensures
            match r {
                Ok(pairs) => decode_train(self.rules(), pulses@) == Ok::<
                    Seq<(T, T)>,
                    CodecError<T>,
                >(pairs@),
                Err(e) => decode_train(self.rules(), pulses@) == Err::<Seq<(T, T)>, CodecError<T>>(
                    e,
                ),
            },
    {
        let mut ret: Vec<(T, T)> = Vec::new();
        let pairs = pulses.len() / 2;
        let mut k: usize = 0;
        while k < pairs
            invariant
                pairs == pulses.len() / 2,
                k <= pairs,
                decode_pairs(self.rules(), pulses@, k as nat) == Ok::<Seq<(T, T)>, CodecError<T>>(
                    ret@,
                ),
            decreases pairs - k,
        {
            let on = match self.decode_pulse(pulses[2 * k]) {
                Ok(symbol) => symbol,
                Err(e) => {
                    proof {
                        lemma_decode_pairs_error(self.rules(), pulses@, (k + 1) as nat, pairs as nat);
                    }
                    return Err(e);
                },
            };
            let off = match self.decode_pulse(pulses[2 * k + 1]) {
                Ok(symbol) => symbol,
                Err(e) => {
                    proof {
                        lemma_decode_pairs_error(self.rules(), pulses@, (k + 1) as nat, pairs as nat);
                    }
                    return Err(e);
                },
            };
            ret.push((on, off));
            k = k + 1;
        }
        if pulses.len() % 2 == 1 {
            return Err(CodecError::MissingOffPulse);
        }
        Ok(ret)
    }

    /// The nominal duration of `pulse`, if a rule belongs to it. Where
    /// several do, the last of them in ascending order gives it.
    pub fn encode_pulse(&self, pulse: T) -> (r: Option<Duration>)
        requires
            obeys_concrete_eq::<T>(),
        ensures
            r == nominal(self.rules(), pulse),
    {
        proof {
            reveal(obeys_concrete_eq);
        }
        let mut i: usize = self.sorted_rules.len();
        while i > 0
            invariant
                i <= self.sorted_rules.len(),
                obeys_concrete_eq::<T>(),
                last_rule_of(self.rules(), pulse, self.rules().len() as int) == last_rule_of(
                    self.rules(),
                    pulse,
                    i as int,
                ),
            decreases i,
        {
            proof {
                reveal(obeys_concrete_eq);
            }
            i = i - 1;
            if self.sorted_rules[i].0 == pulse {
                return Some(self.sorted_rules[i].1.duration);
            }
        }
        None
    }

    /// The nominal durations of `pulses`, or the first of them that has no
    /// rule.
    pub fn encode(&self, pulses: &[T]) -> (r: Result<Vec<Duration>, CodecError<T>>)
        requires
            obeys_concrete_eq::<T>(),
        ensures
            match r {
                Ok(durations) => encode_symbols(self.rules(), pulses@, pulses@.len()) == Ok::<
                    Seq<Duration>,
                    CodecError<T>,
                >(durations@),
                Err(e) => encode_symbols(self.rules(), pulses@, pulses@.len()) == Err::<
                    Seq<Duration>,
                    CodecError<T>,
                >(e),
            },
    {
        let mut ret: Vec<Duration> = Vec::new();
        let n = pulses.len();
        let mut i: usize = 0;
        while i < n
            invariant
                n == pulses.len(),
                i <= n,
                obeys_concrete_eq::<T>(),
                encode_symbols(self.rules(), pulses@, i as nat) == Ok::<Seq<Duration>, CodecError<T>>(
                    ret@,
                ),
            decreases n - i,
        {
            match self.encode_pulse(pulses[i]) {
                Some(d) => ret.push(d),
                None => {
                    proof {
                        lemma_encode_symbols_error(self.rules(), pulses@, (i + 1) as nat, n as nat);
                    }
                    return Err(CodecError::InvalidPulse(pulses[i]));
                },
            }
            i = i + 1;
        }
        Ok(ret)
    }
}

/// An error among the first pairs stays the error of every longer prefix.
proof fn lemma_decode_pairs_error<T>(rules: Seq<(T, Rule)>, pulses: Seq<Duration>, at: nat, pairs: nat)
    requires
        at <= pairs,
        decode_pairs(rules, pulses, at) is Err,
    ensures
        decode_pairs(rules, pulses, pairs) == decode_pairs(rules, pulses, at),
    decreases pairs - at,
{
    if at < pairs {
        lemma_decode_pairs_error(rules, pulses, at, (pairs - 1) as nat);
    }
}

/// An error among the first symbols stays the error of every longer prefix.
proof fn lemma_encode_symbols_error<T>(rules: Seq<(T, Rule)>, symbols: Seq<T>, at: nat, count: nat)
    requires
        at <= count,
        encode_symbols(rules, symbols, at) is Err,
    ensures
        encode_symbols(rules, symbols, count) == encode_symbols(rules, symbols, at),
    decreases count - at,
{
    if at < count {
        lemma_encode_symbols_error(rules, symbols, at, (count - 1) as nat);
    }
}

} // verus!
