//! Time-to-completion estimates: their classification, their text, the lenient
//! reading of that text back into minutes, and the median over a history.

use vstd::prelude::*;
use crate::text::{
    chars_of, char_is_space, clamp_u64, decimal, is_space, parse_u64_saturating, push_decimal,
    range_equals, unsigned_value,
};
use crate::types::TimeStep;
use vstd::relations::{sorted_by, total_ordering};
use vstd::seq_lib::lemma_sorted_unique;
use vstd::slice::slice_to_vec;

verus! {

/// Minutes between two polling cycles: the interval over which a step delta is measured.
pub const SAMPLING_INTERVAL_MINUTES: u64 = 6;

/// What can be said of an instance's time to completion after a cycle.
#[derive(Debug, Clone, Copy, PartialEq, Eq, Structural)]
pub enum EtaEstimate {
    /// First observation of the instance: no rate yet.
    Calculating,
    /// No progress over the last interval.
    Stalled,
    /// No steps remain.
    Complete,
    /// `numerator / denominator` minutes remain.
    Remaining { numerator: u128, denominator: u64 },
}

/// Whole days of `num / den` minutes.
pub open spec fn days_of(num: nat, den: nat) -> nat {
    num / (den * 1440)
}

/// Whole hours of `num / den` minutes past the whole days.
pub open spec fn hours_of(num: nat, den: nat) -> nat {
    (num / (den * 60)) % 24
}

/// Minutes of `num / den` minutes past the whole hours, rounded half up.
pub open spec fn minutes_of(num: nat, den: nat) -> nat {
    (2 * (num % (den * 60)) + den) / (2 * den)
}

/// The text of a duration of `num / den` minutes: `{d}d {h}h {m}m`, where the days
/// part is left out when it is zero, and so is the hours part.
pub open spec fn duration_text(num: nat, den: nat) -> Seq<char> {
    let d = days_of(num, den);
    let h = hours_of(num, den);
    (if d > 0 {
        decimal(d) + "d "@
    } else {
        Seq::empty()
    }) + (if h > 0 {
        decimal(h) + "h "@
    } else {
        Seq::empty()
    }) + decimal(minutes_of(num, den)) + "m"@
}

/// Renders a duration of `numerator / denominator` minutes.
pub fn format_duration(numerator: u128, denominator: u64) -> (r: String)
    requires
        denominator > 0,
    ensures
        r@ == duration_text(numerator as nat, denominator as nat),
{
    let den = denominator as u128;
    let days = numerator / (den * 1440);
    let hours = (numerator / (den * 60)) % 24;
    let rem = numerator % (den * 60);
    let minutes = (2 * rem + den) / (2 * den);
    let mut r = String::new();
    if days > 0 {
        push_decimal(&mut r, days);
        r.append("d ");
    }
    if hours > 0 {
        push_decimal(&mut r, hours);
        r.append("h ");
    }
    push_decimal(&mut r, minutes);
    r.append("m");
    assert(r@ =~= duration_text(numerator as nat, denominator as nat));
    r
}

/// The estimate for a sample whose step delta was measured over `interval` minutes.
pub open spec fn estimate_of(ts: TimeStep, interval: u64) -> EtaEstimate {
    match ts.step_increase {
        None => EtaEstimate::Calculating,
        Some(delta) => if delta == 0 {
            EtaEstimate::Stalled
        } else if ts.total_step <= ts.step {
            EtaEstimate::Complete
        } else {
            EtaEstimate::Remaining {
                numerator: ((ts.total_step - ts.step) * interval) as u128,
                denominator: delta,
            }
        },
    }
}

/// The text of an estimate, where it has one: the first observation has none.
pub open spec fn estimate_text(e: EtaEstimate) -> Option<Seq<char>> {
    match e {
        EtaEstimate::Calculating => None,
        EtaEstimate::Stalled => Some("Stalled"@),
        EtaEstimate::Complete => Some("Complete"@),
        EtaEstimate::Remaining { numerator, denominator } => Some(
            duration_text(numerator as nat, denominator as nat),
        ),
    }
}

impl EtaEstimate {
    /// A remaining duration has a non-zero denominator.
    pub open spec fn wf(self) -> bool {
        match self {
            EtaEstimate::Remaining { denominator, .. } => denominator > 0,
            _ => true,
        }
    }

    /// The text shown for this estimate.
    pub fn label(&self) -> (r: String)
        requires
            self.wf(),
        ensures
            r@ == match *self {
                EtaEstimate::Calculating => "Calculating..."@,
                _ => estimate_text(*self)->0,
            },
    {
        match self {
            EtaEstimate::Calculating => String::from_str("Calculating..."),
            EtaEstimate::Stalled => String::from_str("Stalled"),
            EtaEstimate::Complete => String::from_str("Complete"),
            EtaEstimate::Remaining { numerator, denominator } => format_duration(
                *numerator,
                *denominator,
            ),
        }
    }
}

impl TimeStep {
    /// Classifies this sample, its step delta having been measured over
    /// `interval_minutes`: first observation, no progress, no steps left, or the
    /// remaining steps at the measured rate.
    pub fn estimate(&self, interval_minutes: u64) -> (r: EtaEstimate)
        ensures
            r == estimate_of(*self, interval_minutes),
            r.wf(),
            self.step_increase is None ==> r == EtaEstimate::Calculating,
            self.step_increase == Some(0u64) ==> r == EtaEstimate::Stalled,
            (self.step_increase matches Some(d) && d > 0) && self.total_step <= self.step ==> r
                == EtaEstimate::Complete,
    {
        match self.step_increase {
            None => EtaEstimate::Calculating,
            Some(delta) => {
                if delta == 0 {
                    EtaEstimate::Stalled
                } else if self.total_step <= self.step {
                    EtaEstimate::Complete
                } else {
                    let remaining = self.total_step - self.step;
                    assert(remaining as int * interval_minutes as int <= u64::MAX as int
                        * u64::MAX as int) by (nonlinear_arith)
                        requires
                            remaining <= u64::MAX,
                            interval_minutes <= u64::MAX,
                    ;
                    EtaEstimate::Remaining {
                        numerator: remaining as u128 * interval_minutes as u128,
                        denominator: delta,
                    }
                }
            },
        }
    }

    /// The text of this sample's estimate over the standard sampling interval;
    /// `None` for a first observation.
    pub fn calculate_eta(&self) -> (r: Option<String>)
        ensures
            match r {
                Some(s) => estimate_text(estimate_of(*self, SAMPLING_INTERVAL_MINUTES)) == Some(
                    s@,
                ),
                None => estimate_text(estimate_of(*self, SAMPLING_INTERVAL_MINUTES)) is None,
            },
    {
        let e = self.estimate(SAMPLING_INTERVAL_MINUTES);
        match e {
            EtaEstimate::Calculating => None,
            _ => Some(e.label()),
        }
    }
}


/// The white-space separated words of `s`, the word under way being `cur`.
pub open spec fn words_from(s: Seq<char>, cur: Seq<char>) -> Seq<Seq<char>>
    decreases s.len(),
{
    let done = if cur.len() > 0 {
        seq![cur]
    } else {
        Seq::empty()
    };
    if s.len() == 0 {
        done
    } else if is_space(s[0]) {
        done + words_from(s.drop_first(), Seq::empty())
    } else {
        words_from(s.drop_first(), cur.push(s[0]))
    }
}

/// The white-space separated words of `s`, as `str::split_whitespace` gives them.
pub open spec fn words(s: Seq<char>) -> Seq<Seq<char>> {
    words_from(s, Seq::empty())
}

/// Minutes in one unit named by a word's last character: `d`, `h` or `m`; zero for
/// any other character.
pub open spec fn unit_minutes(c: char) -> nat {
    if c == 'd' {
        1440
    } else if c == 'h' {
        60
    } else if c == 'm' {
        1
    } else {
        0
    }
}

/// The minutes a word of a duration text stands for: a number followed by its unit.
/// A word that is not one stands for nothing.
pub open spec fn word_minutes(w: Seq<char>) -> nat {
    if w.len() == 0 {
        0
    } else {
        match unsigned_value(w.drop_last()) {
            Some(v) => v * unit_minutes(w.last()),
            None => 0,
        }
    }
}

pub open spec fn words_minutes(ws: Seq<Seq<char>>) -> nat
    decreases ws.len(),
{
    if ws.len() == 0 {
        0
    } else {
        word_minutes(ws[0]) + words_minutes(ws.drop_first())
    }
}

/// The texts that stand for a state rather than a duration.
pub open spec fn is_sentinel(s: Seq<char>) -> bool {
    s == "Complete"@ || s == "Stalled"@ || s == "Calculating..."@
}

/// The minutes that a duration text stands for: `None` for a sentinel, else the sum
/// of its words' minutes (zero where none counts); a sum past `u64::MAX` reads as
/// `u64::MAX`.
pub open spec fn eta_minutes(s: Seq<char>) -> Option<u64> {
    if is_sentinel(s) {
        None
    } else {
        Some(clamp_u64(words_minutes(words(s)) as int))
    }
}

fn word_value(s: &Vec<char>, from: usize, to: usize) -> (r: u64)
    requires
        from < to <= s@.len(),
    ensures
        r == clamp_u64(word_minutes(s@.subrange(from as int, to as int)) as int),
{
    let ghost w = s@.subrange(from as int, to as int);
    assert(w.drop_last() =~= s@.subrange(from as int, to - 1));
    assert(w.last() == s@[to - 1]);
    let c = s[to - 1];
    let unit: u64 = if c == 'd' {
        1440
    } else if c == 'h' {
        60
    } else if c == 'm' {
        1
    } else {
        0
    };
    let parsed = parse_u64_saturating(s, from, to - 1);
    assert(unit == unit_minutes(w.last()));
    match parsed {
        Some(v) => {
            let ghost x = unsigned_value(w.drop_last())->0;
            assert(word_minutes(w) == x * unit);
            assert(v == clamp_u64(x as int));
            if unit == 0 {
                0
            } else if v > u64::MAX / unit {
                proof {
                    assert(v * unit > u64::MAX) by (nonlinear_arith)
                        requires
                            v > u64::MAX / unit,
                            unit > 0,
                    ;
                    assert(x * unit >= v * unit) by (nonlinear_arith)
                        requires
                            x >= v,
                            unit > 0,
                    ;
                }
                u64::MAX
            } else {
                proof {
                    assert(v * unit <= u64::MAX) by (nonlinear_arith)
                        requires
                            v <= u64::MAX / unit,
                            unit > 0,
                    ;
                    if x > u64::MAX {
                        assert(v == u64::MAX);
                        assert(unit == 1) by (nonlinear_arith)
                            requires
                                v * unit <= u64::MAX,
                                v == u64::MAX,
                                unit > 0,
                        ;
                    } else {
                        assert(x == v);
                    }
                }
                v * unit
            }
        },
        None => {
            assert(word_minutes(w) == 0);
            0
        },
    }
}

/// Reads a duration text back into whole minutes: the sentinels `Complete`,
/// `Stalled` and `Calculating...` give `None`; otherwise each white-space separated
/// word made of a number and a unit suffix (`d`, `h` or `m`) adds its minutes, and
/// any other word is skipped.
pub fn parse_eta_to_minutes(eta_str: &str) -> (r: Option<u64>)
    ensures
        r == eta_minutes(eta_str@),
{
    let cs = chars_of(eta_str);
    let n = cs.len();
    if range_equals(&cs, 0, n, "Complete") || range_equals(&cs, 0, n, "Stalled")
        || range_equals(&cs, 0, n, "Calculating...") {
        assert(cs@.subrange(0, n as int) =~= eta_str@);
        return None;
    }
    assert(cs@.subrange(0, n as int) =~= eta_str@);
    let ghost s = eta_str@;
    let mut total: u64 = 0;
    let ghost mut acc: nat = 0;
    let mut start: usize = 0;
    let mut i: usize = 0;
    assert(s.skip(0) =~= s);
    assert(s.subrange(0, 0) =~= Seq::<char>::empty());
    while i < n
        invariant
            s == cs@,
            n == s.len(),
            start <= i <= n,
            words_minutes(words(s)) == acc + words_minutes(
                words_from(s.skip(i as int), s.subrange(start as int, i as int)),
            ),
            total == clamp_u64(acc as int),
        decreases n - i,
    {
        let ghost cur = s.subrange(start as int, i as int);
        let ghost rest = s.skip(i as int);
        assert(rest.drop_first() =~= s.skip(i + 1));
        if char_is_space(cs[i]) {
            if start < i {
                let v = word_value(&cs, start, i);
                let ghost wm = word_minutes(cur);
                assert((seq![cur] + words_from(rest.drop_first(), Seq::empty()))[0] == cur);
                assert((seq![cur] + words_from(rest.drop_first(), Seq::empty())).drop_first()
                    =~= words_from(rest.drop_first(), Seq::empty()));
                total = if total > u64::MAX - v {
                    u64::MAX
                } else {
                    total + v
                };
                proof {
                    acc = acc + wm;
                }
            } else {
                assert(Seq::<Seq<char>>::empty() + words_from(rest.drop_first(), Seq::empty())
                    =~= words_from(rest.drop_first(), Seq::empty()));
            }
            start = i + 1;
            assert(s.subrange(start as int, i + 1) =~= Seq::<char>::empty());
        } else {
            assert(cur.push(s[i as int]) =~= s.subrange(start as int, i + 1));
        }
        i = i + 1;
    }
    let ghost cur = s.subrange(start as int, n as int);
    assert(s.skip(n as int) =~= Seq::<char>::empty());
    if start < n {
        let v = word_value(&cs, start, n);
        assert(seq![cur][0] == cur);
        assert(seq![cur].drop_first() =~= Seq::<Seq<char>>::empty());
        total = if total > u64::MAX - v {
            u64::MAX
        } else {
            total + v
        };
        proof {
            assert(words_minutes(seq![cur]) == word_minutes(cur) + words_minutes(
                Seq::<Seq<char>>::empty(),
            ));
            acc = acc + word_minutes(cur);
        }
    } else {
        assert(words_from(s.skip(n as int), cur) == Seq::<Seq<char>>::empty());
    }
    assert(words_minutes(words(s)) == acc);
    assert(!is_sentinel(s));
    Some(total)
}


/// The order of a history: ascending minutes.
pub open spec fn ascending() -> spec_fn(u64, u64) -> bool {
    |a: u64, b: u64| a <= b
}

/// The minutes of `t`'s median as a fraction `(numerator, denominator)`: the middle
/// value of an odd count, the mean of the two middle values of an even one.
pub open spec fn middle_fraction(t: Seq<u64>) -> (nat, nat) {
    let m = (t.len() / 2) as int;
    if t.len() % 2 == 0 {
        ((t[m - 1] + t[m]) as nat, 2)
    } else {
        (t[m] as nat, 1)
    }
}

/// The median of a history, as a duration text: `None` where it is empty.
pub open spec fn median_text(s: Seq<u64>) -> Option<Seq<char>> {
    if s.len() == 0 {
        None
    } else {
        let f = middle_fraction(s.sort_by(ascending()));
        Some(duration_text(f.0, f.1))
    }
}

/// Relies on `slice::sort_unstable`: it rearranges the elements into ascending order.
#[verifier::external_body]
fn sort_ascending(v: &mut Vec<u64>)
    ensures
        final(v)@.to_multiset() == old(v)@.to_multiset(),
        sorted_by(final(v)@, ascending()),
{
    v.sort_unstable();
}

proof fn lemma_ascending_total()
    ensures
        total_ordering(ascending()),
{
    let f = ascending();
    assert(vstd::relations::reflexive(f));
    assert(vstd::relations::antisymmetric(f));
    assert(vstd::relations::transitive(f));
    assert(vstd::relations::strongly_connected(f));
}

/// The median of a history of estimates in minutes, as a duration text; `None` for
/// an empty history.
pub fn calculate_median_eta(etas: &[u64]) -> (r: Option<String>)
    ensures
        match r {
            Some(x) => median_text(etas@) == Some(x@),
            None => median_text(etas@) is None,
        },
{
    if etas.len() == 0 {
        return None;
    }
    let mut v = slice_to_vec(etas);
    sort_ascending(&mut v);
    proof {
        lemma_ascending_total();
        etas@.lemma_sort_by_ensures(ascending());
        lemma_sorted_unique(v@, etas@.sort_by(ascending()), ascending());
        vstd::seq_lib::to_multiset_len(v@);
        vstd::seq_lib::to_multiset_len(etas@);
    }
    let n = v.len();
    let m = n / 2;
    if n % 2 == 0 {
        Some(format_duration(v[m - 1] as u128 + v[m] as u128, 2))
    } else {
        Some(format_duration(v[m] as u128, 1))
    }
}


/// White-space free text.
pub open spec fn no_space(w: Seq<char>) -> bool {
    forall|i: int| 0 <= i < w.len() ==> !is_space(#[trigger] w[i])
}

proof fn lemma_words_word(w: Seq<char>, rest: Seq<char>, cur: Seq<char>)
    requires
        no_space(w),
    ensures
        words_from(w + rest, cur) == words_from(rest, cur + w),
    decreases w.len(),
{
    if w.len() == 0 {
        assert(w + rest =~= rest);
        assert(cur + w =~= cur);
    } else {
        assert((w + rest).drop_first() =~= w.drop_first() + rest);
        assert((w + rest)[0] == w[0]);
        lemma_words_word(w.drop_first(), rest, cur.push(w[0]));
        assert(cur.push(w[0]) + w.drop_first() =~= cur + w);
    }
}

/// The words of a nonempty word, a space, and more text.
proof fn lemma_words_split(w: Seq<char>, rest: Seq<char>)
    requires
        no_space(w),
        w.len() > 0,
    ensures
        words(w + seq![' '] + rest) == seq![w] + words(rest),
        words(w) == seq![w],
{
    assert(w + seq![' '] + rest =~= w + (seq![' '] + rest));
    lemma_words_word(w, seq![' '] + rest, Seq::empty());
    assert(Seq::<char>::empty() + w =~= w);
    assert((seq![' '] + rest).drop_first() =~= rest);
    assert((seq![' '] + rest)[0] == ' ');
    lemma_words_word(w, Seq::empty(), Seq::empty());
    assert(w + Seq::<char>::empty() =~= w);
}

proof fn lemma_unit_word(n: nat, unit: char)
    requires
        unit == 'd' || unit == 'h' || unit == 'm',
    ensures
        no_space(decimal(n).push(unit)),
        decimal(n).push(unit).len() > 0,
        word_minutes(decimal(n).push(unit)) == n * unit_minutes(unit),
{
    crate::text::lemma_decimal(n);
    let w = decimal(n).push(unit);
    assert(w.drop_last() =~= decimal(n));
    assert(crate::text::is_digit(decimal(n)[0]));
    assert(crate::text::unsigned_digits(decimal(n)) == decimal(n));
    assert forall|i: int| 0 <= i < w.len() implies !is_space(#[trigger] w[i]) by {
        if i < w.len() - 1 {
            assert(crate::text::is_digit(decimal(n)[i]));
        }
    }
}

/// What a duration text reads back as: for `num / den` minutes within the range of
/// `u64`, the text reads back as a whole number of minutes within half a minute of
/// `num / den`.
pub proof fn lemma_duration_round_trip(num: nat, den: nat)
    requires
        den > 0,
        num < den * u64::MAX,
    ensures
        match eta_minutes(duration_text(num, den)) {
            Some(p) => 2 * p * den <= 2 * num + den && 2 * num <= 2 * p * den + den,
            None => false,
        },
{
    reveal_strlit("d ");
    reveal_strlit("h ");
    reveal_strlit("m");
    reveal_strlit("Complete");
    reveal_strlit("Stalled");
    reveal_strlit("Calculating...");
    let d = days_of(num, den);
    let h = hours_of(num, den);
    let m = minutes_of(num, den);
    let dw = decimal(d).push('d');
    let hw = decimal(h).push('h');
    let mw = decimal(m).push('m');
    lemma_unit_word(d, 'd');
    lemma_unit_word(h, 'h');
    lemma_unit_word(m, 'm');
    let text = duration_text(num, den);
    assert(decimal(d) + "d "@ =~= dw + seq![' ']);
    assert(decimal(h) + "h "@ =~= hw + seq![' ']);
    assert(decimal(m) + "m"@ =~= mw);
    let tail = (if h > 0 {
        hw + seq![' ']
    } else {
        Seq::empty()
    }) + mw;
    lemma_words_split(mw, Seq::empty());
    let tail_words = if h > 0 {
        assert(tail =~= hw + seq![' '] + mw);
        lemma_words_split(hw, mw);
        seq![hw] + seq![mw]
    } else {
        assert(tail =~= mw);
        seq![mw]
    };
    assert(words(tail) == tail_words);
    let all_words = if d > 0 {
        assert(text =~= dw + seq![' '] + tail);
        lemma_words_split(dw, tail);
        seq![dw] + tail_words
    } else {
        assert(text =~= tail);
        tail_words
    };
    assert(words(text) == all_words);
    let p = d * 1440 + h * 60 + m;
    assert(words_minutes(seq![mw]) == m) by {
        assert(seq![mw].drop_first() =~= Seq::<Seq<char>>::empty());
        assert(seq![mw][0] == mw);
        assert(words_minutes(Seq::<Seq<char>>::empty()) == 0);
        assert(unit_minutes('m') == 1);
        assert(word_minutes(mw) == m * unit_minutes('m'));
        assert(word_minutes(mw) == m);
        assert(words_minutes(seq![mw]) == word_minutes(seq![mw][0]) + words_minutes(
            seq![mw].drop_first(),
        ));
    }
    if h > 0 {
        assert((seq![hw] + seq![mw]).drop_first() =~= seq![mw]);
        assert((seq![hw] + seq![mw])[0] == hw);
    }
    assert(words_minutes(tail_words) == h * 60 + m);
    if d > 0 {
        assert((seq![dw] + tail_words).drop_first() =~= tail_words);
        assert((seq![dw] + tail_words)[0] == dw);
    }
    assert(words_minutes(words(text)) == p);
    assert(text.last() == 'm');
    assert(!is_sentinel(text)) by {
        assert("Complete"@.last() == 'e');
        assert("Stalled"@.last() == 'd');
        assert("Calculating..."@.last() == '.');
    }
    // p is the minutes of the whole hours plus the rounded minutes past them
    let q = num / (den * 60);
    let r = num % (den * 60);
    assert(den * 60 > 0 && den * 1440 == (den * 60) * 24) by (nonlinear_arith)
        requires
            den > 0,
    ;
    vstd::arithmetic::div_mod::lemma_div_denominator(num as int, (den * 60) as int, 24);
    vstd::arithmetic::div_mod::lemma_fundamental_div_mod(q as int, 24);
    vstd::arithmetic::div_mod::lemma_fundamental_div_mod(num as int, (den * 60) as int);
    vstd::arithmetic::div_mod::lemma_fundamental_div_mod((2 * r + den) as int, (2 * den) as int);
    assert(0 <= (2 * r + den) % (2 * den) < 2 * den) by {
        vstd::arithmetic::div_mod::lemma_mod_bound((2 * r + den) as int, (2 * den) as int);
    }
    assert(p == q * 60 + m);
    assert(m * (2 * den) <= 2 * r + den < m * (2 * den) + 2 * den) by (nonlinear_arith)
        requires
            2 * r + den == (2 * den) * m + (2 * r + den) % (2 * den),
            0 <= (2 * r + den) % (2 * den) < 2 * den,
    ;
    assert(num == q * 60 * den + r) by (nonlinear_arith)
        requires
            num == (den * 60) * q + r,
    ;
    assert(p * den == q * 60 * den + m * den) by (nonlinear_arith)
        requires
            p == q * 60 + m,
    ;
    assert(2 * p * den <= 2 * num + den && 2 * num <= 2 * p * den + den) by (nonlinear_arith)
        requires
            m * (2 * den) <= 2 * r + den < m * (2 * den) + 2 * den,
            num == q * 60 * den + r,
            p * den == q * 60 * den + m * den,
    ;
    assert(p <= u64::MAX) by (nonlinear_arith)
        requires
            2 * p * den <= 2 * num + den,
            num < den * u64::MAX,
            den > 0,
    ;
}

} // verus!
