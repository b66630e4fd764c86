//! Character-level helpers shared by the parsers and renderers.

use vstd::prelude::*;

verus! {

/// Unicode `White_Space`, the set that `char::is_whitespace` and `str::trim` use.
pub open spec fn is_space(c: char) -> bool {
    ('\u{9}' <= c && c <= '\u{d}') || c == ' ' || c == '\u{85}' || c == '\u{a0}'
        || c == '\u{1680}' || ('\u{2000}' <= c && c <= '\u{200a}') || c == '\u{2028}'
        || c == '\u{2029}' || c == '\u{202f}' || c == '\u{205f}' || c == '\u{3000}'
}

pub open spec fn is_digit(c: char) -> bool {
    '0' <= c && c <= '9'
}

pub open spec fn digit_value(c: char) -> int {
    (c as int) - ('0' as int)
}

pub fn char_is_space(c: char) -> (r: bool)
    ensures
        r == is_space(c),
{
    ('\u{9}' <= c && c <= '\u{d}') || c == ' ' || c == '\u{85}' || c == '\u{a0}'
        || c == '\u{1680}' || ('\u{2000}' <= c && c <= '\u{200a}') || c == '\u{2028}'
        || c == '\u{2029}' || c == '\u{202f}' || c == '\u{205f}' || c == '\u{3000}'
}

/// The characters of `s`, in order.
pub fn chars_of(s: &str) -> (r: Vec<char>)
    ensures
        r@ == s@,
{
    let n = s.unicode_len();
    let mut r: Vec<char> = Vec::new();
    let mut i: usize = 0;
    while i < n
        invariant
            n == s@.len(),
            i <= n,
            r@ == s@.take(i as int),
        decreases n - i,
    {
        r.push(s.get_char(i));
        i = i + 1;
        assert(r@ =~= s@.take(i as int));
    }
    assert(r@ =~= s@);
    r
}


/// Length of the leading run of white space of `s`.
pub open spec fn lead_len(s: Seq<char>) -> nat
    decreases s.len(),
{
    if s.len() == 0 || !is_space(s[0]) {
        0
    } else {
        1 + lead_len(s.drop_first())
    }
}

/// Length of the trailing run of white space of `s`.
pub open spec fn trail_len(s: Seq<char>) -> nat
    decreases s.len(),
{
    if s.len() == 0 || !is_space(s.last()) {
        0
    } else {
        1 + trail_len(s.drop_last())
    }
}

/// `s` without leading and trailing white space, as `str::trim` gives it.
pub open spec fn trimmed(s: Seq<char>) -> Seq<char> {
    let t = s.skip(lead_len(s) as int);
    t.take(t.len() - trail_len(t))
}

proof fn lemma_lead_len(s: Seq<char>, i: int)
    requires
        0 <= i <= s.len(),
        forall|j: int| 0 <= j < i ==> is_space(#[trigger] s[j]),
        i == s.len() || !is_space(s[i]),
    ensures
        lead_len(s) == i,
    decreases i,
{
    if i > 0 {
        lemma_lead_len(s.drop_first(), i - 1);
    }
}

proof fn lemma_trail_len(s: Seq<char>, i: int)
    requires
        0 <= i <= s.len(),
        forall|j: int| i <= j < s.len() ==> is_space(#[trigger] s[j]),
        i == 0 || !is_space(s[i - 1]),
    ensures
        trail_len(s) == s.len() - i,
    decreases s.len() - i,
{
    if i < s.len() {
        lemma_trail_len(s.drop_last(), i);
    }
}

/// The bounds `(a, b)` of the trimmed part of `s[from..to]`.
pub fn trim_bounds(s: &Vec<char>, from: usize, to: usize) -> (r: (usize, usize))
    requires
        from <= to <= s@.len(),
    ensures
        from <= r.0 <= r.1 <= to,
        s@.subrange(r.0 as int, r.1 as int) == trimmed(s@.subrange(from as int, to as int)),
{
    let ghost seg = s@.subrange(from as int, to as int);
    let mut a = from;
    while a < to && char_is_space(s[a])
        invariant
            from <= a <= to <= s@.len(),
            forall|j: int| from <= j < a ==> is_space(#[trigger] s@[j]),
        decreases to - a,
    {
        a = a + 1;
    }
    proof {
        assert forall|j: int| 0 <= j < a - from implies is_space(#[trigger] seg[j]) by {
            assert(seg[j] == s@[from + j]);
        }
        lemma_lead_len(seg, a - from);
    }
    let ghost t = seg.skip(a - from);
    assert(t =~= s@.subrange(a as int, to as int));
    let mut b = to;
    while b > a && char_is_space(s[b - 1])
        invariant
            from <= a <= b <= to <= s@.len(),
            forall|j: int| b <= j < to ==> is_space(#[trigger] s@[j]),
        decreases b - a,
    {
        b = b - 1;
    }
    proof {
        assert forall|j: int| b - a <= j < t.len() implies is_space(#[trigger] t[j]) by {
            assert(t[j] == s@[a + j]);
        }
        if b > a {
            assert(t[b - a - 1] == s@[b - 1]);
        }
        lemma_trail_len(t, b - a);
        assert(s@.subrange(a as int, b as int) =~= t.take(t.len() - trail_len(t)));
    }
    (a, b)
}


pub open spec fn all_digits(s: Seq<char>) -> bool {
    forall|i: int| 0 <= i < s.len() ==> is_digit(#[trigger] s[i])
}

/// The number written by the decimal digits `s`, most significant first.
pub open spec fn digits_value(s: Seq<char>) -> nat
    decreases s.len(),
{
    if s.len() == 0 {
        0
    } else {
        (digits_value(s.drop_last()) * 10 + digit_value(s.last())) as nat
    }
}

/// The digit part of an unsigned integer text: an optional leading `+` is dropped.
pub open spec fn unsigned_digits(s: Seq<char>) -> Seq<char> {
    if s.len() > 0 && s[0] == '+' {
        s.drop_first()
    } else {
        s
    }
}

/// The value of an unsigned integer text (`+`?, then one or more ASCII digits), as
/// `FromStr` for the unsigned integer types reads it; `None` where the text is not one.
pub open spec fn unsigned_value(s: Seq<char>) -> Option<nat> {
    let d = unsigned_digits(s);
    if d.len() > 0 && all_digits(d) {
        Some(digits_value(d))
    } else {
        None
    }
}

proof fn lemma_digits_value_prefix(s: Seq<char>, k: int)
    requires
        0 <= k <= s.len(),
        all_digits(s),
    ensures
        digits_value(s.take(k)) <= digits_value(s),
    decreases s.len() - k,
{
    if k < s.len() {
        lemma_digits_value_prefix(s, k + 1);
        assert(s.take(k + 1).drop_last() =~= s.take(k));
        assert(is_digit(s[k]));
    } else {
        assert(s.take(k) =~= s);
    }
}

/// Reads `s[from..to]` as an unsigned integer text; `None` where it is not one or
/// its value does not fit in a `u64`.
pub fn parse_u64(s: &Vec<char>, from: usize, to: usize) -> (r: Option<u64>)
    requires
        from <= to <= s@.len(),
    ensures
        ({
            let v = unsigned_value(s@.subrange(from as int, to as int));
            match r {
                Some(x) => v == Some(x as nat),
                None => v is None || v->0 > u64::MAX,
            }
        }),
{
    let ghost seg = s@.subrange(from as int, to as int);
    let mut start = from;
    if from < to && s[from] == '+' {
        start = from + 1;
    }
    let ghost d = s@.subrange(start as int, to as int);
    assert(d =~= unsigned_digits(seg));
    if start == to {
        return None;
    }
    let mut acc: u64 = 0;
    let mut i = start;
    while i < to
        invariant
            from <= start <= i <= to <= s@.len(),
            d == s@.subrange(start as int, to as int),
            seg == s@.subrange(from as int, to as int),
            d == unsigned_digits(seg),
            d.len() > 0,
            all_digits(d.take(i - start)),
            acc == digits_value(d.take(i - start)),
        decreases to - i,
    {
        let c = s[i];
        if !('0' <= c && c <= '9') {
            assert(d[i - start] == c);
            assert(!all_digits(d));
            return None;
        }
        let dv = (c as u32 - '0' as u32) as u64;
        assert(d.take(i - start + 1).drop_last() =~= d.take(i - start));
        assert(d[i - start] == c);
        if acc > (u64::MAX - dv) / 10 {
            proof {
                assert(all_digits(d.take(i - start + 1)));
                assert(digits_value(d.take(i - start + 1)) > u64::MAX);
                if all_digits(d) {
                    assert(d.take(i - start + 1) =~= d.take(i - start + 1));
                    lemma_digits_value_prefix(d, i - start + 1);
                }
            }
            return None;
        }
        acc = acc * 10 + dv;
        i = i + 1;
        assert(all_digits(d.take(i - start)));
    }
    assert(d.take(i - start) =~= d);
    Some(acc)
}

pub open spec fn digit_char(d: nat) -> char {
    seq!['0', '1', '2', '3', '4', '5', '6', '7', '8', '9'][d as int]
}

/// The decimal text of `n`, without leading zeros.
pub open spec fn decimal(n: nat) -> Seq<char>
    decreases n,
{
    if n < 10 {
        seq![digit_char(n)]
    } else {
        decimal(n / 10).push(digit_char(n % 10))
    }
}

pub proof fn lemma_decimal(n: nat)
    ensures
        decimal(n).len() > 0,
        all_digits(decimal(n)),
        digits_value(decimal(n)) == n,
    decreases n,
{
    assert(is_digit(digit_char(n % 10)) && digit_value(digit_char(n % 10)) == n % 10) by {
        let d = n % 10;
        assert(d == 0 || d == 1 || d == 2 || d == 3 || d == 4 || d == 5 || d == 6 || d == 7
            || d == 8 || d == 9);
    }
    if n >= 10 {
        lemma_decimal(n / 10);
        let s = decimal(n);
        assert(s.drop_last() =~= decimal(n / 10));
        assert(n == (n / 10) * 10 + n % 10);
        assert(s.last() == digit_char(n % 10));
        assert(digits_value(s) == digits_value(s.drop_last()) * 10 + digit_value(s.last()));
        assert forall|i: int| 0 <= i < s.len() implies is_digit(#[trigger] s[i]) by {
            if i < s.len() - 1 {
                assert(s[i] == decimal(n / 10)[i]);
            }
        }
    } else {
        let s = decimal(n);
        assert(s.drop_last() =~= Seq::<char>::empty());
        assert(n % 10 == n);
        assert(s.last() == digit_char(n % 10));
        assert(digits_value(s) == digits_value(s.drop_last()) * 10 + digit_value(s.last()));
        assert(digits_value(Seq::<char>::empty()) == 0);
    }
}

fn digit_str(d: u128) -> (r: &'static str)
    requires
        d < 10,
    ensures
        r@ == seq![digit_char(d as nat)],
{
    proof {
        reveal_strlit("0");
        reveal_strlit("1");
        reveal_strlit("2");
        reveal_strlit("3");
        reveal_strlit("4");
        reveal_strlit("5");
        reveal_strlit("6");
        reveal_strlit("7");
        reveal_strlit("8");
        reveal_strlit("9");
    }
    let r = match d {
        0 => "0",
        1 => "1",
        2 => "2",
        3 => "3",
        4 => "4",
        5 => "5",
        6 => "6",
        7 => "7",
        8 => "8",
        _ => "9",
    };
    assert(r@ =~= seq![digit_char(d as nat)]);
    r
}

/// Appends the decimal text of `n` to `s`.
pub fn push_decimal(s: &mut String, n: u128)
    ensures
        final(s)@ == old(s)@ + decimal(n as nat),
    decreases n,
{
    if n >= 10 {
        push_decimal(s, n / 10);
    }
    s.append(digit_str(n % 10));
    assert(decimal(n as nat) == if n < 10 {
        seq![digit_char(n as nat)]
    } else {
        decimal((n / 10) as nat).push(digit_char((n % 10) as nat))
    });
    assert(final(s)@ =~= old(s)@ + decimal(n as nat));
}


/// `s[i..j]` holds only ASCII digits.
pub fn digits_only(s: &Vec<char>, from: usize, to: usize) -> (r: bool)
    requires
        from <= to <= s@.len(),
    ensures
        r == all_digits(s@.subrange(from as int, to as int)),
{
    let ghost seg = s@.subrange(from as int, to as int);
    let mut i = from;
    while i < to
        invariant
            from <= i <= to <= s@.len(),
            seg == s@.subrange(from as int, to as int),
            forall|j: int| from <= j < i ==> is_digit(#[trigger] s@[j]),
        decreases to - i,
    {
        if !('0' <= s[i] && s[i] <= '9') {
            assert(seg[i - from] == s@[i as int]);
            return false;
        }
        i = i + 1;
    }
    assert forall|j: int| 0 <= j < seg.len() implies is_digit(#[trigger] seg[j]) by {
        assert(seg[j] == s@[from + j]);
    }
    true
}

/// The first index in `from..to` that holds `a` or `b`, or `to` where none does.
pub fn find_either(s: &Vec<char>, from: usize, to: usize, a: char, b: char) -> (r: usize)
    requires
        from <= to <= s@.len(),
    ensures
        from <= r <= to,
        forall|j: int| from <= j < r ==> #[trigger] s@[j] != a && s@[j] != b,
        r < to ==> (s@[r as int] == a || s@[r as int] == b),
{
    let mut i = from;
    while i < to
        invariant
            from <= i <= to <= s@.len(),
            forall|j: int| from <= j < i ==> #[trigger] s@[j] != a && s@[j] != b,
        decreases to - i,
    {
        if s[i] == a || s[i] == b {
            return i;
        }
        i = i + 1;
    }
    to
}

pub open spec fn is_sign(c: char) -> bool {
    c == '+' || c == '-'
}

/// `s` without one leading sign character.
pub open spec fn unsigned_part(s: Seq<char>) -> Seq<char> {
    if s.len() > 0 && is_sign(s[0]) {
        s.drop_first()
    } else {
        s
    }
}

/// `s` spells the word whose lower-case letters are `lo` and upper-case letters `up`,
/// each letter in either case.
pub open spec fn spells(s: Seq<char>, lo: Seq<char>, up: Seq<char>) -> bool {
    s.len() == lo.len() && forall|i: int| 0 <= i < s.len() ==> #[trigger] s[i] == lo[i] || s[i]
        == up[i]
}

/// Digits with at most one `.` among them, and at least one digit.
pub open spec fn is_mantissa(m: Seq<char>) -> bool {
    (m.len() > 0 && all_digits(m)) || exists|p: int|
        0 <= p < m.len() && m[p] == '.' && m.len() >= 2 && all_digits(#[trigger] m.take(p))
            && all_digits(m.skip(p + 1))
}

pub open spec fn is_exp_mark(c: char) -> bool {
    c == 'e' || c == 'E'
}

/// A sign, then one or more digits.
pub open spec fn is_exponent(x: Seq<char>) -> bool {
    let d = unsigned_part(x);
    d.len() > 0 && all_digits(d)
}

/// A mantissa, then an optional exponent.
pub open spec fn is_number(b: Seq<char>) -> bool {
    is_mantissa(b) || exists|k: int|
        0 <= k < b.len() && is_exp_mark(b[k]) && is_mantissa(#[trigger] b.take(k)) && is_exponent(
            b.skip(k + 1),
        )
}

/// A text that `f64`'s `FromStr` accepts: a sign, then `inf`, `infinity`, `nan` (in any
/// case) or a decimal number with an optional exponent.
pub open spec fn is_float_text(s: Seq<char>) -> bool {
    let b = unsigned_part(s);
    spells(b, seq!['i', 'n', 'f'], seq!['I', 'N', 'F']) || spells(
        b,
        seq!['i', 'n', 'f', 'i', 'n', 'i', 't', 'y'],
        seq!['I', 'N', 'F', 'I', 'N', 'I', 'T', 'Y'],
    ) || spells(b, seq!['n', 'a', 'n'], seq!['N', 'A', 'N']) || is_number(b)
}

proof fn lemma_mantissa_chars(m: Seq<char>, i: int)
    requires
        is_mantissa(m),
        0 <= i < m.len(),
    ensures
        is_digit(m[i]) || m[i] == '.',
{
    if !(m.len() > 0 && all_digits(m)) {
        let p = choose|p: int|
            0 <= p < m.len() && m[p] == '.' && m.len() >= 2 && all_digits(#[trigger] m.take(p))
                && all_digits(m.skip(p + 1));
        if i < p {
            assert(m.take(p)[i] == m[i]);
        } else if i > p {
            assert(m.skip(p + 1)[i - p - 1] == m[i]);
        }
    }
}

fn spells_exec(s: &Vec<char>, from: usize, to: usize, lo: &str, up: &str) -> (r: bool)
    requires
        from <= to <= s@.len(),
        lo@.len() == up@.len(),
    ensures
        r == spells(s@.subrange(from as int, to as int), lo@, up@),
{
    let ghost seg = s@.subrange(from as int, to as int);
    let n = lo.unicode_len();
    if to - from != n {
        return false;
    }
    let mut i: usize = 0;
    while i < n
        invariant
            n == lo@.len() == up@.len() == to - from,
            from <= to <= s@.len(),
            seg == s@.subrange(from as int, to as int),
            i <= n,
            forall|j: int| 0 <= j < i ==> #[trigger] seg[j] == lo@[j] || seg[j] == up@[j],
        decreases n - i,
    {
        let c = s[from + i];
        assert(seg[i as int] == c);
        if !(c == lo.get_char(i) || c == up.get_char(i)) {
            return false;
        }
        i = i + 1;
    }
    true
}

fn mantissa_exec(s: &Vec<char>, from: usize, to: usize) -> (r: bool)
    requires
        from <= to <= s@.len(),
    ensures
        r == is_mantissa(s@.subrange(from as int, to as int)),
{
    let ghost m = s@.subrange(from as int, to as int);
    if from == to {
        return false;
    }
    let p = find_either(s, from, to, '.', '.');
    if p == to {
        let r = digits_only(s, from, to);
        proof {
            if !r {
                assert forall|q: int|
                    0 <= q < m.len() && m[q] == '.' implies !(all_digits(#[trigger] m.take(q))
                    && all_digits(m.skip(q + 1))) by {
                    assert(m[q] == s@[from + q]);
                }
            }
        }
        return r;
    }
    let r = to - from >= 2 && digits_only(s, from, p) && digits_only(s, p + 1, to);
    proof {
        let q0 = p - from;
        assert(m.take(q0) =~= s@.subrange(from as int, p as int));
        assert(m.skip(q0 + 1) =~= s@.subrange(p + 1, to as int));
        assert(m[q0] == '.');
        assert(!all_digits(m));
        if !r {
            assert forall|q: int|
                0 <= q < m.len() && m[q] == '.' && m.len() >= 2 implies !(all_digits(
                #[trigger] m.take(q),
            ) && all_digits(m.skip(q + 1))) by {
                assert(m[q] == s@[from + q]);
                if q > q0 {
                    assert(m.take(q)[q0] == '.');
                } else if q == q0 {
                }
            }
        }
    }
    r
}

/// `s[from..to]` is a text that `f64`'s `FromStr` accepts.
pub fn is_float_text_exec(s: &Vec<char>, from: usize, to: usize) -> (r: bool)
    requires
        from <= to <= s@.len(),
    ensures
        r == is_float_text(s@.subrange(from as int, to as int)),
{
    let ghost seg = s@.subrange(from as int, to as int);
    let mut start = from;
    if from < to && (s[from] == '+' || s[from] == '-') {
        start = from + 1;
    }
    let ghost b = s@.subrange(start as int, to as int);
    assert(b =~= unsigned_part(seg));
    proof {
        reveal_strlit("inf");
        reveal_strlit("INF");
        reveal_strlit("infinity");
        reveal_strlit("INFINITY");
        reveal_strlit("nan");
        reveal_strlit("NAN");
    }
    assert("inf"@ =~= seq!['i', 'n', 'f']);
    assert("INF"@ =~= seq!['I', 'N', 'F']);
    assert("infinity"@ =~= seq!['i', 'n', 'f', 'i', 'n', 'i', 't', 'y']);
    assert("INFINITY"@ =~= seq!['I', 'N', 'F', 'I', 'N', 'I', 'T', 'Y']);
    assert("nan"@ =~= seq!['n', 'a', 'n']);
    assert("NAN"@ =~= seq!['N', 'A', 'N']);
    if spells_exec(s, start, to, "inf", "INF") || spells_exec(s, start, to, "infinity", "INFINITY")
        || spells_exec(s, start, to, "nan", "NAN") {
        return true;
    }
    let k = find_either(s, start, to, 'e', 'E');
    if k == to {
        let r = mantissa_exec(s, start, to);
        proof {
            assert forall|q: int| 0 <= q < b.len() implies !is_exp_mark(#[trigger] b[q]) by {
                assert(b[q] == s@[start + q]);
            }
        }
        return r;
    }
    let r = mantissa_exec(s, start, k) && exponent_exec(s, k + 1, to);
    proof {
        let k0 = k - start;
        assert(b.take(k0) =~= s@.subrange(start as int, k as int));
        assert(b.skip(k0 + 1) =~= s@.subrange(k + 1, to as int));
        assert(is_exp_mark(b[k0]));
        if is_mantissa(b) {
            lemma_mantissa_chars(b, k0);
        }
        if !r {
            assert forall|q: int|
                0 <= q < b.len() && is_exp_mark(b[q]) implies !(is_mantissa(#[trigger] b.take(q))
                && is_exponent(b.skip(q + 1))) by {
                assert(b[q] == s@[start + q]);
                if q > k0 && is_mantissa(b.take(q)) {
                    lemma_mantissa_chars(b.take(q), k0);
                }
            }
        }
    }
    r
}

fn exponent_exec(s: &Vec<char>, from: usize, to: usize) -> (r: bool)
    requires
        from <= to <= s@.len(),
    ensures
        r == is_exponent(s@.subrange(from as int, to as int)),
{
    let mut start = from;
    if from < to && (s[from] == '+' || s[from] == '-') {
        start = from + 1;
    }
    assert(s@.subrange(start as int, to as int) =~= unsigned_part(
        s@.subrange(from as int, to as int),
    ));
    start < to && digits_only(s, start, to)
}


/// The index of the first `c` in `s`, or the length of `s` where it holds none.
pub open spec fn first_index_of(s: Seq<char>, c: char) -> nat
    decreases s.len(),
{
    if s.len() == 0 || s[0] == c {
        0
    } else {
        1 + first_index_of(s.drop_first(), c)
    }
}

pub proof fn lemma_first_index_of(s: Seq<char>, c: char, i: int)
    requires
        0 <= i <= s.len(),
        forall|j: int| 0 <= j < i ==> #[trigger] s[j] != c,
        i == s.len() || s[i] == c,
    ensures
        first_index_of(s, c) == i,
    decreases i,
{
    if i > 0 {
        lemma_first_index_of(s.drop_first(), c, i - 1);
    }
}

/// What follows the first `n` characters of `s`; nothing where `s` is shorter.
pub open spec fn skip_label(s: Seq<char>, n: nat) -> Seq<char> {
    if s.len() >= n {
        s.skip(n as int)
    } else {
        Seq::empty()
    }
}


/// `s[from..to]` is exactly the text `w`.
pub fn range_equals(s: &Vec<char>, from: usize, to: usize, w: &str) -> (r: bool)
    requires
        from <= to <= s@.len(),
    ensures
        r == (s@.subrange(from as int, to as int) == w@),
{
    let ghost seg = s@.subrange(from as int, to as int);
    let n = w.unicode_len();
    if to - from != n {
        return false;
    }
    let mut i: usize = 0;
    while i < n
        invariant
            n == w@.len() == to - from,
            from <= to <= s@.len(),
            seg == s@.subrange(from as int, to as int),
            i <= n,
            forall|j: int| 0 <= j < i ==> #[trigger] seg[j] == w@[j],
        decreases n - i,
    {
        assert(seg[i as int] == s@[from + i]);
        if s[from + i] != w.get_char(i) {
            return false;
        }
        i = i + 1;
    }
    assert(seg =~= w@);
    true
}


/// `v`, or `u64::MAX` where `v` is larger.
pub open spec fn clamp_u64(v: int) -> u64 {
    if v > u64::MAX {
        u64::MAX
    } else {
        v as u64
    }
}

/// Reads `s[from..to]` as an unsigned integer text; a value past `u64::MAX` reads as
/// `u64::MAX`.
pub fn parse_u64_saturating(s: &Vec<char>, from: usize, to: usize) -> (r: Option<u64>)
    requires
        from <= to <= s@.len(),
    ensures
        match unsigned_value(s@.subrange(from as int, to as int)) {
            Some(v) => r == Some(clamp_u64(v as int)),
            None => r is None,
        },
{
    let ghost seg = s@.subrange(from as int, to as int);
    let mut start = from;
    if from < to && s[from] == '+' {
        start = from + 1;
    }
    let ghost d = s@.subrange(start as int, to as int);
    assert(d =~= unsigned_digits(seg));
    if start == to {
        return None;
    }
    let mut acc: u64 = 0;
    let mut i = start;
    while i < to
        invariant
            from <= start <= i <= to <= s@.len(),
            d == s@.subrange(start as int, to as int),
            seg == s@.subrange(from as int, to as int),
            d == unsigned_digits(seg),
            d.len() > 0,
            all_digits(d.take(i - start)),
            acc == clamp_u64(digits_value(d.take(i - start)) as int),
        decreases to - i,
    {
        let c = s[i];
        if !('0' <= c && c <= '9') {
            assert(d[i - start] == c);
            assert(!all_digits(d));
            return None;
        }
        let dv = (c as u32 - '0' as u32) as u64;
        assert(d.take(i - start + 1).drop_last() =~= d.take(i - start));
        assert(d[i - start] == c);
        if acc > (u64::MAX - dv) / 10 {
            acc = u64::MAX;
        } else {
            acc = acc * 10 + dv;
        }
        i = i + 1;
        assert(all_digits(d.take(i - start)));
    }
    assert(d.take(i - start) =~= d);
    Some(acc)
}


/// The value of a signed integer text (a sign, then one or more ASCII digits), as
/// `FromStr` for the signed integer types reads it before its range check.
pub open spec fn signed_value(s: Seq<char>) -> Option<int> {
    let d = unsigned_part(s);
    if d.len() > 0 && all_digits(d) {
        Some(
            if s[0] == '-' {
                -digits_value(d)
            } else {
                digits_value(d) as int
            },
        )
    } else {
        None
    }
}

/// Reads `s[from..to]` as an `i32` text; `None` where it is not one or its value
/// is out of range.
pub fn parse_i32(s: &Vec<char>, from: usize, to: usize) -> (r: Option<i32>)
    requires
        from <= to <= s@.len(),
    ensures
        ({
            let v = signed_value(s@.subrange(from as int, to as int));
            match r {
                Some(x) => v == Some(x as int),
                None => v is None || v->0 < i32::MIN || v->0 > i32::MAX,
            }
        }),
{
    let ghost seg = s@.subrange(from as int, to as int);
    let neg = from < to && s[from] == '-';
    let mut start = from;
    if from < to && (s[from] == '+' || s[from] == '-') {
        start = from + 1;
    }
    let ghost d = s@.subrange(start as int, to as int);
    assert(d =~= unsigned_part(seg));
    if start == to || !digits_only(s, start, to) {
        return None;
    }
    assert(unsigned_digits(d) == d);
    let v = match parse_u64_saturating(s, start, to) {
        Some(v) => v,
        None => {
            return None;
        },
    };
    if neg {
        if v <= 2147483648 {
            Some((-(v as i64)) as i32)
        } else {
            None
        }
    } else {
        if v <= 2147483647 {
            Some(v as i32)
        } else {
            None
        }
    }
}

} // verus!
