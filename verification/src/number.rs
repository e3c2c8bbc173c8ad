//! Decimal numbers written as text, read exactly into scaled integers.
//!
//! A number is a sign, digits with an optional decimal point, and an optional
//! power of ten (`-12.5`, `.75`, `3e2`). Reading it at a given number of
//! decimal places yields the integer `|value| * 10^places`, cut off toward
//! zero, or the fact that this integer lies beyond a limit. No rounding other
//! than that cut ever happens.

use vstd::prelude::*;
use vstd::arithmetic::div_mod::lemma_fundamental_div_mod_converse;

verus! {

/// The largest limit that a tally is kept against.
const TALLY_MAX: u128 = 0x1_0000_0000_0000_0000_0000_0000;

/// Above this magnitude a written power of ten is only known to be large.
const EXPONENT_CAP: u128 = TALLY_MAX;

/// Whether `c` is one of the ten ASCII digits.
pub open spec fn is_digit(c: char) -> bool {
    '0' <= c <= '9'
}

/// The value of a digit; 0 for any other character.
pub open spec fn digit_value(c: char) -> nat {
    if is_digit(c) {
        (c as u32 - '0' as u32) as nat
    } else {
        0
    }
}

/// Whether `s` holds digits alone.
pub open spec fn all_digits(s: Seq<char>) -> bool {
    forall|i: int| 0 <= i < s.len() ==> is_digit(#[trigger] s[i])
}

/// The number of digits at the front of `s`.
pub open spec fn digit_run(s: Seq<char>) -> nat
    decreases s.len(),
{
    if s.len() > 0 && is_digit(s[0]) {
        1 + digit_run(s.skip(1))
    } else {
        0
    }
}

/// The number that the digits of `s` write in base ten.
pub open spec fn digits_value(s: Seq<char>) -> nat
    decreases s.len(),
{
    if s.len() == 0 {
        0
    } else {
        digits_value(s.drop_last()) * 10 + digit_value(s.last())
    }
}

/// Ten to the power `n`.
pub open spec fn pow10(n: nat) -> nat
    decreases n,
{
    if n == 0 {
        1
    } else {
        10 * pow10((n - 1) as nat)
    }
}

/// Whether `s` starts with `+` or `-`.
pub open spec fn has_sign(s: Seq<char>) -> bool {
    s.len() > 0 && (s[0] == '+' || s[0] == '-')
}

/// Whether `s` starts with `-`.
pub open spec fn is_negative(s: Seq<char>) -> bool {
    s.len() > 0 && s[0] == '-'
}

/// `s` without its sign, if it has one.
pub open spec fn unsigned(s: Seq<char>) -> Seq<char> {
    if has_sign(s) {
        s.skip(1)
    } else {
        s
    }
}

/// An integer in text: an optional sign, then one or more digits.
pub open spec fn is_integer_text(s: Seq<char>) -> bool {
    unsigned(s).len() > 0 && all_digits(unsigned(s))
}

/// The value of an integer in text.
pub open spec fn integer_value(s: Seq<char>) -> int {
    if is_negative(s) {
        -(digits_value(unsigned(s)) as int)
    } else {
        digits_value(unsigned(s)) as int
    }
}

/// A decimal number as written: its value is
/// `digits_value(digits) * 10^exponent`, negated where `negative`.
pub struct Decimal {
    pub negative: bool,
    pub digits: Seq<char>,
    pub exponent: int,
}

/// Where the digits before the decimal point end.
pub open spec fn whole_end(s: Seq<char>) -> int {
    let start: int = if has_sign(s) { 1 } else { 0 };
    start + digit_run(s.skip(start))
}

/// Whether a decimal point follows the digits at the front of `s`.
pub open spec fn has_point(s: Seq<char>) -> bool {
    whole_end(s) < s.len() && s[whole_end(s)] == '.'
}

/// Where the digits after the decimal point start.
pub open spec fn fraction_start(s: Seq<char>) -> int {
    if has_point(s) {
        whole_end(s) + 1
    } else {
        whole_end(s)
    }
}

/// Where the digits after the decimal point end.
pub open spec fn fraction_end(s: Seq<char>) -> int {
    if has_point(s) {
        fraction_start(s) + digit_run(s.skip(fraction_start(s)))
    } else {
        fraction_start(s)
    }
}

/// The digits of `s` before and after its decimal point.
pub open spec fn mantissa(s: Seq<char>) -> Seq<char> {
    let start: int = if has_sign(s) { 1 } else { 0 };
    s.subrange(start, whole_end(s)) + s.subrange(fraction_start(s), fraction_end(s))
}

/// What `s` holds after its digits and the letter that follows them.
pub open spec fn power_text(s: Seq<char>) -> Seq<char> {
    s.skip(fraction_end(s) + 1)
}

/// Whether what follows the digits of `s` is nothing, or `e` or `E` and an
/// integer.
pub open spec fn has_valid_tail(s: Seq<char>) -> bool {
    let end = fraction_end(s);
    end == s.len() || ((s[end] == 'e' || s[end] == 'E') && is_integer_text(power_text(s)))
}

/// The power of ten that `s` writes after its digits; 0 where it writes none.
pub open spec fn written_power(s: Seq<char>) -> int {
    if fraction_end(s) == s.len() {
        0
    } else {
        integer_value(power_text(s))
    }
}

/// The decimal number that `s` writes, if it writes one: an optional sign;
/// digits with at most one decimal point among, before or after them, and at
/// least one digit; then optionally `e` or `E` and an integer.
pub open spec fn decimal_of(s: Seq<char>) -> Option<Decimal> {
    if mantissa(s).len() > 0 && has_valid_tail(s) {
        Some(
            Decimal {
                negative: is_negative(s),
                digits: mantissa(s),
                exponent: written_power(s) - (fraction_end(s) - fraction_start(s)),
            },
        )
    } else {
        None
    }
}

/// The magnitude of `d` in units of `10^-places`, cut off toward zero.
pub open spec fn scaled(d: Decimal, places: nat) -> nat {
    let shift = d.exponent + places;
    if shift >= 0 {
        digits_value(d.digits) * pow10(shift as nat)
    } else {
        digits_value(d.digits) / pow10((-shift) as nat)
    }
}

/// What reading a text as a decimal number gives.
#[derive(Clone, Copy, Debug, PartialEq, Eq, Structural)]
pub enum Reading {
    /// The text writes no decimal number.
    Invalid,
    /// The number's scaled magnitude, which is within the limit.
    Exact { negative: bool, magnitude: u64 },
    /// The number's scaled magnitude is beyond the limit.
    Beyond { negative: bool },
}

/// The reading of `s` at `places` decimal places against `limit`.
pub open spec fn reading_of(s: Seq<char>, places: nat, limit: nat) -> Reading {
    match decimal_of(s) {
        None => Reading::Invalid,
        Some(d) => if scaled(d, places) <= limit {
            Reading::Exact { negative: d.negative, magnitude: scaled(d, places) as u64 }
        } else {
            Reading::Beyond { negative: d.negative }
        },
    }
}

/// The reading of `s` as an integer against `limit`.
pub open spec fn integer_reading_of(s: Seq<char>, limit: nat) -> Reading {
    if !is_integer_text(s) {
        Reading::Invalid
    } else if digits_value(unsigned(s)) <= limit {
        Reading::Exact { negative: is_negative(s), magnitude: digits_value(unsigned(s)) as u64 }
    } else {
        Reading::Beyond { negative: is_negative(s) }
    }
}

/// A power of ten is at least 1.
pub proof fn lemma_pow10_positive(n: nat)
    ensures
        pow10(n) >= 1,
    decreases n,
{
    if n > 0 {
        lemma_pow10_positive((n - 1) as nat);
    }
}

/// A higher power of ten is no smaller.
pub proof fn lemma_pow10_grows(a: nat, b: nat)
    requires
        a <= b,
    ensures
        pow10(a) <= pow10(b),
    decreases b,
{
    if a < b {
        lemma_pow10_grows(a, (b - 1) as nat);
    }
}

/// `digit_run` counts exactly the digits at the front.
pub proof fn lemma_digit_run(s: Seq<char>, n: int)
    requires
        0 <= n <= s.len(),
        forall|i: int| 0 <= i < n ==> is_digit(#[trigger] s[i]),
        n == s.len() || !is_digit(s[n]),
    ensures
        digit_run(s) == n,
    decreases n,
{
    if n > 0 {
        lemma_digit_run(s.skip(1), n - 1);
    }
}

/// Digits written after others shift those to the left.
pub proof fn lemma_digits_value_concat(a: Seq<char>, b: Seq<char>)
    ensures
        digits_value(a + b) == digits_value(a) * pow10(b.len()) + digits_value(b),
    decreases b.len(),
{
    if b.len() == 0 {
        assert(a + b =~= a);
        assert(pow10(b.len()) == 1);
        assert(digits_value(a) * pow10(b.len()) == digits_value(a)) by (nonlinear_arith)
            requires
                pow10(b.len()) == 1,
        ;
    } else {
        assert((a + b).drop_last() =~= a + b.drop_last());
        assert((a + b).last() == b.last());
        lemma_digits_value_concat(a, b.drop_last());
        let x = digits_value(a) as int;
        let p = pow10((b.len() - 1) as nat) as int;
        let y = digits_value(b.drop_last()) as int;
        assert(pow10(b.len()) == 10 * p);
        assert((x * p + y) * 10 == x * (10 * p) + y * 10) by (nonlinear_arith);
        assert(digits_value(a + b) == (x * p + y) * 10 + digit_value(b.last()));
        assert(digits_value(b) == y * 10 + digit_value(b.last()));
    }
}

/// `n` digits write a number below `10^n`.
pub proof fn lemma_digits_value_bound(s: Seq<char>)
    ensures
        digits_value(s) < pow10(s.len()),
    decreases s.len(),
{
    if s.len() > 0 {
        lemma_digits_value_bound(s.drop_last());
    }
}

/// Cutting digits off at the back divides by a power of ten.
pub proof fn lemma_digits_value_take(s: Seq<char>, n: int)
    requires
        0 <= n <= s.len(),
    ensures
        digits_value(s.take(n)) == digits_value(s) / pow10((s.len() - n) as nat),
{
    let k = (s.len() - n) as nat;
    assert(s =~= s.take(n) + s.skip(n));
    lemma_digits_value_concat(s.take(n), s.skip(n));
    lemma_digits_value_bound(s.skip(n));
    lemma_pow10_positive(k);
    let q = digits_value(s.take(n)) as int;
    let d = pow10(k) as int;
    assert(q * d == d * q) by (nonlinear_arith);
    lemma_fundamental_div_mod_converse(
        digits_value(s) as int,
        d,
        q,
        digits_value(s.skip(n)) as int,
    );
}

/// The parts of which a decimal number is written, put together.
pub open spec fn written(
    sign: Seq<char>,
    whole: Seq<char>,
    point: bool,
    fraction: Seq<char>,
    power: Option<Seq<char>>,
) -> Seq<char> {
    sign + whole + (if point {
        seq!['.'] + fraction
    } else {
        Seq::<char>::empty()
    }) + (match power {
        Some(p) => seq!['e'] + p,
        None => Seq::<char>::empty(),
    })
}

/// A text put together of a sign or none, digits, a point with digits
/// behind it or none, and `e` with an integer or none, writes the decimal
/// number with these digits and this power of ten, as long as it holds a
/// digit at all.
pub proof fn law_decimal_of_written(
    sign: Seq<char>,
    whole: Seq<char>,
    point: bool,
    fraction: Seq<char>,
    power: Option<Seq<char>>,
)
    requires
        sign.len() == 0 || sign == seq!['+'] || sign == seq!['-'],
        all_digits(whole),
        all_digits(fraction),
        !point ==> fraction.len() == 0,
        whole.len() + fraction.len() > 0,
        power matches Some(p) ==> is_integer_text(p),
    ensures
        decimal_of(written(sign, whole, point, fraction, power)) == Some(
            Decimal {
                negative: sign == seq!['-'],
                digits: whole + fraction,
                exponent: (match power {
                    Some(p) => integer_value(p),
                    None => 0,
                }) - fraction.len(),
            },
        ),
{
    let s = written(sign, whole, point, fraction, power);
    let start = sign.len() as int;
    let w = start + whole.len();
    let f0 = if point { w + 1 } else { w };
    let f1 = f0 + fraction.len();
    assert(forall|i: int| 0 <= i < start ==> s[i] == sign[i]);
    assert(forall|i: int| start <= i < w ==> s[i] == whole[i - start]);
    assert(point ==> s[w] == '.');
    assert(forall|i: int| f0 <= i < f1 ==> s[i] == fraction[i - f0]);
    assert(power matches Some(p) ==> s[f1] == 'e' && s.skip(f1 + 1) =~= p);
    assert(power is None ==> s.len() == f1);
    if start == 0 {
        assert(is_digit(s[0]) || s[0] == '.');
    }
    assert(has_sign(s) == (start == 1));
    assert forall|i: int| 0 <= i < whole.len() implies is_digit(#[trigger] s.skip(start)[i]) by {
        assert(s.skip(start)[i] == whole[i]);
    }
    lemma_digit_run(s.skip(start), whole.len() as int);
    assert(whole_end(s) == w);
    if point {
        assert forall|i: int| 0 <= i < fraction.len() implies is_digit(
            #[trigger] s.skip(f0)[i],
        ) by {
            assert(s.skip(f0)[i] == fraction[i]);
        }
        lemma_digit_run(s.skip(f0), fraction.len() as int);
    }
    assert(fraction_end(s) == f1);
    assert(mantissa(s) =~= whole + fraction);
}

/// Ten to the power 20, which is above every `u64`.
proof fn lemma_pow10_twenty()
    ensures
        pow10(20) == 100_000_000_000_000_000_000,
{
    reveal_with_fuel(pow10, 21);
}

/// A product with a power of ten is no smaller than the same product with a
/// lower power.
proof fn lemma_pow10_product_grows(v: nat, a: nat, b: nat)
    requires
        a <= b,
    ensures
        v * pow10(a) <= v * pow10(b),
{
    lemma_pow10_grows(a, b);
    assert(v * pow10(a) <= v * pow10(b)) by (nonlinear_arith)
        requires
            pow10(a) <= pow10(b),
    ;
}

/// A running value kept against a limit: the value while it is within the
/// limit, and after that only the fact that it is beyond it.
#[derive(Clone, Copy)]
struct Tally {
    value: u128,
    over: bool,
}

/// The tally that stands for `v` against `limit`.
spec fn tally_of(v: nat, limit: u128) -> Tally {
    if v > limit {
        Tally { value: 0, over: true }
    } else {
        Tally { value: v as u128, over: false }
    }
}

/// The first `take` digits of a mantissa followed by `zeros` zeros write the
/// scaled magnitude, as far as a tally against a limit below `10^20` can
/// tell: `take` and `zeros` follow the power of ten by which the digits are
/// shifted, and a shift of 20 or more may be stood for by any such number of
/// zeros.
proof fn lemma_scaled_by_parts(d: Decimal, places: nat, take: int, zeros: nat, limit: u128)
    requires
        limit < pow10(20),
        ({
            let shift = d.exponent + places;
            let len = d.digits.len() as int;
            ||| shift >= 0 && take == len && zeros == shift
            ||| shift < 0 && -shift < len && take == len + shift && zeros == 0
            ||| shift < 0 && -shift >= len && take == 0 && zeros == 0
            ||| shift >= 20 && take == len && zeros >= 20
        }),
    ensures
        0 <= take <= d.digits.len(),
        tally_of(scaled(d, places), limit) == tally_of(
            digits_value(d.digits.take(take)) * pow10(zeros),
            limit,
        ),
{
    let shift = d.exponent + places;
    let len = d.digits.len() as int;
    let whole = digits_value(d.digits);
    if shift >= 0 {
        assert(d.digits.take(len) =~= d.digits);
        if zeros != shift {
            if whole == 0 {
                assert(whole * pow10(zeros) == 0) by (nonlinear_arith)
                    requires
                        whole == 0,
                ;
                assert(whole * pow10(shift as nat) == 0) by (nonlinear_arith)
                    requires
                        whole == 0,
                ;
            } else {
                lemma_pow10_grows(20, zeros);
                lemma_pow10_grows(20, shift as nat);
                assert(whole * pow10(zeros) >= pow10(zeros)) by (nonlinear_arith)
                    requires
                        whole >= 1,
                ;
                assert(whole * pow10(shift as nat) >= pow10(shift as nat)) by (nonlinear_arith)
                    requires
                        whole >= 1,
                ;
            }
        }
    } else {
        let k = (-shift) as nat;
        lemma_pow10_positive(k);
        if k < len {
            lemma_digits_value_take(d.digits, take);
        } else {
            lemma_digits_value_bound(d.digits);
            lemma_pow10_grows(len as nat, k);
            vstd::arithmetic::div_mod::lemma_basic_div(whole as int, pow10(k) as int);
            assert(d.digits.take(0) =~= Seq::<char>::empty());
        }
        assert(pow10(0) == 1);
        assert(digits_value(d.digits.take(take)) * pow10(0) == digits_value(d.digits.take(take)))
            by (nonlinear_arith)
            requires
                pow10(0) == 1,
        ;
    }
}

/// The tally after one more digit.
fn tally_digit(t: Tally, c: char, limit: u128, Ghost(v): Ghost<nat>) -> (out: Tally)
    requires
        is_digit(c),
        limit <= TALLY_MAX,
        t == tally_of(v, limit),
    ensures
        out == tally_of(v * 10 + digit_value(c), limit),
{
    if t.over {
        t
    } else {
        let digit: u32 = c as u32 - 48;
        let next: u128 = t.value * 10 + digit as u128;
        if next > limit {
            Tally { value: 0, over: true }
        } else {
            Tally { value: next, over: false }
        }
    }
}

/// The tally after the digits of `text` from `from` up to `to`.
fn tally_digits(
    t: Tally,
    text: &[char],
    from: usize,
    to: usize,
    limit: u128,
    Ghost(before): Ghost<Seq<char>>,
) -> (out: Tally)
    requires
        from <= to <= text.len(),
        all_digits(text@.subrange(from as int, to as int)),
        limit <= TALLY_MAX,
        t == tally_of(digits_value(before), limit),
    ensures
        out == tally_of(digits_value(before + text@.subrange(from as int, to as int)), limit),
{
    let mut cur = t;
    let mut i: usize = from;
    assert(before + text@.subrange(from as int, from as int) =~= before);
    while i < to
        invariant
            from <= i <= to <= text.len(),
            all_digits(text@.subrange(from as int, to as int)),
            limit <= TALLY_MAX,
            cur == tally_of(digits_value(before + text@.subrange(from as int, i as int)), limit),
        decreases to - i,
    {
        let ghost seen = before + text@.subrange(from as int, i as int);
        let ghost next = before + text@.subrange(from as int, i + 1);
        assert(is_digit(text@[i as int])) by {
            assert(text@.subrange(from as int, to as int)[i - from] == text@[i as int]);
        }
        assert(next.drop_last() =~= seen);
        assert(next.last() == text@[i as int]);
        cur = tally_digit(cur, text[i], limit, Ghost(digits_value(seen)));
        i += 1;
    }
    cur
}

/// The tally after `zeros` further zeros.
fn tally_zeros(t: Tally, zeros: u128, limit: u128, Ghost(v): Ghost<nat>) -> (out: Tally)
    requires
        limit <= TALLY_MAX,
        t == tally_of(v, limit),
    ensures
        out == tally_of(v * pow10(zeros as nat), limit),
{
    proof {
        lemma_pow10_positive(zeros as nat);
        assert(v * pow10(zeros as nat) >= v) by (nonlinear_arith)
            requires
                pow10(zeros as nat) >= 1,
        ;
        assert(v == 0 ==> v * pow10(zeros as nat) == 0) by (nonlinear_arith);
    }
    if t.over || t.value == 0 {
        return t;
    }
    let mut cur = t;
    let mut i: u128 = 0;
    assert(v * pow10(0) == v) by (nonlinear_arith)
        requires
            pow10(0) == 1,
    ;
    while i < zeros && !cur.over
        invariant
            i <= zeros,
            limit <= TALLY_MAX,
            cur == tally_of(v * pow10(i as nat), limit),
        decreases zeros - i,
    {
        let next: u128 = cur.value * 10;
        proof {
            let p = pow10(i as nat);
            assert(pow10((i + 1) as nat) == 10 * p);
            assert(v * (10 * p) == (v * p) * 10) by (nonlinear_arith);
        }
        cur =
        if next > limit {
            Tally { value: 0, over: true }
        } else {
            Tally { value: next, over: false }
        };
        i += 1;
    }
    proof {
        if cur.over {
            lemma_pow10_product_grows(v, i as nat, zeros as nat);
        }
    }
    cur
}

/// Where the digits that start at `from` end.
fn digits_end(text: &[char], from: usize) -> (end: usize)
    requires
        from <= text.len(),
    ensures
        from <= end <= text.len(),
        end - from == digit_run(text@.skip(from as int)),
        all_digits(text@.subrange(from as int, end as int)),
        end == text.len() || !is_digit(text@[end as int]),
{
    let mut end: usize = from;
    while end < text.len() && '0' <= text[end] && text[end] <= '9'
        invariant
            from <= end <= text.len(),
            forall|i: int| from <= i < end ==> is_digit(#[trigger] text@[i]),
        decreases text.len() - end,
    {
        end += 1;
    }
    proof {
        let rest = text@.skip(from as int);
        assert forall|i: int| 0 <= i < end - from implies is_digit(#[trigger] rest[i]) by {
            assert(rest[i] == text@[i + from]);
        }
        lemma_digit_run(rest, end - from);
    }
    end
}

/// The integer that `text` writes from `from` to its end, if it writes one
/// there: its sign, and its magnitude as a tally against `limit`.
fn read_signed(text: &[char], from: usize, limit: u128) -> (out: Option<(bool, Tally)>)
    requires
        from <= text.len(),
        limit <= TALLY_MAX,
    ensures
        out is Some <==> is_integer_text(text@.skip(from as int)),
        out matches Some((negative, t)) ==> {
            &&& negative == is_negative(text@.skip(from as int))
            &&& t == tally_of(digits_value(unsigned(text@.skip(from as int))), limit)
        },
{
    let n = text.len();
    let negative = from < n && text[from] == '-';
    let start: usize = if from < n && (text[from] == '+' || text[from] == '-') {
        from + 1
    } else {
        from
    };
    let end = digits_end(text, start);
    let ghost body = unsigned(text@.skip(from as int));
    assert(body =~= text@.skip(start as int));
    if end == start || end < n {
        proof {
            if end < n {
                assert(body[end - start] == text@[end as int]);
            }
        }
        return None;
    }
    assert(body =~= text@.subrange(start as int, end as int));
    let zero = Tally { value: 0, over: false };
    let t = tally_digits(zero, text, start, end, limit, Ghost(Seq::<char>::empty()));
    assert(Seq::<char>::empty() + text@.subrange(start as int, end as int) =~= body);
    Some((negative, t))
}

/// Reads `text` as an integer: an optional sign, then digits and nothing
/// else. The magnitude is given where it is within `limit`.
pub fn read_integer(text: &[char], limit: u64) -> (r: Reading)
    ensures
        r == integer_reading_of(text@, limit as nat),
{
    assert(text@.skip(0) =~= text@);
    match read_signed(text, 0, limit as u128) {
        None => Reading::Invalid,
        Some((negative, t)) => {
            if t.over {
                Reading::Beyond { negative }
            } else {
                Reading::Exact { negative, magnitude: t.value as u64 }
            }
        },
    }
}

/// Where the parts of a decimal number lie in a text, and the power of ten
/// written after them as a tally against [`EXPONENT_CAP`].
struct Layout {
    negative: bool,
    start: usize,
    whole_end: usize,
    fraction_start: usize,
    fraction_end: usize,
    power_negative: bool,
    power: Tally,
}

impl Layout {
    /// Whether this is the layout of the decimal number that `s` writes.
    spec fn fits(self, s: Seq<char>) -> bool {
        &&& self.negative == is_negative(s)
        &&& self.start == if has_sign(s) { 1int } else { 0int }
        &&& self.whole_end == whole_end(s)
        &&& self.fraction_start == fraction_start(s)
        &&& self.fraction_end == fraction_end(s)
        &&& self.start <= self.whole_end <= self.fraction_start <= self.fraction_end <= s.len()
        &&& all_digits(s.subrange(self.start as int, self.whole_end as int))
        &&& all_digits(s.subrange(self.fraction_start as int, self.fraction_end as int))
        &&& self.power_negative == (written_power(s) < 0)
        &&& self.power == tally_of(
            (if written_power(s) < 0 {
                -written_power(s)
            } else {
                written_power(s)
            }) as nat,
            EXPONENT_CAP,
        )
    }
}

/// Finds the parts of the decimal number that `text` writes, if it writes
/// one.
fn scan(text: &[char]) -> (out: Option<Layout>)
    ensures
        out is Some <==> decimal_of(text@) is Some,
        out matches Some(layout) ==> layout.fits(text@),
{
    let n = text.len();
    let negative = n > 0 && text[0] == '-';
    let start: usize = if n > 0 && (text[0] == '+' || text[0] == '-') {
        1
    } else {
        0
    };
    let whole_end = digits_end(text, start);
    let point = whole_end < n && text[whole_end] == '.';
    let fraction_start: usize = if point {
        whole_end + 1
    } else {
        whole_end
    };
    let fraction_end: usize = if point {
        digits_end(text, fraction_start)
    } else {
        fraction_start
    };
    if whole_end == start && fraction_end == fraction_start {
        return None;
    }
    let zero = Tally { value: 0, over: false };
    if fraction_end == n {
        return Some(
            Layout {
                negative,
                start,
                whole_end,
                fraction_start,
                fraction_end,
                power_negative: false,
                power: zero,
            },
        );
    }
    if text[fraction_end] != 'e' && text[fraction_end] != 'E' {
        return None;
    }
    match read_signed(text, fraction_end + 1, EXPONENT_CAP) {
        None => None,
        Some((power_negative, power)) => {
            let sure = power_negative && (power.over || power.value > 0);
            Some(
                Layout {
                    negative,
                    start,
                    whole_end,
                    fraction_start,
                    fraction_end,
                    power_negative: sure,
                    power,
                },
            )
        },
    }
}

/// How many of the mantissa's digits to take, and how many zeros to write
/// after them, for the magnitude at `places` decimal places.
fn plan(layout: &Layout, places: u32, limit: u64, Ghost(s): Ghost<Seq<char>>) -> (out: (
    usize,
    u128,
))
    requires
        layout.fits(s),
        decimal_of(s) is Some,
    ensures
        out.0 <= mantissa(s).len(),
        tally_of(scaled(decimal_of(s).unwrap(), places as nat), limit as u128) == tally_of(
            digits_value(mantissa(s).take(out.0 as int)) * pow10(out.1 as nat),
            limit as u128,
        ),
{
    let len: usize = (layout.whole_end - layout.start) + (layout.fraction_end
        - layout.fraction_start);
    let fraction_len: usize = layout.fraction_end - layout.fraction_start;
    let take: usize;
    let zeros: u128;
    if layout.power.over {
        if layout.power_negative {
            take = 0;
            zeros = 0;
        } else {
            take = len;
            zeros = 20;
        }
    } else {
        let written: i128 = if layout.power_negative {
            -(layout.power.value as i128)
        } else {
            layout.power.value as i128
        };
        let shift: i128 = written - fraction_len as i128 + places as i128;
        if shift >= 0 {
            take = len;
            zeros = shift as u128;
        } else if -shift < len as i128 {
            take = (len as i128 + shift) as usize;
            zeros = 0;
        } else {
            take = 0;
            zeros = 0;
        }
    }
    proof {
        lemma_pow10_twenty();
        lemma_scaled_by_parts(
            decimal_of(s).unwrap(),
            places as nat,
            take as int,
            zeros as nat,
            limit as u128,
        );
    }
    (take, zeros)
}

/// The tally of the first `take` digits of the mantissa.
fn tally_mantissa(text: &[char], layout: &Layout, take: usize, limit: u64) -> (out: Tally)
    requires
        layout.fits(text@),
        take <= mantissa(text@).len(),
    ensures
        out == tally_of(digits_value(mantissa(text@).take(take as int)), limit as u128),
{
    let start = layout.start;
    let fraction_start = layout.fraction_start;
    let whole_len: usize = layout.whole_end - start;
    let head: usize = if take < whole_len {
        take
    } else {
        whole_len
    };
    let zero = Tally { value: 0, over: false };
    let ghost whole = text@.subrange(start as int, layout.whole_end as int);
    let ghost fraction = text@.subrange(fraction_start as int, layout.fraction_end as int);
    assert(all_digits(text@.subrange(start as int, start + head))) by {
        assert forall|i: int| 0 <= i < head implies is_digit(
            #[trigger] text@.subrange(start as int, start + head)[i],
        ) by {
            assert(whole[i] == text@[start + i]);
        }
    }
    let first = tally_digits(
        zero,
        text,
        start,
        start + head,
        limit as u128,
        Ghost(Seq::<char>::empty()),
    );
    assert(Seq::<char>::empty() + text@.subrange(start as int, start + head) =~= whole.take(
        head as int,
    ));
    if take > whole_len {
        let more: usize = take - whole_len;
        assert(all_digits(text@.subrange(fraction_start as int, fraction_start + more))) by {
            assert forall|i: int| 0 <= i < more implies is_digit(
                #[trigger] text@.subrange(fraction_start as int, fraction_start + more)[i],
            ) by {
                assert(fraction[i] == text@[fraction_start + i]);
            }
        }
        assert(whole.take(head as int) =~= whole);
        let second = tally_digits(
            first,
            text,
            fraction_start,
            fraction_start + more,
            limit as u128,
            Ghost(whole),
        );
        assert(whole + text@.subrange(fraction_start as int, fraction_start + more) =~= mantissa(
            text@,
        ).take(take as int));
        second
    } else {
        assert(whole.take(head as int) =~= mantissa(text@).take(take as int));
        first
    }
}

/// Reads `text` as a decimal number at `places` decimal places: the
/// magnitude `|value| * 10^places`, cut off toward zero, where it is within
/// `limit`.
pub fn read_decimal(text: &[char], places: u32, limit: u64) -> (r: Reading)
    ensures
        r == reading_of(text@, places as nat, limit as nat),
{
    match scan(text) {
        None => Reading::Invalid,
        Some(layout) => {
            let (take, zeros) = plan(&layout, places, limit, Ghost(text@));
            let digits = tally_mantissa(text, &layout, take, limit);
            let all = tally_zeros(
                digits,
                zeros,
                limit as u128,
                Ghost(digits_value(mantissa(text@).take(take as int))),
            );
            if all.over {
                Reading::Beyond { negative: layout.negative }
            } else {
                Reading::Exact { negative: layout.negative, magnitude: all.value as u64 }
            }
        },
    }
}

} // verus!
