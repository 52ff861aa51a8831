//! Changing the rate of a stream of samples by an exact ratio.
//!
//! The ratio of the two rates is kept in lowest terms, and time is counted in
//! parts: as many to an input period as there are output samples in a cycle, and
//! as many to an output period as there are input samples in one.  The phase is
//! how many parts were counted since an output sample was due last.  An output
//! sample stands at the last part before it is due, somewhere between two
//! neighbouring input samples, so output samples are evenly spaced.
use vstd::prelude::*;

verus! {

/// An output sample that is due: it lies between the neighbours `prev` and `next`,
/// `phase` parts behind `prev` out of as many as [`Resampler::ratio_den`] tells.
#[derive(Clone, Copy, Debug, PartialEq, Eq, Structural)]
pub struct Tap {
    pub prev: u32,
    pub next: u32,
    pub phase: u32,
}

/// What a [`Resampler`] remembers.
pub struct ResamplerState {
    /// How many input samples there are in a cycle.
    pub num: int,
    /// How many output samples there are in a cycle.
    pub den: int,
    pub phase: int,
    /// The last input sample, and the one before it.
    pub last: u32,
    pub last2: u32,
    /// How many output samples a call may return.
    pub room: int,
}

/// Whether `g` is the greatest common divisor of `a` and `b`; that of zero and
/// zero is zero.
pub open spec fn is_gcd(g: int, a: int, b: int) -> bool {
    if a == 0 && b == 0 {
        g == 0
    } else {
        &&& g > 0
        &&& a % g == 0
        &&& b % g == 0
        &&& forall|d: int| 0 < d && #[trigger] (a % d) == 0 && b % d == 0 ==> d <= g
    }
}

/// The greatest common divisor of `a` and `b`.
pub open spec fn gcd_of(a: int, b: int) -> int {
    choose|g: int| is_gcd(g, a, b)
}

/// How many output samples may be due for one call at `in_rate` input samples
/// a second: twenty milliseconds' worth and sixteen more.
pub open spec fn output_room(in_rate: int) -> int {
    in_rate * 2 / 1000 * 10 + 16
}

/// The part at which the output sample `k` stands, counted from the first part of
/// the input.  It is negative where the sample was due before the input.
pub open spec fn part_of(s: ResamplerState, k: int) -> int {
    (k + 1) * s.num - s.phase - 1
}

/// The input sample in whose period the output sample `k` stands; the first one
/// where it was due before.
pub open spec fn crossing(s: ResamplerState, k: int) -> int {
    if part_of(s, k) < 0 || s.den == 0 {
        0
    } else {
        part_of(s, k) / s.den
    }
}

/// How many parts of that period lie before the output sample `k`; none where it
/// was due before.
pub open spec fn parts_before(s: ResamplerState, k: int) -> int {
    if part_of(s, k) < 0 || s.den == 0 {
        0
    } else {
        part_of(s, k) % s.den
    }
}

/// How many output samples are due after `n` input samples: one for every
/// whole input period that the phase has crossed, up to the room there is.
pub open spec fn due(s: ResamplerState, n: int) -> int {
    if n == 0 {
        0
    } else if s.num == 0 || (s.phase + n * s.den) / s.num > s.room {
        s.room
    } else {
        (s.phase + n * s.den) / s.num
    }
}

/// The phase with the input sample `i` counted, before the output samples that are
/// due with it are taken off.
pub open spec fn counted(s: ResamplerState, i: int) -> int {
    s.phase + (i + 1) * s.den - due(s, i) * s.num
}

/// Whether the phase can count `n` more input samples.
pub open spec fn can_count(s: ResamplerState, n: int) -> bool {
    forall|i: int| 0 <= i < n ==> #[trigger] counted(s, i) <= u64::MAX
}

/// The output sample `k`.
pub open spec fn tap_at(s: ResamplerState, input: Seq<u32>, k: int) -> Tap {
    let i = crossing(s, k);
    Tap {
        prev: if i == 0 {
            s.last
        } else {
            input[i - 1]
        },
        next: input[i],
        phase: parts_before(s, k) as u32,
    }
}

/// All output samples that are due for `input`.
pub open spec fn taps(s: ResamplerState, input: Seq<u32>) -> Seq<Tap> {
    Seq::new(due(s, input.len() as int) as nat, |k: int| tap_at(s, input, k))
}

/// What is remembered after `input`.
pub open spec fn advance(s: ResamplerState, input: Seq<u32>) -> ResamplerState {
    let n = input.len() as int;
    if n == 0 {
        s
    } else {
        ResamplerState {
            phase: s.phase + n * s.den - due(s, n) * s.num,
            last: input[n - 1],
            last2: if n == 1 {
                s.last
            } else {
                input[n - 2]
            },
            ..s
        }
    }
}

/// The state of a resampler at rest.
pub open spec fn first_state(in_rate: u32, out_rate: u32) -> ResamplerState {
    let gcd = gcd_of(in_rate as int, out_rate as int);
    ResamplerState {
        num: in_rate as int / gcd,
        den: out_rate as int / gcd,
        phase: 0,
        last: 0,
        last2: 0,
        room: output_room(in_rate as int),
    }
}

/// Turns a stream at one rate into a stream at another.
pub struct Resampler {
    ratio_num: u32,
    ratio_den: u32,
    phase: u64,
    last: u32,
    last2: u32,
    room: usize,
}

impl View for Resampler {
    type V = ResamplerState;

    closed spec fn view(&self) -> ResamplerState {
        ResamplerState {
            num: self.ratio_num as int,
            den: self.ratio_den as int,
            phase: self.phase as int,
            last: self.last,
            last2: self.last2,
            room: self.room as int,
        }
    }
}

impl Resampler {
    /// A resampler from `in_rate` to `out_rate` samples a second, at rest.
    pub fn new(in_rate: u32, out_rate: u32) -> (r: Self)
        requires
            in_rate != 0 || out_rate != 0,
            in_rate * 2 <= usize::MAX,
        ensures
            r@ == first_state(in_rate, out_rate),
            is_gcd(gcd_of(in_rate as int, out_rate as int), in_rate as int, out_rate as int),
            0 <= r@.num <= in_rate,
            0 <= r@.den <= out_rate,
            in_rate > 0 ==> has_ratio(r@),
    {
        let gcd: u32 = Self::gcd(in_rate, out_rate);
        let room: usize = ((in_rate as usize * 2) / 1000) * 10 + 16;
        proof {
            lemma_first_state(in_rate, out_rate, gcd as int);
        }
        Resampler {
            ratio_num: in_rate / gcd,
            ratio_den: out_rate / gcd,
            phase: 0,
            last: 0,
            last2: 0,
            room,
        }
    }

    /// The greatest common divisor of `a` and `b`: every common divisor divides it,
    /// and their order does not matter.
    pub fn gcd(a: u32, b: u32) -> (g: u32)
        ensures
            is_gcd(g as int, a as int, b as int),
            g == gcd_of(a as int, b as int),
            g == gcd_of(b as int, a as int),
            forall|d: int|
                0 < d && #[trigger] (a as int % d) == 0 && b as int % d == 0 ==> g as int % d == 0,
        decreases b,
    {
        if b == 0 {
            proof {
                if a != 0 {
                    assert forall|d: int| 0 < d && #[trigger] (a as int % d) == 0 && 0int % d
                        == 0 implies d <= a by {
                        lemma_divisor_is_smaller(a as int, d);
                    }
                }
                assert(is_gcd(a as int, a as int, b as int));
                lemma_gcd_facts(a as int, a as int, b as int);
            }
            a
        } else {
            proof {
                lemma_gcd_step(a as int, b as int);
            }
            let g: u32 = Self::gcd(b, a % b);
            proof {
                assert(is_gcd(g as int, a as int, b as int));
                lemma_gcd_facts(g as int, a as int, b as int);
            }
            g
        }
    }

    /// How many parts an input period has.
    pub fn ratio_den(&self) -> (n: u32)
        ensures
            n == self@.den,
    {
        self.ratio_den
    }

    /// Whether the phase can count `n` more input samples.
    pub fn can_take(&self, n: usize) -> (b: bool)
        ensures
            b == can_count(self@, n as int),
    {
        if n == 0 {
            return true;
        }
        let num: u128 = self.ratio_num as u128;
        let den: u128 = self.ratio_den as u128;
        let before: u128 = (n - 1) as u128;
        let room: u128 = self.room as u128;
        proof {
            assert(0 <= before * den <= 0xffff_ffff_ffff_ffff * 0xffff_ffff) by (nonlinear_arith)
                requires
                    0 <= before <= 0xffff_ffff_ffff_ffff,
                    0 <= den <= 0xffff_ffff,
            ;
        }
        let total: u128 = self.phase as u128 + before * den;
        let out: u128 = if before == 0 {
            0
        } else if num == 0 || total / num > room {
            room
        } else {
            total / num
        };
        proof {
            lemma_out_is_covered(total as int, num as int, out as int);
            lemma_last_counts_most(self@, n as int);
            assert(before as int == n - 1);
            assert((n - 1 + 1) * self@.den == (n - 1) * self@.den + self@.den)
                by (nonlinear_arith);
        }
        let first: u128 = self.phase as u128 + den;
        first <= u64::MAX as u128 && total - out * num + den <= u64::MAX as u128
    }

    /// Takes `input` and returns the output samples that are due.
    pub fn process(&mut self, input: &[u32]) -> (out: Vec<Tap>)
        requires
            can_count(old(self)@, input@.len() as int),
        ensures
            out@ == taps(old(self)@, input@),
            final(self)@ == advance(old(self)@, input@),
    {
        let ghost s = self@;
        let mut out: Vec<Tap> = Vec::new();
        let count: usize = input.len();
        if count == 0 {
            assert(out@ =~= taps(s, input@));
            return out;
        }
        proof {
            assert(0 * s.den == 0 && 0 * s.num == 0) by (nonlinear_arith);
        }
        let mut i: usize = 0;
        while i < count
            invariant
                0 <= i <= count == input@.len(),
                0 < count,
                s == old(self)@,
                self@ == (ResamplerState { phase: self.phase as int, ..s }),
                can_count(s, count as int),
                self.phase == s.phase + i * s.den - out@.len() * s.num,
                out@.len() <= s.room,
                s.num == 0 && i > 0 ==> out@.len() == s.room,
                i > 0 && out@.len() < s.room ==> self.phase < s.num,
                forall|k: int|
                    0 <= k < out@.len() ==> #[trigger] out@[k] == tap_at(s, input@, k),
            decreases count - i,
        {
            proof {
                assert((i + 1) * s.den == i * s.den + s.den) by (nonlinear_arith);
                if i > 0 {
                    lemma_due(s, i as int, out@.len() as int, self.phase as int);
                }
                assert(counted(s, i as int) <= u64::MAX);
                assert(0 <= out@.len() * s.num) by (nonlinear_arith)
                    requires
                        0 <= s.num,
                ;
                assert(0 <= i * s.den) by (nonlinear_arith)
                    requires
                        0 <= s.den,
                ;
            }
            let ghost emitted = out@.len();
            self.phase = self.phase + self.ratio_den as u64;
            while self.phase >= self.ratio_num as u64 && out.len() < self.room
                invariant
                    0 <= i < count == input@.len(),
                    self@ == (ResamplerState { phase: self.phase as int, ..s }),
                    self.phase == s.phase + (i + 1) * s.den - out@.len() * s.num,
                    emitted <= out@.len() <= s.room,
                    i > 0 && emitted < s.room ==> s.phase + i * s.den - emitted * s.num < s.num,
                    forall|k: int|
                        0 <= k < out@.len() ==> #[trigger] out@[k] == tap_at(s, input@, k),
                decreases s.room - out@.len(),
            {
                let ghost k = out@.len() as int;
                proof {
                    assert((k + 1) * s.num == k * s.num + s.num) by (nonlinear_arith);
                    assert(emitted * s.num <= k * s.num) by (nonlinear_arith)
                        requires
                            emitted <= k,
                            0 <= s.num,
                    ;
                    lemma_crossing(s, k, i as int);
                }
                self.phase = self.phase - self.ratio_num as u64;
                let prev: u32 = if i == 0 {
                    self.last
                } else {
                    input[i - 1]
                };
                let phase: u32 = if self.phase < self.ratio_den as u64 {
                    (self.ratio_den - 1) - self.phase as u32
                } else {
                    0
                };
                out.push(Tap { prev, next: input[i], phase });
            }
            i = i + 1;
        }
        self.last2 = if count >= 2 {
            input[count - 2]
        } else {
            self.last
        };
        self.last = input[count - 1];
        proof {
            lemma_due(s, count as int, out@.len() as int, self.phase as int);
            assert(out@ =~= taps(s, input@));
        }
        out
    }
}

/// An input sample with which the output sample `k` is due, and with none before,
/// is the one that [`crossing`] computes.
proof fn lemma_crossing(s: ResamplerState, k: int, i: int)
    requires
        0 <= i,
        0 <= s.den,
        s.phase + (i + 1) * s.den >= (k + 1) * s.num,
        i == 0 || s.phase + i * s.den < (k + 1) * s.num,
    ensures
        crossing(s, k) == i,
        ({
            let rest = s.phase + (i + 1) * s.den - (k + 1) * s.num;
            parts_before(s, k) == if rest < s.den {
                s.den - 1 - rest
            } else {
                0
            }
        }),
{
    let part = part_of(s, k);
    assert((i + 1) * s.den == i * s.den + s.den) by (nonlinear_arith);
    assert(i == 0 ==> i * s.den == 0) by (nonlinear_arith);
    assert(s.den == 0 ==> i * s.den == 0) by (nonlinear_arith);
    if part >= 0 && s.den > 0 {
        vstd::arithmetic::div_mod::lemma_fundamental_div_mod_converse(
            part,
            s.den,
            i,
            part - i * s.den,
        );
    } else if i > 0 {
        assert(0 <= i * s.den) by (nonlinear_arith)
            requires
                0 <= i,
                0 <= s.den,
        ;
    }
}

/// The number of output samples that leaves less than a period, or fills the
/// room, is the number that is due.
proof fn lemma_due(s: ResamplerState, n: int, count: int, rest: int)
    requires
        0 < n,
        0 <= count <= s.room,
        0 <= s.num,
        0 <= rest,
        rest == s.phase + n * s.den - count * s.num,
        s.num == 0 ==> count == s.room,
        count < s.room ==> rest < s.num,
    ensures
        due(s, n) == count,
{
    let total = s.phase + n * s.den;
    if s.num > 0 {
        if count < s.room {
            vstd::arithmetic::div_mod::lemma_fundamental_div_mod_converse(
                total,
                s.num,
                count,
                rest,
            );
        } else {
            assert(total / s.num >= count) by (nonlinear_arith)
                requires
                    total >= count * s.num,
                    s.num > 0,
            ;
        }
    }
}

/// No divisor of a positive number exceeds it.
proof fn lemma_divisor_is_smaller(a: int, d: int)
    requires
        0 < a,
        0 < d,
        a % d == 0,
    ensures
        d <= a,
{
    if d > a {
        vstd::arithmetic::div_mod::lemma_small_mod(a as nat, d as nat);
    }
}

/// A common divisor of `b` and any number divides that number exactly when it
/// divides the number's remainder by `b`.
proof fn lemma_divides_remainder(a: int, b: int, d: int)
    requires
        0 <= a,
        0 < b,
        0 < d,
        b % d == 0,
    ensures
        a % d == (a % b) % d,
{
    vstd::arithmetic::div_mod::lemma_fundamental_div_mod(a, b);
    vstd::arithmetic::div_mod::lemma_fundamental_div_mod(b, d);
    let q = a / b;
    let m = b / d;
    assert(b * q == d * (m * q)) by (nonlinear_arith)
        requires
            b == d * m,
    ;
    vstd::arithmetic::div_mod::lemma_mod_multiples_vanish(m * q, a % b, d);
}

/// One step of Euclid's algorithm keeps the greatest common divisor.
proof fn lemma_gcd_step(a: int, b: int)
    requires
        0 <= a,
        0 < b,
    ensures
        forall|g: int| is_gcd(g, b, a % b) ==> is_gcd(g, a, b),
{
    assert forall|g: int| is_gcd(g, b, a % b) implies is_gcd(g, a, b) by {
        lemma_divides_remainder(a, b, g);
        assert forall|d: int| 0 < d && #[trigger] (a % d) == 0 && b % d == 0 implies d <= g by {
            lemma_divides_remainder(a, b, d);
            assert((a % b) % d == 0);
            assert(b % d == 0);
        }
    }
}

/// Whether these are the numbers of a resampler for two rates of which the first
/// is not zero.
pub open spec fn has_ratio(s: ResamplerState) -> bool {
    &&& 0 < s.num <= u32::MAX
    &&& 0 <= s.den <= u32::MAX
    &&& 0 <= s.phase
    &&& 0 <= s.room <= output_room(u32::MAX as int)
}

/// Whether all output samples that are due after `n` input samples find room.
pub open spec fn has_room(s: ResamplerState, n: int) -> bool {
    (s.phase + n * s.den) / s.num <= s.room
}

/// Two rates have one greatest common divisor, so they determine the ratio.
pub proof fn lemma_one_gcd(g: int, h: int, a: int, b: int)
    requires
        is_gcd(g, a, b),
        is_gcd(h, a, b),
    ensures
        g == h,
{
    if a != 0 || b != 0 {
        assert(a % g == 0 && b % g == 0);
        assert(a % h == 0 && b % h == 0);
    }
}

/// Every common divisor divides the greatest one.
pub proof fn lemma_common_divisor(g: int, a: int, b: int, d: int)
    requires
        0 <= a,
        0 <= b,
        is_gcd(g, a, b),
        0 < d,
        a % d == 0,
        b % d == 0,
    ensures
        g % d == 0,
    decreases b,
{
    if b > 0 {
        let r = a % b;
        vstd::arithmetic::div_mod::lemma_mod_bound(a, b);
        lemma_divides_remainder(a, b, g);
        lemma_divides_remainder(a, b, d);
        assert forall|e: int| 0 < e && #[trigger] (b % e) == 0 && r % e == 0 implies e <= g by {
            lemma_divides_remainder(a, b, e);
            assert(a % e == 0);
        }
        lemma_common_divisor(g, b, r, d);
    } else if a > 0 {
        lemma_divisor_is_smaller(a, g);
        assert(a % a == 0 && b % a == 0) by (nonlinear_arith)
            requires
                0 < a,
                b == 0,
        ;
    }
}

/// The order of the two numbers does not matter to their greatest common divisor.
pub proof fn lemma_gcd_order(g: int, a: int, b: int)
    ensures
        is_gcd(g, a, b) <==> is_gcd(g, b, a),
{
    if is_gcd(g, a, b) && (a != 0 || b != 0) {
        assert forall|d: int| 0 < d && #[trigger] (b % d) == 0 && a % d == 0 implies d <= g by {
            assert(a % d == 0);
        }
    }
    if is_gcd(g, b, a) && (a != 0 || b != 0) {
        assert forall|d: int| 0 < d && #[trigger] (a % d) == 0 && b % d == 0 implies d <= g by {
            assert(b % d == 0);
        }
    }
}

/// What a greatest common divisor is besides.
proof fn lemma_gcd_facts(g: int, a: int, b: int)
    requires
        0 <= a,
        0 <= b,
        is_gcd(g, a, b),
    ensures
        g == gcd_of(a, b),
        g == gcd_of(b, a),
        forall|d: int| 0 < d && #[trigger] (a % d) == 0 && b % d == 0 ==> g % d == 0,
{
    lemma_one_gcd(g, gcd_of(a, b), a, b);
    lemma_gcd_order(g, a, b);
    lemma_one_gcd(g, gcd_of(b, a), b, a);
    assert forall|d: int| 0 < d && #[trigger] (a % d) == 0 && b % d == 0 implies g % d == 0 by {
        lemma_common_divisor(g, a, b, d);
    }
}

/// Any two numbers that are not negative have a greatest common divisor.
pub proof fn lemma_gcd_exists(a: int, b: int)
    requires
        0 <= a,
        0 <= b,
    ensures
        is_gcd(gcd_of(a, b), a, b),
    decreases b,
{
    if b > 0 {
        vstd::arithmetic::div_mod::lemma_mod_bound(a, b);
        lemma_gcd_exists(b, a % b);
        lemma_gcd_step(a, b);
        assert(is_gcd(gcd_of(b, a % b), a, b));
    } else {
        if a > 0 {
            assert forall|d: int| 0 < d && #[trigger] (a % d) == 0 && b % d == 0 implies d
                <= a by {
                lemma_divisor_is_smaller(a, d);
            }
            assert(a % a == 0 && b % a == 0) by (nonlinear_arith)
                requires
                    0 < a,
                    b == 0,
            ;
        }
        assert(is_gcd(a, a, b));
    }
}

/// A resampler at rest has the numbers that its rates determine.
proof fn lemma_first_state(in_rate: u32, out_rate: u32, g: int)
    requires
        in_rate != 0 || out_rate != 0,
        is_gcd(g, in_rate as int, out_rate as int),
    ensures
        g == gcd_of(in_rate as int, out_rate as int),
        0 <= first_state(in_rate, out_rate).num <= in_rate,
        0 <= first_state(in_rate, out_rate).den <= out_rate,
        in_rate > 0 ==> has_ratio(first_state(in_rate, out_rate)),
{
    lemma_one_gcd(
        g,
        gcd_of(in_rate as int, out_rate as int),
        in_rate as int,
        out_rate as int,
    );
    vstd::arithmetic::div_mod::lemma_div_is_ordered_by_denominator(in_rate as int, 1, g);
    vstd::arithmetic::div_mod::lemma_div_is_ordered_by_denominator(out_rate as int, 1, g);
    lemma_lowest_terms(g, in_rate as int, out_rate as int);
    assert(in_rate > 0 ==> in_rate as int / g > 0) by (nonlinear_arith)
        requires
            (in_rate as int / g) * g == in_rate,
            g > 0,
    ;
}

/// The ratio is in lowest terms: its two numbers have no common divisor but
/// one, and relate as the rates do.
pub proof fn lemma_lowest_terms(g: int, in_rate: int, out_rate: int)
    requires
        0 <= in_rate,
        0 <= out_rate,
        0 < in_rate + out_rate,
        is_gcd(g, in_rate, out_rate),
    ensures
        is_gcd(1, in_rate / g, out_rate / g),
        (in_rate / g) * out_rate == (out_rate / g) * in_rate,
        (in_rate / g) * g == in_rate,
        (out_rate / g) * g == out_rate,
{
    let num = in_rate / g;
    let den = out_rate / g;
    vstd::arithmetic::div_mod::lemma_fundamental_div_mod(in_rate, g);
    vstd::arithmetic::div_mod::lemma_fundamental_div_mod(out_rate, g);
    assert(in_rate == g * num && out_rate == g * den);
    assert(num * g == g * num && den * g == g * den) by (nonlinear_arith);
    assert(num * out_rate == den * in_rate) by (nonlinear_arith)
        requires
            in_rate == g * num,
            out_rate == g * den,
    ;
    assert(num != 0 || den != 0) by (nonlinear_arith)
        requires
            in_rate == g * num,
            out_rate == g * den,
            0 < in_rate + out_rate,
    ;
    assert forall|d: int| 0 < d && #[trigger] (num % d) == 0 && den % d == 0 implies d <= 1 by {
        let a = num / d;
        let b = den / d;
        vstd::arithmetic::div_mod::lemma_fundamental_div_mod(num, d);
        vstd::arithmetic::div_mod::lemma_fundamental_div_mod(den, d);
        let e = g * d;
        assert(0 < e && in_rate == e * a && out_rate == e * b) by (nonlinear_arith)
            requires
                0 < g,
                0 < d,
                e == g * d,
                in_rate == g * num,
                out_rate == g * den,
                num == d * a,
                den == d * b,
        ;
        vstd::arithmetic::div_mod::lemma_mod_multiples_basic(a, e);
        vstd::arithmetic::div_mod::lemma_mod_multiples_basic(b, e);
        assert(a * e == e * a && b * e == e * b) by (nonlinear_arith);
        assert(in_rate % e == 0 && out_rate % e == 0);
        assert(e <= g);
        assert(d <= 1) by (nonlinear_arith)
            requires
                g * d <= g,
                0 < g,
        ;
    }
    assert(num % 1 == 0 && den % 1 == 0);
}

/// What is remembered after a run of calls.
pub open spec fn after_calls(s: ResamplerState, calls: Seq<Seq<u32>>) -> ResamplerState
    decreases calls.len(),
{
    if calls.len() == 0 {
        s
    } else {
        advance(after_calls(s, calls.drop_last()), calls.last())
    }
}

/// The output samples that a run of calls returned.
pub open spec fn taps_of_calls(s: ResamplerState, calls: Seq<Seq<u32>>) -> Seq<Tap>
    decreases calls.len(),
{
    if calls.len() == 0 {
        Seq::empty()
    } else {
        taps_of_calls(s, calls.drop_last()) + taps_of_last(s, calls)
    }
}

/// The output samples that the last of a run of calls returned.
pub open spec fn taps_of_last(s: ResamplerState, calls: Seq<Seq<u32>>) -> Seq<Tap> {
    taps(after_calls(s, calls.drop_last()), calls.last())
}

/// How many input samples a run of calls took.
pub open spec fn samples_of_calls(calls: Seq<Seq<u32>>) -> int
    decreases calls.len(),
{
    if calls.len() == 0 {
        0
    } else {
        samples_of_calls(calls.drop_last()) + calls.last().len()
    }
}

/// What finds no room in a call is owed to the next ones and not lost: over any
/// run of calls the phase holds every part that was counted and not yet used, and
/// it is less than an output period unless the last call returned as much as
/// there is room for.
pub proof fn lemma_nothing_is_lost(s: ResamplerState, calls: Seq<Seq<u32>>)
    requires
        has_ratio(s),
    ensures
        ({
            let t = after_calls(s, calls);
            &&& has_ratio(t)
            &&& (t.num, t.den, t.room) == (s.num, s.den, s.room)
            &&& t.phase == s.phase + samples_of_calls(calls) * s.den - taps_of_calls(
                s,
                calls,
            ).len() * s.num
            &&& calls.len() > 0 ==> taps_of_last(s, calls).len() <= s.room
            &&& calls.len() > 0 && calls.last().len() > 0 && taps_of_last(s, calls).len() < s.room
                ==> t.phase < s.num
        }),
    decreases calls.len(),
{
    assert(0 * s.den == 0 && 0 * s.num == 0) by (nonlinear_arith);
    if calls.len() > 0 {
        let before = calls.drop_last();
        lemma_nothing_is_lost(s, before);
        let b = after_calls(s, before);
        let n = calls.last().len() as int;
        let taken = samples_of_calls(before);
        let given = taps_of_calls(s, before).len() as int;
        lemma_due_is_covered(b, n);
        let d = due(b, n);
        assert((taken + n) * s.den == taken * s.den + n * s.den && (given + d) * s.num == given
            * s.num + d * s.num) by (nonlinear_arith);
        assert(taps_of_last(s, calls).len() == d);
    }
}

/// From rest, a run of calls with `n` input samples at `in_rate` returns
/// `n * out_rate / in_rate` output samples, rounded down, unless the last of them
/// returned as much as there is room for; then it has returned no more than that.
pub proof fn lemma_output_rate(in_rate: u32, out_rate: u32, calls: Seq<Seq<u32>>)
    requires
        0 < in_rate,
        calls.len() > 0,
        calls.last().len() > 0,
    ensures
        ({
            let s = first_state(in_rate, out_rate);
            let n = samples_of_calls(calls);
            let out = taps_of_calls(s, calls).len();
            let last = taps_of_last(s, calls).len();
            &&& last <= output_room(in_rate as int)
            &&& out <= n * out_rate / in_rate as int
            &&& last < output_room(in_rate as int) ==> out == n * out_rate / in_rate as int
        }),
{
    let s = first_state(in_rate, out_rate);
    lemma_gcd_exists(in_rate as int, out_rate as int);
    let g = gcd_of(in_rate as int, out_rate as int);
    lemma_first_state(in_rate, out_rate, g);
    lemma_nothing_is_lost(s, calls);
    lemma_lowest_terms(g, in_rate as int, out_rate as int);
    let in_rate = in_rate as int;
    let out_rate = out_rate as int;
    let n = samples_of_calls(calls);
    let out = taps_of_calls(s, calls).len() as int;
    let rest = after_calls(s, calls).phase;
    assert(n * out_rate == out * in_rate + rest * g) by (nonlinear_arith)
        requires
            n * s.den == out * s.num + rest,
            s.num * g == in_rate,
            s.den * g == out_rate,
    ;
    assert(0 <= rest * g) by (nonlinear_arith)
        requires
            0 <= rest,
            0 < g,
    ;
    assert(out <= n * out_rate / in_rate) by (nonlinear_arith)
        requires
            n * out_rate >= out * in_rate,
            0 < in_rate,
    ;
    if rest < s.num {
        assert(rest * g < in_rate) by (nonlinear_arith)
            requires
                rest < s.num,
                0 < g,
                s.num * g == in_rate,
        ;
        vstd::arithmetic::div_mod::lemma_fundamental_div_mod_converse(
            n * out_rate,
            in_rate,
            out,
            rest * g,
        );
    }
}

/// Every output sample lies between its two neighbours, and output samples are
/// evenly spaced: from one to the next there are as many parts as an output period
/// has.  One that was due before the input counts as standing at its start.
pub proof fn lemma_evenly_spaced(s: ResamplerState, input: Seq<u32>, k: int)
    requires
        has_ratio(s),
        0 < s.den,
        0 <= k < taps(s, input).len(),
    ensures
        0 <= crossing(s, k) < input.len(),
        taps(s, input)[k].phase < s.den,
        s.phase < (k + 1) * s.num && k + 1 < taps(s, input).len() ==> s.den * (crossing(s, k + 1)
            - crossing(s, k)) + (taps(s, input)[k + 1].phase - taps(s, input)[k].phase) == s.num,
{
    let n = input.len() as int;
    lemma_crossing_is_first(s, n, k);
    lemma_tap_phase(s, k);
    if s.phase < (k + 1) * s.num && k + 1 < taps(s, input).len() {
        lemma_tap_phase(s, k + 1);
        assert((k + 2) * s.num == (k + 1) * s.num + s.num) by (nonlinear_arith);
        let a = crossing(s, k);
        let b = crossing(s, k + 1);
        assert(s.den * (b - a) == s.den * b - s.den * a) by (nonlinear_arith);
    }
}

/// From rest, and to a lower rate, a ramp stays a ramp: where the input rises by
/// `d` from sample to sample, the output rises by `d` times the ratio of the rates.
/// What is between two samples is weighed in parts, so everything is stated of as
/// many times its value as an input period has parts.
pub proof fn lemma_ramp(s: ResamplerState, input: Seq<u32>, k: int, d: int)
    requires
        has_ratio(s),
        0 < s.den < s.num,
        s.phase == 0,
        0 <= k < taps(s, input).len(),
    ensures
        ({
            let i = crossing(s, k);
            let tap = taps(s, input)[k];
            &&& 1 <= i < input.len()
            &&& (tap.prev, tap.next) == (input[i - 1], input[i])
            &&& d * (i - 1) * (s.den - tap.phase) + d * i * tap.phase == d * (s.num - s.den - 1 + k
                * s.num)
        }),
{
    lemma_crossing_is_first(s, input.len() as int, k);
    lemma_tap_phase(s, k);
    let i = crossing(s, k);
    let f = taps(s, input)[k].phase as int;
    assert((k + 1) * s.num == k * s.num + s.num && 0 <= k * s.num) by (nonlinear_arith)
        requires
            0 <= k,
            0 < s.num,
    ;
    assert(i >= 1) by (nonlinear_arith)
        requires
            s.den * i + f >= s.den,
            f < s.den,
            0 < s.den,
    ;
    assert(d * (i - 1) * (s.den - f) + d * i * f == d * (s.den * i + f - s.den))
        by (nonlinear_arith);
}

/// When the rate does not rise, no call with at most as many samples as there
/// is room for is ever short of room, and the phase stays below an output period.
pub proof fn lemma_lower_rate_has_room(s: ResamplerState, input: Seq<u32>)
    requires
        has_ratio(s),
        s.den <= s.num,
        s.phase < s.num,
        input.len() <= s.room,
    ensures
        has_room(s, input.len() as int),
        due(s, input.len() as int) <= input.len(),
        0 <= advance(s, input).phase < s.num,
{
    let n = input.len() as int;
    let total = s.phase + n * s.den;
    assert(0 <= n * s.den <= n * s.num) by (nonlinear_arith)
        requires
            0 <= s.den <= s.num,
            0 <= n,
    ;
    assert((n + 1) * s.num == n * s.num + s.num) by (nonlinear_arith);
    assert(total / s.num <= n) by (nonlinear_arith)
        requires
            0 <= total < (n + 1) * s.num,
            0 < s.num,
    ;
    lemma_due_is_covered(s, n);
    vstd::arithmetic::div_mod::lemma_fundamental_div_mod(total, s.num);
    vstd::arithmetic::div_mod::lemma_mod_bound(total, s.num);
    if n > 0 {
        assert(due(s, n) * s.num == s.num * (total / s.num)) by (nonlinear_arith)
            requires
                due(s, n) == total / s.num,
        ;
    }
}

/// Where the stream is cut does not matter: two calls return together what one
/// call on the joined input returns, and leave the same behind, so long as
/// there is room for all of it.  The phase can count all of these, and an empty
/// call returns nothing and changes nothing.
pub proof fn lemma_chunks(s: ResamplerState, a: Seq<u32>, b: Seq<u32>)
    requires
        has_ratio(s),
        has_room(s, (a + b).len() as int),
    ensures
        can_count(s, a.len() as int),
        can_count(advance(s, a), b.len() as int),
        can_count(s, (a + b).len() as int),
        taps(s, a + b) == taps(s, a) + taps(advance(s, a), b),
        advance(s, a + b) == advance(advance(s, a), b),
        a.len() == 0 ==> taps(s, a) == Seq::<Tap>::empty() && advance(s, a) == s,
{
    let na = a.len() as int;
    let nb = b.len() as int;
    let t = advance(s, a);
    lemma_room_is_bounded(s, na + nb);
    lemma_due_is_covered(s, na);
    assert((na + nb) * s.den == na * s.den + nb * s.den && 0 <= na * s.den && 0 <= nb * s.den)
        by (nonlinear_arith)
        requires
            0 <= na,
            0 <= nb,
            0 <= s.den,
    ;
    assert(0 <= due(s, na) * s.num) by (nonlinear_arith)
        requires
            0 <= due(s, na),
            0 < s.num,
    ;
    lemma_bounded_can_count(s, na);
    lemma_bounded_can_count(t, nb);
    lemma_bounded_can_count(s, na + nb);
    if na == 0 {
        assert(a + b =~= b);
        assert(taps(s, a) + taps(t, b) =~= taps(s, b));
    } else if nb == 0 {
        assert(a + b =~= a);
        assert(taps(s, a) + taps(t, b) =~= taps(s, a));
    } else {
        let total = s.phase + (na + nb) * s.den;
        let part = s.phase + na * s.den;
        vstd::arithmetic::div_mod::lemma_div_is_ordered(part, total, s.num);
        vstd::arithmetic::div_mod::lemma_div_pos_is_pos(part, s.num);
        let ca = part / s.num;
        assert(due(s, na) == ca);
        vstd::arithmetic::div_mod::lemma_fundamental_div_mod(part, s.num);
        vstd::arithmetic::div_mod::lemma_mod_bound(part, s.num);
        assert(ca * s.num == s.num * ca) by (nonlinear_arith);
        assert(t.phase == part % s.num);
        let cb = total / s.num - ca;
        vstd::arithmetic::div_mod::lemma_fundamental_div_mod(total, s.num);
        vstd::arithmetic::div_mod::lemma_mod_bound(total, s.num);
        assert(t.phase + nb * t.den == s.num * cb + total % s.num) by (nonlinear_arith)
            requires
                t.phase + nb * t.den == total - ca * s.num,
                total == s.num * (total / s.num) + total % s.num,
                cb == total / s.num - ca,
        ;
        assert(cb * s.num == s.num * cb) by (nonlinear_arith);
        vstd::arithmetic::div_mod::lemma_fundamental_div_mod_converse(
            t.phase + nb * t.den,
            s.num,
            cb,
            total % s.num,
        );
        assert(due(t, nb) == cb);
        assert(due(s, na + nb) == ca + cb);
        assert((ca + cb) * s.num == ca * s.num + cb * s.num) by (nonlinear_arith);
        assert(advance(s, a + b) == advance(t, b));
        assert forall|k: int| 0 <= k < ca + cb implies #[trigger] taps(s, a + b)[k] == (taps(s, a)
            + taps(t, b))[k] by {
            lemma_crossing_is_first(s, na + nb, k);
            let i = crossing(s, k);
            if k < ca {
                lemma_crossing_is_first(s, na, k);
            } else {
                let j = k - ca;
                lemma_crossing_is_first(t, nb, j);
                let m = crossing(t, j);
                assert((na + m + 1) * s.den == na * s.den + (m + 1) * s.den && (na + m) * s.den
                    == na * s.den + m * s.den && (j + 1) * s.num == (k + 1) * s.num - ca * s.num)
                    by (nonlinear_arith)
                    requires
                        j == k - ca,
                ;
                if m == 0 {
                    assert(0 * s.den == 0) by (nonlinear_arith);
                    assert((k + 1) * s.num >= (ca + 1) * s.num) by (nonlinear_arith)
                        requires
                            k >= ca,
                            0 < s.num,
                    ;
                    assert((ca + 1) * s.num == ca * s.num + s.num) by (nonlinear_arith);
                }
                lemma_crossing(s, k, na + m);
                lemma_crossing(t, j, m);
            }
        }
        assert(taps(s, a + b) =~= taps(s, a) + taps(t, b));
    }
}

/// What is due has been counted, and what is left is less than an output period
/// unless the room is full.
proof fn lemma_due_is_covered(s: ResamplerState, n: int)
    requires
        has_ratio(s),
        0 <= n,
    ensures
        0 <= due(s, n) <= s.room,
        due(s, n) * s.num <= s.phase + n * s.den,
        0 < n && due(s, n) < s.room ==> s.phase + n * s.den - due(s, n) * s.num < s.num,
{
    let total = s.phase + n * s.den;
    assert(0 <= n * s.den) by (nonlinear_arith)
        requires
            0 <= n,
            0 <= s.den,
    ;
    assert(0 * s.num == 0) by (nonlinear_arith);
    vstd::arithmetic::div_mod::lemma_fundamental_div_mod(total, s.num);
    vstd::arithmetic::div_mod::lemma_mod_bound(total, s.num);
    vstd::arithmetic::div_mod::lemma_div_pos_is_pos(total, s.num);
    let q = total / s.num;
    assert(s.num * q == q * s.num) by (nonlinear_arith);
    assert(s.room <= q ==> s.room * s.num <= q * s.num) by (nonlinear_arith)
        requires
            0 < s.num,
    ;
}

/// Where all that is due finds room, all that is counted is a number of sixty-four
/// bits.
proof fn lemma_room_is_bounded(s: ResamplerState, n: int)
    requires
        has_ratio(s),
        0 <= n,
        has_room(s, n),
    ensures
        s.phase + n * s.den <= u64::MAX,
{
    let total = s.phase + n * s.den;
    vstd::arithmetic::div_mod::lemma_fundamental_div_mod(total, s.num);
    vstd::arithmetic::div_mod::lemma_mod_bound(total, s.num);
    let q = total / s.num;
    assert(s.num * q <= 0xffff_ffff * 85_899_356) by (nonlinear_arith)
        requires
            0 < s.num <= 0xffff_ffff,
            q <= 85_899_356,
    ;
}

/// The phase can count what is a number of sixty-four bits even with nothing taken
/// off.
pub proof fn lemma_bounded_can_count(s: ResamplerState, n: int)
    requires
        has_ratio(s),
        0 <= n,
        s.phase + n * s.den <= u64::MAX,
    ensures
        can_count(s, n),
{
    assert forall|i: int| 0 <= i < n implies #[trigger] counted(s, i) <= u64::MAX by {
        lemma_due_is_covered(s, i);
        assert((i + 1) * s.den <= n * s.den && 0 <= due(s, i) * s.num) by (nonlinear_arith)
            requires
                i + 1 <= n,
                0 <= s.den,
                0 <= due(s, i),
                0 < s.num,
        ;
    }
}

/// What is taken off was counted.
proof fn lemma_out_is_covered(total: int, num: int, out: int)
    requires
        0 <= total,
        0 <= num,
        0 <= out,
        out == 0 || num == 0 || out <= total / num,
    ensures
        0 <= out * num <= total,
{
    assert(0 <= out * num) by (nonlinear_arith)
        requires
            0 <= out,
            0 <= num,
    ;
    assert(out == 0 || num == 0 ==> out * num == 0) by (nonlinear_arith);
    if out != 0 && num != 0 {
        vstd::arithmetic::div_mod::lemma_fundamental_div_mod(total, num);
        vstd::arithmetic::div_mod::lemma_mod_bound(total, num);
        assert(out * num <= num * (total / num)) by (nonlinear_arith)
            requires
                out <= total / num,
                0 < num,
        ;
    }
}

/// If the phase can count the first and the last of some input samples, it can count
/// all of them.
proof fn lemma_last_counts_most(s: ResamplerState, n: int)
    requires
        0 < n,
        0 <= s.num <= u32::MAX,
        0 <= s.den <= u32::MAX,
        0 <= s.phase,
        0 <= s.room,
    ensures
        can_count(s, n) <==> counted(s, 0) <= u64::MAX && counted(s, n - 1) <= u64::MAX,
        counted(s, 0) == s.phase + s.den,
{
    assert((0 + 1) * s.den == s.den && 0 * s.num == 0) by (nonlinear_arith);
    if counted(s, 0) <= u64::MAX && counted(s, n - 1) <= u64::MAX {
        assert forall|i: int| 0 <= i < n implies #[trigger] counted(s, i) <= u64::MAX by {
            let total = s.phase + i * s.den;
            let most = s.phase + (n - 1) * s.den;
            assert((i + 1) * s.den == i * s.den + s.den && (n - 1 + 1) * s.den == (n - 1) * s.den
                + s.den && 0 <= i * s.den <= (n - 1) * s.den) by (nonlinear_arith)
                requires
                    0 <= i <= n - 1,
                    0 <= s.den,
            ;
            if 0 < i {
                if s.num > 0 && total / s.num <= s.room {
                    vstd::arithmetic::div_mod::lemma_fundamental_div_mod(total, s.num);
                    vstd::arithmetic::div_mod::lemma_mod_bound(total, s.num);
                    assert((total / s.num) * s.num == s.num * (total / s.num)) by (nonlinear_arith);
                } else if s.num > 0 {
                    vstd::arithmetic::div_mod::lemma_div_is_ordered(total, most, s.num);
                }
            }
        }
    }
}

/// The tap of the output sample `k` holds its part within an input period.
proof fn lemma_tap_phase(s: ResamplerState, k: int)
    requires
        has_ratio(s),
        0 < s.den,
        0 <= k,
    ensures
        forall|input: Seq<u32>| (#[trigger] tap_at(s, input, k)).phase == parts_before(s, k),
        0 <= parts_before(s, k) < s.den,
        part_of(s, k) >= 0 ==> s.den * crossing(s, k) + parts_before(s, k) == part_of(s, k),
{
    if part_of(s, k) >= 0 {
        vstd::arithmetic::div_mod::lemma_fundamental_div_mod(part_of(s, k), s.den);
        vstd::arithmetic::div_mod::lemma_mod_bound(part_of(s, k), s.den);
    }
}

/// The output sample `k`, when it is due, is due within the input, and not one
/// input sample earlier.
proof fn lemma_crossing_is_first(s: ResamplerState, n: int, k: int)
    requires
        has_ratio(s),
        0 <= k < due(s, n),
        0 < n,
    ensures
        0 <= crossing(s, k) < n,
        s.phase + (crossing(s, k) + 1) * s.den >= (k + 1) * s.num,
        crossing(s, k) == 0 || s.phase + crossing(s, k) * s.den < (k + 1) * s.num,
{
    let total = s.phase + n * s.den;
    let missing = (k + 1) * s.num - s.phase;
    vstd::arithmetic::div_mod::lemma_fundamental_div_mod(total, s.num);
    vstd::arithmetic::div_mod::lemma_mod_bound(total, s.num);
    assert((k + 1) * s.num <= total) by (nonlinear_arith)
        requires
            k + 1 <= total / s.num,
            total == s.num * (total / s.num) + total % s.num,
            0 <= total % s.num,
            0 < s.num,
    ;
    if missing <= 0 {
        assert((0 + 1) * s.den == s.den) by (nonlinear_arith);
    } else {
        assert(s.den > 0) by (nonlinear_arith)
            requires
                0 < missing <= n * s.den,
                0 < n,
                0 <= s.den,
        ;
        let i = (missing - 1) / s.den;
        vstd::arithmetic::div_mod::lemma_fundamental_div_mod(missing - 1, s.den);
        vstd::arithmetic::div_mod::lemma_mod_bound(missing - 1, s.den);
        assert(i * s.den == s.den * i && (i + 1) * s.den == s.den * i + s.den)
            by (nonlinear_arith);
        vstd::arithmetic::div_mod::lemma_div_pos_is_pos(missing - 1, s.den);
        assert(i < n) by (nonlinear_arith)
            requires
                s.den * i < n * s.den,
                0 < s.den,
        ;
    }
}

/// Where every output sample stands.  Time is counted in parts: input sample `i` takes
/// the parts from `den * i` on, and output sample `k` stands at the last of the parts
/// that it waits for, which are `num` for each output sample less what the phase holds.
/// It is between the input sample of that part and the one before, and as far behind
/// the one before as there are parts of the period before it.  One that was due before
/// stands at the start.
pub proof fn lemma_tap(s: ResamplerState, input: Seq<u32>, k: int)
    requires
        has_ratio(s),
        0 < s.den,
        0 <= k < taps(s, input).len(),
    ensures
        ({
            let tap = taps(s, input)[k];
            let part = (k + 1) * s.num - s.phase - 1;
            &&& tap.phase < s.den
            &&& part < 0 ==> (tap.prev, tap.next, tap.phase) == (s.last, input[0], 0u32)
            &&& part >= 0 ==> exists|i: int|
                0 <= i < input.len() && #[trigger] input[i] == tap.next && s.den * i + tap.phase
                    == part && tap.prev == if i == 0 {
                    s.last
                } else {
                    input[i - 1]
                }
        }),
{
    lemma_crossing_is_first(s, input.len() as int, k);
    lemma_tap_phase(s, k);
    let i = crossing(s, k);
    assert(input[i] == taps(s, input)[k].next);
}

/// How many output samples a call returns: as many as whole output periods were
/// counted, or as many as there is room for.  What is counted and not used is kept, and
/// so are the last two samples.
pub proof fn lemma_call(s: ResamplerState, input: Seq<u32>)
    requires
        has_ratio(s),
        input.len() > 0,
    ensures
        ({
            let out = taps(s, input).len();
            let t = advance(s, input);
            let total = s.phase + input.len() * s.den;
            &&& out <= s.room
            &&& out * s.num <= total
            &&& out == s.room || (out + 1) * s.num > total
            &&& t.phase == total - out * s.num
            &&& (t.num, t.den, t.room) == (s.num, s.den, s.room)
            &&& t.last == input[input.len() - 1]
            &&& t.last2 == if input.len() == 1 {
                s.last
            } else {
                input[input.len() - 2]
            }
        }),
{
    let n = input.len() as int;
    lemma_due_is_covered(s, n);
    let d = due(s, n);
    assert((d + 1) * s.num == d * s.num + s.num) by (nonlinear_arith);
}

/// A resampler at rest: the ratio of its rates in lowest terms, nothing counted, silence
/// before the first sample, and room for twenty milliseconds and sixteen samples more.
pub proof fn lemma_at_rest(in_rate: u32, out_rate: u32)
    requires
        in_rate > 0,
    ensures
        ({
            let s = first_state(in_rate, out_rate);
            &&& has_ratio(s)
            &&& s.num * out_rate == s.den * in_rate
            &&& is_gcd(1, s.num, s.den)
            &&& (s.phase, s.last, s.last2) == (0int, 0u32, 0u32)
            &&& 1000 * ((s.room - 16) / 10) <= 2 * in_rate < 1000 * ((s.room - 16) / 10) + 1000
            &&& (s.room - 16) % 10 == 0
        }),
{
    lemma_gcd_exists(in_rate as int, out_rate as int);
    let g = gcd_of(in_rate as int, out_rate as int);
    lemma_first_state(in_rate, out_rate, g);
    lemma_lowest_terms(g, in_rate as int, out_rate as int);
}

/// Without an input rate every call fills the room, all of it at the start.
pub proof fn lemma_no_input_rate(s: ResamplerState, input: Seq<u32>, k: int)
    requires
        s.num == 0,
        0 <= s.den,
        0 <= s.phase,
        0 <= k < s.room,
        input.len() > 0,
    ensures
        taps(s, input).len() == s.room,
        taps(s, input)[k] == (Tap { prev: s.last, next: input[0], phase: 0 }),
{
    assert((k + 1) * s.num == 0) by (nonlinear_arith)
        requires
            s.num == 0,
    ;
}

} // verus!
