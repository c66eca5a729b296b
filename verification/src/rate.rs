//! Exact request rates.
//!
//! A rate is a ratio of two integers, so a slot on a schedule is a whole number
//! of microseconds with no rounding along the way: the position of request `n`
//! is an exact quotient (constant rate) or the integer part of an exact square
//! root (linear ramp).

use vstd::prelude::*;

verus! {

/// `requests` requests in every `per_us` microseconds.
#[derive(Debug, Clone, Copy, PartialEq, Eq, Structural)]
pub struct Rate {
    pub requests: u64,
    pub per_us: u64,
}

/// One second in microseconds.
pub const SECOND_US: u64 = 1_000_000;

/// The smaller of `x` and the largest `u64`.
pub open spec fn clamp_u64(x: nat) -> nat {
    if x <= u64::MAX {
        x
    } else {
        u64::MAX as nat
    }
}

/// `s` is the integer part of the square root of `x`.
pub open spec fn is_floor_sqrt(s: nat, x: nat) -> bool {
    s * s <= x && x < (s + 1) * (s + 1)
}

/// The integer part of the square root of `x`.
pub open spec fn floor_sqrt(x: nat) -> nat {
    choose|s: nat| is_floor_sqrt(s, x)
}

/// Every natural number has an integer square root, and only one.
pub proof fn lemma_floor_sqrt(x: nat)
    ensures
        is_floor_sqrt(floor_sqrt(x), x),
        forall|s: nat| #[trigger] is_floor_sqrt(s, x) ==> s == floor_sqrt(x),
{
    lemma_floor_sqrt_exists(x);
    let r = floor_sqrt(x);
    assert forall|s: nat| #[trigger] is_floor_sqrt(s, x) implies s == r by {
        if s < r {
            assert((s + 1) * (s + 1) <= r * r) by (nonlinear_arith)
                requires
                    s + 1 <= r,
                    0 <= s,
            ;
        } else if r < s {
            assert((r + 1) * (r + 1) <= s * s) by (nonlinear_arith)
                requires
                    r + 1 <= s,
                    0 <= r,
            ;
        }
    }
}

proof fn lemma_floor_sqrt_exists(x: nat)
    ensures
        exists|s: nat| is_floor_sqrt(s, x),
    decreases x,
{
    if x == 0 {
        assert(is_floor_sqrt(0, 0)) by {
            assert(0nat * 0nat == 0 && 1nat * 1nat == 1) by (nonlinear_arith);
        }
    } else {
        let y = (x - 1) as nat;
        lemma_floor_sqrt_exists(y);
        let s = choose|s: nat| is_floor_sqrt(s, y);
        if x < (s + 1) * (s + 1) {
            assert(is_floor_sqrt(s, x));
        } else {
            assert((s + 1) * (s + 1) < (s + 2) * (s + 2)) by (nonlinear_arith);
            assert(is_floor_sqrt(s + 1, x));
        }
    }
}

/// A larger number has no smaller integer square root.
pub proof fn lemma_floor_sqrt_monotone(x: nat, y: nat)
    requires
        x <= y,
    ensures
        floor_sqrt(x) <= floor_sqrt(y),
{
    lemma_floor_sqrt(x);
    lemma_floor_sqrt(y);
    let a = floor_sqrt(x);
    let b = floor_sqrt(y);
    if b < a {
        assert((b + 1) * (b + 1) <= a * a) by (nonlinear_arith)
            requires
                b + 1 <= a,
                0 <= b,
        ;
    }
}

impl Rate {
    /// Offset of request `n` from the start of a constant-rate schedule, in
    /// microseconds. At rate zero every request but the first is out of reach.
    pub open spec fn slot(self, n: nat) -> nat {
        if self.requests == 0 {
            if n * self.per_us == 0 {
                0
            } else {
                u64::MAX as nat
            }
        } else {
            clamp_u64((n * self.per_us / self.requests as int) as nat)
        }
    }

    /// Offset of request `n` from the start of a schedule that climbs linearly
    /// from zero to this rate over `duration_us`: by time `t` the schedule has
    /// released `R * t^2 / (2 * D)` requests, so request `n` is due at
    /// `sqrt(2 * D * n / R)`.
    pub open spec fn ramp_slot(self, duration_us: nat, n: nat) -> nat {
        if self.requests == 0 {
            if duration_us * n * self.per_us == 0 {
                0
            } else {
                u64::MAX as nat
            }
        } else {
            clamp_u64(floor_sqrt((2 * (duration_us * n * self.per_us) / self.requests as int) as nat))
        }
    }

    /// The rate in thousandths of a request per second, rounded down.
    pub open spec fn milli(self) -> nat {
        if self.per_us == 0 {
            u64::MAX as nat
        } else {
            clamp_u64((self.requests * 1_000_000_000 / self.per_us as int) as nat)
        }
    }

    /// The rate offered at time `t_us` of a linear ramp to this rate over
    /// `duration_us`, in thousandths of a request per second.
    pub open spec fn milli_at(self, duration_us: nat, t_us: nat) -> nat {
        if t_us >= duration_us {
            self.milli()
        } else {
            self.milli() * t_us / duration_us
        }
    }

    /// The rate in thousandths of a request per second.
    pub fn milli_rps(&self) -> (r: u64)
        ensures
            r == self.milli(),
    {
        if self.per_us == 0 {
            return u64::MAX;
        }
        let q: u128 = self.requests as u128 * 1_000_000_000u128 / self.per_us as u128;
        if q > u64::MAX as u128 {
            u64::MAX
        } else {
            q as u64
        }
    }

    /// The rate offered at time `t_us` of a linear ramp to this rate.
    pub fn milli_rps_at(&self, duration_us: u64, t_us: u64) -> (r: u64)
        ensures
            r == self.milli_at(duration_us as nat, t_us as nat),
    {
        let full: u64 = self.milli_rps();
        if t_us >= duration_us {
            return full;
        }
        proof {
            lemma_product_fits(full, t_us);
            assert(full * t_us / duration_us as int <= full) by (nonlinear_arith)
                requires
                    0 <= t_us < duration_us,
                    0 <= full,
            ;
        }
        (full as u128 * t_us as u128 / duration_us as u128) as u64
    }

    /// `rps` requests per second.
    pub fn per_second(rps: u64) -> (r: Rate)
        ensures
            r == (Rate { requests: rps, per_us: SECOND_US }),
    {
        Rate { requests: rps, per_us: SECOND_US }
    }

    /// The share of one of `n` equal parts: the same requests over a period
    /// `n` times as long.
    pub fn split(&self, n: u64) -> (r: Rate)
        requires
            self.per_us * n <= u64::MAX,
        ensures
            r == (Rate { requests: self.requests, per_us: (self.per_us * n) as u64 }),
    {
        Rate { requests: self.requests, per_us: self.per_us * n }
    }

    /// Twice the rate.
    pub fn doubled(&self) -> (r: Rate)
        requires
            2 * self.requests <= u64::MAX,
        ensures
            r == (Rate { requests: (2 * self.requests) as u64, per_us: self.per_us }),
    {
        Rate { requests: 2 * self.requests, per_us: self.per_us }
    }

    /// Offset of request `n` on a constant-rate schedule.
    pub fn slot_us(&self, n: u64) -> (us: u64)
        ensures
            us == self.slot(n as nat),
    {
        let product: u128 = {
            proof {
                lemma_product_fits(n, self.per_us);
            }
            n as u128 * self.per_us as u128
        };
        if self.requests == 0 {
            if product == 0 {
                0
            } else {
                u64::MAX
            }
        } else {
            let q: u128 = product / self.requests as u128;
            if q > u64::MAX as u128 {
                u64::MAX
            } else {
                q as u64
            }
        }
    }

    /// Offset of request `n` on a linear ramp to this rate over `duration_us`.
    pub fn ramp_slot_us(&self, duration_us: u64, n: u64) -> (us: u64)
        ensures
            us == self.ramp_slot(duration_us as nat, n as nat),
    {
        proof {
            lemma_product_fits(duration_us, n);
        }
        let area: u128 = duration_us as u128 * n as u128;
        let half: Wide = Wide::product(area, self.per_us);
        if self.requests == 0 {
            proof {
                lemma_zero_product(area as int, self.per_us as int);
            }
            if half.hi == 0 && half.lo == 0 {
                return 0;
            }
            return u64::MAX;
        }
        let ghost whole: nat = 2 * half@;
        if at_most_twice(u64::MAX, self.requests, half) {
            proof {
                lemma_ramp_root(u64::MAX as nat, self.requests as nat, whole);
            }
            return u64::MAX;
        }
        let mut lo: u64 = 0;
        let mut hi: u64 = u64::MAX;
        assert(0 * 0 * self.requests == 0) by (nonlinear_arith);
        while hi - lo > 1
            invariant
                lo < hi,
                whole == 2 * half@,
                lo * lo * self.requests <= whole,
                hi * hi * self.requests > whole,
            decreases hi - lo,
        {
            let mid: u64 = lo + (hi - lo) / 2;
            if at_most_twice(mid, self.requests, half) {
                lo = mid;
            } else {
                hi = mid;
            }
        }
        proof {
            lemma_ramp_root(lo as nat, self.requests as nat, whole);
        }
        lo
    }
}

/// A product of up to 192 bits: `hi * 2^64 + lo`.
#[derive(Clone, Copy)]
struct Wide {
    hi: u128,
    lo: u64,
}

impl View for Wide {
    type V = nat;

    closed spec fn view(&self) -> nat {
        (self.hi * 0x1_0000_0000_0000_0000 + self.lo) as nat
    }
}

impl Wide {
    fn product(a: u128, b: u64) -> (w: Wide)
        ensures
            w@ == a * b,
    {
        let ah: u128 = a / 0x1_0000_0000_0000_0000u128;
        let al: u128 = a % 0x1_0000_0000_0000_0000u128;
        proof {
            lemma_product_fits(ah as u64, b);
            lemma_product_fits(al as u64, b);
            assert(ah * b <= 0xffff_ffff_ffff_ffff * 0xffff_ffff_ffff_ffff) by (nonlinear_arith)
                requires
                    0 <= ah <= 0xffff_ffff_ffff_ffff,
                    0 <= b <= 0xffff_ffff_ffff_ffff,
            ;
            assert(al * b <= 0xffff_ffff_ffff_ffff * 0xffff_ffff_ffff_ffff) by (nonlinear_arith)
                requires
                    0 <= al <= 0xffff_ffff_ffff_ffff,
                    0 <= b <= 0xffff_ffff_ffff_ffff,
            ;
            assert(a * b == (ah * b) * 0x1_0000_0000_0000_0000 + al * b) by (nonlinear_arith)
                requires
                    a == ah * 0x1_0000_0000_0000_0000 + al,
            ;
        }
        let high: u128 = ah * b as u128;
        let low: u128 = al * b as u128;
        let carry: u128 = low / 0x1_0000_0000_0000_0000u128;
        let rest: u128 = low % 0x1_0000_0000_0000_0000u128;
        Wide { hi: high + carry, lo: rest as u64 }
    }
}

/// Whether `t * t * requests` is at most twice `half`.
fn at_most_twice(t: u64, requests: u64, half: Wide) -> (b: bool)
    ensures
        b == (t * t * requests <= 2 * half@),
{
    proof {
        lemma_product_fits(t, t);
    }
    let left: Wide = Wide::product(t as u128 * t as u128, requests);
    if left.hi < half.hi || (left.hi == half.hi && left.lo <= half.lo) {
        true
    } else if left.lo >= half.lo {
        let hi: u128 = left.hi - half.hi;
        let lo: u64 = left.lo - half.lo;
        hi < half.hi || (hi == half.hi && lo <= half.lo)
    } else {
        let hi: u128 = left.hi - half.hi - 1;
        let lo: u64 = left.lo + (u64::MAX - half.lo) + 1;
        hi < half.hi || (hi == half.hi && lo <= half.lo)
    }
}

proof fn lemma_zero_product(a: int, b: int)
    ensures
        a * b == 0 <==> a == 0 || b == 0,
{
    assert(a * b == 0 <==> a == 0 || b == 0) by (nonlinear_arith);
}

/// The last `t` with `t * t * requests <= whole` is the integer root of the
/// quotient.
proof fn lemma_ramp_root(t: nat, requests: nat, whole: nat)
    requires
        requests > 0,
        t * t * requests <= whole,
        t < u64::MAX ==> (t + 1) * (t + 1) * requests > whole,
        t <= u64::MAX,
    ensures
        t == clamp_u64(floor_sqrt(whole / requests)),
{
    let q = whole / requests;
    lemma_floor_sqrt(q);
    assert(t * t <= q) by (nonlinear_arith)
        requires
            t * t * requests <= whole,
            requests > 0,
            q == whole / requests,
    ;
    if t < u64::MAX {
        assert(q < (t + 1) * (t + 1)) by (nonlinear_arith)
            requires
                (t + 1) * (t + 1) * requests > whole,
                requests > 0,
                q == whole / requests,
        ;
        assert(is_floor_sqrt(t, q));
    } else {
        let r = floor_sqrt(q);
        if r < t {
            assert((r + 1) * (r + 1) <= t * t) by (nonlinear_arith)
                requires
                    r + 1 <= t,
                    0 <= r,
            ;
        }
    }
}

/// The slots of a constant schedule never go backwards.
pub proof fn lemma_slot_monotone(rate: Rate, m: nat, n: nat)
    requires
        m <= n,
    ensures
        rate.slot(m) <= rate.slot(n),
{
    let per = rate.per_us as int;
    assert(0 <= m * per <= n * per) by (nonlinear_arith)
        requires
            0 <= m <= n,
            0 <= per,
    ;
    if rate.requests > 0 {
        vstd::arithmetic::div_mod::lemma_div_is_ordered(m * per, n * per, rate.requests as int);
    }
}

/// The slots of a ramp never go backwards.
pub proof fn lemma_ramp_slot_monotone(rate: Rate, duration_us: nat, m: nat, n: nat)
    requires
        m <= n,
    ensures
        rate.ramp_slot(duration_us, m) <= rate.ramp_slot(duration_us, n),
{
    let per = rate.per_us as int;
    let a = duration_us * m * per;
    let b = duration_us * n * per;
    assert(0 <= a <= b) by (nonlinear_arith)
        requires
            0 <= m <= n,
            0 <= per,
            0 <= duration_us,
            a == duration_us * m * per,
            b == duration_us * n * per,
    ;
    if rate.requests > 0 {
        vstd::arithmetic::div_mod::lemma_div_is_ordered(2 * a, 2 * b, rate.requests as int);
        lemma_floor_sqrt_monotone(
            (2 * a / rate.requests as int) as nat,
            (2 * b / rate.requests as int) as nat,
        );
    }
}

/// Twice the rate reaches request `n` in half the time, up to one microsecond.
pub proof fn lemma_doubled_slot(rate: Rate, n: nat)
    requires
        0 < rate.requests,
        2 * rate.requests <= u64::MAX,
        n * rate.per_us / rate.requests as int <= u64::MAX,
    ensures
        ({
            let twice = Rate { requests: (2 * rate.requests) as u64, per_us: rate.per_us };
            2 * twice.slot(n) <= rate.slot(n) <= 2 * twice.slot(n) + 1
        }),
{
    let x = n * rate.per_us;
    let r = rate.requests as int;
    assert(0 <= x) by (nonlinear_arith)
        requires
            x == n * rate.per_us,
    ;
    assert(2 * (x / (2 * r)) <= x / r <= 2 * (x / (2 * r)) + 1 && 0 <= x / (2 * r)) by (nonlinear_arith)
        requires
            r > 0,
            x >= 0,
    ;
}

/// Consecutive slots are at most one interval and a microsecond apart.
pub proof fn lemma_slot_step(rate: Rate, n: nat)
    requires
        0 < rate.requests,
    ensures
        rate.slot(n + 1) <= rate.slot(n) + rate.slot(1) + 1,
{
    let p = rate.per_us as int;
    let r = rate.requests as int;
    let x = n * p;
    assert((n + 1) * p == x + p) by (nonlinear_arith)
        requires
            x == n * p,
    ;
    assert(1 * p == p) by (nonlinear_arith);
    assert(0 <= x) by (nonlinear_arith)
        requires
            x == n * p,
            p >= 0,
    ;
    assert((x + p) / r <= x / r + p / r + 1 && 0 <= x / r && 0 <= p / r) by (nonlinear_arith)
        requires
            r > 0,
            x >= 0,
            p >= 0,
    ;
}

/// The product of two `u64` fits a `u128`.
pub proof fn lemma_product_fits(a: u64, b: u64)
    ensures
        0 <= a * b <= u128::MAX,
{
    assert(0 <= a * b <= 0xffff_ffff_ffff_ffff * 0xffff_ffff_ffff_ffff) by (nonlinear_arith)
        requires
            0 <= a <= 0xffff_ffff_ffff_ffff,
            0 <= b <= 0xffff_ffff_ffff_ffff,
    ;
}

/// On a constant schedule request `n` stands at `n / R`, rounded down to a whole
/// microsecond: by its slot at most `n` requests' worth of time has passed, and one
/// microsecond later more than that. At rate zero only the first request comes.
pub proof fn law_slots_are_evenly_spaced(rate: Rate, n: nat)
    ensures
        rate.requests > 0 ==> rate.slot(n) * rate.requests <= n * rate.per_us,
        rate.requests > 0 && rate.slot(n) < u64::MAX ==> n * rate.per_us < (rate.slot(n) + 1)
            * rate.requests,
        rate.slot(n) <= u64::MAX,
        rate.slot(0) == 0,
        rate.requests == 0 && rate.per_us > 0 && n > 0 ==> rate.slot(n) == u64::MAX,
{
    let p = rate.per_us as int;
    let r = rate.requests as int;
    let x = n * p;
    assert(0 <= x && 0 * p == 0) by (nonlinear_arith)
        requires
            x == n * p,
            n >= 0,
            p >= 0,
    ;
    if r > 0 {
        let q = x / r;
        assert(0 <= q && q * r <= x < (q + 1) * r && 0int / r == 0) by (nonlinear_arith)
            requires
                q == x / r,
                r > 0,
                x >= 0,
        ;
        let t = rate.slot(n) as int;
        assert(t * r <= q * r) by (nonlinear_arith)
            requires
                0 <= t <= q,
                r > 0,
        ;
    } else if p > 0 && n > 0 {
        assert(x != 0) by (nonlinear_arith)
            requires
                x == n * p,
                n > 0,
                p > 0,
        ;
    }
}

/// On a linear ramp the requests released by time `t` are `R * t^2 / (2 * D)`: at
/// the slot of request `n` they have not passed `n`, and one microsecond later they
/// have.
pub proof fn law_ramp_slots_follow_the_square(rate: Rate, duration_us: nat, n: nat)
    requires
        rate.requests > 0,
    ensures
        ({
            let t = rate.ramp_slot(duration_us, n);
            let area = 2 * (duration_us * n * rate.per_us);
            &&& t <= u64::MAX
            &&& t * t * rate.requests <= area
            &&& t < u64::MAX ==> area < (t + 1) * (t + 1) * rate.requests
        }),
{
    let r = rate.requests as int;
    let area = 2 * (duration_us * n * rate.per_us);
    assert(0 <= area) by (nonlinear_arith)
        requires
            area == 2 * (duration_us * n * rate.per_us),
            duration_us >= 0,
            n >= 0,
            rate.per_us >= 0,
    ;
    let q = area / r;
    assert(0 <= q && q * r <= area < (q + 1) * r) by (nonlinear_arith)
        requires
            q == area / r,
            r > 0,
            area >= 0,
    ;
    lemma_floor_sqrt(q as nat);
    let s = floor_sqrt(q as nat) as int;
    let t = rate.ramp_slot(duration_us, n) as int;
    assert(t * t * r <= area) by (nonlinear_arith)
        requires
            0 <= t <= s,
            s * s <= q,
            q * r <= area,
            r > 0,
    ;
    if t < u64::MAX {
        assert(area < (t + 1) * (t + 1) * r) by (nonlinear_arith)
            requires
                q < (t + 1) * (t + 1),
                area < (q + 1) * r,
                r > 0,
        ;
    }
}

/// A rate in thousandths of a request per second is the rate times `10^9` requests
/// and microseconds, rounded down.
pub proof fn law_milli_rounds_the_rate_down(rate: Rate)
    requires
        rate.per_us > 0,
    ensures
        rate.milli() * rate.per_us <= rate.requests * 1_000_000_000,
        rate.milli() < u64::MAX ==> rate.requests * 1_000_000_000 < (rate.milli() + 1)
            * rate.per_us,
        rate.milli() <= u64::MAX,
{
    let p = rate.per_us as int;
    let x = rate.requests * 1_000_000_000;
    let q = x / p;
    assert(0 <= q && q * p <= x < (q + 1) * p) by (nonlinear_arith)
        requires
            q == x / p,
            p > 0,
            x >= 0,
    ;
    let m = rate.milli() as int;
    assert(m * p <= q * p) by (nonlinear_arith)
        requires
            0 <= m <= q,
            p > 0,
    ;
}

/// The rate offered on a ramp climbs in a straight line from nothing to the peak,
/// and stays there.
pub proof fn law_ramp_climbs_in_a_line(rate: Rate, duration_us: nat, t_us: nat)
    requires
        duration_us > 0,
    ensures
        rate.milli_at(duration_us, 0) == 0,
        t_us >= duration_us ==> rate.milli_at(duration_us, t_us) == rate.milli(),
        t_us <= duration_us ==> rate.milli_at(duration_us, t_us) * duration_us <= rate.milli()
            * t_us < (rate.milli_at(duration_us, t_us) + 1) * duration_us,
{
    let m = rate.milli() as int;
    let d = duration_us as int;
    let x = m * t_us;
    let q = x / d;
    assert(0 <= x && m * 0 == 0) by (nonlinear_arith)
        requires
            x == m * t_us,
            m >= 0,
            t_us >= 0,
    ;
    assert(q * d <= x < (q + 1) * d && 0int / d == 0) by (nonlinear_arith)
        requires
            q == x / d,
            d > 0,
    ;
    assert(t_us == d ==> m * d == x && x < (m + 1) * d) by (nonlinear_arith)
        requires
            x == m * t_us,
            d > 0,
    ;
}

} // verus!
