//! The cumulative-price oracle. Each accumulator adds, for every second that passes, the
//! price of one asset in the other at a fixed scale; the difference of two readings divided
//! by the time between them is a time-weighted average price.

use crate::error::PoolError;
use crate::fixed_point::{multiply_ratio, mul_div};
use vstd::arithmetic::div_mod::{
    lemma_div_is_ordered, lemma_fundamental_div_mod, lemma_hoist_over_denominator,
    lemma_mod_sub_multiples_vanish,
};
use vstd::prelude::*;

verus! {

/// Decimal places of the accumulated prices.
pub const TWAP_PRECISION: u32 = 6;

/// `10^TWAP_PRECISION`.
pub const PRICE_PRECISION: u128 = 1_000_000;

/// What an accumulator gains over `elapsed` seconds when `base` units of one asset stand
/// against `quote` units of the other: `elapsed * quote / base` at the fixed scale, rounded
/// down.
pub open spec fn price_increment(elapsed: int, base: int, quote: int) -> int {
    mul_div(elapsed * PRICE_PRECISION, quote, base)
}

/// An accumulator after it gains `inc`; it wraps around at `2^128`.
pub open spec fn advance(acc: u128, inc: int) -> u128 {
    vstd::wrapping::u128_specs::wrapping_add(acc, inc as u128)
}

/// The increments over `elapsed` seconds fit in `u128` (or there are none to add).
pub open spec fn increments_fit(elapsed: int, x: int, y: int) -> bool {
    x == 0 || y == 0 || (price_increment(elapsed, x, y) <= u128::MAX && price_increment(
        elapsed,
        y,
        x,
    ) <= u128::MAX)
}

/// The oracle fields of a pool.
#[derive(Clone, Copy, Debug, PartialEq, Eq, Structural)]
pub struct Oracle {
    pub block_time_last: u64,
    pub price0_cumulative: u128,
    pub price1_cumulative: u128,
}

/// The oracle brought forward to `now` with reserves `x` (asset 0) and `y` (asset 1) held
/// since its last update. Nothing moves when no time has passed; the time moves but the
/// prices do not when a reserve is empty.
pub open spec fn accumulate_spec(o: Oracle, now: u64, x: u128, y: u128) -> Oracle {
    if now <= o.block_time_last {
        o
    } else if x == 0 || y == 0 {
        Oracle { block_time_last: now, ..o }
    } else {
        let e = now - o.block_time_last;
        Oracle {
            block_time_last: now,
            price0_cumulative: advance(o.price0_cumulative, price_increment(e, x as int, y as int)),
            price1_cumulative: advance(o.price1_cumulative, price_increment(e, y as int, x as int)),
        }
    }
}

/// The oracle at `now` can be computed: no increment overflows.
pub open spec fn accumulate_ok(o: Oracle, now: u64, x: u128, y: u128) -> bool {
    now <= o.block_time_last || increments_fit(now - o.block_time_last, x as int, y as int)
}

impl Oracle {
    pub fn new() -> (r: Oracle)
        ensures
            r == (Oracle { block_time_last: 0, price0_cumulative: 0, price1_cumulative: 0 }),
    {
        Oracle { block_time_last: 0, price0_cumulative: 0, price1_cumulative: 0 }
    }

    /// The oracle brought forward to `now` with reserves `x` and `y` held since its last
    /// update; `Overflow` when an increment does not fit in `u128`.
    pub fn accumulate(&self, now: u64, x: u128, y: u128) -> (r: Result<Oracle, PoolError>)
        ensures
            r.is_ok() <==> accumulate_ok(*self, now, x, y),
            r matches Ok(o) ==> o == accumulate_spec(*self, now, x, y),
            r matches Err(e) ==> e == PoolError::Overflow,
    {
        if now <= self.block_time_last {
            return Ok(*self);
        }
        if x == 0 || y == 0 {
            return Ok(Oracle { block_time_last: now, ..*self });
        }
        let elapsed: u64 = now - self.block_time_last;
        assert((elapsed as u128) * PRICE_PRECISION <= u128::MAX) by (nonlinear_arith)
            requires
                elapsed <= u64::MAX,
        ;
        let scaled: u128 = (elapsed as u128) * PRICE_PRECISION;
        let inc0 = match multiply_ratio(scaled, y, x) {
            Some(v) => v,
            None => return Err(PoolError::Overflow),
        };
        let inc1 = match multiply_ratio(scaled, x, y) {
            Some(v) => v,
            None => return Err(PoolError::Overflow),
        };
        Ok(
            Oracle {
                block_time_last: now,
                price0_cumulative: self.price0_cumulative.wrapping_add(inc0),
                price1_cumulative: self.price1_cumulative.wrapping_add(inc1),
            },
        )
    }
}

/// The modulus at which the accumulators wrap, `2^128`.
pub open spec fn wrap_modulus() -> int {
    u128::MAX + 1
}

proof fn lemma_increment_monotonic(e1: int, e2: int, base: int, quote: int)
    requires
        0 <= e1 <= e2,
        base > 0,
        quote >= 0,
    ensures
        price_increment(e1, base, quote) <= price_increment(e2, base, quote),
{
    assert(e1 * PRICE_PRECISION * quote <= e2 * PRICE_PRECISION * quote) by (nonlinear_arith)
        requires
            0 <= e1 <= e2,
            quote >= 0,
    ;
    lemma_div_is_ordered(e1 * PRICE_PRECISION * quote, e2 * PRICE_PRECISION * quote, base);
}

proof fn lemma_increment_splits(e1: int, e2: int, base: int, quote: int)
    requires
        0 <= e1 <= e2,
        base > 0,
        quote >= 0,
        (e1 * PRICE_PRECISION * quote) % base == 0,
    ensures
        price_increment(e2, base, quote) == price_increment(e1, base, quote) + price_increment(
            e2 - e1,
            base,
            quote,
        ),
{
    let a = e1 * PRICE_PRECISION * quote;
    let b = (e2 - e1) * PRICE_PRECISION * quote;
    assert(e2 * PRICE_PRECISION * quote == e1 * PRICE_PRECISION * quote + (e2 - e1)
        * PRICE_PRECISION * quote) by (nonlinear_arith);
    lemma_fundamental_div_mod(a, base);
    lemma_hoist_over_denominator(b, a / base, base as nat);
    assert(b + (a / base) * base == a + b) by (nonlinear_arith)
        requires
            a == base * (a / base) + 0,
    ;
}

proof fn lemma_advance_value(acc: u128, i: int)
    requires
        0 <= i <= u128::MAX,
    ensures
        advance(acc, i) == if acc + i > u128::MAX {
            acc + i - wrap_modulus()
        } else {
            acc + i
        },
{
    assert((i as u128) as int == i);
}

proof fn lemma_advance_difference(acc: u128, i1: int, i2: int)
    requires
        0 <= i1 <= i2 <= u128::MAX,
    ensures
        (advance(acc, i2) - advance(acc, i1)) % wrap_modulus() == (i2 - i1) % wrap_modulus(),
{
    lemma_advance_value(acc, i1);
    lemma_advance_value(acc, i2);
    if acc + i2 > u128::MAX && acc + i1 <= u128::MAX {
        assert(advance(acc, i2) - advance(acc, i1) == -wrap_modulus() + (i2 - i1));
        lemma_mod_sub_multiples_vanish(i2 - i1, wrap_modulus());
    }
}

/// Two readings of the oracle at `t1` and `t2` with no change to the pool in between
/// differ, modulo `2^128`, by the price over `t2 - t1` at the fixed scale, rounded down,
/// whenever the first reading's own increment is exact (in particular when it is taken
/// right at the last update). Readings do not change the pool, so any number of them may
/// stand in between.
pub proof fn lemma_readings_differ_by_price(o: Oracle, t1: u64, t2: u64, x: u128, y: u128)
    requires
        o.block_time_last <= t1 <= t2,
        x > 0,
        y > 0,
        accumulate_ok(o, t2, x, y),
        ((t1 - o.block_time_last) * PRICE_PRECISION * y) % (x as int) == 0,
        ((t1 - o.block_time_last) * PRICE_PRECISION * x) % (y as int) == 0,
    ensures
        accumulate_ok(o, t1, x, y),
        (accumulate_spec(o, t2, x, y).price0_cumulative - accumulate_spec(
            o,
            t1,
            x,
            y,
        ).price0_cumulative) % wrap_modulus() == price_increment(
            t2 - t1,
            x as int,
            y as int,
        ) % wrap_modulus(),
        (accumulate_spec(o, t2, x, y).price1_cumulative - accumulate_spec(
            o,
            t1,
            x,
            y,
        ).price1_cumulative) % wrap_modulus() == price_increment(
            t2 - t1,
            y as int,
            x as int,
        ) % wrap_modulus(),
{
    let e1 = t1 - o.block_time_last;
    let e2 = t2 - o.block_time_last;
    lemma_increment_monotonic(e1, e2, x as int, y as int);
    lemma_increment_monotonic(e1, e2, y as int, x as int);
    lemma_increment_splits(e1, e2, x as int, y as int);
    lemma_increment_splits(e1, e2, y as int, x as int);
    if t1 == o.block_time_last {
        assert(price_increment(0, x as int, y as int) == 0);
        assert(price_increment(0, y as int, x as int) == 0);
        assert(advance(o.price0_cumulative, 0) == o.price0_cumulative);
        assert(advance(o.price1_cumulative, 0) == o.price1_cumulative);
    }
    lemma_advance_difference(
        o.price0_cumulative,
        price_increment(e1, x as int, y as int),
        price_increment(e2, x as int, y as int),
    );
    lemma_advance_difference(
        o.price1_cumulative,
        price_increment(e1, y as int, x as int),
        price_increment(e2, y as int, x as int),
    );
}

} // verus!
