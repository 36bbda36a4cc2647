//! What a run reports: its elapsed time, and a rate derived from it. Rates are kept
//! in hundredths, so that they print with two decimals without floating point.
use vstd::prelude::*;

verus! {

/// Microseconds in a second.
pub const MICROS_PER_SEC: u128 = 1000000;

/// Bytes in a mebibyte, the unit of throughput.
pub const BYTES_PER_MIB: u64 = 1048576;

/// `amount` per second, in hundredths, over `elapsed_micros`, counted in units of
/// `unit`; rounded to the nearest hundredth, halves up.
pub open spec fn rate_centi_spec(amount: nat, unit: nat, elapsed_micros: nat) -> nat
    recommends
        unit > 0,
        elapsed_micros > 0,
{
    (amount * 100 * 1000000 + (elapsed_micros * unit) / 2) / (elapsed_micros * unit)
}

/// The result of one run: elapsed time, and a rate where one applies.
#[derive(Clone, Copy, Debug, PartialEq, Eq, Structural)]
pub struct RunResult {
    pub elapsed_micros: u64,
    /// Hundredths of the rate; `None` where no rate applies or no time elapsed.
    pub rate_centi: Option<u128>,
}

/// The rate of `amount` over `elapsed_micros` in units of `unit`, in hundredths; none
/// where no time elapsed, as the rate would divide by zero.
pub fn rate_centi(amount: u64, unit: u64, elapsed_micros: u64) -> (r: Option<u128>)
    requires
        unit > 0,
    ensures
        r is None <==> elapsed_micros == 0,
        r matches Some(v) ==> v == rate_centi_spec(amount as nat, unit as nat, elapsed_micros as nat),
{
    if elapsed_micros == 0 {
        None
    } else {
        let a = amount as u128;
        let e = elapsed_micros as u128;
        let u = unit as u128;
        assert(a * 100 * 1000000 <= u64::MAX as u128 * 100000000) by (nonlinear_arith)
            requires
                a <= u64::MAX,
        ;
        assert(e * u <= u64::MAX as u128 * u64::MAX as u128) by (nonlinear_arith)
            requires
                e <= u64::MAX,
                u <= u64::MAX,
        ;
        assert(e * u > 0) by (nonlinear_arith)
            requires
                e > 0,
                u > 0,
        ;
        let d = e * u;
        assert(a * 100 * 1000000 + d / 2 <= u128::MAX) by (nonlinear_arith)
            requires
                a * 100 * 1000000 <= u64::MAX as u128 * 100000000,
                d <= u64::MAX as u128 * u64::MAX as u128,
        ;
        Some((a * 100 * MICROS_PER_SEC + d / 2) / d)
    }
}

impl RunResult {
    /// A run that reports its time alone.
    pub fn timed(elapsed_micros: u64) -> (r: RunResult)
        ensures
            r.elapsed_micros == elapsed_micros,
            r.rate_centi is None,
    {
        RunResult { elapsed_micros, rate_centi: None }
    }

    /// A run of random reads: `blocks` reads, reported as reads per second.
    pub fn with_iops(elapsed_micros: u64, blocks: u64) -> (r: RunResult)
        ensures
            r.elapsed_micros == elapsed_micros,
            r.rate_centi == rate_centi_opt(blocks as nat, 1, elapsed_micros as nat),
    {
        RunResult { elapsed_micros, rate_centi: rate_centi(blocks, 1, elapsed_micros) }
    }

    /// A run of sequential reads over `bytes` bytes, reported as mebibytes per second.
    pub fn with_throughput(elapsed_micros: u64, bytes: u64) -> (r: RunResult)
        ensures
            r.elapsed_micros == elapsed_micros,
            r.rate_centi == rate_centi_opt(bytes as nat, BYTES_PER_MIB as nat, elapsed_micros as nat),
    {
        RunResult {
            elapsed_micros,
            rate_centi: rate_centi(bytes, BYTES_PER_MIB, elapsed_micros),
        }
    }

    /// Whole milliseconds elapsed.
    pub fn time_ms(&self) -> (r: u64)
        ensures
            r == self.elapsed_micros / 1000,
    {
        self.elapsed_micros / 1000
    }
}

/// The rate where time elapsed, or none.
pub open spec fn rate_centi_opt(amount: nat, unit: nat, elapsed_micros: nat) -> Option<u128> {
    if elapsed_micros == 0 {
        None
    } else {
        Some(rate_centi_spec(amount, unit, elapsed_micros) as u128)
    }
}

/// Once time has elapsed, the rate is a number; it is positive exactly when the
/// work done is at least half a hundredth of a unit per elapsed second, and at least
/// one unit per second whenever that much work was done.
pub proof fn lemma_rate_defined(amount: nat, unit: nat, elapsed_micros: nat)
    requires
        unit > 0,
        elapsed_micros > 0,
    ensures
        rate_centi_opt(amount, unit, elapsed_micros) is Some,
        rate_centi_spec(amount, unit, elapsed_micros) > 0 <==> amount * 100000000 * 2 >= elapsed_micros
            * unit,
        amount * 1000000 >= elapsed_micros * unit ==> rate_centi_spec(amount, unit, elapsed_micros)
            >= 100,
{
    let d = elapsed_micros * unit;
    let a = amount * 100 * 1000000;
    assert(d > 0) by (nonlinear_arith)
        requires
            elapsed_micros > 0,
            unit > 0,
            d == elapsed_micros * unit,
    ;
    let n = a + d / 2;
    assert(amount * 100000000 * 2 == a * 2);
    if a * 2 >= d {
        assert(n >= d);
        vstd::arithmetic::div_mod::lemma_div_is_ordered(d as int, n as int, d as int);
        vstd::arithmetic::div_mod::lemma_div_by_self(d as int);
    } else {
        assert(n < d);
        vstd::arithmetic::div_mod::lemma_basic_div(n as int, d as int);
    }
    if amount * 1000000 >= d {
        assert(n >= 100 * d) by (nonlinear_arith)
            requires
                amount * 1000000 >= d,
                a == amount * 100 * 1000000,
                n == a + d / 2,
        ;
        vstd::arithmetic::div_mod::lemma_div_is_ordered((100 * d) as int, n as int, d as int);
        vstd::arithmetic::div_mod::lemma_div_multiples_vanish(100, d as int);
    }
}

} // verus!
