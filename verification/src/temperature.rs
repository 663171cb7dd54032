//! The cooling schedule.
//!
//! The temperature starts at a configured positive value and is
//! multiplied by a cooling factor in `(0, 1)` once per iteration,
//! unconditionally. Both are carried as exact rationals: the factor as
//! `cool_num / cool_den` and the temperature after `t` steps as
//! `temp_num(t) / temp_den(t) == initial * (cool_num / cool_den)^t`.
//! The lemmas show the schedule strictly positive and strictly
//! decreasing; the floating-point image used by the acceptance test is
//! the caller's affair.
use vstd::prelude::*;

verus! {

use vstd::arithmetic::power::lemma_pow_positive;
use vstd::arithmetic::power::pow;
use crate::ConfigError;

/// The annealing temperature: an exact rational, advanced one cooling
/// step per iteration.
#[derive(Clone, Copy, Debug)]
pub struct Temperature {
    /// The configured initial temperature, in fixed-point form.
    pub initial: u64,
    /// Numerator of the cooling factor.
    pub cool_num: u64,
    /// Denominator of the cooling factor.
    pub cool_den: u64,
    /// The number of cooling steps taken so far.
    pub steps: usize,
}

impl Temperature {
    /// The initial temperature is positive and the cooling factor lies
    /// strictly between zero and one.
    pub open spec fn wf(self) -> bool {
        &&& self.initial >= 1
        &&& 1 <= self.cool_num < self.cool_den
    }

    /// Numerator of the exact temperature after `t` cooling steps:
    /// `initial * cool_num^t`.
    pub open spec fn temp_num(self, t: nat) -> int {
        self.initial * pow(self.cool_num as int, t)
    }

    /// Denominator of the exact temperature after `t` cooling steps:
    /// `cool_den^t`.
    pub open spec fn temp_den(self, t: nat) -> int {
        pow(self.cool_den as int, t)
    }

    /// Validates the configuration: a zero initial temperature or a
    /// cooling factor outside `(0, 1)` is rejected.
    pub fn new(initial: u64, cool_num: u64, cool_den: u64) -> (r: Result<Temperature, ConfigError>)
        ensures
            initial == 0 ==> r == Result::<Temperature, ConfigError>::Err(
                ConfigError::ZeroTemperature,
            ),
            initial >= 1 && !(1 <= cool_num < cool_den) ==> r == Result::<
                Temperature,
                ConfigError,
            >::Err(ConfigError::BadCooling),
            initial >= 1 && 1 <= cool_num < cool_den ==> r == Result::<
                Temperature,
                ConfigError,
            >::Ok(Temperature { initial, cool_num, cool_den, steps: 0 }),
            r is Ok ==> r->Ok_0.wf(),
    {
        if initial == 0 {
            Err(ConfigError::ZeroTemperature)
        } else if cool_num == 0 || cool_num >= cool_den {
            Err(ConfigError::BadCooling)
        } else {
            Ok(Temperature { initial, cool_num, cool_den, steps: 0 })
        }
    }

    /// Takes one cooling step.
    pub fn step(&mut self)
        requires
            old(self).steps < usize::MAX,
        ensures
            final(self).steps == old(self).steps + 1,
            final(self).initial == old(self).initial,
            final(self).cool_num == old(self).cool_num,
            final(self).cool_den == old(self).cool_den,
    {
        self.steps = self.steps + 1;
    }

    /// The number of cooling steps taken so far.
    pub fn steps_taken(&self) -> (t: usize)
        ensures
            t == self.steps,
    {
        self.steps
    }

    /// The configured initial temperature.
    pub fn initial_value(&self) -> (v: u64)
        ensures
            v == self.initial,
    {
        self.initial
    }

    /// The configured cooling factor, as numerator and denominator.
    pub fn cooling(&self) -> (c: (u64, u64))
        ensures
            c.0 == self.cool_num,
            c.1 == self.cool_den,
    {
        (self.cool_num, self.cool_den)
    }

    /// The temperature never reaches zero in finitely many steps.
    pub proof fn lemma_temperature_positive(self, t: nat)
        requires
            self.wf(),
        ensures
            self.temp_num(t) >= 1,
            self.temp_den(t) >= 1,
    {
        lemma_pow_positive(self.cool_num as int, t);
        lemma_pow_positive(self.cool_den as int, t);
        assert(self.initial * pow(self.cool_num as int, t) >= 1) by (nonlinear_arith)
            requires self.initial >= 1, pow(self.cool_num as int, t) >= 1;
    }

    /// One cooling step strictly lowers the temperature: as rationals,
    /// `temp(t + 1) < temp(t)`.
    pub proof fn lemma_temperature_step_decreases(self, t: nat)
        requires
            self.wf(),
        ensures
            self.temp_num(t + 1) * self.temp_den(t) < self.temp_num(t) * self.temp_den(t + 1),
    {
        let cn = self.cool_num as int;
        let cd = self.cool_den as int;
        let pn = pow(cn, t);
        let pd = pow(cd, t);
        lemma_pow_positive(cn, t);
        lemma_pow_positive(cd, t);
        vstd::arithmetic::power::lemma_pow1(cn);
        vstd::arithmetic::power::lemma_pow1(cd);
        vstd::arithmetic::power::lemma_pow_adds(cn, t, 1);
        vstd::arithmetic::power::lemma_pow_adds(cd, t, 1);
        assert(pn * cn == cn * pn) by (nonlinear_arith);
        assert(pd * cd == cd * pd) by (nonlinear_arith);
        assert(pow(cn, t + 1) == cn * pn);
        assert(pow(cd, t + 1) == cd * pd);
        assert(self.initial * (cn * pn) * pd < self.initial * pn * (cd * pd)) by (nonlinear_arith)
            requires 1 <= cn < cd, pn >= 1, pd >= 1, self.initial >= 1;
    }

    /// The schedule is strictly decreasing across any span of steps:
    /// after `t` steps the temperature is exactly
    /// `initial * (cool_num / cool_den)^t`, and later steps are colder.
    pub proof fn lemma_temperature_decreasing(self, t1: nat, t2: nat)
        requires
            self.wf(),
            t1 < t2,
        ensures
            self.temp_num(t2) * self.temp_den(t1) < self.temp_num(t1) * self.temp_den(t2),
        decreases t2 - t1,
    {
        if t2 == t1 + 1 {
            self.lemma_temperature_step_decreases(t1);
        } else {
            self.lemma_temperature_decreasing(t1, (t2 - 1) as nat);
            self.lemma_temperature_step_decreases((t2 - 1) as nat);
            let n1 = self.temp_num(t1);
            let d1 = self.temp_den(t1);
            let nm = self.temp_num((t2 - 1) as nat);
            let dm = self.temp_den((t2 - 1) as nat);
            let n2 = self.temp_num(t2);
            let d2 = self.temp_den(t2);
            self.lemma_temperature_positive(t1);
            self.lemma_temperature_positive((t2 - 1) as nat);
            self.lemma_temperature_positive(t2);
            assert(n2 * d1 * dm < nm * d2 * d1) by (nonlinear_arith)
                requires n2 * dm < nm * d2, d1 >= 1;
            assert(nm * d1 * d2 < n1 * dm * d2) by (nonlinear_arith)
                requires nm * d1 < n1 * dm, d2 >= 1;
            assert(n2 * d1 < n1 * d2) by (nonlinear_arith)
                requires
                    n2 * d1 * dm < nm * d2 * d1,
                    nm * d1 * d2 < n1 * dm * d2,
                    dm >= 1;
        }
    }
}

} // verus!
