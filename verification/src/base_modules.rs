use vstd::prelude::*;

use vstd::arithmetic::div_mod::{lemma_div_is_ordered, lemma_div_multiples_vanish, lemma_div_pos_is_pos};

use crate::Module;

verus! {

/// The sample a possibly-disconnected reading carries: 0 when disconnected.
pub open spec fn sample_or_zero(r: Option<i64>) -> i64 {
    match r {
        Some(v) => v,
        None => 0,
    }
}

/// How many of the readings are connected.
pub open spec fn connected_count(ins: Seq<Option<i64>>) -> int
    decreases ins.len(),
{
    if ins.len() == 0 {
        0
    } else {
        connected_count(ins.drop_last()) + if ins.last() is Some {
            1int
        } else {
            0int
        }
    }
}

/// The sum of the connected readings.
pub open spec fn connected_sum(ins: Seq<Option<i64>>) -> int
    decreases ins.len(),
{
    if ins.len() == 0 {
        0
    } else {
        connected_sum(ins.drop_last()) + match ins.last() {
            Some(v) => v as int,
            None => 0int,
        }
    }
}

/// Division rounded toward zero, for a positive divisor.
pub open spec fn div_trunc(x: int, d: int) -> int {
    if x >= 0 {
        x / d
    } else {
        -((-x) / d)
    }
}

/// What a mixer writes: the arithmetic mean (rounded toward zero) of the
/// connected readings, or 0 when none is connected.
pub open spec fn mixed(ins: Seq<Option<i64>>) -> int {
    if connected_count(ins) == 0 {
        0
    } else {
        div_trunc(connected_sum(ins), connected_count(ins))
    }
}

/// The mean of values drawn from a range stays in that range.
proof fn lemma_div_trunc_bounds(sum: int, k: int, lo: int, hi: int)
    requires
        k >= 1,
        lo <= 0 <= hi,
        k * lo <= sum <= k * hi,
    ensures
        lo <= div_trunc(sum, k) <= hi,
{
    if sum >= 0 {
        lemma_div_pos_is_pos(sum, k);
        lemma_div_is_ordered(sum, k * hi, k);
        lemma_div_multiples_vanish(hi, k);
    } else {
        assert(k * (-lo) == -(k * lo)) by (nonlinear_arith);
        lemma_div_pos_is_pos(-sum, k);
        lemma_div_is_ordered(-sum, k * (-lo), k);
        lemma_div_multiples_vanish(-lo, k);
    }
}

/// A mixing module: its output is the arithmetic mean of its connected
/// inputs, and silence when nothing is connected.
#[derive(Debug)]
pub struct Mixer;

impl Module for Mixer {
    open spec fn spec_inputs(&self) -> nat {
        8
    }

    open spec fn spec_outputs(&self) -> nat {
        1
    }

    open spec fn stepped(&self, ins: Seq<Option<i64>>) -> Mixer {
        *self
    }

    open spec fn written(&self, ins: Seq<Option<i64>>, prev: Seq<i64>) -> Seq<i64> {
        Seq::new(prev.len(), |i: int| mixed(ins) as i64)
    }

    proof fn lemma_step_wf(&self, ins: Seq<Option<i64>>, prev: Seq<i64>) {
    }

    fn num_inputs(&self) -> u8 {
        8
    }

    fn num_outputs(&self) -> u8 {
        1
    }

    #[verifier::loop_isolation(false)]
    fn run(&mut self, inputs: &Vec<Option<i64>>, outputs: &mut Vec<i64>) {
        let mut count: usize = 0;
        let mut sum: i128 = 0;
        let mut p: usize = 0;
        while p < inputs.len()
            invariant
                p <= inputs.len(),
                count as int == connected_count(inputs@.take(p as int)),
                sum as int == connected_sum(inputs@.take(p as int)),
                count <= p,
                count as int * (i64::MIN as int) <= sum as int <= count as int * (i64::MAX as int),
            decreases inputs.len() - p,
        {
            proof {
                assert(inputs@.take(p as int + 1).drop_last() =~= inputs@.take(p as int));
                assert(inputs@.take(p as int + 1).last() == inputs@[p as int]);
            }
            match inputs[p] {
                Some(v) => {
                    count = count + 1;
                    sum = sum + v as i128;
                },
                None => {},
            }
            p = p + 1;
        }
        proof {
            assert(inputs@.take(inputs@.len() as int) =~= inputs@);
        }
        let out: i64 = if count == 0 {
            0
        } else {
            let k = count as i128;
            proof {
                lemma_div_trunc_bounds(sum as int, k as int, i64::MIN as int, i64::MAX as int);
            }
            let q: i128 = match sum.checked_div(k) {
                Some(q) => q,
                None => {
                    proof {
                        assert(false);
                    }
                    0
                },
            };
            proof {
                assert(q as int == div_trunc(sum as int, k as int));
            }
            q as i64
        };
        let o = &mut outputs[0];
        *o = out;
        proof {
            assert(outputs@ =~= old(self).written(inputs@, old(outputs)@));
        }
    }
}

/// A two-input amplifier: its output is the product of its two readings,
/// saturated to the sample range.
#[derive(Debug, Default)]
pub struct Vca {}

/// The product of two samples, saturated to the sample range.
pub open spec fn sat_mul(a: int, b: int) -> i64 {
    if a * b > i64::MAX as int {
        i64::MAX
    } else if a * b < i64::MIN as int {
        i64::MIN
    } else {
        (a * b) as i64
    }
}

impl Module for Vca {
    open spec fn spec_inputs(&self) -> nat {
        2
    }

    open spec fn spec_outputs(&self) -> nat {
        1
    }

    open spec fn stepped(&self, ins: Seq<Option<i64>>) -> Vca {
        *self
    }

    open spec fn written(&self, ins: Seq<Option<i64>>, prev: Seq<i64>) -> Seq<i64> {
        Seq::new(
            prev.len(),
            |i: int| sat_mul(sample_or_zero(ins[0]) as int, sample_or_zero(ins[1]) as int),
        )
    }

    proof fn lemma_step_wf(&self, ins: Seq<Option<i64>>, prev: Seq<i64>) {
    }

    fn num_inputs(&self) -> u8 {
        2
    }

    fn num_outputs(&self) -> u8 {
        1
    }

    fn run(&mut self, inputs: &Vec<Option<i64>>, outputs: &mut Vec<i64>) {
        let a: i64 = match inputs[0] {
            Some(v) => v,
            None => 0,
        };
        let b: i64 = match inputs[1] {
            Some(v) => v,
            None => 0,
        };
        let out: i64 = match a.checked_mul(b) {
            Some(v) => v,
            None => {
                proof {
                    assert(a != 0 && b != 0);
                    if (a < 0) == (b < 0) {
                        assert(((a as int) * (b as int)) > 0) by (nonlinear_arith)
                            requires
                                ((a < 0) == (b < 0)) && a != 0 && b != 0,
                        ;
                    } else {
                        assert(((a as int) * (b as int)) < 0) by (nonlinear_arith)
                            requires
                                ((a < 0) != (b < 0)) && a != 0 && b != 0,
                        ;
                    }
                }
                if (a < 0) == (b < 0) {
                    i64::MAX
                } else {
                    i64::MIN
                }
            },
        };
        let o = &mut outputs[0];
        *o = out;
        proof {
            assert(outputs@ =~= old(self).written(inputs@, old(outputs)@));
        }
    }
}

/// A source module: no inputs, one output, which it sets to a fixed level
/// every tick.
#[derive(Debug, Default)]
pub struct Level {
    pub level: i64,
}

impl Level {
    /// A source that writes `level` every tick.
    pub fn new(level: i64) -> (r: Level)
        ensures
            r.level == level,
    {
        Level { level }
    }
}

impl Module for Level {
    open spec fn spec_inputs(&self) -> nat {
        0
    }

    open spec fn spec_outputs(&self) -> nat {
        1
    }

    open spec fn stepped(&self, ins: Seq<Option<i64>>) -> Level {
        *self
    }

    open spec fn written(&self, ins: Seq<Option<i64>>, prev: Seq<i64>) -> Seq<i64> {
        Seq::new(prev.len(), |i: int| self.level)
    }

    proof fn lemma_step_wf(&self, ins: Seq<Option<i64>>, prev: Seq<i64>) {
    }

    fn num_inputs(&self) -> u8 {
        0
    }

    fn num_outputs(&self) -> u8 {
        1
    }

    fn run(&mut self, inputs: &Vec<Option<i64>>, outputs: &mut Vec<i64>) {
        let v = self.level;
        let o = &mut outputs[0];
        *o = v;
        proof {
            assert(outputs@ =~= old(self).written(inputs@, old(outputs)@));
        }
    }
}

/// A zero level is an always-silent module: it writes silence in every state
/// it can reach (its state, in fact, never changes).
pub proof fn lemma_level_zero_silent(m: Level)
    requires
        m.level == 0,
    ensures
        crate::engine::always_silent(m),
{
    assert forall|ins: Seq<Option<i64>>, prev: Seq<i64>| #[trigger] m.written(ins, prev)
        == Seq::new(prev.len(), |i: int| 0i64) by {
        assert(m.written(ins, prev) =~= Seq::new(prev.len(), |i: int| 0i64));
    }
    crate::engine::lemma_stateless_silent(m);
}

/// Any of the library's module kinds, so one graph can hold a mix of them.
#[derive(Debug)]
pub enum AnyModule {
    Level(Level),
    Mixer(Mixer),
    Vca(Vca),
}

impl Module for AnyModule {
    open spec fn spec_inputs(&self) -> nat {
        match *self {
            AnyModule::Level(m) => m.spec_inputs(),
            AnyModule::Mixer(m) => m.spec_inputs(),
            AnyModule::Vca(m) => m.spec_inputs(),
        }
    }

    open spec fn spec_outputs(&self) -> nat {
        match *self {
            AnyModule::Level(m) => m.spec_outputs(),
            AnyModule::Mixer(m) => m.spec_outputs(),
            AnyModule::Vca(m) => m.spec_outputs(),
        }
    }

    open spec fn stepped(&self, ins: Seq<Option<i64>>) -> AnyModule {
        match *self {
            AnyModule::Level(m) => AnyModule::Level(m.stepped(ins)),
            AnyModule::Mixer(m) => AnyModule::Mixer(m.stepped(ins)),
            AnyModule::Vca(m) => AnyModule::Vca(m.stepped(ins)),
        }
    }

    open spec fn written(&self, ins: Seq<Option<i64>>, prev: Seq<i64>) -> Seq<i64> {
        match *self {
            AnyModule::Level(m) => m.written(ins, prev),
            AnyModule::Mixer(m) => m.written(ins, prev),
            AnyModule::Vca(m) => m.written(ins, prev),
        }
    }

    proof fn lemma_step_wf(&self, ins: Seq<Option<i64>>, prev: Seq<i64>) {
        match *self {
            AnyModule::Level(m) => m.lemma_step_wf(ins, prev),
            AnyModule::Mixer(m) => m.lemma_step_wf(ins, prev),
            AnyModule::Vca(m) => m.lemma_step_wf(ins, prev),
        }
    }

    fn num_inputs(&self) -> u8 {
        match self {
            AnyModule::Level(m) => m.num_inputs(),
            AnyModule::Mixer(m) => m.num_inputs(),
            AnyModule::Vca(m) => m.num_inputs(),
        }
    }

    fn num_outputs(&self) -> u8 {
        match self {
            AnyModule::Level(m) => m.num_outputs(),
            AnyModule::Mixer(m) => m.num_outputs(),
            AnyModule::Vca(m) => m.num_outputs(),
        }
    }

    fn run(&mut self, inputs: &Vec<Option<i64>>, outputs: &mut Vec<i64>) {
        match self {
            AnyModule::Level(m) => m.run(inputs, outputs),
            AnyModule::Mixer(m) => m.run(inputs, outputs),
            AnyModule::Vca(m) => m.run(inputs, outputs),
        }
    }
}

} // verus!
