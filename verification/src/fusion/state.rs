//! Progress of a run: completions per stage, the fraction done and the
//! lifecycle stage, and the rule that holds the combine stage back until
//! every conversion has reported.

use vstd::prelude::*;

verus! {

/// The lifecycle stage of a run.
#[derive(Debug, Clone, Copy, PartialEq, Eq, Structural)]
pub enum FusionStage {
    Created,
    Converting,
    Combining,
    Completed,
}

/// An exact fraction. A zero denominator means that the fraction is not
/// defined.
#[derive(Debug, Clone, Copy, PartialEq, Eq, Structural)]
pub struct Fraction {
    pub numerator: u128,
    pub denominator: u128,
}

/// A completion signal of one of the two stages.
#[derive(Debug, Clone, Copy, PartialEq, Eq, Structural)]
pub enum Pulse {
    Convert,
    Combine,
}

/// The tallies of a run.
pub struct ShareStates {
    convert_complete_number: usize,
    combine_complete_number: usize,
    convert_tasks: usize,
    combine_tasks: usize,
}

/// The mathematical value of [`ShareStates`].
pub struct Tally {
    pub convert_total: nat,
    pub combine_total: nat,
    pub convert_done: nat,
    pub combine_done: nat,
}

impl View for ShareStates {
    type V = Tally;

    closed spec fn view(&self) -> Tally {
        Tally {
            convert_total: self.convert_tasks as nat,
            combine_total: self.combine_tasks as nat,
            convert_done: self.convert_complete_number as nat,
            combine_done: self.combine_complete_number as nat,
        }
    }
}

/// The tally after one more pulse.
pub open spec fn after_pulse(t: Tally, p: Pulse) -> Tally {
    match p {
        Pulse::Convert => Tally { convert_done: t.convert_done + 1, ..t },
        Pulse::Combine => Tally { combine_done: t.combine_done + 1, ..t },
    }
}

/// The tally after a sequence of pulses.
pub open spec fn after(t: Tally, pulses: Seq<Pulse>) -> Tally
    decreases pulses.len(),
{
    if pulses.len() == 0 {
        t
    } else {
        after_pulse(after(t, pulses.drop_last()), pulses.last())
    }
}

/// Conversion still has work to report.
pub open spec fn converting(t: Tally) -> bool {
    t.convert_total > 0 && t.convert_done < t.convert_total
}

/// Numerator and denominator of the fraction done. Conversion counts for
/// three quarters, combination for the last quarter. With nothing to do the
/// fraction is one. The denominator is zero where the last quarter would be
/// measured against no combine task at all.
pub open spec fn fraction_of(t: Tally) -> (nat, nat) {
    if t.convert_total + t.combine_total == 0 {
        (1, 1)
    } else if converting(t) {
        (3 * t.convert_done, 4 * t.convert_total)
    } else {
        (3 * t.combine_total + t.combine_done, 4 * t.combine_total)
    }
}

/// The stage that the tally stands for.
pub open spec fn stage_of(t: Tally) -> FusionStage {
    if t.convert_total + t.combine_total == 0 {
        FusionStage::Completed
    } else if t.convert_done == 0 && t.combine_done == 0 {
        FusionStage::Created
    } else if t.convert_done < t.convert_total && t.combine_done == 0 {
        FusionStage::Converting
    } else if t.convert_done == t.convert_total && t.combine_done < t.combine_total {
        FusionStage::Combining
    } else {
        FusionStage::Completed
    }
}

/// `a` is at most `b`, for fractions with positive denominators.
pub open spec fn fraction_le(a: (nat, nat), b: (nat, nat)) -> bool {
    a.0 * b.1 <= b.0 * a.1
}

impl ShareStates {
    /// A run with `convert_tasks` conversions and `combine_tasks`
    /// combinations ahead and none reported.
    pub fn new(convert_tasks: usize, combine_tasks: usize) -> (r: Self)
        ensures
            r@ == (Tally {
                convert_total: convert_tasks as nat,
                combine_total: combine_tasks as nat,
                convert_done: 0,
                combine_done: 0,
            }),
    {
        ShareStates {
            convert_complete_number: 0,
            combine_complete_number: 0,
            convert_tasks,
            combine_tasks,
        }
    }

    /// Counts one finished conversion. Returns whether this pulse completes
    /// the convert stage, which is when the combine stage is let go.
    pub fn convert_pulse(&mut self) -> (notify: bool)
        requires
            old(self)@.convert_done < usize::MAX,
        ensures
            final(self)@ == after_pulse(old(self)@, Pulse::Convert),
            notify == (final(self)@.convert_done == final(self)@.convert_total),
    {
        self.convert_complete_number = self.convert_complete_number + 1;
        self.convert_complete_number == self.convert_tasks
    }

    /// Counts one finished combination.
    pub fn combine_pulse(&mut self)
        requires
            old(self)@.combine_done < usize::MAX,
        ensures
            final(self)@ == after_pulse(old(self)@, Pulse::Combine),
    {
        self.combine_complete_number = self.combine_complete_number + 1;
    }

    /// The fraction done and the stage.
    pub fn progress(&self) -> (r: (Fraction, FusionStage))
        ensures
            r.0.numerator == fraction_of(self@).0,
            r.0.denominator == fraction_of(self@).1,
            r.1 == stage_of(self@),
    {
        let convert_tasks = self.convert_tasks as u128;
        let combine_tasks = self.combine_tasks as u128;
        let convert_complete = self.convert_complete_number as u128;
        let combine_complete = self.combine_complete_number as u128;
        if convert_tasks + combine_tasks == 0 {
            return (Fraction { numerator: 1, denominator: 1 }, FusionStage::Completed);
        }
        let progress = if convert_tasks == 0 || convert_complete >= convert_tasks {
            Fraction {
                numerator: 3 * combine_tasks + combine_complete,
                denominator: 4 * combine_tasks,
            }
        } else {
            Fraction { numerator: 3 * convert_complete, denominator: 4 * convert_tasks }
        };
        let stage = if convert_complete == 0 && combine_complete == 0 {
            FusionStage::Created
        } else if convert_complete < convert_tasks && combine_complete == 0 {
            FusionStage::Converting
        } else if convert_complete == convert_tasks && combine_complete < combine_tasks {
            FusionStage::Combining
        } else {
            FusionStage::Completed
        };
        (progress, stage)
    }
}

/// Pulses change no total and take no completion back.
pub proof fn lemma_after_grows(t: Tally, pulses: Seq<Pulse>)
    ensures
        after(t, pulses).convert_total == t.convert_total,
        after(t, pulses).combine_total == t.combine_total,
        after(t, pulses).convert_done >= t.convert_done,
        after(t, pulses).combine_done >= t.combine_done,
    decreases pulses.len(),
{
    if pulses.len() > 0 {
        lemma_after_grows(t, pulses.drop_last());
    }
}

/// A run is the run up to any of its points, continued.
pub proof fn lemma_after_split(t: Tally, pulses: Seq<Pulse>, j: int)
    requires
        0 <= j <= pulses.len(),
    ensures
        after(t, pulses) == after(after(t, pulses.take(j)), pulses.skip(j)),
    decreases pulses.len(),
{
    if j == pulses.len() {
        assert(pulses.take(j) =~= pulses);
        assert(pulses.skip(j).len() == 0);
    } else {
        lemma_after_split(t, pulses.drop_last(), j);
        assert(pulses.drop_last().take(j) =~= pulses.take(j));
        assert(pulses.drop_last().skip(j) =~= pulses.skip(j).drop_last());
        assert(pulses.skip(j).last() == pulses.last());
    }
}

/// The fraction done never goes down, whatever pulses arrive and in whatever
/// order, as long as it is defined: there is a combine task, or there is no
/// task at all.
pub proof fn lemma_progress_monotone(t: Tally, pulses: Seq<Pulse>)
    requires
        t.combine_total > 0 || t.convert_total == 0,
    ensures
        fraction_le(fraction_of(t), fraction_of(after(t, pulses))),
{
    let u = after(t, pulses);
    lemma_after_grows(t, pulses);
    let ct = t.convert_total as int;
    let bt = t.combine_total as int;
    let cd = t.convert_done as int;
    let bd = t.combine_done as int;
    let cd2 = u.convert_done as int;
    let bd2 = u.combine_done as int;
    if ct + bt == 0 {
    } else if converting(t) {
        if converting(u) {
            assert((3 * cd) * (4 * ct) <= (3 * cd2) * (4 * ct)) by (nonlinear_arith)
                requires
                    0 <= cd <= cd2,
                    0 < ct,
            ;
        } else {
            assert((3 * cd) * (4 * bt) <= (3 * bt + bd2) * (4 * ct)) by (nonlinear_arith)
                requires
                    0 <= cd < ct,
                    0 < bt,
                    0 <= bd2,
            ;
        }
    } else {
        assert(!converting(u));
        assert((3 * bt + bd) * (4 * bt) <= (3 * bt + bd2) * (4 * bt)) by (nonlinear_arith)
            requires
                0 <= bd <= bd2,
                0 <= bt,
        ;
    }
}

/// At some point of the run the conversions reported were exactly those planned.
pub open spec fn convert_stage_passed(t: Tally, pulses: Seq<Pulse>) -> bool {
    exists|j: int|
        0 <= j <= pulses.len() && (#[trigger] after(t, pulses.take(j))).convert_done
            == t.convert_total
}

/// The combine stage is let go only once the convert stage has passed:
/// before each combine pulse the conversions reported were, at some point,
/// exactly those planned.
pub open spec fn staged(t: Tally, pulses: Seq<Pulse>) -> bool {
    forall|i: int|
        0 <= i < pulses.len() && pulses[i] == Pulse::Combine ==> convert_stage_passed(
            t,
            #[trigger] pulses.take(i),
        )
}

/// A combination was counted, so one of the pulses was a combine pulse.
proof fn lemma_combine_pulse_exists(t: Tally, pulses: Seq<Pulse>) -> (i: int)
    requires
        after(t, pulses).combine_done > t.combine_done,
    ensures
        0 <= i < pulses.len(),
        pulses[i] == Pulse::Combine,
    decreases pulses.len(),
{
    if pulses.last() == Pulse::Combine {
        pulses.len() - 1
    } else {
        lemma_combine_pulse_exists(t, pulses.drop_last())
    }
}

/// In a staged run that starts with no combination counted, a combination is
/// counted only once every planned conversion has reported.
pub proof fn lemma_no_combine_before_convert_completes(t: Tally, pulses: Seq<Pulse>)
    requires
        t.combine_done == 0,
        staged(t, pulses),
    ensures
        after(t, pulses).combine_done > 0 ==> after(t, pulses).convert_done >= t.convert_total,
{
    if after(t, pulses).combine_done > 0 {
        let i = lemma_combine_pulse_exists(t, pulses);
        assert(convert_stage_passed(t, pulses.take(i)));
        let j = choose|j: int|
            0 <= j <= pulses.take(i).len() && (#[trigger] after(
                t,
                pulses.take(i).take(j),
            )).convert_done == t.convert_total;
        assert(pulses.take(i).take(j) =~= pulses.take(j));
        lemma_after_split(t, pulses, j);
        lemma_after_grows(after(t, pulses.take(j)), pulses.skip(j));
    }
}

} // verus!
