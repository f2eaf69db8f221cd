use vstd::prelude::*;
use vstd::arithmetic::div_mod::{lemma_add_mod_noop_right, lemma_mod_add_multiples_vanish, lemma_small_mod};

verus! {

/// Work phases the team cycles through: the "chord progression".
#[derive(Debug, Clone, Copy, PartialEq, Eq, Structural)]
pub enum Phase {
    Research,
    Design,
    Build,
    Test,
    Refine,
    Ship,
}

impl Phase {
    /// All phases in their standard order.
    pub open spec fn spec_cycle() -> Seq<Phase> {
        seq![Phase::Research, Phase::Design, Phase::Build, Phase::Test, Phase::Refine, Phase::Ship]
    }

    /// Expected tension level of a phase.
    pub open spec fn spec_tension(self) -> int {
        match self {
            Phase::Research => 0,
            Phase::Design => 1,
            Phase::Build => 0,
            Phase::Test => 1,
            Phase::Refine => -1,
            Phase::Ship => 1,
        }
    }

    /// All phases in order.
    pub fn cycle() -> (r: Vec<Phase>)
        ensures
            r@ == Self::spec_cycle(),
    {
        vec![Phase::Research, Phase::Design, Phase::Build, Phase::Test, Phase::Refine, Phase::Ship]
    }

    /// Expected tension level for this phase (higher = more conflict expected).
    pub fn tension(self) -> (r: i8)
        ensures
            r == self.spec_tension(),
    {
        match self {
            Phase::Research => 0,
            Phase::Design => 1,
            Phase::Build => 0,
            Phase::Test => 1,
            Phase::Refine => -1,
            Phase::Ship => 1,
        }
    }
}

/// A sequence of task phases with a cursor on the current one.
#[derive(Debug, Clone)]
pub struct TaskProgression {
    pub phases: Vec<Phase>,
    pub current: usize,
}

impl TaskProgression {
    /// The progression after one advance: the cursor moves one step, wrapping.
    pub open spec fn advanced(self) -> TaskProgression {
        TaskProgression {
            phases: self.phases,
            current: ((self.current + 1) % (self.phases@.len() as int)) as usize,
        }
    }

    /// The progression after `k` advances.
    pub open spec fn advanced_n(self, k: nat) -> TaskProgression
        decreases k,
    {
        if k == 0 {
            self
        } else {
            self.advanced().advanced_n((k - 1) as nat)
        }
    }

    /// The cursor stands on a phase.
    pub open spec fn on_phase(self) -> bool {
        self.current < self.phases@.len()
    }

    pub fn new(phases: Vec<Phase>) -> (r: Self)
        ensures
            r.phases@ == phases@,
            r.current == 0,
    {
        TaskProgression { phases, current: 0 }
    }

    pub fn standard() -> (r: Self)
        ensures
            r.phases@ == Phase::spec_cycle(),
            r.current == 0,
    {
        Self::new(Phase::cycle())
    }

    /// Returns the current phase and moves on to the next one, wrapping.
    pub fn advance(&mut self) -> (r: Phase)
        requires
            old(self).on_phase(),
        ensures
            r == old(self).phases@[old(self).current as int],
            final(self).phases@ == old(self).advanced().phases@,
            final(self).current == old(self).advanced().current,
    {
        let p = self.phases[self.current];
        let n = self.phases.len();
        assert(self.current < n);
        self.current = (self.current + 1) % n;
        p
    }

    pub fn current_phase(&self) -> (r: Option<Phase>)
        ensures
            r == (if self.on_phase() { Some(self.phases@[self.current as int]) } else { None }),
    {
        if self.current < self.phases.len() {
            Some(self.phases[self.current])
        } else {
            None
        }
    }

    pub fn reset(&mut self)
        ensures
            final(self).phases@ == old(self).phases@,
            final(self).current == 0,
    {
        self.current = 0;
    }

    pub fn len(&self) -> (r: usize)
        ensures
            r == self.phases@.len(),
    {
        self.phases.len()
    }

    pub fn is_empty(&self) -> (r: bool)
        ensures
            r == (self.phases@.len() == 0),
    {
        self.phases.len() == 0
    }
}

/// From a cursor on a phase, `k` advances leave the phases as they were and
/// move the cursor `k` steps forward, wrapping; so the phase returned by the
/// advance that follows them is the one `k` places further on, cyclically.
pub proof fn lemma_advances_wrap(p: TaskProgression, k: nat)
    requires
        p.on_phase(),
    ensures
        p.advanced_n(k).phases@ == p.phases@,
        p.advanced_n(k).on_phase(),
        p.advanced_n(k).current == (p.current + k) % (p.phases@.len() as int),
        p.advanced_n(k).phases@[p.advanced_n(k).current as int]
            == p.phases@[(p.current + k) % (p.phases@.len() as int)],
    decreases k,
{
    let len = p.phases@.len() as int;
    if k == 0 {
        lemma_small_mod(p.current as nat, len as nat);
    } else {
        let q = p.advanced();
        vstd::arithmetic::div_mod::lemma_mod_pos_bound(p.current + 1, len);
        assert(p.phases.len() == len);
        assert(q.current == (p.current + 1) % len);
        assert(q.on_phase());
        lemma_advances_wrap(q, (k - 1) as nat);
        lemma_add_mod_noop_right(k - 1, p.current + 1, len);
        assert((p.current + 1) % len + (k - 1) == (k - 1) + (p.current + 1) % len);
        assert((k - 1) + (p.current + 1) == p.current + k);
    }
}

/// Advancing as many times as there are phases brings the cursor back where it was.
pub proof fn lemma_full_cycle_returns(p: TaskProgression)
    requires
        p.on_phase(),
    ensures
        p.advanced_n(p.phases@.len()).current == p.current,
        p.advanced_n(p.phases@.len()).phases@ == p.phases@,
{
    let len = p.phases@.len() as int;
    lemma_advances_wrap(p, p.phases@.len());
    lemma_mod_add_multiples_vanish(p.current as int, len);
    lemma_small_mod(p.current as nat, len as nat);
    assert(p.current + len == len + p.current);
}

} // verus!
