use vstd::prelude::*;
use crate::trit::Trit;

verus! {

/// The sign of an integer: -1, 0 or 1.
pub open spec fn sign(x: int) -> int {
    if x > 0 {
        1
    } else if x < 0 {
        -1
    } else {
        0
    }
}

/// `x` clamped into the range [-1, 1].
pub open spec fn clamp_unit(x: int) -> int {
    if x > 1 {
        1
    } else if x < -1 {
        -1
    } else {
        x
    }
}

/// Absolute value.
pub open spec fn abs(x: int) -> int {
    if x < 0 {
        -x
    } else {
        x
    }
}

pub(crate) fn sign_i8(x: i8) -> (r: i8)
    ensures
        r == sign(x as int),
{
    if x > 0 {
        1
    } else if x < 0 {
        -1
    } else {
        0
    }
}

pub(crate) fn clamp_unit_i8(x: i8) -> (r: i8)
    ensures
        r == clamp_unit(x as int),
{
    if x > 1 {
        1
    } else if x < -1 {
        -1
    } else {
        x
    }
}

fn abs_i8(x: i8) -> (r: i8)
    requires
        x > i8::MIN,
    ensures
        r == abs(x as int),
{
    if x < 0 {
        -x
    } else {
        x
    }
}

/// Constraint on how agents can contribute: the "improv rule".
#[derive(Debug, Clone, Copy, PartialEq, Eq, Structural)]
pub enum CollabRule {
    /// Build on the previous agent's output.
    Parallel,
    /// Challenge or disagree with the previous output: play its opposite.
    Contrary,
    /// Unconstrained.
    Free,
    /// Converge toward consensus.
    Resolve,
}

impl CollabRule {
    /// The decision that the rule produces after `prev` for an agent with
    /// `tendency`: Parallel moves from `prev` the way the tendency leans,
    /// Contrary moves from the opposite of `prev` the way the tendency leans,
    /// Free plays the tendency itself, Resolve settles on abstaining.
    pub open spec fn spec_apply(self, prev: Trit, tendency: i8) -> Trit {
        match self {
            CollabRule::Parallel => Trit::of_sign(prev.value() + sign(tendency as int)),
            CollabRule::Contrary => Trit::of_sign(sign(tendency as int) - prev.value()),
            CollabRule::Free => match Trit::from_int(tendency as int) {
                Some(t) => t,
                None => Trit::Abstain,
            },
            CollabRule::Resolve => Trit::Abstain,
        }
    }

    /// Whether the step from `prev` to `next` respects the rule.
    pub open spec fn spec_check(self, prev: Trit, next: Trit) -> bool {
        let p = prev.value();
        let n = next.value();
        match self {
            CollabRule::Parallel => p == 0 || n == p,
            CollabRule::Contrary => p == 0 || n != p,
            CollabRule::Free => true,
            CollabRule::Resolve => abs(n) <= abs(p),
        }
    }

    pub fn apply(self, prev: Trit, tendency: i8) -> (r: Trit)
        ensures
            r == self.spec_apply(prev, tendency),
    {
        let p = prev.to_i8();
        match self {
            CollabRule::Parallel => {
                match Trit::from_i8(clamp_unit_i8(p + sign_i8(tendency))) {
                    Some(t) => t,
                    None => Trit::Abstain,
                }
            },
            CollabRule::Contrary => {
                match Trit::from_i8(clamp_unit_i8(sign_i8(tendency) - p)) {
                    Some(t) => t,
                    None => Trit::Abstain,
                }
            },
            CollabRule::Free => match Trit::from_i8(tendency) {
                Some(t) => t,
                None => Trit::Abstain,
            },
            CollabRule::Resolve => {
                if p > 0 {
                    match Trit::from_i8(p - 1) {
                        Some(t) => t,
                        None => Trit::Abstain,
                    }
                } else if p < 0 {
                    match Trit::from_i8(p + 1) {
                        Some(t) => t,
                        None => Trit::Abstain,
                    }
                } else {
                    Trit::Abstain
                }
            },
        }
    }

    pub fn check(self, prev: Trit, next: Trit) -> (r: bool)
        ensures
            r == self.spec_check(prev, next),
    {
        let p = prev.to_i8();
        let n = next.to_i8();
        match self {
            CollabRule::Parallel => sign_i8(n - p) != -sign_i8(p) || p == 0 || n == p,
            CollabRule::Contrary => sign_i8(n - p) == -sign_i8(p) || p == 0,
            CollabRule::Free => true,
            CollabRule::Resolve => abs_i8(n) <= abs_i8(p),
        }
    }
}

/// What a rule produces respects that same rule, except where a Parallel
/// agent's tendency points against a nonzero previous decision.
pub proof fn lemma_apply_respects_check(rule: CollabRule, prev: Trit, tendency: i8)
    requires
        rule == CollabRule::Parallel ==> (prev.value() == 0 || sign(tendency as int) != -prev.value()),
    ensures
        rule.spec_check(prev, rule.spec_apply(prev, tendency)),
{
}

/// A Contrary agent plays the opposite of a decision that its tendency does not
/// lean toward; so after an approval, an agent leaning to reject (or to nothing)
/// rejects, and the two conflict.
pub proof fn lemma_contrary_opposes(prev: Trit, tendency: i8)
    requires
        prev != Trit::Abstain,
        sign(tendency as int) != prev.value(),
    ensures
        CollabRule::Contrary.spec_apply(prev, tendency).value() == -prev.value(),
{
}

/// Parallel takes one step from the previous decision the way the tendency
/// leans, stopping at the ends; with no tendency it repeats the previous
/// decision. After an abstention it therefore plays the tendency's sign.
pub proof fn lemma_parallel_steps_with_tendency(prev: Trit, tendency: i8)
    ensures
        tendency > 0 ==> CollabRule::Parallel.spec_apply(prev, tendency).value() == (if prev.value() < 1 {
            prev.value() + 1
        } else {
            1
        }),
        tendency < 0 ==> CollabRule::Parallel.spec_apply(prev, tendency).value() == (if prev.value() > -1 {
            prev.value() - 1
        } else {
            -1
        }),
        tendency == 0 ==> CollabRule::Parallel.spec_apply(prev, tendency) == prev,
        CollabRule::Parallel.spec_apply(Trit::Abstain, tendency).value() == sign(tendency as int),
{
}

/// Contrary is Parallel played from the opposite of the previous decision.
pub proof fn lemma_contrary_is_parallel_from_opposite(prev: Trit, tendency: i8)
    ensures
        CollabRule::Contrary.spec_apply(prev, tendency) == CollabRule::Parallel.spec_apply(
            match prev {
                Trit::Reject => Trit::Approve,
                Trit::Abstain => Trit::Abstain,
                Trit::Approve => Trit::Reject,
            },
            tendency,
        ),
{
}

} // verus!
