use vstd::prelude::*;

verus! {

/// Ternary decision value: Reject (-1), Abstain (0), Approve (+1).
#[derive(Debug, Clone, Copy, PartialEq, Eq, Structural, Hash)]
pub enum Trit {
    Reject,
    Abstain,
    Approve,
}

impl Trit {
    /// The integer that a decision stands for.
    pub open spec fn value(self) -> int {
        match self {
            Trit::Reject => -1,
            Trit::Abstain => 0,
            Trit::Approve => 1,
        }
    }

    /// The decision that an integer stands for, if any.
    pub open spec fn from_int(v: int) -> Option<Trit> {
        if v == -1 {
            Some(Trit::Reject)
        } else if v == 0 {
            Some(Trit::Abstain)
        } else if v == 1 {
            Some(Trit::Approve)
        } else {
            None
        }
    }

    /// The decision that carries the sign of `s`.
    pub open spec fn of_sign(s: int) -> Trit {
        if s > 0 {
            Trit::Approve
        } else if s < 0 {
            Trit::Reject
        } else {
            Trit::Abstain
        }
    }

    pub fn to_i8(self) -> (r: i8)
        ensures
            r == self.value(),
    {
        match self {
            Trit::Reject => -1,
            Trit::Abstain => 0,
            Trit::Approve => 1,
        }
    }

    pub fn from_i8(v: i8) -> (r: Option<Self>)
        ensures
            r == Self::from_int(v as int),
    {
        match v {
            -1 => Some(Trit::Reject),
            0 => Some(Trit::Abstain),
            1 => Some(Trit::Approve),
            _ => None,
        }
    }

    /// Emergent consensus of a slice: the sign of the sum of its values.
    pub fn sum(values: &[Trit]) -> (r: Trit)
        ensures
            r == Self::of_sign(trit_total(values@)),
    {
        let n: usize = values.len();
        let mut acc: i128 = 0;
        let mut i: usize = 0;
        while i < n
            invariant
                n == values@.len(),
                i <= n,
                acc == trit_total(values@.take(i as int)),
                -(i as int) <= acc <= i as int,
            decreases n - i,
        {
            assert(values@.take(i as int + 1).drop_last() =~= values@.take(i as int));
            acc = acc + values[i].to_i8() as i128;
            i = i + 1;
        }
        assert(values@.take(n as int) =~= values@);
        if acc > 0 {
            Trit::Approve
        } else if acc < 0 {
            Trit::Reject
        } else {
            Trit::Abstain
        }
    }
}

/// The sum of the values of a sequence of decisions.
pub open spec fn trit_total(s: Seq<Trit>) -> int
    decreases s.len(),
{
    if s.len() == 0 {
        0
    } else {
        trit_total(s.drop_last()) + s.last().value()
    }
}

/// The number of occurrences of `t` in `s`.
pub open spec fn trit_count(s: Seq<Trit>, t: Trit) -> nat
    decreases s.len(),
{
    if s.len() == 0 {
        0
    } else {
        trit_count(s.drop_last(), t) + if s.last() == t { 1nat } else { 0nat }
    }
}

/// `s` with the votes at `i` and `j` exchanged.
pub open spec fn swapped(s: Seq<Trit>, i: int, j: int) -> Seq<Trit> {
    s.update(i, s[j]).update(j, s[i])
}

/// Where position `k` goes when positions `i` and `j` are exchanged.
pub open spec fn swap_partner(k: int, i: int, j: int) -> int {
    if k == i {
        j
    } else if k == j {
        i
    } else {
        k
    }
}

/// Replacing one vote changes the count of a decision by what left and what came.
pub proof fn lemma_count_update(s: Seq<Trit>, i: int, x: Trit, t: Trit)
    requires
        0 <= i < s.len(),
    ensures
        trit_count(s.update(i, x), t) + (if s[i] == t { 1int } else { 0int })
            == trit_count(s, t) + (if x == t { 1int } else { 0int }),
    decreases s.len(),
{
    let u = s.update(i, x);
    if i == s.len() - 1 {
        assert(u.drop_last() =~= s.drop_last());
    } else {
        lemma_count_update(s.drop_last(), i, x, t);
        assert(u.drop_last() =~= s.drop_last().update(i, x));
    }
}

/// Exchanging two votes changes no count.
pub proof fn lemma_count_swap(s: Seq<Trit>, i: int, j: int, t: Trit)
    requires
        0 <= i < s.len(),
        0 <= j < s.len(),
    ensures
        trit_count(swapped(s, i, j), t) == trit_count(s, t),
{
    let u = s.update(i, s[j]);
    lemma_count_update(s, i, s[j], t);
    lemma_count_update(u, j, s[i], t);
    if i == j {
        assert(u[j] == s[j]);
    } else {
        assert(u[j] == s[j]);
    }
}

/// The sum of a sequence of decisions is its approvals less its rejections.
pub proof fn lemma_total_is_approvals_less_rejections(s: Seq<Trit>)
    ensures
        trit_total(s) == trit_count(s, Trit::Approve) - trit_count(s, Trit::Reject),
    decreases s.len(),
{
    if s.len() > 0 {
        lemma_total_is_approvals_less_rejections(s.drop_last());
    }
}

/// Converting a decision to its integer and back gives the decision again.
pub proof fn lemma_trit_roundtrip(t: Trit)
    ensures
        Trit::from_int(t.value()) == Some(t),
{
}

/// Exactly -1, 0 and 1 stand for a decision, and each stands for the one whose value it is.
pub proof fn lemma_from_int_exact(v: int)
    ensures
        Trit::from_int(v) is Some <==> (-1 <= v <= 1),
        Trit::from_int(v) matches Some(t) ==> t.value() == v,
{
}

} // verus!
