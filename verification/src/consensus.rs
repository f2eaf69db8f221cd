use vstd::prelude::*;
use crate::trit::{Trit, trit_count, trit_total, swapped, swap_partner, lemma_count_swap, lemma_total_is_approvals_less_rejections};

verus! {

/// The weight of the `i`-th vote: the listed weight, or 1 past the end of the list.
pub open spec fn weight_at(weights: Seq<i8>, i: int) -> int {
    if 0 <= i < weights.len() {
        weights[i] as int
    } else {
        1
    }
}

/// The weighted sum of a sequence of votes.
pub open spec fn weighted_total(weights: Seq<i8>, s: Seq<Trit>) -> int
    decreases s.len(),
{
    if s.len() == 0 {
        0
    } else {
        weighted_total(weights, s.drop_last()) + s.last().value() * weight_at(weights, s.len() - 1)
    }
}

/// All votes that are not abstentions agree.
pub open spec fn non_abstainers_agree(s: Seq<Trit>) -> bool {
    forall|i: int, j: int|
        0 <= i < s.len() && 0 <= j < s.len() && s[i] != Trit::Abstain && s[j] != Trit::Abstain
            ==> s[i] == s[j]
}

/// The outcome of a majority among non-abstaining votes.
pub open spec fn majority_of(s: Seq<Trit>) -> Trit {
    let a = trit_count(s, Trit::Approve);
    let r = trit_count(s, Trit::Reject);
    if a > r {
        Trit::Approve
    } else if r > a {
        Trit::Reject
    } else {
        Trit::Abstain
    }
}

/// The outcome of a vote in which any rejection vetoes.
pub open spec fn veto_of(s: Seq<Trit>) -> Trit {
    if exists|i: int| 0 <= i < s.len() && s[i] == Trit::Reject {
        Trit::Reject
    } else if forall|i: int| 0 <= i < s.len() ==> s[i] == Trit::Approve {
        Trit::Approve
    } else {
        Trit::Abstain
    }
}

/// Consensus mixing strategy: how agent outputs are combined.
#[derive(Debug, Clone)]
pub struct ConsensusMix {
    pub weights: Vec<i8>,
}

impl ConsensusMix {
    pub fn new(weights: Vec<i8>) -> (r: Self)
        ensures
            r.weights@ == weights@,
    {
        ConsensusMix { weights }
    }

    /// Equal weighting for `n` agents.
    pub fn uniform(n: usize) -> (r: Self)
        ensures
            r.weights@ == Seq::new(n as nat, |i: int| 1i8),
    {
        let mut weights: Vec<i8> = Vec::new();
        let mut i: usize = 0;
        while i < n
            invariant
                i <= n,
                weights@ == Seq::new(i as nat, |k: int| 1i8),
            decreases n - i,
        {
            weights.push(1);
            i = i + 1;
        }
        ConsensusMix { weights }
    }

    /// Weighted vote: the sign of the weighted sum, missing weights counting 1.
    pub fn weighted_vote(&self, values: &[Trit]) -> (r: Trit)
        ensures
            r == Trit::of_sign(weighted_total(self.weights@, values@)),
    {
        let n: usize = values.len();
        let mut acc: i128 = 0;
        let mut i: usize = 0;
        while i < n
            invariant
                n == values@.len(),
                i <= n,
                acc == weighted_total(self.weights@, values@.take(i as int)),
                -128 * (i as int) <= acc <= 128 * (i as int),
            decreases n - i,
        {
            assert(values@.take(i as int + 1).drop_last() =~= values@.take(i as int));
            let w: i8 = if i < self.weights.len() {
                self.weights[i]
            } else {
                1
            };
            let v: i8 = values[i].to_i8();
            assert(-128 <= (v as int) * (w as int) <= 128) by (nonlinear_arith)
                requires
                    -1 <= v <= 1,
                    -128 <= w <= 127,
            ;
            acc = acc + (v as i128) * (w as i128);
            i = i + 1;
        }
        assert(values@.take(n as int) =~= values@);
        if acc > 0 {
            Trit::Approve
        } else if acc < 0 {
            Trit::Reject
        } else {
            Trit::Abstain
        }
    }

    /// Unanimous agreement required: true when all non-abstainers agree.
    pub fn unanimous(&self, values: &[Trit]) -> (r: bool)
        ensures
            r == non_abstainers_agree(values@),
    {
        let n: usize = values.len();
        let mut first: Option<Trit> = None;
        let mut i: usize = 0;
        while i < n
            invariant
                n == values@.len(),
                i <= n,
                first is None ==> forall|k: int| 0 <= k < i ==> values@[k] == Trit::Abstain,
                first matches Some(f) ==> f != Trit::Abstain && (exists|k: int|
                    0 <= k < i && values@[k] == f) && forall|k: int|
                    0 <= k < i && values@[k] != Trit::Abstain ==> values@[k] == f,
            decreases n - i,
        {
            let v = values[i];
            match v {
                Trit::Abstain => {},
                _ => {
                    match first {
                        None => {
                            first = Some(v);
                        },
                        Some(f) => {
                            if f != v {
                                let ghost j = choose|k: int| 0 <= k < i && values@[k] == f;
                                assert(values@[j] != values@[i as int]);
                                return false;
                            }
                        },
                    }
                },
            }
            i = i + 1;
        }
        true
    }

    /// Majority rules among non-abstain votes.
    pub fn majority(&self, values: &[Trit]) -> (r: Trit)
        ensures
            r == majority_of(values@),
    {
        let n: usize = values.len();
        let mut approve: usize = 0;
        let mut reject: usize = 0;
        let mut i: usize = 0;
        while i < n
            invariant
                n == values@.len(),
                i <= n,
                approve == trit_count(values@.take(i as int), Trit::Approve),
                reject == trit_count(values@.take(i as int), Trit::Reject),
                approve + reject <= i,
            decreases n - i,
        {
            assert(values@.take(i as int + 1).drop_last() =~= values@.take(i as int));
            match values[i] {
                Trit::Approve => {
                    approve = approve + 1;
                },
                Trit::Reject => {
                    reject = reject + 1;
                },
                _ => {},
            }
            i = i + 1;
        }
        assert(values@.take(n as int) =~= values@);
        if approve > reject {
            Trit::Approve
        } else if reject > approve {
            Trit::Reject
        } else {
            Trit::Abstain
        }
    }

    /// Any reject vetoes the whole thing; all approving approves; otherwise abstain.
    pub fn veto(&self, values: &[Trit]) -> (r: Trit)
        ensures
            r == veto_of(values@),
    {
        let n: usize = values.len();
        let mut i: usize = 0;
        while i < n
            invariant
                n == values@.len(),
                i <= n,
                forall|k: int| 0 <= k < i ==> values@[k] != Trit::Reject,
            decreases n - i,
        {
            if values[i] == Trit::Reject {
                return Trit::Reject;
            }
            i = i + 1;
        }
        let mut j: usize = 0;
        while j < n
            invariant
                n == values@.len(),
                j <= n,
                forall|k: int| 0 <= k < n ==> values@[k] != Trit::Reject,
                forall|k: int| 0 <= k < j ==> values@[k] == Trit::Approve,
            decreases n - j,
        {
            if values[j] != Trit::Approve {
                return Trit::Abstain;
            }
            j = j + 1;
        }
        Trit::Approve
    }
}

/// With every weight 1, the weighted sum is the plain sum.
pub proof fn lemma_unit_weights_total(n: nat, s: Seq<Trit>)
    ensures
        weighted_total(Seq::new(n, |i: int| 1i8), s) == trit_total(s),
    decreases s.len(),
{
    if s.len() > 0 {
        lemma_unit_weights_total(n, s.drop_last());
    }
}

/// A uniformly weighted vote decides as the plain sum of the votes does.
pub proof fn lemma_uniform_vote_is_sum(n: nat, s: Seq<Trit>)
    ensures
        Trit::of_sign(weighted_total(Seq::new(n, |i: int| 1i8), s)) == Trit::of_sign(trit_total(s)),
{
    lemma_unit_weights_total(n, s);
}

/// Changing the vote at `i` from `s[i]` to `x` moves the weighted sum by the
/// change in value times the weight listed at `i`, taken as it is, or times 1
/// where no weight is listed.
pub proof fn lemma_weighted_total_update(w: Seq<i8>, s: Seq<Trit>, i: int, x: Trit)
    requires
        0 <= i < s.len(),
    ensures
        weighted_total(w, s.update(i, x)) == weighted_total(w, s) + (x.value() - s[i].value()) * (if i
            < w.len() {
            w[i] as int
        } else {
            1int
        }),
    decreases s.len(),
{
    let u = s.update(i, x);
    let wi: int = if i < w.len() {
        w[i] as int
    } else {
        1int
    };
    if i == s.len() - 1 {
        assert(u.drop_last() =~= s.drop_last());
        assert(x.value() * wi - s[i].value() * wi == (x.value() - s[i].value()) * wi) by (nonlinear_arith);
    } else {
        lemma_weighted_total_update(w, s.drop_last(), i, x);
        assert(u.drop_last() =~= s.drop_last().update(i, x));
    }
}

/// A vote whose listed weight is 0 does not count: turning it into an
/// abstention leaves the weighted sum, and so the weighted vote, unchanged.
pub proof fn lemma_zero_weight_vote_ignored(w: Seq<i8>, s: Seq<Trit>, i: int)
    requires
        0 <= i < s.len(),
        i < w.len(),
        w[i] == 0,
    ensures
        weighted_total(w, s.update(i, Trit::Abstain)) == weighted_total(w, s),
{
    lemma_weighted_total_update(w, s, i, Trit::Abstain);
    let d = Trit::Abstain.value() - s[i].value();
    assert(d * (w[i] as int) == 0) by (nonlinear_arith)
        requires
            w[i] as int == 0,
    ;
}

/// Majority among non-abstainers decides as the plain sum of the votes does.
pub proof fn lemma_majority_is_sum(s: Seq<Trit>)
    ensures
        majority_of(s) == Trit::of_sign(trit_total(s)),
{
    lemma_total_is_approvals_less_rejections(s);
}

/// Majority counts every vote: one more rejection after votes without an
/// approving majority gives Reject, and one more approval after votes without
/// a rejecting majority gives Approve; an abstention changes nothing.
pub proof fn lemma_majority_push(s: Seq<Trit>)
    ensures
        majority_of(s) != Trit::Approve ==> majority_of(s.push(Trit::Reject)) == Trit::Reject,
        majority_of(s) != Trit::Reject ==> majority_of(s.push(Trit::Approve)) == Trit::Approve,
        majority_of(s.push(Trit::Abstain)) == majority_of(s),
{
    assert(s.push(Trit::Reject).drop_last() =~= s);
    assert(s.push(Trit::Approve).drop_last() =~= s);
    assert(s.push(Trit::Abstain).drop_last() =~= s);
}

/// Majority and veto do not depend on the order of the votes.
pub proof fn lemma_order_independent(s: Seq<Trit>, i: int, j: int)
    requires
        0 <= i < s.len(),
        0 <= j < s.len(),
    ensures
        majority_of(swapped(s, i, j)) == majority_of(s),
        veto_of(swapped(s, i, j)) == veto_of(s),
{
    let u = swapped(s, i, j);
    lemma_count_swap(s, i, j, Trit::Approve);
    lemma_count_swap(s, i, j, Trit::Reject);
    if exists|k: int| 0 <= k < s.len() && s[k] == Trit::Reject {
        let k = choose|k: int| 0 <= k < s.len() && s[k] == Trit::Reject;
        let m = swap_partner(k, i, j);
        assert(u[m] == s[k]);
    }
    if exists|k: int| 0 <= k < u.len() && u[k] == Trit::Reject {
        let k = choose|k: int| 0 <= k < u.len() && u[k] == Trit::Reject;
        let m = swap_partner(k, i, j);
        assert(s[m] == u[k]);
    }
    if exists|k: int| 0 <= k < s.len() && s[k] != Trit::Approve {
        let k = choose|k: int| 0 <= k < s.len() && s[k] != Trit::Approve;
        let m = swap_partner(k, i, j);
        assert(u[m] == s[k]);
    }
    if exists|k: int| 0 <= k < u.len() && u[k] != Trit::Approve {
        let k = choose|k: int| 0 <= k < u.len() && u[k] != Trit::Approve;
        let m = swap_partner(k, i, j);
        assert(s[m] == u[k]);
    }
}

/// A rejection at any position vetoes; an approval needs every vote to
/// approve; a veto never rejects without a rejection.
pub proof fn lemma_veto_decides(s: Seq<Trit>, i: int)
    requires
        0 <= i < s.len(),
    ensures
        s[i] == Trit::Reject ==> veto_of(s) == Trit::Reject,
        s[i] != Trit::Approve ==> veto_of(s) != Trit::Approve,
        veto_of(s) == Trit::Reject ==> exists|k: int| 0 <= k < s.len() && s[k] == Trit::Reject,
{
}

} // verus!
