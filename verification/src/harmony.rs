use vstd::prelude::*;
use crate::trit::{Trit, trit_count, swapped, swap_partner, lemma_count_swap};

verus! {

/// Two decisions conflict: neither abstains and they differ.
pub open spec fn is_conflict(a: Trit, b: Trit) -> bool {
    a != Trit::Abstain && b != Trit::Abstain && a != b
}

/// Two decisions agree: neither abstains and they are equal.
pub open spec fn is_agreement(a: Trit, b: Trit) -> bool {
    a != Trit::Abstain && b != Trit::Abstain && a == b
}

/// `is_conflict` when `conflict` holds, `is_agreement` otherwise.
pub open spec fn pair_matches(a: Trit, b: Trit, conflict: bool) -> bool {
    if conflict {
        is_conflict(a, b)
    } else {
        is_agreement(a, b)
    }
}

/// The number of `j` with `i < j < hi` whose pair with `i` matches.
pub open spec fn row_count(s: Seq<Trit>, i: int, hi: int, conflict: bool) -> nat
    decreases hi - i,
{
    if hi <= i + 1 {
        0
    } else {
        row_count(s, i, hi - 1, conflict) + if pair_matches(s[i], s[hi - 1], conflict) {
            1nat
        } else {
            0nat
        }
    }
}

/// The number of matching pairs `i < j` of `s` with `i < m`.
pub open spec fn rows_count(s: Seq<Trit>, m: int, conflict: bool) -> nat
    decreases m,
{
    if m <= 0 {
        0
    } else {
        rows_count(s, m - 1, conflict) + row_count(s, m - 1, s.len() as int, conflict)
    }
}

/// The number of pairs of positions in `s` whose decisions conflict.
pub open spec fn conflict_pairs(s: Seq<Trit>) -> nat {
    rows_count(s, s.len() as int, true)
}

/// The number of pairs of positions in `s` whose decisions agree.
pub open spec fn agreement_pairs(s: Seq<Trit>) -> nat {
    rows_count(s, s.len() as int, false)
}

/// Some decision in `s` approves.
pub open spec fn has_approve(s: Seq<Trit>) -> bool {
    exists|i: int| 0 <= i < s.len() && s[i] == Trit::Approve
}

proof fn lemma_row_count_mono(s: Seq<Trit>, i: int, j: int, hi: int, conflict: bool)
    requires
        j <= hi,
    ensures
        row_count(s, i, j, conflict) <= row_count(s, i, hi, conflict),
    decreases hi - j,
{
    if j < hi {
        lemma_row_count_mono(s, i, j, hi - 1, conflict);
    }
}

proof fn lemma_rows_count_mono(s: Seq<Trit>, m: int, hi: int, conflict: bool)
    requires
        m <= hi,
    ensures
        rows_count(s, m, conflict) <= rows_count(s, hi, conflict),
    decreases hi - m,
{
    if m < hi {
        lemma_rows_count_mono(s, m, hi - 1, conflict);
    }
}

/// The number of occurrences of `t` in `s[lo..hi]`.
pub open spec fn range_count(s: Seq<Trit>, lo: int, hi: int, t: Trit) -> nat {
    trit_count(s.subrange(lo, hi), t)
}

proof fn lemma_range_count_split(s: Seq<Trit>, lo: int, mid: int, hi: int, t: Trit)
    requires
        0 <= lo <= mid <= hi <= s.len(),
    ensures
        range_count(s, lo, hi, t) == range_count(s, lo, mid, t) + range_count(s, mid, hi, t),
    decreases hi - mid,
{
    if hi == mid {
        assert(s.subrange(mid, hi) =~= Seq::<Trit>::empty());
    } else {
        lemma_range_count_split(s, lo, mid, hi - 1, t);
        assert(s.subrange(lo, hi).drop_last() =~= s.subrange(lo, hi - 1));
        assert(s.subrange(mid, hi).drop_last() =~= s.subrange(mid, hi - 1));
    }
}

proof fn lemma_range_count_single(s: Seq<Trit>, i: int, t: Trit)
    requires
        0 <= i < s.len(),
    ensures
        range_count(s, i, i + 1, t) == if s[i] == t { 1nat } else { 0nat },
{
    let x = s.subrange(i, i + 1);
    assert(x.drop_last() =~= Seq::<Trit>::empty());
    assert(trit_count(x.drop_last(), t) == 0);
    assert(x.last() == s[i]);
}

/// The partners that a row counts: the opposite decisions after `i` for
/// conflicts, the same decision after `i` for agreements.
proof fn lemma_row_count_closed(s: Seq<Trit>, i: int, hi: int, conflict: bool)
    requires
        0 <= i < hi <= s.len(),
    ensures
        row_count(s, i, hi, conflict) == (if s[i] == Trit::Abstain {
            0nat
        } else if conflict {
            range_count(s, i + 1, hi, if s[i] == Trit::Approve { Trit::Reject } else { Trit::Approve })
        } else {
            range_count(s, i + 1, hi, s[i])
        }),
    decreases hi - i,
{
    if hi == i + 1 {
        assert(s.subrange(i + 1, hi) =~= Seq::<Trit>::empty());
    } else {
        lemma_row_count_closed(s, i, hi - 1, conflict);
        assert(s.subrange(i + 1, hi).drop_last() =~= s.subrange(i + 1, hi - 1));
    }
}

proof fn lemma_rows_count_closed(s: Seq<Trit>, m: int)
    requires
        0 <= m <= s.len(),
    ensures
        ({
            let n = s.len() as int;
            let a = range_count(s, 0, m, Trit::Approve) as int;
            let r = range_count(s, 0, m, Trit::Reject) as int;
            let a2 = range_count(s, m, n, Trit::Approve) as int;
            let r2 = range_count(s, m, n, Trit::Reject) as int;
            &&& rows_count(s, m, true) == a * r + a * r2 + r * a2
            &&& 2 * rows_count(s, m, false) == a * (a - 1) + r * (r - 1) + 2 * a * a2 + 2 * r * r2
        }),
    decreases m,
{
    let n = s.len() as int;
    if m == 0 {
        assert(s.subrange(0, 0) =~= Seq::<Trit>::empty());
        assert(range_count(s, 0, 0, Trit::Approve) == 0);
        assert(range_count(s, 0, 0, Trit::Reject) == 0);
    } else {
        let k = m - 1;
        lemma_rows_count_closed(s, k);
        lemma_row_count_closed(s, k, n, true);
        lemma_row_count_closed(s, k, n, false);
        lemma_range_count_split(s, 0, k, m, Trit::Approve);
        lemma_range_count_split(s, 0, k, m, Trit::Reject);
        lemma_range_count_split(s, k, m, n, Trit::Approve);
        lemma_range_count_split(s, k, m, n, Trit::Reject);
        lemma_range_count_single(s, k, Trit::Approve);
        lemma_range_count_single(s, k, Trit::Reject);
        let a = range_count(s, 0, k, Trit::Approve) as int;
        let r = range_count(s, 0, k, Trit::Reject) as int;
        let a2 = range_count(s, m, n, Trit::Approve) as int;
        let r2 = range_count(s, m, n, Trit::Reject) as int;
        let c0 = rows_count(s, k, true) as int;
        let g0 = rows_count(s, k, false) as int;
        let c1 = rows_count(s, m, true) as int;
        let g1 = rows_count(s, m, false) as int;
        let ak2 = range_count(s, k, n, Trit::Approve) as int;
        let rk2 = range_count(s, k, n, Trit::Reject) as int;
        assert(c0 == a * r + a * rk2 + r * ak2);
        assert(2 * g0 == a * (a - 1) + r * (r - 1) + 2 * a * ak2 + 2 * r * rk2);
        if s[k] == Trit::Approve {
            assert(c1 == c0 + r2);
            assert(g1 == g0 + a2);
            assert(ak2 == 1 + a2 && rk2 == r2);
            assert(c1 == (a + 1) * r + (a + 1) * r2 + r * a2) by (nonlinear_arith)
                requires
                    c1 == c0 + r2,
                    c0 == a * r + a * r2 + r * (1 + a2),
            ;
            assert(2 * g1 == (a + 1) * (a + 1 - 1) + r * (r - 1) + 2 * (a + 1) * a2 + 2 * r * r2)
                by (nonlinear_arith)
                requires
                    g1 == g0 + a2,
                    2 * g0 == a * (a - 1) + r * (r - 1) + 2 * a * (1 + a2) + 2 * r * r2,
            ;
        } else if s[k] == Trit::Reject {
            assert(c1 == c0 + a2);
            assert(g1 == g0 + r2);
            assert(c1 == a * (r + 1) + a * r2 + (r + 1) * a2) by (nonlinear_arith)
                requires
                    c1 == c0 + a2,
                    c0 == a * r + a * (1 + r2) + r * a2,
            ;
            assert(2 * g1 == a * (a - 1) + (r + 1) * (r + 1 - 1) + 2 * a * a2 + 2 * (r + 1) * r2)
                by (nonlinear_arith)
                requires
                    g1 == g0 + r2,
                    2 * g0 == a * (a - 1) + r * (r - 1) + 2 * a * a2 + 2 * r * (1 + r2),
            ;
        } else {
            assert(c1 == c0);
            assert(g1 == g0);
            assert(ak2 == a2 && rk2 == r2);
        }
        let am = range_count(s, 0, m, Trit::Approve) as int;
        let rm = range_count(s, 0, m, Trit::Reject) as int;
        assert(am == a + (if s[k] == Trit::Approve { 1int } else { 0 }));
        assert(rm == r + (if s[k] == Trit::Reject { 1int } else { 0 }));
        assert(c1 == am * rm + am * r2 + rm * a2);
        assert(2 * g1 == am * (am - 1) + rm * (rm - 1) + 2 * am * a2 + 2 * rm * r2);
    }
}

/// Counting pairs reduces to counting votes: among `a` approvals and `r`
/// rejections there are `a * r` conflicting pairs and `a(a-1)/2 + r(r-1)/2`
/// agreeing ones.
pub proof fn lemma_pair_counts_closed_form(s: Seq<Trit>)
    ensures
        conflict_pairs(s) == trit_count(s, Trit::Approve) * trit_count(s, Trit::Reject),
        2 * agreement_pairs(s) == trit_count(s, Trit::Approve) * (trit_count(s, Trit::Approve) - 1)
            + trit_count(s, Trit::Reject) * (trit_count(s, Trit::Reject) - 1),
{
    let n = s.len() as int;
    lemma_rows_count_closed(s, n);
    assert(s.subrange(0, n) =~= s);
    assert(s.subrange(n, n) =~= Seq::<Trit>::empty());
    let a = trit_count(s, Trit::Approve) as int;
    let r = trit_count(s, Trit::Reject) as int;
    assert(range_count(s, 0, n, Trit::Approve) == a);
    assert(range_count(s, 0, n, Trit::Reject) == r);
    assert(range_count(s, n, n, Trit::Approve) == 0);
    assert(range_count(s, n, n, Trit::Reject) == 0);
    assert(rows_count(s, n, true) == a * r + a * 0 + r * 0);
    assert(a * r + a * 0 + r * 0 == a * r) by (nonlinear_arith);
    assert(2 * rows_count(s, n, false) == a * (a - 1) + r * (r - 1) + 2 * a * 0 + 2 * r * 0);
    assert(a * (a - 1) + r * (r - 1) + 2 * a * 0 + 2 * r * 0 == a * (a - 1) + r * (r - 1))
        by (nonlinear_arith);
}

/// Cognitive harmony metrics: measuring collaboration quality.
#[derive(Debug, Clone)]
pub struct CognitiveHarmony {
    pub agreement_count: u64,
    pub conflict_count: u64,
    pub novel_outputs: u64,
    pub total_outputs: u64,
    pub conflicts_resolved: u64,
}

impl CognitiveHarmony {
    /// The metrics with every counter zero.
    pub open spec fn zeroed() -> CognitiveHarmony {
        CognitiveHarmony {
            agreement_count: 0,
            conflict_count: 0,
            novel_outputs: 0,
            total_outputs: 0,
            conflicts_resolved: 0,
        }
    }

    /// The inputs on which `record` runs without overflow.
    pub open spec fn record_ok(self, outputs: Seq<Trit>) -> bool {
        &&& self.total_outputs < u64::MAX
        &&& self.conflict_count + conflict_pairs(outputs) <= u64::MAX
        &&& self.agreement_count + agreement_pairs(outputs) <= u64::MAX
        &&& has_approve(outputs) ==> self.novel_outputs < u64::MAX
    }

    /// The metrics after recording one tick's outputs.
    pub open spec fn recorded(self, outputs: Seq<Trit>) -> CognitiveHarmony {
        CognitiveHarmony {
            agreement_count: (self.agreement_count + agreement_pairs(outputs)) as u64,
            conflict_count: (self.conflict_count + conflict_pairs(outputs)) as u64,
            novel_outputs: (self.novel_outputs + if has_approve(outputs) { 1int } else { 0int }) as u64,
            total_outputs: (self.total_outputs + 1) as u64,
            conflicts_resolved: self.conflicts_resolved,
        }
    }

    pub fn new() -> (r: Self)
        ensures
            r == Self::zeroed(),
    {
        CognitiveHarmony {
            agreement_count: 0,
            conflict_count: 0,
            novel_outputs: 0,
            total_outputs: 0,
            conflicts_resolved: 0,
        }
    }

    /// Ingests one tick's agent outputs: counts every agreeing and every
    /// conflicting pair, the tick itself, and the tick as novel if any output approves.
    pub fn record(&mut self, outputs: &[Trit])
        requires
            old(self).record_ok(outputs@),
        ensures
            *final(self) == old(self).recorded(outputs@),
    {
        let ghost s = outputs@;
        let ghost a0 = self.agreement_count as int;
        let ghost c0 = self.conflict_count as int;
        self.total_outputs = self.total_outputs + 1;
        let n: usize = outputs.len();
        let mut i: usize = 0;
        while i < n
            invariant
                s == outputs@,
                n == s.len(),
                i <= n,
                self.conflict_count == c0 + rows_count(s, i as int, true),
                self.agreement_count == a0 + rows_count(s, i as int, false),
                c0 + conflict_pairs(s) <= u64::MAX,
                a0 + agreement_pairs(s) <= u64::MAX,
                self.total_outputs == old(self).total_outputs + 1,
                self.novel_outputs == old(self).novel_outputs,
                self.conflicts_resolved == old(self).conflicts_resolved,
            decreases n - i,
        {
            proof {
                lemma_rows_count_mono(s, i as int + 1, n as int, true);
                lemma_rows_count_mono(s, i as int + 1, n as int, false);
            }
            let mut j: usize = i + 1;
            while j < n
                invariant
                    s == outputs@,
                    n == s.len(),
                    i < n,
                    i + 1 <= j <= n,
                    self.conflict_count == c0 + rows_count(s, i as int, true) + row_count(
                        s,
                        i as int,
                        j as int,
                        true,
                    ),
                    self.agreement_count == a0 + rows_count(s, i as int, false) + row_count(
                        s,
                        i as int,
                        j as int,
                        false,
                    ),
                    c0 + rows_count(s, i as int + 1, true) <= u64::MAX,
                    a0 + rows_count(s, i as int + 1, false) <= u64::MAX,
                    self.total_outputs == old(self).total_outputs + 1,
                    self.novel_outputs == old(self).novel_outputs,
                    self.conflicts_resolved == old(self).conflicts_resolved,
                decreases n - j,
            {
                proof {
                    lemma_row_count_mono(s, i as int, j as int + 1, n as int, true);
                    lemma_row_count_mono(s, i as int, j as int + 1, n as int, false);
                }
                let a = outputs[i].to_i8();
                let b = outputs[j].to_i8();
                if a != 0 && b != 0 && a != b {
                    self.conflict_count = self.conflict_count + 1;
                } else if a != 0 && b != 0 && a == b {
                    self.agreement_count = self.agreement_count + 1;
                }
                j = j + 1;
            }
            i = i + 1;
        }
        let mut k: usize = 0;
        let mut any_approve = false;
        while k < n
            invariant
                s == outputs@,
                n == s.len(),
                k <= n,
                any_approve == exists|m: int| 0 <= m < k && s[m] == Trit::Approve,
            decreases n - k,
        {
            if outputs[k] == Trit::Approve {
                any_approve = true;
            }
            k = k + 1;
        }
        if any_approve {
            self.novel_outputs = self.novel_outputs + 1;
        }
    }

    pub fn resolve_conflict(&mut self)
        requires
            old(self).conflicts_resolved < u64::MAX,
        ensures
            final(self).conflicts_resolved == old(self).conflicts_resolved + 1,
            final(self).agreement_count == old(self).agreement_count,
            final(self).conflict_count == old(self).conflict_count,
            final(self).novel_outputs == old(self).novel_outputs,
            final(self).total_outputs == old(self).total_outputs,
    {
        self.conflicts_resolved = self.conflicts_resolved + 1;
    }

    /// Overall harmony: agreement minus conflict, each counter taken as an `i64`.
    pub fn harmony_score(&self) -> (r: i64)
        requires
            i64::MIN <= (self.agreement_count as i64) - (self.conflict_count as i64) <= i64::MAX,
        ensures
            r == (self.agreement_count as i64) - (self.conflict_count as i64),
            self.agreement_count <= i64::MAX && self.conflict_count <= i64::MAX ==> r
                == self.agreement_count - self.conflict_count,
    {
        self.agreement_count as i64 - self.conflict_count as i64
    }
}

impl Default for CognitiveHarmony {
    fn default() -> (r: Self)
        ensures
            r == Self::zeroed(),
    {
        Self::new()
    }
}

/// Recording a tick counts it once, and counts it as novel exactly when an
/// output at any position approves.
pub proof fn lemma_record_novelty(h: CognitiveHarmony, s: Seq<Trit>, i: int)
    requires
        h.record_ok(s),
        0 <= i < s.len(),
    ensures
        h.recorded(s).total_outputs == h.total_outputs + 1,
        s[i] == Trit::Approve ==> h.recorded(s).novel_outputs == h.novel_outputs + 1,
        (forall|k: int| 0 <= k < s.len() ==> s[k] != Trit::Approve) ==> h.recorded(s).novel_outputs
            == h.novel_outputs,
{
}

/// What a recorded tick adds does not depend on the order of its outputs.
pub proof fn lemma_record_order_independent(h: CognitiveHarmony, s: Seq<Trit>, i: int, j: int)
    requires
        0 <= i < s.len(),
        0 <= j < s.len(),
    ensures
        h.recorded(swapped(s, i, j)) == h.recorded(s),
{
    let u = swapped(s, i, j);
    lemma_count_swap(s, i, j, Trit::Approve);
    lemma_count_swap(s, i, j, Trit::Reject);
    lemma_pair_counts_closed_form(s);
    lemma_pair_counts_closed_form(u);
    if has_approve(s) {
        let k = choose|k: int| 0 <= k < s.len() && s[k] == Trit::Approve;
        let m = swap_partner(k, i, j);
        assert(u[m] == s[k]);
    }
    if has_approve(u) {
        let k = choose|k: int| 0 <= k < u.len() && u[k] == Trit::Approve;
        let m = swap_partner(k, i, j);
        assert(s[m] == u[k]);
    }
}

} // verus!
