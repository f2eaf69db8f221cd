use vstd::prelude::*;
use vstd::arithmetic::div_mod::{lemma_add_mod_noop_right, lemma_fundamental_div_mod_converse, lemma_small_mod};

verus! {

/// Timing for the work session: ticks within turns, turns within sprints.
#[derive(Debug, Clone)]
pub struct WorkSync {
    pub turns_per_sprint: u32,
    pub current_turn: u32,
    pub ticks_per_turn: u32,
    pub tick_counter: u32,
}

impl WorkSync {
    /// Whether the next tick ends a turn.
    pub open spec fn ends_turn(self) -> bool {
        self.tick_counter + 1 >= self.ticks_per_turn
    }

    /// The inputs on which `tick` runs without overflow or division by zero.
    pub open spec fn tick_ok(self) -> bool {
        &&& self.tick_counter < u32::MAX
        &&& self.ends_turn() ==> self.turns_per_sprint > 0 && self.current_turn < u32::MAX
    }

    /// The timer after one tick.
    pub open spec fn ticked(self) -> WorkSync {
        if self.ends_turn() {
            WorkSync {
                tick_counter: 0,
                current_turn: ((self.current_turn + 1) % (self.turns_per_sprint as int)) as u32,
                ..self
            }
        } else {
            WorkSync { tick_counter: (self.tick_counter + 1) as u32, ..self }
        }
    }

    /// The timer after `k` ticks.
    pub open spec fn ticked_n(self, k: nat) -> WorkSync
        decreases k,
    {
        if k == 0 {
            self
        } else {
            self.ticked().ticked_n((k - 1) as nat)
        }
    }

    /// How many of the next `k` ticks end a turn.
    pub open spec fn turns_ended(self, k: nat) -> nat
        decreases k,
    {
        if k == 0 {
            0
        } else {
            (if self.ends_turn() { 1nat } else { 0nat }) + self.ticked().turns_ended((k - 1) as nat)
        }
    }

    /// The timer stands at the start of a sprint.
    pub open spec fn at_sprint_start(self) -> bool {
        self.current_turn == 0 && self.tick_counter == 0
    }

    /// A timer whose turn and tick lie within their periods.
    pub open spec fn in_period(self) -> bool {
        &&& 0 < self.ticks_per_turn
        &&& 0 < self.turns_per_sprint
        &&& self.tick_counter < self.ticks_per_turn
        &&& self.current_turn < self.turns_per_sprint
    }

    /// Ticks elapsed since the start of the sprint.
    pub open spec fn sprint_position(self) -> int {
        self.current_turn * self.ticks_per_turn + self.tick_counter
    }

    /// Ticks in one sprint, as an integer.
    pub open spec fn sprint_len(self) -> int {
        self.turns_per_sprint * self.ticks_per_turn
    }

    pub fn new(turns_per_sprint: u32, ticks_per_turn: u32) -> (r: Self)
        ensures
            r.turns_per_sprint == turns_per_sprint,
            r.ticks_per_turn == ticks_per_turn,
            r.current_turn == 0,
            r.tick_counter == 0,
    {
        WorkSync { turns_per_sprint, current_turn: 0, ticks_per_turn, tick_counter: 0 }
    }

    /// Advances one tick; returns whether a new turn begins.
    pub fn tick(&mut self) -> (r: bool)
        requires
            old(self).tick_ok(),
        ensures
            r == old(self).ends_turn(),
            *final(self) == old(self).ticked(),
    {
        self.tick_counter = self.tick_counter + 1;
        if self.tick_counter >= self.ticks_per_turn {
            self.tick_counter = 0;
            self.current_turn = (self.current_turn + 1) % self.turns_per_sprint;
            true
        } else {
            false
        }
    }

    pub fn turn(&self) -> (r: u32)
        ensures
            r == self.current_turn,
    {
        self.current_turn
    }

    pub fn is_sprint_start(&self) -> (r: bool)
        ensures
            r == self.at_sprint_start(),
    {
        self.current_turn == 0 && self.tick_counter == 0
    }

    /// Total ticks in one complete sprint.
    pub fn sprint_ticks(&self) -> (r: u32)
        requires
            self.turns_per_sprint * self.ticks_per_turn <= u32::MAX,
        ensures
            r == self.turns_per_sprint * self.ticks_per_turn,
    {
        self.turns_per_sprint * self.ticks_per_turn
    }

    pub fn reset(&mut self)
        ensures
            final(self).current_turn == 0,
            final(self).tick_counter == 0,
            final(self).turns_per_sprint == old(self).turns_per_sprint,
            final(self).ticks_per_turn == old(self).ticks_per_turn,
    {
        self.current_turn = 0;
        self.tick_counter = 0;
    }
}

/// One tick moves a timer within its periods one step forward in the sprint,
/// wrapping at the sprint's end, and a new turn begins exactly when the tick
/// counter comes back to zero.
pub proof fn lemma_tick_advances_position(s: WorkSync)
    requires
        s.in_period(),
    ensures
        s.tick_ok(),
        s.ticked().in_period(),
        s.ticked().turns_per_sprint == s.turns_per_sprint,
        s.ticked().ticks_per_turn == s.ticks_per_turn,
        s.ticked().sprint_position() == (s.sprint_position() + 1) % s.sprint_len(),
        s.ends_turn() == (s.ticked().tick_counter == 0),
{
    let t = s.ticks_per_turn as int;
    let n = s.turns_per_sprint as int;
    let turn = s.current_turn as int;
    let c = s.tick_counter as int;
    assert(turn * t + t <= n * t) by (nonlinear_arith)
        requires
            turn < n,
            0 < t,
    ;
    assert(0 <= turn * t) by (nonlinear_arith)
        requires
            0 <= turn,
            0 < t,
    ;
    let p = s.sprint_position();
    let len = s.sprint_len();
    assert(p == turn * t + c);
    assert(len == n * t);
    if s.ends_turn() {
        assert(c + 1 == t);
        if turn + 1 < n {
            lemma_small_mod((turn + 1) as nat, n as nat);
            assert((turn + 1) * t == turn * t + t) by (nonlinear_arith);
            assert((turn + 1) * t < n * t) by (nonlinear_arith)
                requires
                    turn + 1 < n,
                    0 < t,
            ;
            assert(p + 1 < len);
            assert(s.ticked().current_turn == turn + 1);
            assert(s.ticked().sprint_position() == (turn + 1) * t);
            lemma_small_mod((p + 1) as nat, len as nat);
        } else {
            assert(turn + 1 == n);
            assert((turn + 1) % n == 0) by {
                vstd::arithmetic::div_mod::lemma_mod_self_0(n);
            }
            assert(n * t == turn * t + t) by (nonlinear_arith)
                requires
                    turn + 1 == n,
            ;
            assert(p + 1 == len);
            vstd::arithmetic::div_mod::lemma_mod_self_0(len);
            assert(s.ticked().current_turn == 0);
            assert(s.ticked().sprint_position() == 0);
        }
    } else {
        assert(p + 1 < len);
        lemma_small_mod((p + 1) as nat, len as nat);
        assert(s.ticked().current_turn == turn);
        assert(s.ticked().tick_counter == c + 1);
    }
}

/// From a timer within its periods, `k` ticks move it `k` steps forward in
/// the sprint, wrapping at the sprint's end.
pub proof fn lemma_ticks_advance_position(s: WorkSync, k: nat)
    requires
        s.in_period(),
    ensures
        s.ticked_n(k).in_period(),
        s.ticked_n(k).turns_per_sprint == s.turns_per_sprint,
        s.ticked_n(k).ticks_per_turn == s.ticks_per_turn,
        s.ticked_n(k).sprint_position() == (s.sprint_position() + k) % s.sprint_len(),
    decreases k,
{
    let len = s.sprint_len();
    assert(0 < len) by (nonlinear_arith)
        requires
            0 < s.turns_per_sprint,
            0 < s.ticks_per_turn,
            len == s.turns_per_sprint * s.ticks_per_turn,
    ;
    assert(0 <= s.sprint_position() < len) by (nonlinear_arith)
        requires
            s.current_turn < s.turns_per_sprint,
            s.tick_counter < s.ticks_per_turn,
            len == s.turns_per_sprint * s.ticks_per_turn,
            s.sprint_position() == s.current_turn * s.ticks_per_turn + s.tick_counter,
    ;
    if k == 0 {
        lemma_small_mod(s.sprint_position() as nat, len as nat);
    } else {
        let s1 = s.ticked();
        lemma_tick_advances_position(s);
        lemma_ticks_advance_position(s1, (k - 1) as nat);
        assert(s1.sprint_len() == len);
        lemma_add_mod_noop_right(k - 1, s.sprint_position() + 1, len);
        assert((s.sprint_position() + 1) % len + (k - 1) == (k - 1) + (s.sprint_position() + 1) % len);
    }
}

/// A full sprint of ticks brings a timer within its periods back to exactly
/// the turn and tick it started from; in particular a sprint start returns to
/// a sprint start.
pub proof fn lemma_sprint_is_periodic(s: WorkSync)
    requires
        s.in_period(),
    ensures
        s.ticked_n(s.sprint_len() as nat) == s,
{
    let len = s.sprint_len();
    let t = s.ticks_per_turn as int;
    let e = s.ticked_n(len as nat);
    assert(0 < len) by (nonlinear_arith)
        requires
            0 < s.turns_per_sprint,
            0 < s.ticks_per_turn,
            len == s.turns_per_sprint * s.ticks_per_turn,
    ;
    lemma_ticks_advance_position(s, len as nat);
    lemma_ticks_advance_position(s, 0);
    vstd::arithmetic::div_mod::lemma_mod_add_multiples_vanish(s.sprint_position(), len);
    assert(e.sprint_position() == s.sprint_position());
    let p = s.sprint_position();
    lemma_fundamental_div_mod_converse(p, t, s.current_turn as int, s.tick_counter as int);
    lemma_fundamental_div_mod_converse(p, t, e.current_turn as int, e.tick_counter as int);
}

proof fn lemma_shift_by_divisor(x: int, b: int)
    requires
        0 <= x,
        0 < b,
    ensures
        (x + b) / b == x / b + 1,
        (x + b) % b == x % b,
{
    vstd::arithmetic::div_mod::lemma_fundamental_div_mod(x, b);
    vstd::arithmetic::div_mod::lemma_mod_pos_bound(x, b);
    assert(x + b == (x / b + 1) * b + x % b) by (nonlinear_arith)
        requires
            x == b * (x / b) + x % b,
    ;
    lemma_fundamental_div_mod_converse(x + b, b, x / b + 1, x % b);
}

/// From a timer within its periods, of the next `k` ticks exactly
/// `(tick_counter + k) / ticks_per_turn` end a turn; afterwards the tick
/// counter is `(tick_counter + k) % ticks_per_turn` and the turn has moved on
/// by that many turns, wrapping at the sprint's end.
pub proof fn lemma_turn_boundaries(s: WorkSync, k: nat)
    requires
        s.in_period(),
    ensures
        s.turns_ended(k) == (s.tick_counter + k) / (s.ticks_per_turn as int),
        s.ticked_n(k).tick_counter == (s.tick_counter + k) % (s.ticks_per_turn as int),
        s.ticked_n(k).current_turn == (s.current_turn + (s.tick_counter + k) / (s.ticks_per_turn as int))
            % (s.turns_per_sprint as int),
    decreases k,
{
    let b = s.ticks_per_turn as int;
    let a = s.turns_per_sprint as int;
    let c = s.tick_counter as int;
    let t = s.current_turn as int;
    if k == 0 {
        lemma_small_mod(c as nat, b as nat);
        lemma_fundamental_div_mod_converse(c, b, 0, c);
        lemma_small_mod(t as nat, a as nat);
    } else {
        let s1 = s.ticked();
        lemma_tick_advances_position(s);
        lemma_turn_boundaries(s1, (k - 1) as nat);
        if s.ends_turn() {
            assert(c + 1 == b);
            let x = k - 1;
            lemma_shift_by_divisor(x, b);
            assert(c + k == x + b);
            assert(s1.tick_counter == 0);
            assert(s1.current_turn == (t + 1) % a);
            vstd::arithmetic::div_mod::lemma_add_mod_noop(t + 1, x / b, a);
            vstd::arithmetic::div_mod::lemma_add_mod_noop_right((t + 1) % a, x / b, a);
            assert(s1.ticked_n(x as nat).current_turn == ((t + 1) % a + x / b) % a);
            assert(t + (c + k) / b == t + 1 + x / b);
        } else {
            assert(s1.tick_counter == c + 1);
            assert(s1.current_turn == t);
            assert(c + 1 + (k - 1) == c + k);
        }
    }
}

/// From a new timer with nonzero periods, `k` ticks end `k / ticks_per_turn`
/// turns, leave the tick counter at `k % ticks_per_turn` and the turn at
/// `(k / ticks_per_turn) % turns_per_sprint`; the timer is at a sprint start
/// again exactly when `k` is a multiple of the sprint length.
pub proof fn lemma_counting_from_start(s: WorkSync, k: nat)
    requires
        s.at_sprint_start(),
        0 < s.ticks_per_turn,
        0 < s.turns_per_sprint,
    ensures
        s.turns_ended(k) == (k as int) / (s.ticks_per_turn as int),
        s.ticked_n(k).tick_counter == (k as int) % (s.ticks_per_turn as int),
        s.ticked_n(k).current_turn == ((k as int) / (s.ticks_per_turn as int)) % (s.turns_per_sprint as int),
        s.ticked_n(k).at_sprint_start() <==> (k as int) % s.sprint_len() == 0,
{
    let b = s.ticks_per_turn as int;
    let a = s.turns_per_sprint as int;
    lemma_turn_boundaries(s, k);
    vstd::arithmetic::div_mod::lemma_mod_breakdown(k as int, b, a);
    vstd::arithmetic::div_mod::lemma_mod_pos_bound(k as int, b);
    vstd::arithmetic::div_mod::lemma_div_pos_is_pos(k as int, b);
    vstd::arithmetic::div_mod::lemma_mod_pos_bound(k as int / b, a);
    let q = (k as int / b) % a;
    assert(b * q == 0 <==> q == 0) by (nonlinear_arith)
        requires
            0 < b,
            0 <= q,
    ;
    assert(0 <= b * q) by (nonlinear_arith)
        requires
            0 < b,
            0 <= q,
    ;
    assert(s.sprint_len() == b * a) by (nonlinear_arith)
        requires
            s.sprint_len() == a * b,
    ;
}

} // verus!
