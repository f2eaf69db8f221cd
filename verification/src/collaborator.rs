use vstd::prelude::*;
use crate::trit::Trit;
use crate::rule::{clamp_unit, clamp_unit_i8};

verus! {

/// Agent role in the collaboration.
#[derive(Debug, Clone, Copy, PartialEq, Eq, Structural)]
pub enum Role {
    Researcher,
    Builder,
    Critic,
    Integrator,
    Explorer,
}

impl Role {
    /// The tendency a role starts with.
    pub open spec fn spec_default_tendency(self) -> int {
        match self {
            Role::Researcher => 0,
            Role::Builder => 1,
            Role::Critic => -1,
            Role::Integrator => 0,
            Role::Explorer => 1,
        }
    }

    /// Default tendency for each role.
    pub fn default_tendency(self) -> (r: i8)
        ensures
            r == self.spec_default_tendency(),
    {
        match self {
            Role::Researcher => 0,
            Role::Builder => 1,
            Role::Critic => -1,
            Role::Integrator => 0,
            Role::Explorer => 1,
        }
    }
}

/// A collaborating agent: the "voice" in the jam, with a queue of explicit decisions.
#[derive(Debug, Clone)]
pub struct Collaborator {
    pub id: u32,
    pub role: Role,
    pub tendency: i8,
    pub actions: Vec<Trit>,
    pub position: usize,
}

impl Collaborator {
    /// Whether a queued decision is still to be played.
    pub open spec fn has_pending(self) -> bool {
        self.position < self.actions@.len()
    }

    /// How many queued decisions are still to be played.
    pub open spec fn spec_remaining(self) -> int {
        if self.position <= self.actions@.len() {
            self.actions@.len() - self.position
        } else {
            0
        }
    }

    /// The decision that `next_action` gives.
    pub open spec fn next_played(self) -> Trit {
        if self.has_pending() {
            self.actions@[self.position as int]
        } else {
            Trit::Abstain
        }
    }

    /// The collaborator after `next_action`.
    pub open spec fn after_next(self) -> Collaborator {
        if self.has_pending() {
            Collaborator { position: (self.position + 1) as usize, ..self }
        } else {
            self
        }
    }

    /// The decisions that `k` calls of `next_action` give, in order.
    pub open spec fn played_n(self, k: nat) -> Seq<Trit>
        decreases k,
    {
        if k == 0 {
            Seq::empty()
        } else {
            seq![self.next_played()].add(self.after_next().played_n((k - 1) as nat))
        }
    }

    pub fn new(id: u32, role: Role) -> (r: Self)
        ensures
            r.id == id,
            r.role == role,
            r.tendency == role.spec_default_tendency(),
            r.actions@ == Seq::<Trit>::empty(),
            r.position == 0,
    {
        Collaborator { id, role, tendency: role.default_tendency(), actions: Vec::new(), position: 0 }
    }

    /// Overrides the tendency, clamped to [-1, 1].
    pub fn with_tendency(self, t: i8) -> (r: Self)
        ensures
            r.tendency == clamp_unit(t as int),
            r.id == self.id,
            r.role == self.role,
            r.actions == self.actions,
            r.position == self.position,
    {
        let mut c = self;
        c.tendency = clamp_unit_i8(t);
        c
    }

    /// Pushes an explicit decision onto the queue.
    pub fn add_action(&mut self, a: Trit)
        ensures
            final(self).actions@ == old(self).actions@.push(a),
            final(self).id == old(self).id,
            final(self).role == old(self).role,
            final(self).tendency == old(self).tendency,
            final(self).position == old(self).position,
    {
        self.actions.push(a);
    }

    /// Plays the next queued decision; `Abstain` once the queue is played out.
    pub fn next_action(&mut self) -> (r: Trit)
        ensures
            r == old(self).next_played(),
            *final(self) == old(self).after_next(),
    {
        if self.position < self.actions.len() {
            let a = self.actions[self.position];
            self.position = self.position + 1;
            a
        } else {
            Trit::Abstain
        }
    }

    pub fn remaining(&self) -> (r: usize)
        ensures
            r == self.spec_remaining(),
    {
        if self.position <= self.actions.len() {
            self.actions.len() - self.position
        } else {
            0
        }
    }

    /// Rewinds the queue to its start.
    pub fn reset(&mut self)
        ensures
            final(self).position == 0,
            final(self).id == old(self).id,
            final(self).role == old(self).role,
            final(self).tendency == old(self).tendency,
            final(self).actions == old(self).actions,
    {
        self.position = 0;
    }
}

/// A collaborator whose cursor lies within its queue plays the rest of the
/// queue in order, then abstains; after a reset it replays the whole queue.
pub proof fn lemma_plays_queue_in_order(c: Collaborator, k: nat)
    requires
        c.position <= c.actions@.len(),
    ensures
        c.played_n(k).len() == k,
        forall|i: int|
            0 <= i < k ==> #[trigger] c.played_n(k)[i] == (if c.position + i < c.actions@.len() {
                c.actions@[c.position + i]
            } else {
                Trit::Abstain
            }),
    decreases k,
{
    if k > 0 {
        let d = c.after_next();
        lemma_plays_queue_in_order(d, (k - 1) as nat);
        let rest = d.played_n((k - 1) as nat);
        assert(c.played_n(k) == seq![c.next_played()].add(rest));
        assert forall|i: int| 0 <= i < k implies #[trigger] c.played_n(k)[i] == (if c.position + i
            < c.actions@.len() {
            c.actions@[c.position + i]
        } else {
            Trit::Abstain
        }) by {
            if i > 0 {
                assert(c.played_n(k)[i] == rest[i - 1]);
                if c.has_pending() {
                    assert(c.actions.len() == c.actions@.len());
                    assert(d.position == c.position + 1);
                } else {
                    assert(d == c);
                }
            }
        }
    }
}

/// The number of decisions still to be played is the queue length less the
/// cursor, and a reset makes the whole queue pending again.
pub proof fn lemma_reset_restores_queue(c: Collaborator)
    ensures
        (Collaborator { position: 0, ..c }).spec_remaining() == c.actions@.len(),
        c.position <= c.actions@.len() ==> c.spec_remaining() + c.position == c.actions@.len(),
{
}

} // verus!
