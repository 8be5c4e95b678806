//! The turn counter and the countdown timers.
use crate::entity::{EntityId, Quest, Slot};
use crate::model::{
    completions_upto, lemma_timers_wf, slot_timer_advanced, sum_deltas, timer_completions,
    timers_advanced, WorldState,
};
use crate::text::{turn_message, turn_notification};
use crate::world::World;
use vstd::prelude::*;

verus! {

/// A prefix of the deltas sums to no more than all of them.
pub proof fn lemma_sum_prefix(deltas: Seq<u32>, i: int)
    requires
        0 <= i <= deltas.len(),
    ensures
        sum_deltas(deltas.subrange(0, i)) <= sum_deltas(deltas),
    decreases deltas.len(),
{
    if i == deltas.len() {
        assert(deltas.subrange(0, i) =~= deltas);
    } else {
        lemma_sum_prefix(deltas.drop_last(), i);
        assert(deltas.drop_last().subrange(0, i) =~= deltas.subrange(0, i));
    }
}

/// The sum of the turn deltas of a cycle.
pub fn total_delta(deltas: &Vec<u32>) -> (r: u32)
    requires
        sum_deltas(deltas@) <= u32::MAX,
    ensures
        r == sum_deltas(deltas@),
{
    let mut total: u32 = 0;
    let mut i: usize = 0;
    while i < deltas.len()
        invariant
            i <= deltas@.len(),
            sum_deltas(deltas@) <= u32::MAX,
            total == sum_deltas(deltas@.subrange(0, i as int)),
        decreases deltas@.len() - i,
    {
        proof {
            assert(deltas@.subrange(0, i + 1).drop_last() =~= deltas@.subrange(0, i as int));
            lemma_sum_prefix(deltas@, i + 1);
        }
        total = total + deltas[i];
        i = i + 1;
    }
    assert(deltas@.subrange(0, i as int) =~= deltas@);
    total
}

impl World {
    /// Adds the cycle's turn deltas to the turn counter and returns the
    /// notification that reports the delta and the turn reached (also when
    /// the delta is 0).
    pub fn advance_turn(&mut self, deltas: &Vec<u32>) -> (r: String)
        requires
            old(self)@.turn + sum_deltas(deltas@) <= u32::MAX,
        ensures
            final(self)@ == (WorldState {
                turn: (old(self)@.turn + sum_deltas(deltas@)) as u32,
                ..old(self)@
            }),
            r@ == turn_message(sum_deltas(deltas@), final(self)@.turn as nat),
            final(self).rng_state() == old(self).rng_state(),
    {
        let total = total_delta(deltas);
        self.turn = self.turn + total;
        turn_notification(total, self.turn)
    }

    /// Runs every quest timer down by the cycle's turn deltas, stopping at 0,
    /// and returns, in store order, the entities whose timers reached 0 in
    /// this step (a timer already at 0 is left out).
    pub fn advance_turn_timer(&mut self, deltas: &Vec<u32>) -> (r: Vec<EntityId>)
        requires
            sum_deltas(deltas@) <= u32::MAX,
        ensures
            final(self)@ == (WorldState {
                slots: timers_advanced(old(self)@.slots, sum_deltas(deltas@)),
                ..old(self)@
            }),
            r@ == timer_completions(old(self)@.slots, sum_deltas(deltas@)),
            old(self).wf() ==> final(self).wf(),
            final(self).rng_state() == old(self).rng_state(),
    {
        let delta = total_delta(deltas);
        let ghost d = delta as nat;
        let mut completed: Vec<EntityId> = Vec::new();
        let mut i: usize = 0;
        while i < self.slots.len()
            invariant
                self.rng_state() == old(self).rng_state(),
                i <= self@.slots.len(),
                d == delta as nat,
                self@.slots.len() == old(self)@.slots.len(),
                forall|j: int| 0 <= j < i ==> self@.slots[j] == slot_timer_advanced(old(self)@.slots[j], d),
                forall|j: int| i <= j < self@.slots.len() ==> self@.slots[j] == old(self)@.slots[j],
                self@ == (WorldState { slots: self@.slots, ..old(self)@ }),
                completed@ == completions_upto(old(self)@.slots, d, i as nat),
            decreases self@.slots.len() - i,
        {
            let running = match &self.slots[i] {
                Slot::Quest(q) => Some(*q),
                _ => None,
            };
            if let Some(q) = running {
                let mut timer = q.timer;
                if timer.advance(delta) {
                    completed.push(EntityId(i));
                }
                self.slots[i] = Slot::Quest(Quest { timer, ..q });
            }
            i = i + 1;
        }
        assert(self@.slots =~= timers_advanced(old(self)@.slots, d));
        proof {
            if old(self).wf() {
                lemma_timers_wf(old(self)@.slots, d);
            }
        }
        completed
    }
}

} // verus!
