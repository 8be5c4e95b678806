//! Rewards of resolved quests: hero experience, guild gold, and summaries.
use crate::entity::{EntityId, Slot};
use crate::events::{outcomes_view, QuestComplete};
use crate::model::{
    all_exp_granted, exp_granted, lemma_all_exp_granted_wf, gold_after, outcome_messages, texts,
    WorldState,
};
use crate::text::quest_complete_notification;
use crate::world::World;
use vstd::prelude::*;

verus! {

impl World {
    fn grant_exp(&mut self, heroes: &Vec<EntityId>, reward: u32)
        ensures
            final(self)@ == (WorldState {
                slots: exp_granted(old(self)@.slots, heroes@, reward),
                ..old(self)@
            }),
            final(self).rng_state() == old(self).rng_state(),
    {
        let mut j: usize = 0;
        while j < heroes.len()
            invariant
                self.rng_state() == old(self).rng_state(),
                j <= heroes@.len(),
                self@ == (WorldState {
                    slots: exp_granted(old(self)@.slots, heroes@.subrange(0, j as int), reward),
                    ..old(self)@
                }),
            decreases heroes@.len() - j,
        {
            assert(heroes@.subrange(0, j + 1).drop_last() =~= heroes@.subrange(0, j as int));
            let h = heroes[j];
            if h.0 < self.slots.len() {
                match &mut self.slots[h.0] {
                    Slot::Hero(hero) => {
                        hero.level.exp = hero.level.exp.saturating_add(reward);
                    },
                    _ => {},
                }
            }
            assert(self@.slots =~= exp_granted(old(self)@.slots, heroes@.subrange(0, j + 1), reward));
            j = j + 1;
        }
        assert(heroes@.subrange(0, j as int) =~= heroes@);
    }

    /// For each record in order, every listed hero still in the store gains
    /// the record's experience (saturating at the largest `u32`), whether the
    /// quest succeeded or not; listed entities that are no heroes are skipped.
    pub fn complete_quest_assign_exp(&mut self, events: &Vec<QuestComplete>)
        ensures
            final(self)@ == (WorldState {
                slots: all_exp_granted(old(self)@.slots, outcomes_view(events@)),
                ..old(self)@
            }),
            old(self).wf() ==> final(self).wf(),
            final(self).rng_state() == old(self).rng_state(),
    {
        let mut i: usize = 0;
        while i < events.len()
            invariant
                self.rng_state() == old(self).rng_state(),
                i <= events@.len(),
                self@ == (WorldState {
                    slots: all_exp_granted(
                        old(self)@.slots,
                        outcomes_view(events@.subrange(0, i as int)),
                    ),
                    ..old(self)@
                }),
            decreases events@.len() - i,
        {
            assert(outcomes_view(events@.subrange(0, i + 1)).drop_last() =~= outcomes_view(
                events@.subrange(0, i as int),
            ));
            let e = &events[i];
            self.grant_exp(&e.heroes, e.exp_reward);
            i = i + 1;
        }
        assert(events@.subrange(0, i as int) =~= events@);
        proof {
            if old(self).wf() {
                lemma_all_exp_granted_wf(old(self)@.slots, outcomes_view(events@));
            }
        }
    }

    /// For each successful record in order, the guild gains its gold
    /// (saturating at the largest `u32`); failed records add nothing.
    pub fn complete_quest_updates_guild(&mut self, events: &Vec<QuestComplete>)
        ensures
            final(self)@ == (WorldState {
                gold: gold_after(old(self)@.gold, outcomes_view(events@)),
                ..old(self)@
            }),
            final(self).rng_state() == old(self).rng_state(),
    {
        let mut i: usize = 0;
        while i < events.len()
            invariant
                self.rng_state() == old(self).rng_state(),
                i <= events@.len(),
                self@ == (WorldState {
                    gold: gold_after(old(self)@.gold, outcomes_view(events@.subrange(0, i as int))),
                    ..old(self)@
                }),
            decreases events@.len() - i,
        {
            assert(outcomes_view(events@.subrange(0, i + 1)).drop_last() =~= outcomes_view(
                events@.subrange(0, i as int),
            ));
            if events[i].is_successful {
                self.gold = self.gold.saturating_add(events[i].gold_reward);
            }
            i = i + 1;
        }
        assert(events@.subrange(0, i as int) =~= events@);
    }
}

/// The summary notification of each record, in order, whatever its outcome.
pub fn complete_quest_send_notification(events: &Vec<QuestComplete>) -> (r: Vec<String>)
    ensures
        texts(r@) == outcome_messages(outcomes_view(events@)),
{
    let mut r: Vec<String> = Vec::new();
    let mut i: usize = 0;
    while i < events.len()
        invariant
            i <= events@.len(),
            texts(r@) =~= outcome_messages(outcomes_view(events@.subrange(0, i as int))),
        decreases events@.len() - i,
    {
        let ghost done = r@;
        let text = quest_complete_notification(&events[i]);
        r.push(text);
        proof {
            assert(texts(r@) =~= texts(done).push(text@));
            assert(outcome_messages(outcomes_view(events@.subrange(0, i + 1))) =~= outcome_messages(
                outcomes_view(events@.subrange(0, i as int)),
            ).push(text@));
        }
        i = i + 1;
    }
    assert(events@.subrange(0, i as int) =~= events@);
    r
}

} // verus!
