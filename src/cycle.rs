//! One full cycle of the engine: quest starts, turn and timers, expiry and
//! resolution, rewards, and the notification log, in that order.
use crate::entity::{EntityId, Slot};
use crate::events::{outcomes_view, QuestComplete, QuestOutcome, StartQuest};
use crate::model::{
    chances_of, tosses,
    all_exp_granted, all_started, draws_of, expired_slots, expiry_messages, gold_after, logged,
    new_hero_messages, outcome_messages, resolutions, sum_deltas, texts, timer_completions,
    timers_advanced, WorldState,
};
use crate::rewards::complete_quest_send_notification;
use crate::text::turn_message;
use crate::world::World;
use vstd::prelude::*;

verus! {

/// What a cycle produced besides its effects on the world.
pub struct CycleReport {
    /// The entities whose timers completed, in store order.
    pub completed_timers: Vec<EntityId>,
    /// The records of the quests resolved, in the order of their timers.
    pub quests_completed: Vec<QuestComplete>,
}

/// The store after the cycle's starts and timers, with the completed timers.
pub open spec fn cycle_timers(s: WorldState, deltas: Seq<u32>, starts: Seq<StartQuest>) -> (
    Seq<Slot>,
    Seq<EntityId>,
) {
    let slots = all_started(s.slots, starts);
    let d = sum_deltas(deltas);
    (timers_advanced(slots, d), timer_completions(slots, d))
}

/// The store and the records after the cycle's expiries and resolutions.
pub open spec fn cycle_resolutions(
    s: WorldState,
    deltas: Seq<u32>,
    starts: Seq<StartQuest>,
    draws: Seq<bool>,
) -> (Seq<Slot>, Seq<QuestOutcome>) {
    let (advanced, completed) = cycle_timers(s, deltas, starts);
    resolutions(expired_slots(advanced, completed), completed, draws)
}

/// The notifications of a cycle, in the order they are logged: new heroes,
/// the turn advance, expiries, then quest summaries.
pub open spec fn cycle_messages(
    s: WorldState,
    deltas: Seq<u32>,
    starts: Seq<StartQuest>,
    draws: Seq<bool>,
) -> Seq<Seq<char>> {
    let d = sum_deltas(deltas);
    let (advanced, completed) = cycle_timers(s, deltas, starts);
    new_hero_messages(s.slots, s.added_heroes) + seq![turn_message(d, (s.turn + d) as nat)]
        + expiry_messages(advanced, completed) + outcome_messages(
        cycle_resolutions(s, deltas, starts, draws).1,
    )
}

/// The world after one cycle with these turn deltas and start requests,
/// where the `k`-th quest resolved has outcome `draws[k]`.
pub open spec fn cycle(
    s: WorldState,
    deltas: Seq<u32>,
    starts: Seq<StartQuest>,
    draws: Seq<bool>,
) -> WorldState {
    let res = cycle_resolutions(s, deltas, starts, draws);
    WorldState {
        slots: all_exp_granted(res.0, res.1),
        added_heroes: Seq::empty(),
        turn: (s.turn + sum_deltas(deltas)) as u32,
        gold: gold_after(s.gold, res.1),
        log: logged(s.log, cycle_messages(s, deltas, starts, draws)),
    }
}

impl World {
    /// Runs one cycle: announces new heroes, takes the start requests,
    /// advances the turn and every timer by the sum of `deltas`, expires the
    /// available quests and resolves the in-progress ones whose timers
    /// completed (drawing one coin per resolution), grants rewards, and logs
    /// every notification of the cycle.
    pub fn run_cycle(&mut self, deltas: &Vec<u32>, starts: &Vec<StartQuest>) -> (r: CycleReport)
        requires
            old(self)@.turn + sum_deltas(deltas@) <= u32::MAX,
        ensures
            final(self)@ == cycle(old(self)@, deltas@, starts@, draws_of(r.quests_completed@)),
            r.completed_timers@ == cycle_timers(old(self)@, deltas@, starts@).1,
            outcomes_view(r.quests_completed@) == cycle_resolutions(
                old(self)@,
                deltas@,
                starts@,
                draws_of(r.quests_completed@),
            ).1,
            tosses(old(self).rng_state(), chances_of(outcomes_view(r.quests_completed@))) == (
                draws_of(r.quests_completed@),
                final(self).rng_state(),
            ),
            r.quests_completed@.len() == 0 ==> final(self).rng_state() == old(self).rng_state(),
            forall|k: int|
                0 <= k < r.quests_completed@.len() ==> (
                #[trigger] r.quests_completed@[k].success_probability.0 >= 100
                    ==> r.quests_completed@[k].is_successful) && (
                r.quests_completed@[k].success_probability.0 <= 0
                    ==> !r.quests_completed@[k].is_successful),
            old(self).wf() ==> final(self).wf(),
    {
        let ghost s = self@;
        let mut messages = self.log_new_hero();
        self.start_quest(starts);
        let turn_text = self.advance_turn(deltas);
        messages.push(turn_text);
        let completed = self.advance_turn_timer(deltas);
        let mut expiries = self.expire_quest(&completed);
        messages.append(&mut expiries);
        let events = self.complete_quest(&completed);
        self.complete_quest_assign_exp(&events);
        self.complete_quest_updates_guild(&events);
        let mut summaries = complete_quest_send_notification(&events);
        messages.append(&mut summaries);
        assert(texts(messages@) =~= cycle_messages(s, deltas@, starts@, draws_of(events@)));
        self.handle_notification_events(&messages);
        assert(self@ == cycle(s, deltas@, starts@, draws_of(events@)));
        CycleReport { completed_timers: completed, quests_completed: events }
    }
}

} // verus!
