//! The quest state machine: starting, expiring and resolving quests.
use crate::entity::{EntityId, LevelState, Quest, QuestStatus, Slot, TurnTimer};
use crate::events::{outcomes_view, QuestComplete, StartQuest};
use crate::model::{
    all_started, chances_of, draws_of, expired_slots, expiry_messages, has_status, heroes_on,
    heroes_on_upto, is_hero, lemma_all_started_wf, lemma_expired_wf, lemma_heroes_on_facts, lemma_resolutions_wf,
    lemma_resolved_wf, outcome_with, party_levels, resolutions, resolvable, resolved, started,
    texts, tosses, WorldState,
};
use crate::percent::{probability_of_quest_success, Percent};
use crate::random::sample_coin;
use crate::text::expiry_notification;
use crate::world::World;
use vstd::prelude::*;

verus! {

/// Later draws do not change resolutions that earlier draws already decide.
pub proof fn lemma_resolutions_extend(
    slots: Seq<Slot>,
    completed: Seq<EntityId>,
    draws: Seq<bool>,
    more: Seq<bool>,
)
    requires
        resolutions(slots, completed, draws).1.len() <= draws.len(),
    ensures
        resolutions(slots, completed, draws + more) == resolutions(slots, completed, draws),
    decreases completed.len(),
{
    if completed.len() > 0 {
        let prev = resolutions(slots, completed.drop_last(), draws);
        lemma_resolutions_extend(slots, completed.drop_last(), draws, more);
        if resolvable(prev.0, completed.last()) {
            assert(prev.1.len() < draws.len());
            assert((draws + more)[prev.1.len() as int] == draws[prev.1.len() as int]);
        }
    }
}

impl World {
    fn start_one(&mut self, quest: EntityId, heroes: &Vec<EntityId>)
        ensures
            final(self)@ == (WorldState {
                slots: started(old(self)@.slots, quest, heroes@),
                ..old(self)@
            }),
            final(self).rng_state() == old(self).rng_state(),
    {
        if quest.0 >= self.slots.len() {
            return ;
        }
        let found = match &self.slots[quest.0] {
            Slot::Quest(q) => Some(*q),
            _ => None,
        };
        if let Some(q) = found {
            self.slots[quest.0] = Slot::Quest(
                Quest {
                    status: QuestStatus::InProgress,
                    timer: TurnTimer::new(q.description.turns_to_complete),
                    ..q
                },
            );
            assert(self@.slots =~= started(old(self)@.slots, quest, heroes@.subrange(0, 0)));
            let mut j: usize = 0;
            while j < heroes.len()
                invariant
                    self.rng_state() == old(self).rng_state(),
                    j <= heroes@.len(),
                    old(self)@.slots[quest.0 as int] is Quest,
                    quest.0 < old(self)@.slots.len(),
                    self@ == (WorldState {
                        slots: started(old(self)@.slots, quest, heroes@.subrange(0, j as int)),
                        ..old(self)@
                    }),
                decreases heroes@.len() - j,
            {
                let h = heroes[j];
                if h.0 < self.slots.len() {
                    match &mut self.slots[h.0] {
                        Slot::Hero(hero) => {
                            hero.quest = Some(quest);
                        },
                        _ => {},
                    }
                }
                proof {
                    let sub0 = heroes@.subrange(0, j as int);
                    let sub1 = heroes@.subrange(0, j + 1);
                    assert(sub1 =~= sub0.push(h));
                    let target = started(old(self)@.slots, quest, sub1);
                    assert forall|k: int| 0 <= k < self@.slots.len() implies self@.slots[k]
                        == target[k] by {
                        let x = EntityId(k as usize);
                        if sub0.contains(x) {
                            let w = choose|w: int| 0 <= w < sub0.len() && sub0[w] == x;
                            assert(sub1[w] == x);
                        }
                        if x == h {
                            assert(sub1[j as int] == x);
                        }
                        if sub1.contains(x) {
                            let w = choose|w: int| 0 <= w < sub1.len() && sub1[w] == x;
                            if w < j {
                                assert(sub0[w] == x);
                            }
                        }
                    }
                    assert(self@.slots =~= target);
                }
                j = j + 1;
            }
            assert(heroes@.subrange(0, j as int) =~= heroes@);
        }
    }

    /// Takes the start requests in order. Each one naming a quest sets it in
    /// progress, re-arms its timer to the quest's completion time and links
    /// each listed hero to it (replacing any earlier link); one naming no
    /// quest is dropped.
    pub fn start_quest(&mut self, requests: &Vec<StartQuest>)
        ensures
            final(self)@ == (WorldState {
                slots: all_started(old(self)@.slots, requests@),
                ..old(self)@
            }),
            old(self).wf() ==> final(self).wf(),
            final(self).rng_state() == old(self).rng_state(),
    {
        let mut i: usize = 0;
        while i < requests.len()
            invariant
                self.rng_state() == old(self).rng_state(),
                i <= requests@.len(),
                self@ == (WorldState {
                    slots: all_started(old(self)@.slots, requests@.subrange(0, i as int)),
                    ..old(self)@
                }),
            decreases requests@.len() - i,
        {
            assert(requests@.subrange(0, i + 1).drop_last() =~= requests@.subrange(0, i as int));
            let r = &requests[i];
            self.start_one(r.quest, &r.heroes);
            i = i + 1;
        }
        assert(requests@.subrange(0, i as int) =~= requests@);
        proof {
            if old(self).wf() {
                lemma_all_started_wf(old(self)@.slots, requests@);
            }
        }
    }

    /// For each completed timer in order, removes the entity if it is an
    /// available quest and returns the notifications of those expiries.
    pub fn expire_quest(&mut self, completed: &Vec<EntityId>) -> (r: Vec<String>)
        ensures
            final(self)@ == (WorldState {
                slots: expired_slots(old(self)@.slots, completed@),
                ..old(self)@
            }),
            texts(r@) == expiry_messages(old(self)@.slots, completed@),
            old(self).wf() ==> final(self).wf(),
            final(self).rng_state() == old(self).rng_state(),
    {
        let mut r: Vec<String> = Vec::new();
        let mut i: usize = 0;
        while i < completed.len()
            invariant
                self.rng_state() == old(self).rng_state(),
                i <= completed@.len(),
                self@ == (WorldState {
                    slots: expired_slots(old(self)@.slots, completed@.subrange(0, i as int)),
                    ..old(self)@
                }),
                texts(r@) == expiry_messages(old(self)@.slots, completed@.subrange(0, i as int)),
            decreases completed@.len() - i,
        {
            assert(completed@.subrange(0, i + 1).drop_last() =~= completed@.subrange(0, i as int));
            let e = completed[i];
            let available = e.0 < self.slots.len() && match &self.slots[e.0] {
                Slot::Quest(q) => q.status == QuestStatus::Available,
                _ => false,
            };
            if available {
                self.slots[e.0] = Slot::Vacant;
                r.push(expiry_notification(e));
            }
            assert(texts(r@) =~= expiry_messages(old(self)@.slots, completed@.subrange(0, i + 1)));
            i = i + 1;
        }
        assert(completed@.subrange(0, i as int) =~= completed@);
        proof {
            if old(self).wf() {
                lemma_expired_wf(old(self)@.slots, completed@);
            }
        }
        r
    }

    /// The heroes on `quest`, in store order.
    pub fn party_of(&self, quest: EntityId) -> (r: Vec<EntityId>)
        ensures
            r@ == heroes_on(self@.slots, quest),
    {
        let mut r: Vec<EntityId> = Vec::new();
        let mut i: usize = 0;
        while i < self.slots.len()
            invariant
                i <= self@.slots.len(),
                r@ == heroes_on_upto(self@.slots, quest, i as nat),
            decreases self@.slots.len() - i,
        {
            let on_quest = match &self.slots[i] {
                Slot::Hero(h) => h.quest == Some(quest),
                _ => false,
            };
            if on_quest {
                r.push(EntityId(i));
            }
            i = i + 1;
        }
        r
    }

    /// The level records of the heroes of a party.
    pub fn levels_of(&self, party: &Vec<EntityId>) -> (r: Vec<LevelState>)
        requires
            forall|k: int| 0 <= k < party@.len() ==> is_hero(self@.slots, #[trigger] party@[k]),
        ensures
            r@ == party_levels(self@.slots, party@),
    {
        let mut r: Vec<LevelState> = Vec::new();
        let mut i: usize = 0;
        while i < party.len()
            invariant
                i <= party@.len(),
                forall|k: int| 0 <= k < party@.len() ==> is_hero(self@.slots, #[trigger] party@[k]),
                r@ =~= party_levels(self@.slots, party@.subrange(0, i as int)),
            decreases party@.len() - i,
        {
            let id = party[i];
            assert(is_hero(self@.slots, party@[i as int]));
            match &self.slots[id.0] {
                Slot::Hero(h) => {
                    r.push(h.level);
                },
                _ => {},
            }
            i = i + 1;
        }
        assert(party@.subrange(0, i as int) =~= party@);
        r
    }

    /// Resolves the in-progress `quest` with the given chance and outcome:
    /// every hero on it is unlinked and stays in the store, the quest is
    /// removed, and the record lists exactly those heroes, grants the quest's
    /// experience, and its gold only on success.
    pub fn resolve_quest(&mut self, quest: EntityId, success_probability: Percent, is_successful: bool) -> (r:
        QuestComplete)
        requires
            has_status(old(self)@.slots, quest, QuestStatus::InProgress),
        ensures
            final(self)@ == (WorldState { slots: resolved(old(self)@.slots, quest), ..old(self)@ }),
            r@ == outcome_with(old(self)@.slots, quest, success_probability, is_successful),
            old(self).wf() ==> final(self).wf(),
            final(self).rng_state() == old(self).rng_state(),
    {
        let description = self.quest(quest).unwrap().description;
        let ghost old_slots = self@.slots;
        let mut heroes: Vec<EntityId> = Vec::new();
        let mut i: usize = 0;
        while i < self.slots.len()
            invariant
                self.rng_state() == old(self).rng_state(),
                i <= self@.slots.len(),
                self@.slots.len() == old_slots.len(),
                old_slots == old(self)@.slots,
                has_status(old_slots, quest, QuestStatus::InProgress),
                forall|j: int| 0 <= j < i ==> self@.slots[j] == resolved(old_slots, quest)[j],
                forall|j: int| i <= j < self@.slots.len() ==> self@.slots[j] == old_slots[j],
                self@ == (WorldState { slots: self@.slots, ..old(self)@ }),
                heroes@ == heroes_on_upto(old_slots, quest, i as nat),
            decreases self@.slots.len() - i,
        {
            if i == quest.0 {
                self.slots[i] = Slot::Vacant;
            } else {
                match &mut self.slots[i] {
                    Slot::Hero(h) => {
                        if h.quest == Some(quest) {
                            h.quest = None;
                            heroes.push(EntityId(i));
                        }
                    },
                    _ => {},
                }
            }
            i = i + 1;
        }
        assert(self@.slots =~= resolved(old_slots, quest));
        proof {
            if old(self).wf() {
                lemma_resolved_wf(old_slots, quest);
            }
        }
        QuestComplete {
            quest_description: description,
            heroes,
            success_probability,
            is_successful,
            exp_reward: description.exp_reward,
            gold_reward: if is_successful {
                description.gold_reward
            } else {
                0
            },
        }
    }

    /// For each completed timer in order, resolves the entity if it is an
    /// in-progress quest with heroes on it: the chance is computed from the
    /// heroes' levels, one coin is drawn from the random source, and the
    /// quest resolves with that outcome. Returns the records in order; the
    /// `k`-th resolution has the outcome of the `k`-th record, whatever the
    /// coins came up.
    pub fn complete_quest(&mut self, completed: &Vec<EntityId>) -> (r: Vec<QuestComplete>)
        ensures
            final(self)@ == (WorldState {
                slots: resolutions(old(self)@.slots, completed@, draws_of(r@)).0,
                ..old(self)@
            }),
            outcomes_view(r@) == resolutions(old(self)@.slots, completed@, draws_of(r@)).1,
            tosses(old(self).rng_state(), chances_of(outcomes_view(r@))) == (draws_of(r@), final(self).rng_state()),
            r@.len() == 0 ==> final(self).rng_state() == old(self).rng_state(),
            forall|k: int|
                0 <= k < r@.len() ==> (#[trigger] r@[k].success_probability.0 >= 100
                    ==> r@[k].is_successful) && (r@[k].success_probability.0 <= 0
                    ==> !r@[k].is_successful),
            old(self).wf() ==> final(self).wf(),
    {
        let mut r: Vec<QuestComplete> = Vec::new();
        let mut i: usize = 0;
        while i < completed.len()
            invariant
                i <= completed@.len(),
                self@ == (WorldState {
                    slots: resolutions(old(self)@.slots, completed@.subrange(0, i as int), draws_of(r@)).0,
                    ..old(self)@
                }),
                outcomes_view(r@) == resolutions(
                    old(self)@.slots,
                    completed@.subrange(0, i as int),
                    draws_of(r@),
                ).1,
                tosses(old(self).rng_state(), chances_of(outcomes_view(r@))) == (draws_of(r@), self.rng_state()),
                forall|k: int|
                    0 <= k < r@.len() ==> (#[trigger] r@[k].success_probability.0 >= 100
                        ==> r@[k].is_successful) && (r@[k].success_probability.0 <= 0
                        ==> !r@[k].is_successful),
            decreases completed@.len() - i,
        {
            let ghost prefix = completed@.subrange(0, i as int);
            let ghost draws = draws_of(r@);
            let ghost before = r@;
            assert(completed@.subrange(0, i + 1).drop_last() =~= prefix);
            let e = completed[i];
            let in_progress = e.0 < self.slots.len() && match &self.slots[e.0] {
                Slot::Quest(q) => q.status == QuestStatus::InProgress,
                _ => false,
            };
            if in_progress {
                let party = self.party_of(e);
                if party.len() > 0 {
                    proof {
                        lemma_heroes_on_facts(self@.slots, e, self@.slots.len());
                    }
                    let levels = self.levels_of(&party);
                    let difficulty = self.quest(e).unwrap().description.difficulty_level;
                    match probability_of_quest_success(difficulty, levels.as_slice()) {
                        Ok(chance) => {
                            let coin = chance.distribution();
                            let success = sample_coin(&coin, &mut self.rng);
                            let event = self.resolve_quest(e, chance, success);
                            r.push(event);
                            proof {
                                assert(outcomes_view(before).len() == before.len());
                                lemma_resolutions_extend(
                                    old(self)@.slots,
                                    prefix,
                                    draws,
                                    seq![success],
                                );
                                assert(draws_of(r@) =~= draws + seq![success]);
                                assert(chances_of(outcomes_view(r@)).drop_last() =~= chances_of(outcomes_view(before)));
                                assert(draws_of(r@) =~= draws_of(before).push(success));
                                assert(outcomes_view(r@) =~= outcomes_view(before).push(event@));
                                lemma_resolutions_extend(
                                    old(self)@.slots,
                                    completed@.subrange(0, i + 1),
                                    draws_of(r@),
                                    Seq::empty(),
                                );
                            }
                        },
                        Err(_) => {},
                    }
                }
            }
            proof {
                if r@.len() == before.len() {
                    assert(r@ == before);
                }
            }
            i = i + 1;
        }
        assert(completed@.subrange(0, i as int) =~= completed@);
        proof {
            if old(self).wf() {
                lemma_resolutions_wf(old(self)@.slots, completed@, draws_of(r@));
            }
        }
        r
    }
}

} // verus!
