//! The records held by the entity store: heroes, quests and their parts.
use std::collections::HashMap;
use vstd::prelude::*;

verus! {

/// Opaque handle of an entity: the index of its slot in the store.
#[derive(Clone, Copy, PartialEq, Eq, Structural, Debug, Hash)]
pub struct EntityId(pub usize);

#[derive(Clone, Copy, PartialEq, Eq, Structural, Debug)]
pub enum HeroClass {
    Warrior,
    Tank,
    Support,
}

#[derive(Clone, Copy, PartialEq, Eq, Structural, Debug)]
pub enum Personality {
    Friendly,
    ResultOriented,
    Mirror,
    Judgmental,
    Learner,
    Teacher,
}

#[derive(Clone, Copy, PartialEq, Eq, Structural, Debug)]
pub struct LevelState {
    pub level: u32,
    pub exp: u32,
    pub exp_to_next: u32,
}

/// Character traits of a hero, and its opinions of other entities (sparse:
/// an entity has no entry until a first interaction).
pub struct Person {
    pub personality: Personality,
    pub relationships: HashMap<EntityId, i32>,
}

impl Person {
    /// A person of the given personality with no opinions yet.
    pub fn new(personality: Personality) -> (r: Person)
        ensures
            r.personality == personality,
            r.relationships@ == Map::<EntityId, i32>::empty(),
    {
        Person { personality, relationships: HashMap::new() }
    }
}

/// A hero; `quest` is the quest it is currently on, if any.
pub struct Hero {
    pub level: LevelState,
    pub class: HeroClass,
    pub person: Person,
    pub quest: Option<EntityId>,
}

#[derive(Clone, Copy, PartialEq, Eq, Structural, Debug)]
pub struct Item {
    pub class: HeroClass,
}

/// What a quest asks and offers; fixed once the quest exists.
#[derive(Clone, Copy, PartialEq, Eq, Structural, Debug)]
pub struct QuestDescription {
    pub difficulty_level: u32,
    pub turns_to_complete: u32,
    pub exp_reward: u32,
    pub gold_reward: u32,
    pub item_reward: Option<Item>,
    pub turns_to_expiry: u32,
}

#[derive(Clone, Copy, PartialEq, Eq, Structural, Debug)]
pub enum QuestStatus {
    Available,
    InProgress,
}

/// A countdown over turns: `turns_remaining` starts at `initial_value` and
/// counts down to 0, never below.
#[derive(Clone, Copy, PartialEq, Eq, Structural, Debug)]
pub struct TurnTimer {
    pub initial_value: u32,
    pub turns_remaining: u32,
}

impl TurnTimer {
    /// A fresh timer of `turns` turns.
    pub open spec fn spec_new(turns: u32) -> TurnTimer {
        TurnTimer { initial_value: turns, turns_remaining: turns }
    }

    pub fn new(turns: u32) -> (r: TurnTimer)
        ensures
            r == TurnTimer::spec_new(turns),
    {
        TurnTimer { initial_value: turns, turns_remaining: turns }
    }

    /// The timer after `delta` turns: the remaining count drops by `delta`,
    /// stopping at 0.
    pub open spec fn advanced(self, delta: nat) -> TurnTimer {
        TurnTimer {
            turns_remaining: if self.turns_remaining > delta {
                (self.turns_remaining - delta) as u32
            } else {
                0
            },
            ..self
        }
    }

    /// Whether `delta` turns bring a running timer to 0.
    pub open spec fn completes(self, delta: nat) -> bool {
        0 < self.turns_remaining <= delta
    }

    /// Advances the timer by `delta` turns; returns whether it completed in
    /// this step (a timer already at 0 does not complete again).
    pub fn advance(&mut self, delta: u32) -> (completed: bool)
        ensures
            *final(self) == old(self).advanced(delta as nat),
            completed == old(self).completes(delta as nat),
    {
        let running = self.turns_remaining > 0;
        self.turns_remaining = self.turns_remaining.saturating_sub(delta);
        running && self.turns_remaining == 0
    }
}

/// A quest: its description, where it stands, and its countdown (toward
/// expiry while available, toward resolution while in progress).
#[derive(Clone, Copy, PartialEq, Eq, Structural, Debug)]
pub struct Quest {
    pub description: QuestDescription,
    pub status: QuestStatus,
    pub timer: TurnTimer,
}

impl Quest {
    /// A newly offered quest, counting down toward its expiry.
    pub open spec fn spec_available(description: QuestDescription) -> Quest {
        Quest {
            description,
            status: QuestStatus::Available,
            timer: TurnTimer::spec_new(description.turns_to_expiry),
        }
    }

    pub fn available(description: QuestDescription) -> (r: Quest)
        ensures
            r == Quest::spec_available(description),
    {
        Quest {
            description,
            status: QuestStatus::Available,
            timer: TurnTimer::new(description.turns_to_expiry),
        }
    }
}

/// One slot of the entity store.
pub enum Slot {
    Vacant,
    Hero(Hero),
    Quest(Quest),
}

} // verus!
