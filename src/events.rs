//! The events that drive the engine and that it produces.
use crate::entity::{EntityId, QuestDescription};
use crate::percent::Percent;
use vstd::prelude::*;

verus! {

/// A request to send `heroes` on `quest`.
pub struct StartQuest {
    pub quest: EntityId,
    pub heroes: Vec<EntityId>,
}

/// The record of a resolved quest.
pub struct QuestComplete {
    pub quest_description: QuestDescription,
    /// The heroes that were on the quest.
    pub heroes: Vec<EntityId>,
    pub success_probability: Percent,
    pub is_successful: bool,
    /// Experience for each hero, granted whatever the outcome.
    pub exp_reward: u32,
    /// Gold for the guild: 0 unless the quest succeeded.
    pub gold_reward: u32,
}

/// A [`QuestComplete`] as a mathematical value.
pub struct QuestOutcome {
    pub description: QuestDescription,
    pub heroes: Seq<EntityId>,
    pub success_probability: Percent,
    pub is_successful: bool,
    pub exp_reward: u32,
    pub gold_reward: u32,
}

impl View for QuestComplete {
    type V = QuestOutcome;

    open spec fn view(&self) -> QuestOutcome {
        QuestOutcome {
            description: self.quest_description,
            heroes: self.heroes@,
            success_probability: self.success_probability,
            is_successful: self.is_successful,
            exp_reward: self.exp_reward,
            gold_reward: self.gold_reward,
        }
    }
}

pub open spec fn outcomes_view(events: Seq<QuestComplete>) -> Seq<QuestOutcome> {
    events.map_values(|e: QuestComplete| e@)
}

} // verus!
