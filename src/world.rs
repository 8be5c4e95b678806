//! The owned state of the engine: the entity store, the turn counter, the
//! guild ledger, the notification log and the random source.
use crate::entity::{
    EntityId, Hero, HeroClass, LevelState, Person, Personality, Quest, QuestStatus, Slot,
};
use crate::model::{
    has_status, is_hero, is_quest, lemma_logged_push, store_wf, logged, new_hero_messages, texts,
    WorldState,
};
use crate::text::new_hero_notification;
use crate::random::{rng_of_seed, seeded_rng};
use rand_chacha::ChaCha8Rng;
use vstd::prelude::*;

verus! {

/// An entry of the notification log.
pub struct Notification {
    pub message: String,
    pub is_unread: bool,
}

/// The whole simulation state.
pub struct World {
    pub(crate) slots: Vec<Slot>,
    pub(crate) added_heroes: Vec<EntityId>,
    pub(crate) turn: u32,
    pub(crate) gold: u32,
    pub(crate) notifications: Vec<Notification>,
    pub(crate) rng: ChaCha8Rng,
}

pub open spec fn notification_view(n: Notification) -> (Seq<char>, bool) {
    (n.message@, n.is_unread)
}

impl View for World {
    type V = WorldState;

    open(crate) spec fn view(&self) -> WorldState {
        WorldState {
            slots: self.slots@,
            added_heroes: self.added_heroes@,
            turn: self.turn,
            gold: self.gold,
            log: self.notifications@.map_values(|n: Notification| notification_view(n)),
        }
    }
}

impl World {
    /// The state of the random source.
    pub open(crate) spec fn rng_state(&self) -> ChaCha8Rng {
        self.rng
    }

    /// The world's store is well formed (see [`store_wf`]).
    pub open spec fn wf(&self) -> bool {
        store_wf(self@.slots)
    }

    /// An empty world at turn 0 with no gold, whose random source is seeded
    /// with `seed`.
    pub fn new(seed: u64) -> (w: World)
        ensures
            w@.slots.len() == 0,
            w@.added_heroes.len() == 0,
            w@.turn == 0,
            w@.gold == 0,
            w@.log.len() == 0,
            w.wf(),
            w.rng_state() == rng_of_seed(seed),
    {
        World {
            slots: Vec::new(),
            added_heroes: Vec::new(),
            turn: 0,
            gold: 0,
            notifications: Vec::new(),
            rng: seeded_rng(seed),
        }
    }

    pub fn turn(&self) -> (r: u32)
        ensures
            r == self@.turn,
    {
        self.turn
    }

    /// The guild's gold.
    pub fn gold(&self) -> (r: u32)
        ensures
            r == self@.gold,
    {
        self.gold
    }

    /// The notification log, oldest first.
    pub fn notifications(&self) -> (r: &Vec<Notification>)
        ensures
            r@.map_values(|n: Notification| notification_view(n)) == self@.log,
    {
        &self.notifications
    }

    /// Whether `id` names an entity that is still in the store.
    pub fn is_alive(&self, id: EntityId) -> (r: bool)
        ensures
            r == (id.0 < self@.slots.len() && !(self@.slots[id.0 as int] is Vacant)),
    {
        id.0 < self.slots.len() && !matches!(self.slots[id.0], Slot::Vacant)
    }

    /// The hero that `id` names, if it names one.
    pub fn hero(&self, id: EntityId) -> (r: Option<&Hero>)
        ensures
            match r {
                Some(h) => is_hero(self@.slots, id) && *h == self@.slots[id.0 as int]->Hero_0,
                None => !is_hero(self@.slots, id),
            },
    {
        if id.0 < self.slots.len() {
            match &self.slots[id.0] {
                Slot::Hero(h) => Some(h),
                _ => None,
            }
        } else {
            None
        }
    }

    /// The quest that `id` names, if it names one.
    pub fn quest(&self, id: EntityId) -> (r: Option<Quest>)
        ensures
            match r {
                Some(q) => is_quest(self@.slots, id) && q == self@.slots[id.0 as int]->Quest_0,
                None => !is_quest(self@.slots, id),
            },
    {
        if id.0 < self.slots.len() {
            match &self.slots[id.0] {
                Slot::Quest(q) => Some(*q),
                _ => None,
            }
        } else {
            None
        }
    }

    /// Adds a hero of the given level record, class and personality, with no
    /// opinions and on no quest; it is announced by the next cycle.
    pub fn spawn_hero(&mut self, level: LevelState, class: HeroClass, personality: Personality) -> (id:
        EntityId)
        requires
            level.level >= 1,
        ensures
            id.0 == old(self)@.slots.len(),
            final(self)@.slots.len() == old(self)@.slots.len() + 1,
            final(self)@.slots.subrange(0, id.0 as int) == old(self)@.slots,
            final(self)@.slots[id.0 as int] is Hero,
            fresh_hero(final(self)@.slots[id.0 as int]->Hero_0, level, class, personality),
            final(self)@.added_heroes == old(self)@.added_heroes.push(id),
            final(self)@.turn == old(self)@.turn,
            final(self)@.gold == old(self)@.gold,
            final(self)@.log == old(self)@.log,
            old(self).wf() ==> final(self).wf(),
            final(self).rng_state() == old(self).rng_state(),
    {
        let id = EntityId(self.slots.len());
        self.slots.push(
            Slot::Hero(Hero { level, class, person: Person::new(personality), quest: None }),
        );
        self.added_heroes.push(id);
        assert(self@.slots.subrange(0, id.0 as int) =~= old(self)@.slots);
        proof {
            lemma_push_wf(old(self)@.slots, self@.slots[id.0 as int]);
        }
        id
    }

    /// Adds a quest record.
    pub fn spawn_quest(&mut self, quest: Quest) -> (id: EntityId)
        ensures
            id.0 == old(self)@.slots.len(),
            final(self)@.slots == old(self)@.slots.push(Slot::Quest(quest)),
            final(self)@.added_heroes == old(self)@.added_heroes,
            final(self)@.turn == old(self)@.turn,
            final(self)@.gold == old(self)@.gold,
            final(self)@.log == old(self)@.log,
            old(self).wf() ==> final(self).wf(),
            final(self).rng_state() == old(self).rng_state(),
    {
        let id = EntityId(self.slots.len());
        self.slots.push(Slot::Quest(quest));
        proof {
            lemma_push_wf(old(self)@.slots, Slot::Quest(quest));
        }
        id
    }

    /// Appends each message to the log, unread, in order.
    pub fn handle_notification_events(&mut self, messages: &Vec<String>)
        ensures
            final(self)@ == (WorldState { log: logged(old(self)@.log, texts(messages@)), ..old(self)@ }),
            final(self).rng_state() == old(self).rng_state(),
    {
        let mut i: usize = 0;
        while i < messages.len()
            invariant
                self.rng_state() == old(self).rng_state(),
                i <= messages@.len(),
                self@ == (WorldState {
                    log: logged(old(self)@.log, texts(messages@.subrange(0, i as int))),
                    ..old(self)@
                }),
            decreases messages@.len() - i,
        {
            let message = messages[i].clone();
            self.notifications.push(Notification { message, is_unread: true });
            proof {
                let done = texts(messages@.subrange(0, i as int));
                assert(texts(messages@.subrange(0, i + 1)) =~= done.push(messages@[i as int]@));
                lemma_logged_push(old(self)@.log, done, messages@[i as int]@);
                assert(self@.log =~= logged(old(self)@.log, done).push((messages@[i as int]@, true)));
            }
            i = i + 1;
        }
        assert(messages@.subrange(0, i as int) =~= messages@);
    }

    /// Announces the heroes spawned since the last call that are still heroes,
    /// in the order they were spawned, and forgets them.
    pub fn log_new_hero(&mut self) -> (r: Vec<String>)
        ensures
            texts(r@) == new_hero_messages(old(self)@.slots, old(self)@.added_heroes),
            final(self)@ == (WorldState { added_heroes: Seq::empty(), ..old(self)@ }),
            final(self).rng_state() == old(self).rng_state(),
    {
        let mut r: Vec<String> = Vec::new();
        let mut i: usize = 0;
        while i < self.added_heroes.len()
            invariant
                self.rng_state() == old(self).rng_state(),
                i <= self@.added_heroes.len(),
                self@ == old(self)@,
                texts(r@) == new_hero_messages(self@.slots, self@.added_heroes.subrange(0, i as int)),
            decreases self@.added_heroes.len() - i,
        {
            let id = self.added_heroes[i];
            proof {
                assert(self@.added_heroes.subrange(0, i + 1).drop_last() =~= self@.added_heroes.subrange(0, i as int));
            }
            if id.0 < self.slots.len() {
                match &self.slots[id.0] {
                    Slot::Hero(h) => {
                        r.push(new_hero_notification(h.level.level, h.class, h.person.personality));
                    },
                    _ => {},
                }
            }
            proof {
                assert(texts(r@) =~= new_hero_messages(self@.slots, self@.added_heroes.subrange(0, i + 1)));
            }
            i = i + 1;
        }
        assert(self@.added_heroes.subrange(0, i as int) =~= self@.added_heroes);
        self.added_heroes = Vec::new();
        r
    }
}

/// Adding a quest, or a hero of level 1 or above on no quest, keeps a store
/// well formed.
pub proof fn lemma_push_wf(slots: Seq<Slot>, slot: Slot)
    requires
        slot is Hero ==> slot->Hero_0.level.level >= 1 && slot->Hero_0.quest is None,
    ensures
        store_wf(slots) ==> store_wf(slots.push(slot)),
{
    let after = slots.push(slot);
    if store_wf(slots) {
        assert forall|i: int|
            #![trigger after[i]]
            0 <= i < after.len() && after[i] is Hero implies {
                &&& after[i]->Hero_0.level.level >= 1
                &&& match after[i]->Hero_0.quest {
                    Some(q) => has_status(after, q, QuestStatus::InProgress),
                    None => true,
                }
            } by {
            if i < slots.len() {
                assert(after[i] == slots[i]);
                match slots[i]->Hero_0.quest {
                    Some(q) => {
                        assert(has_status(slots, q, QuestStatus::InProgress));
                        assert(after[q.0 as int] == slots[q.0 as int]);
                    },
                    None => {},
                }
            }
        }
    }
}

/// A newly spawned hero: the given level record, class and personality, no
/// opinions, on no quest.
pub open spec fn fresh_hero(h: Hero, level: LevelState, class: HeroClass, personality: Personality) -> bool {
    &&& h.level == level
    &&& h.class == class
    &&& h.person.personality == personality
    &&& h.person.relationships@ == Map::<EntityId, i32>::empty()
    &&& h.quest is None
}

} // verus!
