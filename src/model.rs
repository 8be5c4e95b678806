//! The engine's state as mathematical values, and each step of a cycle as a
//! function on that state.
use crate::entity::{EntityId, Hero, LevelState, Quest, QuestStatus, Slot, TurnTimer};
use crate::events::{QuestComplete, QuestOutcome, StartQuest};
use crate::percent::{success_percent, Percent};
use crate::random::{coin_of, toss};
use rand_chacha::ChaCha8Rng;
use crate::text::{expiry_message, new_hero_message, quest_complete_message};
use vstd::prelude::*;

verus! {

/// The state of a world: everything but the random source.
pub struct WorldState {
    /// The entity store; an entity's handle is its index here.
    pub slots: Seq<Slot>,
    /// Heroes spawned since new heroes were last announced.
    pub added_heroes: Seq<EntityId>,
    pub turn: u32,
    /// The guild's gold.
    pub gold: u32,
    /// The notification log: each message with its unread flag.
    pub log: Seq<(Seq<char>, bool)>,
}

/// The texts of a list of strings.
pub open spec fn texts(v: Seq<String>) -> Seq<Seq<char>> {
    v.map_values(|s: String| s@)
}

/// `id` names a hero.
pub open spec fn is_hero(slots: Seq<Slot>, id: EntityId) -> bool {
    id.0 < slots.len() && slots[id.0 as int] is Hero
}

/// `id` names a quest.
pub open spec fn is_quest(slots: Seq<Slot>, id: EntityId) -> bool {
    id.0 < slots.len() && slots[id.0 as int] is Quest
}

/// `id` names a quest with the given status.
pub open spec fn has_status(slots: Seq<Slot>, id: EntityId, status: QuestStatus) -> bool {
    is_quest(slots, id) && slots[id.0 as int]->Quest_0.status == status
}

/// The slot holds a hero that is on `quest`.
pub open spec fn links_to(slot: Slot, quest: EntityId) -> bool {
    slot is Hero && slot->Hero_0.quest == Some(quest)
}

/// The heroes on `quest` among the first `n` slots, in slot order.
pub open spec fn heroes_on_upto(slots: Seq<Slot>, quest: EntityId, n: nat) -> Seq<EntityId>
    decreases n,
{
    if n == 0 {
        Seq::empty()
    } else {
        let prev = heroes_on_upto(slots, quest, (n - 1) as nat);
        if links_to(slots[n - 1], quest) {
            prev.push(EntityId((n - 1) as usize))
        } else {
            prev
        }
    }
}

/// The heroes on `quest`, in slot order.
pub open spec fn heroes_on(slots: Seq<Slot>, quest: EntityId) -> Seq<EntityId> {
    heroes_on_upto(slots, quest, slots.len())
}

/// The hero list of a quest holds each hero on it once, and nothing else.
pub proof fn lemma_heroes_on_facts(slots: Seq<Slot>, quest: EntityId, n: nat)
    requires
        n <= slots.len() <= usize::MAX,
    ensures
        heroes_on_upto(slots, quest, n).no_duplicates(),
        forall|k: int|
            0 <= k < heroes_on_upto(slots, quest, n).len() ==> (#[trigger] heroes_on_upto(
                slots,
                quest,
                n,
            )[k]).0 < n,
        forall|k: int|
            0 <= k < heroes_on_upto(slots, quest, n).len() ==> is_hero(
                slots,
                #[trigger] heroes_on_upto(slots, quest, n)[k],
            ) && links_to(slots[heroes_on_upto(slots, quest, n)[k].0 as int], quest),
        forall|i: int|
            0 <= i < n && links_to(#[trigger] slots[i], quest) ==> heroes_on_upto(
                slots,
                quest,
                n,
            ).contains(EntityId(i as usize)),
    decreases n,
{
    if n > 0 {
        let m = (n - 1) as nat;
        lemma_heroes_on_facts(slots, quest, m);
        let prev = heroes_on_upto(slots, quest, m);
        let all = heroes_on_upto(slots, quest, n);
        if links_to(slots[m as int], quest) {
            assert(all == prev.push(EntityId(m as usize)));
            assert(all[prev.len() as int] == EntityId(m as usize));
            assert forall|k: int| 0 <= k < all.len() implies is_hero(slots, #[trigger] all[k])
                && links_to(slots[all[k].0 as int], quest) && all[k].0 < n by {
                if k < prev.len() {
                    assert(all[k] == prev[k]);
                }
            }
            assert forall|i: int| 0 <= i < n && links_to(#[trigger] slots[i], quest) implies all.contains(
                EntityId(i as usize),
            ) by {
                if i < m {
                    let w = choose|w: int| 0 <= w < prev.len() && prev[w] == EntityId(i as usize);
                    assert(all[w] == prev[w]);
                } else {
                    assert(all[prev.len() as int] == EntityId(i as usize));
                }
            }
            assert forall|a: int, b: int| 0 <= a < b < all.len() implies all[a] != all[b] by {
                if b < prev.len() {
                    assert(all[a] == prev[a] && all[b] == prev[b]);
                } else {
                    assert(all[a] == prev[a]);
                }
            }
        }
    }
}

/// The level records of the heroes of a party.
pub open spec fn party_levels(slots: Seq<Slot>, party: Seq<EntityId>) -> Seq<LevelState> {
    party.map_values(|id: EntityId| slots[id.0 as int]->Hero_0.level)
}

/// The sum of the turn deltas of a cycle.
pub open spec fn sum_deltas(deltas: Seq<u32>) -> nat
    decreases deltas.len(),
{
    if deltas.len() == 0 {
        0
    } else {
        sum_deltas(deltas.drop_last()) + deltas.last() as nat
    }
}

/// The slot after `delta` turns: a quest's timer runs down.
pub open spec fn slot_timer_advanced(slot: Slot, delta: nat) -> Slot {
    match slot {
        Slot::Quest(q) => Slot::Quest(Quest { timer: q.timer.advanced(delta), ..q }),
        _ => slot,
    }
}

/// `delta` turns complete the slot's timer.
pub open spec fn slot_timer_completes(slot: Slot, delta: nat) -> bool {
    slot is Quest && slot->Quest_0.timer.completes(delta)
}

/// Every timer after `delta` turns.
pub open spec fn timers_advanced(slots: Seq<Slot>, delta: nat) -> Seq<Slot> {
    Seq::new(slots.len(), |i: int| slot_timer_advanced(slots[i], delta))
}

/// The entities among the first `n` whose timers `delta` turns complete.
pub open spec fn completions_upto(slots: Seq<Slot>, delta: nat, n: nat) -> Seq<EntityId>
    decreases n,
{
    if n == 0 {
        Seq::empty()
    } else {
        let prev = completions_upto(slots, delta, (n - 1) as nat);
        if slot_timer_completes(slots[n - 1], delta) {
            prev.push(EntityId((n - 1) as usize))
        } else {
            prev
        }
    }
}

/// The entities whose timers `delta` turns complete, in store order.
pub open spec fn timer_completions(slots: Seq<Slot>, delta: nat) -> Seq<EntityId> {
    completions_upto(slots, delta, slots.len())
}

/// The store after `heroes` are sent on `quest`: the quest goes in progress
/// with its timer re-armed to its completion time, and each listed hero is
/// linked to it. A request naming no quest changes nothing.
pub open spec fn started(slots: Seq<Slot>, quest: EntityId, heroes: Seq<EntityId>) -> Seq<Slot> {
    if is_quest(slots, quest) {
        Seq::new(
            slots.len(),
            |i: int|
                if i == quest.0 {
                    let q = slots[i]->Quest_0;
                    Slot::Quest(
                        Quest {
                            status: QuestStatus::InProgress,
                            timer: TurnTimer::spec_new(q.description.turns_to_complete),
                            ..q
                        },
                    )
                } else if slots[i] is Hero && heroes.contains(EntityId(i as usize)) {
                    Slot::Hero(Hero { quest: Some(quest), ..slots[i]->Hero_0 })
                } else {
                    slots[i]
                },
        )
    } else {
        slots
    }
}

/// The store after the start requests, taken in order.
pub open spec fn all_started(slots: Seq<Slot>, requests: Seq<StartQuest>) -> Seq<Slot>
    decreases requests.len(),
{
    if requests.len() == 0 {
        slots
    } else {
        let r = requests.last();
        started(all_started(slots, requests.drop_last()), r.quest, r.heroes@)
    }
}

/// The store after the completed timers of available quests expire them.
pub open spec fn expired_slots(slots: Seq<Slot>, completed: Seq<EntityId>) -> Seq<Slot>
    decreases completed.len(),
{
    if completed.len() == 0 {
        slots
    } else {
        let prev = expired_slots(slots, completed.drop_last());
        let e = completed.last();
        if has_status(prev, e, QuestStatus::Available) {
            prev.update(e.0 as int, Slot::Vacant)
        } else {
            prev
        }
    }
}

/// The notifications of the expiries of `expired_slots`.
pub open spec fn expiry_messages(slots: Seq<Slot>, completed: Seq<EntityId>) -> Seq<Seq<char>>
    decreases completed.len(),
{
    if completed.len() == 0 {
        Seq::empty()
    } else {
        let prev = expiry_messages(slots, completed.drop_last());
        let e = completed.last();
        if has_status(expired_slots(slots, completed.drop_last()), e, QuestStatus::Available) {
            prev.push(expiry_message(e))
        } else {
            prev
        }
    }
}

/// An in-progress quest with at least one hero on it, ready to resolve.
pub open spec fn resolvable(slots: Seq<Slot>, quest: EntityId) -> bool {
    has_status(slots, quest, QuestStatus::InProgress) && heroes_on(slots, quest).len() > 0
}

/// The store after `quest` resolves: its heroes are unlinked and stay, and
/// the quest is gone.
pub open spec fn resolved(slots: Seq<Slot>, quest: EntityId) -> Seq<Slot> {
    Seq::new(
        slots.len(),
        |i: int|
            if i == quest.0 {
                Slot::Vacant
            } else if links_to(slots[i], quest) {
                Slot::Hero(Hero { quest: None, ..slots[i]->Hero_0 })
            } else {
                slots[i]
            },
    )
}

/// The chance of success of the heroes on `quest`.
pub open spec fn quest_chance(slots: Seq<Slot>, quest: EntityId) -> Percent {
    let d = slots[quest.0 as int]->Quest_0.description;
    Percent(success_percent(d.difficulty_level, party_levels(slots, heroes_on(slots, quest))) as i64)
}

/// The record of `quest` resolving with the given chance and outcome.
pub open spec fn outcome_with(
    slots: Seq<Slot>,
    quest: EntityId,
    chance: Percent,
    is_successful: bool,
) -> QuestOutcome {
    let d = slots[quest.0 as int]->Quest_0.description;
    QuestOutcome {
        description: d,
        heroes: heroes_on(slots, quest),
        success_probability: chance,
        is_successful,
        exp_reward: d.exp_reward,
        gold_reward: if is_successful {
            d.gold_reward
        } else {
            0
        },
    }
}

/// The record of `quest` resolving with the given outcome, at the chance its
/// heroes have.
pub open spec fn outcome_of(slots: Seq<Slot>, quest: EntityId, is_successful: bool) -> QuestOutcome {
    outcome_with(slots, quest, quest_chance(slots, quest), is_successful)
}

/// The outcomes drawn for a list of records.
pub open spec fn draws_of(events: Seq<QuestComplete>) -> Seq<bool> {
    events.map_values(|e: QuestComplete| e.is_successful)
}

/// The chances of a list of records.
pub open spec fn chances_of(outcomes: Seq<QuestOutcome>) -> Seq<Percent> {
    outcomes.map_values(|o: QuestOutcome| o.success_probability)
}

/// The outcomes of tossing, in order, the coin of each (clamped) chance with
/// the generator `rng`, and the generator afterwards.
pub open spec fn tosses(rng: ChaCha8Rng, chances: Seq<Percent>) -> (Seq<bool>, ChaCha8Rng)
    decreases chances.len(),
{
    if chances.len() == 0 {
        (Seq::empty(), rng)
    } else {
        let prev = tosses(rng, chances.drop_last());
        let t = toss(prev.1, coin_of(chances.last().spec_clamped(), 100));
        (prev.0.push(t.0), t.1)
    }
}

/// The store and the records after the completed timers of in-progress
/// quests resolve them; the `k`-th resolution has outcome `draws[k]`.
pub open spec fn resolutions(slots: Seq<Slot>, completed: Seq<EntityId>, draws: Seq<bool>) -> (
    Seq<Slot>,
    Seq<QuestOutcome>,
)
    decreases completed.len(),
{
    if completed.len() == 0 {
        (slots, Seq::empty())
    } else {
        let prev = resolutions(slots, completed.drop_last(), draws);
        let e = completed.last();
        if resolvable(prev.0, e) {
            (resolved(prev.0, e), prev.1.push(outcome_of(prev.0, e, draws[prev.1.len() as int])))
        } else {
            prev
        }
    }
}

/// `a + b`, saturating at the largest `u32`.
pub open spec fn saturating_sum(a: u32, b: u32) -> u32 {
    if a + b > u32::MAX {
        u32::MAX
    } else {
        (a + b) as u32
    }
}

/// A hero's slot after it gains `reward` experience.
pub open spec fn rewarded(slot: Slot, reward: u32) -> Slot {
    let hero = slot->Hero_0;
    Slot::Hero(
        Hero {
            level: LevelState { exp: saturating_sum(hero.level.exp, reward), ..hero.level },
            ..hero
        },
    )
}

/// The store after each listed hero that exists gains `reward` experience
/// (once per listing).
pub open spec fn exp_granted(slots: Seq<Slot>, heroes: Seq<EntityId>, reward: u32) -> Seq<Slot>
    decreases heroes.len(),
{
    if heroes.len() == 0 {
        slots
    } else {
        let prev = exp_granted(slots, heroes.drop_last(), reward);
        let h = heroes.last();
        if is_hero(prev, h) {
            prev.update(h.0 as int, rewarded(prev[h.0 as int], reward))
        } else {
            prev
        }
    }
}

/// The store after the experience of each record is granted, in order.
pub open spec fn all_exp_granted(slots: Seq<Slot>, outcomes: Seq<QuestOutcome>) -> Seq<Slot>
    decreases outcomes.len(),
{
    if outcomes.len() == 0 {
        slots
    } else {
        let o = outcomes.last();
        exp_granted(all_exp_granted(slots, outcomes.drop_last()), o.heroes, o.exp_reward)
    }
}

/// The guild's gold after the records: each successful one adds its gold.
pub open spec fn gold_after(gold: u32, outcomes: Seq<QuestOutcome>) -> u32
    decreases outcomes.len(),
{
    if outcomes.len() == 0 {
        gold
    } else {
        let prev = gold_after(gold, outcomes.drop_last());
        let o = outcomes.last();
        if o.is_successful {
            saturating_sum(prev, o.gold_reward)
        } else {
            prev
        }
    }
}

/// The summary notification of each record.
pub open spec fn outcome_messages(outcomes: Seq<QuestOutcome>) -> Seq<Seq<char>> {
    outcomes.map_values(|o: QuestOutcome| quest_complete_message(o))
}

/// The announcements of the listed heroes that still exist.
pub open spec fn new_hero_messages(slots: Seq<Slot>, added: Seq<EntityId>) -> Seq<Seq<char>>
    decreases added.len(),
{
    if added.len() == 0 {
        Seq::empty()
    } else {
        let prev = new_hero_messages(slots, added.drop_last());
        let id = added.last();
        if is_hero(slots, id) {
            let h = slots[id.0 as int]->Hero_0;
            prev.push(new_hero_message(h.level.level, h.class, h.person.personality))
        } else {
            prev
        }
    }
}

/// The log after the messages are appended, each unread.
pub open spec fn logged(log: Seq<(Seq<char>, bool)>, messages: Seq<Seq<char>>) -> Seq<(Seq<char>, bool)> {
    log + messages.map_values(|m: Seq<char>| (m, true))
}

/// A well-formed store: every hero is at level 1 or above, and a hero on a
/// quest is on one that is in progress.
pub open spec fn store_wf(slots: Seq<Slot>) -> bool {
    forall|i: int|
        #![trigger slots[i]]
        0 <= i < slots.len() && slots[i] is Hero ==> {
            &&& slots[i]->Hero_0.level.level >= 1
            &&& match slots[i]->Hero_0.quest {
                Some(q) => has_status(slots, q, QuestStatus::InProgress),
                None => true,
            }
        }
}

pub proof fn lemma_started_wf(slots: Seq<Slot>, quest: EntityId, heroes: Seq<EntityId>)
    requires
        store_wf(slots),
    ensures
        store_wf(started(slots, quest, heroes)),
{
    let after = started(slots, quest, heroes);
    if is_quest(slots, quest) {
        assert forall|i: int|
            #![trigger after[i]]
            0 <= i < after.len() && after[i] is Hero implies {
                &&& after[i]->Hero_0.level.level >= 1
                &&& match after[i]->Hero_0.quest {
                    Some(q) => has_status(after, q, QuestStatus::InProgress),
                    None => true,
                }
            } by {
            assert(slots[i] is Hero);
            match slots[i]->Hero_0.quest {
                Some(q) => {
                    assert(has_status(slots, q, QuestStatus::InProgress));
                    assert(after[q.0 as int] is Quest);
                },
                None => {},
            }
        }
    }
}

pub proof fn lemma_all_started_wf(slots: Seq<Slot>, requests: Seq<StartQuest>)
    requires
        store_wf(slots),
    ensures
        store_wf(all_started(slots, requests)),
    decreases requests.len(),
{
    if requests.len() > 0 {
        lemma_all_started_wf(slots, requests.drop_last());
        let r = requests.last();
        lemma_started_wf(all_started(slots, requests.drop_last()), r.quest, r.heroes@);
    }
}

pub proof fn lemma_timers_wf(slots: Seq<Slot>, delta: nat)
    requires
        store_wf(slots),
    ensures
        store_wf(timers_advanced(slots, delta)),
{
    let after = timers_advanced(slots, delta);
    assert forall|i: int|
        #![trigger after[i]]
        0 <= i < after.len() && after[i] is Hero implies {
            &&& after[i]->Hero_0.level.level >= 1
            &&& match after[i]->Hero_0.quest {
                Some(q) => has_status(after, q, QuestStatus::InProgress),
                None => true,
            }
        } by {
        assert(slots[i] is Hero);
        match slots[i]->Hero_0.quest {
            Some(q) => {
                assert(has_status(slots, q, QuestStatus::InProgress));
                assert(after[q.0 as int] == slot_timer_advanced(slots[q.0 as int], delta));
            },
            None => {},
        }
    }
}

pub proof fn lemma_expired_wf(slots: Seq<Slot>, completed: Seq<EntityId>)
    requires
        store_wf(slots),
    ensures
        store_wf(expired_slots(slots, completed)),
    decreases completed.len(),
{
    if completed.len() > 0 {
        lemma_expired_wf(slots, completed.drop_last());
        let prev = expired_slots(slots, completed.drop_last());
        let e = completed.last();
        if has_status(prev, e, QuestStatus::Available) {
            let after = prev.update(e.0 as int, Slot::Vacant);
            assert forall|i: int|
                #![trigger after[i]]
                0 <= i < after.len() && after[i] is Hero implies {
                    &&& after[i]->Hero_0.level.level >= 1
                    &&& match after[i]->Hero_0.quest {
                        Some(q) => has_status(after, q, QuestStatus::InProgress),
                        None => true,
                    }
                } by {
                assert(prev[i] is Hero);
                match prev[i]->Hero_0.quest {
                    Some(q) => {
                        assert(has_status(prev, q, QuestStatus::InProgress));
                    },
                    None => {},
                }
            }
        }
    }
}

pub proof fn lemma_resolved_wf(slots: Seq<Slot>, quest: EntityId)
    requires
        store_wf(slots),
    ensures
        store_wf(resolved(slots, quest)),
{
    let after = resolved(slots, quest);
    assert forall|i: int|
        #![trigger after[i]]
        0 <= i < after.len() && after[i] is Hero implies {
            &&& after[i]->Hero_0.level.level >= 1
            &&& match after[i]->Hero_0.quest {
                Some(q) => has_status(after, q, QuestStatus::InProgress),
                None => true,
            }
        } by {
        assert(slots[i] is Hero);
        match slots[i]->Hero_0.quest {
            Some(q) => {
                assert(has_status(slots, q, QuestStatus::InProgress));
                if q != quest {
                    assert(after[q.0 as int] == slots[q.0 as int]);
                }
            },
            None => {},
        }
    }
}

pub proof fn lemma_resolutions_wf(slots: Seq<Slot>, completed: Seq<EntityId>, draws: Seq<bool>)
    requires
        store_wf(slots),
    ensures
        store_wf(resolutions(slots, completed, draws).0),
    decreases completed.len(),
{
    if completed.len() > 0 {
        lemma_resolutions_wf(slots, completed.drop_last(), draws);
        lemma_resolved_wf(resolutions(slots, completed.drop_last(), draws).0, completed.last());
    }
}

pub proof fn lemma_exp_granted_wf(slots: Seq<Slot>, heroes: Seq<EntityId>, reward: u32)
    requires
        store_wf(slots),
    ensures
        store_wf(exp_granted(slots, heroes, reward)),
    decreases heroes.len(),
{
    if heroes.len() > 0 {
        lemma_exp_granted_wf(slots, heroes.drop_last(), reward);
        let prev = exp_granted(slots, heroes.drop_last(), reward);
        let h = heroes.last();
        if is_hero(prev, h) {
            let after = prev.update(h.0 as int, rewarded(prev[h.0 as int], reward));
            assert forall|i: int|
                #![trigger after[i]]
                0 <= i < after.len() && after[i] is Hero implies {
                    &&& after[i]->Hero_0.level.level >= 1
                    &&& match after[i]->Hero_0.quest {
                        Some(q) => has_status(after, q, QuestStatus::InProgress),
                        None => true,
                    }
                } by {
                assert(prev[i] is Hero);
                match prev[i]->Hero_0.quest {
                    Some(q) => {
                        assert(has_status(prev, q, QuestStatus::InProgress));
                    },
                    None => {},
                }
            }
        }
    }
}

pub proof fn lemma_all_exp_granted_wf(slots: Seq<Slot>, outcomes: Seq<QuestOutcome>)
    requires
        store_wf(slots),
    ensures
        store_wf(all_exp_granted(slots, outcomes)),
    decreases outcomes.len(),
{
    if outcomes.len() > 0 {
        lemma_all_exp_granted_wf(slots, outcomes.drop_last());
        let o = outcomes.last();
        lemma_exp_granted_wf(all_exp_granted(slots, outcomes.drop_last()), o.heroes, o.exp_reward);
    }
}

pub proof fn lemma_logged_push(log: Seq<(Seq<char>, bool)>, messages: Seq<Seq<char>>, m: Seq<char>)
    ensures
        logged(log, messages.push(m)) == logged(log, messages).push((m, true)),
{
    assert(logged(log, messages.push(m)) =~= logged(log, messages).push((m, true)));
}

} // verus!
