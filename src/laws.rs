//! Properties of the engine that relate several steps, calls or cycles.
use crate::cycle::{cycle, cycle_messages, cycle_resolutions, cycle_timers};
use crate::entity::{EntityId, Hero, LevelState, QuestStatus, Slot, TurnTimer};
use crate::events::{QuestOutcome, StartQuest};
use crate::model::{
    all_exp_granted, all_started, chances_of, exp_granted, expired_slots, expiry_messages,
    gold_after, has_status, heroes_on, heroes_on_upto, is_hero, lemma_all_exp_granted_wf,
    lemma_all_started_wf, lemma_expired_wf, lemma_heroes_on_facts, lemma_resolutions_wf,
    lemma_timers_wf, links_to, logged, new_hero_messages, outcome_messages, outcome_of,
    resolutions, resolvable, resolved, rewarded, saturating_sum, store_wf, sum_deltas, tosses,
    WorldState,
};
use crate::text::{expiry_message, new_hero_message, turn_message};
use rand_chacha::ChaCha8Rng;
use vstd::prelude::*;

verus! {

/// The inputs of one cycle: its turn deltas, its start requests, and the
/// coins its resolutions drew, in order.
pub struct CycleInput {
    pub deltas: Seq<u32>,
    pub starts: Seq<StartQuest>,
    pub draws: Seq<bool>,
}

/// The world after a run of cycles.
pub open spec fn run(s: WorldState, inputs: Seq<CycleInput>) -> WorldState
    decreases inputs.len(),
{
    if inputs.len() == 0 {
        s
    } else {
        let i = inputs.last();
        cycle(run(s, inputs.drop_last()), i.deltas, i.starts, i.draws)
    }
}

/// The sum of all turn deltas of a run.
pub open spec fn total_deltas(inputs: Seq<CycleInput>) -> nat
    decreases inputs.len(),
{
    if inputs.len() == 0 {
        0
    } else {
        total_deltas(inputs.drop_last()) + sum_deltas(inputs.last().deltas)
    }
}

/// Over any run of cycles whose turn deltas sum to `D`, the turn counter
/// grows by exactly `D`.
pub proof fn lemma_turn_monotonicity(s: WorldState, inputs: Seq<CycleInput>)
    requires
        s.turn + total_deltas(inputs) <= u32::MAX,
    ensures
        run(s, inputs).turn == s.turn + total_deltas(inputs),
    decreases inputs.len(),
{
    if inputs.len() > 0 {
        lemma_turn_monotonicity(s, inputs.drop_last());
    }
}

proof fn lemma_new_hero_initials(slots: Seq<Slot>, added: Seq<EntityId>)
    ensures
        forall|k: int|
            0 <= k < new_hero_messages(slots, added).len() ==> (#[trigger] new_hero_messages(
                slots,
                added,
            )[k]).len() > 0 && new_hero_messages(slots, added)[k][0] == 'N',
    decreases added.len(),
{
    reveal_strlit("New hero created: Level: ");
    if added.len() > 0 {
        lemma_new_hero_initials(slots, added.drop_last());
        let prev = new_hero_messages(slots, added.drop_last());
        let all = new_hero_messages(slots, added);
        let id = added.last();
        if is_hero(slots, id) {
            let h = slots[id.0 as int]->Hero_0;
            let head = "New hero created: Level: "@;
            assert(head[0] == 'N');
            let msg = new_hero_message(h.level.level, h.class, h.person.personality);
            assert(msg[0] == 'N');
            assert forall|k: int| 0 <= k < all.len() implies (#[trigger] all[k]).len() > 0
                && all[k][0] == 'N' by {
                if k < prev.len() {
                    assert(all[k] == prev[k]);
                }
            }
        }
    }
}

proof fn lemma_expiry_initials(slots: Seq<Slot>, completed: Seq<EntityId>)
    ensures
        forall|k: int|
            0 <= k < expiry_messages(slots, completed).len() ==> (#[trigger] expiry_messages(
                slots,
                completed,
            )[k]).len() > 0 && expiry_messages(slots, completed)[k][0] == 'A',
    decreases completed.len(),
{
    reveal_strlit("An available quest expired: entity ");
    if completed.len() > 0 {
        lemma_expiry_initials(slots, completed.drop_last());
        let prev = expiry_messages(slots, completed.drop_last());
        let all = expiry_messages(slots, completed);
        let msg = expiry_message(completed.last());
        assert(msg[0] == 'A');
        assert forall|k: int| 0 <= k < all.len() implies (#[trigger] all[k]).len() > 0
            && all[k][0] == 'A' by {
            if k < prev.len() {
                assert(all[k] == prev[k]);
            }
        }
    }
}

/// Each cycle logs exactly one report of its turn advance, right after the
/// announcements of new heroes; it gives the sum of the cycle's deltas and
/// the turn reached.
pub proof fn lemma_one_turn_report(
    s: WorldState,
    deltas: Seq<u32>,
    starts: Seq<StartQuest>,
    draws: Seq<bool>,
)
    ensures
        cycle(s, deltas, starts, draws).log == logged(s.log, cycle_messages(s, deltas, starts, draws)),
        cycle_messages(s, deltas, starts, draws)[new_hero_messages(s.slots, s.added_heroes).len() as int]
            == turn_message(sum_deltas(deltas), (s.turn + sum_deltas(deltas)) as nat),
        forall|k: int|
            0 <= k < cycle_messages(s, deltas, starts, draws).len() && #[trigger] cycle_messages(
                s,
                deltas,
                starts,
                draws,
            )[k] == turn_message(sum_deltas(deltas), (s.turn + sum_deltas(deltas)) as nat) ==> k
                == new_hero_messages(s.slots, s.added_heroes).len(),
{
    reveal_strlit("Turn advanced by ");
    reveal_strlit("Quest completed: ");
    let d = sum_deltas(deltas);
    let t = turn_message(d, (s.turn + d) as nat);
    let (advanced, completed) = cycle_timers(s, deltas, starts);
    let heroes = new_hero_messages(s.slots, s.added_heroes);
    let expiries = expiry_messages(advanced, completed);
    let summaries = outcome_messages(cycle_resolutions(s, deltas, starts, draws).1);
    let m = cycle_messages(s, deltas, starts, draws);
    lemma_new_hero_initials(s.slots, s.added_heroes);
    lemma_expiry_initials(advanced, completed);
    assert(m == heroes + seq![t] + expiries + summaries);
    assert(t[0] == 'T');
    assert forall|k: int| 0 <= k < m.len() && #[trigger] m[k] == t implies k == heroes.len() by {
        if k < heroes.len() {
            assert(m[k] == heroes[k]);
        } else if heroes.len() < k < heroes.len() + 1 + expiries.len() {
            assert(m[k] == expiries[k - heroes.len() - 1]);
        } else if k >= heroes.len() + 1 + expiries.len() {
            let j = k - heroes.len() - 1 - expiries.len();
            assert(m[k] == summaries[j]);
            assert(summaries[j][0] == 'Q');
        }
    }
}

/// A timer after a sequence of advances.
pub open spec fn timer_run(t: TurnTimer, deltas: Seq<u32>) -> TurnTimer
    decreases deltas.len(),
{
    if deltas.len() == 0 {
        t
    } else {
        timer_run(t, deltas.drop_last()).advanced(deltas.last() as nat)
    }
}

/// How many of a sequence of advances complete the timer.
pub open spec fn completions_in_run(t: TurnTimer, deltas: Seq<u32>) -> nat
    decreases deltas.len(),
{
    if deltas.len() == 0 {
        0
    } else {
        completions_in_run(t, deltas.drop_last()) + if timer_run(t, deltas.drop_last()).completes(
            deltas.last() as nat,
        ) {
            1nat
        } else {
            0nat
        }
    }
}

/// Advancing a timer by any sequence of deltas summing to `D` leaves
/// `max(0, remaining - D)` turns, never fewer; it completes exactly once if
/// it was running and `D` reaches its remaining turns, and never otherwise.
pub proof fn lemma_timer_floor(t: TurnTimer, deltas: Seq<u32>)
    ensures
        timer_run(t, deltas).turns_remaining as int == if t.turns_remaining > sum_deltas(deltas) {
            t.turns_remaining - sum_deltas(deltas)
        } else {
            0
        },
        timer_run(t, deltas).initial_value == t.initial_value,
        completions_in_run(t, deltas) == if 0 < t.turns_remaining <= sum_deltas(deltas) {
            1nat
        } else {
            0nat
        },
    decreases deltas.len(),
{
    if deltas.len() > 0 {
        lemma_timer_floor(t, deltas.drop_last());
    }
}

/// When the timer of an available quest completes, the quest is removed,
/// one notification names it, and it is not resolved.
pub proof fn lemma_expiry(slots: Seq<Slot>, quest: EntityId, draws: Seq<bool>)
    requires
        has_status(slots, quest, QuestStatus::Available),
    ensures
        expired_slots(slots, seq![quest]) == slots.update(quest.0 as int, Slot::Vacant),
        expiry_messages(slots, seq![quest]) == seq![expiry_message(quest)],
        resolutions(expired_slots(slots, seq![quest]), seq![quest], draws) == (
            expired_slots(slots, seq![quest]),
            Seq::<QuestOutcome>::empty(),
        ),
{
    let one = seq![quest];
    assert(one.drop_last() =~= Seq::<EntityId>::empty());
    assert(one.last() == quest);
    assert(expired_slots(slots, one.drop_last()) == slots);
    assert(expiry_messages(slots, one.drop_last()) == Seq::<Seq<char>>::empty());
    assert(expiry_messages(slots, one) =~= seq![expiry_message(quest)]);
    let after = expired_slots(slots, one);
    assert(resolutions(after, one.drop_last(), draws) == (after, Seq::<QuestOutcome>::empty()));
    assert(!resolvable(after, quest));
}

proof fn lemma_no_links_no_heroes(slots: Seq<Slot>, quest: EntityId, n: nat)
    requires
        n <= slots.len(),
        forall|i: int| 0 <= i < slots.len() ==> !links_to(#[trigger] slots[i], quest),
    ensures
        heroes_on_upto(slots, quest, n).len() == 0,
    decreases n,
{
    if n > 0 {
        lemma_no_links_no_heroes(slots, quest, (n - 1) as nat);
    }
}

/// When an in-progress quest resolves, the quest is removed; every hero on
/// it stays in the store, unlinked and otherwise unchanged; nothing else
/// changes; and the record lists exactly the heroes that were on it, each
/// once.
pub proof fn lemma_resolution_integrity(slots: Seq<Slot>, quest: EntityId, is_successful: bool)
    requires
        has_status(slots, quest, QuestStatus::InProgress),
        slots.len() <= usize::MAX,
    ensures
        resolved(slots, quest).len() == slots.len(),
        resolved(slots, quest)[quest.0 as int] is Vacant,
        forall|i: int|
            0 <= i < slots.len() && i != quest.0 && !links_to(slots[i], quest) ==> #[trigger] resolved(
                slots,
                quest,
            )[i] == slots[i],
        forall|i: int|
            0 <= i < slots.len() && links_to(slots[i], quest) ==> #[trigger] resolved(slots, quest)[i]
                == Slot::Hero(Hero { quest: None, ..slots[i]->Hero_0 }),
        forall|i: int|
            0 <= i < slots.len() && links_to(#[trigger] slots[i], quest) ==> heroes_on(
                slots,
                quest,
            ).contains(EntityId(i as usize)),
        forall|k: int|
            0 <= k < heroes_on(slots, quest).len() ==> links_to(
                slots[(#[trigger] heroes_on(slots, quest)[k]).0 as int],
                quest,
            ),
        heroes_on(slots, quest).no_duplicates(),
        heroes_on(resolved(slots, quest), quest).len() == 0,
        outcome_of(slots, quest, is_successful).heroes == heroes_on(slots, quest),
{
    lemma_heroes_on_facts(slots, quest, slots.len());
    let after = resolved(slots, quest);
    assert forall|i: int| 0 <= i < after.len() implies !links_to(#[trigger] after[i], quest) by {}
    lemma_no_links_no_heroes(after, quest, after.len());
}

proof fn lemma_same_links_same_heroes(a: Seq<Slot>, b: Seq<Slot>, quest: EntityId, n: nat)
    requires
        n <= a.len(),
        n <= b.len(),
        forall|i: int| 0 <= i < n ==> links_to(#[trigger] a[i], quest) == links_to(b[i], quest),
    ensures
        heroes_on_upto(a, quest, n) == heroes_on_upto(b, quest, n),
    decreases n,
{
    if n > 0 {
        lemma_same_links_same_heroes(a, b, quest, (n - 1) as nat);
    }
}

/// Resolving other quests leaves an in-progress quest, its heroes and its
/// hero list as they were.
proof fn lemma_resolutions_leave_quest(
    slots: Seq<Slot>,
    completed: Seq<EntityId>,
    draws: Seq<bool>,
    quest: EntityId,
)
    requires
        has_status(slots, quest, QuestStatus::InProgress),
        !completed.contains(quest),
    ensures
        resolutions(slots, completed, draws).0.len() == slots.len(),
        resolutions(slots, completed, draws).0[quest.0 as int] == slots[quest.0 as int],
        heroes_on(resolutions(slots, completed, draws).0, quest) == heroes_on(slots, quest),
        forall|i: int|
            0 <= i < slots.len() && links_to(#[trigger] slots[i], quest) ==> resolutions(
                slots,
                completed,
                draws,
            ).0[i] == slots[i],
    decreases completed.len(),
{
    if completed.len() > 0 {
        let rest = completed.drop_last();
        let e = completed.last();
        assert(!rest.contains(quest)) by {
            if rest.contains(quest) {
                let w = choose|w: int| 0 <= w < rest.len() && rest[w] == quest;
                assert(completed[w] == quest);
            }
        }
        assert(e != quest) by {
            assert(completed[completed.len() - 1] == e);
        }
        lemma_resolutions_leave_quest(slots, rest, draws, quest);
        let prev = resolutions(slots, rest, draws).0;
        if resolvable(prev, e) {
            let after = resolved(prev, e);
            assert forall|i: int| 0 <= i < prev.len() implies links_to(#[trigger] after[i], quest)
                == links_to(prev[i], quest) by {}
            lemma_same_links_same_heroes(after, prev, quest, prev.len());
        }
    }
}

/// In one pass over completed timers with no repeats, every in-progress quest
/// with heroes among them is resolved: it is removed, each of its heroes
/// stays in the store unlinked and otherwise unchanged, and some record lists
/// exactly its heroes, with its description.
pub proof fn lemma_resolutions_integrity(
    slots: Seq<Slot>,
    completed: Seq<EntityId>,
    draws: Seq<bool>,
    quest: EntityId,
)
    requires
        completed.no_duplicates(),
        completed.contains(quest),
        resolvable(slots, quest),
    ensures
        resolutions(slots, completed, draws).0.len() == slots.len(),
        resolutions(slots, completed, draws).0[quest.0 as int] is Vacant,
        forall|i: int|
            0 <= i < slots.len() && links_to(#[trigger] slots[i], quest) ==> resolutions(
                slots,
                completed,
                draws,
            ).0[i] == Slot::Hero(Hero { quest: None, ..slots[i]->Hero_0 }),
        exists|k: int|
            0 <= k < resolutions(slots, completed, draws).1.len() && {
                let o = #[trigger] resolutions(slots, completed, draws).1[k];
                &&& o.heroes == heroes_on(slots, quest)
                &&& o.description == slots[quest.0 as int]->Quest_0.description
            },
    decreases completed.len(),
{
    let rest = completed.drop_last();
    let e = completed.last();
    let prev = resolutions(slots, rest, draws);
    assert forall|a: int, b: int| 0 <= a < b < rest.len() implies rest[a] != rest[b] by {
        assert(rest[a] == completed[a] && rest[b] == completed[b]);
    }
    if e == quest {
        assert(!rest.contains(quest)) by {
            if rest.contains(quest) {
                let w = choose|w: int| 0 <= w < rest.len() && rest[w] == quest;
                assert(completed[w] == completed[completed.len() - 1]);
            }
        }
        lemma_resolutions_leave_quest(slots, rest, draws, quest);
        assert(resolvable(prev.0, quest));
        let now = resolutions(slots, completed, draws);
        assert(now.1[prev.1.len() as int].heroes == heroes_on(slots, quest));
    } else {
        assert(rest.contains(quest)) by {
            let w = choose|w: int| 0 <= w < completed.len() && completed[w] == quest;
            assert(w < rest.len());
            assert(rest[w] == quest);
        }
        lemma_resolutions_integrity(slots, rest, draws, quest);
        let now = resolutions(slots, completed, draws);
        let k = choose|k: int|
            0 <= k < prev.1.len() && {
                let o = #[trigger] prev.1[k];
                &&& o.heroes == heroes_on(slots, quest)
                &&& o.description == slots[quest.0 as int]->Quest_0.description
            };
        if resolvable(prev.0, e) {
            assert(now.1[k] == prev.1[k]);
            assert(now.0[quest.0 as int] == prev.0[quest.0 as int]);
            assert forall|i: int| 0 <= i < slots.len() && links_to(#[trigger] slots[i], quest) implies now.0[i]
                == Slot::Hero(Hero { quest: None, ..slots[i]->Hero_0 }) by {
                assert(prev.0[i] == Slot::Hero(Hero { quest: None, ..slots[i]->Hero_0 }));
                assert(now.0[i] == prev.0[i]);
            }
        }
    }
}

/// Each listed hero gains the reward once, and no other slot changes, when
/// the list has no repeats and names only heroes.
pub proof fn lemma_exp_granted(slots: Seq<Slot>, heroes: Seq<EntityId>, reward: u32)
    requires
        slots.len() <= usize::MAX,
        heroes.no_duplicates(),
        forall|k: int| 0 <= k < heroes.len() ==> is_hero(slots, #[trigger] heroes[k]),
    ensures
        exp_granted(slots, heroes, reward).len() == slots.len(),
        forall|i: int|
            0 <= i < slots.len() && !heroes.contains(EntityId(i as usize)) ==> #[trigger] exp_granted(
                slots,
                heroes,
                reward,
            )[i] == slots[i],
        forall|k: int|
            0 <= k < heroes.len() ==> exp_granted(slots, heroes, reward)[(#[trigger] heroes[k]).0 as int]
                == rewarded(slots[heroes[k].0 as int], reward),
    decreases heroes.len(),
{
    if heroes.len() > 0 {
        let rest = heroes.drop_last();
        let h = heroes.last();
        assert forall|a: int, b: int| 0 <= a < b < rest.len() implies rest[a] != rest[b] by {
            assert(rest[a] == heroes[a] && rest[b] == heroes[b]);
        }
        assert forall|k: int| 0 <= k < rest.len() implies is_hero(slots, #[trigger] rest[k]) by {
            assert(rest[k] == heroes[k]);
        }
        lemma_exp_granted(slots, rest, reward);
        assert(is_hero(slots, heroes[heroes.len() - 1]));
        assert(!rest.contains(h)) by {
            if rest.contains(h) {
                let w = choose|w: int| 0 <= w < rest.len() && rest[w] == h;
                assert(heroes[w] == heroes[heroes.len() - 1]);
            }
        }
        assert(EntityId(h.0 as usize) == h);
        let prev = exp_granted(slots, rest, reward);
        assert(prev[h.0 as int] == slots[h.0 as int]);
        assert forall|i: int|
            0 <= i < slots.len() && !heroes.contains(EntityId(i as usize)) implies #[trigger] exp_granted(
            slots,
            heroes,
            reward,
        )[i] == slots[i] by {
            if rest.contains(EntityId(i as usize)) {
                let w = choose|w: int| 0 <= w < rest.len() && rest[w] == EntityId(i as usize);
                assert(heroes[w] == EntityId(i as usize));
            }
            if i == h.0 {
                assert(heroes[heroes.len() - 1] == EntityId(i as usize));
            }
        }
        assert forall|k: int| 0 <= k < heroes.len() implies exp_granted(slots, heroes, reward)[(
        #[trigger] heroes[k]).0 as int] == rewarded(slots[heroes[k].0 as int], reward) by {
            if k < rest.len() {
                assert(rest[k] == heroes[k]);
                assert(heroes[k] != h);
            }
        }
    }
}

/// On a resolved quest every listed hero gains the experience reward,
/// whether or not the quest succeeded, and the guild gains the gold reward
/// only on success (both saturating at the largest `u32`).
pub proof fn lemma_reward_distribution(slots: Seq<Slot>, gold: u32, o: QuestOutcome)
    requires
        slots.len() <= usize::MAX,
        o.heroes.no_duplicates(),
        forall|k: int| 0 <= k < o.heroes.len() ==> is_hero(slots, #[trigger] o.heroes[k]),
    ensures
        forall|k: int|
            0 <= k < o.heroes.len() ==> all_exp_granted(slots, seq![o])[(
            #[trigger] o.heroes[k]).0 as int]->Hero_0.level.exp == saturating_sum(
                slots[o.heroes[k].0 as int]->Hero_0.level.exp,
                o.exp_reward,
            ),
        gold_after(gold, seq![o]) == if o.is_successful {
            saturating_sum(gold, o.gold_reward)
        } else {
            gold
        },
{
    let one = seq![o];
    assert(one.drop_last() =~= Seq::<QuestOutcome>::empty());
    assert(one.last() == o);
    assert(all_exp_granted(slots, one.drop_last()) == slots);
    assert(gold_after(gold, one.drop_last()) == gold);
    lemma_exp_granted(slots, o.heroes, o.exp_reward);
    assert forall|k: int| 0 <= k < o.heroes.len() implies all_exp_granted(slots, one)[(
    #[trigger] o.heroes[k]).0 as int]->Hero_0.level.exp == saturating_sum(
        slots[o.heroes[k].0 as int]->Hero_0.level.exp,
        o.exp_reward,
    ) by {
        assert(is_hero(slots, o.heroes[k]));
    }
}

/// How many times `h` is listed.
pub open spec fn listed_count(heroes: Seq<EntityId>, h: EntityId) -> nat
    decreases heroes.len(),
{
    if heroes.len() == 0 {
        0
    } else {
        listed_count(heroes.drop_last(), h) + if heroes.last() == h {
            1nat
        } else {
            0nat
        }
    }
}

/// The experience the records grant `h`: each record's reward once per
/// listing of `h`.
pub open spec fn exp_due(outcomes: Seq<QuestOutcome>, h: EntityId) -> nat
    decreases outcomes.len(),
{
    if outcomes.len() == 0 {
        0
    } else {
        exp_due(outcomes.drop_last(), h) + (outcomes.last().exp_reward * listed_count(
            outcomes.last().heroes,
            h,
        )) as nat
    }
}

/// A hero's slot after it gains `amount` experience, with nothing else
/// changed.
pub open spec fn with_exp_added(slot: Slot, amount: int) -> Slot {
    let hero = slot->Hero_0;
    Slot::Hero(
        Hero { level: LevelState { exp: (hero.level.exp + amount) as u32, ..hero.level }, ..hero },
    )
}

proof fn lemma_exp_granted_sum(slots: Seq<Slot>, heroes: Seq<EntityId>, reward: u32, i: int)
    requires
        0 <= i < slots.len() <= usize::MAX,
        slots[i] is Hero,
        slots[i]->Hero_0.level.exp + reward * listed_count(heroes, EntityId(i as usize))
            <= u32::MAX,
    ensures
        exp_granted(slots, heroes, reward).len() == slots.len(),
        exp_granted(slots, heroes, reward)[i] == with_exp_added(
            slots[i],
            reward * listed_count(heroes, EntityId(i as usize)),
        ),
    decreases heroes.len(),
{
    let h = EntityId(i as usize);
    if heroes.len() == 0 {
        assert(reward * 0 == 0);
        assert(slots[i] == with_exp_added(slots[i], 0));
    } else {
        let rest = heroes.drop_last();
        let c = listed_count(rest, h);
        let c1 = listed_count(heroes, h);
        assert(reward * c <= reward * c1) by (nonlinear_arith)
            requires
                c <= c1,
        ;
        lemma_exp_granted_sum(slots, rest, reward, i);
        lemma_exp_granted_len(slots, rest, reward);
        let prev = exp_granted(slots, rest, reward);
        let last = heroes.last();
        if last == h {
            assert(reward * c + reward == reward * c1) by (nonlinear_arith)
                requires
                    c1 == c + 1,
            ;
            assert(is_hero(prev, h));
            assert(rewarded(prev[i], reward) == with_exp_added(slots[i], reward * c1));
        } else {
            assert(c1 == c);
            assert(last.0 != i) by {
                if last.0 == i {
                    assert(EntityId(last.0) == last);
                }
            }
        }
    }
}

proof fn lemma_exp_granted_len(slots: Seq<Slot>, heroes: Seq<EntityId>, reward: u32)
    ensures
        exp_granted(slots, heroes, reward).len() == slots.len(),
        forall|i: int|
            0 <= i < slots.len() ==> (#[trigger] exp_granted(slots, heroes, reward)[i] is Hero
                <==> slots[i] is Hero),
    decreases heroes.len(),
{
    if heroes.len() > 0 {
        lemma_exp_granted_len(slots, heroes.drop_last(), reward);
    }
}

/// Over any list of records, a hero gains each record's experience once per
/// listing, whether or not the quest succeeded; where the total fits in a
/// `u32` it is exactly the sum. Its other fields do not change.
pub proof fn lemma_exp_totals(slots: Seq<Slot>, outcomes: Seq<QuestOutcome>, i: int)
    requires
        0 <= i < slots.len() <= usize::MAX,
        slots[i] is Hero,
        slots[i]->Hero_0.level.exp + exp_due(outcomes, EntityId(i as usize)) <= u32::MAX,
    ensures
        all_exp_granted(slots, outcomes).len() == slots.len(),
        all_exp_granted(slots, outcomes)[i] == with_exp_added(
            slots[i],
            exp_due(outcomes, EntityId(i as usize)) as int,
        ),
    decreases outcomes.len(),
{
    if outcomes.len() > 0 {
        let rest = outcomes.drop_last();
        let o = outcomes.last();
        lemma_exp_totals(slots, rest, i);
        lemma_exp_granted_sum(all_exp_granted(slots, rest), o.heroes, o.exp_reward, i);
    }
}

/// The coins drawn decide only whether each resolved quest succeeded (and so
/// its gold): the store after the resolutions, and each record's heroes,
/// description, chance and experience, are the same whatever coins came up.
/// So the chances at which coins are drawn, and their order, are fixed by the
/// state and the events alone.
pub proof fn lemma_resolutions_ignore_coins(
    slots: Seq<Slot>,
    completed: Seq<EntityId>,
    draws1: Seq<bool>,
    draws2: Seq<bool>,
)
    ensures
        resolutions(slots, completed, draws1).0 == resolutions(slots, completed, draws2).0,
        resolutions(slots, completed, draws1).1.len() == resolutions(slots, completed, draws2).1.len(),
        forall|k: int|
            0 <= k < resolutions(slots, completed, draws1).1.len() ==> {
                let a = #[trigger] resolutions(slots, completed, draws1).1[k];
                let b = resolutions(slots, completed, draws2).1[k];
                &&& a.heroes == b.heroes
                &&& a.description == b.description
                &&& a.success_probability == b.success_probability
                &&& a.exp_reward == b.exp_reward
            },
    decreases completed.len(),
{
    if completed.len() > 0 {
        lemma_resolutions_ignore_coins(slots, completed.drop_last(), draws1, draws2);
        let prev1 = resolutions(slots, completed.drop_last(), draws1);
        let prev2 = resolutions(slots, completed.drop_last(), draws2);
        let r1 = resolutions(slots, completed, draws1);
        let r2 = resolutions(slots, completed, draws2);
        if resolvable(prev1.0, completed.last()) {
            assert forall|k: int| 0 <= k < r1.1.len() implies {
                let a = #[trigger] r1.1[k];
                let b = r2.1[k];
                &&& a.heroes == b.heroes
                &&& a.description == b.description
                &&& a.success_probability == b.success_probability
                &&& a.exp_reward == b.exp_reward
            } by {
                if k < prev1.1.len() {
                    assert(r1.1[k] == prev1.1[k] && r2.1[k] == prev2.1[k]);
                }
            }
        }
    }
}

/// A cycle keeps the store well formed: heroes stay at level 1 or above, and
/// a hero on a quest is on one that is in progress.
pub proof fn lemma_cycle_wf(s: WorldState, deltas: Seq<u32>, starts: Seq<StartQuest>, draws: Seq<bool>)
    requires
        store_wf(s.slots),
    ensures
        store_wf(cycle(s, deltas, starts, draws).slots),
{
    let d = sum_deltas(deltas);
    let slots = all_started(s.slots, starts);
    lemma_all_started_wf(s.slots, starts);
    lemma_timers_wf(slots, d);
    let (advanced, completed) = cycle_timers(s, deltas, starts);
    lemma_expired_wf(advanced, completed);
    lemma_resolutions_wf(expired_slots(advanced, completed), completed, draws);
    let res = cycle_resolutions(s, deltas, starts, draws);
    lemma_all_exp_granted_wf(res.0, res.1);
}

/// Resolutions are fixed by the store, the completed timers and the
/// generator: two passes from the same store and generator over the same
/// completed timers, where each resolution tosses the coin of its chance with
/// the generator in order, draw the same coins, write the same records, and
/// end with the same store and the same generator.
pub proof fn lemma_resolutions_determinism(
    slots: Seq<Slot>,
    completed: Seq<EntityId>,
    rng: ChaCha8Rng,
    draws1: Seq<bool>,
    draws2: Seq<bool>,
    rng1: ChaCha8Rng,
    rng2: ChaCha8Rng,
)
    requires
        tosses(rng, chances_of(resolutions(slots, completed, draws1).1)) == (draws1, rng1),
        tosses(rng, chances_of(resolutions(slots, completed, draws2).1)) == (draws2, rng2),
    ensures
        draws1 == draws2,
        rng1 == rng2,
        resolutions(slots, completed, draws1) == resolutions(slots, completed, draws2),
{
    lemma_resolutions_ignore_coins(slots, completed, draws1, draws2);
    let out1 = resolutions(slots, completed, draws1).1;
    let out2 = resolutions(slots, completed, draws2).1;
    assert(chances_of(out1) =~= chances_of(out2));
}

/// A cycle is fixed by the state, the generator and the events: two runs of
/// a cycle from the same state and generator with the same turn deltas and
/// start requests, where each resolution tosses the coin of its chance with
/// the generator in order, draw the same coins, write the same records, and
/// end in the same state with the same generator.
pub proof fn lemma_cycle_determinism(
    s: WorldState,
    rng: ChaCha8Rng,
    deltas: Seq<u32>,
    starts: Seq<StartQuest>,
    draws1: Seq<bool>,
    draws2: Seq<bool>,
    rng1: ChaCha8Rng,
    rng2: ChaCha8Rng,
)
    requires
        tosses(rng, chances_of(cycle_resolutions(s, deltas, starts, draws1).1)) == (draws1, rng1),
        tosses(rng, chances_of(cycle_resolutions(s, deltas, starts, draws2).1)) == (draws2, rng2),
    ensures
        draws1 == draws2,
        rng1 == rng2,
        cycle_resolutions(s, deltas, starts, draws1) == cycle_resolutions(s, deltas, starts, draws2),
        cycle(s, deltas, starts, draws1) == cycle(s, deltas, starts, draws2),
{
    let (advanced, completed) = cycle_timers(s, deltas, starts);
    lemma_resolutions_determinism(
        expired_slots(advanced, completed),
        completed,
        rng,
        draws1,
        draws2,
        rng1,
        rng2,
    );
}

} // verus!
