use guild_quests::entity::{EntityId, HeroClass, LevelState, Personality, Quest, QuestDescription};
use guild_quests::events::StartQuest;
use guild_quests::percent::Percent;
use guild_quests::world::World;

fn quest(difficulty: u32, to_complete: u32, to_expiry: u32) -> Quest {
    Quest::available(QuestDescription {
        difficulty_level: difficulty,
        turns_to_complete: to_complete,
        exp_reward: 50,
        gold_reward: 100,
        item_reward: None,
        turns_to_expiry: to_expiry,
    })
}

fn hero(world: &mut World, level: u32) -> EntityId {
    world.spawn_hero(
        LevelState { level, exp: 0, exp_to_next: 100 },
        HeroClass::Warrior,
        Personality::Friendly,
    )
}

fn messages(world: &World) -> Vec<String> {
    world.notifications().iter().map(|n| n.message.clone()).collect()
}

#[test]
fn turn_counter_adds_every_delta_once_per_cycle() {
    let mut world = World::new(1);
    world.run_cycle(&vec![3, 2], &vec![]);
    world.run_cycle(&vec![], &vec![]);
    world.run_cycle(&vec![4], &vec![]);
    assert_eq!(world.turn(), 9);
    assert_eq!(
        messages(&world),
        vec![
            "Turn advanced by 5. Current turn: 5",
            "Turn advanced by 0. Current turn: 5",
            "Turn advanced by 4. Current turn: 9",
        ]
    );
}

#[test]
fn available_quest_expires_when_its_timer_completes() {
    let mut world = World::new(1);
    let q = world.spawn_quest(quest(1, 5, 2));
    let first = world.run_cycle(&vec![1], &vec![]);
    assert!(first.completed_timers.is_empty());
    assert!(world.quest(q).is_some());
    let second = world.run_cycle(&vec![1], &vec![]);
    assert_eq!(second.completed_timers, vec![q]);
    assert!(second.quests_completed.is_empty());
    assert!(!world.is_alive(q));
    assert_eq!(
        messages(&world).last().unwrap(),
        &format!("An available quest expired: entity {}", q.0)
    );
    assert_eq!(world.gold(), 0);
}

#[test]
fn certain_quest_resolves_with_rewards_and_unlinks_heroes() {
    let mut world = World::new(1);
    let q = world.spawn_quest(quest(1, 3, 10));
    let a = hero(&mut world, 10);
    let b = hero(&mut world, 4);
    let first = world.run_cycle(&vec![1], &vec![StartQuest { quest: q, heroes: vec![b, a] }]);
    assert!(first.quests_completed.is_empty());
    assert_eq!(world.hero(a).unwrap().quest, Some(q));
    let report = world.run_cycle(&vec![2], &vec![]);
    assert_eq!(report.completed_timers, vec![q]);
    let done = &report.quests_completed[0];
    // (70 + 180 + 70 + 60) / 2 = 190, clamped to certainty.
    assert_eq!(done.success_probability, Percent(190));
    assert!(done.is_successful);
    assert_eq!(done.heroes, vec![a, b]);
    assert!(!world.is_alive(q));
    assert_eq!(world.hero(a).unwrap().quest, None);
    assert_eq!(world.hero(b).unwrap().quest, None);
    assert_eq!(world.hero(a).unwrap().level.exp, 50);
    assert_eq!(world.hero(b).unwrap().level.exp, 50);
    assert_eq!(world.gold(), 100);
    let log = messages(&world);
    assert_eq!(log[0], "New hero created: Level: 10, Class: Warrior, Personality: Friendly");
    assert_eq!(log[1], "New hero created: Level: 4, Class: Warrior, Personality: Friendly");
    assert_eq!(
        log.last().unwrap(),
        &format!(
            "Quest completed: successful. Heroes: [{}, {}], Exp Reward: 50, Gold Reward: 100, Success Probability: Percent(190)",
            a.0, b.0
        )
    );
}

#[test]
fn hopeless_quest_fails_with_exp_and_no_gold() {
    let mut world = World::new(1);
    let q = world.spawn_quest(quest(9, 1, 10));
    let a = hero(&mut world, 1);
    let report = world.run_cycle(&vec![1], &vec![StartQuest { quest: q, heroes: vec![a] }]);
    let done = &report.quests_completed[0];
    assert_eq!(done.success_probability, Percent(-90));
    assert!(!done.is_successful);
    assert_eq!(done.gold_reward, 0);
    assert_eq!(world.hero(a).unwrap().level.exp, 50);
    assert_eq!(world.gold(), 0);
}

fn play(seed: u64) -> (Vec<bool>, u32, Vec<u32>) {
    let mut world = World::new(seed);
    let mut heroes = Vec::new();
    for _ in 0..6 {
        heroes.push(hero(&mut world, 2));
    }
    let mut outcomes = Vec::new();
    for round in 0..8 {
        let q = world.spawn_quest(quest(2, 1, 10));
        let party = vec![heroes[round % 6], heroes[(round + 1) % 6]];
        let report = world.run_cycle(&vec![1], &vec![StartQuest { quest: q, heroes: party }]);
        for done in &report.quests_completed {
            assert_eq!(done.success_probability, Percent(70));
            outcomes.push(done.is_successful);
        }
    }
    let exp = heroes.iter().map(|h| world.hero(*h).unwrap().level.exp).collect();
    (outcomes, world.gold(), exp)
}

#[test]
fn same_seed_and_events_give_the_same_outcomes() {
    let first = play(42);
    let second = play(42);
    assert_eq!(first.0.len(), 8);
    assert_eq!(first, second);
    let wins = first.0.iter().filter(|w| **w).count() as u32;
    assert_eq!(first.1, 100 * wins);
}
