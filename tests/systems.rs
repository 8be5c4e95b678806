use guild_quests::entity::{
    EntityId, HeroClass, LevelState, Personality, Quest, QuestDescription, QuestStatus, TurnTimer,
};
use guild_quests::events::{QuestComplete, StartQuest};
use guild_quests::percent::{probability_of_quest_success, Percent, PreconditionError};
use guild_quests::rewards::complete_quest_send_notification;
use guild_quests::world::World;

fn description() -> QuestDescription {
    QuestDescription {
        difficulty_level: 1,
        turns_to_complete: 5,
        exp_reward: 50,
        gold_reward: 100,
        item_reward: None,
        turns_to_expiry: 10,
    }
}

fn level(level: u32, exp: u32) -> LevelState {
    LevelState { level, exp, exp_to_next: 100 }
}

fn record(heroes: Vec<EntityId>, chance: i64, is_successful: bool, gold: u32) -> QuestComplete {
    QuestComplete {
        quest_description: description(),
        heroes,
        success_probability: Percent(chance),
        is_successful,
        exp_reward: 50,
        gold_reward: gold,
    }
}

fn quest_with_timer(status: QuestStatus, remaining: u32) -> Quest {
    Quest {
        description: description(),
        status,
        timer: TurnTimer { initial_value: 5, turns_remaining: remaining },
    }
}

#[test]
fn turn_delta_did_advance_turn() {
    let mut world = World::new(42);
    world.advance_turn(&vec![3, 2]);
    assert_eq!(world.turn(), 5);
}

#[test]
fn turn_delta_did_send_notification() {
    let mut world = World::new(42);
    let notification = world.advance_turn(&vec![1]);
    assert_eq!(notification, "Turn advanced by 1. Current turn: 1");
}

#[test]
fn turn_delta_did_advance_turn_timer() {
    let mut world = World::new(42);
    let entity = world.spawn_quest(quest_with_timer(QuestStatus::Available, 5));
    world.advance_turn_timer(&vec![1, 2]);
    let timer = world.quest(entity).unwrap().timer;
    assert_eq!(timer.turns_remaining, 2);
}

#[test]
fn advance_turn_timer_did_emit_completion_event() {
    let mut world = World::new(42);
    let entity = world.spawn_quest(quest_with_timer(QuestStatus::Available, 5));
    let completed = world.advance_turn_timer(&vec![5]);
    assert_eq!(completed[0], entity);
}

#[test]
fn advance_turn_timer_doesnt_go_past_zero() {
    let mut world = World::new(42);
    let entity = world.spawn_quest(quest_with_timer(QuestStatus::Available, 5));
    world.advance_turn_timer(&vec![5]);
    let timer = world.quest(entity).unwrap().timer;
    assert_eq!(timer.turns_remaining, 0);
}

#[test]
fn expire_quest_despawns_available_quest() {
    let mut world = World::new(42);
    let entity = world.spawn_quest(quest_with_timer(QuestStatus::Available, 0));
    let notifications = world.expire_quest(&vec![entity]);
    assert!(!world.quest(entity).is_some());
    assert_eq!(
        notifications[0],
        format!("An available quest expired: entity {}", entity.0)
    );
}

#[test]
fn complete_quest_despawns_quest_and_unlinks_heroes() {
    let mut world = World::new(42);
    let quest_entity = world.spawn_quest(quest_with_timer(QuestStatus::InProgress, 0));
    let hero_entity = world.spawn_hero(level(1, 0), HeroClass::Warrior, Personality::Friendly);
    world.start_quest(&vec![StartQuest { quest: quest_entity, heroes: vec![hero_entity] }]);
    assert_eq!(world.hero(hero_entity).unwrap().quest, Some(quest_entity));

    let events = world.complete_quest(&vec![quest_entity]);

    assert!(!world.quest(quest_entity).is_some());
    assert!(world.hero(hero_entity).is_some());
    assert!(!world.hero(hero_entity).unwrap().quest.is_some());
    let event = &events[0];
    assert_eq!(event.heroes, vec![hero_entity]);
    assert_eq!(event.quest_description.difficulty_level, 1);
}

#[test]
fn probability_of_quest_success_finds_expected_values() {
    let heros_lvl_3 = [level(3, 0), level(3, 0), level(3, 0)];
    assert_eq!(probability_of_quest_success(5, &heros_lvl_3), Ok(Percent(30)));
    assert_eq!(probability_of_quest_success(4, &heros_lvl_3), Ok(Percent(50)));
    assert_eq!(probability_of_quest_success(3, &heros_lvl_3), Ok(Percent(70)));
    assert_eq!(probability_of_quest_success(2, &heros_lvl_3), Ok(Percent(90)));
    assert_eq!(probability_of_quest_success(1, &heros_lvl_3), Ok(Percent(110)));

    let heros_avg_3 = [level(3, 0), level(2, 0), level(4, 0)];
    assert_eq!(probability_of_quest_success(5, &heros_avg_3), Ok(Percent(30)));
    assert_eq!(probability_of_quest_success(4, &heros_avg_3), Ok(Percent(50)));
    assert_eq!(probability_of_quest_success(3, &heros_avg_3), Ok(Percent(70)));
    assert_eq!(probability_of_quest_success(2, &heros_avg_3), Ok(Percent(90)));
    assert_eq!(probability_of_quest_success(1, &heros_avg_3), Ok(Percent(110)));

    let heros_avg_fractional = [level(3, 0), level(2, 0), level(5, 0)];
    assert_eq!(probability_of_quest_success(4, &heros_avg_fractional), Ok(Percent(56)));
    assert_eq!(probability_of_quest_success(3, &heros_avg_fractional), Ok(Percent(76)));
    assert_eq!(probability_of_quest_success(2, &heros_avg_fractional), Ok(Percent(96)));
}

#[test]
fn complete_quest_assign_exp_increments_hero_exp() {
    let mut world = World::new(42);
    let hero_entity = world.spawn_hero(level(1, 50), HeroClass::Warrior, Personality::Friendly);
    world.complete_quest_assign_exp(&vec![record(vec![hero_entity], 100, true, 100)]);
    assert_eq!(world.hero(hero_entity).unwrap().level.exp, 100);
}

#[test]
fn complete_quest_updates_guild_gold_only_on_success() {
    let mut world = World::new(42);
    world.complete_quest_updates_guild(&vec![record(vec![], 100, true, 100)]);
    assert_eq!(world.gold(), 100);

    world.complete_quest_updates_guild(&vec![record(vec![], 0, false, 50)]);
    assert_eq!(world.gold(), 100); // Still 100, since the quest failed
}

#[test]
fn complete_quest_sends_notification() {
    let mut world = World::new(42);
    let hero_entity = world.spawn_hero(level(1, 0), HeroClass::Warrior, Personality::Friendly);
    let notifications = complete_quest_send_notification(&vec![record(vec![hero_entity], 100, true, 100)]);
    assert_eq!(
        notifications[0],
        format!(
            "Quest completed: successful. Heroes: [{}], Exp Reward: 50, Gold Reward: 100, Success Probability: Percent(100)",
            hero_entity.0
        )
    );
}

#[test]
fn probability_of_empty_party_is_an_error() {
    assert_eq!(probability_of_quest_success(3, &[]), Err(PreconditionError::NoHeroes));
}

#[test]
fn probability_can_be_negative_and_truncates_toward_zero() {
    // 70 - 80 = -10 and 70 - 20 = 50: total 40, average 20.
    assert_eq!(probability_of_quest_success(5, &[level(1, 0), level(4, 0)]), Ok(Percent(20)));
    // 70 - 80 = -10 and 70 - 60 = 10 and 70 - 80 = -10: total -10, average -3.
    assert_eq!(
        probability_of_quest_success(5, &[level(1, 0), level(2, 0), level(1, 0)]),
        Ok(Percent(-3))
    );
    assert_eq!(probability_of_quest_success(9, &[level(1, 0)]), Ok(Percent(-90)));
}

#[test]
fn percent_composes_and_clamps() {
    assert_eq!(Percent(70).add(Percent(40)), Percent(110));
    assert_eq!(Percent(30).sub(Percent(50)), Percent(-20));
    assert_eq!(Percent(110).clamped(), 100);
    assert_eq!(Percent(-20).clamped(), 0);
    assert_eq!(Percent(56).clamped(), 56);
}

#[test]
fn timer_at_zero_does_not_complete_again() {
    let mut timer = TurnTimer { initial_value: 5, turns_remaining: 5 };
    assert!(!timer.advance(1));
    assert!(!timer.advance(2));
    assert_eq!(timer.turns_remaining, 2);
    assert!(timer.advance(5));
    assert_eq!(timer.turns_remaining, 0);
    assert!(!timer.advance(1));
    assert!(!timer.advance(2));
    assert!(!timer.advance(5));
    assert_eq!(timer.turns_remaining, 0);
}

#[test]
fn timers_already_at_zero_emit_nothing() {
    let mut world = World::new(42);
    world.spawn_quest(quest_with_timer(QuestStatus::Available, 0));
    assert!(world.advance_turn_timer(&vec![1, 2, 5]).is_empty());
}

#[test]
fn zero_delta_still_reports_the_turn() {
    let mut world = World::new(42);
    assert_eq!(world.advance_turn(&vec![]), "Turn advanced by 0. Current turn: 0");
    assert_eq!(world.advance_turn(&vec![0, 7]), "Turn advanced by 7. Current turn: 7");
    assert_eq!(world.advance_turn(&vec![10]), "Turn advanced by 10. Current turn: 17");
}

#[test]
fn expire_ignores_quests_in_progress_and_heroes() {
    let mut world = World::new(42);
    let quest = world.spawn_quest(quest_with_timer(QuestStatus::InProgress, 0));
    let hero = world.spawn_hero(level(1, 0), HeroClass::Tank, Personality::Mirror);
    assert!(world.expire_quest(&vec![quest, hero, EntityId(99)]).is_empty());
    assert!(world.quest(quest).is_some());
    assert!(world.hero(hero).is_some());
}

#[test]
fn start_quest_rearms_timer_and_links_heroes() {
    let mut world = World::new(42);
    let quest = world.spawn_quest(Quest::available(description()));
    assert_eq!(world.quest(quest).unwrap().timer, TurnTimer { initial_value: 10, turns_remaining: 10 });
    let a = world.spawn_hero(level(2, 0), HeroClass::Warrior, Personality::Learner);
    let b = world.spawn_hero(level(3, 0), HeroClass::Support, Personality::Teacher);
    world.start_quest(&vec![
        StartQuest { quest: EntityId(77), heroes: vec![a] },
        StartQuest { quest, heroes: vec![b, a, EntityId(50)] },
    ]);
    let started = world.quest(quest).unwrap();
    assert_eq!(started.status, QuestStatus::InProgress);
    assert_eq!(started.timer, TurnTimer { initial_value: 5, turns_remaining: 5 });
    assert_eq!(world.hero(a).unwrap().quest, Some(quest));
    assert_eq!(world.hero(b).unwrap().quest, Some(quest));
    assert_eq!(world.party_of(quest), vec![a, b]);
}

#[test]
fn quest_in_progress_without_heroes_is_not_resolved() {
    let mut world = World::new(42);
    let quest = world.spawn_quest(quest_with_timer(QuestStatus::InProgress, 0));
    assert!(world.complete_quest(&vec![quest]).is_empty());
    assert!(world.quest(quest).is_some());
}

#[test]
fn resolve_quest_records_outcome_and_gold_only_on_success() {
    let mut world = World::new(42);
    let quest = world.spawn_quest(Quest::available(description()));
    let hero = world.spawn_hero(level(1, 0), HeroClass::Warrior, Personality::Friendly);
    world.start_quest(&vec![StartQuest { quest, heroes: vec![hero] }]);
    let failed = world.resolve_quest(quest, Percent(40), false);
    assert_eq!(failed.heroes, vec![hero]);
    assert_eq!(failed.success_probability, Percent(40));
    assert!(!failed.is_successful);
    assert_eq!(failed.exp_reward, 50);
    assert_eq!(failed.gold_reward, 0);
    assert!(!world.is_alive(quest));
    assert!(world.is_alive(hero));
    assert_eq!(world.hero(hero).unwrap().quest, None);

    let second = world.spawn_quest(Quest::available(description()));
    world.start_quest(&vec![StartQuest { quest: second, heroes: vec![hero] }]);
    let won = world.resolve_quest(second, Percent(90), true);
    assert_eq!(won.gold_reward, 100);
}

#[test]
fn rewards_on_failure_grant_exp_but_no_gold() {
    let mut world = World::new(42);
    let a = world.spawn_hero(level(1, 0), HeroClass::Warrior, Personality::Friendly);
    let b = world.spawn_hero(level(1, 10), HeroClass::Tank, Personality::Judgmental);
    let events = vec![record(vec![a, b, EntityId(40)], 20, false, 0)];
    world.complete_quest_assign_exp(&events);
    world.complete_quest_updates_guild(&events);
    assert_eq!(world.hero(a).unwrap().level.exp, 50);
    assert_eq!(world.hero(b).unwrap().level.exp, 60);
    assert_eq!(world.gold(), 0);
}

#[test]
fn rewards_saturate_at_the_largest_value() {
    let mut world = World::new(42);
    let a = world.spawn_hero(level(1, u32::MAX - 10), HeroClass::Warrior, Personality::Friendly);
    world.complete_quest_assign_exp(&vec![record(vec![a], 100, true, 100)]);
    assert_eq!(world.hero(a).unwrap().level.exp, u32::MAX);
}

#[test]
fn failed_quest_summary_shows_negative_chance() {
    let notes = complete_quest_send_notification(&vec![record(
        vec![EntityId(3), EntityId(12)],
        -30,
        false,
        0,
    )]);
    assert_eq!(
        notes[0],
        "Quest completed: failed. Heroes: [3, 12], Exp Reward: 50, Gold Reward: 0, Success Probability: Percent(-30)"
    );
    let empty = complete_quest_send_notification(&vec![record(vec![], 0, false, 0)]);
    assert_eq!(
        empty[0],
        "Quest completed: failed. Heroes: [], Exp Reward: 50, Gold Reward: 0, Success Probability: Percent(0)"
    );
}

#[test]
fn new_heroes_are_announced_once() {
    let mut world = World::new(42);
    world.spawn_hero(level(2, 0), HeroClass::Support, Personality::ResultOriented);
    let first = world.log_new_hero();
    assert_eq!(
        first,
        vec!["New hero created: Level: 2, Class: Support, Personality: ResultOriented".to_string()]
    );
    assert!(world.log_new_hero().is_empty());
}

#[test]
fn notifications_are_logged_unread_in_order() {
    let mut world = World::new(42);
    world.handle_notification_events(&vec!["a".to_string(), "b".to_string()]);
    let log = world.notifications();
    assert_eq!(log.len(), 2);
    assert_eq!(log[0].message, "a");
    assert_eq!(log[1].message, "b");
    assert!(log[0].is_unread && log[1].is_unread);
}

#[test]
fn distribution_uses_the_clamped_percentage() {
    assert_eq!(Percent(150).distribution().p(), 1.0);
    assert_eq!(Percent(100).distribution().p(), 1.0);
    assert_eq!(Percent(-5).distribution().p(), 0.0);
    assert!((Percent(56).distribution().p() - 0.56).abs() < 1e-9);
}
