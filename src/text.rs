//! Rendering of integers, identities and notification messages as text.
use crate::entity::{EntityId, HeroClass, Personality};
use crate::events::{QuestComplete, QuestOutcome};
use crate::percent::Percent;
use vstd::prelude::*;

verus! {

/// The text of a single decimal digit.
pub open spec fn digit_text(d: nat) -> Seq<char> {
    if d == 0 {
        "0"@
    } else if d == 1 {
        "1"@
    } else if d == 2 {
        "2"@
    } else if d == 3 {
        "3"@
    } else if d == 4 {
        "4"@
    } else if d == 5 {
        "5"@
    } else if d == 6 {
        "6"@
    } else if d == 7 {
        "7"@
    } else if d == 8 {
        "8"@
    } else {
        "9"@
    }
}

/// The decimal rendering of a natural number, without leading zeros.
pub open spec fn decimal(n: nat) -> Seq<char>
    decreases n,
{
    if n < 10 {
        digit_text(n)
    } else {
        decimal(n / 10) + digit_text(n % 10)
    }
}

/// The decimal rendering of a signed integer, with a leading `-` when negative.
pub open spec fn signed_decimal(i: int) -> Seq<char> {
    if i < 0 {
        "-"@ + decimal((-i) as nat)
    } else {
        decimal(i as nat)
    }
}

fn digit_str(d: u64) -> (r: &'static str)
    requires
        d < 10,
    ensures
        r@ == digit_text(d as nat),
{
    match d {
        0 => "0",
        1 => "1",
        2 => "2",
        3 => "3",
        4 => "4",
        5 => "5",
        6 => "6",
        7 => "7",
        8 => "8",
        _ => "9",
    }
}

/// Appends the decimal rendering of `n` to `s`.
pub fn push_decimal(s: &mut String, n: u64)
    ensures
        final(s)@ == old(s)@ + decimal(n as nat),
    decreases n,
{
    if n >= 10 {
        push_decimal(s, n / 10);
        s.append(digit_str(n % 10));
        assert(s@ =~= old(s)@ + decimal(n as nat));
    } else {
        s.append(digit_str(n));
    }
}

/// Appends the decimal rendering of the signed value `v` to `s`.
pub fn push_signed_decimal(s: &mut String, v: i64)
    ensures
        final(s)@ == old(s)@ + signed_decimal(v as int),
{
    if v < 0 {
        let magnitude: u64 = (0i128 - v as i128) as u64;
        s.append("-");
        push_decimal(s, magnitude);
        assert(s@ =~= old(s)@ + signed_decimal(v as int));
    } else {
        push_decimal(s, v as u64);
    }
}

/// An entity's identity as text: its handle in decimal.
pub open spec fn entity_text(id: EntityId) -> Seq<char> {
    decimal(id.0 as nat)
}

/// The identities of a list, separated by `, `.
pub open spec fn joined_entities(ids: Seq<EntityId>) -> Seq<char>
    decreases ids.len(),
{
    if ids.len() == 0 {
        Seq::empty()
    } else if ids.len() == 1 {
        entity_text(ids[0])
    } else {
        joined_entities(ids.drop_last()) + ", "@ + entity_text(ids.last())
    }
}

/// A list of identities in brackets, as in `[3, 4]`.
pub open spec fn entity_list_text(ids: Seq<EntityId>) -> Seq<char> {
    "["@ + joined_entities(ids) + "]"@
}

pub open spec fn percent_text(p: Percent) -> Seq<char> {
    "Percent("@ + signed_decimal(p.0 as int) + ")"@
}

pub open spec fn class_text(c: HeroClass) -> Seq<char> {
    match c {
        HeroClass::Warrior => "Warrior"@,
        HeroClass::Tank => "Tank"@,
        HeroClass::Support => "Support"@,
    }
}

pub open spec fn personality_text(p: Personality) -> Seq<char> {
    match p {
        Personality::Friendly => "Friendly"@,
        Personality::ResultOriented => "ResultOriented"@,
        Personality::Mirror => "Mirror"@,
        Personality::Judgmental => "Judgmental"@,
        Personality::Learner => "Learner"@,
        Personality::Teacher => "Teacher"@,
    }
}

/// The notification of a turn advance.
pub open spec fn turn_message(delta: nat, turn: nat) -> Seq<char> {
    "Turn advanced by "@ + decimal(delta) + ". Current turn: "@ + decimal(turn)
}

/// The notification of an available quest that expired.
pub open spec fn expiry_message(id: EntityId) -> Seq<char> {
    "An available quest expired: entity "@ + entity_text(id)
}

/// The announcement of a new hero.
pub open spec fn new_hero_message(level: u32, class: HeroClass, personality: Personality) -> Seq<
    char,
> {
    "New hero created: Level: "@ + decimal(level as nat) + ", Class: "@ + class_text(class)
        + ", Personality: "@ + personality_text(personality)
}

/// The summary of a resolved quest.
pub open spec fn quest_complete_message(o: QuestOutcome) -> Seq<char> {
    "Quest completed: "@ + (if o.is_successful {
        "successful"@
    } else {
        "failed"@
    }) + ". Heroes: "@ + entity_list_text(o.heroes) + ", Exp Reward: "@ + decimal(
        o.exp_reward as nat,
    ) + ", Gold Reward: "@ + decimal(o.gold_reward as nat) + ", Success Probability: "@
        + percent_text(o.success_probability)
}

fn class_str(c: HeroClass) -> (r: &'static str)
    ensures
        r@ == class_text(c),
{
    match c {
        HeroClass::Warrior => "Warrior",
        HeroClass::Tank => "Tank",
        HeroClass::Support => "Support",
    }
}

fn personality_str(p: Personality) -> (r: &'static str)
    ensures
        r@ == personality_text(p),
{
    match p {
        Personality::Friendly => "Friendly",
        Personality::ResultOriented => "ResultOriented",
        Personality::Mirror => "Mirror",
        Personality::Judgmental => "Judgmental",
        Personality::Learner => "Learner",
        Personality::Teacher => "Teacher",
    }
}

/// Appends the bracketed list of identities to `s`.
pub fn push_entity_list(s: &mut String, ids: &Vec<EntityId>)
    ensures
        final(s)@ == old(s)@ + entity_list_text(ids@),
{
    s.append("[");
    let ghost start = s@;
    let mut i: usize = 0;
    while i < ids.len()
        invariant
            i <= ids@.len(),
            s@ == start + joined_entities(ids@.subrange(0, i as int)),
        decreases ids@.len() - i,
    {
        assert(ids@.subrange(0, i + 1).drop_last() =~= ids@.subrange(0, i as int));
        if i > 0 {
            s.append(", ");
        }
        push_decimal(s, ids[i].0 as u64);
        i = i + 1;
    }
    assert(ids@.subrange(0, i as int) =~= ids@);
    s.append("]");
    assert(s@ =~= old(s)@ + entity_list_text(ids@));
}

/// The notification of a turn advance by `delta` that reached `turn`.
pub fn turn_notification(delta: u32, turn: u32) -> (r: String)
    ensures
        r@ == turn_message(delta as nat, turn as nat),
{
    let mut s = String::new();
    s.append("Turn advanced by ");
    push_decimal(&mut s, delta as u64);
    s.append(". Current turn: ");
    push_decimal(&mut s, turn as u64);
    assert(s@ =~= turn_message(delta as nat, turn as nat));
    s
}

/// The notification of the expiry of the available quest `id`.
pub fn expiry_notification(id: EntityId) -> (r: String)
    ensures
        r@ == expiry_message(id),
{
    let mut s = String::new();
    s.append("An available quest expired: entity ");
    push_decimal(&mut s, id.0 as u64);
    assert(s@ =~= expiry_message(id));
    s
}

/// The announcement of a new hero.
pub fn new_hero_notification(level: u32, class: HeroClass, personality: Personality) -> (r: String)
    ensures
        r@ == new_hero_message(level, class, personality),
{
    let mut s = String::new();
    s.append("New hero created: Level: ");
    push_decimal(&mut s, level as u64);
    s.append(", Class: ");
    s.append(class_str(class));
    s.append(", Personality: ");
    s.append(personality_str(personality));
    assert(s@ =~= new_hero_message(level, class, personality));
    s
}

/// The summary notification of a resolved quest.
pub fn quest_complete_notification(event: &QuestComplete) -> (r: String)
    ensures
        r@ == quest_complete_message(event@),
{
    let mut s = String::new();
    s.append("Quest completed: ");
    if event.is_successful {
        s.append("successful");
    } else {
        s.append("failed");
    }
    s.append(". Heroes: ");
    push_entity_list(&mut s, &event.heroes);
    s.append(", Exp Reward: ");
    push_decimal(&mut s, event.exp_reward as u64);
    s.append(", Gold Reward: ");
    push_decimal(&mut s, event.gold_reward as u64);
    s.append(", Success Probability: ");
    s.append("Percent(");
    push_signed_decimal(&mut s, event.success_probability.0);
    s.append(")");
    assert(s@ =~= quest_complete_message(event@));
    s
}

} // verus!
