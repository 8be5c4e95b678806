//! Success percentages and their computation from hero levels.
use crate::entity::LevelState;
use crate::random::coin_of;
use rand::distr::Bernoulli;
use vstd::prelude::*;

verus! {

/// A signed percentage. It may leave [0, 100] while values are composed; it
/// is clamped only when turned into a probability.
#[derive(Clone, Copy, PartialEq, Eq, Structural, Debug)]
pub struct Percent(pub i64);

impl Percent {
    pub fn add(self, rhs: Percent) -> (r: Percent)
        requires
            i64::MIN <= self.0 + rhs.0 <= i64::MAX,
        ensures
            r.0 == self.0 + rhs.0,
    {
        Percent(self.0 + rhs.0)
    }

    pub fn sub(self, rhs: Percent) -> (r: Percent)
        requires
            i64::MIN <= self.0 - rhs.0 <= i64::MAX,
        ensures
            r.0 == self.0 - rhs.0,
    {
        Percent(self.0 - rhs.0)
    }

    /// The value clamped to [0, 100].
    pub open spec fn spec_clamped(self) -> u32 {
        if self.0 < 0 {
            0
        } else if self.0 > 100 {
            100
        } else {
            self.0 as u32
        }
    }

    pub fn clamped(&self) -> (r: u32)
        ensures
            r == self.spec_clamped(),
            r <= 100,
    {
        if self.0 < 0 {
            0
        } else if self.0 > 100 {
            100
        } else {
            self.0 as u32
        }
    }

    /// The coin that comes up true with this (clamped) percentage.
    pub fn distribution(&self) -> (r: Bernoulli)
        ensures
            r == coin_of(self.spec_clamped(), 100),
    {
        let numerator = self.clamped();
        Bernoulli::from_ratio(numerator, 100).unwrap()
    }
}

/// Why an outcome cannot be resolved.
#[derive(Clone, Copy, PartialEq, Eq, Structural, Debug)]
pub enum PreconditionError {
    /// No hero took part, so there is nothing to average.
    NoHeroes,
}

/// How effective one hero is against a difficulty: 70 at an equal level, 20
/// more for each level above it, 20 less for each level below.
pub open spec fn effectiveness(level: u32, difficulty: u32) -> int {
    70 + 20 * (level - difficulty)
}

/// The summed effectiveness of the heroes.
pub open spec fn total_effectiveness(heroes: Seq<LevelState>, difficulty: u32) -> int
    decreases heroes.len(),
{
    if heroes.len() == 0 {
        0
    } else {
        total_effectiveness(heroes.drop_last(), difficulty) + effectiveness(
            heroes.last().level,
            difficulty,
        )
    }
}

/// Integer division that truncates toward zero.
pub open spec fn truncated_div(a: int, n: int) -> int {
    if a >= 0 {
        a / n
    } else {
        -((-a) / n)
    }
}

/// The chance of success: the average effectiveness, truncated toward zero.
pub open spec fn success_percent(difficulty: u32, heroes: Seq<LevelState>) -> int {
    truncated_div(total_effectiveness(heroes, difficulty), heroes.len() as int)
}

/// Largest magnitude of one hero's effectiveness.
pub const EFFECTIVENESS_BOUND: i128 = 100_000_000_000;

proof fn lemma_total_bounded(heroes: Seq<LevelState>, difficulty: u32)
    ensures
        -(heroes.len() * EFFECTIVENESS_BOUND) <= total_effectiveness(heroes, difficulty)
            <= heroes.len() * EFFECTIVENESS_BOUND,
    decreases heroes.len(),
{
    if heroes.len() > 0 {
        lemma_total_bounded(heroes.drop_last(), difficulty);
        assert((heroes.len() - 1) * EFFECTIVENESS_BOUND + EFFECTIVENESS_BOUND == heroes.len()
            * EFFECTIVENESS_BOUND) by (nonlinear_arith);
    }
}

/// The chance that the heroes succeed against a quest of the given
/// difficulty; an empty party has none defined.
pub fn probability_of_quest_success(difficulty_level: u32, heroes: &[LevelState]) -> (r: Result<
    Percent,
    PreconditionError,
>)
    ensures
        heroes@.len() == 0 <==> r == Err::<Percent, PreconditionError>(PreconditionError::NoHeroes),
        heroes@.len() > 0 ==> r == Ok::<Percent, PreconditionError>(
            Percent(success_percent(difficulty_level, heroes@) as i64),
        ),
        heroes@.len() > 0 ==> i64::MIN <= success_percent(difficulty_level, heroes@) <= i64::MAX,
{
    let n = heroes.len();
    if n == 0 {
        return Err(PreconditionError::NoHeroes);
    }
    let mut total: i128 = 0;
    let mut i: usize = 0;
    while i < n
        invariant
            n == heroes@.len(),
            i <= n,
            total == total_effectiveness(heroes@.subrange(0, i as int), difficulty_level),
        decreases n - i,
    {
        proof {
            lemma_total_bounded(heroes@.subrange(0, i as int), difficulty_level);
            assert(i * EFFECTIVENESS_BOUND <= 0x1_0000_0000_0000_0000 * EFFECTIVENESS_BOUND)
                by (nonlinear_arith)
                requires
                    i <= 0x1_0000_0000_0000_0000,
            ;
            assert(heroes@.subrange(0, i + 1).drop_last() =~= heroes@.subrange(0, i as int));
        }
        let level = heroes[i].level as i128;
        total = total + (70 + 20 * (level - difficulty_level as i128));
        i = i + 1;
    }
    proof {
        assert(heroes@.subrange(0, n as int) =~= heroes@);
        lemma_total_bounded(heroes@, difficulty_level);
        let t = total as int;
        let m = n as int;
        if t >= 0 {
            assert(t / m <= EFFECTIVENESS_BOUND) by (nonlinear_arith)
                requires
                    0 <= t <= m * EFFECTIVENESS_BOUND,
                    m > 0,
            ;
        } else {
            assert((-t) / m <= EFFECTIVENESS_BOUND) by (nonlinear_arith)
                requires
                    0 <= -t <= m * EFFECTIVENESS_BOUND,
                    m > 0,
            ;
        }
    }
    let average: i128 = if total >= 0 {
        total / (n as i128)
    } else {
        -((-total) / (n as i128))
    };
    Ok(Percent(average as i64))
}

} // verus!
