//! The entity model: rarities, items, monsters, the player and the world.

pub mod inventory;
pub mod item;
pub mod monster;
pub mod player;
pub mod world;

pub use self::inventory::{Inventory, RawInventory};
pub use self::world::{Cave, CaveDifficulty, Stats, World};

use crate::dice::draw_between;
use crate::math::{integer_sqrt, isqrt, lemma_isqrt_bounds, lemma_isqrt_monotonic};
use rand::rngs::StdRng;
use std::ops::Range;
use vstd::prelude::*;

verus! {

/// Hit points of a player at level zero.
pub const BASE_HP: u64 = 20;

/// Hit points gained with each level.
pub const HP_PER_LEVEL: u64 = 5;

/// The error of removing an item that is not held.
#[derive(Debug)]
pub struct ItemError {}

impl ItemError {
    /// The text that names the error.
    pub fn to_string(&self) -> (text: String)
        ensures
            text@ == "ItemError"@,
    {
        String::from_str("ItemError")
    }
}

/// How rare an item or a monster is, from `Petty` up to `Legendary`.
#[derive(Clone, Copy, PartialEq, Eq, Structural, PartialOrd, Ord, Hash, Debug)]
pub enum Rarity {
    Petty,
    Common,
    Uncommon,
    Rare,
    Legendary,
}

impl Rarity {
    /// The position of the rarity in the order, `Petty` being 0.
    pub open spec fn spec_rank(self) -> nat {
        match self {
            Rarity::Petty => 0,
            Rarity::Common => 1,
            Rarity::Uncommon => 2,
            Rarity::Rare => 3,
            Rarity::Legendary => 4,
        }
    }

    /// The rarity at a position; positions past the last give `Legendary`.
    pub open spec fn spec_from_rank(rank: nat) -> Rarity {
        if rank == 0 {
            Rarity::Petty
        } else if rank == 1 {
            Rarity::Common
        } else if rank == 2 {
            Rarity::Uncommon
        } else if rank == 3 {
            Rarity::Rare
        } else {
            Rarity::Legendary
        }
    }

    /// The lowest level of the rarity.
    pub open spec fn first_level(self) -> nat {
        match self {
            Rarity::Petty => 1,
            Rarity::Common => 10,
            Rarity::Uncommon => 30,
            Rarity::Rare => 100,
            Rarity::Legendary => 500,
        }
    }

    /// The first level above the rarity.
    pub open spec fn end_level(self) -> nat {
        match self {
            Rarity::Petty => 10,
            Rarity::Common => 30,
            Rarity::Uncommon => 100,
            Rarity::Rare => 500,
            Rarity::Legendary => 1000,
        }
    }

    /// Whether `level` lies in the rarity's level range.
    pub open spec fn contains_level(self, level: nat) -> bool {
        self.first_level() <= level < self.end_level()
    }

    /// The rarity of a level: every level below 10 is `Petty`, every level
    /// from 500 on is `Legendary`.
    pub open spec fn spec_from_level(level: nat) -> Rarity {
        if level < 10 {
            Rarity::Petty
        } else if level < 30 {
            Rarity::Common
        } else if level < 100 {
            Rarity::Uncommon
        } else if level < 500 {
            Rarity::Rare
        } else {
            Rarity::Legendary
        }
    }

    /// The lower of two rarities.
    pub open spec fn spec_capped_at(self, ceiling: Rarity) -> Rarity {
        if self.spec_rank() <= ceiling.spec_rank() {
            self
        } else {
            ceiling
        }
    }

    /// The position of the rarity in the order, `Petty` being 0.
    pub fn rank(self) -> (rank: u64)
        ensures
            rank == self.spec_rank(),
    {
        match self {
            Rarity::Petty => 0,
            Rarity::Common => 1,
            Rarity::Uncommon => 2,
            Rarity::Rare => 3,
            Rarity::Legendary => 4,
        }
    }

    /// The rarity that a draw stands for.
    pub fn from_rank(rank: u64) -> (rarity: Rarity)
        ensures
            rarity == Rarity::spec_from_rank(rank as nat),
            rank < 5 ==> rarity.spec_rank() == rank,
    {
        match rank {
            0 => Rarity::Petty,
            1 => Rarity::Common,
            2 => Rarity::Uncommon,
            3 => Rarity::Rare,
            _ => Rarity::Legendary,
        }
    }

    /// The lower of two rarities.
    pub fn capped_at(self, ceiling: Rarity) -> (rarity: Rarity)
        ensures
            rarity == self.spec_capped_at(ceiling),
    {
        if self.rank() <= ceiling.rank() {
            self
        } else {
            ceiling
        }
    }

    /// Draws one of the five rarities, each with the same chance.
    pub fn random(rng: &mut StdRng) -> (rarity: Rarity) {
        Rarity::from_rank(draw_between(rng, 0, 5))
    }

    /// Draws one of the lowest `level` rarities, each with the same chance;
    /// with `level` at 5 or above, one of all five.
    pub fn capped_random(rng: &mut StdRng, level: u64) -> (rarity: Rarity)
        requires
            level >= 1,
        ensures
            rarity.spec_rank() < level,
    {
        let bound: u64 = if level < 5 {
            level
        } else {
            5
        };
        Rarity::from_rank(draw_between(rng, 0, bound))
    }

    /// The half-open range of levels of the rarity.
    pub fn level_range(&self) -> (range: Range<u64>)
        ensures
            range.start == self.first_level(),
            range.end == self.end_level(),
    {
        match *self {
            Rarity::Petty => 1..10,
            Rarity::Common => 10..30,
            Rarity::Uncommon => 30..100,
            Rarity::Rare => 100..500,
            Rarity::Legendary => 500..1000,
        }
    }

    /// The rarity of a level.
    pub fn from_level(level: u64) -> (rarity: Rarity)
        ensures
            rarity == Rarity::spec_from_level(level as nat),
    {
        if level < 10 {
            Rarity::Petty
        } else if level < 30 {
            Rarity::Common
        } else if level < 100 {
            Rarity::Uncommon
        } else if level < 500 {
            Rarity::Rare
        } else {
            Rarity::Legendary
        }
    }
}

impl Default for Rarity {
    fn default() -> (rarity: Rarity)
        ensures
            rarity == Rarity::Common,
    {
        Rarity::Common
    }
}

/// For a level from 1 to 999, the rarity of the level is the one rarity whose
/// level range contains it.
pub proof fn lemma_from_level_inverts_ranges(level: nat, rarity: Rarity)
    requires
        1 <= level < 1000,
    ensures
        rarity.contains_level(level) <==> rarity == Rarity::spec_from_level(level),
{
}

/// The level ranges follow each other without a gap: each starts where the
/// one below ends, the lowest at level 1.
pub proof fn lemma_level_ranges_adjoin(rarity: Rarity)
    ensures
        rarity.first_level() < rarity.end_level(),
        rarity == Rarity::Petty ==> rarity.first_level() == 1,
        rarity != Rarity::Petty ==> rarity.first_level() == Rarity::spec_from_rank(
            (rarity.spec_rank() - 1) as nat,
        ).end_level(),
{
}

/// A rarity drawn among the lowest `ceiling.rank() + 1` never lies above
/// `ceiling`.
pub proof fn lemma_capped_draw_below_ceiling(drawn: Rarity, ceiling: Rarity)
    requires
        drawn.spec_rank() < ceiling.spec_rank() + 1,
    ensures
        drawn.spec_capped_at(ceiling) == drawn,
        drawn.end_level() <= ceiling.end_level(),
{
}

/// The level that an amount of experience gives: the square root of the
/// experience over 8, rounded to the nearest whole number, halves upward.
pub open spec fn level_for(xp: nat) -> nat {
    (isqrt(xp) + 4) / 8
}

/// The hit points of a level.
pub open spec fn hp_for(level: nat) -> nat {
    BASE_HP as nat + level * HP_PER_LEVEL as nat
}

/// `level_for` rounds the square root over 8 to the nearest whole number:
/// the experience lies between the squares of `8 * level - 4` and of
/// `8 * level + 4`, the points where the quotient crosses a half.
pub proof fn lemma_level_rounds(xp: nat)
    ensures
        level_for(xp) == 0 ==> xp < 16,
        level_for(xp) > 0 ==> (8 * level_for(xp) - 4) * (8 * level_for(xp) - 4) <= xp,
        xp < (8 * level_for(xp) + 4) * (8 * level_for(xp) + 4),
{
    lemma_isqrt_bounds(xp);
    let s = isqrt(xp);
    let l = level_for(xp);
    assert(8 * l <= s + 4 < 8 * l + 8);
    assert((s + 1) * (s + 1) <= (8 * l + 4) * (8 * l + 4)) by (nonlinear_arith)
        requires
            s + 1 <= 8 * l + 4,
    ;
    if l == 0 {
        assert((8 * l + 4) * (8 * l + 4) == 16) by (nonlinear_arith)
            requires
                l == 0,
        ;
    } else {
        assert((8 * l - 4) * (8 * l - 4) <= s * s) by (nonlinear_arith)
            requires
                0 <= 8 * l - 4 <= s,
        ;
    }
}

/// More experience never gives a lower level.
pub proof fn lemma_level_monotonic(xp: nat, more_xp: nat)
    requires
        xp <= more_xp,
    ensures
        level_for(xp) <= level_for(more_xp),
{
    lemma_isqrt_monotonic(xp, more_xp);
}

/// A higher level never gives fewer hit points.
pub proof fn lemma_hp_monotonic(level: nat, higher_level: nat)
    requires
        level <= higher_level,
    ensures
        hp_for(level) <= hp_for(higher_level),
{
    assert(level * HP_PER_LEVEL as nat <= higher_level * HP_PER_LEVEL as nat) by (nonlinear_arith)
        requires
            level <= higher_level,
    ;
}

/// Computes the level that an amount of experience gives.
pub fn level_of(xp: u64) -> (level: u64)
    ensures
        level == level_for(xp as nat),
        level <= 0x2000_0000,
{
    (integer_sqrt(xp) + 4) / 8
}

/// What gains experience, and has a level and hit points by it.
pub trait Level {
    /// The experience gathered so far.
    spec fn spec_xp(&self) -> nat;

    fn xp(&self) -> (xp: u64)
        ensures
            xp == self.spec_xp(),
    ;

    fn add_xp(&mut self, amount: u64)
        requires
            old(self).spec_xp() + amount <= u64::MAX,
        ensures
            final(self).spec_xp() == old(self).spec_xp() + amount,
    ;

    /// The level, derived from the experience.
    fn level(&self) -> (level: u64)
        ensures
            level == level_for(self.spec_xp()),
            level <= 0x2000_0000,
    {
        level_of(self.xp())
    }

    /// The hit points, derived from the level.
    fn hp(&self) -> (hp: u64)
        ensures
            hp == hp_for(level_for(self.spec_xp())),
    {
        BASE_HP + self.level() * HP_PER_LEVEL
    }
}

} // verus!
