//! Monster templates of the catalog and the monsters spawned from them.

use super::Rarity;
use crate::dice::draw_between;
use rand::rngs::StdRng;
use vstd::prelude::*;

verus! {

/// The levels of a monster that make one point of its least damage.
pub const LEVELS_PER_DAMAGE: u64 = 10;

/// The least damage that any monster deals.
pub const LEAST_DAMAGE: u64 = 2;

/// A family of monsters in the catalog, from which monsters are spawned.
#[derive(Debug)]
pub struct PotentialMonster {
    pub id: String,
    pub name: String,
    pub proper_noun: bool,
    pub generic: bool,
    pub rarity: Option<Rarity>,
    pub max_level: Option<u64>,
}

/// A monster template as the contracts see it.
pub struct TemplateView {
    pub id: Seq<char>,
    pub name: Seq<char>,
    pub proper_noun: bool,
    pub generic: bool,
    pub rarity: Option<Rarity>,
    pub max_level: Option<u64>,
}

impl View for PotentialMonster {
    type V = TemplateView;

    open spec fn view(&self) -> TemplateView {
        TemplateView {
            id: self.id@,
            name: self.name@,
            proper_noun: self.proper_noun,
            generic: self.generic,
            rarity: self.rarity,
            max_level: self.max_level,
        }
    }
}

/// A spawned monster. It stands for itself, without its template.
#[derive(Debug)]
pub struct Monster {
    name: String,
    proper_noun: bool,
    generic: bool,
    rarity: Rarity,
    level: u64,
}

/// A monster as the contracts see it.
pub struct MonsterView {
    pub name: Seq<char>,
    pub proper_noun: bool,
    pub generic: bool,
    pub rarity: Rarity,
    pub level: u64,
}

impl View for Monster {
    type V = MonsterView;

    closed spec fn view(&self) -> MonsterView {
        MonsterView {
            name: self.name@,
            proper_noun: self.proper_noun,
            generic: self.generic,
            rarity: self.rarity,
            level: self.level,
        }
    }
}

/// The highest rarity that a template spawns under a ceiling: the ceiling
/// itself, lowered to the rarity of the template's highest level where it
/// has one.
pub open spec fn rarity_ceiling(template: TemplateView, max_rarity: Rarity) -> Rarity {
    match template.max_level {
        Some(max_level) => Rarity::spec_from_level(max_level as nat).spec_capped_at(max_rarity),
        None => max_rarity,
    }
}

/// What holds of every monster that a template spawns under a ceiling: it
/// has the template's name and naming flags; its rarity is the template's
/// where that is fixed, and otherwise not above the ceiling; its level lies
/// in the range of its rarity.
pub open spec fn spawned_from(template: TemplateView, max_rarity: Rarity, monster: MonsterView) -> bool {
    &&& monster.name == template.name
    &&& monster.proper_noun == template.proper_noun
    &&& monster.generic == template.generic
    &&& match template.rarity {
        Some(rarity) => monster.rarity == rarity,
        None => monster.rarity.spec_rank() <= rarity_ceiling(template, max_rarity).spec_rank(),
    }
    &&& monster.rarity.contains_level(monster.level as nat)
}

/// The word that a rarity puts before a generic monster's name, with the
/// space that follows it.
pub open spec fn rarity_title(rarity: Rarity) -> Seq<char> {
    match rarity {
        Rarity::Petty => "Petty "@,
        Rarity::Common => "Common "@,
        Rarity::Uncommon => "Uncommon "@,
        Rarity::Rare => "Rare "@,
        Rarity::Legendary => "Legendary "@,
    }
}

/// The indefinite article before a rarity's title, with its space.
pub open spec fn rarity_article(rarity: Rarity) -> Seq<char> {
    match rarity {
        Rarity::Uncommon => "an "@,
        _ => "a "@,
    }
}

/// The name under which a monster is shown.
pub open spec fn shown_name(monster: MonsterView) -> Seq<char> {
    if monster.generic {
        rarity_title(monster.rarity) + monster.name
    } else {
        monster.name
    }
}

/// The name of a monster as one of a kind.
pub open spec fn shown_proper_name(monster: MonsterView) -> Seq<char> {
    if monster.proper_noun {
        monster.name
    } else {
        "The "@ + monster.name
    }
}

/// The name of a monster after an article.
pub open spec fn shown_article_name(monster: MonsterView) -> Seq<char> {
    if monster.generic {
        rarity_article(monster.rarity) + shown_name(monster)
    } else {
        shown_proper_name(monster)
    }
}

/// Whether a monster of this level drastically outclasses a player: its
/// level is more than three times the player's, counted in whole multiples,
/// and more than ten levels above it.
pub open spec fn outclasses(level: nat, player_level: nat) -> bool {
    let floor: nat = if player_level < 1 {
        1
    } else {
        player_level
    };
    level / floor > 3 && level - player_level > 10
}

/// The least damage that a monster of this level deals.
pub open spec fn damage_floor(level: nat) -> nat {
    if level / (LEVELS_PER_DAMAGE as nat) < LEAST_DAMAGE {
        LEAST_DAMAGE as nat
    } else {
        level / (LEVELS_PER_DAMAGE as nat)
    }
}

/// The first damage that a monster of this level no longer deals.
pub open spec fn damage_ceiling(level: nat) -> nat {
    if level < damage_floor(level) + 1 {
        damage_floor(level) + 1
    } else {
        level
    }
}

impl PotentialMonster {
    /// The highest rarity that the template spawns under `max_rarity`.
    pub fn rarity_ceiling(&self, max_rarity: Rarity) -> (ceiling: Rarity)
        ensures
            ceiling == rarity_ceiling(self@, max_rarity),
            ceiling.spec_rank() <= max_rarity.spec_rank(),
    {
        match self.max_level {
            Some(max_level) => Rarity::from_level(max_level).capped_at(max_rarity),
            None => max_rarity,
        }
    }

    /// Spawns a monster of this family. Where the template fixes no rarity,
    /// one is drawn among those up to the ceiling; the level is then drawn
    /// from the range of the rarity.
    pub fn spawn(&self, max_rarity: Rarity, rng: &mut StdRng) -> (monster: Monster)
        ensures
            spawned_from(self@, max_rarity, monster@),
            monster.wf(),
    {
        let ceiling = self.rarity_ceiling(max_rarity);
        let rarity = match self.rarity {
            Some(fixed) => fixed,
            None => Rarity::capped_random(rng, ceiling.rank() + 1),
        };
        let range = rarity.level_range();
        let level: u64 = draw_between(rng, range.start, range.end);
        Monster {
            name: self.name.clone(),
            proper_noun: self.proper_noun,
            generic: self.generic,
            rarity,
            level,
        }
    }
}

impl Monster {
    /// Whether the monster is well formed: its level lies in the range of
    /// its rarity. Every monster that this library hands out is.
    pub open spec fn wf(&self) -> bool {
        self@.rarity.contains_level(self@.level as nat)
    }

    /// A monster of the given name, rarity and level, where the level lies in
    /// the range of the rarity.
    pub fn new(name: &str, proper_noun: bool, generic: bool, rarity: Rarity, level: u64) -> (monster:
        Option<Monster>)
        ensures
            monster is Some <==> rarity.contains_level(level as nat),
            monster matches Some(made) ==> made.wf() && made@ == (MonsterView {
                name: name@,
                proper_noun,
                generic,
                rarity,
                level,
            }),
    {
        let range = rarity.level_range();
        if range.start <= level && level < range.end {
            Some(Monster { name: String::from_str(name), proper_noun, generic, rarity, level })
        } else {
            None
        }
    }

    /// The name under which the monster is shown: a generic monster carries
    /// its rarity before its name.
    pub fn name(&self) -> (name: String)
        ensures
            name@ == shown_name(self@),
    {
        if self.generic {
            let title = match self.rarity {
                Rarity::Petty => String::from_str("Petty "),
                Rarity::Common => String::from_str("Common "),
                Rarity::Uncommon => String::from_str("Uncommon "),
                Rarity::Rare => String::from_str("Rare "),
                Rarity::Legendary => String::from_str("Legendary "),
            };
            title.concat(self.name.as_str())
        } else {
            self.name.clone()
        }
    }

    /// The name after an article: "a" or "an" before a generic monster, the
    /// proper name otherwise.
    pub fn article_name(&self) -> (name: String)
        ensures
            name@ == shown_article_name(self@),
    {
        if self.generic {
            let article = match self.rarity {
                Rarity::Uncommon => String::from_str("an "),
                _ => String::from_str("a "),
            };
            let shown = self.name();
            article.concat(shown.as_str())
        } else {
            self.proper_name()
        }
    }

    /// The name as one of a kind: a proper noun stands alone, any other
    /// name follows "The".
    pub fn proper_name(&self) -> (name: String)
        ensures
            name@ == shown_proper_name(self@),
    {
        if self.proper_noun {
            self.name.clone()
        } else {
            String::from_str("The ").concat(self.name.as_str())
        }
    }

    pub fn generic(&self) -> (generic: bool)
        ensures
            generic == self@.generic,
    {
        self.generic
    }

    pub fn proper_noun(&self) -> (proper_noun: bool)
        ensures
            proper_noun == self@.proper_noun,
    {
        self.proper_noun
    }

    pub fn rarity(&self) -> (rarity: Rarity)
        ensures
            rarity == self@.rarity,
    {
        self.rarity
    }

    pub fn level(&self) -> (level: u64)
        ensures
            level == self@.level,
    {
        self.level
    }

    /// Whether the monster drastically outclasses a player of this level.
    pub fn is_difficult(&self, player_level: u64) -> (difficult: bool)
        ensures
            difficult == outclasses(self@.level as nat, player_level as nat),
    {
        let floor: u64 = if player_level < 1 {
            1
        } else {
            player_level
        };
        self.level / floor > 3 && self.level.saturating_sub(player_level) > 10
    }

    /// Draws the damage of one blow.
    pub fn damage(&self, rng: &mut StdRng) -> (damage: u64)
        ensures
            damage_floor(self@.level as nat) <= damage < damage_ceiling(self@.level as nat),
    {
        let floor: u64 = if self.level / LEVELS_PER_DAMAGE < LEAST_DAMAGE {
            LEAST_DAMAGE
        } else {
            self.level / LEVELS_PER_DAMAGE
        };
        let ceiling: u64 = if self.level < floor + 1 {
            floor + 1
        } else {
            self.level
        };
        draw_between(rng, floor, ceiling)
    }
}

} // verus!
