//! The three sides of the skirmish and who fights whom.
use vstd::prelude::*;

verus! {

/// A side on the field. `Neutral` owns the uncaptured nodes and has no units of its own.
#[derive(Clone, Copy, PartialEq, Eq, Debug, Structural)]
pub enum Team {
    Player,
    Enemy,
    Neutral,
}

/// Two teams fight each other when neither is neutral and they differ.
pub open spec fn hostile(a: Team, b: Team) -> bool {
    a != Team::Neutral && b != Team::Neutral && a != b
}

impl Team {
    /// True when `self` and `other` are opposing, non-neutral sides.
    pub fn is_enemy_of(&self, other: Team) -> (r: bool)
        ensures
            r == hostile(*self, other),
    {
        match (self, other) {
            (Team::Neutral, _) | (_, Team::Neutral) => false,
            (a, b) => *a != b,
        }
    }
}

/// Hostility goes both ways.
pub proof fn lemma_hostility_symmetric(a: Team, b: Team)
    ensures
        hostile(a, b) == hostile(b, a),
{
}

/// No team is hostile to itself.
pub proof fn lemma_hostility_irreflexive(a: Team)
    ensures
        !hostile(a, a),
{
}

/// The neutral side is nobody's enemy.
pub proof fn lemma_neutral_is_nobodys_enemy(a: Team)
    ensures
        !hostile(Team::Neutral, a),
        !hostile(a, Team::Neutral),
{
}

/// The player and the enemy are each other's only enemies.
pub proof fn lemma_player_enemy_hostile()
    ensures
        hostile(Team::Player, Team::Enemy),
        hostile(Team::Enemy, Team::Player),
{
}

} // verus!
