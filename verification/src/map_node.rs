//! Capturable points on the map and who holds them.
//!
//! Capture progress runs between `-CAPTURE_MAX` (enemy) and `CAPTURE_MAX` (player) and is
//! kept by the embedding engine; it tells the node each frame whether the progress has
//! reached either end. Production timers are likewise the engine's.
use vstd::prelude::*;
use crate::team::Team;

verus! {

/// A capturable point: its owner and its number on the map.
pub struct MapNode {
    pub team: Team,
    pub id: usize,
}

impl MapNode {
    /// An unowned node numbered 0.
    pub fn new() -> (n: MapNode)
        ensures
            n.team == Team::Neutral,
            n.id == 0,
    {
        MapNode { team: Team::Neutral, id: 0 }
    }

    /// Settles ownership after the capture progress moved this frame. `player_full`
    /// tells whether the progress has reached the player's end, `enemy_full` whether it
    /// has reached the enemy's end. The node goes to the player when the player's end is
    /// reached and the player does not hold it yet; otherwise to the enemy when the
    /// enemy's end is reached and the enemy does not hold it yet. The new owner is
    /// returned (and the progress is then to restart from zero); `None` means the owner
    /// did not change.
    pub fn tick_capture(&mut self, player_full: bool, enemy_full: bool) -> (flipped: Option<
        Team,
    >)
        ensures
            final(self).id == old(self).id,
            player_full && old(self).team != Team::Player ==> flipped == Some(Team::Player),
            !(player_full && old(self).team != Team::Player) && enemy_full && old(self).team
                != Team::Enemy ==> flipped == Some(Team::Enemy),
            !(player_full && old(self).team != Team::Player) && !(enemy_full && old(self).team
                != Team::Enemy) ==> flipped is None,
            flipped matches Some(t) ==> final(self).team == t && old(self).team != t,
            flipped is None ==> final(self).team == old(self).team,
            flipped != Some(Team::Neutral),
            old(self).team != Team::Neutral ==> final(self).team != Team::Neutral,
    {
        if player_full && self.team != Team::Player {
            self.team = Team::Player;
            return Some(Team::Player);
        }
        if enemy_full && self.team != Team::Enemy {
            self.team = Team::Enemy;
            return Some(Team::Enemy);
        }
        None
    }

    /// Whether the node produces units: only owned nodes do.
    pub fn produces_units(&self) -> (r: bool)
        ensures
            r == (self.team != Team::Neutral),
    {
        self.team != Team::Neutral
    }
}

} // verus!
