//! The match as a whole: the random source, the player's selection, pointer input and
//! the outcome, plus the per-frame rules that look at all units or all nodes at once
//! (counting, production, culling the dead, selecting, deciding the winner).
//!
//! The engine keeps the units and nodes themselves; it hands these rules their teams and
//! the results of its distance checks, and applies what comes back.
use vstd::prelude::*;
use crate::team::Team;
use crate::rng::{Lcg, lcg_successor, lcg_output};
use crate::input::{InputMode, PointerAction, after_button, after_motion, button_step, motion_step};

verus! {

/// No side produces new units while it has this many or more.
pub const MAX_UNITS_PER_TEAM: u32 = 2000;

/// The units each side starts with.
pub const STARTING_UNITS: u32 = 120;

/// The seed of every match's random source.
pub const MATCH_SEED: u64 = 12345;

/// How many of `teams` are on `team`.
pub open spec fn members(teams: Seq<Team>, team: Team) -> nat
    decreases teams.len(),
{
    if teams.len() == 0 {
        0
    } else {
        members(teams.drop_last(), team) + if teams.last() == team {
            1nat
        } else {
            0nat
        }
    }
}

/// How many of `teams` are on `team` and flagged in `inside`.
pub open spec fn members_inside(teams: Seq<Team>, inside: Seq<bool>, team: Team) -> nat
    decreases teams.len(),
{
    if teams.len() == 0 {
        0
    } else {
        members_inside(teams.drop_last(), inside, team) + if teams.last() == team && inside[teams.len()
            - 1] {
            1nat
        } else {
            0nat
        }
    }
}

/// Whether unit `i` can be picked by a selection: a living player unit inside the area.
pub open spec fn selectable(teams: Seq<Team>, dead: Seq<bool>, inside: Seq<bool>, i: int) -> bool {
    teams[i] == Team::Player && !dead[i] && inside[i]
}

/// The selectable indices among the first `k` units, in increasing order.
pub open spec fn selectable_below(teams: Seq<Team>, dead: Seq<bool>, inside: Seq<bool>, k: nat) -> Seq<
    usize,
>
    decreases k,
{
    if k == 0 {
        Seq::empty()
    } else {
        let before = selectable_below(teams, dead, inside, (k - 1) as nat);
        if selectable(teams, dead, inside, k - 1) {
            before.push((k - 1) as usize)
        } else {
            before
        }
    }
}

/// The items whose flag equals `flag`, in their order.
pub open spec fn flagged<T>(items: Seq<T>, flags: Seq<bool>, flag: bool) -> Seq<T>
    decreases items.len(),
{
    if items.len() == 0 {
        Seq::empty()
    } else {
        let before = flagged(items.drop_last(), flags, flag);
        if flags[items.len() - 1] == flag {
            before.push(items.last())
        } else {
            before
        }
    }
}

/// The side that holds every node, if one does: the player when all nodes are the
/// player's, else the enemy when all are the enemy's.
pub open spec fn sole_owner(node_teams: Seq<Team>) -> Option<Team> {
    if forall|i: int| 0 <= i < node_teams.len() ==> node_teams[i] == Team::Player {
        Some(Team::Player)
    } else if forall|i: int| 0 <= i < node_teams.len() ==> node_teams[i] == Team::Enemy {
        Some(Team::Enemy)
    } else {
        None
    }
}

/// The number of units a node owned by `team` counts against the production cap: the
/// player's units for a player node, the enemy's for any other.
pub open spec fn cap_count(unit_teams: Seq<Team>, team: Team) -> nat {
    if team == Team::Player {
        members(unit_teams, Team::Player)
    } else {
        members(unit_teams, Team::Enemy)
    }
}

/// Whether a node of `team` may produce a unit, the counts being taken once per frame,
/// before any production (and, as 32-bit counters, modulo 2^32).
pub open spec fn spawn_allowed(unit_teams: Seq<Team>, team: Team) -> bool {
    (cap_count(unit_teams, team) as u32) < MAX_UNITS_PER_TEAM
}

/// How many of `teams` are on `team`.
pub fn count_team(teams: &Vec<Team>, team: Team) -> (c: usize)
    ensures
        c == members(teams@, team),
        c == teams@.filter(|x: Team| x == team).len(),
{
    let mut c: usize = 0;
    let mut k: usize = 0;
    while k < teams.len()
        invariant
            k <= teams.len(),
            c == members(teams@.take(k as int), team),
            c <= k,
        decreases teams.len() - k,
    {
        assert(teams@.take(k + 1).drop_last() =~= teams@.take(k as int));
        if teams[k] == team {
            c += 1;
        }
        k += 1;
    }
    assert(teams@.take(k as int) =~= teams@);
    proof {
        lemma_members_counts(teams@, team);
    }
    c
}

/// The player units and the enemy units among those flagged in `inside` (the units
/// within a node's capture radius).
pub fn count_inside(teams: &Vec<Team>, inside: &Vec<bool>) -> (r: (u32, u32))
    requires
        inside.len() == teams.len(),
        teams.len() <= u32::MAX,
    ensures
        r.0 == members_inside(teams@, inside@, Team::Player),
        r.1 == members_inside(teams@, inside@, Team::Enemy),
        r.0 == Seq::new(teams.len() as nat, |i: int| teams@[i] == Team::Player && inside@[i]).filter(
            |b: bool| b == true,
        ).len(),
        r.1 == Seq::new(teams.len() as nat, |i: int| teams@[i] == Team::Enemy && inside@[i]).filter(
            |b: bool| b == true,
        ).len(),
{
    let mut player: u32 = 0;
    let mut enemy: u32 = 0;
    let mut k: usize = 0;
    while k < teams.len()
        invariant
            k <= teams.len(),
            inside.len() == teams.len(),
            teams.len() <= u32::MAX,
            player == members_inside(teams@.take(k as int), inside@, Team::Player),
            enemy == members_inside(teams@.take(k as int), inside@, Team::Enemy),
            player + enemy <= k,
        decreases teams.len() - k,
    {
        assert(teams@.take(k + 1).drop_last() =~= teams@.take(k as int));
        if inside[k] {
            match teams[k] {
                Team::Player => {
                    player += 1;
                },
                Team::Enemy => {
                    enemy += 1;
                },
                Team::Neutral => {},
            }
        }
        k += 1;
    }
    assert(teams@.take(k as int) =~= teams@);
    proof {
        lemma_members_inside_counts(teams@, inside@, Team::Player);
        lemma_members_inside_counts(teams@, inside@, Team::Enemy);
    }
    (player, enemy)
}

/// Which production requests are granted this frame: `requests` holds the owner of each
/// node whose production timer ran out, `unit_teams` the teams of the units on the field.
/// A request is granted when its side is below the cap, counted before this frame's
/// production.
pub fn spawn_grants(requests: &Vec<Team>, unit_teams: &Vec<Team>) -> (granted: Vec<bool>)
    ensures
        granted.len() == requests.len(),
        forall|i: int|
            0 <= i < requests.len() ==> #[trigger] granted[i] == spawn_allowed(
                unit_teams@,
                requests[i],
            ),
        forall|i: int|
            0 <= i < requests.len() ==> ({
                let side = if requests[i] == Team::Player {
                    Team::Player
                } else {
                    Team::Enemy
                };
                let c = unit_teams@.filter(|x: Team| x == side).len();
                &&& c < MAX_UNITS_PER_TEAM ==> #[trigger] granted[i]
                &&& MAX_UNITS_PER_TEAM <= c < 0x1_0000_0000 ==> !granted[i]
            }),
{
    let player_count = count_team(unit_teams, Team::Player) as u32;
    let enemy_count = count_team(unit_teams, Team::Enemy) as u32;
    let mut granted: Vec<bool> = Vec::new();
    let mut k: usize = 0;
    while k < requests.len()
        invariant
            k <= requests.len(),
            granted.len() == k,
            player_count == members(unit_teams@, Team::Player) as u32,
            enemy_count == members(unit_teams@, Team::Enemy) as u32,
            forall|i: int|
                0 <= i < k ==> #[trigger] granted[i] == spawn_allowed(unit_teams@, requests[i]),
        decreases requests.len() - k,
    {
        let count = if requests[k] == Team::Player {
            player_count
        } else {
            enemy_count
        };
        granted.push(count < MAX_UNITS_PER_TEAM);
        k += 1;
    }
    proof {
        lemma_spawn_follows_cap(unit_teams@, Team::Player);
        lemma_spawn_follows_cap(unit_teams@, Team::Enemy);
        lemma_spawn_follows_cap(unit_teams@, Team::Neutral);
    }
    granted
}

/// The first of `teams` that is `team`, if any.
pub fn first_index_of(teams: &Vec<Team>, team: Team) -> (r: Option<usize>)
    ensures
        r matches Some(i) ==> i < teams.len() && teams[i as int] == team && forall|j: int|
            0 <= j < i ==> teams[j] != team,
        r is None ==> forall|j: int| 0 <= j < teams.len() ==> teams[j] != team,
{
    let mut k: usize = 0;
    while k < teams.len()
        invariant
            k <= teams.len(),
            forall|j: int| 0 <= j < k ==> teams[j] != team,
        decreases teams.len() - k,
    {
        if teams[k] == team {
            return Some(k);
        }
        k += 1;
    }
    None
}

/// The points whose owner is `team`, in their order.
pub open spec fn points_of<P>(points: Seq<P>, owners: Seq<Team>, team: Team) -> Seq<P>
    decreases points.len(),
{
    if points.len() == 0 {
        Seq::empty()
    } else {
        let before = points_of(points.drop_last(), owners, team);
        if owners[points.len() - 1] == team {
            before.push(points.last())
        } else {
            before
        }
    }
}

/// The points (node positions) owned by `team`, in their order; `owners[i]` owns
/// `points[i]`.
pub fn held_by<P: Copy>(points: &Vec<P>, owners: &Vec<Team>, team: Team) -> (held: Vec<P>)
    requires
        owners.len() == points.len(),
    ensures
        held@ == points_of(points@, owners@, team),
        held@.len() == owners@.filter(|o: Team| o == team).len(),
        forall|k: int|
            #![trigger owners@[k]]
            0 <= k < points.len() && owners@[k] == team ==> held@[owners@.take(k).filter(
                |o: Team| o == team,
            ).len() as int] == points@[k],
{
    let mut held: Vec<P> = Vec::new();
    let mut k: usize = 0;
    while k < points.len()
        invariant
            k <= points.len(),
            owners.len() == points.len(),
            held@ == points_of(points@.take(k as int), owners@, team),
        decreases points.len() - k,
    {
        assert(points@.take(k + 1).drop_last() =~= points@.take(k as int));
        if owners[k] == team {
            held.push(points[k]);
        }
        k += 1;
    }
    assert(points@.take(k as int) =~= points@);
    proof {
        lemma_points_of_by_rank(points@, owners@, team);
    }
    held
}

/// Turns a drawn index into a valid one among `count` choices: indices past the end go
/// to the last choice.
pub fn pick_node_index(raw: usize, count: usize) -> (i: usize)
    requires
        count > 0,
    ensures
        i < count,
        i == if raw < count - 1 {
            raw
        } else {
            (count - 1) as usize
        },
{
    if raw < count - 1 {
        raw
    } else {
        count - 1
    }
}

/// The match's own state.
pub struct Game<P> {
    /// The random source of the match.
    pub rng: Lcg,
    /// The player's selected units, as indices into the engine's unit list.
    pub selected: Vec<usize>,
    /// Where the pointer interaction stands.
    pub input_mode: InputMode<P>,
    /// The winner, once the match is decided.
    pub winner: Option<Team>,
}

impl<P: Copy> Game<P> {
    /// A new match: seeded random source, nothing selected, no interaction, no winner.
    pub fn new() -> (g: Self)
        ensures
            g.rng.state == MATCH_SEED,
            g.selected@.len() == 0,
            g.input_mode == InputMode::<P>::Idle,
            g.winner is None,
    {
        Game {
            rng: Lcg::new(MATCH_SEED),
            selected: Vec::new(),
            input_mode: InputMode::Idle,
            winner: None,
        }
    }

    /// Draws 31 random bits from the match's random source.
    pub fn next_bits(&mut self) -> (bits: u32)
        ensures
            final(self).rng.state == lcg_successor(old(self).rng.state),
            bits == lcg_output(final(self).rng.state),
            bits < 0x8000_0000,
            final(self).selected == old(self).selected,
            final(self).input_mode == old(self).input_mode,
            final(self).winner == old(self).winner,
    {
        self.rng.next_bits()
    }

    /// Whether the match is decided; a decided match takes no more input or frames.
    pub fn is_over(&self) -> (r: bool)
        ensures
            r == self.winner is Some,
    {
        self.winner.is_some()
    }

    /// Declares the winner once one side holds every node (given by `node_teams`). A
    /// decided match keeps its winner.
    pub fn check_win(&mut self, node_teams: &Vec<Team>)
        ensures
            old(self).winner is Some ==> final(self).winner == old(self).winner,
            old(self).winner is None ==> final(self).winner == sole_owner(node_teams@),
            old(self).winner is None && final(self).winner is Some ==> forall|i: int|
                0 <= i < node_teams.len() ==> node_teams@[i] == final(self).winner.unwrap(),
            old(self).winner is None ==> ((final(self).winner == Some(Team::Player)) <==> (forall|
                i: int,
            | 0 <= i < node_teams.len() ==> node_teams@[i] == Team::Player)),
            final(self).rng == old(self).rng,
            final(self).selected == old(self).selected,
            final(self).input_mode == old(self).input_mode,
    {
        if self.winner.is_some() {
            return;
        }
        let mut all_player = true;
        let mut all_enemy = true;
        let mut k: usize = 0;
        while k < node_teams.len()
            invariant
                k <= node_teams.len(),
                all_player == forall|j: int| 0 <= j < k ==> node_teams[j] == Team::Player,
                all_enemy == forall|j: int| 0 <= j < k ==> node_teams[j] == Team::Enemy,
            decreases node_teams.len() - k,
        {
            if node_teams[k] != Team::Player {
                all_player = false;
            }
            if node_teams[k] != Team::Enemy {
                all_enemy = false;
            }
            k += 1;
        }
        if all_player {
            self.winner = Some(Team::Player);
        } else if all_enemy {
            self.winner = Some(Team::Enemy);
        }
        proof {
            lemma_winner_holds_every_node(node_teams@);
        }
    }

    /// Replaces the selection with the living player units flagged in `inside` (those in
    /// the selection circle), in increasing order.
    pub fn select_units_in_circle(&mut self, teams: &Vec<Team>, dead: &Vec<bool>, inside: &Vec<bool>)
        requires
            dead.len() == teams.len(),
            inside.len() == teams.len(),
        ensures
            final(self).selected@ == selectable_below(teams@, dead@, inside@, teams.len() as nat),
            forall|a: int|
                0 <= a < final(self).selected@.len() ==> #[trigger] final(self).selected@[a]
                    < teams.len() && teams@[final(self).selected@[a] as int] == Team::Player
                    && !dead@[final(self).selected@[a] as int] && inside@[final(self).selected@[a] as int],
            forall|a: int, b: int|
                0 <= a < b < final(self).selected@.len() ==> #[trigger] final(self).selected@[a]
                    < #[trigger] final(self).selected@[b],
            forall|i: int|
                #![trigger teams@[i]]
                0 <= i < teams.len() && teams@[i] == Team::Player && !dead@[i] && inside@[i]
                    ==> final(self).selected@.contains(i as usize),
            final(self).rng == old(self).rng,
            final(self).input_mode == old(self).input_mode,
            final(self).winner == old(self).winner,
    {
        self.selected.clear();
        let mut k: usize = 0;
        while k < teams.len()
            invariant
                k <= teams.len(),
                dead.len() == teams.len(),
                inside.len() == teams.len(),
                self.selected@ == selectable_below(teams@, dead@, inside@, k as nat),
                self.rng == old(self).rng,
                self.input_mode == old(self).input_mode,
                self.winner == old(self).winner,
            decreases teams.len() - k,
        {
            if teams[k] == Team::Player && !dead[k] && inside[k] {
                self.selected.push(k);
            }
            k += 1;
        }
        proof {
            lemma_selection_exact(teams@, dead@, inside@, teams.len() as nat);
        }
    }

    /// Hands over the current selection and clears it (a tap with units selected sends
    /// them off).
    pub fn take_selection(&mut self) -> (taken: Vec<usize>)
        ensures
            taken@ == old(self).selected@,
            final(self).selected@.len() == 0,
            final(self).rng == old(self).rng,
            final(self).input_mode == old(self).input_mode,
            final(self).winner == old(self).winner,
    {
        let taken = self.selected.clone();
        self.selected.clear();
        taken
    }

    /// A mouse button event, as `after_button` says.
    pub fn handle_mouse_button(&mut self, is_left: bool, pressed: bool, pos: P) -> (act:
        PointerAction<P>)
        ensures
            (final(self).input_mode, act) == after_button(old(self).input_mode, is_left, pressed, pos),
            final(self).rng == old(self).rng,
            final(self).selected == old(self).selected,
            final(self).winner == old(self).winner,
    {
        button_step(&mut self.input_mode, is_left, pressed, pos)
    }

    /// A pointer motion, as `after_motion` says.
    pub fn handle_mouse_motion(&mut self, pos: P, beyond_threshold: bool)
        ensures
            final(self).input_mode == after_motion(old(self).input_mode, pos, beyond_threshold),
            final(self).rng == old(self).rng,
            final(self).selected == old(self).selected,
            final(self).winner == old(self).winner,
    {
        motion_step(&mut self.input_mode, pos, beyond_threshold);
    }

    /// Removes the units flagged in `dead` from `units`, keeping the order of the others,
    /// and returns the removed ones in their order. Removing any unit shifts the indices,
    /// so the selection is then cleared; otherwise it is kept.
    pub fn cull_dead<T>(&mut self, units: &mut Vec<T>, dead: &Vec<bool>) -> (removed: Vec<T>)
        requires
            dead.len() == old(units).len(),
        ensures
            final(units)@ == flagged(old(units)@, dead@, false),
            removed@ == flagged(old(units)@, dead@, true),
            removed@.len() > 0 ==> final(self).selected@.len() == 0,
            removed@.len() == 0 ==> final(self).selected == old(self).selected,
            final(units)@.len() == dead@.filter(|b: bool| b == false).len(),
            removed@.len() == dead@.filter(|b: bool| b == true).len(),
            forall|k: int|
                #![trigger dead@[k]]
                0 <= k < dead.len() && dead@[k] ==> removed@[dead@.take(k).filter(
                    |b: bool| b == true,
                ).len() as int] == old(units)@[k],
            forall|k: int|
                #![trigger dead@[k]]
                0 <= k < dead.len() && !dead@[k] ==> final(units)@[dead@.take(k).filter(
                    |b: bool| b == false,
                ).len() as int] == old(units)@[k],
            (exists|k: int| 0 <= k < dead.len() && dead@[k]) ==> final(self).selected@.len() == 0,
            (forall|k: int| 0 <= k < dead.len() ==> !dead@[k]) ==> final(self).selected == old(
                self,
            ).selected,
            final(self).rng == old(self).rng,
            final(self).input_mode == old(self).input_mode,
            final(self).winner == old(self).winner,
    {
        let ghost orig = units@;
        let n = dead.len();
        let mut removed: Vec<T> = Vec::new();
        let mut i: usize = 0;
        let mut k: usize = 0;
        assert(orig.take(0) =~= Seq::<T>::empty());
        assert(orig.skip(0) =~= orig);
        while k < n
            invariant
                k <= n,
                n == dead.len(),
                n == orig.len(),
                units@ == flagged(orig.take(k as int), dead@, false) + orig.skip(k as int),
                removed@ == flagged(orig.take(k as int), dead@, true),
                i == flagged(orig.take(k as int), dead@, false).len(),
                i <= k,
                removed@.len() > 0 ==> self.selected@.len() == 0,
                removed@.len() == 0 ==> self.selected == old(self).selected,
                self.rng == old(self).rng,
                self.input_mode == old(self).input_mode,
                self.winner == old(self).winner,
            decreases n - k,
        {
            let ghost kept = flagged(orig.take(k as int), dead@, false);
            assert(orig.take(k + 1).drop_last() =~= orig.take(k as int));
            assert(orig.take(k + 1).last() == orig[k as int]);
            assert(units@[i as int] == orig[k as int]);
            if dead[k] {
                let u = units.remove(i);
                removed.push(u);
                self.selected.clear();
                assert(units@ =~= kept + orig.skip(k + 1));
            } else {
                assert(units@ =~= kept.push(orig[k as int]) + orig.skip(k + 1));
                i += 1;
            }
            k += 1;
        }
        assert(orig.take(n as int) =~= orig);
        assert(orig.skip(n as int) =~= Seq::<T>::empty());
        assert(units@ =~= flagged(orig, dead@, false));
        proof {
            lemma_flagged_by_rank(orig, dead@, false);
            lemma_flagged_by_rank(orig, dead@, true);
            if forall|k: int| 0 <= k < dead.len() ==> !dead@[k] {
                dead@.lemma_all_neg_filter_empty(|b: bool| b == true);
            }
        }
        removed
    }
}

/// A selection holds exactly the selectable units: each entry is the index of a living
/// player unit inside the area, the entries increase strictly, and every such unit is in.
pub proof fn lemma_selection_exact(teams: Seq<Team>, dead: Seq<bool>, inside: Seq<bool>, k: nat)
    requires
        k <= teams.len(),
        k <= usize::MAX,
    ensures
        ({
            let sel = selectable_below(teams, dead, inside, k);
            &&& forall|a: int|
                0 <= a < sel.len() ==> #[trigger] sel[a] < k && teams[sel[a] as int] == Team::Player
                    && !dead[sel[a] as int] && inside[sel[a] as int]
            &&& forall|a: int, b: int| 0 <= a < b < sel.len() ==> #[trigger] sel[a] < #[trigger] sel[b]
            &&& forall|i: int|
                #![trigger teams[i]]
                0 <= i < k && teams[i] == Team::Player && !dead[i] && inside[i] ==> sel.contains(
                    i as usize,
                )
        }),
    decreases k,
{
    if k > 0 {
        lemma_selection_exact(teams, dead, inside, (k - 1) as nat);
        let before = selectable_below(teams, dead, inside, (k - 1) as nat);
        let sel = selectable_below(teams, dead, inside, k);
        assert forall|i: int|
            #![trigger teams[i]]
            0 <= i < k && teams[i] == Team::Player && !dead[i] && inside[i] implies sel.contains(
            i as usize,
        ) by {
            if i < k - 1 {
                assert(before.contains(i as usize));
                let a = choose|a: int| 0 <= a < before.len() && before[a] == i as usize;
                assert(sel[a] == i as usize);
            } else {
                assert(sel[sel.len() - 1] == i as usize);
            }
        }
    }
}

/// Culling splits the units in two: the survivors and the removed make up all of them.
pub proof fn lemma_cull_partitions<T>(items: Seq<T>, flags: Seq<bool>)
    ensures
        flagged(items, flags, false).len() + flagged(items, flags, true).len() == items.len(),
    decreases items.len(),
{
    if items.len() > 0 {
        lemma_cull_partitions(items.drop_last(), flags);
    }
}

/// A selection keeps pointing at existing units: if every selected index is below the
/// number of units and culling removes nobody (the only case in which it keeps the
/// selection), every selected index is still below the number of units.
pub proof fn lemma_selection_stays_valid<T>(selected: Seq<usize>, items: Seq<T>, flags: Seq<bool>)
    requires
        forall|a: int| 0 <= a < selected.len() ==> #[trigger] selected[a] < items.len(),
        flagged(items, flags, true).len() == 0,
    ensures
        forall|a: int|
            0 <= a < selected.len() ==> #[trigger] selected[a] < flagged(items, flags, false).len(),
{
    lemma_cull_partitions(items, flags);
}

/// A side at or over the cap produces nothing, as long as its count fits the 32-bit
/// counter.
pub proof fn lemma_capped_side_spawns_nothing(unit_teams: Seq<Team>, team: Team)
    requires
        MAX_UNITS_PER_TEAM <= cap_count(unit_teams, team) < 0x1_0000_0000,
    ensures
        !spawn_allowed(unit_teams, team),
{
}

/// The match is never won by the neutral side.
pub proof fn lemma_no_neutral_winner(node_teams: Seq<Team>)
    ensures
        sole_owner(node_teams) != Some(Team::Neutral),
{
}

/// Counting through a longer prefix never finds fewer matches.
proof fn lemma_prefix_count_grows<A>(s: Seq<A>, p: spec_fn(A) -> bool, a: int, b: int)
    requires
        0 <= a <= b <= s.len(),
    ensures
        s.take(a).filter(p).len() <= s.take(b).filter(p).len(),
    decreases b - a,
{
    if a < b {
        lemma_prefix_count_grows(s, p, a, b - 1);
        lemma_prefix_count_step(s, p, b - 1);
    }
}

/// One more element of prefix adds one match exactly when it matches.
proof fn lemma_prefix_count_step<A>(s: Seq<A>, p: spec_fn(A) -> bool, k: int)
    requires
        0 <= k < s.len(),
    ensures
        s.take(k + 1).filter(p).len() == s.take(k).filter(p).len() + if p(s[k]) {
            1int
        } else {
            0int
        },
{
    assert(s.take(k + 1) =~= s.take(k).push(s[k]));
    s.take(k).lemma_filter_len_push(p, s[k]);
}

/// Culling, stated against the flags alone: the items kept with flag `flag` are as many
/// as the flags equal to `flag`, and item `k` with that flag stands at its rank among
/// them (the number of earlier flags equal to `flag`). So every flagged item is kept,
/// none other, and in order.
pub proof fn lemma_flagged_by_rank<T>(items: Seq<T>, flags: Seq<bool>, flag: bool)
    requires
        flags.len() == items.len(),
    ensures
        flagged(items, flags, flag).len() == flags.filter(|b: bool| b == flag).len(),
        forall|k: int|
            #![trigger flags[k]]
            0 <= k < items.len() && flags[k] == flag ==> flags.take(k).filter(|b: bool| b == flag).len()
                < flagged(items, flags, flag).len() && flagged(items, flags, flag)[flags.take(
                k,
            ).filter(|b: bool| b == flag).len() as int] == items[k],
    decreases items.len(),
{
    let p = |b: bool| b == flag;
    assert(flags.take(items.len() as int) =~= flags);
    assert(items.take(items.len() as int) =~= items);
    lemma_flagged_prefix(items, flags, flag, items.len() as int);
}

proof fn lemma_flagged_prefix<T>(items: Seq<T>, flags: Seq<bool>, flag: bool, n: int)
    requires
        flags.len() == items.len(),
        0 <= n <= items.len(),
    ensures
        flagged(items.take(n), flags, flag).len() == flags.take(n).filter(|b: bool| b == flag).len(),
        forall|k: int|
            #![trigger flags[k]]
            0 <= k < n && flags[k] == flag ==> flags.take(k).filter(|b: bool| b == flag).len()
                < flagged(items.take(n), flags, flag).len() && flagged(items.take(n), flags, flag)[flags.take(
                k,
            ).filter(|b: bool| b == flag).len() as int] == items[k],
    decreases n,
{
    let p = |b: bool| b == flag;
    if n == 0 {
        assert(flags.take(0) =~= Seq::<bool>::empty());
        reveal(Seq::filter);
    } else {
        lemma_flagged_prefix(items, flags, flag, n - 1);
        lemma_prefix_count_step(flags, p, n - 1);
        assert(items.take(n).drop_last() =~= items.take(n - 1));
        let before = flagged(items.take(n - 1), flags, flag);
        let now = flagged(items.take(n), flags, flag);
        assert forall|k: int| 0 <= k < n && #[trigger] flags[k] == flag implies flags.take(k).filter(
            p,
        ).len() < now.len() && now[flags.take(k).filter(p).len() as int] == items[k] by {
            if k < n - 1 {
                lemma_prefix_count_step(flags, p, k);
                lemma_prefix_count_grows(flags, p, k + 1, n - 1);
                assert(before[flags.take(k).filter(p).len() as int] == items[k]);
            }
        }
    }
    if n == items.len() {
        assert(items.take(n) =~= items);
    }
}

/// The points held by a side, stated against the owners alone: as many as the nodes the
/// side owns, and the point of each such node at its rank among them (the number of
/// earlier nodes of that side). So every node of the side is there, none other, in order.
pub proof fn lemma_points_of_by_rank<P>(points: Seq<P>, owners: Seq<Team>, team: Team)
    requires
        owners.len() == points.len(),
    ensures
        points_of(points, owners, team).len() == owners.filter(|o: Team| o == team).len(),
        forall|k: int|
            #![trigger owners[k]]
            0 <= k < points.len() && owners[k] == team ==> owners.take(k).filter(|o: Team| o == team).len()
                < points_of(points, owners, team).len() && points_of(points, owners, team)[owners.take(
                k,
            ).filter(|o: Team| o == team).len() as int] == points[k],
{
    assert(owners.take(points.len() as int) =~= owners);
    assert(points.take(points.len() as int) =~= points);
    lemma_points_of_prefix(points, owners, team, points.len() as int);
}

proof fn lemma_points_of_prefix<P>(points: Seq<P>, owners: Seq<Team>, team: Team, n: int)
    requires
        owners.len() == points.len(),
        0 <= n <= points.len(),
    ensures
        points_of(points.take(n), owners, team).len() == owners.take(n).filter(|o: Team| o == team).len(),
        forall|k: int|
            #![trigger owners[k]]
            0 <= k < n && owners[k] == team ==> owners.take(k).filter(|o: Team| o == team).len()
                < points_of(points.take(n), owners, team).len() && points_of(points.take(n), owners, team)[owners.take(
                k,
            ).filter(|o: Team| o == team).len() as int] == points[k],
    decreases n,
{
    let p = |o: Team| o == team;
    if n == 0 {
        assert(owners.take(0) =~= Seq::<Team>::empty());
        reveal(Seq::filter);
    } else {
        lemma_points_of_prefix(points, owners, team, n - 1);
        lemma_prefix_count_step(owners, p, n - 1);
        assert(points.take(n).drop_last() =~= points.take(n - 1));
        let before = points_of(points.take(n - 1), owners, team);
        let now = points_of(points.take(n), owners, team);
        assert forall|k: int| 0 <= k < n && #[trigger] owners[k] == team implies owners.take(k).filter(
            p,
        ).len() < now.len() && now[owners.take(k).filter(p).len() as int] == points[k] by {
            if k < n - 1 {
                lemma_prefix_count_step(owners, p, k);
                lemma_prefix_count_grows(owners, p, k + 1, n - 1);
                assert(before[owners.take(k).filter(p).len() as int] == points[k]);
            }
        }
    }
}

/// Counting members agrees with filtering: `members` is the number of entries equal to the
/// team.
pub proof fn lemma_members_counts(teams: Seq<Team>, team: Team)
    ensures
        members(teams, team) == teams.filter(|x: Team| x == team).len(),
    decreases teams.len(),
{
    reveal(Seq::filter);
    if teams.len() > 0 {
        lemma_members_counts(teams.drop_last(), team);
    }
}

/// Counting members inside agrees with counting the indices whose unit is on the team and
/// inside.
pub proof fn lemma_members_inside_counts(teams: Seq<Team>, inside: Seq<bool>, team: Team)
    requires
        inside.len() == teams.len(),
    ensures
        members_inside(teams, inside, team) == Seq::new(
            teams.len(),
            |i: int| teams[i] == team && inside[i],
        ).filter(|b: bool| b == true).len(),
{
    let n = teams.len() as int;
    lemma_members_inside_counts_prefix(teams, inside, team, n);
    assert(teams.take(n) =~= teams);
}

proof fn lemma_members_inside_counts_prefix(teams: Seq<Team>, inside: Seq<bool>, team: Team, n: int)
    requires
        inside.len() == teams.len(),
        0 <= n <= teams.len(),
    ensures
        members_inside(teams.take(n), inside, team) == Seq::new(
            n as nat,
            |i: int| teams[i] == team && inside[i],
        ).filter(|b: bool| b == true).len(),
    decreases n,
{
    reveal(Seq::filter);
    if n > 0 {
        lemma_members_inside_counts_prefix(teams, inside, team, n - 1);
        assert(teams.take(n).drop_last() =~= teams.take(n - 1));
        let s = Seq::new(n as nat, |i: int| teams[i] == team && inside[i]);
        assert(s.drop_last() =~= Seq::new((n - 1) as nat, |i: int| teams[i] == team && inside[i]));
    }
    if n == teams.len() {
        assert(teams.take(n) =~= teams);
    }
}

/// The winner is the side that holds every node: a declared winner holds all of them, the
/// player wins exactly when it holds every node, and the enemy wins exactly when it holds
/// every node of a non-empty map. A neutral node, or nodes of both sides, means no winner.
pub proof fn lemma_winner_holds_every_node(node_teams: Seq<Team>)
    ensures
        sole_owner(node_teams) matches Some(t) ==> forall|i: int|
            0 <= i < node_teams.len() ==> node_teams[i] == t,
        (sole_owner(node_teams) == Some(Team::Player)) <==> (forall|i: int|
            0 <= i < node_teams.len() ==> node_teams[i] == Team::Player),
        (sole_owner(node_teams) == Some(Team::Enemy)) <==> (node_teams.len() > 0 && forall|i: int|
            0 <= i < node_teams.len() ==> node_teams[i] == Team::Enemy),
        (exists|i: int| 0 <= i < node_teams.len() && node_teams[i] == Team::Neutral) ==> sole_owner(
            node_teams,
        ) is None,
{
    if node_teams.len() > 0 && (forall|i: int|
        0 <= i < node_teams.len() ==> node_teams[i] == Team::Enemy) {
        assert(node_teams[0] != Team::Player);
    }
}

/// Production follows the cap, stated against the unit teams alone: a node's side (the
/// player for a player node, the enemy otherwise) gets its unit when it has fewer than
/// the cap, and none when it has the cap or more (counts below 2^32).
pub proof fn lemma_spawn_follows_cap(unit_teams: Seq<Team>, team: Team)
    ensures
        ({
            let side = if team == Team::Player {
                Team::Player
            } else {
                Team::Enemy
            };
            let c = unit_teams.filter(|x: Team| x == side).len();
            &&& c < MAX_UNITS_PER_TEAM ==> spawn_allowed(unit_teams, team)
            &&& MAX_UNITS_PER_TEAM <= c < 0x1_0000_0000 ==> !spawn_allowed(unit_teams, team)
        }),
{
    lemma_members_counts(unit_teams, Team::Player);
    lemma_members_counts(unit_teams, Team::Enemy);
}

} // verus!
