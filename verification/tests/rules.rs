use game::combat::combat_casualties;
use game::game::{
    count_inside, count_team, first_index_of, held_by, pick_node_index, spawn_grants, Game,
    MAX_UNITS_PER_TEAM, MATCH_SEED,
};
use game::hello::HelloNode;
use game::input::{InputMode, PointerAction};
use game::map_node::MapNode;
use game::rng::Lcg;
use game::team::Team;
use game::team::Team::{Enemy, Neutral, Player};
use game::unit::{TickStep, Unit, UnitState};

// ---------------------------------------------------------------------------
// Greeting
// ---------------------------------------------------------------------------

#[test]
fn greet_format() {
    let greeting = "Hello from Rust!";
    let name = "world";
    let node = HelloNode { greeting: greeting.to_string() };
    let result = node.greet(name);
    assert_eq!(result, "Hello from Rust! Nice to meet you, world.");
}

#[test]
fn default_greeting() {
    let node = HelloNode::new();
    assert_eq!(node.greeting, "Hello from Rust!");
    assert_eq!(node.greet("Ada"), "Hello from Rust! Nice to meet you, Ada.");
}

// ---------------------------------------------------------------------------
// Teams
// ---------------------------------------------------------------------------

#[test]
fn hostility_table() {
    assert!(Player.is_enemy_of(Enemy));
    assert!(Enemy.is_enemy_of(Player));
    assert!(!Player.is_enemy_of(Player));
    assert!(!Enemy.is_enemy_of(Enemy));
    for t in [Player, Enemy, Neutral] {
        assert!(!Neutral.is_enemy_of(t));
        assert!(!t.is_enemy_of(Neutral));
        for u in [Player, Enemy, Neutral] {
            assert_eq!(t.is_enemy_of(u), u.is_enemy_of(t));
        }
    }
}

// ---------------------------------------------------------------------------
// Combat
// ---------------------------------------------------------------------------

fn table(n: usize, pairs: &[(usize, usize)]) -> Vec<Vec<bool>> {
    let mut t = vec![vec![false; n]; n];
    for &(i, j) in pairs {
        t[i][j] = true;
        t[j][i] = true;
    }
    t
}

#[test]
fn hostile_pair_in_range_falls() {
    let teams = vec![Team::Player, Team::Enemy];
    assert_eq!(combat_casualties(&teams, &table(2, &[(0, 1)])), vec![true, true]);
    assert_eq!(combat_casualties(&teams, &table(2, &[])), vec![false, false]);
}

#[test]
fn friends_and_neutrals_do_not_fight() {
    let teams = vec![Team::Player, Team::Player, Team::Neutral, Team::Enemy];
    let t = table(4, &[(0, 1), (1, 2), (2, 3)]);
    assert_eq!(combat_casualties(&teams, &t), vec![false, false, false, false]);
}

#[test]
fn each_unit_fights_once_first_opponent_first() {
    // Player 0 is in range of enemies 1 and 2; it takes the first, 2 survives.
    let teams = vec![Team::Player, Team::Enemy, Team::Enemy];
    let t = table(3, &[(0, 1), (0, 2)]);
    assert_eq!(combat_casualties(&teams, &t), vec![true, true, false]);
}

#[test]
fn later_units_pair_among_survivors() {
    // 0 takes 1; 2 is then free to take 3 even though 1 was also in its range.
    let teams = vec![Team::Player, Team::Enemy, Team::Player, Team::Enemy, Team::Player];
    let t = table(5, &[(0, 1), (1, 2), (2, 3), (3, 4)]);
    let fallen = combat_casualties(&teams, &t);
    assert_eq!(fallen, vec![true, true, true, true, false]);
    assert_eq!(fallen.iter().filter(|f| **f).count() % 2, 0);
}

#[test]
fn only_upper_triangle_is_read() {
    let teams = vec![Team::Player, Team::Enemy];
    let mut t = vec![vec![false; 2]; 2];
    t[1][0] = true;
    assert_eq!(combat_casualties(&teams, &t), vec![false, false]);
}

// ---------------------------------------------------------------------------
// Units
// ---------------------------------------------------------------------------

#[test]
fn new_unit_is_neutral_and_drifting() {
    let u = Unit::new((0, 0));
    assert_eq!(u.team, Team::Neutral);
    assert_eq!(u.state, UnitState::Drifting);
    assert_eq!(u.destination, (0, 0));
    assert!(u.pursue_target_id.is_none());
    assert!(!u.dead);
}

#[test]
fn station_sets_team_and_anchor() {
    let mut u = Unit::new((0, 0));
    u.station(Team::Enemy, (5, 6));
    assert_eq!(u.team, Team::Enemy);
    assert_eq!(u.state, UnitState::Drifting);
    assert_eq!(u.drift_anchor, (5, 6));
    assert_eq!(u.drift_target, (5, 6));
}

#[test]
fn moving_unit_arrives_and_drifts_around_destination() {
    let mut u = Unit::new((0, 0));
    u.send_to((10, 20));
    assert_eq!(u.state, UnitState::Moving);
    assert_eq!(u.tick(false), TickStep::Advance);
    assert_eq!(u.state, UnitState::Moving);
    assert_eq!(u.tick(true), TickStep::Arrived);
    assert_eq!(u.state, UnitState::Drifting);
    assert_eq!(u.drift_anchor, (10, 20));
    assert_eq!(u.drift_target, (10, 20));
    assert_eq!(u.tick(true), TickStep::Drift);
}

#[test]
fn dead_units_report_death() {
    let mut u = Unit::new((1, 1));
    u.die();
    assert!(u.dead);
    assert_eq!(u.state, UnitState::Dead);
    assert_eq!(u.tick(false), TickStep::Died);

    let mut v = Unit::new((1, 1));
    v.state = UnitState::Dead;
    assert_eq!(v.tick(false), TickStep::Died);
    assert!(v.dead);
}

#[test]
fn send_to_drops_pursuit() {
    let mut u = Unit::new((0, 0));
    u.pursue_target_id = Some(7);
    u.state = UnitState::Pursuing;
    u.send_to((3, 3));
    assert_eq!(u.state, UnitState::Moving);
    assert!(u.pursue_target_id.is_none());
    assert_eq!(u.destination, (3, 3));
}

#[test]
fn pursuit_starts_follows_and_stops() {
    let mut u = Unit::new((0, 0));
    assert!(!u.pursue(Some((4, 4)), (0, 0)));
    assert_eq!(u.state, UnitState::Pursuing);
    assert_eq!(u.destination, (4, 4));
    assert_eq!(u.tick(false), TickStep::Pursue);
    assert!(!u.pursue(Some((5, 5)), (1, 1)));
    assert_eq!(u.destination, (5, 5));
    assert!(u.pursue(None, (2, 2)));
    assert_eq!(u.state, UnitState::Drifting);
    assert_eq!(u.drift_anchor, (2, 2));
    assert_eq!(u.drift_target, (2, 2));
    // A marching unit ignores nearby enemies.
    u.send_to((9, 9));
    assert!(!u.pursue(Some((1, 1)), (2, 2)));
    assert_eq!(u.state, UnitState::Moving);
    assert_eq!(u.destination, (9, 9));
}

#[test]
fn enemy_commander_reassigns_idle_enemies_only() {
    let mut u = Unit::new((0, 0));
    u.station(Team::Enemy, (0, 0));
    assert!(u.awaits_enemy_orders());
    u.send_to((1, 1));
    assert!(u.awaits_enemy_orders());
    u.state = UnitState::Pursuing;
    assert!(!u.awaits_enemy_orders());
    u.die();
    assert!(!u.awaits_enemy_orders());
    let mut p = Unit::new((0, 0));
    p.station(Team::Player, (0, 0));
    assert!(!p.awaits_enemy_orders());
}

// ---------------------------------------------------------------------------
// Map nodes
// ---------------------------------------------------------------------------

#[test]
fn capture_flips_to_the_completing_side() {
    let mut n = MapNode::new();
    assert_eq!(n.team, Team::Neutral);
    assert!(!n.produces_units());
    assert_eq!(n.tick_capture(false, false), None);
    assert_eq!(n.tick_capture(true, false), Some(Team::Player));
    assert_eq!(n.team, Team::Player);
    assert!(n.produces_units());
    // Already the player's: reaching the player's end changes nothing.
    assert_eq!(n.tick_capture(true, false), None);
    assert_eq!(n.tick_capture(false, true), Some(Team::Enemy));
    assert_eq!(n.team, Team::Enemy);
    assert_eq!(n.tick_capture(false, true), None);
}

#[test]
fn capture_prefers_player_when_both_ends_reported() {
    let mut n = MapNode::new();
    assert_eq!(n.tick_capture(true, true), Some(Team::Player));
    assert_eq!(n.tick_capture(true, true), Some(Team::Enemy));
}

// ---------------------------------------------------------------------------
// Random source
// ---------------------------------------------------------------------------

#[test]
fn lcg_sequence_from_match_seed() {
    let mut g = Lcg::new(12345);
    assert_eq!(g.next_bits(), 235318264);
    assert_eq!(g.state, 2021368500568277588);
    assert_eq!(g.next_bits(), 569910583);
    assert_eq!(g.next_bits(), 1901863042);
    assert_eq!(g.state, 16336879138292273062);
}

#[test]
fn same_seed_same_draws() {
    let mut a = Lcg::new(99);
    let mut b = Lcg::new(99);
    for _ in 0..100 {
        assert_eq!(a.next_bits(), b.next_bits());
    }
}

// ---------------------------------------------------------------------------
// Match state
// ---------------------------------------------------------------------------

#[test]
fn new_match_state() {
    let mut g: Game<(i32, i32)> = Game::new();
    assert_eq!(g.rng.state, MATCH_SEED);
    assert!(g.selected.is_empty());
    assert!(matches!(g.input_mode, InputMode::Idle));
    assert!(!g.is_over());
    assert_eq!(g.next_bits(), 235318264);
}

#[test]
fn win_when_one_side_holds_everything() {
    let mut g: Game<(i32, i32)> = Game::new();
    g.check_win(&vec![Player, Enemy, Neutral]);
    assert_eq!(g.winner, None);
    g.check_win(&vec![Enemy, Enemy]);
    assert_eq!(g.winner, Some(Enemy));
    assert!(g.is_over());
    // Decided for good.
    g.check_win(&vec![Player, Player]);
    assert_eq!(g.winner, Some(Enemy));

    let mut h: Game<(i32, i32)> = Game::new();
    h.check_win(&vec![Player, Player, Player]);
    assert_eq!(h.winner, Some(Player));
    let mut e: Game<(i32, i32)> = Game::new();
    e.check_win(&vec![Neutral, Neutral]);
    assert_eq!(e.winner, None);
}

#[test]
fn select_living_player_units_in_area() {
    let mut g: Game<(i32, i32)> = Game::new();
    let teams = vec![Player, Enemy, Player, Player, Player];
    let dead = vec![false, false, true, false, false];
    let inside = vec![true, true, true, false, true];
    g.select_units_in_circle(&teams, &dead, &inside);
    assert_eq!(g.selected, vec![0, 4]);
    let taken = g.take_selection();
    assert_eq!(taken, vec![0, 4]);
    assert!(g.selected.is_empty());
    assert!(g.take_selection().is_empty());
}

#[test]
fn press_and_release_is_a_tap() {
    let mut g: Game<(i32, i32)> = Game::new();
    assert!(matches!(g.handle_mouse_button(true, true, (3, 4)), PointerAction::Nothing));
    assert!(matches!(g.input_mode, InputMode::PressDown { origin: (3, 4) }));
    g.handle_mouse_motion((5, 5), false);
    assert!(matches!(g.input_mode, InputMode::PressDown { origin: (3, 4) }));
    assert!(matches!(g.handle_mouse_button(true, false, (9, 9)), PointerAction::Tap((3, 4))));
    assert!(matches!(g.input_mode, InputMode::Idle));
}

#[test]
fn drag_selects_circle() {
    let mut g: Game<(i32, i32)> = Game::new();
    g.handle_mouse_button(true, true, (0, 0));
    g.handle_mouse_motion((50, 0), true);
    assert!(matches!(
        g.input_mode,
        InputMode::Dragging { origin: (0, 0), current: (50, 0) }
    ));
    g.handle_mouse_motion((60, 10), false);
    let act = g.handle_mouse_button(true, false, (61, 11));
    assert!(matches!(
        act,
        PointerAction::SelectCircle { origin: (0, 0), current: (60, 10) }
    ));
    assert!(matches!(g.input_mode, InputMode::Idle));
}

#[test]
fn other_buttons_and_idle_release_do_nothing() {
    let mut g: Game<(i32, i32)> = Game::new();
    assert!(matches!(g.handle_mouse_button(false, true, (1, 1)), PointerAction::Nothing));
    assert!(matches!(g.input_mode, InputMode::Idle));
    assert!(matches!(g.handle_mouse_button(true, false, (1, 1)), PointerAction::Nothing));
    g.handle_mouse_motion((100, 100), true);
    assert!(matches!(g.input_mode, InputMode::Idle));
}

#[test]
fn culling_keeps_order_and_clears_selection() {
    let mut g: Game<(i32, i32)> = Game::new();
    g.selected = vec![1, 3];
    let mut units = vec!['a', 'b', 'c', 'd', 'e'];
    let removed = g.cull_dead(&mut units, &vec![false, true, false, true, true]);
    assert_eq!(units, vec!['a', 'c']);
    assert_eq!(removed, vec!['b', 'd', 'e']);
    assert!(g.selected.is_empty());

    g.selected = vec![0];
    let removed = g.cull_dead(&mut units, &vec![false, false]);
    assert!(removed.is_empty());
    assert_eq!(units, vec!['a', 'c']);
    assert_eq!(g.selected, vec![0]);
}

#[test]
fn counting_teams() {
    let teams = vec![Player, Enemy, Player, Neutral, Enemy, Player];
    assert_eq!(count_team(&teams, Player), 3);
    assert_eq!(count_team(&teams, Enemy), 2);
    assert_eq!(count_team(&teams, Neutral), 1);
    let inside = vec![true, true, false, true, false, true];
    assert_eq!(count_inside(&teams, &inside), (2, 1));
    assert_eq!(count_inside(&vec![], &vec![]), (0, 0));
}

#[test]
fn production_respects_cap_counted_before_the_frame() {
    let mut units = vec![Player; MAX_UNITS_PER_TEAM as usize];
    units.push(Enemy);
    let granted = spawn_grants(&vec![Player, Enemy, Enemy], &units);
    assert_eq!(granted, vec![false, true, true]);
    units.pop();
    units.pop();
    assert_eq!(spawn_grants(&vec![Player, Player], &units), vec![true, true]);
    assert!(spawn_grants(&vec![], &units).is_empty());
}

#[test]
fn first_node_of_each_side() {
    let teams = vec![Neutral, Enemy, Player, Enemy];
    assert_eq!(first_index_of(&teams, Player), Some(2));
    assert_eq!(first_index_of(&teams, Enemy), Some(1));
    assert_eq!(first_index_of(&vec![Player], Enemy), None);
}

#[test]
fn node_index_is_clamped() {
    assert_eq!(pick_node_index(0, 4), 0);
    assert_eq!(pick_node_index(3, 4), 3);
    assert_eq!(pick_node_index(4, 4), 3);
    assert_eq!(pick_node_index(usize::MAX, 1), 0);
}

#[test]
fn points_held_by_a_side() {
    let points = vec![(0, 0), (1, 1), (2, 2), (3, 3)];
    let owners = vec![Enemy, Player, Enemy, Neutral];
    assert_eq!(held_by(&points, &owners, Enemy), vec![(0, 0), (2, 2)]);
    assert_eq!(held_by(&points, &owners, Player), vec![(1, 1)]);
    assert!(held_by(&points, &owners, Neutral) == vec![(3, 3)]);
    assert!(held_by(&Vec::<(i32, i32)>::new(), &vec![], Enemy).is_empty());
}
