//! Melee resolution: hostile units that come within attack range of each other
//! destroy each other, one pair at a time.
//!
//! Units are scanned in order. A unit that is still standing looks, among the
//! later units that are still standing, for the first hostile one within range;
//! if it finds one, both fall. Distances are measured by the caller: `in_range[i][j]`
//! says whether units `i` and `j` are close enough to fight (only `i < j` is read).
use vstd::prelude::*;
use crate::team::{Team, hostile};

verus! {

/// The shape of a range table for `n` units: `n` rows of `n` entries.
pub open spec fn square_table(t: Seq<Seq<bool>>, n: int) -> bool {
    &&& t.len() == n
    &&& forall|i: int| 0 <= i < n ==> #[trigger] t[i].len() == n
}

/// Whether unit `j` can take part in a fight with unit `i` while the casualties so far
/// are `fallen`.
pub open spec fn can_engage(
    teams: Seq<Team>,
    in_range: Seq<Seq<bool>>,
    fallen: Seq<bool>,
    i: int,
    j: int,
) -> bool {
    !fallen[j] && hostile(teams[i], teams[j]) && in_range[i][j]
}

/// The first unit at index `j` or later that unit `i` can engage.
pub open spec fn first_opponent(
    teams: Seq<Team>,
    in_range: Seq<Seq<bool>>,
    fallen: Seq<bool>,
    i: int,
    j: int,
) -> Option<int>
    decreases teams.len() - j,
{
    if j < 0 || j >= teams.len() {
        None
    } else if can_engage(teams, in_range, fallen, i, j) {
        Some(j)
    } else {
        first_opponent(teams, in_range, fallen, i, j + 1)
    }
}

/// The casualties after unit `i` has had its turn, starting from `fallen`.
pub open spec fn engage(
    teams: Seq<Team>,
    in_range: Seq<Seq<bool>>,
    fallen: Seq<bool>,
    i: int,
) -> Seq<bool> {
    if fallen[i] {
        fallen
    } else {
        match first_opponent(teams, in_range, fallen, i, i + 1) {
            Some(j) => fallen.update(i, true).update(j, true),
            None => fallen,
        }
    }
}

/// The casualties after the first `k` units have had their turn.
pub open spec fn casualties_after(teams: Seq<Team>, in_range: Seq<Seq<bool>>, k: nat) -> Seq<bool>
    decreases k,
{
    if k == 0 {
        Seq::new(teams.len(), |i: int| false)
    } else {
        engage(teams, in_range, casualties_after(teams, in_range, (k - 1) as nat), k - 1)
    }
}

/// The casualties of one round of combat among all units.
pub open spec fn casualties(teams: Seq<Team>, in_range: Seq<Seq<bool>>) -> Seq<bool> {
    casualties_after(teams, in_range, teams.len())
}

/// Looks for the first unit after `i` that unit `i` can engage.
fn find_opponent(teams: &Vec<Team>, in_range: &Vec<Vec<bool>>, fallen: &Vec<bool>, i: usize) -> (r:
    Option<usize>)
    requires
        i < teams.len(),
        fallen.len() == teams.len(),
        square_table(in_range.deep_view(), teams.len() as int),
    ensures
        r matches Some(j) ==> i < j < teams.len(),
        r matches Some(j) ==> first_opponent(
            teams@,
            in_range.deep_view(),
            fallen@,
            i as int,
            i + 1,
        ) == Some(j as int),
        r is None ==> first_opponent(teams@, in_range.deep_view(), fallen@, i as int, i + 1) is None,
        r matches Some(j) ==> !fallen@[j as int] && hostile(teams@[i as int], teams@[j as int])
            && in_range@[i as int]@[j as int],
        r matches Some(j) ==> forall|m: int|
            i < m < j ==> !(!fallen@[m] && hostile(teams@[i as int], teams@[m])
                && in_range@[i as int]@[m]),
        r is None ==> forall|m: int|
            i < m < teams.len() ==> !(!fallen@[m] && hostile(teams@[i as int], teams@[m])
                && in_range@[i as int]@[m]),
{
    let ghost table = in_range.deep_view();
    let n = teams.len();
    let mut j = i + 1;
    while j < n
        invariant
            i < j <= n,
            n == teams.len(),
            fallen.len() == n,
            table == in_range.deep_view(),
            square_table(table, n as int),
            first_opponent(teams@, table, fallen@, i as int, i + 1) == first_opponent(
                teams@,
                table,
                fallen@,
                i as int,
                j as int,
            ),
        decreases n - j,
    {
        assert(table[i as int] == in_range[i as int]@);
        if !fallen[j] && teams[i].is_enemy_of(teams[j]) && in_range[i][j] {
            proof {
                lemma_first_opponent_found(teams@, table, fallen@, i as int, i + 1);
            }
            return Some(j);
        }
        j += 1;
    }
    proof {
        lemma_first_opponent_none(teams@, table, fallen@, i as int, i + 1);
        assert(table[i as int] == in_range[i as int]@);
    }
    None
}

/// The opponent a unit `i` takes from index `j` on is the earliest one it can engage: it
/// stands at `j` or later, is standing, hostile and in range, and no unit between `j`
/// and it is all three.
pub proof fn lemma_first_opponent_found(
    teams: Seq<Team>,
    in_range: Seq<Seq<bool>>,
    fallen: Seq<bool>,
    i: int,
    j: int,
)
    ensures
        first_opponent(teams, in_range, fallen, i, j) matches Some(k) ==> {
            &&& j <= k < teams.len()
            &&& !fallen[k] && hostile(teams[i], teams[k]) && in_range[i][k]
            &&& forall|m: int|
                j <= m < k ==> !(!fallen[m] && hostile(teams[i], teams[m]) && in_range[i][m])
        },
    decreases teams.len() - j,
{
    if 0 <= j < teams.len() && !can_engage(teams, in_range, fallen, i, j) {
        lemma_first_opponent_found(teams, in_range, fallen, i, j + 1);
    }
}

/// When no opponent is found from index `j` on, no unit from `j` on can be engaged.
pub proof fn lemma_first_opponent_none(
    teams: Seq<Team>,
    in_range: Seq<Seq<bool>>,
    fallen: Seq<bool>,
    i: int,
    j: int,
)
    requires
        0 <= j,
        first_opponent(teams, in_range, fallen, i, j) is None,
    ensures
        forall|k: int|
            j <= k < teams.len() ==> !(!fallen[k] && hostile(teams[i], teams[k]) && in_range[i][k]),
    decreases teams.len() - j,
{
    if j < teams.len() {
        lemma_first_opponent_none(teams, in_range, fallen, i, j + 1);
    }
}

/// One round of combat: which units fall. Entry `i` of the result is true when unit `i`
/// falls, exactly as `casualties` describes.
pub fn combat_casualties(teams: &Vec<Team>, in_range: &Vec<Vec<bool>>) -> (fallen: Vec<bool>)
    requires
        square_table(in_range.deep_view(), teams.len() as int),
    ensures
        fallen@ == casualties(teams@, in_range.deep_view()),
{
    let ghost table = in_range.deep_view();
    let n = teams.len();
    let mut fallen: Vec<bool> = vec![false; n];
    assert(fallen@ =~= casualties_after(teams@, table, 0));
    let mut i: usize = 0;
    while i < n
        invariant
            i <= n,
            n == teams.len(),
            table == in_range.deep_view(),
            square_table(table, n as int),
            fallen@ == casualties_after(teams@, table, i as nat),
            fallen.len() == n,
        decreases n - i,
    {
        if !fallen[i] {
            match find_opponent(teams, in_range, &fallen, i) {
                Some(j) => {
                    fallen.set(i, true);
                    fallen.set(j, true);
                },
                None => {},
            }
        }
        i += 1;
    }
    fallen
}

/// Whether units `x` and `y` are within range of each other; the table is read with the
/// lower index first.
pub open spec fn within_range(in_range: Seq<Seq<bool>>, x: int, y: int) -> bool {
    if x < y {
        in_range[x][y]
    } else {
        in_range[y][x]
    }
}

/// Unit `y` is a fallen, hostile unit within range of unit `x`: a unit `x` can have
/// fallen fighting.
pub open spec fn fell_with(
    teams: Seq<Team>,
    in_range: Seq<Seq<bool>>,
    fallen: Seq<bool>,
    x: int,
    y: int,
) -> bool {
    &&& 0 <= y < teams.len()
    &&& y != x
    &&& fallen[y]
    &&& hostile(teams[x], teams[y])
    &&& within_range(in_range, x, y)
}

/// Every fallen unit fell together with some hostile unit within its range.
pub open spec fn all_paired(teams: Seq<Team>, in_range: Seq<Seq<bool>>, fallen: Seq<bool>) -> bool {
    forall|x: int|
        0 <= x < teams.len() && #[trigger] fallen[x] ==> exists|y: int|
            fell_with(teams, in_range, fallen, x, y)
}

/// Among the first `k` units, none is left standing next to a standing hostile unit
/// within its range.
pub open spec fn settled_below(
    teams: Seq<Team>,
    in_range: Seq<Seq<bool>>,
    fallen: Seq<bool>,
    k: int,
) -> bool {
    forall|x: int, y: int|
        0 <= x < k && x < y < teams.len() && !#[trigger] fallen[x] && !#[trigger] fallen[y]
            ==> !(hostile(teams[x], teams[y]) && in_range[x][y])
}

/// The number of `true` entries.
pub open spec fn count_true(s: Seq<bool>) -> nat
    decreases s.len(),
{
    if s.len() == 0 {
        0
    } else {
        count_true(s.drop_last()) + if s.last() {
            1nat
        } else {
            0nat
        }
    }
}

proof fn lemma_count_true_set(s: Seq<bool>, i: int)
    requires
        0 <= i < s.len(),
        !s[i],
    ensures
        count_true(s.update(i, true)) == count_true(s) + 1,
    decreases s.len(),
{
    let t = s.update(i, true);
    if i < s.len() - 1 {
        assert(t.drop_last() =~= s.drop_last().update(i, true));
        lemma_count_true_set(s.drop_last(), i);
    } else {
        assert(t.drop_last() =~= s.drop_last());
    }
}

proof fn lemma_casualties_after_inv(teams: Seq<Team>, in_range: Seq<Seq<bool>>, k: nat)
    requires
        k <= teams.len(),
    ensures
        casualties_after(teams, in_range, k).len() == teams.len(),
        all_paired(teams, in_range, casualties_after(teams, in_range, k)),
        settled_below(teams, in_range, casualties_after(teams, in_range, k), k as int),
        count_true(casualties_after(teams, in_range, k)) % 2 == 0,
    decreases k,
{
    let n = teams.len() as int;
    if k == 0 {
        let f = casualties_after(teams, in_range, 0);
        assert(f =~= Seq::new(teams.len(), |i: int| false));
        assert forall|m: nat| m <= n implies #[trigger] count_true(f.subrange(0, m as int)) == 0 by {
            lemma_count_false_prefix(f, m);
        }
        assert(f.subrange(0, n) =~= f);
        assert(count_true(f.subrange(0, n)) == 0);
    } else {
        let i = k - 1;
        lemma_casualties_after_inv(teams, in_range, (k - 1) as nat);
        let f = casualties_after(teams, in_range, (k - 1) as nat);
        let g = casualties_after(teams, in_range, k);
        assert(g == engage(teams, in_range, f, i));
        if f[i] {
            assert(g == f);
        } else {
            lemma_first_opponent_found(teams, in_range, f, i, i + 1);
            match first_opponent(teams, in_range, f, i, i + 1) {
                Some(j) => {
                    let f1 = f.update(i, true);
                    assert(g == f1.update(j, true));
                    assert forall|x: int| 0 <= x < n && #[trigger] g[x] implies exists|y: int|
                        fell_with(teams, in_range, g, x, y) by {
                        if x == i {
                            assert(fell_with(teams, in_range, g, x, j));
                        } else if x == j {
                            assert(fell_with(teams, in_range, g, x, i));
                        } else {
                            assert(f[x]);
                            let y = choose|y: int| fell_with(teams, in_range, f, x, y);
                            assert(fell_with(teams, in_range, g, x, y));
                        }
                    }
                    assert forall|x: int, y: int|
                        0 <= x < k && x < y < n && !#[trigger] g[x] && !#[trigger] g[y] implies !(
                        hostile(teams[x], teams[y]) && in_range[x][y]) by {
                        assert(!f[x] && !f[y]);
                    }
                    lemma_count_true_set(f, i);
                    lemma_count_true_set(f1, j);
                },
                None => {
                    assert(g == f);
                    lemma_first_opponent_none(teams, in_range, f, i, i + 1);
                    assert forall|x: int, y: int|
                        0 <= x < k && x < y < n && !#[trigger] g[x] && !#[trigger] g[y] implies !(
                        hostile(teams[x], teams[y]) && in_range[x][y]) by {
                        if x == i {
                            assert(!can_engage(teams, in_range, f, i, y));
                        }
                    }
                },
            }
        }
    }
}

proof fn lemma_count_false_prefix(f: Seq<bool>, m: nat)
    requires
        m <= f.len(),
        forall|i: int| 0 <= i < f.len() ==> !f[i],
    ensures
        count_true(f.subrange(0, m as int)) == 0,
    decreases m,
{
    if m > 0 {
        lemma_count_false_prefix(f, (m - 1) as nat);
        assert(f.subrange(0, m as int).drop_last() =~= f.subrange(0, m - 1));
    }
}

/// Units fall in pairs: every unit that falls in a round of combat fell together with a
/// hostile unit within its range that also fell.
pub proof fn lemma_casualties_paired(teams: Seq<Team>, in_range: Seq<Seq<bool>>)
    ensures
        forall|x: int|
            0 <= x < teams.len() && #[trigger] casualties(teams, in_range)[x] ==> exists|y: int|
                fell_with(teams, in_range, casualties(teams, in_range), x, y),
{
    lemma_casualties_after_inv(teams, in_range, teams.len());
}

/// After a round of combat no fight is left over: no two standing units are hostile and
/// within range of each other.
pub proof fn lemma_no_fight_left(teams: Seq<Team>, in_range: Seq<Seq<bool>>)
    ensures
        forall|x: int, y: int|
            0 <= x < y < teams.len() && !#[trigger] casualties(teams, in_range)[x]
                && !#[trigger] casualties(teams, in_range)[y] ==> !(hostile(teams[x], teams[y])
                && in_range[x][y]),
{
    lemma_casualties_after_inv(teams, in_range, teams.len());
}

/// Casualties come two at a time: their number is even.
pub proof fn lemma_casualties_even(teams: Seq<Team>, in_range: Seq<Seq<bool>>)
    ensures
        count_true(casualties(teams, in_range)) % 2 == 0,
{
    lemma_casualties_after_inv(teams, in_range, teams.len());
}

/// Neutral units never fall in combat.
pub proof fn lemma_neutral_units_survive(teams: Seq<Team>, in_range: Seq<Seq<bool>>)
    ensures
        forall|x: int|
            0 <= x < teams.len() && teams[x] == Team::Neutral ==> !#[trigger] casualties(
                teams,
                in_range,
            )[x],
{
    lemma_casualties_after_inv(teams, in_range, teams.len());
}

/// How combat unfolds, stated without the helper specs: before anyone's turn nobody has
/// fallen; at unit `k`'s turn, a fallen unit does nothing, a standing unit with no
/// standing hostile unit in range after it does nothing, and otherwise it falls together
/// with the earliest such unit `m` and nothing else changes.
pub proof fn lemma_turn_takes_earliest_opponent(
    teams: Seq<Team>,
    in_range: Seq<Seq<bool>>,
    k: nat,
    m: int,
)
    requires
        k < teams.len(),
    ensures
        casualties_after(teams, in_range, 0) =~= Seq::new(teams.len(), |x: int| false),
        ({
            let f = casualties_after(teams, in_range, k);
            let g = casualties_after(teams, in_range, k + 1);
            &&& f[k as int] ==> g == f
            &&& !f[k as int] && (forall|x: int|
                k < x < teams.len() ==> !(!f[x] && hostile(teams[k as int], teams[x])
                    && in_range[k as int][x])) ==> g == f
            &&& !f[k as int] && k < m < teams.len() && !f[m] && hostile(teams[k as int], teams[m])
                && in_range[k as int][m] && (forall|x: int|
                k < x < m ==> !(!f[x] && hostile(teams[k as int], teams[x])
                    && in_range[k as int][x])) ==> g == f.update(k as int, true).update(m, true)
        }),
{
    let f = casualties_after(teams, in_range, k);
    let g = casualties_after(teams, in_range, (k + 1) as nat);
    assert(g == engage(teams, in_range, f, k as int));
    lemma_first_opponent_found(teams, in_range, f, k as int, k + 1int);
    match first_opponent(teams, in_range, f, k as int, k + 1int) {
        Some(j) => {
            if !f[k as int] && k < m < teams.len() && !f[m] && hostile(teams[k as int], teams[m])
                && in_range[k as int][m] && (forall|x: int|
                k < x < m ==> !(!f[x] && hostile(teams[k as int], teams[x])
                    && in_range[k as int][x])) {
                if j < m {
                    assert(!(!f[j] && hostile(teams[k as int], teams[j]) && in_range[k as int][j]));
                }
                assert(j == m);
            }
        },
        None => {
            lemma_first_opponent_none(teams, in_range, f, k as int, k + 1int);
        },
    }
}

} // verus!
