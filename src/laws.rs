//! What holds of every tick, stated over the model of `simulation`.

use crate::colony::{without_target, Direction};
use crate::simulation::{lemma_survivor_claims, lemma_tick_settles, ticked, World};
use vstd::prelude::*;

verus! {

/// After a tick no two ants share a colony, whatever colonies they shared
/// before it.
pub proof fn lemma_tick_leaves_no_shared_colony(
    before: World,
    choices: Seq<Option<Direction>>,
    after: World,
)
    requires
        before.wf(),
        ticked(before, choices, after),
    ensures
        after.settled(),
{
    lemma_tick_settles(before, choices);
}

/// A destroyed colony stays destroyed; after a tick each destroyed colony
/// has no tunnel left and no ant in it.
pub proof fn lemma_destroyed_colony_stays_empty(
    before: World,
    choices: Seq<Option<Direction>>,
    after: World,
    c: int,
)
    requires
        before.wf(),
        ticked(before, choices, after),
        0 <= c < before.colonies.len(),
    ensures
        before.colonies[c].destroyed() ==> after.colonies[c].destroyed(),
        after.colonies[c].destroyed() ==> after.colonies[c].tunnels() == seq![
            None::<usize>,
            None,
            None,
            None,
        ],
        after.colonies[c].destroyed() ==> forall|a: int|
            0 <= a < after.ants.len() ==> (#[trigger] after.ants[a]).colony_idx != Some(
                c as usize,
            ),
{
    let none4 = seq![None::<usize>, None, None, None];
    if after.colonies[c].destroyed() && !before.fight(choices, c as usize) {
        assert(before.colonies[c].tunnels() == none4);
        assert(after.colonies[c].tunnels() =~= none4);
    }
    assert forall|a: int|
        0 <= a < after.ants.len() && after.colonies[c].destroyed() implies (
        #[trigger] after.ants[a]).colony_idx != Some(c as usize) by {
        if after.ants[a].colony_idx == Some(c as usize) {
            lemma_survivor_claims(before, choices, a);
        }
    }
}

/// Two different active ants that try to enter the same colony both die,
/// and that colony is destroyed; an ant dies only where it claimed, by
/// standing in it or by trying to enter it, a colony fought over.
pub proof fn lemma_fight_is_symmetric(
    before: World,
    choices: Seq<Option<Direction>>,
    after: World,
    a: int,
    b: int,
    l: usize,
)
    requires
        before.wf(),
        ticked(before, choices, after),
        0 <= a < before.ants.len(),
        0 <= b < before.ants.len(),
        a != b,
        before.target(choices, a) == Some(l),
        before.target(choices, b) == Some(l),
    ensures
        after.ants[a].colony_idx is None,
        after.ants[b].colony_idx is None,
        after.colonies[l as int].destroyed(),
        forall|k: int|
            0 <= k < before.ants.len() && (#[trigger] before.ants[k]).colony_idx is Some
                && after.ants[k].colony_idx is None ==> exists|x: usize|
                before.claims(choices, k, x) && before.fight(choices, x),
{
    crate::simulation::lemma_two_claimants_fight(before, choices, l, a, b);
    assert forall|k: int|
        0 <= k < before.ants.len() && (#[trigger] before.ants[k]).colony_idx is Some
            && after.ants[k].colony_idx is None implies exists|x: usize|
        before.claims(choices, k, x) && before.fight(choices, x) by {
        let here = before.ants[k].colony_idx->0;
        if before.fight(choices, here) {
            assert(before.claims(choices, k, here));
        } else {
            let t = before.target(choices, k)->0;
            assert(before.claims(choices, k, t));
        }
    }
}

/// An ant's move count grows by one in a tick where it moves and stays the
/// same in any other, so it never passes the move ceiling.
pub proof fn lemma_moves_grow_by_one_per_move(
    before: World,
    choices: Seq<Option<Direction>>,
    after: World,
    a: int,
)
    requires
        before.wf(),
        ticked(before, choices, after),
        0 <= a < before.ants.len(),
    ensures
        after.ants[a].moves == if before.target(choices, a) is Some && !before.killed(choices, a) {
            before.ants[a].moves + 1
        } else {
            before.ants[a].moves as int
        },
        before.ants[a].moves <= before.max_moves ==> after.ants[a].moves <= after.max_moves,
{
}

/// Closing the tunnels to a colony that no tunnel leads to changes nothing.
pub proof fn lemma_remove_absent_target(tunnels: Seq<Option<usize>>, target: usize)
    requires
        forall|s: int| 0 <= s < tunnels.len() ==> tunnels[s] != Some(target),
    ensures
        without_target(tunnels, target) == tunnels,
{
    assert(without_target(tunnels, target) =~= tunnels);
}

} // verus!
