use crate::colony::{direction_at, open_directions, without_target, Colony, Direction};
use crate::random::{draw_below, fresh_seed, seeded_rng};
use vstd::prelude::*;

verus! {

broadcast use vstd::seq_lib::lemma_seq_contains_after_push;

/// Moves an ant may make before it stops taking part.
pub const MAX_MOVES: u32 = 10000;

/// Ticks a run may last.
pub const MAX_STEPS: u32 = 100000;

/// Why a simulation could not be built or could not go on.
#[derive(Debug, PartialEq, Eq, Structural)]
pub enum SimulationError {
    /// The map holds no colony.
    NoColonies,
    /// No ant was asked for.
    NoAnts,
    /// A tunnel leads to this index, which names no colony.
    InvalidColony(usize),
}

/// How a run ended.
#[derive(Debug, Clone, Copy, PartialEq, Eq, Structural)]
pub enum RunOutcome {
    /// No ant was left that could still move.
    Concluded,
    /// The step ceiling was reached while some ant could still move.
    StoppedEarly,
}

/// A fight: the colony it destroyed, and every ant that claimed that colony
/// and died in it, in index order.
#[derive(Debug)]
pub struct Fight {
    pub colony: usize,
    pub ants: Vec<usize>,
}

/// A list of fights seen as plain values.
pub open spec fn log_view(log: Seq<Fight>) -> Seq<(usize, Seq<usize>)> {
    log.map_values(|f: Fight| (f.colony, f.ants@))
}

/// `after` is the fight log `before` with the fights of a tick added, where
/// the tick succeeded and `debug` is set: one entry for each colony fought
/// over, in some order, with all the ants that claimed it.
pub open spec fn logged(
    before: Seq<(usize, Seq<usize>)>,
    w: World,
    choices: Seq<Option<Direction>>,
    debug: bool,
    r: Result<(), SimulationError>,
    after: Seq<(usize, Seq<usize>)>,
) -> bool {
    if r is Ok && debug {
        exists|gone: Seq<usize>|
            {
                &&& gone.no_duplicates()
                &&& forall|x: usize| #[trigger]
                    gone.contains(x) <==> x < w.colonies.len() && w.fight(choices, x)
                &&& after == before + gone.map_values(
                    |l: usize| (l, w.claimants(choices, l, w.ants.len() as int)),
                )
            }
    } else {
        after == before
    }
}

/// An ant: how often it has moved, and where it is (`None` once it has died).
#[derive(Debug, Clone, Copy, PartialEq, Eq, Structural)]
pub struct Ant {
    pub moves: u32,
    pub colony_idx: Option<usize>,
}

/// The state a tick reads and writes: the colonies, the ants, and the move
/// ceiling of every ant.
pub struct World {
    pub colonies: Seq<Colony>,
    pub ants: Seq<Ant>,
    pub max_moves: u32,
}

impl World {
    /// An ant takes part while it is alive and under the move ceiling.
    pub open spec fn active(self, a: int) -> bool {
        &&& self.ants[a].colony_idx is Some
        &&& self.ants[a].moves < self.max_moves
    }

    /// Some ant is active.
    pub open spec fn any_active(self) -> bool {
        exists|a: int| 0 <= a < self.ants.len() && self.active(a)
    }

    /// Where the tunnel chosen for ant `a` leads, if it is active and a
    /// direction was chosen for it.
    pub open spec fn heading(self, choices: Seq<Option<Direction>>, a: int) -> Option<usize> {
        if self.active(a) && choices[a] is Some {
            self.colonies[self.ants[a].colony_idx->0 as int].tunnels()[choices[a]->0.index()]
        } else {
            None
        }
    }

    /// Some chosen tunnel leads to an index that names no colony.
    pub open spec fn bad_heading(self, choices: Seq<Option<Direction>>) -> bool {
        exists|a: int|
            0 <= a < self.ants.len() && (#[trigger] self.heading(choices, a) matches Some(t) && t
                >= self.colonies.len())
    }

    /// The colony ant `a` tries to enter this tick: its heading, unless that
    /// colony is already destroyed.
    pub open spec fn target(self, choices: Seq<Option<Direction>>, a: int) -> Option<usize> {
        match self.heading(choices, a) {
            Some(t) => if t < self.colonies.len() && !self.colonies[t as int].destroyed() {
                Some(t)
            } else {
                None
            },
            None => None,
        }
    }

    /// Ant `a` lays claim to colony `l` this tick: it is there, or it tries
    /// to enter it.
    pub open spec fn claims(self, choices: Seq<Option<Direction>>, a: int, l: usize) -> bool {
        self.ants[a].colony_idx == Some(l) || self.target(choices, a) == Some(l)
    }

    /// The ants below `k` that claim colony `l`, in index order.
    pub open spec fn claimants(self, choices: Seq<Option<Direction>>, l: usize, k: int) -> Seq<
        usize,
    >
        decreases k,
    {
        if k <= 0 {
            Seq::empty()
        } else if self.claims(choices, k - 1, l) {
            self.claimants(choices, l, k - 1).push((k - 1) as usize)
        } else {
            self.claimants(choices, l, k - 1)
        }
    }

    /// Two or more ants claim colony `l`: they fight there and destroy it.
    pub open spec fn fight(self, choices: Seq<Option<Direction>>, l: usize) -> bool {
        self.claimants(choices, l, self.ants.len() as int).len() >= 2
    }

    /// Ant `a` takes part in a fight, where it is or where it goes.
    pub open spec fn killed(self, choices: Seq<Option<Direction>>, a: int) -> bool {
        &&& self.ants[a].colony_idx matches Some(l)
        &&& (self.fight(choices, l) || (self.target(choices, a) matches Some(t) && self.fight(
            choices,
            t,
        )))
    }

    /// Ant `a` once the tick is over.
    pub open spec fn ant_after(self, choices: Seq<Option<Direction>>, a: int) -> Ant {
        if self.killed(choices, a) {
            Ant { moves: self.ants[a].moves, colony_idx: None }
        } else if let Some(t) = self.target(choices, a) {
            Ant { moves: (self.ants[a].moves + 1) as u32, colony_idx: Some(t) }
        } else {
            self.ants[a]
        }
    }

    /// The tunnels of colony `c` once the tick is over: none where it was
    /// destroyed, else those that do not lead to a colony destroyed now.
    pub open spec fn tunnels_after(self, choices: Seq<Option<Direction>>, c: int) -> Seq<
        Option<usize>,
    > {
        if self.fight(choices, c as usize) {
            seq![None::<usize>, None, None, None]
        } else {
            self.colonies[c].tunnels().map_values(
                |t: Option<usize>|
                    if t matches Some(x) && self.fight(choices, x) {
                        None
                    } else {
                        t
                    },
            )
        }
    }

    /// The state is one a simulation can be in between ticks.
    pub open spec fn wf(self) -> bool {
        &&& self.ants.len() <= usize::MAX
        &&& self.colonies.len() <= usize::MAX
        &&& forall|c: int| 0 <= c < self.colonies.len() ==> (#[trigger] self.colonies[c]).wf()
        &&& forall|c: int|
            0 <= c < self.colonies.len() ==> (#[trigger] self.colonies[c]).tunnels().len() == 4
        &&& forall|a: int|
            0 <= a < self.ants.len() && (#[trigger] self.ants[a]).colony_idx is Some ==> {
                let l = self.ants[a].colony_idx->0;
                l < self.colonies.len() && !self.colonies[l as int].destroyed()
            }
        &&& forall|c: int|
            0 <= c < self.colonies.len() && (#[trigger] self.colonies[c]).destroyed() ==> self.colonies[c].tunnels()
                == seq![None::<usize>, None, None, None]
        &&& forall|c: int, s: int|
            0 <= c < self.colonies.len() && 0 <= s < 4 && (
            #[trigger] self.colonies[c].tunnels()[s]) is Some ==> {
                let x = self.colonies[c].tunnels()[s]->0;
                x < self.colonies.len() ==> !self.colonies[x as int].destroyed()
            }
        &&& forall|c: int|
            0 <= c < self.colonies.len() && (#[trigger] self.colonies[c]).resident() is Some ==> {
                let r = self.colonies[c].resident()->0;
                r < self.ants.len() && self.ants[r as int].colony_idx == Some(c as usize)
            }
        &&& forall|a: int|
            0 <= a < self.ants.len() && (#[trigger] self.ants[a]).colony_idx is Some
                ==> self.colonies[self.ants[a].colony_idx->0 as int].resident() is Some
    }

    /// Each colony records as its resident exactly the ant standing in it.
    pub open spec fn residents_exact(self) -> bool {
        &&& forall|c: int|
            0 <= c < self.colonies.len() && (#[trigger] self.colonies[c]).resident() is Some ==> {
                let r = self.colonies[c].resident()->0;
                r < self.ants.len() && self.ants[r as int].colony_idx == Some(c as usize)
            }
        &&& forall|a: int|
            0 <= a < self.ants.len() && (#[trigger] self.ants[a]).colony_idx is Some
                ==> self.colonies[self.ants[a].colony_idx->0 as int].resident() == Some(a as usize)
    }

    /// No two ants share a colony.
    pub open spec fn settled(self) -> bool {
        forall|a: int, b: int|
            0 <= a < self.ants.len() && 0 <= b < self.ants.len() && a != b && (
            #[trigger] self.ants[a]).colony_idx is Some ==> (#[trigger] self.ants[b]).colony_idx
                != self.ants[a].colony_idx
    }

    /// The directions chosen for a tick are ones a draw can give: none for an
    /// ant that does not take part, one with a tunnel otherwise, and one
    /// wherever its colony has a tunnel at all.
    pub open spec fn fair_choices(self, choices: Seq<Option<Direction>>) -> bool {
        &&& choices.len() == self.ants.len()
        &&& forall|a: int|
            0 <= a < self.ants.len() ==> match #[trigger] choices[a] {
                Some(d) => self.active(a) && self.colonies[self.ants[a].colony_idx->0 as int].tunnels()[d.index()] is Some,
                None => !self.active(a) || open_directions(
                    self.colonies[self.ants[a].colony_idx->0 as int].tunnels(),
                ).len() == 0,
            }
    }
}

/// The last ant below `k` placed in colony `c`.
pub open spec fn last_at(positions: Seq<usize>, c: usize, k: int) -> Option<usize>
    decreases k,
{
    if k <= 0 {
        None
    } else if positions[k - 1] == c {
        Some((k - 1) as usize)
    } else {
        last_at(positions, c, k - 1)
    }
}

/// `w` is the state a simulation starts in: the given colonies, intact and
/// with their tunnels and names, ant `i` in colony `positions[i]` with no
/// move made yet, each colony recording as its resident the last ant placed
/// in it, and the default move ceiling.
pub open spec fn starts_from(colonies: Seq<Colony>, positions: Seq<usize>, w: World) -> bool {
    &&& w.wf()
    &&& w.max_moves == MAX_MOVES
    &&& w.colonies.len() == colonies.len()
    &&& w.ants.len() == positions.len()
    &&& forall|c: int|
        0 <= c < colonies.len() ==> {
            &&& (#[trigger] w.colonies[c]).tunnels() == colonies[c].tunnels()
            &&& w.colonies[c].spec_name() == colonies[c].spec_name()
            &&& !w.colonies[c].destroyed()
            &&& w.colonies[c].resident() == last_at(positions, c as usize, positions.len() as int)
        }
    &&& forall|i: int|
        0 <= i < positions.len() ==> #[trigger] w.ants[i] == (Ant {
            moves: 0,
            colony_idx: Some(positions[i]),
        })
}

/// What a constructor that places `num_ants` ants at random returns: the
/// error for an empty map or for no ants, else a fresh simulation with each
/// ant in some colony of the map.
pub open spec fn created(
    colonies: Seq<Colony>,
    num_ants: usize,
    debug: bool,
    r: Result<Simulation, SimulationError>,
) -> bool {
    &&& colonies.len() == 0 <==> r == Err::<Simulation, SimulationError>(
        SimulationError::NoColonies,
    )
    &&& colonies.len() > 0 && num_ants == 0 <==> r == Err::<Simulation, SimulationError>(
        SimulationError::NoAnts,
    )
    &&& r is Ok <==> colonies.len() > 0 && num_ants > 0
    &&& r matches Ok(sim) ==> {
        &&& sim.wf()
        &&& sim.steps_taken() == 0
        &&& sim.step_limit() == MAX_STEPS
        &&& sim.verbose() == debug
        &&& exists|positions: Seq<usize>|
            positions.len() == num_ants && (forall|i: int|
                0 <= i < num_ants ==> #[trigger] positions[i] < colonies.len()) && starts_from(
                colonies,
                positions,
                sim.world(),
            )
    }
}

/// What a tick with the directions `choices` makes of `before`: `after` and
/// the result `r` are as `apply_tick` gives them.
pub open spec fn tick_outcome(
    before: World,
    choices: Seq<Option<Direction>>,
    after: World,
    r: Result<(), SimulationError>,
) -> bool {
    &&& before.fair_choices(choices)
    &&& r is Ok <==> !before.bad_heading(choices)
    &&& r matches Err(e) ==> e matches SimulationError::InvalidColony(t) && exists|a: int|
        0 <= a < before.ants.len() && before.heading(choices, a) == Some(t) && t
            >= before.colonies.len()
    &&& r is Err ==> after == before
    &&& r is Ok ==> ticked(before, choices, after) && after.settled()
}

/// The report lines of the tunnels in the first `k` slots of colony `c`:
/// the direction's label and the name of the colony it leads to.
pub open spec fn tunnel_lines(colonies: Seq<Colony>, c: int, k: int) -> Seq<(Seq<char>, Seq<char>)>
    decreases k,
{
    if k <= 0 {
        Seq::empty()
    } else {
        let before = tunnel_lines(colonies, c, k - 1);
        match colonies[c].tunnels()[k - 1] {
            Some(x) => before.push((direction_at(k - 1).label(), colonies[x as int].spec_name()@)),
            None => before,
        }
    }
}

/// The report of the first `k` colonies: name and tunnel lines of each one
/// not destroyed.
pub open spec fn topology(colonies: Seq<Colony>, k: int) -> Seq<
    (Seq<char>, Seq<(Seq<char>, Seq<char>)>),
>
    decreases k,
{
    if k <= 0 {
        Seq::empty()
    } else if colonies[k - 1].destroyed() {
        topology(colonies, k - 1)
    } else {
        topology(colonies, k - 1).push(
            (colonies[k - 1].spec_name()@, tunnel_lines(colonies, k - 1, 4)),
        )
    }
}

/// A report seen as text.
pub open spec fn report_view(r: Seq<(String, Vec<(String, String)>)>) -> Seq<
    (Seq<char>, Seq<(Seq<char>, Seq<char>)>),
> {
    r.map_values(
        |e: (String, Vec<(String, String)>)|
            (e.0@, e.1@.map_values(|p: (String, String)| (p.0@, p.1@))),
    )
}

/// A colony that is not destroyed has a tunnel to an index that names no
/// colony.
pub open spec fn broken_tunnel(colonies: Seq<Colony>) -> bool {
    exists|c: int, s: int|
        0 <= c < colonies.len() && 0 <= s < 4 && !colonies[c].destroyed() && (
        #[trigger] colonies[c].tunnels()[s] matches Some(x) && x >= colonies.len())
}

/// `after` follows from `before` by `k` ticks, each taken while some ant
/// was active, with directions drawn as `step` draws them, and none failing.
pub open spec fn run_of(before: World, after: World, k: nat) -> bool
    decreases k,
{
    if k == 0 {
        after == before
    } else {
        exists|mid: World, choices: Seq<Option<Direction>>|
            {
                &&& run_of(before, mid, (k - 1) as nat)
                &&& mid.any_active()
                &&& mid.fair_choices(choices)
                &&& !mid.bad_heading(choices)
                &&& #[trigger] ticked(mid, choices, after)
            }
    }
}

/// `after` is what one tick makes of `before` with the directions `choices`.
pub open spec fn ticked(before: World, choices: Seq<Option<Direction>>, after: World) -> bool {
    &&& after.max_moves == before.max_moves
    &&& after.ants.len() == before.ants.len()
    &&& after.colonies.len() == before.colonies.len()
    &&& after.residents_exact()
    &&& forall|a: int| 0 <= a < before.ants.len() ==> after.ants[a] == before.ant_after(choices, a)
    &&& forall|c: int|
        0 <= c < before.colonies.len() ==> {
            &&& (#[trigger] after.colonies[c]).tunnels() == before.tunnels_after(choices, c)
            &&& after.colonies[c].destroyed() == (before.colonies[c].destroyed() || before.fight(
                choices,
                c as usize,
            ))
            &&& after.colonies[c].spec_name() == before.colonies[c].spec_name()
        }
}

/// At most two: enough to tell one claimant from a fight.
pub open spec fn up_to_two(n: nat) -> u8 {
    if n >= 2 {
        2
    } else {
        n as u8
    }
}

/// The tunnels left once every one that leads into `gone` is closed.
pub open spec fn cut(tunnels: Seq<Option<usize>>, gone: Seq<usize>) -> Seq<Option<usize>> {
    tunnels.map_values(|t: Option<usize>| if t matches Some(x) && gone.contains(x) { None } else { t })
}

/// Counts one more claim on colony `x`, noting it for destruction on the
/// second.
fn bump(claims: &mut Vec<u8>, to_destroy: &mut Vec<usize>, x: usize)
    requires
        x < old(claims).len(),
        old(claims)@[x as int] <= 2,
    ensures
        final(claims)@ == old(claims)@.update(
            x as int,
            if old(claims)@[x as int] >= 2 {
                2u8
            } else {
                (old(claims)@[x as int] + 1) as u8
            },
        ),
        final(to_destroy)@ == if old(claims)@[x as int] == 1 {
            old(to_destroy)@.push(x)
        } else {
            old(to_destroy)@
        },
{
    let c = claims[x];
    if c == 0 {
        claims[x] = 1;
    } else if c == 1 {
        claims[x] = 2;
        to_destroy.push(x);
    }
}

proof fn lemma_push_fresh(s: Seq<usize>, x: usize)
    requires
        s.no_duplicates(),
        !s.contains(x),
    ensures
        s.push(x).no_duplicates(),
{
    assert forall|i: int, j: int|
        0 <= i < s.len() + 1 && 0 <= j < s.len() + 1 && i != j implies s.push(x)[i] != s.push(x)[j] by {
        if i == s.len() {
            assert(s.contains(s[j]));
        } else if j == s.len() {
            assert(s.contains(s[i]));
        }
    }
}

proof fn lemma_claimants_step(w: World, choices: Seq<Option<Direction>>, l: usize, k: int)
    requires
        k >= 0,
    ensures
        w.claimants(choices, l, k + 1) == if w.claims(choices, k, l) {
            w.claimants(choices, l, k).push(k as usize)
        } else {
            w.claimants(choices, l, k)
        },
{
}

pub(crate) proof fn lemma_claimants_contain(
    w: World,
    choices: Seq<Option<Direction>>,
    l: usize,
    k: int,
    a: int,
)
    requires
        0 <= a < k <= usize::MAX,
        w.claims(choices, a, l),
    ensures
        w.claimants(choices, l, k).contains(a as usize),
    decreases k,
{
    if a < k - 1 {
        lemma_claimants_contain(w, choices, l, k - 1, a);
        let s = w.claimants(choices, l, k - 1);
        let i = choose|i: int| 0 <= i < s.len() && s[i] == a as usize;
        if w.claims(choices, k - 1, l) {
            assert(s.push((k - 1) as usize)[i] == a as usize);
        }
    } else {
        let s = w.claimants(choices, l, k - 1);
        assert(s.push(a as usize)[s.len() as int] == a as usize);
    }
}

/// Two different ants that both claim `l` make a fight there.
pub(crate) proof fn lemma_two_claimants_fight(w: World, choices: Seq<Option<Direction>>, l: usize, a: int, b: int)
    requires
        w.ants.len() <= usize::MAX,
        0 <= a < w.ants.len(),
        0 <= b < w.ants.len(),
        a != b,
        w.claims(choices, a, l),
        w.claims(choices, b, l),
    ensures
        w.fight(choices, l),
{
    let n = w.ants.len() as int;
    lemma_claimants_contain(w, choices, l, n, a);
    lemma_claimants_contain(w, choices, l, n, b);
    let s = w.claimants(choices, l, n);
    if s.len() < 2 {
        let i = choose|i: int| 0 <= i < s.len() && s[i] == a as usize;
        let j = choose|j: int| 0 <= j < s.len() && s[j] == b as usize;
        assert(i == 0 && j == 0);
    }
}

/// In a well-formed state only colonies of the map can be claimed.
proof fn lemma_no_claims_off_map(w: World, choices: Seq<Option<Direction>>, l: usize, k: int)
    requires
        w.wf(),
        0 <= k <= w.ants.len(),
        l >= w.colonies.len(),
    ensures
        w.claimants(choices, l, k).len() == 0,
    decreases k,
{
    if k > 0 {
        lemma_no_claims_off_map(w, choices, l, k - 1);
        assert(w.ants[k - 1].colony_idx is Some ==> w.ants[k - 1].colony_idx->0 < w.colonies.len());
    }
}

/// A run of the ants over a map of colonies.
pub struct Simulation {
    colonies: Vec<Colony>,
    ants: Vec<Ant>,
    /// Scratch, per ant: the colony it tries to enter this tick.
    targets: Vec<Option<usize>>,
    /// Scratch, per colony: how many ants claim it this tick, up to two.
    claims: Vec<u8>,
    /// Scratch: the colonies fought over this tick.
    colonies_to_destroy: Vec<usize>,
    /// Scratch: the direction drawn for each ant this tick.
    choices: Vec<Option<Direction>>,
    /// The fights seen, while `debug` is set.
    fights: Vec<Fight>,
    step_count: u32,
    max_moves: u32,
    max_steps: u32,
    debug: bool,
    rng: rand::rngs::SmallRng,
}

impl Simulation {
    /// The colonies, the ants and the move ceiling.
    pub closed spec fn world(&self) -> World {
        World { colonies: self.colonies@, ants: self.ants@, max_moves: self.max_moves }
    }

    /// The number of ticks run so far.
    pub closed spec fn steps_taken(&self) -> u32 {
        self.step_count
    }

    /// The step ceiling.
    pub closed spec fn step_limit(&self) -> u32 {
        self.max_steps
    }

    /// Whether fights are recorded.
    pub closed spec fn verbose(&self) -> bool {
        self.debug
    }

    /// The fights recorded so far: each colony fought over, with the ants
    /// that claimed it.
    pub closed spec fn fight_log(&self) -> Seq<(usize, Seq<usize>)> {
        log_view(self.fights@)
    }

    /// The state is well formed, the scratch space is sized to it and the
    /// claim counts are cleared, and the step ceiling has not been passed.
    pub closed spec fn wf(&self) -> bool {
        &&& self.world().wf()
        &&& self.targets@.len() == self.ants@.len()
        &&& self.claims@.len() == self.colonies@.len()
        &&& forall|x: int| 0 <= x < self.claims@.len() ==> #[trigger] self.claims@[x] == 0
        &&& self.step_count <= self.max_steps
    }

    /// Builds a simulation that starts with ant `i` in colony `positions[i]`,
    /// every colony intact and otherwise empty.
    fn build(
        colonies: Vec<Colony>,
        positions: &Vec<usize>,
        rng: rand::rngs::SmallRng,
        debug: bool,
    ) -> (r: Simulation)
        requires
            forall|c: int| 0 <= c < colonies@.len() ==> (#[trigger] colonies@[c]).wf(),
            forall|i: int| 0 <= i < positions@.len() ==> #[trigger] positions@[i] < colonies@.len(),
        ensures
            r.wf(),
            r.steps_taken() == 0,
            r.step_limit() == MAX_STEPS,
            r.verbose() == debug,
            starts_from(colonies@, positions@, r.world()),
    {
        let ghost given = colonies@;
        let mut colonies = colonies;
        let ncol = colonies.len();
        let n = positions.len();
        let mut c: usize = 0;
        while c < ncol
            invariant
                ncol == colonies@.len(),
                ncol == given.len(),
                c <= ncol,
                forall|k: int|
                    0 <= k < ncol ==> {
                        let now = #[trigger] colonies@[k];
                        let before = given[k];
                        &&& now.wf()
                        &&& now.tunnels() == before.tunnels()
                        &&& now.spec_name() == before.spec_name()
                        &&& k < c ==> now.resident() is None && !now.destroyed()
                    },
            decreases ncol - c,
        {
            colonies[c].set_ant(None);
            colonies[c].set_destroyed(false);
            c = c + 1;
        }
        let mut ants: Vec<Ant> = Vec::with_capacity(n);
        let mut i: usize = 0;
        while i < n
            invariant
                ncol == colonies@.len(),
                ncol == given.len(),
                n == positions@.len(),
                i <= n,
                ants@.len() == i,
                forall|k: int| 0 <= k < n ==> #[trigger] positions@[k] < ncol,
                forall|k: int|
                    0 <= k < i ==> #[trigger] ants@[k] == (Ant {
                        moves: 0,
                        colony_idx: Some(positions@[k]),
                    }),
                forall|k: int|
                    0 <= k < ncol ==> {
                        let now = #[trigger] colonies@[k];
                        let before = given[k];
                        &&& now.wf()
                        &&& now.tunnels() == before.tunnels()
                        &&& now.spec_name() == before.spec_name()
                        &&& !now.destroyed()
                        &&& now.resident() == last_at(positions@, k as usize, i as int)
                        &&& now.resident() matches Some(r) ==> r < i && ants@[r as int].colony_idx
                            == Some(k as usize)
                    },
                forall|k: int|
                    0 <= k < i ==> (#[trigger] colonies@[positions@[k] as int]).resident() is Some,
            decreases n - i,
        {
            let p = positions[i];
            colonies[p].set_ant(Some(i));
            ants.push(Ant { moves: 0, colony_idx: Some(p) });
            i = i + 1;
        }
        let mut targets: Vec<Option<usize>> = Vec::with_capacity(n);
        let mut choices: Vec<Option<Direction>> = Vec::with_capacity(n);
        let mut j: usize = 0;
        while j < n
            invariant
                j <= n,
                targets@.len() == j,
            decreases n - j,
        {
            targets.push(None);
            j = j + 1;
        }
        let mut claims: Vec<u8> = Vec::with_capacity(ncol);
        let mut k: usize = 0;
        while k < ncol
            invariant
                k <= ncol,
                claims@.len() == k,
                forall|x: int| 0 <= x < k ==> #[trigger] claims@[x] == 0,
            decreases ncol - k,
        {
            claims.push(0);
            k = k + 1;
        }
        let sim = Simulation {
            colonies,
            ants,
            targets,
            claims,
            colonies_to_destroy: Vec::new(),
            choices,
            fights: Vec::new(),
            step_count: 0,
            max_moves: MAX_MOVES,
            max_steps: MAX_STEPS,
            debug,
            rng,
        };
        proof {
            assert forall|c: int| 0 <= c < ncol implies (#[trigger] sim.colonies@[c]).tunnels().len() == 4 by {
                sim.colonies@[c].lemma_four_slots();
            }
        }
        sim
    }

    /// A well-formed simulation holds a well-formed state.
    pub proof fn lemma_wf(&self)
        requires
            self.wf(),
        ensures
            self.world().wf(),
    {
    }

    /// Works out, for every ant, the colony it tries to enter; fails on a
    /// tunnel to an index that names no colony.
    fn find_targets(&mut self, choices: &Vec<Option<Direction>>) -> (r: Result<
        (),
        SimulationError,
    >)
        requires
            old(self).wf(),
            choices@.len() == old(self).ants@.len(),
        ensures
            final(self).wf(),
            final(self).world() == old(self).world(),
            final(self).claims == old(self).claims,
            final(self).colonies_to_destroy == old(self).colonies_to_destroy,
            final(self).step_count == old(self).step_count,
            final(self).max_steps == old(self).max_steps,
            final(self).debug == old(self).debug,
            final(self).fights == old(self).fights,
            r is Ok <==> !old(self).world().bad_heading(choices@),
            r is Ok ==> forall|a: int|
                0 <= a < final(self).ants@.len() ==> #[trigger] final(self).targets@[a]
                    == old(self).world().target(choices@, a),
            r matches Err(e) ==> e matches SimulationError::InvalidColony(t) && exists|a: int|
                0 <= a < old(self).ants@.len() && old(self).world().heading(choices@, a) == Some(t)
                    && t >= old(self).colonies@.len(),
    {
        let ghost w = self.world();
        let n = self.ants.len();
        let ncol = self.colonies.len();
        let mut a: usize = 0;
        while a < n
            invariant
                self.wf(),
                self.world() == w,
                w == old(self).world(),
                n == self.ants@.len(),
                ncol == self.colonies@.len(),
                choices@.len() == n,
                a <= n,
                self.claims == old(self).claims,
                self.colonies_to_destroy == old(self).colonies_to_destroy,
                self.step_count == old(self).step_count,
                self.max_steps == old(self).max_steps,
                self.debug == old(self).debug,
                self.fights == old(self).fights,
                forall|b: int| 0 <= b < a ==> #[trigger] self.targets@[b] == w.target(choices@, b),
                forall|b: int|
                    0 <= b < a ==> !(#[trigger] w.heading(choices@, b) matches Some(t) && t >= ncol),
            decreases n - a,
        {
            let mut found: Option<usize> = None;
            let ant = self.ants[a];
            if let Some(l) = ant.colony_idx {
                if ant.moves < self.max_moves {
                    if let Some(d) = choices[a] {
                        if let Some(t) = self.colonies[l].get_target_colony(&d) {
                            if t >= ncol {
                                assert(w.heading(choices@, a as int) == Some(t));
                                return Err(SimulationError::InvalidColony(t));
                            }
                            if !self.colonies[t].is_destroyed() {
                                found = Some(t);
                            }
                        }
                    }
                }
            }
            assert(found == w.target(choices@, a as int));
            self.targets[a] = found;
            a = a + 1;
        }
        Ok(())
    }

    /// Counts, for every colony, the ants that claim it this tick (up to two),
    /// and lists the colonies that two or more claim.
    fn count_claims(&mut self, Ghost(choices): Ghost<Seq<Option<Direction>>>)
        requires
            old(self).wf(),
            choices.len() == old(self).ants@.len(),
            forall|a: int|
                0 <= a < old(self).ants@.len() ==> #[trigger] old(self).targets@[a]
                    == old(self).world().target(choices, a),
        ensures
            final(self).world() == old(self).world(),
            final(self).targets == old(self).targets,
            final(self).step_count == old(self).step_count,
            final(self).max_steps == old(self).max_steps,
            final(self).debug == old(self).debug,
            final(self).fights == old(self).fights,
            final(self).claims@.len() == final(self).colonies@.len(),
            forall|x: int|
                0 <= x < final(self).claims@.len() ==> #[trigger] final(self).claims@[x]
                    == up_to_two(old(self).world().claimants(choices, x as usize, old(self).ants@.len() as int).len()),
            forall|x: usize|
                #[trigger] final(self).colonies_to_destroy@.contains(x) <==> x
                    < final(self).colonies@.len() && old(self).world().fight(choices, x),
            final(self).colonies_to_destroy@.no_duplicates(),
            final(self).fights == old(self).fights,
    {
        let ghost w = self.world();
        let n = self.ants.len();
        let ncol = self.colonies.len();
        self.colonies_to_destroy.clear();
        let mut a: usize = 0;
        while a < n
            invariant
                self.world() == w,
                w == old(self).world(),
                w.wf(),
                n == self.ants@.len(),
                ncol == self.colonies@.len(),
                self.claims@.len() == ncol,
                self.targets@.len() == n,
                choices.len() == n,
                a <= n,
                self.targets == old(self).targets,
                self.step_count == old(self).step_count,
                self.max_steps == old(self).max_steps,
                self.debug == old(self).debug,
                self.fights == old(self).fights,
                forall|b: int| 0 <= b < n ==> #[trigger] self.targets@[b] == w.target(choices, b),
                forall|x: int|
                    0 <= x < ncol ==> #[trigger] self.claims@[x] == up_to_two(
                        w.claimants(choices, x as usize, a as int).len(),
                    ),
                forall|x: usize|
                    #[trigger] self.colonies_to_destroy@.contains(x) <==> x < ncol
                        && w.claimants(choices, x, a as int).len() >= 2,
                self.colonies_to_destroy@.no_duplicates(),
                self.fights == old(self).fights,
            decreases n - a,
        {
            let ghost before_claims = self.claims@;
            let ghost before_list = self.colonies_to_destroy@;
            let ant = self.ants[a];
            let tgt = self.targets[a];
            if let Some(l) = ant.colony_idx {
                bump(&mut self.claims, &mut self.colonies_to_destroy, l);
                proof {
                    if before_claims[l as int] == 1 {
                        lemma_push_fresh(before_list, l);
                    }
                }
                if let Some(t) = tgt {
                    if t != l {
                        let ghost mid_list = self.colonies_to_destroy@;
                        bump(&mut self.claims, &mut self.colonies_to_destroy, t);
                        proof {
                            if before_claims[t as int] == 1 {
                                lemma_push_fresh(mid_list, t);
                            }
                        }
                    }
                }
            }
            proof {
                assert forall|x: int| 0 <= x < ncol implies #[trigger] self.claims@[x] == up_to_two(
                    w.claimants(choices, x as usize, a + 1).len(),
                ) by {
                    lemma_claimants_step(w, choices, x as usize, a as int);
                }
                assert forall|x: usize|
                    #[trigger] self.colonies_to_destroy@.contains(x) <==> x < ncol
                        && w.claimants(choices, x, a + 1).len() >= 2 by {
                    lemma_claimants_step(w, choices, x, a as int);
                    if x >= ncol {
                        lemma_no_claims_off_map(w, choices, x, a + 1);
                    }
                }
            }
            a = a + 1;
        }
    }

    /// Destroys every colony listed in `colonies_to_destroy`: marks it, closes
    /// its own tunnels, and closes every tunnel of the map that leads into it.
    fn destroy_fought(&mut self)
        requires
            forall|c: int|
                0 <= c < old(self).colonies@.len() ==> (#[trigger] old(self).colonies@[c]).wf()
                    && old(self).colonies@[c].tunnels().len() == 4,
            forall|j: int|
                0 <= j < old(self).colonies_to_destroy@.len()
                    ==> #[trigger] old(self).colonies_to_destroy@[j] < old(self).colonies@.len(),
        ensures
            final(self).colonies@.len() == old(self).colonies@.len(),
            forall|c: int|
                0 <= c < final(self).colonies@.len() ==> {
                    let gone = old(self).colonies_to_destroy@;
                    let before = old(self).colonies@[c];
                    let after = #[trigger] final(self).colonies@[c];
                    &&& after.wf()
                    &&& after.tunnels() == if gone.contains(c as usize) {
                        seq![None::<usize>, None, None, None]
                    } else {
                        cut(before.tunnels(), gone)
                    }
                    &&& after.destroyed() == (before.destroyed() || gone.contains(c as usize))
                    &&& after.resident() == before.resident()
                    &&& after.spec_name() == before.spec_name()
                },
            final(self).ants == old(self).ants,
            final(self).targets == old(self).targets,
            final(self).claims == old(self).claims,
            final(self).colonies_to_destroy == old(self).colonies_to_destroy,
            final(self).step_count == old(self).step_count,
            final(self).max_steps == old(self).max_steps,
            final(self).max_moves == old(self).max_moves,
            final(self).debug == old(self).debug,
            final(self).fights == old(self).fights,
    {
        let ghost start = self.colonies@;
        let ghost gone = self.colonies_to_destroy@;
        let ncol = self.colonies.len();
        let count = self.colonies_to_destroy.len();
        let mut j: usize = 0;
        while j < count
            invariant
                ncol == self.colonies@.len(),
                ncol == start.len(),
                count == gone.len(),
                self.colonies_to_destroy == old(self).colonies_to_destroy,
                j <= count,
                forall|k: int| 0 <= k < count ==> #[trigger] gone[k] < ncol,
                forall|c: int|
                    0 <= c < ncol ==> {
                        let done = gone.take(j as int);
                        let before = start[c];
                        let now = #[trigger] self.colonies@[c];
                        &&& now.wf()
                        &&& now.tunnels() == if done.contains(c as usize) {
                            seq![None::<usize>, None, None, None]
                        } else {
                            cut(before.tunnels(), done)
                        }
                        &&& now.destroyed() == (before.destroyed() || done.contains(c as usize))
                        &&& now.resident() == before.resident()
                        &&& now.spec_name() == before.spec_name()
                    },
                forall|c: int| 0 <= c < ncol ==> (#[trigger] start[c]).tunnels().len() == 4,
                start == old(self).colonies@,
                gone == old(self).colonies_to_destroy@,
                self.ants == old(self).ants,
                self.targets == old(self).targets,
                self.claims == old(self).claims,
                self.step_count == old(self).step_count,
                self.max_steps == old(self).max_steps,
                self.max_moves == old(self).max_moves,
                self.debug == old(self).debug,
                self.fights == old(self).fights,
            decreases count - j,
        {
            let l = self.colonies_to_destroy[j];
            let ghost done = gone.take(j as int);
            let ghost next = gone.take(j as int + 1);
            assert(next == done.push(l));
            self.colonies[l].set_destroyed(true);
            self.colonies[l].clear_tunnels();
            let mut c: usize = 0;
            while c < ncol
                invariant
                    ncol == self.colonies@.len(),
                    ncol == start.len(),
                    l < ncol,
                    c <= ncol,
                    next == done.push(l),
                    forall|k: int|
                        0 <= k < ncol ==> {
                            let before = start[k];
                            let now = #[trigger] self.colonies@[k];
                            let seen = if k < c { next } else { done };
                            &&& now.wf()
                            &&& now.tunnels() == if k == l {
                                seq![None::<usize>, None, None, None]
                            } else if done.contains(k as usize) {
                                seq![None::<usize>, None, None, None]
                            } else {
                                cut(before.tunnels(), seen)
                            }
                            &&& now.destroyed() == (before.destroyed() || next.contains(k as usize))
                            &&& now.resident() == before.resident()
                            &&& now.spec_name() == before.spec_name()
                        },
                    forall|k: int| 0 <= k < ncol ==> (#[trigger] start[k]).tunnels().len() == 4,
                    self.colonies_to_destroy == old(self).colonies_to_destroy,
                    self.ants == old(self).ants,
                    self.targets == old(self).targets,
                    self.claims == old(self).claims,
                    self.step_count == old(self).step_count,
                    self.max_steps == old(self).max_steps,
                    self.max_moves == old(self).max_moves,
                    self.debug == old(self).debug,
                    self.fights == old(self).fights,
                decreases ncol - c,
            {
                let ghost prev = self.colonies@[c as int].tunnels();
                self.colonies[c].remove_tunnel_to(l);
                proof {
                    let before = start[c as int].tunnels();
                    if c != l && !done.contains(c) {
                        assert(without_target(cut(before, done), l) =~= cut(before, next));
                    } else {
                        assert(without_target(prev, l) =~= prev);
                    }
                }
                c = c + 1;
            }
            j = j + 1;
        }
        assert(gone.take(count as int) =~= gone);
    }

    /// Empties every colony that an ant lives in.
    fn clear_residents(&mut self)
        requires
            forall|c: int| 0 <= c < old(self).colonies@.len() ==> (#[trigger] old(self).colonies@[c]).wf(),
            forall|a: int|
                0 <= a < old(self).ants@.len() && (#[trigger] old(self).ants@[a]).colony_idx is Some
                    ==> old(self).ants@[a].colony_idx->0 < old(self).colonies@.len(),
            forall|c: int|
                0 <= c < old(self).colonies@.len() && (#[trigger] old(self).colonies@[c]).resident() is Some ==> {
                    let r = old(self).colonies@[c].resident()->0;
                    r < old(self).ants@.len() && old(self).ants@[r as int].colony_idx == Some(c as usize)
                },
        ensures
            final(self).colonies@.len() == old(self).colonies@.len(),
            forall|c: int|
                0 <= c < final(self).colonies@.len() ==> {
                    let before = old(self).colonies@[c];
                    let after = #[trigger] final(self).colonies@[c];
                    &&& after.wf()
                    &&& after.resident() is None
                    &&& after.tunnels() == before.tunnels()
                    &&& after.destroyed() == before.destroyed()
                    &&& after.spec_name() == before.spec_name()
                },
            final(self).ants == old(self).ants,
            final(self).targets == old(self).targets,
            final(self).claims == old(self).claims,
            final(self).colonies_to_destroy == old(self).colonies_to_destroy,
            final(self).step_count == old(self).step_count,
            final(self).max_steps == old(self).max_steps,
            final(self).max_moves == old(self).max_moves,
            final(self).debug == old(self).debug,
            final(self).fights == old(self).fights,
    {
        let ghost start = self.colonies@;
        let n = self.ants.len();
        let ncol = self.colonies.len();
        let mut a: usize = 0;
        while a < n
            invariant
                n == self.ants@.len(),
                ncol == self.colonies@.len(),
                ncol == start.len(),
                a <= n,
                start == old(self).colonies@,
                forall|b: int|
                    0 <= b < n && (#[trigger] self.ants@[b]).colony_idx is Some
                        ==> self.ants@[b].colony_idx->0 < ncol,
                forall|c: int|
                    0 <= c < ncol ==> {
                        let before = start[c];
                        let now = #[trigger] self.colonies@[c];
                        &&& now.wf()
                        &&& now.resident() matches Some(r) ==> a <= r < n
                            && self.ants@[r as int].colony_idx == Some(c as usize)
                        &&& now.tunnels() == before.tunnels()
                        &&& now.destroyed() == before.destroyed()
                        &&& now.spec_name() == before.spec_name()
                    },
                self.ants == old(self).ants,
                self.targets == old(self).targets,
                self.claims == old(self).claims,
                self.colonies_to_destroy == old(self).colonies_to_destroy,
                self.step_count == old(self).step_count,
                self.max_steps == old(self).max_steps,
                self.max_moves == old(self).max_moves,
                self.debug == old(self).debug,
                self.fights == old(self).fights,
            decreases n - a,
        {
            if let Some(l) = self.ants[a].colony_idx {
                self.colonies[l].set_ant(None);
            }
            a = a + 1;
        }
    }

    /// Moves, kills or leaves each ant as the tick decides, and empties the
    /// claim counts again.
    fn move_ants(&mut self, Ghost(w): Ghost<World>, Ghost(choices): Ghost<Seq<Option<Direction>>>)
        requires
            w.wf(),
            choices.len() == w.ants.len(),
            old(self).ants@ == w.ants,
            old(self).max_moves == w.max_moves,
            old(self).colonies@.len() == w.colonies.len(),
            old(self).targets@.len() == w.ants.len(),
            old(self).claims@.len() == w.colonies.len(),
            forall|a: int| 0 <= a < w.ants.len() ==> #[trigger] old(self).targets@[a] == w.target(choices, a),
            forall|c: int|
                0 <= c < w.colonies.len() ==> (#[trigger] old(self).colonies@[c]).destroyed() == (
                w.colonies[c].destroyed() || w.fight(choices, c as usize)),
            forall|x: int|
                0 <= x < w.colonies.len() ==> #[trigger] old(self).claims@[x] == up_to_two(
                    w.claimants(choices, x as usize, w.ants.len() as int).len(),
                ),
        ensures
            forall|a: int| 0 <= a < w.ants.len() ==> #[trigger] final(self).ants@[a] == w.ant_after(choices, a),
            final(self).ants@.len() == w.ants.len(),
            final(self).claims@.len() == w.colonies.len(),
            forall|x: int| 0 <= x < w.colonies.len() ==> #[trigger] final(self).claims@[x] == 0,
            final(self).colonies == old(self).colonies,
            final(self).targets == old(self).targets,
            final(self).colonies_to_destroy == old(self).colonies_to_destroy,
            final(self).step_count == old(self).step_count,
            final(self).max_steps == old(self).max_steps,
            final(self).max_moves == old(self).max_moves,
            final(self).debug == old(self).debug,
            final(self).fights == old(self).fights,
    {
        let n = self.ants.len();
        let ncol = self.colonies.len();
        let mut a: usize = 0;
        while a < n
            invariant
                w.wf(),
                choices.len() == n,
                n == self.ants@.len(),
                n == w.ants.len(),
                ncol == self.colonies@.len(),
                ncol == w.colonies.len(),
                self.targets@.len() == n,
                self.claims@.len() == ncol,
                a <= n,
                self.max_moves == w.max_moves,
                forall|b: int| 0 <= b < n ==> #[trigger] self.targets@[b] == w.target(choices, b),
                forall|c: int|
                    0 <= c < ncol ==> (#[trigger] self.colonies@[c]).destroyed() == (
                    w.colonies[c].destroyed() || w.fight(choices, c as usize)),
                forall|b: int| 0 <= b < a ==> #[trigger] self.ants@[b] == w.ant_after(choices, b),
                forall|b: int| a <= b < n ==> #[trigger] self.ants@[b] == w.ants[b],
                forall|x: int|
                    0 <= x < ncol ==> #[trigger] self.claims@[x] == if w.claimants(
                        choices,
                        x as usize,
                        a as int,
                    ).len() > 0 {
                        0
                    } else {
                        up_to_two(w.claimants(choices, x as usize, n as int).len())
                    },
                self.colonies == old(self).colonies,
                self.targets == old(self).targets,
                self.colonies_to_destroy == old(self).colonies_to_destroy,
                self.step_count == old(self).step_count,
                self.max_steps == old(self).max_steps,
                self.debug == old(self).debug,
                self.fights == old(self).fights,
            decreases n - a,
        {
            let ant = self.ants[a];
            let tgt = self.targets[a];
            proof {
                assert forall|x: int| 0 <= x < ncol implies #[trigger] w.claimants(
                    choices,
                    x as usize,
                    a + 1,
                ).len() > 0 <==> (w.claimants(choices, x as usize, a as int).len() > 0 || w.claims(
                    choices,
                    a as int,
                    x as usize,
                )) by {
                    lemma_claimants_step(w, choices, x as usize, a as int);
                }
            }
            if let Some(l) = ant.colony_idx {
                self.claims[l] = 0;
                let dies = if self.colonies[l].is_destroyed() {
                    true
                } else if let Some(t) = tgt {
                    self.colonies[t].is_destroyed()
                } else {
                    false
                };
                if let Some(t) = tgt {
                    self.claims[t] = 0;
                }
                if dies {
                    self.ants[a] = Ant { moves: ant.moves, colony_idx: None };
                } else if let Some(t) = tgt {
                    self.ants[a] = Ant { moves: ant.moves + 1, colony_idx: Some(t) };
                }
            }
            a = a + 1;
        }
        proof {
            assert forall|x: int| 0 <= x < ncol implies #[trigger] self.claims@[x] == 0 by {
                if w.claimants(choices, x as usize, n as int).len() == 0 {
                }
            }
        }
    }

    /// Records each living ant as the resident of its colony.
    fn place_residents(&mut self)
        requires
            forall|c: int|
                0 <= c < old(self).colonies@.len() ==> (#[trigger] old(self).colonies@[c]).wf()
                    && old(self).colonies@[c].resident() is None,
            forall|a: int|
                0 <= a < old(self).ants@.len() && (#[trigger] old(self).ants@[a]).colony_idx is Some
                    ==> old(self).ants@[a].colony_idx->0 < old(self).colonies@.len(),
            (World { colonies: old(self).colonies@, ants: old(self).ants@, max_moves: 0 }).settled(),
        ensures
            final(self).colonies@.len() == old(self).colonies@.len(),
            forall|c: int|
                0 <= c < final(self).colonies@.len() ==> {
                    let before = old(self).colonies@[c];
                    let after = #[trigger] final(self).colonies@[c];
                    &&& after.wf()
                    &&& after.tunnels() == before.tunnels()
                    &&& after.destroyed() == before.destroyed()
                    &&& after.spec_name() == before.spec_name()
                    &&& after.resident() matches Some(r) ==> r < final(self).ants@.len()
                        && final(self).ants@[r as int].colony_idx == Some(c as usize)
                },
            forall|a: int|
                0 <= a < final(self).ants@.len() && (#[trigger] final(self).ants@[a]).colony_idx is Some
                    ==> final(self).colonies@[final(self).ants@[a].colony_idx->0 as int].resident()
                    == Some(a as usize),
            final(self).ants == old(self).ants,
            final(self).targets == old(self).targets,
            final(self).claims == old(self).claims,
            final(self).colonies_to_destroy == old(self).colonies_to_destroy,
            final(self).step_count == old(self).step_count,
            final(self).max_steps == old(self).max_steps,
            final(self).max_moves == old(self).max_moves,
            final(self).debug == old(self).debug,
            final(self).fights == old(self).fights,
    {
        let ghost start = self.colonies@;
        let n = self.ants.len();
        let ncol = self.colonies.len();
        let mut a: usize = 0;
        while a < n
            invariant
                n == self.ants@.len(),
                ncol == self.colonies@.len(),
                ncol == start.len(),
                a <= n,
                start == old(self).colonies@,
                (World { colonies: start, ants: self.ants@, max_moves: 0 }).settled(),
                forall|b: int|
                    0 <= b < n && (#[trigger] self.ants@[b]).colony_idx is Some
                        ==> self.ants@[b].colony_idx->0 < ncol,
                forall|c: int|
                    0 <= c < ncol ==> {
                        let before = start[c];
                        let now = #[trigger] self.colonies@[c];
                        &&& now.wf()
                        &&& now.resident() matches Some(r) ==> r < a
                            && self.ants@[r as int].colony_idx == Some(c as usize)
                        &&& now.tunnels() == before.tunnels()
                        &&& now.destroyed() == before.destroyed()
                        &&& now.spec_name() == before.spec_name()
                    },
                forall|b: int|
                    0 <= b < a && (#[trigger] self.ants@[b]).colony_idx is Some
                        ==> self.colonies@[self.ants@[b].colony_idx->0 as int].resident() == Some(b as usize),
                self.ants == old(self).ants,
                self.targets == old(self).targets,
                self.claims == old(self).claims,
                self.colonies_to_destroy == old(self).colonies_to_destroy,
                self.step_count == old(self).step_count,
                self.max_steps == old(self).max_steps,
                self.max_moves == old(self).max_moves,
                self.debug == old(self).debug,
                self.fights == old(self).fights,
            decreases n - a,
        {
            if let Some(l) = self.ants[a].colony_idx {
                self.colonies[l].set_ant(Some(a));
                proof {
                    assert forall|b: int|
                        0 <= b < a && (#[trigger] self.ants@[b]).colony_idx is Some
                            implies self.ants@[b].colony_idx->0 != l by {
                        assert(self.ants@[a as int].colony_idx is Some);
                    }
                }
            }
            a = a + 1;
        }
    }

    /// Adds to the fight log, for each colony listed in
    /// `colonies_to_destroy`, the ants that claim it.
    fn record_fights(&mut self, Ghost(w): Ghost<World>, Ghost(choices): Ghost<Seq<Option<Direction>>>)
        requires
            old(self).ants@ == w.ants,
            choices.len() == w.ants.len(),
            old(self).targets@.len() == w.ants.len(),
            forall|a: int| 0 <= a < w.ants.len() ==> #[trigger] old(self).targets@[a] == w.target(choices, a),
        ensures
            log_view(final(self).fights@) == log_view(old(self).fights@)
                + old(self).colonies_to_destroy@.map_values(
                |l: usize| (l, w.claimants(choices, l, w.ants.len() as int)),
            ),
            final(self).colonies == old(self).colonies,
            final(self).ants == old(self).ants,
            final(self).targets == old(self).targets,
            final(self).claims == old(self).claims,
            final(self).colonies_to_destroy == old(self).colonies_to_destroy,
            final(self).step_count == old(self).step_count,
            final(self).max_steps == old(self).max_steps,
            final(self).max_moves == old(self).max_moves,
            final(self).debug == old(self).debug,
    {
        let n = self.ants.len();
        let count = self.colonies_to_destroy.len();
        let ghost gone = self.colonies_to_destroy@;
        let ghost start = log_view(self.fights@);
        let mut j: usize = 0;
        while j < count
            invariant
                j <= count,
                count == gone.len(),
                n == w.ants.len(),
                self.ants@ == w.ants,
                choices.len() == n,
                self.targets@.len() == n,
                forall|a: int| 0 <= a < n ==> #[trigger] self.targets@[a] == w.target(choices, a),
                gone == old(self).colonies_to_destroy@,
                start == log_view(old(self).fights@),
                log_view(self.fights@) == start + gone.take(j as int).map_values(
                    |l: usize| (l, w.claimants(choices, l, n as int)),
                ),
                self.colonies == old(self).colonies,
                self.ants == old(self).ants,
                self.targets == old(self).targets,
                self.claims == old(self).claims,
                self.colonies_to_destroy == old(self).colonies_to_destroy,
                self.step_count == old(self).step_count,
                self.max_steps == old(self).max_steps,
                self.max_moves == old(self).max_moves,
                self.debug == old(self).debug,
            decreases count - j,
        {
            let l = self.colonies_to_destroy[j];
            let mut who: Vec<usize> = Vec::new();
            let mut a: usize = 0;
            while a < n
                invariant
                    a <= n,
                    n == w.ants.len(),
                    self.ants@ == w.ants,
                    self.targets@.len() == n,
                    forall|b: int| 0 <= b < n ==> #[trigger] self.targets@[b] == w.target(choices, b),
                    who@ == w.claimants(choices, l, a as int),
                decreases n - a,
            {
                if self.ants[a].colony_idx == Some(l) || self.targets[a] == Some(l) {
                    who.push(a);
                }
                a = a + 1;
            }
            let ghost before = self.fights@;
            self.fights.push(Fight { colony: l, ants: who });
            proof {
                let f = |l: usize| (l, w.claimants(choices, l, n as int));
                assert(gone.take(j as int + 1) == gone.take(j as int).push(l));
                assert(gone.take(j as int + 1).map_values(f) =~= gone.take(j as int).map_values(f).push(
                    f(l),
                ));
                assert(log_view(self.fights@) =~= log_view(before).push(f(l)));
            }
            j = j + 1;
        }
        assert(gone.take(count as int) =~= gone);
    }

    /// Runs one tick with the directions `choices` drawn for the ants: finds
    /// what each ant tries to enter, destroys every colony that two or more
    /// ants claim together with the ants that claim it, and moves the rest.
    /// A chosen tunnel that leads off the map stops the tick before it
    /// changes anything.
    pub fn apply_tick(&mut self, choices: &Vec<Option<Direction>>) -> (r: Result<(), SimulationError>)
        requires
            old(self).wf(),
            choices@.len() == old(self).world().ants.len(),
        ensures
            final(self).wf(),
            final(self).steps_taken() == old(self).steps_taken(),
            final(self).step_limit() == old(self).step_limit(),
            final(self).verbose() == old(self).verbose(),
            r is Ok <==> !old(self).world().bad_heading(choices@),
            r matches Err(e) ==> e matches SimulationError::InvalidColony(t) && exists|a: int|
                0 <= a < old(self).world().ants.len() && old(self).world().heading(choices@, a)
                    == Some(t) && t >= old(self).world().colonies.len(),
            r is Err ==> final(self).world() == old(self).world(),
            r is Ok ==> ticked(old(self).world(), choices@, final(self).world()),
            r is Ok ==> final(self).world().settled(),
            final(self).world().wf(),
            !broken_tunnel(old(self).world().colonies) ==> r is Ok && !broken_tunnel(
                final(self).world().colonies,
            ),
            logged(
                old(self).fight_log(),
                old(self).world(),
                choices@,
                old(self).verbose(),
                r,
                final(self).fight_log(),
            ),
    {
        let ghost w = self.world();
        proof {
            lemma_whole_map_heads_on_map(w, choices@);
        }
        match self.find_targets(choices) {
            Err(e) => {
                return Err(e);
            },
            Ok(()) => {},
        }
        self.count_claims(Ghost(choices@));
        if self.debug {
            self.record_fights(Ghost(w), Ghost(choices@));
        }
        let ghost gone = self.colonies_to_destroy@;
        let ghost n = w.ants.len() as int;
        let ghost ncol = w.colonies.len();
        proof {
            assert forall|x: usize| #[trigger] gone.contains(x) <==> w.fight(choices@, x) by {
                if x >= ncol {
                    lemma_no_claims_off_map(w, choices@, x, n);
                }
            }
            assert forall|j: int| 0 <= j < gone.len() implies #[trigger] gone[j] < ncol by {
                assert(gone.contains(gone[j]));
            }
        }
        self.destroy_fought();
        proof {
            assert forall|c: int| 0 <= c < ncol implies #[trigger] self.colonies@[c].tunnels()
                == w.tunnels_after(choices@, c) by {
                if !w.fight(choices@, c as usize) {
                    assert(cut(w.colonies[c].tunnels(), gone) =~= w.tunnels_after(choices@, c));
                }
            }
        }
        self.clear_residents();
        self.move_ants(Ghost(w), Ghost(choices@));
        proof {
            lemma_tick_settles(w, choices@);
            assert forall|a: int|
                0 <= a < n && (#[trigger] self.ants@[a]).colony_idx is Some
                    implies self.ants@[a].colony_idx->0 < ncol by {
                lemma_survivor_claims(w, choices@, a);
            }
            assert(self.world().settled());
        }
        self.place_residents();
        proof {
            assert(ticked(w, choices@, self.world()));
            lemma_tick_wf(w, choices@, self.world());
            lemma_tick_keeps_map_whole(w, choices@, self.world());
        }
        Ok(())
    }
    /// A simulation of `num_ants` ants on `colonies`, each ant placed in a
    /// colony drawn at random, with a generator seeded from the system.
    pub fn new(colonies: Vec<Colony>, num_ants: usize) -> (r: Result<Self, SimulationError>)
        requires
            forall|c: int| 0 <= c < colonies@.len() ==> (#[trigger] colonies@[c]).wf(),
        ensures
            created(colonies@, num_ants, true, r),
    {
        if colonies.len() == 0 {
            return Err(SimulationError::NoColonies);
        }
        if num_ants == 0 {
            return Err(SimulationError::NoAnts);
        }
        let seed = fresh_seed();
        Self::with_seed(colonies, num_ants, seed)
    }

    /// As `new`, with fight reports turned off.
    pub fn new_silent(colonies: Vec<Colony>, num_ants: usize) -> (r: Result<Self, SimulationError>)
        requires
            forall|c: int| 0 <= c < colonies@.len() ==> (#[trigger] colonies@[c]).wf(),
        ensures
            created(colonies@, num_ants, false, r),
    {
        let mut sim = Self::new(colonies, num_ants)?;
        sim.debug = false;
        Ok(sim)
    }

    /// As `new`, with the generator seeded from `seed`, so that the same
    /// seed gives the same run.
    pub fn with_seed(colonies: Vec<Colony>, num_ants: usize, seed: u64) -> (r: Result<
        Self,
        SimulationError,
    >)
        requires
            forall|c: int| 0 <= c < colonies@.len() ==> (#[trigger] colonies@[c]).wf(),
        ensures
            created(colonies@, num_ants, true, r),
    {
        if colonies.len() == 0 {
            return Err(SimulationError::NoColonies);
        }
        if num_ants == 0 {
            return Err(SimulationError::NoAnts);
        }
        let mut rng = seeded_rng(seed);
        let ncol = colonies.len();
        let mut positions: Vec<usize> = Vec::with_capacity(num_ants);
        let mut i: usize = 0;
        while i < num_ants
            invariant
                i <= num_ants,
                ncol == colonies@.len(),
                0 < ncol,
                positions@.len() == i,
                forall|k: int| 0 <= k < i ==> #[trigger] positions@[k] < ncol,
            decreases num_ants - i,
        {
            let p = draw_below(&mut rng, ncol);
            positions.push(p);
            i = i + 1;
        }
        let sim = Self::build(colonies, &positions, rng, true);
        Ok(sim)
    }

    /// A simulation that starts with ant `i` in colony `positions[i]`, its
    /// generator seeded from `seed`. Fails on an empty map, on no ants, and
    /// on the first position that names no colony.
    pub fn with_positions(colonies: Vec<Colony>, positions: Vec<usize>, seed: u64) -> (r: Result<
        Self,
        SimulationError,
    >)
        requires
            forall|c: int| 0 <= c < colonies@.len() ==> (#[trigger] colonies@[c]).wf(),
        ensures
            colonies@.len() == 0 <==> r == Err::<Self, SimulationError>(SimulationError::NoColonies),
            colonies@.len() > 0 && positions@.len() == 0 <==> r == Err::<Self, SimulationError>(
                SimulationError::NoAnts,
            ),
            r matches Err(SimulationError::InvalidColony(p)) ==> colonies@.len() > 0 && exists|i: int|
                0 <= i < positions@.len() && positions@[i] == p && p >= colonies@.len()
                    && forall|k: int| 0 <= k < i ==> #[trigger] positions@[k] < colonies@.len(),
            r is Ok <==> colonies@.len() > 0 && positions@.len() > 0 && forall|i: int|
                0 <= i < positions@.len() ==> #[trigger] positions@[i] < colonies@.len(),
            r matches Ok(sim) ==> {
                &&& sim.wf()
                &&& sim.steps_taken() == 0
                &&& sim.step_limit() == MAX_STEPS
                &&& sim.verbose()
                &&& starts_from(colonies@, positions@, sim.world())
            },
    {
        if colonies.len() == 0 {
            return Err(SimulationError::NoColonies);
        }
        if positions.len() == 0 {
            return Err(SimulationError::NoAnts);
        }
        let ncol = colonies.len();
        let mut i: usize = 0;
        while i < positions.len()
            invariant
                i <= positions@.len(),
                ncol == colonies@.len(),
                ncol > 0,
                positions@.len() > 0,
                forall|k: int| 0 <= k < i ==> #[trigger] positions@[k] < ncol,
            decreases positions@.len() - i,
        {
            if positions[i] >= ncol {
                return Err(SimulationError::InvalidColony(positions[i]));
            }
            i = i + 1;
        }
        let rng = seeded_rng(seed);
        Ok(Self::build(colonies, &positions, rng, true))
    }

    /// Whether some ant is alive and under the move ceiling.
    pub fn are_ants_active(&self) -> (r: bool)
        ensures
            r == self.world().any_active(),
    {
        let n = self.ants.len();
        let mut a: usize = 0;
        while a < n
            invariant
                n == self.ants@.len(),
                a <= n,
                forall|b: int| 0 <= b < a ==> !#[trigger] self.world().active(b),
            decreases n - a,
        {
            let ant = self.ants[a];
            if ant.moves < self.max_moves && ant.colony_idx.is_some() {
                assert(self.world().active(a as int));
                return true;
            }
            a = a + 1;
        }
        false
    }

    /// Runs one tick: draws a direction for every active ant among the open
    /// ones of its colony, then applies the tick.
    pub fn step(&mut self) -> (r: Result<(), SimulationError>)
        requires
            old(self).wf(),
        ensures
            final(self).wf(),
            final(self).steps_taken() == old(self).steps_taken(),
            final(self).step_limit() == old(self).step_limit(),
            final(self).verbose() == old(self).verbose(),
            final(self).world().wf(),
            !broken_tunnel(old(self).world().colonies) ==> r is Ok && !broken_tunnel(
                final(self).world().colonies,
            ),
            exists|choices: Seq<Option<Direction>>|
                tick_outcome(old(self).world(), choices, final(self).world(), r) && logged(
                    old(self).fight_log(),
                    old(self).world(),
                    choices,
                    old(self).verbose(),
                    r,
                    final(self).fight_log(),
                ),
    {
        let ghost w = self.world();
        let mut choices: Vec<Option<Direction>> = Vec::new();
        std::mem::swap(&mut choices, &mut self.choices);
        choices.clear();
        let n = self.ants.len();
        let mut a: usize = 0;
        while a < n
            invariant
                self.wf(),
                self.world() == w,
                w == old(self).world(),
                n == self.ants@.len(),
                a <= n,
                choices@.len() == a,
                self.step_count == old(self).step_count,
                self.max_steps == old(self).max_steps,
                self.debug == old(self).debug,
                self.fights == old(self).fights,
                forall|b: int|
                    0 <= b < a ==> match #[trigger] choices@[b] {
                        Some(d) => w.active(b) && w.colonies[w.ants[b].colony_idx->0 as int].tunnels()[d.index()] is Some,
                        None => !w.active(b) || open_directions(
                            w.colonies[w.ants[b].colony_idx->0 as int].tunnels(),
                        ).len() == 0,
                    },
            decreases n - a,
        {
            let ant = self.ants[a];
            let mut choice: Option<Direction> = None;
            if let Some(l) = ant.colony_idx {
                if ant.moves < self.max_moves {
                    choice = self.colonies[l].get_random_direction(&mut self.rng);
                }
            }
            choices.push(choice);
            a = a + 1;
        }
        let ghost drawn = choices@;
        let r = self.apply_tick(&choices);
        std::mem::swap(&mut choices, &mut self.choices);
        assert(tick_outcome(w, drawn, self.world(), r));
        assert(logged(old(self).fight_log(), w, drawn, old(self).verbose(), r, self.fight_log()));
        r
    }

    /// Runs ticks while some ant is active, up to the step ceiling. Ends with
    /// `StoppedEarly` once the ceiling is reached, whether or not an ant is
    /// still active, with `Concluded` once no ant is active below it, or with
    /// the error of a tick that drew a tunnel leading off the map.
    pub fn run(&mut self) -> (r: Result<RunOutcome, SimulationError>)
        requires
            old(self).wf(),
        ensures
            final(self).wf(),
            final(self).world().wf(),
            final(self).step_limit() == old(self).step_limit(),
            final(self).verbose() == old(self).verbose(),
            old(self).steps_taken() <= final(self).steps_taken() <= final(self).step_limit(),
            !broken_tunnel(old(self).world().colonies) ==> r is Ok,
            r == Ok::<RunOutcome, SimulationError>(RunOutcome::Concluded) ==> !final(self).world().any_active()
                && final(self).steps_taken() < final(self).step_limit(),
            r is Ok ==> (r == Ok::<RunOutcome, SimulationError>(RunOutcome::StoppedEarly) <==> final(self).steps_taken()
                == final(self).step_limit()),
            r matches Err(e) ==> e matches SimulationError::InvalidColony(_),
            !old(self).world().any_active() ==> final(self).world() == old(self).world()
                && final(self).steps_taken() == old(self).steps_taken(),
            run_of(
                old(self).world(),
                final(self).world(),
                (final(self).steps_taken() - old(self).steps_taken()) as nat,
            ),
    {
        loop
            invariant
                self.wf(),
                self.max_steps == old(self).max_steps,
                self.debug == old(self).debug,
                old(self).step_count <= self.step_count,
                !broken_tunnel(old(self).world().colonies) ==> !broken_tunnel(self.world().colonies),
                !old(self).world().any_active() ==> self.world() == old(self).world()
                    && self.step_count == old(self).step_count,
                run_of(
                    old(self).world(),
                    self.world(),
                    (self.step_count - old(self).step_count) as nat,
                ),
            decreases self.max_steps - self.step_count,
        {
            if self.step_count >= self.max_steps {
                return Ok(RunOutcome::StoppedEarly);
            }
            if !self.are_ants_active() {
                return Ok(RunOutcome::Concluded);
            }
            let ghost prev = self.world();
            let ghost prev_log = self.fight_log();
            let ghost k = (self.step_count - old(self).step_count) as nat;
            let r = self.step();
            match r {
                Err(e) => {
                    return Err(e);
                },
                Ok(()) => {},
            }
            proof {
                let choices = choose|choices: Seq<Option<Direction>>|
                    tick_outcome(prev, choices, self.world(), r) && logged(
                        prev_log,
                        prev,
                        choices,
                        self.debug,
                        r,
                        self.fight_log(),
                    );
                assert(tick_outcome(prev, choices, self.world(), r));
                assert(run_of(old(self).world(), prev, k));
                assert(ticked(prev, choices, self.world()));
                assert(run_of(old(self).world(), self.world(), k + 1));
            }
            self.step_count = self.step_count + 1;
        }
    }

    /// Changes the two ceilings: moves per ant, and ticks per run. The ticks
    /// already run count against the new step ceiling, and it is raised to
    /// them where it falls below.
    pub fn set_limits(&mut self, max_moves: u32, max_steps: u32)
        requires
            old(self).wf(),
        ensures
            final(self).wf(),
            final(self).world().colonies == old(self).world().colonies,
            final(self).world().ants == old(self).world().ants,
            final(self).world().max_moves == max_moves,
            final(self).step_limit() == if max_steps < old(self).steps_taken() {
                old(self).steps_taken()
            } else {
                max_steps
            },
            final(self).steps_taken() == old(self).steps_taken(),
            final(self).verbose() == old(self).verbose(),
    {
        self.max_moves = max_moves;
        self.max_steps = if max_steps < self.step_count {
            self.step_count
        } else {
            max_steps
        };
    }

    /// The number of ticks run so far.
    pub fn step_count(&self) -> (r: u32)
        ensures
            r == self.steps_taken(),
    {
        self.step_count
    }

    /// The colonies, in map order.
    pub fn colonies(&self) -> (r: &Vec<Colony>)
        ensures
            r@ == self.world().colonies,
    {
        &self.colonies
    }

    /// The ants, in the order they were created.
    pub fn ants(&self) -> (r: &Vec<Ant>)
        ensures
            r@ == self.world().ants,
    {
        &self.ants
    }

    /// The fights recorded so far, oldest first.
    pub fn fights(&self) -> (r: &Vec<Fight>)
        ensures
            log_view(r@) == self.fight_log(),
    {
        &self.fights
    }

    /// Whether fights are to be reported.
    pub fn is_verbose(&self) -> (r: bool)
        ensures
            r == self.verbose(),
    {
        self.debug
    }

    /// The surviving map: for each colony not destroyed, in map order, its
    /// name and, in the order north, south, east, west, the label and target
    /// name of each tunnel it still has. Fails where such a tunnel leads to
    /// an index that names no colony.
    pub fn final_topology(&self) -> (r: Result<Vec<(String, Vec<(String, String)>)>, SimulationError>)
        ensures
            r is Ok <==> !broken_tunnel(self.world().colonies),
            r matches Ok(v) ==> report_view(v@) == topology(
                self.world().colonies,
                self.world().colonies.len() as int,
            ),
            r matches Err(e) ==> e matches SimulationError::InvalidColony(x) && x
                >= self.world().colonies.len() && exists|c: int, s: int|
                0 <= c < self.world().colonies.len() && 0 <= s < 4
                    && !self.world().colonies[c].destroyed() && self.world().colonies[c].tunnels()[s]
                    == Some(x),
    {
        let ghost cols = self.colonies@;
        let ncol = self.colonies.len();
        let mut out: Vec<(String, Vec<(String, String)>)> = Vec::new();
        let mut c: usize = 0;
        while c < ncol
            invariant
                cols == self.colonies@,
                ncol == cols.len(),
                c <= ncol,
                report_view(out@) == topology(cols, c as int),
                forall|k: int, s: int|
                    0 <= k < c && 0 <= s < 4 && !cols[k].destroyed() ==> !(#[trigger] cols[k].tunnels()[s]
                        matches Some(x) && x >= ncol),
            decreases ncol - c,
        {
            let colony = &self.colonies[c];
            if !colony.is_destroyed() {
                let mut lines: Vec<(String, String)> = Vec::new();
                let mut s: usize = 0;
                while s < 4
                    invariant
                        cols == self.colonies@,
                        ncol == cols.len(),
                        c < ncol,
                        *colony == cols[c as int],
                        !cols[c as int].destroyed(),
                        s <= 4,
                        lines@.map_values(|p: (String, String)| (p.0@, p.1@)) == tunnel_lines(
                            cols,
                            c as int,
                            s as int,
                        ),
                        forall|j: int| 0 <= j < s ==> !(#[trigger] cols[c as int].tunnels()[j]
                            matches Some(x) && x >= ncol),
                    decreases 4 - s,
                {
                    let d = Direction::from_slot(s);
                    if let Some(t) = colony.get_target_colony(&d) {
                        if t >= ncol {
                            assert(d.index() == s as int);
                            assert(cols[c as int].tunnels()[s as int] == Some(t));
                            assert(!cols[c as int].destroyed());
                            assert(self.world().colonies == cols);
                            assert(broken_tunnel(cols));
                            return Err(SimulationError::InvalidColony(t));
                        }
                        let ghost before = lines@;
                        lines.push((d.label_string(), self.colonies[t].get_name().clone()));
                        assert(lines@.map_values(|p: (String, String)| (p.0@, p.1@)) =~= before.map_values(
                            |p: (String, String)| (p.0@, p.1@),
                        ).push((d.label(), cols[t as int].spec_name()@)));
                    }
                    s = s + 1;
                }
                let ghost before = out@;
                out.push((colony.get_name().clone(), lines));
                assert(report_view(out@) =~= report_view(before).push(
                    (cols[c as int].spec_name()@, tunnel_lines(cols, c as int, 4)),
                ));
            }
            c = c + 1;
        }
        Ok(out)
    }
}

/// Where no intact colony has a tunnel off the map, no ant can head off it.
proof fn lemma_whole_map_heads_on_map(w: World, choices: Seq<Option<Direction>>)
    requires
        w.wf(),
    ensures
        !broken_tunnel(w.colonies) ==> !w.bad_heading(choices),
{
    if !broken_tunnel(w.colonies) && w.bad_heading(choices) {
        let a = choose|a: int|
            0 <= a < w.ants.len() && (#[trigger] w.heading(choices, a) matches Some(t) && t
                >= w.colonies.len());
        let l = w.ants[a].colony_idx->0 as int;
        let s = choices[a]->0.index();
        assert(w.colonies[l].tunnels()[s] matches Some(x) && x >= w.colonies.len());
    }
}

/// A tick only closes tunnels and destroys colonies, so it opens no tunnel
/// off the map.
proof fn lemma_tick_keeps_map_whole(w: World, choices: Seq<Option<Direction>>, w2: World)
    requires
        w.wf(),
        ticked(w, choices, w2),
    ensures
        !broken_tunnel(w.colonies) ==> !broken_tunnel(w2.colonies),
{
    if !broken_tunnel(w.colonies) && broken_tunnel(w2.colonies) {
        let (c, s) = choose|c: int, s: int|
            0 <= c < w2.colonies.len() && 0 <= s < 4 && !w2.colonies[c].destroyed() && (
            #[trigger] w2.colonies[c].tunnels()[s] matches Some(x) && x >= w2.colonies.len());
        assert(w.colonies[c].tunnels()[s] matches Some(x) && x >= w.colonies.len());
    }
}

/// Where a living ant stands after a tick, it had claimed that colony, and
/// nobody fought there.
pub(crate) proof fn lemma_survivor_claims(w: World, choices: Seq<Option<Direction>>, a: int)
    requires
        w.wf(),
        0 <= a < w.ants.len(),
        w.ant_after(choices, a).colony_idx is Some,
    ensures
        ({
            let c = w.ant_after(choices, a).colony_idx->0;
            &&& w.claims(choices, a, c)
            &&& !w.fight(choices, c)
            &&& c < w.colonies.len()
            &&& !w.colonies[c as int].destroyed()
        }),
{
    assert(w.ants[a].colony_idx is Some);
}

/// After a tick no two ants share a colony.
pub(crate) proof fn lemma_tick_settles(w: World, choices: Seq<Option<Direction>>)
    requires
        w.wf(),
    ensures
        forall|a: int, b: int|
            0 <= a < w.ants.len() && 0 <= b < w.ants.len() && a != b && (#[trigger] w.ant_after(
                choices,
                a,
            )).colony_idx is Some ==> (#[trigger] w.ant_after(choices, b)).colony_idx
                != w.ant_after(choices, a).colony_idx,
{
    assert forall|a: int, b: int|
        0 <= a < w.ants.len() && 0 <= b < w.ants.len() && a != b && (#[trigger] w.ant_after(
            choices,
            a,
        )).colony_idx is Some implies (#[trigger] w.ant_after(choices, b)).colony_idx
        != w.ant_after(choices, a).colony_idx by {
        if w.ant_after(choices, b).colony_idx == w.ant_after(choices, a).colony_idx {
            let c = w.ant_after(choices, a).colony_idx->0;
            lemma_survivor_claims(w, choices, a);
            lemma_survivor_claims(w, choices, b);
            lemma_two_claimants_fight(w, choices, c, a, b);
        }
    }
}

/// A tick keeps a well-formed state well formed, given that it records the
/// ants as residents.
proof fn lemma_tick_wf(w: World, choices: Seq<Option<Direction>>, w2: World)
    requires
        w.wf(),
        ticked(w, choices, w2),
        forall|c: int| 0 <= c < w2.colonies.len() ==> (#[trigger] w2.colonies[c]).wf(),
        forall|c: int|
            0 <= c < w2.colonies.len() && (#[trigger] w2.colonies[c]).resident() is Some ==> {
                let r = w2.colonies[c].resident()->0;
                r < w2.ants.len() && w2.ants[r as int].colony_idx == Some(c as usize)
            },
        forall|a: int|
            0 <= a < w2.ants.len() && (#[trigger] w2.ants[a]).colony_idx is Some
                ==> w2.colonies[w2.ants[a].colony_idx->0 as int].resident() is Some,
    ensures
        w2.wf(),
{
    let none4 = seq![None::<usize>, None, None, None];
    assert forall|c: int| 0 <= c < w2.colonies.len() implies (#[trigger] w2.colonies[c]).tunnels().len() == 4 by {
        assert(w.colonies[c].tunnels().len() == 4);
    }
    assert forall|a: int|
        0 <= a < w2.ants.len() && (#[trigger] w2.ants[a]).colony_idx is Some implies {
            let l = w2.ants[a].colony_idx->0;
            l < w2.colonies.len() && !w2.colonies[l as int].destroyed()
        } by {
        lemma_survivor_claims(w, choices, a);
    }
    assert forall|c: int|
        0 <= c < w2.colonies.len() && (#[trigger] w2.colonies[c]).destroyed() implies w2.colonies[c].tunnels()
        == none4 by {
        if !w.fight(choices, c as usize) {
            assert(w.colonies[c].tunnels() == none4);
            assert(w2.colonies[c].tunnels() =~= none4);
        }
    }
    assert forall|c: int, s: int|
        0 <= c < w2.colonies.len() && 0 <= s < 4 && (#[trigger] w2.colonies[c].tunnels()[s]) is Some implies {
            let x = w2.colonies[c].tunnels()[s]->0;
            x < w2.colonies.len() ==> !w2.colonies[x as int].destroyed()
        } by {
        assert(w.colonies[c].tunnels()[s] is Some);
    }

}

} // verus!
