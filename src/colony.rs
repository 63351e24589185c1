use crate::random::draw_below;
use crate::text::{lower_of, lowercase, same_text};
use vstd::prelude::*;

verus! {

/// One of the four compass directions a tunnel can leave a colony by.
#[derive(Debug, Clone, Copy, Hash, PartialEq, Eq, Structural)]
pub enum Direction {
    North,
    South,
    East,
    West,
}

impl Direction {
    /// The tunnel slot of this direction.
    pub open spec fn index(self) -> int {
        match self {
            Direction::North => 0,
            Direction::South => 1,
            Direction::East => 2,
            Direction::West => 3,
        }
    }

    /// The lower-case label of this direction.
    pub open spec fn label(self) -> Seq<char> {
        match self {
            Direction::North => "north"@,
            Direction::South => "south"@,
            Direction::East => "east"@,
            Direction::West => "west"@,
        }
    }

    /// The tunnel slot of this direction.
    pub fn slot(&self) -> (r: usize)
        ensures
            r == self.index(),
    {
        match self {
            Direction::North => 0,
            Direction::South => 1,
            Direction::East => 2,
            Direction::West => 3,
        }
    }

    /// The lower-case label of this direction.
    pub fn label_string(&self) -> (r: String)
        ensures
            r@ == self.label(),
    {
        match self {
            Direction::North => "north".to_owned(),
            Direction::South => "south".to_owned(),
            Direction::East => "east".to_owned(),
            Direction::West => "west".to_owned(),
        }
    }

    /// The direction whose lower-case label is `s`, if any.
    pub fn from_lowercase(s: &str) -> (r: Option<Direction>)
        ensures
            r == direction_named(s@),
    {
        if same_text(s, "north") {
            Some(Direction::North)
        } else if same_text(s, "south") {
            Some(Direction::South)
        } else if same_text(s, "east") {
            Some(Direction::East)
        } else if same_text(s, "west") {
            Some(Direction::West)
        } else {
            None
        }
    }

    /// The direction named by `s` in any mix of cases.
    pub fn from_str(s: &str) -> (r: Option<Direction>)
        ensures
            r == direction_named(lower_of(s@)),
    {
        let lower = lowercase(s);
        Self::from_lowercase(lower.as_str())
    }

    /// The direction that owns tunnel slot `i`.
    pub fn from_slot(i: usize) -> (r: Direction)
        requires
            i < 4,
        ensures
            r == direction_at(i as int),
    {
        if i == 0 {
            Direction::North
        } else if i == 1 {
            Direction::South
        } else if i == 2 {
            Direction::East
        } else {
            Direction::West
        }
    }
}

/// The direction whose lower-case label is `s`.
pub open spec fn direction_named(s: Seq<char>) -> Option<Direction> {
    if s == "north"@ {
        Some(Direction::North)
    } else if s == "south"@ {
        Some(Direction::South)
    } else if s == "east"@ {
        Some(Direction::East)
    } else if s == "west"@ {
        Some(Direction::West)
    } else {
        None
    }
}

/// The direction that owns tunnel slot `i`.
pub open spec fn direction_at(i: int) -> Direction {
    if i == 0 {
        Direction::North
    } else if i == 1 {
        Direction::South
    } else if i == 2 {
        Direction::East
    } else {
        Direction::West
    }
}

/// The bit that marks slot `i` in a colony's set of open directions.
pub open spec fn slot_bit(i: int) -> u8 {
    if i == 0 {
        1
    } else if i == 1 {
        2
    } else if i == 2 {
        4
    } else {
        8
    }
}

/// The directions among the first `k` slots that hold a tunnel, in slot order.
pub open spec fn open_upto(tunnels: Seq<Option<usize>>, k: int) -> Seq<Direction>
    decreases k,
{
    if k <= 0 {
        Seq::empty()
    } else if tunnels[k - 1].is_some() {
        open_upto(tunnels, k - 1).push(direction_at(k - 1))
    } else {
        open_upto(tunnels, k - 1)
    }
}

/// The directions that hold a tunnel, in the order north, south, east, west.
pub open spec fn open_directions(tunnels: Seq<Option<usize>>) -> Seq<Direction> {
    open_upto(tunnels, 4)
}

/// The tunnels left once every one that leads to `target` is closed.
pub open spec fn without_target(tunnels: Seq<Option<usize>>, target: usize) -> Seq<
    Option<usize>,
> {
    tunnels.map_values(|t: Option<usize>| if t == Some(target) { None } else { t })
}

proof fn lemma_open_upto_prefix(tunnels: Seq<Option<usize>>, j: int, k: int)
    requires
        0 <= j <= k,
    ensures
        open_upto(tunnels, j).len() <= open_upto(tunnels, k).len(),
        forall|n: int|
            0 <= n < open_upto(tunnels, j).len() ==> #[trigger] open_upto(tunnels, k)[n]
                == open_upto(tunnels, j)[n],
    decreases k - j,
{
    if j < k {
        lemma_open_upto_prefix(tunnels, j, k - 1);
    }
}

/// A node of the map: up to four outgoing tunnels, the ant living there, and
/// whether the colony has been destroyed.
#[derive(Debug, Clone)]
pub struct Colony {
    tunnels: [Option<usize>; 4],
    available_directions: u8,
    ant_id: Option<usize>,
    is_destroyed: bool,
    pub name: String,
}

impl Colony {
    /// The four tunnel slots, indexed by `Direction::index`.
    pub closed spec fn tunnels(&self) -> Seq<Option<usize>> {
        self.tunnels@
    }

    /// The colony's name.
    pub closed spec fn spec_name(&self) -> String {
        self.name
    }

    /// The ant living here, if any.
    pub closed spec fn resident(&self) -> Option<usize> {
        self.ant_id
    }

    /// Whether the colony has been destroyed.
    pub closed spec fn destroyed(&self) -> bool {
        self.is_destroyed
    }

    /// Four slots, and the bit set of open directions agrees with the tunnel slots.
    pub closed spec fn wf(&self) -> bool {
        &&& self.available_directions < 16
        &&& self.tunnels@.len() == 4
        &&& forall|i: int|
            0 <= i < 4 ==> ((self.available_directions & #[trigger] slot_bit(i)) != 0)
                == self.tunnels@[i].is_some()
    }

    /// A well-formed colony has exactly four tunnel slots.
    pub proof fn lemma_four_slots(&self)
        requires
            self.wf(),
        ensures
            self.tunnels().len() == 4,
    {
    }

    /// An intact colony named `name`, with no tunnel and no ant.
    pub fn new(name: String) -> (r: Self)
        ensures
            r.wf(),
            r.tunnels() == seq![None::<usize>, None, None, None],
            r.resident() is None,
            !r.destroyed(),
            r.spec_name() == name,
    {
        let r = Colony {
            tunnels: [None, None, None, None],
            available_directions: 0,
            ant_id: None,
            is_destroyed: false,
            name,
        };
        assert forall|i: int| 0 <= i < 4 implies ((0u8 & #[trigger] slot_bit(i)) != 0) == false by {
            assert(0u8 & 1u8 == 0u8 && 0u8 & 2u8 == 0u8 && 0u8 & 4u8 == 0u8 && 0u8 & 8u8 == 0u8)
                by (bit_vector);
        }
        assert(r.tunnels() =~= seq![None::<usize>, None, None, None]);
        r
    }

    /// The bit of slot `i`.
    fn bit_of(i: usize) -> (r: u8)
        requires
            i < 4,
        ensures
            r == slot_bit(i as int),
    {
        if i == 0 {
            1
        } else if i == 1 {
            2
        } else if i == 2 {
            4
        } else {
            8
        }
    }

    /// Opens a tunnel towards `target`, replacing any tunnel in that direction.
    pub fn add_tunnel(&mut self, direction: Direction, target: usize)
        requires
            old(self).wf(),
        ensures
            final(self).wf(),
            final(self).tunnels() == old(self).tunnels().update(direction.index(), Some(target)),
            final(self).resident() == old(self).resident(),
            final(self).destroyed() == old(self).destroyed(),
            final(self).spec_name() == old(self).spec_name(),
    {
        let k = direction.slot();
        self.tunnels[k] = Some(target);
        let old_bits = self.available_directions;
        let b = Self::bit_of(k);
        self.available_directions = old_bits | b;
        assert forall|i: int| 0 <= i < 4 implies ((self.available_directions & #[trigger] slot_bit(
            i,
        )) != 0) == self.tunnels@[i].is_some() by {
            let m = slot_bit(i);
            assert(old_bits < 16 && (b == 1u8 || b == 2u8 || b == 4u8 || b == 8u8) && (m == 1u8
                || m == 2u8 || m == 4u8 || m == 8u8) ==> (((old_bits | b) & m != 0) == ((old_bits
                & m != 0) || b == m)) && (old_bits | b) < 16) by (bit_vector);
        }
        assert(self.available_directions < 16) by {
            assert(old_bits < 16 && (b == 1u8 || b == 2u8 || b == 4u8 || b == 8u8) ==> (old_bits
                | b) < 16) by (bit_vector);
        }
    }

    /// The number of directions that hold a tunnel.
    fn open_count(&self) -> (r: usize)
        requires
            self.wf(),
        ensures
            r == open_directions(self.tunnels()).len(),
            r <= 4,
    {
        let mut count: usize = 0;
        let mut i: usize = 0;
        while i < 4
            invariant
                self.wf(),
                i <= 4,
                count == open_upto(self.tunnels(), i as int).len(),
                count <= i,
            decreases 4 - i,
        {
            let b = Self::bit_of(i);
            if self.available_directions & b != 0 {
                count = count + 1;
            }
            i = i + 1;
        }
        count
    }

    /// The direction at place `idx` among the open ones (north, south, east,
    /// west order), or `None` where fewer than `idx + 1` are open.
    pub fn nth_available_direction(&self, idx: usize) -> (r: Option<Direction>)
        requires
            self.wf(),
        ensures
            r == (if idx < open_directions(self.tunnels()).len() {
                Some(open_directions(self.tunnels())[idx as int])
            } else {
                None
            }),
    {
        let mut current: usize = 0;
        let mut i: usize = 0;
        while i < 4
            invariant
                self.wf(),
                i <= 4,
                current == open_upto(self.tunnels(), i as int).len(),
                current <= idx,
                current <= i,
            decreases 4 - i,
        {
            let b = Self::bit_of(i);
            if self.available_directions & b != 0 {
                if current == idx {
                    proof {
                        lemma_open_upto_prefix(self.tunnels(), i as int + 1, 4);
                    }
                    return Some(Direction::from_slot(i));
                }
                current = current + 1;
            }
            i = i + 1;
        }
        None
    }

    /// Picks one of the open directions at random, or `None` where the colony
    /// has no tunnel.
    pub fn get_random_direction(&self, rng: &mut rand::rngs::SmallRng) -> (r: Option<Direction>)
        requires
            self.wf(),
        ensures
            r is None <==> open_directions(self.tunnels()).len() == 0,
            r matches Some(d) ==> open_directions(self.tunnels()).contains(d),
            r matches Some(d) ==> self.tunnels()[d.index()] is Some,
    {
        let count = self.open_count();
        if count == 0 {
            return None;
        }
        let idx = draw_below(rng, count);
        let r = self.nth_available_direction(idx);
        proof {
            lemma_open_directions_have_tunnels(self.tunnels(), idx as int);
        }
        r
    }

    /// The colony the tunnel in `direction` leads to.
    pub fn get_target_colony(&self, direction: &Direction) -> (r: Option<usize>)
        ensures
            r == self.tunnels()[direction.index()],
    {
        self.tunnels[direction.slot()]
    }

    /// Closes every tunnel that leads to `target`.
    pub fn remove_tunnel_to(&mut self, target: usize)
        requires
            old(self).wf(),
        ensures
            final(self).wf(),
            final(self).tunnels() == without_target(old(self).tunnels(), target),
            final(self).resident() == old(self).resident(),
            final(self).destroyed() == old(self).destroyed(),
            final(self).spec_name() == old(self).spec_name(),
    {
        let ghost start = self.tunnels();
        let mut i: usize = 0;
        while i < 4
            invariant
                self.wf(),
                i <= 4,
                start.len() == 4,
                self.tunnels().len() == 4,
                forall|j: int|
                    0 <= j < i ==> self.tunnels()[j] == without_target(start, target)[j],
                forall|j: int| i <= j < 4 ==> self.tunnels()[j] == start[j],
                self.ant_id == old(self).ant_id,
                self.is_destroyed == old(self).is_destroyed,
                self.name == old(self).name,
            decreases 4 - i,
        {
            if self.tunnels[i] == Some(target) {
                self.tunnels[i] = None;
                let old_bits = self.available_directions;
                let b = Self::bit_of(i);
                self.available_directions = old_bits & !b;
                assert forall|j: int| 0 <= j < 4 implies ((self.available_directions
                    & #[trigger] slot_bit(j)) != 0) == self.tunnels@[j].is_some() by {
                    let m = slot_bit(j);
                    assert(old_bits < 16 && (b == 1u8 || b == 2u8 || b == 4u8 || b == 8u8) && (m
                        == 1u8 || m == 2u8 || m == 4u8 || m == 8u8) ==> (((old_bits & !b) & m != 0)
                        == ((old_bits & m != 0) && b != m)) && (old_bits & !b) < 16)
                        by (bit_vector);
                }
                assert(self.available_directions < 16) by {
                    assert(old_bits < 16 ==> (old_bits & !b) < 16) by (bit_vector);
                }
            }
            i = i + 1;
        }
        assert(self.tunnels() =~= without_target(start, target));
    }

    /// Closes all four tunnels.
    pub fn clear_tunnels(&mut self)
        requires
            old(self).wf(),
        ensures
            final(self).wf(),
            final(self).tunnels() == seq![None::<usize>, None, None, None],
            final(self).resident() == old(self).resident(),
            final(self).destroyed() == old(self).destroyed(),
            final(self).spec_name() == old(self).spec_name(),
    {
        self.tunnels = [None, None, None, None];
        self.available_directions = 0;
        assert forall|i: int| 0 <= i < 4 implies ((0u8 & #[trigger] slot_bit(i)) != 0) == false by {
            assert(0u8 & 1u8 == 0u8 && 0u8 & 2u8 == 0u8 && 0u8 & 4u8 == 0u8 && 0u8 & 8u8 == 0u8)
                by (bit_vector);
        }
        assert(self.tunnels() =~= seq![None::<usize>, None, None, None]);
    }

    /// The colony's name.
    pub fn get_name(&self) -> (r: &String)
        ensures
            r == self.spec_name(),
    {
        &self.name
    }

    /// Records the ant living here, or that none does.
    pub fn set_ant(&mut self, ant_id: Option<usize>)
        requires
            old(self).wf(),
        ensures
            final(self).wf(),
            final(self).resident() == ant_id,
            final(self).tunnels() == old(self).tunnels(),
            final(self).destroyed() == old(self).destroyed(),
            final(self).spec_name() == old(self).spec_name(),
    {
        self.ant_id = ant_id;
    }

    /// The ant living here, if any.
    pub fn get_ant(&self) -> (r: Option<usize>)
        ensures
            r == self.resident(),
    {
        self.ant_id
    }

    /// Whether the colony has been destroyed.
    pub fn is_destroyed(&self) -> (r: bool)
        ensures
            r == self.destroyed(),
    {
        self.is_destroyed
    }

    /// Marks the colony destroyed, or intact.
    pub fn set_destroyed(&mut self, destroyed: bool)
        requires
            old(self).wf(),
        ensures
            final(self).wf(),
            final(self).destroyed() == destroyed,
            final(self).tunnels() == old(self).tunnels(),
            final(self).resident() == old(self).resident(),
            final(self).spec_name() == old(self).spec_name(),
    {
        self.is_destroyed = destroyed;
    }
}

/// Every direction listed as open holds a tunnel.
proof fn lemma_open_directions_have_tunnels(tunnels: Seq<Option<usize>>, n: int)
    requires
        tunnels.len() == 4,
    ensures
        0 <= n < open_directions(tunnels).len() ==> tunnels[open_directions(tunnels)[n].index()]
            is Some,
{
    lemma_open_upto_sound(tunnels, 4);
}

proof fn lemma_open_upto_sound(tunnels: Seq<Option<usize>>, k: int)
    requires
        0 <= k <= 4,
        tunnels.len() == 4,
    ensures
        forall|n: int|
            0 <= n < open_upto(tunnels, k).len() ==> 0 <= (#[trigger] open_upto(tunnels, k)[n]).index()
                < k && tunnels[open_upto(tunnels, k)[n].index()] is Some,
    decreases k,
{
    if k > 0 {
        lemma_open_upto_sound(tunnels, k - 1);
    }
}

} // verus!
