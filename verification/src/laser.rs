//! The ray-casting state machine: a laser tip that is pushed through the
//! grid one step at a time under four fixed interaction rules.

use vstd::prelude::*;
use crate::atom_grid::{AtomGrid, grid_get};
use crate::i8vec2::I8Vec2;
use crate::Fault;

verus! {

/// One of the four axis directions a ray can travel in. `Up` decreases the
/// vertical coordinate (screen convention).
#[derive(Copy, Clone, PartialEq, Eq, Debug, Structural)]
pub enum Direction {
    Up,
    Down,
    Left,
    Right,
}

/// Componentwise sum, wrapping at the `i8` range (never reached by valid
/// tip positions, whose coordinates stay within one step of the grid).
pub open spec fn vadd(a: I8Vec2, b: I8Vec2) -> I8Vec2 {
    I8Vec2 { x: (a.x + b.x) as i8, y: (a.y + b.y) as i8 }
}

impl Direction {
    /// The four directions in their fixed probing order.
    pub fn all() -> (r: [Direction; 4])
        ensures
            r@ == seq![Direction::Up, Direction::Down, Direction::Left, Direction::Right],
    {
        let r = [Direction::Up, Direction::Down, Direction::Left, Direction::Right];
        proof {
            assert(r@ =~= seq![Direction::Up, Direction::Down, Direction::Left, Direction::Right]);
        }
        r
    }

    /// Position of this direction in the fixed probing order.
    pub open spec fn spec_side_index(self) -> int {
        match self {
            Direction::Up => 0,
            Direction::Down => 1,
            Direction::Left => 2,
            Direction::Right => 3,
        }
    }

    /// Position of this direction in the fixed probing order.
    pub fn side_index(self) -> (r: usize)
        ensures
            r == self.spec_side_index(),
    {
        match self {
            Direction::Up => 0,
            Direction::Down => 1,
            Direction::Left => 2,
            Direction::Right => 3,
        }
    }

    /// The unit displacement of one step in this direction.
    pub open spec fn spec_dxy(self) -> I8Vec2 {
        match self {
            Direction::Up => I8Vec2 { x: 0, y: -1i8 },
            Direction::Down => I8Vec2 { x: 0, y: 1 },
            Direction::Left => I8Vec2 { x: -1i8, y: 0 },
            Direction::Right => I8Vec2 { x: 1, y: 0 },
        }
    }

    /// The unit displacement of one step in this direction.
    pub fn dxy(self) -> (r: I8Vec2)
        ensures
            r == self.spec_dxy(),
    {
        match self {
            Direction::Up => I8Vec2::new(0, -1),
            Direction::Down => I8Vec2::new(0, 1),
            Direction::Left => I8Vec2::new(-1, 0),
            Direction::Right => I8Vec2::new(1, 0),
        }
    }

    /// Quarter turn to the right.
    pub open spec fn spec_clockwise(self) -> Direction {
        match self {
            Direction::Up => Direction::Right,
            Direction::Right => Direction::Down,
            Direction::Down => Direction::Left,
            Direction::Left => Direction::Up,
        }
    }

    /// Quarter turn to the right.
    pub fn clockwise(self) -> (r: Direction)
        ensures
            r == self.spec_clockwise(),
    {
        match self {
            Direction::Up => Direction::Right,
            Direction::Right => Direction::Down,
            Direction::Down => Direction::Left,
            Direction::Left => Direction::Up,
        }
    }

    /// Quarter turn to the left.
    pub open spec fn spec_counter_clockwise(self) -> Direction {
        match self {
            Direction::Up => Direction::Left,
            Direction::Left => Direction::Down,
            Direction::Down => Direction::Right,
            Direction::Right => Direction::Up,
        }
    }

    /// Quarter turn to the left.
    pub fn counter_clockwise(self) -> (r: Direction)
        ensures
            r == self.spec_counter_clockwise(),
    {
        match self {
            Direction::Up => Direction::Left,
            Direction::Left => Direction::Down,
            Direction::Down => Direction::Right,
            Direction::Right => Direction::Up,
        }
    }

    /// Half turn.
    pub open spec fn spec_flip(self) -> Direction {
        match self {
            Direction::Up => Direction::Down,
            Direction::Down => Direction::Up,
            Direction::Left => Direction::Right,
            Direction::Right => Direction::Left,
        }
    }

    /// Half turn.
    pub fn flip(self) -> (r: Direction)
        ensures
            r == self.spec_flip(),
    {
        match self {
            Direction::Up => Direction::Down,
            Direction::Down => Direction::Up,
            Direction::Left => Direction::Right,
            Direction::Right => Direction::Left,
        }
    }
}

/// The rotation group laws: four quarter turns are the identity, the half
/// turn is its own inverse and equals two quarter turns, and the two
/// quarter turns undo one another.
pub proof fn lemma_rotation_group(d: Direction)
    ensures
        d.spec_clockwise().spec_clockwise().spec_clockwise().spec_clockwise() == d,
        d.spec_flip().spec_flip() == d,
        d.spec_clockwise().spec_counter_clockwise() == d,
        d.spec_counter_clockwise().spec_clockwise() == d,
        d.spec_clockwise().spec_clockwise() == d.spec_flip(),
{
}

/// A position exactly one step outside a single edge of the grid: one of
/// the 32 border slots a probe can enter or leave through.
pub open spec fn is_border_slot(p: I8Vec2) -> bool {
    ||| (p.x == -1 || p.x == 8) && 0 <= p.y < 8
    ||| (p.y == -1 || p.y == 8) && 0 <= p.x < 8
}

/// The (shift, direction-of-entry) pair of a border slot: the direction a
/// ray starting there would travel into the grid, and its offset along the
/// perpendicular axis.
pub open spec fn spec_slot_of(p: I8Vec2) -> (u8, Direction) {
    if p.x == -1 {
        (p.y as u8, Direction::Right)
    } else if p.x == 8 {
        (p.y as u8, Direction::Left)
    } else if p.y == -1 {
        (p.x as u8, Direction::Down)
    } else {
        (p.x as u8, Direction::Up)
    }
}

/// The tip of a ray: its position and its direction of travel.
#[derive(Copy, Clone, Eq, PartialEq, Debug, Structural)]
pub struct LaserTip {
    pub position: I8Vec2,
    pub direction: Direction,
}

/// The tip that `LaserTip::new` places for a given shift and direction:
/// one step outside the edge the ray will enter from.
pub open spec fn spec_new_tip(shift: u8, direction: Direction) -> LaserTip {
    match direction {
        Direction::Up => LaserTip {
            position: I8Vec2 { x: shift as i8, y: 8 },
            direction,
        },
        Direction::Down => LaserTip {
            position: I8Vec2 { x: shift as i8, y: -1i8 },
            direction,
        },
        Direction::Left => LaserTip {
            position: I8Vec2 { x: 8, y: shift as i8 },
            direction,
        },
        Direction::Right => LaserTip {
            position: I8Vec2 { x: -1i8, y: shift as i8 },
            direction,
        },
    }
}

/// One application of the four interaction rules, in their priority order:
/// absorption if the cell ahead holds a marker; otherwise a straight step
/// if both diagonal-forward cells are free; a reversal stepping back if
/// both hold markers; a quarter turn away from the marker if exactly one
/// does. `None` means the ray was absorbed.
pub open spec fn spec_move_once(t: LaserTip, cells: Seq<bool>) -> Option<LaserTip> {
    let front = vadd(t.position, t.direction.spec_dxy());
    if grid_get(cells, front) {
        None
    } else {
        let left = grid_get(cells, vadd(front, t.direction.spec_counter_clockwise().spec_dxy()));
        let right = grid_get(cells, vadd(front, t.direction.spec_clockwise().spec_dxy()));
        if !left && !right {
            Some(LaserTip { position: front, direction: t.direction })
        } else if left && right {
            Some(
                LaserTip {
                    position: vadd(t.position, t.direction.spec_flip().spec_dxy()),
                    direction: t.direction.spec_flip(),
                },
            )
        } else if left {
            Some(
                LaserTip {
                    position: vadd(t.position, t.direction.spec_clockwise().spec_dxy()),
                    direction: t.direction.spec_clockwise(),
                },
            )
        } else {
            Some(
                LaserTip {
                    position: vadd(t.position, t.direction.spec_counter_clockwise().spec_dxy()),
                    direction: t.direction.spec_counter_clockwise(),
                },
            )
        }
    }
}

/// Outcome of running the state machine from `t` with `fuel` steps left:
/// `None` if the ray neither leaves the grid nor is absorbed within the
/// fuel; otherwise the pair of the traversal result (`None` for
/// absorption, the exit tip otherwise) and the number of steps taken.
pub open spec fn spec_run(t: LaserTip, cells: Seq<bool>, fuel: nat) -> Option<
    (Option<LaserTip>, nat),
>
    decreases fuel,
{
    if fuel == 0 {
        None
    } else {
        match spec_move_once(t, cells) {
            None => Some((None, 1nat)),
            Some(t2) => if !t2.position.spec_in_grid() {
                Some((Some(t2), 1nat))
            } else {
                match spec_run(t2, cells, (fuel - 1) as nat) {
                    None => None,
                    Some(pair) => Some((pair.0, (pair.1 + 1) as nat)),
                }
            },
        }
    }
}

impl LaserTip {
    /// A new laser at the border of the box with the given shift and
    /// direction of travel into the grid.
    pub fn new(shift: u8, direction: Direction) -> (r: Self)
        requires
            shift < 8,
        ensures
            r == spec_new_tip(shift, direction),
            is_border_slot(r.position),
            spec_slot_of(r.position) == (shift, direction),
    {
        match direction {
            Direction::Up => LaserTip { position: I8Vec2::new(shift as i8, 8), direction },
            Direction::Down => LaserTip { position: I8Vec2::new(shift as i8, -1), direction },
            Direction::Left => LaserTip { position: I8Vec2::new(8, shift as i8), direction },
            Direction::Right => LaserTip { position: I8Vec2::new(-1, shift as i8), direction },
        }
    }

    /// Split a tip on a border slot back into the constructor parameters
    /// of the ray that enters the grid from this position.
    pub fn deconstruct(&self) -> (r: Option<(u8, Direction)>)
        requires
            is_border_slot(self.position),
        ensures
            r == Some(spec_slot_of(self.position)),
    {
        if self.position.x == -1 {
            Some((self.position.y as u8, Direction::Right))
        } else if self.position.x == 8 {
            Some((self.position.y as u8, Direction::Left))
        } else if self.position.y == -1 {
            Some((self.position.x as u8, Direction::Down))
        } else if self.position.y == 8 {
            Some((self.position.x as u8, Direction::Up))
        } else {
            None
        }
    }

    /// One step of the state machine on the given grid; `None` if the ray
    /// is absorbed.
    pub fn move_once(self, grid: &AtomGrid) -> (r: Option<Self>)
        requires
            self.position.spec_in_grid() || is_border_slot(self.position),
        ensures
            r == spec_move_once(self, grid@),
            self.position.spec_in_grid() && r is Some ==> (r->0.position.spec_in_grid()
                || is_border_slot(r->0.position)),
    {
        let front = self.position.add(self.direction.dxy());
        if grid.get(front) {
            return None;
        }
        let left = grid.get(front.add(self.direction.counter_clockwise().dxy()));
        let right = grid.get(front.add(self.direction.clockwise().dxy()));
        if !left && !right {
            Some(LaserTip { position: front, direction: self.direction })
        } else if left && right {
            Some(
                LaserTip {
                    position: self.position.add(self.direction.flip().dxy()),
                    direction: self.direction.flip(),
                },
            )
        } else if left {
            Some(
                LaserTip {
                    position: self.position.add(self.direction.clockwise().dxy()),
                    direction: self.direction.clockwise(),
                },
            )
        } else {
            Some(
                LaserTip {
                    position: self.position.add(self.direction.counter_clockwise().dxy()),
                    direction: self.direction.counter_clockwise(),
                },
            )
        }
    }

    /// Run the state machine from a border slot until the ray is absorbed
    /// (`Ok((None, steps))`) or a step leaves the grid (`Ok((Some(exit),
    /// steps))`). The rules are designed to always terminate; a traversal
    /// that makes 255 moves without resolving reports the fault instead.
    pub fn traverse_grid(self, grid: &AtomGrid) -> (r: Result<(Option<LaserTip>, u8), Fault>)
        requires
            is_border_slot(self.position),
        ensures
            match spec_run(self, grid@, 255) {
                Some(outcome) => r == Ok::<(Option<LaserTip>, u8), Fault>(
                    (outcome.0, outcome.1 as u8),
                ) && 1 <= outcome.1 <= 255,
                None => r == Err::<(Option<LaserTip>, u8), Fault>(Fault::RunawayTraversal),
            },
            forall|t: LaserTip, n: u8|
                r == Ok::<(Option<LaserTip>, u8), Fault>((Some(t), n)) && n >= 2
                    ==> is_border_slot(t.position),
    {
        let ghost cells = grid@;
        let mut laser = self;
        let mut count: u8 = 0;
        while count < 255
            invariant
                count <= 255,
                is_border_slot(self.position),
                cells == grid@,
                count == 0 ==> laser == self,
                count > 0 ==> laser.position.spec_in_grid(),
                lift_run(spec_run(laser, cells, (255 - count) as nat), count as nat) == spec_run(
                    self,
                    cells,
                    255,
                ),
            decreases 255 - count,
        {
            let ghost fuel: nat = (255 - count) as nat;
            let ghost prev = laser;
            let step = laser.move_once(grid);
            count += 1;
            match step {
                None => {
                    return Ok((None, count));
                },
                Some(l) => {
                    if !l.position.in_grid() {
                        return Ok((Some(l), count));
                    } else {
                        laser = l;
                    }
                },
            }
            proof {
                assert(spec_run(prev, cells, fuel) == (match spec_run(
                    laser,
                    cells,
                    (fuel - 1) as nat,
                ) {
                    None => None::<(Option<LaserTip>, nat)>,
                    Some(pair) => Some((pair.0, (pair.1 + 1) as nat)),
                }));
            }
        }
        Err(Fault::RunawayTraversal)
    }
}

/// A step taken from inside the grid lands inside the grid or on a border
/// slot: it changes one coordinate by one, so it cannot reach a corner.
proof fn lemma_move_once_bounds(t: LaserTip, cells: Seq<bool>)
    requires
        t.position.spec_in_grid(),
    ensures
        spec_move_once(t, cells) matches Some(t2) ==> (t2.position.spec_in_grid()
            || is_border_slot(t2.position)),
{
}

/// An exit reached after at least two steps lies on a border slot: every
/// step past the first starts inside the grid.
pub proof fn lemma_run_exit_border(t: LaserTip, cells: Seq<bool>, fuel: nat)
    requires
        t.position.spec_in_grid() || is_border_slot(t.position),
    ensures
        match spec_run(t, cells, fuel) {
            Some(pair) => pair.1 >= 1 && ((pair.1 >= 2 && pair.0 is Some) ==> is_border_slot(
                pair.0->0.position,
            )),
            None => true,
        },
    decreases fuel,
{
    if fuel > 0 {
        match spec_move_once(t, cells) {
            None => {},
            Some(t2) => {
                if t2.position.spec_in_grid() {
                    lemma_run_exit_border(t2, cells, (fuel - 1) as nat);
                    lemma_move_once_bounds(t2, cells);
                    match spec_run(t2, cells, (fuel - 1) as nat) {
                        Some(inner) => {
                            if inner.1 == 1 && inner.0 is Some {
                                match spec_move_once(t2, cells) {
                                    None => {},
                                    Some(t4) => {
                                        if t4.position.spec_in_grid() {
                                            lemma_run_exit_border(t4, cells, (fuel - 2) as nat);
                                        }
                                    },
                                }
                            }
                        },
                        None => {},
                    }
                }
            },
        }
    }
}

/// The outcome `r`, with `k` earlier steps added to its step count.
pub open spec fn lift_run(r: Option<(Option<LaserTip>, nat)>, k: nat) -> Option<
    (Option<LaserTip>, nat),
> {
    match r {
        None => None,
        Some(pair) => Some((pair.0, (pair.1 + k) as nat)),
    }
}

} // verus!
