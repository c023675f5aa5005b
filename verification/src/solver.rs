//! A solver that takes observations and derives certain knowledge about
//! the atom grid: cells a clean pass-through proves empty.

use vstd::prelude::*;
use crate::atom_grid::{grid_get, grid_index};
use crate::i8vec2::I8Vec2;
use crate::laser::{Direction, LaserTip, spec_new_tip, vadd};
use crate::observation::{
    Observation, Observations, dir_of_index, push_char, push_label_row, spec_glyph,
    spec_label_row,
};
use crate::Fault;

verus! {

/// What the solver knows about one cell. Knowledge only ever refines:
/// once a cell is `Atom` or `Empty` it must never be contradicted.
#[derive(Copy, Clone, Debug, PartialEq, Eq, Structural)]
pub enum GridKnowledge {
    Unknown,
    Atom,
    Empty,
}

/// The coordinate whose scan index is `i`.
pub open spec fn coord_of(i: int) -> I8Vec2 {
    I8Vec2 { x: (i % 8) as i8, y: (i / 8) as i8 }
}

/// The scan index and the coordinate determine one another on the grid.
proof fn lemma_index_coord(i: int)
    requires
        0 <= i < 64,
    ensures
        grid_index(coord_of(i)) == i,
        coord_of(i).spec_in_grid(),
{
}

/// The coordinate of a cell's scan index is the cell itself.
proof fn lemma_coord_index(c: I8Vec2)
    requires
        c.spec_in_grid(),
    ensures
        coord_of(grid_index(c)) == c,
        0 <= grid_index(c) < 64,
{
}

/// The solver's knowledge agrees with ground-truth cells `g`: every cell
/// known `Empty` is indeed unoccupied and every cell known `Atom` is
/// indeed occupied.
pub open spec fn consistent_with(u: Seq<GridKnowledge>, g: Seq<bool>) -> bool {
    forall|i: int|
        0 <= i < 64 ==> ((#[trigger] u[i] == GridKnowledge::Empty ==> !g[i]) && (u[i]
            == GridKnowledge::Atom ==> g[i]))
}

/// The cell a probe from slot (d, shift) inspects first: one step into
/// the grid from the slot's border position.
pub open spec fn probe_center(d: Direction, shift: u8) -> I8Vec2 {
    vadd(spec_new_tip(shift, d).position, d.spec_dxy())
}

/// The five cells slot (d, shift) vouches for: its probe center and the
/// four orthogonal neighbors of that center.
pub open spec fn cross_cell(d: Direction, shift: u8, j: int) -> I8Vec2 {
    let center = probe_center(d, shift);
    if j == 0 {
        center
    } else if j == 1 {
        vadd(center, I8Vec2 { x: 0, y: 1 })
    } else if j == 2 {
        vadd(center, I8Vec2 { x: 0, y: -1i8 })
    } else if j == 3 {
        vadd(center, I8Vec2 { x: 1, y: 0 })
    } else {
        vadd(center, I8Vec2 { x: -1i8, y: 0 })
    }
}

/// Whether `c` is the probe center of slot (d, shift) or one of its four
/// orthogonal neighbors.
pub open spec fn in_cross(c: I8Vec2, d: Direction, shift: u8) -> bool {
    exists|j: int| 0 <= j < 5 && c == cross_cell(d, shift, j)
}

/// Whether `c` is marked empty by one of the first `k` slots of the
/// probing order whose label is symbolic.
pub open spec fn covered(c: I8Vec2, obs: Seq<Observation>, k: int) -> bool {
    exists|j: int|
        0 <= j < k && #[trigger] obs[j] is Symbolic && in_cross(
            c,
            dir_of_index(j / 8),
            (j % 8) as u8,
        )
}

/// The solver's working grid: tri-state knowledge for each of the 64
/// cells, created all-unknown and refined monotonically.
///
/// The view is the sequence of the 64 cells in the same row-major scan
/// order as the atom grid's view.
#[derive(Debug)]
pub struct UncertainGrid {
    cells: Vec<GridKnowledge>,
}

impl View for UncertainGrid {
    type V = Seq<GridKnowledge>;

    closed spec fn view(&self) -> Seq<GridKnowledge> {
        self.cells@
    }
}

impl Default for UncertainGrid {
    /// A grid with every cell unknown.
    fn default() -> (r: Self)
        ensures
            r@ == Seq::new(64, |i: int| GridKnowledge::Unknown),
    {
        let mut cells: Vec<GridKnowledge> = Vec::new();
        let mut i: usize = 0;
        while i < 64
            invariant
                i <= 64,
                cells@.len() == i,
                forall|t: int| 0 <= t < i ==> cells@[t] == GridKnowledge::Unknown,
            decreases 64 - i,
        {
            cells.push(GridKnowledge::Unknown);
            i += 1;
        }
        let r = UncertainGrid { cells };
        proof {
            assert(r@ =~= Seq::new(64, |i: int| GridKnowledge::Unknown));
        }
        r
    }
}

impl UncertainGrid {
    #[verifier::type_invariant]
    spec fn wf(self) -> bool {
        self.cells@.len() == 64
    }

    /// Read the knowledge recorded for an in-grid cell.
    pub fn get(&self, v: I8Vec2) -> (r: GridKnowledge)
        requires
            v.spec_in_grid(),
        ensures
            r == self@[grid_index(v)],
    {
        proof {
            use_type_invariant(self);
        }
        self.cells[(v.y as usize) * 8 + (v.x as usize)]
    }

    /// Record knowledge about a cell; a no-op for out-of-grid
    /// coordinates. Overwriting existing knowledge with a conflicting
    /// value is a fatal consistency violation and is surfaced, never
    /// masked.
    pub fn set_safe(&mut self, v: I8Vec2, knowledge: GridKnowledge) -> (r: Result<(), Fault>)
        requires
            knowledge != GridKnowledge::Unknown,
        ensures
            !v.spec_in_grid() ==> r is Ok && final(self)@ == old(self)@,
            v.spec_in_grid() ==> {
                let prev = old(self)@[grid_index(v)];
                if prev == GridKnowledge::Unknown || prev == knowledge {
                    r is Ok && final(self)@ == old(self)@.update(grid_index(v), knowledge)
                } else {
                    r == Err::<(), Fault>(Fault::KnowledgeConflict) && final(self)@ == old(self)@
                }
            },
            final(self)@.len() == old(self)@.len(),
    {
        proof {
            use_type_invariant(&*self);
        }
        if v.in_grid() {
            let idx: usize = (v.y as usize) * 8 + (v.x as usize);
            let prev = self.cells[idx];
            if !matches!(prev, GridKnowledge::Unknown) && prev != knowledge {
                return Err(Fault::KnowledgeConflict);
            }
            self.cells[idx] = knowledge;
            Ok(())
        } else {
            Ok(())
        }
    }
}

/// Writes that agree with a single ground-truth grid never conflict: if
/// the current knowledge is consistent with `g` and the written value is
/// what `g` holds at the written cell, `set_safe` succeeds and leaves the
/// knowledge consistent with `g` again. By induction, no sequence of such
/// calls ever faults.
pub proof fn lemma_knowledge_monotonic(
    u: Seq<GridKnowledge>,
    g: Seq<bool>,
    v: I8Vec2,
    k: GridKnowledge,
)
    requires
        u.len() == 64,
        consistent_with(u, g),
        k != GridKnowledge::Unknown,
        v.spec_in_grid() ==> (k == GridKnowledge::Atom <==> g[grid_index(v)]),
    ensures
        v.spec_in_grid() ==> (u[grid_index(v)] == GridKnowledge::Unknown || u[grid_index(v)]
            == k),
        v.spec_in_grid() ==> consistent_with(u.update(grid_index(v), k), g),
{
    if v.spec_in_grid() {
        lemma_coord_index(v);
    }
}

/// Mark the probe center of slot (d, shift) and its four orthogonal
/// neighbors `Empty`, stopping at the first conflict.
fn mark_cross(grid: &mut UncertainGrid, d: Direction, shift: u8) -> (r: Result<(), Fault>)
    requires
        shift < 8,
        old(grid)@.len() == 64,
    ensures
        final(grid)@.len() == 64,
        r is Ok <==> (forall|c: I8Vec2|
            #[trigger] in_cross(c, d, shift) && c.spec_in_grid() ==> old(grid)@[grid_index(c)]
                != GridKnowledge::Atom),
        r is Ok ==> forall|i: int|
            0 <= i < 64 ==> final(grid)@[i] == (if in_cross(coord_of(i), d, shift) && old(
                grid,
            )@[i] == GridKnowledge::Unknown {
                GridKnowledge::Empty
            } else {
                old(grid)@[i]
            }),
        forall|i: int|
            0 <= i < 64 ==> (#[trigger] final(grid)@[i] == old(grid)@[i] || (old(grid)@[i]
                == GridKnowledge::Unknown && final(grid)@[i] == GridKnowledge::Empty && in_cross(
                coord_of(i),
                d,
                shift,
            ))),
        r is Err ==> r == Err::<(), Fault>(Fault::KnowledgeConflict),
{
    let ghost g0 = grid@;
    let tip = LaserTip::new(shift, d);
    let center = tip.position.add(d.dxy());
    proof {
        assert(center == probe_center(d, shift));
    }
    let mut j: usize = 0;
    while j < 5
        invariant
            j <= 5,
            shift < 8,
            g0.len() == 64,
            grid@.len() == 64,
            center == probe_center(d, shift),
            g0 == old(grid)@,
            -2 <= center.x <= 9,
            -2 <= center.y <= 9,
            forall|i: int|
                0 <= i < 64 ==> #[trigger] grid@[i] == (if (exists|t: int|
                    0 <= t < j && coord_of(i) == cross_cell(d, shift, t)) && g0[i]
                    == GridKnowledge::Unknown {
                    GridKnowledge::Empty
                } else {
                    g0[i]
                }),
            forall|t: int|
                0 <= t < j && #[trigger] cross_cell(d, shift, t).spec_in_grid() ==> g0[grid_index(
                    cross_cell(d, shift, t),
                )] != GridKnowledge::Atom,
        decreases 5 - j,
    {
        let off = if j == 0 {
            I8Vec2::new(0, 0)
        } else if j == 1 {
            I8Vec2::new(0, 1)
        } else if j == 2 {
            I8Vec2::new(0, -1)
        } else if j == 3 {
            I8Vec2::new(1, 0)
        } else {
            I8Vec2::new(-1, 0)
        };
        let cell = center.add(off);
        proof {
            assert(cell == cross_cell(d, shift, j as int));
            if cell.spec_in_grid() {
                lemma_coord_index(cell);
            }
        }
        let ghost pre = grid@;
        match grid.set_safe(cell, GridKnowledge::Empty) {
            Ok(()) => {
                proof {
                    assert forall|i: int| 0 <= i < 64 implies #[trigger] grid@[i] == (if (
                    exists|t: int|
                        0 <= t < j + 1 && coord_of(i) == cross_cell(d, shift, t)) && g0[i]
                        == GridKnowledge::Unknown {
                        GridKnowledge::Empty
                    } else {
                        g0[i]
                    }) by {
                        lemma_index_coord(i);
                        if cell.spec_in_grid() && i == grid_index(cell) {
                            assert(coord_of(i) == cross_cell(d, shift, j as int));
                        } else {
                            assert(grid@[i] == pre[i]);
                            if exists|t: int|
                                0 <= t < j + 1 && coord_of(i) == cross_cell(d, shift, t) {
                                let t = choose|t: int|
                                    0 <= t < j + 1 && coord_of(i) == cross_cell(d, shift, t);
                                if t == j {
                                    assert(coord_of(i) == cell);
                                    assert(cell.spec_in_grid());
                                    assert(i == grid_index(cell));
                                }
                            }
                        }
                    }
                    if cell.spec_in_grid() {
                        assert(pre[grid_index(cell)] != GridKnowledge::Atom
                            || pre[grid_index(cell)] == GridKnowledge::Empty);
                        assert(g0[grid_index(cell)] != GridKnowledge::Atom);
                    }
                }
            },
            Err(f) => {
                proof {
                    assert(cell.spec_in_grid());
                    assert(pre[grid_index(cell)] == GridKnowledge::Atom);
                    assert(g0[grid_index(cell)] == GridKnowledge::Atom);
                    assert(in_cross(cell, d, shift));
                    assert forall|i: int| 0 <= i < 64 implies (#[trigger] grid@[i] == g0[i] || (
                    g0[i] == GridKnowledge::Unknown && grid@[i] == GridKnowledge::Empty
                        && in_cross(coord_of(i), d, shift))) by {
                        if grid@[i] != g0[i] {
                            let t = choose|t: int|
                                0 <= t < j && coord_of(i) == cross_cell(d, shift, t);
                            assert(in_cross(coord_of(i), d, shift));
                        }
                    }
                }
                return Err(f);
            },
        }
        j += 1;
    }
    proof {
        assert forall|i: int| 0 <= i < 64 implies #[trigger] grid@[i] == (if in_cross(
            coord_of(i),
            d,
            shift,
        ) && g0[i] == GridKnowledge::Unknown {
            GridKnowledge::Empty
        } else {
            g0[i]
        }) by {
            assert(in_cross(coord_of(i), d, shift) <==> exists|t: int|
                0 <= t < 5 && coord_of(i) == cross_cell(d, shift, t));
        }
        assert forall|i: int| 0 <= i < 64 implies (#[trigger] grid@[i] == g0[i] || (g0[i]
            == GridKnowledge::Unknown && grid@[i] == GridKnowledge::Empty && in_cross(
            coord_of(i),
            d,
            shift,
        ))) by {}
    }
    Ok(())
}

/// Apply the primary deduction rule: for every border slot whose label is
/// symbolic (a matched entry/exit pair), the cell directly ahead of the
/// probe's entry point and its four orthogonal neighbors are marked
/// `Empty`. This rule never marks a cell `Atom` and never uses the
/// `Absorbed` or `Reflected` labels. A conflict with existing knowledge
/// is surfaced as a fault.
pub fn letter_finds_four_empty_spaces(
    grid: &mut UncertainGrid,
    observations: &Observations,
) -> (r: Result<(), Fault>)
    ensures
        r is Ok <==> (forall|c: I8Vec2|
            c.spec_in_grid() && #[trigger] covered(c, observations@, 32) ==> old(grid)@[grid_index(
                c,
            )] != GridKnowledge::Atom),
        r is Ok ==> forall|i: int|
            0 <= i < 64 ==> final(grid)@[i] == (if covered(coord_of(i), observations@, 32) && old(
                grid,
            )@[i] == GridKnowledge::Unknown {
                GridKnowledge::Empty
            } else {
                old(grid)@[i]
            }),
        forall|i: int|
            0 <= i < 64 ==> (#[trigger] final(grid)@[i] == old(grid)@[i] || (old(grid)@[i]
                == GridKnowledge::Unknown && final(grid)@[i] == GridKnowledge::Empty && covered(
                coord_of(i),
                observations@,
                32,
            ))),
        r is Err ==> r == Err::<(), Fault>(Fault::KnowledgeConflict),
{
    let ghost obs = observations@;
    let ghost initial = grid@;
    proof {
        use_type_invariant(&*grid);
    }
    let dirs = Direction::all();
    let mut di: usize = 0;
    while di < 4
        invariant
            di <= 4,
            obs == observations@,
            grid@.len() == 64,
            initial.len() == 64,
            initial == old(grid)@,
            forall|i: int|
                0 <= i < 64 ==> #[trigger] grid@[i] == (if covered(coord_of(i), obs, di as int * 8)
                    && initial[i] == GridKnowledge::Unknown {
                    GridKnowledge::Empty
                } else {
                    initial[i]
                }),
            forall|c: I8Vec2|
                c.spec_in_grid() && #[trigger] covered(c, obs, di as int * 8) ==> initial[grid_index(
                    c,
                )] != GridKnowledge::Atom,
            dirs@ == seq![Direction::Up, Direction::Down, Direction::Left, Direction::Right],
        decreases 4 - di,
    {
        let d = dirs[di];
        let mut shift: usize = 0;
        while shift < 8
            invariant
                di < 4,
                shift <= 8,
                obs == observations@,
                grid@.len() == 64,
                initial.len() == 64,
                initial == old(grid)@,
                d == dirs@[di as int],
                d == dir_of_index(di as int),
                forall|i: int|
                    0 <= i < 64 ==> #[trigger] grid@[i] == (if covered(
                        coord_of(i),
                        obs,
                        di as int * 8 + shift as int,
                    ) && initial[i] == GridKnowledge::Unknown {
                        GridKnowledge::Empty
                    } else {
                        initial[i]
                    }),
                forall|c: I8Vec2|
                    c.spec_in_grid() && #[trigger] covered(c, obs, di as int * 8 + shift as int)
                        ==> initial[grid_index(c)] != GridKnowledge::Atom,
                dirs@ == seq![Direction::Up, Direction::Down, Direction::Left, Direction::Right],
            decreases 8 - shift,
        {
            let ghost k: int = di as int * 8 + shift as int;
            let ghost pre = grid@;
            proof {
                assert(k / 8 == di as int && k % 8 == shift as int);
            }
            let label = observations.label_at(d, shift as u8);
            if label.is_symbolic() {
                match mark_cross(grid, d, shift as u8) {
                    Ok(()) => {
                        proof {
                            lemma_cover_step(initial, pre, grid@, obs, k, d, shift as u8);
                        }
                    },
                    Err(f) => {
                        proof {
                            let c = choose|c: I8Vec2|
                                #[trigger] in_cross(c, d, shift as u8) && c.spec_in_grid() && pre[
                                    grid_index(c)
                                ] == GridKnowledge::Atom;
                            assert(covered(c, obs, 32));
                            assert(initial[grid_index(c)] == GridKnowledge::Atom);
                            lemma_err_partial(initial, pre, grid@, obs, k, d, shift as u8);
                        }
                        return Err(f);
                    },
                }
            } else {
                proof {
                    assert forall|c: I8Vec2| #[trigger] covered(c, obs, k + 1) implies covered(
                        c,
                        obs,
                        k,
                    ) by {
                        let j = choose|j: int|
                            0 <= j < k + 1 && #[trigger] obs[j] is Symbolic && in_cross(
                                c,
                                dir_of_index(j / 8),
                                (j % 8) as u8,
                            );
                        assert(j < k);
                    }
                }
            }
            shift += 1;
        }
        proof {
            lemma_covered_rebound(initial, grid@, obs, di as int * 8 + 8, (di as int + 1) * 8);
        }
        di += 1;
    }
    proof {
        lemma_covered_rebound(initial, grid@, obs, di as int * 8, 32);
    }
    Ok(())
}

/// Restate the solver's loop facts with one slot-count term replaced by
/// an equal one, so that callers can connect the two forms.
proof fn lemma_covered_rebound(
    initial: Seq<GridKnowledge>,
    cur: Seq<GridKnowledge>,
    obs: Seq<Observation>,
    k1: int,
    k2: int,
)
    requires
        k1 == k2,
        initial.len() == 64,
        cur.len() == 64,
        forall|i: int|
            0 <= i < 64 ==> #[trigger] cur[i] == (if covered(coord_of(i), obs, k1) && initial[i]
                == GridKnowledge::Unknown {
                GridKnowledge::Empty
            } else {
                initial[i]
            }),
        forall|c: I8Vec2|
            c.spec_in_grid() && #[trigger] covered(c, obs, k1) ==> initial[grid_index(c)]
                != GridKnowledge::Atom,
    ensures
        forall|i: int|
            0 <= i < 64 ==> #[trigger] cur[i] == (if covered(coord_of(i), obs, k2) && initial[i]
                == GridKnowledge::Unknown {
                GridKnowledge::Empty
            } else {
                initial[i]
            }),
        forall|c: I8Vec2|
            c.spec_in_grid() && #[trigger] covered(c, obs, k2) ==> initial[grid_index(c)]
                != GridKnowledge::Atom,
{
}

/// The mark a knowledge state renders as: unknown cells stay open
/// questions, known markers and known gaps use the grid's own marks.
pub open spec fn spec_knowledge_char(k: GridKnowledge) -> char {
    match k {
        GridKnowledge::Unknown => '?',
        GridKnowledge::Atom => 'o',
        GridKnowledge::Empty => '.',
    }
}

/// The characters of the first `n` cells of row `y` of the solver's grid.
pub open spec fn spec_knowledge_row(cells: Seq<GridKnowledge>, y: int, n: int) -> Seq<char>
    decreases n,
{
    if n <= 0 {
        Seq::empty()
    } else {
        spec_knowledge_row(cells, y, n - 1) + seq![
            ' ',
            spec_knowledge_char(cells[y * 8 + n - 1]),
        ]
    }
}

/// One full row of the rendering: the label of the slot probing this row
/// from the left, the row's knowledge marks, the label of the slot
/// probing it from the right.
pub open spec fn spec_uncertain_row(
    cells: Seq<GridKnowledge>,
    labels: Seq<Observation>,
    y: int,
) -> Seq<char> {
    seq![' ', spec_glyph(labels[Direction::Right.spec_side_index() * 8 + y])] + spec_knowledge_row(
        cells,
        y,
        8,
    ) + seq![' ', spec_glyph(labels[Direction::Left.spec_side_index() * 8 + y]), '\n']
}

/// The first `m` rendered rows.
pub open spec fn spec_uncertain_rows(
    cells: Seq<GridKnowledge>,
    labels: Seq<Observation>,
    m: int,
) -> Seq<char>
    decreases m,
{
    if m <= 0 {
        Seq::empty()
    } else {
        spec_uncertain_rows(cells, labels, m - 1) + spec_uncertain_row(cells, labels, m - 1)
    }
}

/// The full canonical rendering of the solver's grid with its
/// observations: the downward-probing labels on top, the eight rows with
/// their sideways labels, the upward-probing labels at the bottom.
pub open spec fn spec_draw(cells: Seq<GridKnowledge>, labels: Seq<Observation>) -> Seq<char> {
    spec_label_row(labels, Direction::Down.spec_side_index() * 8, 8).push('\n')
        + spec_uncertain_rows(cells, labels, 8) + spec_label_row(
        labels,
        Direction::Up.spec_side_index() * 8,
        8,
    ).push('\n')
}

/// Render the solver's knowledge together with the four border label
/// rows of the observations it was derived from.
#[verifier::loop_isolation(false)]
pub fn draw(grid: &UncertainGrid, observations: &Observations) -> (r: String)
    ensures
        r@ == spec_draw(grid@, observations@),
{
    proof {
        use_type_invariant(grid);
    }
    let mut f = String::new();
    push_label_row(&mut f, observations, Direction::Down);
    let mut y: usize = 0;
    while y < 8
        invariant
            y <= 8,
            f@ == spec_label_row(observations@, Direction::Down.spec_side_index() * 8, 8).push(
                '\n',
            ) + spec_uncertain_rows(grid@, observations@, y as int),
        decreases 8 - y,
    {
        let ghost row_start = f@;
        push_char(&mut f, ' ');
        push_char(&mut f, observations.label_at(Direction::Right, y as u8).glyph());
        proof {
            assert(f@ =~= row_start + seq![
                ' ',
                spec_glyph(observations@[Direction::Right.spec_side_index() * 8 + y as int]),
            ] + spec_knowledge_row(grid@, y as int, 0));
        }
        let mut x: usize = 0;
        while x < 8
            invariant
                x <= 8,
                f@ == row_start + seq![
                    ' ',
                    spec_glyph(observations@[Direction::Right.spec_side_index() * 8 + y as int]),
                ] + spec_knowledge_row(grid@, y as int, x as int),
            decreases 8 - x,
        {
            let mark = match grid.get(I8Vec2::new(x as i8, y as i8)) {
                GridKnowledge::Unknown => '?',
                GridKnowledge::Atom => 'o',
                GridKnowledge::Empty => '.',
            };
            push_char(&mut f, ' ');
            push_char(&mut f, mark);
            x += 1;
            proof {
                assert(f@ =~= row_start + seq![
                    ' ',
                    spec_glyph(observations@[Direction::Right.spec_side_index() * 8 + y as int]),
                ] + spec_knowledge_row(grid@, y as int, x as int));
            }
        }
        push_char(&mut f, ' ');
        push_char(&mut f, observations.label_at(Direction::Left, y as u8).glyph());
        push_char(&mut f, '\n');
        y += 1;
        proof {
            assert(f@ =~= spec_label_row(observations@, Direction::Down.spec_side_index() * 8,
            8).push('\n') + spec_uncertain_rows(grid@, observations@, y as int));
        }
    }
    push_label_row(&mut f, observations, Direction::Up);
    proof {
        assert(f@ =~= spec_draw(grid@, observations@));
    }
    f
}

/// The ground truth behind the primary rule, for the entry side of a
/// pair: when the probe of slot (d, shift) makes at least two moves and
/// leaves the grid, its first move was a straight pass, so the probe
/// center and all four of its orthogonal neighbors are free of markers —
/// the two beside it are the cells that straight pass inspected, the one
/// ahead is cleared by the second move's own inspection, and the one
/// behind is the border position outside the grid.
pub proof fn lemma_clean_pass_cross_empty(d: Direction, shift: u8, cells: Seq<bool>)
    requires
        shift < 8,
        crate::laser::spec_run(spec_new_tip(shift, d), cells, 255) is Some,
        (crate::laser::spec_run(spec_new_tip(shift, d), cells, 255)->0).1 >= 2,
        (crate::laser::spec_run(spec_new_tip(shift, d), cells, 255)->0).0 is Some,
    ensures
        forall|c: I8Vec2| #[trigger] in_cross(c, d, shift) ==> !grid_get(cells, c),
{
    let tip = spec_new_tip(shift, d);
    let center = probe_center(d, shift);
    let run = crate::laser::spec_run(tip, cells, 255);
    match crate::laser::spec_move_once(tip, cells) {
        None => {
            assert(false);
        },
        Some(t2) => {
            if !t2.position.spec_in_grid() {
                assert((run->0).1 == 1);
                assert(false);
            } else {
                assert(t2 == LaserTip { position: center, direction: d });
                assert(!grid_get(cells, center));
                assert(!grid_get(cells, vadd(center, d.spec_counter_clockwise().spec_dxy())));
                assert(!grid_get(cells, vadd(center, d.spec_clockwise().spec_dxy())));
                let inner = crate::laser::spec_run(t2, cells, 254);
                assert(inner is Some && (inner->0).0 is Some);
                match crate::laser::spec_move_once(t2, cells) {
                    None => {
                        assert(false);
                    },
                    Some(_) => {
                        assert(!grid_get(cells, vadd(center, d.spec_dxy())));
                    },
                }
                assert(!grid_get(cells, tip.position));
                assert forall|c: I8Vec2| #[trigger] in_cross(c, d, shift) implies !grid_get(
                    cells,
                    c,
                ) by {
                    let j = choose|j: int| 0 <= j < 5 && c == cross_cell(d, shift, j);
                    assert(vadd(center, d.spec_flip().spec_dxy()) == tip.position);
                }
            }
        },
    }
}

/// Derive everything the primary rule can from a finalized observation
/// table, starting from no knowledge. Starting from scratch no conflict
/// is possible, so this always returns a grid: exactly the cells vouched
/// for by a symbolic slot are known empty, all others stay unknown.
pub fn solve_as_much_as_you_can(observations: &Observations) -> (r: UncertainGrid)
    ensures
        forall|i: int|
            0 <= i < 64 ==> r@[i] == (if covered(coord_of(i), observations@, 32) {
                GridKnowledge::Empty
            } else {
                GridKnowledge::Unknown
            }),
{
    let mut grid = UncertainGrid::default();
    match letter_finds_four_empty_spaces(&mut grid, observations) {
        Ok(()) => grid,
        Err(_) => {
            proof {
                assert(false);
            }
            unreached()
        },
    }
}

/// After a successful cross marking at slot `k`, the cell formula and the
/// no-conflict bound step from `k` to `k + 1` slots.
proof fn lemma_cover_step(
    initial: Seq<GridKnowledge>,
    pre: Seq<GridKnowledge>,
    post: Seq<GridKnowledge>,
    obs: Seq<Observation>,
    k: int,
    d: Direction,
    shift: u8,
)
    requires
        0 <= k < 32,
        initial.len() == 64,
        pre.len() == 64,
        post.len() == 64,
        shift < 8,
        d == dir_of_index(k / 8),
        shift == k % 8,
        obs[k] is Symbolic,
        forall|i: int|
            0 <= i < 64 ==> #[trigger] pre[i] == (if covered(coord_of(i), obs, k) && initial[i]
                == GridKnowledge::Unknown {
                GridKnowledge::Empty
            } else {
                initial[i]
            }),
        forall|c: I8Vec2|
            c.spec_in_grid() && #[trigger] covered(c, obs, k) ==> initial[grid_index(c)]
                != GridKnowledge::Atom,
        forall|c: I8Vec2|
            #[trigger] in_cross(c, d, shift) && c.spec_in_grid() ==> pre[grid_index(c)]
                != GridKnowledge::Atom,
        forall|i: int|
            0 <= i < 64 ==> #[trigger] post[i] == (if in_cross(coord_of(i), d, shift) && pre[i]
                == GridKnowledge::Unknown {
                GridKnowledge::Empty
            } else {
                pre[i]
            }),
    ensures
        forall|i: int|
            0 <= i < 64 ==> #[trigger] post[i] == (if covered(coord_of(i), obs, k + 1)
                && initial[i] == GridKnowledge::Unknown {
                GridKnowledge::Empty
            } else {
                initial[i]
            }),
        forall|c: I8Vec2|
            c.spec_in_grid() && #[trigger] covered(c, obs, k + 1) ==> initial[grid_index(c)]
                != GridKnowledge::Atom,
{
    assert forall|c: I8Vec2| c.spec_in_grid() && #[trigger] covered(c, obs, k + 1) implies initial[
        grid_index(c)
    ] != GridKnowledge::Atom by {
        let j = choose|j: int|
            0 <= j < k + 1 && #[trigger] obs[j] is Symbolic && in_cross(
                c,
                dir_of_index(j / 8),
                (j % 8) as u8,
            );
        if j == k {
            assert(in_cross(c, d, shift));
            lemma_coord_index(c);
            if pre[grid_index(c)] != initial[grid_index(c)] {
                assert(pre[grid_index(c)] == GridKnowledge::Empty);
            }
        } else {
            assert(covered(c, obs, k));
        }
    }
    assert forall|i: int| 0 <= i < 64 implies #[trigger] post[i] == (if covered(
        coord_of(i),
        obs,
        k + 1,
    ) && initial[i] == GridKnowledge::Unknown {
        GridKnowledge::Empty
    } else {
        initial[i]
    }) by {
        let c = coord_of(i);
        lemma_index_coord(i);
        if covered(c, obs, k + 1) {
            let j = choose|j: int|
                0 <= j < k + 1 && #[trigger] obs[j] is Symbolic && in_cross(
                    c,
                    dir_of_index(j / 8),
                    (j % 8) as u8,
                );
            if j < k {
                assert(covered(c, obs, k));
            } else {
                assert(in_cross(c, d, shift));
            }
        } else {
            assert(!covered(c, obs, k)) by {
                if covered(c, obs, k) {
                    let j = choose|j: int|
                        0 <= j < k && #[trigger] obs[j] is Symbolic && in_cross(
                            c,
                            dir_of_index(j / 8),
                            (j % 8) as u8,
                        );
                    assert(covered(c, obs, k + 1));
                }
            }
            assert(!in_cross(c, d, shift)) by {
                if in_cross(c, d, shift) {
                    assert(obs[k] is Symbolic && in_cross(c, dir_of_index(k / 8), (k % 8) as u8));
                    assert(covered(c, obs, k + 1));
                }
            }
        }
    }
}

/// On a fault the partial marking still only turned unknown cells of
/// covered crosses empty.
proof fn lemma_err_partial(
    initial: Seq<GridKnowledge>,
    pre: Seq<GridKnowledge>,
    post: Seq<GridKnowledge>,
    obs: Seq<Observation>,
    k: int,
    d: Direction,
    shift: u8,
)
    requires
        0 <= k < 32,
        initial.len() == 64,
        pre.len() == 64,
        post.len() == 64,
        shift < 8,
        d == dir_of_index(k / 8),
        shift == k % 8,
        obs[k] is Symbolic,
        forall|i: int|
            0 <= i < 64 ==> #[trigger] pre[i] == (if covered(coord_of(i), obs, k) && initial[i]
                == GridKnowledge::Unknown {
                GridKnowledge::Empty
            } else {
                initial[i]
            }),
        forall|i: int|
            0 <= i < 64 ==> (#[trigger] post[i] == pre[i] || (pre[i] == GridKnowledge::Unknown
                && post[i] == GridKnowledge::Empty && in_cross(coord_of(i), d, shift))),
    ensures
        forall|i: int|
            0 <= i < 64 ==> (#[trigger] post[i] == initial[i] || (initial[i]
                == GridKnowledge::Unknown && post[i] == GridKnowledge::Empty && covered(
                coord_of(i),
                obs,
                32,
            ))),
{
    assert forall|i: int| 0 <= i < 64 implies (#[trigger] post[i] == initial[i] || (initial[i]
        == GridKnowledge::Unknown && post[i] == GridKnowledge::Empty && covered(
        coord_of(i),
        obs,
        32,
    ))) by {
        let c = coord_of(i);
        if post[i] != initial[i] {
            if pre[i] != initial[i] {
                assert(covered(c, obs, k));
                let j = choose|j: int|
                    0 <= j < k && #[trigger] obs[j] is Symbolic && in_cross(
                        c,
                        dir_of_index(j / 8),
                        (j % 8) as u8,
                    );
                assert(covered(c, obs, 32));
            } else {
                assert(in_cross(c, d, shift));
                assert(obs[k] is Symbolic && in_cross(c, dir_of_index(k / 8), (k % 8) as u8));
                assert(covered(c, obs, 32));
            }
        }
    }
}

} // verus!
