//! The observation table: the outcome of probing every border slot of a
//! grid, with causally linked entry/exit pairs sharing a symbolic label.

use vstd::prelude::*;
use crate::atom_grid::AtomGrid;
use crate::i8vec2::I8Vec2;
use crate::laser::{
    Direction, LaserTip, is_border_slot, spec_slot_of, spec_new_tip, spec_run,
};
use crate::Fault;

verus! {

/// What a single border slot revealed. A `Symbolic` label links the entry
/// and exit slots of one traversal; its values start after three reserved
/// sentinels, so the counter begins at 3.
#[derive(Copy, Clone, Debug, PartialEq, Eq, Structural)]
pub enum Observation {
    NotProbed,
    Absorbed,
    Reflected,
    Symbolic(u8),
}

impl Observation {
    /// Whether this label is a symbolic pair label.
    pub fn is_symbolic(&self) -> (r: bool)
        ensures
            r == (self is Symbolic),
    {
        matches!(self, Observation::Symbolic(_))
    }

    /// The glyph this label renders as.
    pub fn glyph(&self) -> (r: char)
        ensures
            r == spec_glyph(*self),
    {
        match self {
            Observation::NotProbed => '?',
            Observation::Absorbed => '×',
            Observation::Reflected => '⇄',
            Observation::Symbolic(n) => {
                let v = *n;
                if v == 3 {
                    'A'
                } else if v == 4 {
                    'B'
                } else if v == 5 {
                    'C'
                } else if v == 6 {
                    'D'
                } else if v == 7 {
                    'E'
                } else if v == 8 {
                    'F'
                } else if v == 9 {
                    'G'
                } else if v == 10 {
                    'H'
                } else if v == 11 {
                    'K'
                } else if v == 12 {
                    'L'
                } else if v == 13 {
                    'M'
                } else if v == 14 {
                    'N'
                } else if v == 15 {
                    'P'
                } else if v == 16 {
                    'R'
                } else if v == 17 {
                    'S'
                } else if v == 18 {
                    'T'
                } else if v == 19 {
                    'U'
                } else if v == 20 {
                    'V'
                } else if v == 21 {
                    'W'
                } else if v == 22 {
                    'Y'
                } else if v == 23 {
                    'Z'
                } else {
                    '?'
                }
            },
        }
    }
}

/// The letter standing for symbolic value `n`: a fixed ordered alphabet
/// with visually ambiguous characters excluded, assigned in counter
/// order starting at the first symbolic value.
pub open spec fn spec_symbol_char(n: u8) -> char {
    if n == 3 {
        'A'
    } else if n == 4 {
        'B'
    } else if n == 5 {
        'C'
    } else if n == 6 {
        'D'
    } else if n == 7 {
        'E'
    } else if n == 8 {
        'F'
    } else if n == 9 {
        'G'
    } else if n == 10 {
        'H'
    } else if n == 11 {
        'K'
    } else if n == 12 {
        'L'
    } else if n == 13 {
        'M'
    } else if n == 14 {
        'N'
    } else if n == 15 {
        'P'
    } else if n == 16 {
        'R'
    } else if n == 17 {
        'S'
    } else if n == 18 {
        'T'
    } else if n == 19 {
        'U'
    } else if n == 20 {
        'V'
    } else if n == 21 {
        'W'
    } else if n == 22 {
        'Y'
    } else if n == 23 {
        'Z'
    } else {
        '?'
    }
}

/// The glyph a label renders as: fixed sentinels distinct from the
/// symbolic alphabet, and a letter per symbolic value.
pub open spec fn spec_glyph(o: Observation) -> char {
    match o {
        Observation::NotProbed => '?',
        Observation::Absorbed => '×',
        Observation::Reflected => '⇄',
        Observation::Symbolic(n) => spec_symbol_char(n),
    }
}

/// How many entries of `s` equal `lbl`.
pub open spec fn count_label(s: Seq<Observation>, lbl: Observation) -> nat
    decreases s.len(),
{
    if s.len() == 0 {
        0
    } else {
        count_label(s.drop_last(), lbl) + (if s.last() == lbl {
            1nat
        } else {
            0nat
        })
    }
}

/// Index of the border slot (direction, shift) in the fixed probing order.
pub open spec fn slot_index(d: Direction, shift: u8) -> int {
    d.spec_side_index() * 8 + shift
}

/// The direction whose slots occupy block `i` of the probing order.
pub open spec fn dir_of_index(i: int) -> Direction {
    if i == 0 {
        Direction::Up
    } else if i == 1 {
        Direction::Down
    } else if i == 2 {
        Direction::Left
    } else {
        Direction::Right
    }
}

/// Well-formedness of an observation table with symbol counter `next`:
/// every assigned symbolic value occurs at exactly two slots, no
/// unassigned one occurs at all, and the counter never ran further than
/// the probed slots allow (each assignment consumes two unprobed slots).
pub open spec fn labels_wf(sides: Seq<Observation>, next: u8) -> bool {
    &&& sides.len() == 32
    &&& next >= 3
    &&& forall|n: u8|
        3 <= n < next ==> #[trigger] count_label(sides, Observation::Symbolic(n)) == 2
    &&& forall|n: u8|
        (n < 3 || n >= next) ==> #[trigger] count_label(sides, Observation::Symbolic(n)) == 0
    &&& 2 * (next - 3) + count_label(sides, Observation::NotProbed) <= 32
}

/// The table and counter that one probe leaves behind, mirroring the
/// labeling policy: an exit within one step or back at the entry slot is a
/// reflection; any other exit assigns the next symbolic value to entry and
/// exit; absorption after more than one step marks the entry absorbed.
/// `None` is a fault: a runaway traversal, or an exit slot already labeled.
pub open spec fn spec_probe(
    sides: Seq<Observation>,
    next: u8,
    laser: LaserTip,
    cells: Seq<bool>,
) -> Option<(Seq<Observation>, u8)> {
    let in_slot = spec_slot_of(laser.position);
    let entry = slot_index(in_slot.1, in_slot.0);
    match spec_run(laser, cells, 255) {
        None => None,
        Some(outcome) => if outcome.1 <= 1 && outcome.0 is Some {
            Some((sides.update(entry, Observation::Reflected), next))
        } else if outcome.0 is Some {
            let out_slot = spec_slot_of(outcome.0->0.position);
            if out_slot == in_slot {
                Some((sides.update(entry, Observation::Reflected), next))
            } else {
                let exit = slot_index(out_slot.1, out_slot.0);
                if sides[exit] != Observation::NotProbed {
                    None
                } else {
                    Some(
                        (
                            sides.update(entry, Observation::Symbolic(next)).update(
                                exit,
                                Observation::Symbolic(next),
                            ),
                            (next + 1) as u8,
                        ),
                    )
                }
            }
        } else {
            Some((sides.update(entry, Observation::Absorbed), next))
        },
    }
}

/// The table and counter after probing the first `k` slots of the fixed
/// order (skipping the ones an earlier probe already resolved), starting
/// from the fresh table; `None` once any probe faults.
pub open spec fn spec_observe_fold(cells: Seq<bool>, k: int) -> Option<(Seq<Observation>, u8)>
    decreases k,
{
    if k <= 0 {
        Some((Seq::new(32, |i: int| Observation::NotProbed), 3u8))
    } else {
        match spec_observe_fold(cells, k - 1) {
            None => None,
            Some(st) => {
                let d = dir_of_index((k - 1) / 8);
                let sh = ((k - 1) % 8) as u8;
                if st.0[k - 1] != Observation::NotProbed {
                    Some(st)
                } else {
                    spec_probe(st.0, st.1, spec_new_tip(sh, d), cells)
                }
            },
        }
    }
}

/// The information a grid reveals to the player: one label per border
/// slot, filled in by exhaustive probing.
///
/// The view is the sequence of the 32 slot labels in probing order:
/// slot (direction, shift) sits at entry `side_index(direction) * 8 + shift`.
#[derive(Debug)]
pub struct Observations {
    next_observation: u8,
    sides: Vec<Observation>,
}

impl View for Observations {
    type V = Seq<Observation>;

    closed spec fn view(&self) -> Seq<Observation> {
        self.sides@
    }
}

impl Default for Observations {
    /// A table with every slot still unprobed and the counter at its
    /// first symbolic value.
    fn default() -> (r: Self)
        ensures
            r@ == Seq::new(32, |i: int| Observation::NotProbed),
            r.spec_next() == 3,
            labels_wf(r@, r.spec_next()),
    {
        let mut sides: Vec<Observation> = Vec::new();
        let mut i: usize = 0;
        while i < 32
            invariant
                i <= 32,
                sides@.len() == i,
                forall|t: int| 0 <= t < i ==> sides@[t] == Observation::NotProbed,
            decreases 32 - i,
        {
            sides.push(Observation::NotProbed);
            i += 1;
        }
        let r = Observations { next_observation: 3, sides };
        proof {
            assert(r@ =~= Seq::new(32, |i: int| Observation::NotProbed));
            assert forall|n: u8| true implies #[trigger] count_label(
                r@,
                Observation::Symbolic(n),
            ) == 0 by {
                lemma_count_label_absent(r@, Observation::Symbolic(n));
            }
            lemma_count_label_bound(r@, Observation::NotProbed);
        }
        r
    }
}

impl Observations {
    #[verifier::type_invariant]
    spec fn len_wf(self) -> bool {
        self.sides@.len() == 32
    }

    /// The next symbolic value the table would assign.
    pub closed spec fn spec_next(self) -> u8 {
        self.next_observation
    }

    /// The label recorded for one border slot.
    pub fn label_at(&self, direction: Direction, shift: u8) -> (r: Observation)
        requires
            shift < 8,
        ensures
            r == self@[slot_index(direction, shift)],
    {
        proof {
            use_type_invariant(self);
        }
        self.sides[direction.side_index() * 8 + shift as usize]
    }

    /// Probe one border slot: traverse the grid from `laser` and record
    /// the outcome, labeling the matching exit slot too when the ray
    /// comes out elsewhere. Faults are surfaced, never masked: a runaway
    /// traversal, or an exit slot that already carries a label.
    pub fn probe(&mut self, laser: LaserTip, grid: &AtomGrid) -> (r: Result<(), Fault>)
        requires
            labels_wf(old(self)@, old(self).spec_next()),
            is_border_slot(laser.position),
            old(self)@[slot_index(spec_slot_of(laser.position).1, spec_slot_of(laser.position).0)]
                == Observation::NotProbed,
        ensures
            match spec_probe(old(self)@, old(self).spec_next(), laser, grid@) {
                Some(st) => r is Ok && final(self)@ == st.0 && final(self).spec_next() == st.1,
                None => r is Err && final(self)@ == old(self)@ && final(self).spec_next() == old(
                    self,
                ).spec_next(),
            },
            labels_wf(final(self)@, final(self).spec_next()),
            r is Err ==> r == Err::<(), Fault>(
                if spec_run(laser, grid@, 255) is None {
                    Fault::RunawayTraversal
                } else {
                    Fault::SlotRelabel
                },
            ),
    {
        proof {
            use_type_invariant(&*self);
        }
        let ghost old_sides = self.sides@;
        let ghost old_next = self.next_observation;
        let slot = laser.deconstruct().unwrap();
        let in_shift = slot.0;
        let in_dir = slot.1;
        let entry: usize = in_dir.side_index() * 8 + in_shift as usize;
        let traversal = match laser.traverse_grid(grid) {
            Ok(t) => t,
            Err(f) => {
                return Err(f);
            },
        };
        let laser_out = traversal.0;
        let move_count = traversal.1;
        if move_count <= 1 && laser_out.is_some() {
            self.sides[entry] = Observation::Reflected;
            proof {
                lemma_labels_wf_sentinel_write(old_sides, old_next, entry as int,
                    Observation::Reflected);
            }
            Ok(())
        } else if let Some(out_tip) = laser_out {
            let out_slot = out_tip.deconstruct().unwrap();
            let out_shift = out_slot.0;
            let out_dir = out_slot.1;
            if in_dir == out_dir && in_shift == out_shift {
                self.sides[entry] = Observation::Reflected;
                proof {
                    lemma_labels_wf_sentinel_write(old_sides, old_next, entry as int,
                        Observation::Reflected);
                }
                Ok(())
            } else {
                let exit: usize = out_dir.side_index() * 8 + out_shift as usize;
                if !matches!(self.sides[exit], Observation::NotProbed) {
                    return Err(Fault::SlotRelabel);
                }
                proof {
                    lemma_labels_wf_pair_write(old_sides, old_next, entry as int, exit as int);
                }
                let n = self.next_observation;
                self.sides[entry] = Observation::Symbolic(n);
                self.sides[exit] = Observation::Symbolic(n);
                self.next_observation = n + 1;
                Ok(())
            }
        } else {
            self.sides[entry] = Observation::Absorbed;
            proof {
                lemma_labels_wf_sentinel_write(old_sides, old_next, entry as int,
                    Observation::Absorbed);
            }
            Ok(())
        }
    }

    /// Probe every border slot of the grid in the fixed order (direction
    /// order, then shifts 0..7), skipping slots an earlier probe already
    /// resolved. The resulting table is a function of the grid alone, so
    /// the same grid always yields the same signature.
    #[verifier::rlimit(30)]
    pub fn observe_all(grid: &AtomGrid) -> (r: Result<Observations, Fault>)
        ensures
            r is Ok <==> spec_observe_fold(grid@, 32) is Some,
            r matches Ok(o) ==> {
                &&& Some((o@, o.spec_next())) == spec_observe_fold(grid@, 32)
                &&& labels_wf(o@, o.spec_next())
                &&& forall|i: int| 0 <= i < 32 ==> o@[i] != Observation::NotProbed
            },
    {
        let ghost cells = grid@;
        let mut this = Observations::default();
        proof {
            assert(Some((this@, this.spec_next())) == spec_observe_fold(cells, 0));
        }
        let dirs = Direction::all();
        let mut di: usize = 0;
        while di < 4
            invariant
                di <= 4,
                cells == grid@,
                dirs@ == seq![Direction::Up, Direction::Down, Direction::Left, Direction::Right],
                Some((this@, this.spec_next())) == spec_observe_fold(cells, di as int * 8),
                labels_wf(this@, this.spec_next()),
                forall|i: int| 0 <= i < di as int * 8 ==> this@[i] != Observation::NotProbed,
            decreases 4 - di,
        {
            let d = dirs[di];
            let mut shift: usize = 0;
            while shift < 8
                invariant
                    di < 4,
                    shift <= 8,
                    cells == grid@,
                    dirs@ == seq![
                        Direction::Up,
                        Direction::Down,
                        Direction::Left,
                        Direction::Right,
                    ],
                    d == dirs@[di as int],
                    d == dir_of_index(di as int),
                    d.spec_side_index() == di as int,
                    Some((this@, this.spec_next())) == spec_observe_fold(
                        cells,
                        di as int * 8 + shift as int,
                    ),
                    labels_wf(this@, this.spec_next()),
                    forall|i: int|
                        0 <= i < di as int * 8 + shift as int ==> this@[i]
                            != Observation::NotProbed,
                decreases 8 - shift,
            {
                let ghost k: int = di as int * 8 + shift as int;
                let ghost pre = this@;
                let ghost pre_next = this.spec_next();
                proof {
                    assert(k / 8 == di as int && k % 8 == shift as int);
                    assert(slot_index(d, shift as u8) == k);
                }
                let already = this.label_at(d, shift as u8);
                if matches!(already, Observation::NotProbed) {
                    let tip = LaserTip::new(shift as u8, d);
                    proof {
                        assert(spec_observe_fold(cells, k + 1) == spec_probe(
                            pre,
                            pre_next,
                            tip,
                            cells,
                        ));
                    }
                    match this.probe(tip, grid) {
                        Ok(()) => {
                            proof {
                                assert(Some((this@, this.spec_next())) == spec_observe_fold(
                                    cells,
                                    k + 1,
                                ));
                                lemma_probe_keeps_probed(pre, pre_next, tip, cells, this@);
                            }
                        },
                        Err(f) => {
                            proof {
                                lemma_observe_fold_none_persists(cells, k + 1, 32);
                            }
                            return Err(f);
                        },
                    }
                } else {
                    proof {
                        assert(spec_observe_fold(cells, k + 1) == spec_observe_fold(cells, k));
                    }
                }
                shift += 1;
            }
            di += 1;
        }
        Ok(this)
    }
}

/// Relies on String::push: appends exactly the one character.
#[verifier::external_body]
pub(crate) fn push_char(s: &mut String, c: char)
    ensures
        final(s)@ == old(s)@.push(c),
{
    s.push(c);
}

/// The characters of one border row: two leading blanks, then a blank and
/// a glyph for each of the first `n` shifts of the side whose slots start
/// at `base`.
pub open spec fn spec_label_row(labels: Seq<Observation>, base: int, n: int) -> Seq<char>
    decreases n,
{
    if n <= 0 {
        seq![' ', ' ']
    } else {
        spec_label_row(labels, base, n - 1) + seq![' ', spec_glyph(labels[base + n - 1])]
    }
}

/// Append one border row and its newline: the labels of side `d` in
/// shift order, preceded by two blanks.
#[verifier::loop_isolation(false)]
pub(crate) fn push_label_row(f: &mut String, observations: &Observations, d: Direction)
    ensures
        final(f)@ == old(f)@ + spec_label_row(observations@, d.spec_side_index() * 8, 8).push(
            '\n',
        ),
{
    push_char(f, ' ');
    push_char(f, ' ');
    proof {
        assert(f@ =~= old(f)@ + spec_label_row(observations@, d.spec_side_index() * 8, 0));
    }
    let mut i: usize = 0;
    while i < 8
        invariant
            i <= 8,
            f@ == old(f)@ + spec_label_row(observations@, d.spec_side_index() * 8, i as int),
        decreases 8 - i,
    {
        let lbl = observations.label_at(d, i as u8);
        push_char(f, ' ');
        push_char(f, lbl.glyph());
        i += 1;
        proof {
            assert(f@ =~= old(f)@ + spec_label_row(observations@, d.spec_side_index() * 8,
            i as int));
        }
    }
    push_char(f, '\n');
}

/// The characters of the first `n` cells of row `y`: a blank and a cell
/// mark per column, `o` for a marker and `.` for an empty cell.
pub open spec fn spec_cells_row(cells: Seq<bool>, y: int, n: int) -> Seq<char>
    decreases n,
{
    if n <= 0 {
        Seq::empty()
    } else {
        spec_cells_row(cells, y, n - 1) + seq![
            ' ',
            (if cells[y * 8 + n - 1] {
                'o'
            } else {
                '.'
            }),
        ]
    }
}

/// One full row of the rendering: the label of the slot probing this row
/// from the left, the row's cells, the label of the slot probing it from
/// the right.
pub open spec fn spec_grid_row(cells: Seq<bool>, labels: Seq<Observation>, y: int) -> Seq<char> {
    seq![' ', spec_glyph(labels[Direction::Right.spec_side_index() * 8 + y])] + spec_cells_row(
        cells,
        y,
        8,
    ) + seq![' ', spec_glyph(labels[Direction::Left.spec_side_index() * 8 + y]), '\n']
}

/// The first `m` rendered rows.
pub open spec fn spec_grid_rows(cells: Seq<bool>, labels: Seq<Observation>, m: int) -> Seq<char>
    decreases m,
{
    if m <= 0 {
        Seq::empty()
    } else {
        spec_grid_rows(cells, labels, m - 1) + spec_grid_row(cells, labels, m - 1)
    }
}

/// The full canonical rendering: the downward-probing labels on top, the
/// eight grid rows with their sideways labels, the upward-probing labels
/// at the bottom.
pub open spec fn spec_draw(cells: Seq<bool>, labels: Seq<Observation>) -> Seq<char> {
    spec_label_row(labels, Direction::Down.spec_side_index() * 8, 8).push('\n') + spec_grid_rows(
        cells,
        labels,
        8,
    ) + spec_label_row(labels, Direction::Up.spec_side_index() * 8, 8).push('\n')
}

/// Render a grid together with the four border label rows of its
/// observations.
#[verifier::loop_isolation(false)]
pub fn draw(grid: &AtomGrid, observations: &Observations) -> (r: String)
    ensures
        r@ == spec_draw(grid@, observations@),
{
    let mut f = String::new();
    push_label_row(&mut f, observations, Direction::Down);
    let mut y: usize = 0;
    while y < 8
        invariant
            y <= 8,
            f@ == spec_label_row(observations@, Direction::Down.spec_side_index() * 8, 8).push(
                '\n',
            ) + spec_grid_rows(grid@, observations@, y as int),
        decreases 8 - y,
    {
        let ghost row_start = f@;
        push_char(&mut f, ' ');
        push_char(&mut f, observations.label_at(Direction::Right, y as u8).glyph());
        proof {
            assert(f@ =~= row_start + seq![
                ' ',
                spec_glyph(observations@[Direction::Right.spec_side_index() * 8 + y as int]),
            ] + spec_cells_row(grid@, y as int, 0));
        }
        let mut x: usize = 0;
        while x < 8
            invariant
                x <= 8,
                f@ == row_start + seq![
                    ' ',
                    spec_glyph(observations@[Direction::Right.spec_side_index() * 8 + y as int]),
                ] + spec_cells_row(grid@, y as int, x as int),
            decreases 8 - x,
        {
            let occupied = grid.get(I8Vec2::new(x as i8, y as i8));
            push_char(&mut f, ' ');
            push_char(
                &mut f,
                if occupied {
                    'o'
                } else {
                    '.'
                },
            );
            x += 1;
            proof {
                assert(f@ =~= row_start + seq![
                    ' ',
                    spec_glyph(observations@[Direction::Right.spec_side_index() * 8 + y as int]),
                ] + spec_cells_row(grid@, y as int, x as int));
            }
        }
        push_char(&mut f, ' ');
        push_char(&mut f, observations.label_at(Direction::Left, y as u8).glyph());
        push_char(&mut f, '\n');
        y += 1;
        proof {
            assert(f@ =~= spec_label_row(observations@, Direction::Down.spec_side_index() * 8,
            8).push('\n') + spec_grid_rows(grid@, observations@, y as int));
        }
    }
    push_label_row(&mut f, observations, Direction::Up);
    proof {
        assert(f@ =~= spec_draw(grid@, observations@));
    }
    f
}

/// Every symbolic value present in a well-formed table is present at
/// exactly two slots: the entry and the exit of one traversal.
pub proof fn lemma_label_pairing(sides: Seq<Observation>, next: u8, n: u8)
    requires
        labels_wf(sides, next),
        exists|i: int| 0 <= i < sides.len() && sides[i] == Observation::Symbolic(n),
    ensures
        count_label(sides, Observation::Symbolic(n)) == 2,
{
    if !(3 <= n < next) {
        let i = choose|i: int| 0 <= i < sides.len() && sides[i] == Observation::Symbolic(n);
        lemma_count_label_present(sides, Observation::Symbolic(n), i);
    }
}

/// A label that no entry holds has count zero.
proof fn lemma_count_label_absent(s: Seq<Observation>, lbl: Observation)
    requires
        forall|i: int| 0 <= i < s.len() ==> s[i] != lbl,
    ensures
        count_label(s, lbl) == 0,
    decreases s.len(),
{
    if s.len() > 0 {
        lemma_count_label_absent(s.drop_last(), lbl);
    }
}

/// A label some entry holds has positive count.
proof fn lemma_count_label_present(s: Seq<Observation>, lbl: Observation, i: int)
    requires
        0 <= i < s.len(),
        s[i] == lbl,
    ensures
        count_label(s, lbl) >= 1,
    decreases s.len(),
{
    if i < s.len() - 1 {
        lemma_count_label_present(s.drop_last(), lbl, i);
    }
}

/// Two distinct entries holding a label give it a count of at least two.
proof fn lemma_count_label_two(s: Seq<Observation>, lbl: Observation, i: int, j: int)
    requires
        0 <= i < s.len(),
        0 <= j < s.len(),
        i != j,
        s[i] == lbl,
        s[j] == lbl,
    ensures
        count_label(s, lbl) >= 2,
    decreases s.len(),
{
    if i < s.len() - 1 && j < s.len() - 1 {
        lemma_count_label_two(s.drop_last(), lbl, i, j);
    } else if i < s.len() - 1 {
        lemma_count_label_present(s.drop_last(), lbl, i);
    } else {
        lemma_count_label_present(s.drop_last(), lbl, j);
    }
}

/// No label's count exceeds the table's length.
proof fn lemma_count_label_bound(s: Seq<Observation>, lbl: Observation)
    ensures
        count_label(s, lbl) <= s.len(),
    decreases s.len(),
{
    if s.len() > 0 {
        lemma_count_label_bound(s.drop_last(), lbl);
    }
}

/// Overwriting one entry moves every label's count by the contribution of
/// the outgoing and incoming values.
proof fn lemma_count_label_update(s: Seq<Observation>, i: int, v: Observation, lbl: Observation)
    requires
        0 <= i < s.len(),
    ensures
        count_label(s.update(i, v), lbl) == count_label(s, lbl) - (if s[i] == lbl {
            1int
        } else {
            0int
        }) + (if v == lbl {
            1int
        } else {
            0int
        }),
    decreases s.len(),
{
    let s2 = s.update(i, v);
    if i == s.len() - 1 {
        assert(s2.drop_last() =~= s.drop_last());
    } else {
        assert(s2.drop_last() =~= s.drop_last().update(i, v));
        lemma_count_label_update(s.drop_last(), i, v, lbl);
    }
}

/// Writing a sentinel label over an unprobed slot keeps the table
/// well-formed with the counter unchanged.
proof fn lemma_labels_wf_sentinel_write(sides: Seq<Observation>, next: u8, i: int, v: Observation)
    requires
        labels_wf(sides, next),
        0 <= i < 32,
        sides[i] == Observation::NotProbed,
        v == Observation::Absorbed || v == Observation::Reflected,
    ensures
        labels_wf(sides.update(i, v), next),
{
    let s2 = sides.update(i, v);
    assert forall|n: u8| true implies #[trigger] count_label(s2, Observation::Symbolic(n))
        == count_label(sides, Observation::Symbolic(n)) by {
        lemma_count_label_update(sides, i, v, Observation::Symbolic(n));
    }
    lemma_count_label_update(sides, i, v, Observation::NotProbed);
}

/// Writing the next symbolic value over two distinct unprobed slots and
/// advancing the counter keeps the table well-formed; the counter stays
/// well below its range because each assignment consumes two slots.
proof fn lemma_labels_wf_pair_write(sides: Seq<Observation>, next: u8, i: int, j: int)
    requires
        labels_wf(sides, next),
        0 <= i < 32,
        0 <= j < 32,
        i != j,
        sides[i] == Observation::NotProbed,
        sides[j] == Observation::NotProbed,
    ensures
        next <= 18,
        labels_wf(
            sides.update(i, Observation::Symbolic(next)).update(j, Observation::Symbolic(next)),
            (next + 1) as u8,
        ),
{
    lemma_count_label_two(sides, Observation::NotProbed, i, j);
    assert(next <= 18);
    let s1 = sides.update(i, Observation::Symbolic(next));
    let s2 = s1.update(j, Observation::Symbolic(next));
    assert forall|n: u8| true implies #[trigger] count_label(s2, Observation::Symbolic(n))
        == count_label(sides, Observation::Symbolic(n)) + (if n == next {
        2int
    } else {
        0int
    }) by {
        lemma_count_label_update(sides, i, Observation::Symbolic(next), Observation::Symbolic(n));
        lemma_count_label_update(s1, j, Observation::Symbolic(next), Observation::Symbolic(n));
    }
    lemma_count_label_update(sides, i, Observation::Symbolic(next), Observation::NotProbed);
    lemma_count_label_update(s1, j, Observation::Symbolic(next), Observation::NotProbed);
}

/// A successful probe writes only terminal labels: every slot either keeps
/// its value or ends up labeled, and the entry slot always ends up labeled.
proof fn lemma_probe_keeps_probed(
    sides: Seq<Observation>,
    next: u8,
    laser: LaserTip,
    cells: Seq<bool>,
    after: Seq<Observation>,
)
    requires
        sides.len() == 32,
        is_border_slot(laser.position),
        spec_probe(sides, next, laser, cells) is Some,
        after == (spec_probe(sides, next, laser, cells)->0).0,
    ensures
        forall|i: int|
            0 <= i < 32 ==> (#[trigger] after[i] == sides[i] || after[i]
                != Observation::NotProbed),
        after[slot_index(spec_slot_of(laser.position).1, spec_slot_of(laser.position).0)]
            != Observation::NotProbed,
{
    crate::laser::lemma_run_exit_border(laser, cells, 255);
}

/// Once the probing fold has faulted it stays faulted: later slots cannot
/// bring the table back.
proof fn lemma_observe_fold_none_persists(cells: Seq<bool>, k: int, m: int)
    requires
        spec_observe_fold(cells, k) is None,
        k <= m,
    ensures
        spec_observe_fold(cells, m) is None,
    decreases m - k,
{
    if k < m {
        lemma_observe_fold_none_persists(cells, k + 1, m);
    }
}

} // verus!
