use blackbox::atom_grid::AtomGrid;
use blackbox::i8vec2::I8Vec2;
use blackbox::laser::Direction::{Down, Left, Right, Up};
use blackbox::laser::{Direction, LaserTip};
use blackbox::observation::{self, Observation, Observations};
use blackbox::solver::{self, GridKnowledge, UncertainGrid};
use blackbox::Fault;

#[test]
fn rotation_group_laws() {
    for d in Direction::all() {
        assert_eq!(d.clockwise().clockwise().clockwise().clockwise(), d);
        assert_eq!(d.flip().flip(), d);
        assert_eq!(d.clockwise().counter_clockwise(), d);
        assert_eq!(d.counter_clockwise().clockwise(), d);
        assert_eq!(d.clockwise().clockwise(), d.flip());
    }
}

#[test]
fn bitboard_round_trip_values() {
    for n in [
        0u64,
        1,
        35184640598018,
        54043333103714304,
        u64::MAX,
        0x8000_0000_0000_0000,
    ] {
        let grid = AtomGrid::from_bitboard(n);
        assert_eq!(grid.as_bitboard(), n);
    }
}

#[test]
fn bitboard_bit_positions() {
    // The most significant bit is the fixed corner (0, 0), the least
    // significant bit the opposite corner (7, 7).
    let grid = AtomGrid::from_bitboard(0x8000_0000_0000_0000);
    assert!(grid.get(I8Vec2::new(0, 0)));
    assert!(!grid.get(I8Vec2::new(7, 7)));
    let grid = AtomGrid::from_bitboard(1);
    assert!(grid.get(I8Vec2::new(7, 7)));
    assert!(!grid.get(I8Vec2::new(0, 0)));
}

#[test]
fn grid_set_and_safe_get() {
    let mut grid = AtomGrid::default();
    grid.set(I8Vec2::new(3, 4), true);
    assert!(grid.get(I8Vec2::new(3, 4)));
    assert!(!grid.get(I8Vec2::new(4, 3)));
    // Out-of-grid coordinates read as empty.
    assert!(!grid.get(I8Vec2::new(-1, 4)));
    assert!(!grid.get(I8Vec2::new(3, 8)));
    grid.set(I8Vec2::new(3, 4), false);
    assert!(!grid.get(I8Vec2::new(3, 4)));
}

#[test]
fn random_coordinates_land_in_the_grid() {
    for _ in 0..100 {
        let v = I8Vec2::random();
        assert!(v.in_grid());
    }
}

#[test]
fn random_places_exact_marker_count() {
    for count in [0u8, 1, 5, 64] {
        let grid = AtomGrid::random(count);
        let mut found = 0;
        for y in 0..8 {
            for x in 0..8 {
                if grid.get(I8Vec2::new(x, y)) {
                    found += 1;
                }
            }
        }
        assert_eq!(found, count);
    }
}

#[test]
fn traversal_returns_within_bound_on_scenario_grids() {
    for bitboard in [35184640598018u64, 54043333103714304] {
        let grid = AtomGrid::from_bitboard(bitboard);
        for d in Direction::all() {
            for shift in 0..8 {
                let (_, steps) = LaserTip::new(shift, d).traverse_grid(&grid).unwrap();
                assert!(steps >= 1);
            }
        }
    }
}

#[test]
fn every_symbolic_label_occurs_exactly_twice() {
    for bitboard in [35184640598018u64, 54043333103714304, 0] {
        let grid = AtomGrid::from_bitboard(bitboard);
        let obs = Observations::observe_all(&grid).unwrap();
        let mut labels = Vec::new();
        for d in Direction::all() {
            for shift in 0..8 {
                let label = obs.label_at(d, shift);
                assert_ne!(label, Observation::NotProbed);
                labels.push(label);
            }
        }
        for label in &labels {
            if label.is_symbolic() {
                let occurrences = labels.iter().filter(|l| *l == label).count();
                assert_eq!(occurrences, 2);
            }
        }
    }
}

#[test]
fn signature_is_deterministic() {
    let grid = AtomGrid::from_bitboard(35184640598018);
    let first = Observations::observe_all(&grid).unwrap();
    let second = Observations::observe_all(&grid).unwrap();
    for d in Direction::all() {
        for shift in 0..8 {
            assert_eq!(first.label_at(d, shift), second.label_at(d, shift));
        }
    }
}

#[test]
fn solver_marks_only_cells_that_are_truly_empty() {
    for bitboard in [35184640598018u64, 54043333103714304] {
        let grid = AtomGrid::from_bitboard(bitboard);
        let obs = Observations::observe_all(&grid).unwrap();
        let mut knowledge = UncertainGrid::default();
        // Deductions from a single consistent grid never conflict.
        solver::letter_finds_four_empty_spaces(&mut knowledge, &obs).unwrap();
        let mut marked = 0;
        for y in 0..8 {
            for x in 0..8 {
                let v = I8Vec2::new(x, y);
                match knowledge.get(v) {
                    GridKnowledge::Empty => {
                        marked += 1;
                        assert!(!grid.get(v));
                    }
                    GridKnowledge::Atom => panic!("this rule never marks a marker"),
                    GridKnowledge::Unknown => {}
                }
            }
        }
        assert!(marked > 0);
    }
}

#[test]
fn solve_from_scratch_agrees_with_manual_run() {
    let grid = AtomGrid::from_bitboard(35184640598018);
    let obs = Observations::observe_all(&grid).unwrap();
    let solved = solver::solve_as_much_as_you_can(&obs);
    let mut manual = UncertainGrid::default();
    solver::letter_finds_four_empty_spaces(&mut manual, &obs).unwrap();
    for y in 0..8 {
        for x in 0..8 {
            let v = I8Vec2::new(x, y);
            assert_eq!(solved.get(v), manual.get(v));
        }
    }
}

#[test]
fn conflicting_knowledge_is_a_fault() {
    let mut knowledge = UncertainGrid::default();
    let v = I8Vec2::new(2, 2);
    assert_eq!(knowledge.set_safe(v, GridKnowledge::Atom), Ok(()));
    // Re-stating the same knowledge is fine.
    assert_eq!(knowledge.set_safe(v, GridKnowledge::Atom), Ok(()));
    // Contradicting it is the fault the solver must surface.
    assert_eq!(
        knowledge.set_safe(v, GridKnowledge::Empty),
        Err(Fault::KnowledgeConflict)
    );
    assert_eq!(knowledge.get(v), GridKnowledge::Atom);
    // Out-of-grid writes are silently ignored.
    assert_eq!(
        knowledge.set_safe(I8Vec2::new(-1, 0), GridKnowledge::Empty),
        Ok(())
    );
}

#[test]
fn glyphs_follow_the_fixed_alphabet() {
    assert_eq!(Observation::NotProbed.glyph(), '?');
    assert_eq!(Observation::Absorbed.glyph(), '×');
    assert_eq!(Observation::Reflected.glyph(), '⇄');
    assert_eq!(Observation::Symbolic(3).glyph(), 'A');
    assert_eq!(Observation::Symbolic(4).glyph(), 'B');
    assert_eq!(Observation::Symbolic(10).glyph(), 'H');
    assert_eq!(Observation::Symbolic(11).glyph(), 'K');
    assert_eq!(Observation::Symbolic(18).glyph(), 'T');
}

#[test]
fn draw_renders_the_empty_grid_canonically() {
    let grid = AtomGrid::from_bitboard(0);
    let obs = Observations::observe_all(&grid).unwrap();
    // On an empty grid every ray passes straight through: the top and
    // bottom slots pair up as A..H, the left and right slots as K..T.
    let mut expected = String::from("   A B C D E F G H\n");
    for row in ["K", "L", "M", "N", "P", "R", "S", "T"] {
        expected.push_str(&format!(" {row} . . . . . . . . {row}\n"));
    }
    expected.push_str("   A B C D E F G H\n");
    assert_eq!(observation::draw(&grid, &obs), expected);

    let knowledge = UncertainGrid::default();
    let mut expected_unknown = String::from("   A B C D E F G H\n");
    for row in ["K", "L", "M", "N", "P", "R", "S", "T"] {
        expected_unknown.push_str(&format!(" {row} ? ? ? ? ? ? ? ? {row}\n"));
    }
    expected_unknown.push_str("   A B C D E F G H\n");
    assert_eq!(solver::draw(&knowledge, &obs), expected_unknown);
}
