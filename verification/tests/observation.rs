use blackbox::atom_grid::AtomGrid;
use blackbox::laser::Direction::Right;
use blackbox::laser::LaserTip;
use blackbox::observation::{Observation, Observations};

#[test]
fn observation_after_probing() {
    let grid = AtomGrid::from_bitboard(54043333103714304);

    let mut observations = Observations::default();

    // Probe along the left side, shooting lasers to the right.
    for i in 0..8 {
        observations.probe(LaserTip::new(i, Right), &grid).unwrap();
    }

    assert_eq!(observations.label_at(Right, 0), Observation::Reflected);
    assert_eq!(observations.label_at(Right, 1), Observation::Absorbed);
    assert_eq!(observations.label_at(Right, 2), Observation::Reflected);
    assert_eq!(observations.label_at(Right, 3), Observation::Absorbed);
    assert_eq!(observations.label_at(Right, 4), Observation::Reflected);
    assert_eq!(observations.label_at(Right, 5), Observation::Absorbed);
    assert_eq!(observations.label_at(Right, 6), Observation::Symbolic(3));
    assert_eq!(observations.label_at(Right, 7), Observation::Symbolic(4));
}
