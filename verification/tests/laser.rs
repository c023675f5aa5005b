use blackbox::atom_grid::AtomGrid;
use blackbox::i8vec2::I8Vec2;
use blackbox::laser::Direction::{Down, Left, Right, Up};
use blackbox::laser::LaserTip;

#[test]
fn test_deconstruction() {
    for i in 0..8usize {
        assert_eq!(
            LaserTip::new(i as u8, Up).deconstruct(),
            Some((i as u8, Up))
        );
        let mut l = LaserTip::new(i as u8, Up);
        l.direction = l.direction.flip();
        assert_eq!(l.deconstruct(), Some((i as u8, Up)));
        assert_eq!(
            LaserTip::new(i as u8, Down).deconstruct(),
            Some((i as u8, Down))
        );
        assert_eq!(
            LaserTip::new(i as u8, Left).deconstruct(),
            Some((i as u8, Left))
        );
        assert_eq!(
            LaserTip::new(i as u8, Right).deconstruct(),
            Some((i as u8, Right))
        );
    }
}

#[test]
fn test_laser_path() {
    let grid = AtomGrid::from_bitboard(35184640598018);

    // Watch it move a few steps
    let laser = LaserTip::new(0, Right);
    assert_eq!(laser.position, I8Vec2::new(-1, 0));
    let laser = laser.move_once(&grid).expect("moving possible");
    assert_eq!(laser.position, I8Vec2::new(0, 0));
    let laser = laser.move_once(&grid).expect("moving possible");
    assert_eq!(laser.position, I8Vec2::new(1, 0));

    // Restart the laser and let it traverse the grid
    let laser = LaserTip::new(0, Right);
    let laser = laser
        .traverse_grid(&grid)
        .unwrap()
        .0
        .expect("traversal possible");
    assert_eq!(laser.position, I8Vec2::new(8, 0));

    // When shining the laser in the second row, we expect a reflection towards the top
    let laser = LaserTip::new(1, Right);
    let laser = laser
        .traverse_grid(&grid)
        .unwrap()
        .0
        .expect("traversal possible");
    assert_eq!(laser.position, I8Vec2::new(1, -1));

    // Next laser is absorbed
    let laser = LaserTip::new(2, Right);
    let laser = laser.traverse_grid(&grid).unwrap();
    assert_eq!(laser, (None, 3));

    // Next laser leaves the grid on the left side, but further down. It was reflected twice.
    let laser = LaserTip::new(3, Right);
    let laser = laser
        .traverse_grid(&grid)
        .unwrap()
        .0
        .expect("traversal possible");
    assert_eq!(laser.position, I8Vec2::new(-1, 5));

    // On y=4 the laser is absorbed again
    let laser = LaserTip::new(4, Right);
    let laser = laser.traverse_grid(&grid).unwrap();
    assert_eq!(laser, (None, 4));

    // For y=5 the laser comes back to y=3 by symmetry
    let laser = LaserTip::new(5, Right);
    let laser = laser
        .traverse_grid(&grid)
        .unwrap()
        .0
        .expect("traversal possible");
    assert_eq!(laser.position, I8Vec2::new(-1, 3));

    // For y=6 the laser is absorbed again
    let laser = LaserTip::new(6, Right);
    let laser = laser.traverse_grid(&grid).unwrap();
    assert_eq!(laser, (None, 3));

    // For y=7 the laser is reflected down.
    let laser = LaserTip::new(7, Right);
    let laser = laser
        .traverse_grid(&grid)
        .unwrap()
        .0
        .expect("traversal possible");
    assert_eq!(laser.position, I8Vec2::new(1, 8));
}
