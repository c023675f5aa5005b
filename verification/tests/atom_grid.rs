use blackbox::atom_grid::AtomGrid;

/// Ensures that the bitboard packing and unpacking works.
#[test]
fn test_bitboard() {
    for _ in 0..100 {
        let grid = AtomGrid::random(5);
        let bitboard = grid.as_bitboard();
        let grid2 = AtomGrid::from_bitboard(bitboard);
        assert_eq!(grid, grid2);
    }
}
