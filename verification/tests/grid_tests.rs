use quantik::grid::{get_all_regions, no_clash, Grid, GridError, Piece, Player};

#[test]
fn no_clash_if_empty() {
    assert!(no_clash(&[None, None, None], &Piece('a')));
}

#[test]
fn no_clash_1() {
    assert!(no_clash(
        &[Some(Piece('A')), Some(Piece('B')), Some(Piece('d'))],
        &Piece('d')
    ));
}

#[test]
fn cannot_place() {
    assert!(!no_clash(&[Some(Piece('A')), None, None], &Piece('a')));
}

#[test]
fn can_place_in_empty_grid() {
    let grid = Grid::new();
    assert!(grid.can_place(&Piece('a'), 1));
}

#[test]
fn can_or_cannot_place_when_1_taken() {
    let mut grid = Grid::new();
    grid.try_add(Piece('A'), 1).expect("Grid empty so should be ok");
    assert_eq!(grid.get(1), Some(Piece('A')));
    for pos in vec![1, 2, 3, 4, 5, 6, 9, 13] {
        assert!(!grid.can_place(&Piece('a'), pos));
    }
    for pos in vec![7, 8, 10, 11, 12, 15, 16] {
        assert!(grid.can_place(&Piece('a'), pos));
    }
    for i in 2..=16 {
        assert!(grid.can_place(&Piece('b'), i));
    }
}

#[test]
fn region_partners_of_corner_and_center() {
    let r1 = get_all_regions(1);
    assert_eq!(r1.len(), 3);
    assert_eq!(r1[0], [2, 3, 4]);
    assert_eq!(r1[1], [5, 9, 13]);
    assert_eq!(r1[2], [2, 5, 6]);
    let r11 = get_all_regions(11);
    assert_eq!(r11.len(), 3);
    assert_eq!(r11[0], [9, 10, 12]);
    assert_eq!(r11[1], [3, 7, 15]);
    assert_eq!(r11[2], [12, 15, 16]);
}

#[test]
fn region_partners_are_distinct_and_differ_from_position() {
    for pos in 1..=16 {
        let triples = get_all_regions(pos);
        assert_eq!(triples.len(), 3);
        for t in triples {
            assert_ne!(t[0], t[1]);
            assert_ne!(t[0], t[2]);
            assert_ne!(t[1], t[2]);
            for p in t {
                assert!((1..=16).contains(&p));
                assert_ne!(p, pos);
            }
        }
    }
}

#[test]
fn occupied_cell_always_rejected() {
    let mut grid = Grid::new();
    grid.try_add(Piece('A'), 6).expect("empty cell");
    for c in ['A', 'B', 'a', 'b'] {
        assert!(!grid.can_place(&Piece(c), 6));
    }
    assert_eq!(grid.try_add(Piece('B'), 6), Err(GridError::IllegalPlacement));
    assert_eq!(grid.get(6), Some(Piece('A')));
}

#[test]
fn position_out_of_range_rejected() {
    let mut grid = Grid::new();
    assert_eq!(grid.try_add(Piece('A'), 0), Err(GridError::PositionOutOfRange));
    assert_eq!(grid.try_add(Piece('A'), 17), Err(GridError::PositionOutOfRange));
    for pos in 1..=16 {
        assert_eq!(grid.get(pos), None);
    }
}

#[test]
fn same_color_same_shape_does_not_block() {
    let mut grid = Grid::new();
    grid.try_add(Piece('A'), 1).expect("empty cell");
    // another 'A' anywhere in the same row, column or block is still legal
    for pos in [2, 3, 4, 5, 9, 13, 6] {
        assert!(grid.can_place(&Piece('A'), pos));
    }
    grid.try_add(Piece('A'), 2).expect("same color never clashes");
}

#[test]
fn row_of_four_distinct_uppercase_wins_for_player_0() {
    let mut grid = Grid::new();
    grid.try_add(Piece('A'), 1).expect("empty");
    grid.try_add(Piece('B'), 2).expect("empty");
    grid.try_add(Piece('C'), 3).expect("empty");
    assert_eq!(grid.get_winner(), None);
    grid.try_add(Piece('D'), 4).expect("empty");
    assert_eq!(grid.get_winner(), Some(Player(0)));
}

#[test]
fn column_of_four_distinct_lowercase_wins_for_player_1() {
    let mut grid = Grid::new();
    grid.try_add(Piece('a'), 2).expect("empty");
    grid.try_add(Piece('b'), 6).expect("empty");
    grid.try_add(Piece('c'), 10).expect("empty");
    grid.try_add(Piece('d'), 14).expect("empty");
    assert_eq!(grid.get_winner(), Some(Player(1)));
}

#[test]
fn block_of_four_distinct_wins() {
    let mut grid = Grid::new();
    grid.try_add(Piece('A'), 11).expect("empty");
    grid.try_add(Piece('B'), 12).expect("empty");
    grid.try_add(Piece('C'), 15).expect("empty");
    grid.try_add(Piece('D'), 16).expect("empty");
    assert_eq!(grid.get_winner(), Some(Player(0)));
}

#[test]
fn repeated_shape_in_region_does_not_win() {
    let mut grid = Grid::new();
    grid.try_add(Piece('A'), 1).expect("empty");
    grid.try_add(Piece('B'), 2).expect("empty");
    grid.try_add(Piece('C'), 3).expect("empty");
    // a second 'A' fills the row but the shapes are not all distinct
    grid.try_add(Piece('A'), 4).expect("same color never clashes");
    assert_eq!(grid.get_winner(), None);
}

#[test]
fn mixed_colors_in_region_do_not_win() {
    let mut grid = Grid::new();
    grid.try_add(Piece('A'), 1).expect("empty");
    grid.try_add(Piece('B'), 2).expect("empty");
    grid.try_add(Piece('C'), 3).expect("empty");
    grid.try_add(Piece('d'), 4).expect("no uppercase 'D' in the row");
    assert_eq!(grid.get_winner(), None);
}

#[test]
fn inventory_starts_with_two_of_each_shape() {
    let grid = Grid::new();
    let p0 = grid.get_player_pieces(Player(0));
    let p1 = grid.get_player_pieces(Player(1));
    assert_eq!(p0.len(), 8);
    assert_eq!(p1.len(), 8);
    for c in ['A', 'B', 'C', 'D'] {
        assert_eq!(p0.iter().filter(|p| p.0 == c).count(), 2);
    }
    for c in ['a', 'b', 'c', 'd'] {
        assert_eq!(p1.iter().filter(|p| p.0 == c).count(), 2);
    }
}

#[test]
fn removal_decrements_by_exactly_one() {
    let mut grid = Grid::new();
    grid.try_remove(Piece('A'), Player(0)).expect("held twice");
    {
        let p0 = grid.get_player_pieces(Player(0));
        assert_eq!(p0.len(), 7);
        assert_eq!(p0.iter().filter(|p| p.0 == 'A').count(), 1);
        assert_eq!(p0.iter().filter(|p| p.0 == 'B').count(), 2);
    }
    grid.try_remove(Piece('A'), Player(0)).expect("held once");
    assert_eq!(
        grid.try_remove(Piece('A'), Player(0)),
        Err(GridError::PieceNotHeld)
    );
    let p0 = grid.get_player_pieces(Player(0));
    assert_eq!(p0.len(), 6);
    assert_eq!(p0.iter().filter(|p| p.0 == 'A').count(), 0);
}

#[test]
fn removing_unheld_piece_fails_without_mutation() {
    let mut grid = Grid::new();
    assert_eq!(
        grid.try_remove(Piece('a'), Player(0)),
        Err(GridError::PieceNotHeld)
    );
    assert_eq!(grid.get_player_pieces(Player(0)).len(), 8);
    assert_eq!(grid.get_player_pieces(Player(1)).len(), 8);
}

#[test]
fn player_has_piece_checks_ownership() {
    let grid = Grid::new();
    assert!(grid.player_has_piece(&Piece('A'), Player(0)));
    assert!(grid.player_has_piece(&Piece('d'), Player(1)));
    assert!(!grid.player_has_piece(&Piece('a'), Player(0)));
    assert!(!grid.player_has_piece(&Piece('D'), Player(1)));
    assert!(!grid.player_has_piece(&Piece('A'), Player(7)));
}

#[test]
fn render_shows_labels_and_pieces() {
    let mut grid = Grid::new();
    let divider = "==================";
    let empty = format!(
        "{d}\n 1 |  2 |  3 |  4\n{d}\n 5 |  6 |  7 |  8\n{d}\n 9 | 10 | 11 | 12\n{d}\n13 | 14 | 15 | 16\n{d}",
        d = divider
    );
    assert_eq!(grid.render(), empty);
    grid.try_add(Piece('A'), 1).expect("empty");
    grid.try_add(Piece('b'), 12).expect("empty");
    let expected = format!(
        "{d}\n A |  2 |  3 |  4\n{d}\n 5 |  6 |  7 |  8\n{d}\n 9 | 10 | 11 |  b\n{d}\n13 | 14 | 15 | 16\n{d}",
        d = divider
    );
    assert_eq!(grid.render(), expected);
    // rendering twice changes nothing
    assert_eq!(grid.render(), expected);
    assert_eq!(grid.get(1), Some(Piece('A')));
}

#[test]
fn fresh_grid_is_not_stuck_and_empty_inventory_is() {
    let mut grid = Grid::new();
    assert!(!grid.is_stuck(Player(0)));
    assert!(!grid.is_stuck(Player(1)));
    for c in ['A', 'A', 'B', 'B', 'C', 'C', 'D', 'D'] {
        grid.try_remove(Piece(c), Player(0)).expect("held");
    }
    assert!(grid.is_stuck(Player(0)));
    assert!(!grid.is_stuck(Player(1)));
}

#[test]
fn end_to_end_round() {
    let mut grid = Grid::new();
    grid.try_add(Piece('A'), 1).expect("Grid empty so should be ok");
    assert!(!grid.can_place(&Piece('a'), 2));
    assert!(grid.can_place(&Piece('b'), 2));
    grid.try_remove(Piece('A'), Player(0)).expect("held");
    assert_eq!(grid.get_winner(), None);
    grid.try_add(Piece('B'), 2).expect("legal");
    grid.try_remove(Piece('B'), Player(0)).expect("held");
    grid.try_add(Piece('C'), 3).expect("legal");
    grid.try_remove(Piece('C'), Player(0)).expect("held");
    grid.try_add(Piece('D'), 4).expect("legal");
    grid.try_remove(Piece('D'), Player(0)).expect("held");
    assert_eq!(grid.get_winner(), Some(Player(0)));
    assert_eq!(grid.get_player_pieces(Player(0)).len(), 4);
}
