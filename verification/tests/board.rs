use queens_board::board::Block;
use queens_board::board::BlockState;
use queens_board::board::Blocks;
use queens_board::board::Board;
use queens_board::board::BoardError;
use queens_board::board::Color;
use queens_board::board::GridPosition;
use queens_board::board::Rect;
use queens_board::board::GRID_CELL_SIZE;
use queens_board::board::GRID_SIZE;

#[test]
fn grid_position_to_rect() {
    let r = Rect::from(GridPosition::new(3, 2));
    assert_eq!(r, Rect { x: 192, y: 128, w: 64, h: 64 });
    assert_eq!(GRID_CELL_SIZE, 64);
}

#[test]
fn rect_of_origin_and_negative() {
    assert_eq!(Rect::from(GridPosition::new(0, 0)), Rect { x: 0, y: 0, w: 64, h: 64 });
    assert_eq!(Rect::from(GridPosition::new(-1, 1)), Rect { x: -64, y: 64, w: 64, h: 64 });
}

#[test]
fn checkerboard_positions_row_major() {
    let blocks = Blocks::make_checkerboard(3);
    assert_eq!(blocks.len(), 9);
    for i in 0..3i16 {
        for j in 0..3i16 {
            let b = &blocks[(i * 3 + j) as usize];
            assert_eq!(b.pos, GridPosition { x: j, y: i });
            assert_eq!(b.state, BlockState::Empty);
            assert!(!b.attacked);
        }
    }
}

#[test]
fn checkerboard_empty_when_size_zero() {
    let blocks = Blocks::make_checkerboard(0);
    assert_eq!(blocks.len(), 0);
}

#[test]
fn checkerboard_colors_alternate() {
    let even = Color { r: 184, g: 134, b: 69 };
    let odd = Color { r: 202, g: 164, b: 114 };
    let blocks = Blocks::make_checkerboard(4);
    for i in 0..4usize {
        for j in 0..4usize {
            let want = if (i + j) % 2 == 0 { even } else { odd };
            assert_eq!(blocks[i * 4 + j].color, want);
        }
    }
    // Adjacent cells differ in colour, along both axes.
    for i in 0..4usize {
        for j in 0..4usize {
            if j + 1 < 4 {
                assert_ne!(blocks[i * 4 + j].color, blocks[i * 4 + j + 1].color);
            }
            if i + 1 < 4 {
                assert_ne!(blocks[i * 4 + j].color, blocks[(i + 1) * 4 + j].color);
            }
        }
    }
}

#[test]
fn block_pos_recolors() {
    let mut b = Block::default();
    b.pos(GridPosition::new(3, 2));
    assert_eq!(b.pos, GridPosition { x: 3, y: 2 });
    assert_eq!(b.color, Color { r: 202, g: 164, b: 114 });
    assert_eq!(b.state, BlockState::Empty);

    b.pos(GridPosition::new(2, 2));
    assert_eq!(b.color, Color { r: 184, g: 134, b: 69 });
}

#[test]
fn queen_block_shape() {
    let q = Block::queen();
    assert_eq!(q.state, BlockState::Queen);
    assert!(!q.attacked);
    assert_eq!(q.pos, GridPosition { x: 0, y: 0 });
    assert_eq!(q.color, Color { r: 202, g: 164, b: 114 });
}

#[test]
fn default_block_shape() {
    let d = Block::default();
    assert_eq!(d.state, BlockState::Empty);
    assert!(!d.attacked);
    assert_eq!(d.pos, GridPosition { x: 0, y: 0 });
    assert_eq!(d.color, Color { r: 202, g: 164, b: 114 });
}

#[test]
fn from_queens_out_of_bounds_is_error() {
    // Size 3 board: flat indices reach at most 8, so 10 is out of bounds.
    let r = Blocks::new_from_queens(vec![0, 5, 10]);
    assert!(matches!(r, Err(BoardError::QueenOutOfBounds)));
    let r = Board::new_from_queens(vec![0, 5, 10]);
    assert!(matches!(r, Err(BoardError::QueenOutOfBounds)));
}

#[test]
fn from_queens_in_bounds_places_queens() {
    let blocks = Blocks::new_from_queens(vec![0, 4, 8]).unwrap();
    assert_eq!(blocks.blocks.len(), 9);
    for (k, b) in blocks.blocks.iter().enumerate() {
        if k == 0 || k == 4 || k == 8 {
            assert_eq!(b.state, BlockState::Queen);
        } else {
            assert_eq!(*b, Block::default());
        }
    }
}

#[test]
fn board_from_queens_sets_size_and_conflicts() {
    let board = Board::new_from_queens(vec![0, 4, 8]).unwrap();
    assert_eq!(board.size, 3);
    assert_eq!(board.conflicts, 0);
    assert_eq!(board.blocks.blocks.len(), 9);
    assert_eq!(board.blocks.blocks[4].state, BlockState::Queen);
}

#[test]
fn place_queens_fixed_columns() {
    // The column sequence [2, 2, 5, 0, 1, 7, 4, 6] puts queens at the
    // flat indices row * 8 + column: [2, 10, 21, 24, 33, 47, 52, 62].
    let mut board = Board::new(8);
    let cols: Vec<usize> = vec![2, 2, 5, 0, 1, 7, 4, 6];
    board.blocks.place_queens(8, &cols);
    let expected: Vec<usize> = vec![2, 10, 21, 24, 33, 47, 52, 62];
    for (k, b) in board.blocks.blocks.iter().enumerate() {
        assert_eq!(b.state == BlockState::Queen, expected.contains(&k));
    }
}

#[test]
fn random_seeding_one_queen_per_row() {
    let mut board = Board::new(8);
    board.initialize_queens();
    assert_eq!(board.blocks.blocks.len(), 64);
    let mut total = 0;
    for row in 0..8usize {
        let queens_in_row = (0..8usize)
            .filter(|col| board.blocks.blocks[row * 8 + col].state == BlockState::Queen)
            .count();
        assert_eq!(queens_in_row, 1);
        total += queens_in_row;
    }
    assert_eq!(total, 8);
}

#[test]
fn board_length_is_size_squared() {
    for n in [0usize, 1, 2, 5, 8] {
        let board = Board::new(n);
        assert_eq!(board.size, n);
        assert_eq!(board.blocks.blocks.len(), n * n);
        assert_eq!(board.conflicts, 0);
    }
    let board = Board::default();
    assert_eq!(board.size, GRID_SIZE);
    assert_eq!(board.blocks.blocks.len(), 64);
}

#[test]
fn draw_emits_one_command_per_cell() {
    let board = Board::new(2);
    let cmds = board.draw();
    assert_eq!(cmds.len(), 4);
    for (k, cmd) in cmds.iter().enumerate() {
        let b = &board.blocks.blocks[k];
        assert_eq!(cmd.rect, Rect::from(b.pos));
        assert_eq!(cmd.color, b.color);
    }
    // Cell (1, 0) sits one cell to the right of the origin.
    assert_eq!(cmds[1].rect, Rect { x: 64, y: 0, w: 64, h: 64 });
}

#[test]
fn draw_keeps_queen_color_and_position() {
    let board = Board::new_from_queens(vec![3, 0]).unwrap();
    let cmds = board.draw();
    assert_eq!(cmds.len(), 4);
    // Queens and default cells alike sit at the origin until a caller
    // corrects their positions, so every rectangle is the origin cell.
    for cmd in cmds.iter() {
        assert_eq!(cmd.rect, Rect { x: 0, y: 0, w: 64, h: 64 });
        assert_eq!(cmd.color, Color { r: 202, g: 164, b: 114 });
    }
}
