//! The board model: cells, their colours, and queen placement.

use vstd::prelude::*;

verus! {

/// Number of cells on each side of the standard board.
pub const GRID_SIZE: usize = 8;

/// Width and height of one cell, in pixels.
pub const GRID_CELL_SIZE: i32 = 64;

/// An RGB colour, one byte per channel.
#[derive(Clone, Copy, PartialEq, Eq, Structural, Debug)]
pub struct Color {
    pub r: u8,
    pub g: u8,
    pub b: u8,
}

/// The fill colour of cells whose coordinates share parity.
pub open spec fn even_color() -> Color {
    Color { r: 184, g: 134, b: 69 }
}

/// The fill colour of cells whose coordinates differ in parity;
/// also the colour of queen cells and of freshly made cells.
pub open spec fn odd_color() -> Color {
    Color { r: 202, g: 164, b: 114 }
}

impl Color {
    /// The darker of the two checkerboard colours.
    pub fn even() -> (c: Color)
        ensures
            c == even_color(),
    {
        Color { r: 184, g: 134, b: 69 }
    }

    /// The lighter of the two checkerboard colours.
    pub fn odd() -> (c: Color)
        ensures
            c == odd_color(),
    {
        Color { r: 202, g: 164, b: 114 }
    }
}

/// Logical cell coordinates, zero-based. Values outside the board are
/// not rejected: they map to off-screen rectangles.
#[derive(Clone, Copy, PartialEq, Eq, Structural, Debug)]
pub struct GridPosition {
    pub x: i16,
    pub y: i16,
}

impl GridPosition {
    pub fn new(x: i16, y: i16) -> (p: Self)
        ensures
            p == (GridPosition { x, y }),
    {
        GridPosition { x, y }
    }
}

/// A pixel-space rectangle: top-left corner, then width and height.
#[derive(Clone, Copy, PartialEq, Eq, Structural, Debug)]
pub struct Rect {
    pub x: i32,
    pub y: i32,
    pub w: i32,
    pub h: i32,
}

/// The pixel rectangle covering `pos`: each coordinate scaled by the
/// cell size, with the rectangle's extent equal to one cell.
pub open spec fn rect_of(pos: GridPosition) -> Rect {
    Rect {
        x: (pos.x * GRID_CELL_SIZE) as i32,
        y: (pos.y * GRID_CELL_SIZE) as i32,
        w: GRID_CELL_SIZE,
        h: GRID_CELL_SIZE,
    }
}

impl From<GridPosition> for Rect {
    fn from(pos: GridPosition) -> (r: Rect) {
        Rect {
            x: pos.x as i32 * GRID_CELL_SIZE,
            y: pos.y as i32 * GRID_CELL_SIZE,
            w: GRID_CELL_SIZE,
            h: GRID_CELL_SIZE,
        }
    }
}

impl vstd::std_specs::convert::FromSpecImpl<GridPosition> for Rect {
    open spec fn obeys_from_spec() -> bool {
        true
    }

    open spec fn from_spec(pos: GridPosition) -> Rect {
        rect_of(pos)
    }
}

/// Whether a cell is empty or holds a queen.
#[derive(Clone, Copy, PartialEq, Eq, Structural, Debug)]
pub enum BlockState {
    Empty,
    Queen,
}

/// One cell: its contents, an attack flag (never set by this library),
/// its coordinates, and its fill colour.
#[derive(Clone, Copy, PartialEq, Eq, Structural, Debug)]
pub struct Block {
    pub state: BlockState,
    pub attacked: bool,
    pub pos: GridPosition,
    pub color: Color,
}

/// The checkerboard colour of `pos`: coordinates of equal parity give
/// the even colour, coordinates of differing parity the odd colour.
pub open spec fn checker_color(pos: GridPosition) -> Color {
    if pos.x % 2 == pos.y % 2 {
        even_color()
    } else {
        odd_color()
    }
}

/// A queen cell as `Block::queen` makes it: placed at the origin with
/// the odd colour, whatever cell it will be stored in.
pub open spec fn queen_block() -> Block {
    Block {
        state: BlockState::Queen,
        attacked: false,
        pos: GridPosition { x: 0, y: 0 },
        color: odd_color(),
    }
}

/// An empty cell as `Block::default` makes it.
pub open spec fn default_block() -> Block {
    Block {
        state: BlockState::Empty,
        attacked: false,
        pos: GridPosition { x: 0, y: 0 },
        color: odd_color(),
    }
}

/// An empty cell at column `x`, row `y`, in its checkerboard colour.
pub open spec fn checker_block(x: i16, y: i16) -> Block {
    Block {
        state: BlockState::Empty,
        attacked: false,
        pos: GridPosition { x, y },
        color: checker_color(GridPosition { x, y }),
    }
}

impl Block {
    /// A cell holding a queen. Its position is the origin; callers
    /// that want the true cell coordinates must set them afterwards.
    pub fn queen() -> (b: Self)
        ensures
            b == queen_block(),
    {
        Self {
            state: BlockState::Queen,
            attacked: false,
            pos: GridPosition { x: 0, y: 0 },
            color: Color::odd(),
        }
    }

    /// Move the cell to `pos` and recolour it for the checkerboard.
    pub fn pos(&mut self, pos: GridPosition)
        ensures
            final(self).state == old(self).state,
            final(self).attacked == old(self).attacked,
            final(self).pos == pos,
            final(self).color == checker_color(pos),
    {
        if pos.y % 2 == 0 {
            if pos.x % 2 == 0 {
                self.color = Color::even();
            } else {
                self.color = Color::odd();
            }
        } else {
            if pos.x % 2 == 0 {
                self.color = Color::odd();
            } else {
                self.color = Color::even();
            }
        }
        self.pos = pos;
    }
}

impl Default for Block {
    /// An empty cell at the origin in the odd colour.
    fn default() -> (b: Self)
        ensures
            b == default_block(),
    {
        Self {
            state: BlockState::Empty,
            attacked: false,
            pos: GridPosition { x: 0, y: 0 },
            color: Color::odd(),
        }
    }
}

/// The block of row `r`, column `c` in a row-major sequence of cells
/// for a board whose side is `size`.
pub open spec fn cell(s: Seq<Block>, size: int, r: int, c: int) -> Block {
    s[r * size + c]
}

/// `s` is a freshly built checkerboard of side `size`: one block per
/// cell, each at its own coordinates in its checkerboard colour.
pub open spec fn is_checkerboard(s: Seq<Block>, size: int) -> bool {
    &&& s.len() == size * size
    &&& forall|i: int, j: int|
        0 <= i < size && 0 <= j < size ==> cell(s, size, i, j) == checker_block(
            j as i16,
            i as i16,
        )
}

/// Some entry among the first `n` of `queens` equals `k`.
pub open spec fn queen_listed(queens: Seq<usize>, n: int, k: int) -> bool {
    exists|m: int| 0 <= m < n && queens[m] == k
}

proof fn lemma_cell_index_bounds(size: int, r: int, c: int)
    requires
        0 <= r < size,
        0 <= c < size,
    ensures
        0 <= r * size + c < size * size,
{
    assert(r * size + c < size * size) by (nonlinear_arith)
        requires
            0 <= r < size,
            0 <= c < size,
    ;
}

proof fn lemma_cell_index_distinct(size: int, r1: int, c1: int, r2: int, c2: int)
    requires
        0 <= r1 < size,
        0 <= c1 < size,
        0 <= r2 < size,
        0 <= c2 < size,
        r1 != r2 || c1 != c2,
    ensures
        r1 * size + c1 != r2 * size + c2,
{
    assert(r1 * size + c1 != r2 * size + c2) by (nonlinear_arith)
        requires
            0 <= r1 < size,
            0 <= c1 < size,
            0 <= r2 < size,
            0 <= c2 < size,
            r1 != r2 || c1 != c2,
    ;
}

/// Row `r` of `after` is row `r` of `before` with exactly one cell,
/// in some column of the board, overwritten by a queen.
pub open spec fn row_seeded(before: Seq<Block>, after: Seq<Block>, size: int, r: int) -> bool {
    exists|col: int|
        0 <= col < size && cell(after, size, r, col) == queen_block() && (forall|c: int|
            0 <= c < size && c != col ==> cell(after, size, r, c) == cell(before, size, r, c))
}

/// Relies on rand::random_range over `0..n`: a uniformly distributed
/// value of the range, which panics only when the range is empty.
#[verifier::external_body]
fn random_below(n: usize) -> (r: usize)
    requires
        n > 0,
    ensures
        r < n,
{
    rand::random_range(0..n)
}

/// Law: two cells that differ by one in exactly one axis carry
/// different checkerboard colours.
pub proof fn lemma_adjacent_colors_differ(a: GridPosition, b: GridPosition)
    requires
        (a.x == b.x && (a.y - b.y == 1 || b.y - a.y == 1)) || (a.y == b.y && (a.x - b.x == 1
            || b.x - a.x == 1)),
    ensures
        checker_color(a) != checker_color(b),
{
}

/// Exactly one cell of row `r` holds a queen.
pub open spec fn row_has_one_queen(s: Seq<Block>, size: int, r: int) -> bool {
    exists|col: int|
        0 <= col < size && cell(s, size, r, col).state == BlockState::Queen && (forall|c: int|
            0 <= c < size && c != col ==> cell(s, size, r, c).state != BlockState::Queen)
}

/// Law: seeding a fresh checkerboard puts exactly one queen in every
/// row, whatever columns the random draws named.
#[verifier::rlimit(50)]
pub proof fn lemma_seeded_checkerboard_one_queen_per_row(
    before: Seq<Block>,
    after: Seq<Block>,
    size: int,
)
    requires
        is_checkerboard(before, size),
        forall|r: int| 0 <= r < size ==> row_seeded(before, after, size, r),
    ensures
        forall|r: int| 0 <= r < size ==> row_has_one_queen(after, size, r),
{
    assert forall|r: int| 0 <= r < size implies row_has_one_queen(after, size, r) by {
        assert(row_seeded(before, after, size, r));
        let col = choose|col: int|
            0 <= col < size && cell(after, size, r, col) == queen_block() && (forall|c: int|
                0 <= c < size && c != col ==> cell(after, size, r, c) == cell(before, size, r, c));
        assert(cell(after, size, r, col).state == BlockState::Queen);
        assert forall|c: int|
            0 <= c < size && c != col implies cell(after, size, r, c).state
            != BlockState::Queen by {
            assert(cell(after, size, r, c) == cell(before, size, r, c));
            assert(cell(before, size, r, c) == checker_block(c as i16, r as i16));
        }
        assert(0 <= col < size && cell(after, size, r, col).state == BlockState::Queen && (
        forall|c: int|
            0 <= c < size && c != col ==> cell(after, size, r, c).state != BlockState::Queen));
    }
}

/// How many of the first `n` cells of `s` hold a queen.
pub open spec fn queen_count_upto(s: Seq<Block>, n: int) -> int
    decreases n,
{
    if n <= 0 {
        0
    } else {
        queen_count_upto(s, n - 1) + (if s[n - 1].state == BlockState::Queen {
            1int
        } else {
            0int
        })
    }
}

/// How many cells of `s` hold a queen.
pub open spec fn queen_count(s: Seq<Block>) -> int {
    queen_count_upto(s, s.len() as int)
}

/// Walking row `r`, whose one queen stands in column `col`, raises the
/// count by one once the walk has passed that column.
proof fn lemma_queen_count_across_row(s: Seq<Block>, size: int, r: int, col: int, c: int)
    requires
        0 <= r,
        0 <= col < size,
        0 <= c <= size,
        (r + 1) * size <= s.len(),
        cell(s, size, r, col).state == BlockState::Queen,
        forall|c2: int| 0 <= c2 < size && c2 != col ==> cell(s, size, r, c2).state != BlockState::Queen,
    ensures
        queen_count_upto(s, r * size + c) == queen_count_upto(s, r * size) + (if c > col {
            1int
        } else {
            0int
        }),
    decreases c,
{
    if c > 0 {
        lemma_queen_count_across_row(s, size, r, col, c - 1);
        assert(s[r * size + c - 1] == cell(s, size, r, c - 1));
    }
}

/// Counting the first `upto` rows, each with exactly one queen, gives
/// `upto` queens.
proof fn lemma_queen_count_of_rows(s: Seq<Block>, size: int, upto: int)
    requires
        s.len() == size * size,
        0 <= upto <= size,
        forall|r: int| 0 <= r < size ==> row_has_one_queen(s, size, r),
    ensures
        queen_count_upto(s, upto * size) == upto,
    decreases upto,
{
    if upto <= 0 {
        assert(upto * size == 0) by (nonlinear_arith)
            requires
                upto == 0,
        ;
    } else {
        lemma_queen_count_of_rows(s, size, upto - 1);
        let r = upto - 1;
        assert(row_has_one_queen(s, size, r));
        let col = choose|col: int|
            0 <= col < size && cell(s, size, r, col).state == BlockState::Queen && (forall|c: int|
                0 <= c < size && c != col ==> cell(s, size, r, c).state != BlockState::Queen);
        assert((r + 1) * size <= size * size) by (nonlinear_arith)
            requires
                r + 1 <= size,
                0 <= r,
        ;
        lemma_queen_count_across_row(s, size, r, col, size);
        assert(r * size + size == upto * size) by (nonlinear_arith)
            requires
                r == upto - 1,
        ;
    }
}

/// Law: seeding a fresh checkerboard of side `size` leaves exactly
/// `size` queens on the board in all: one in each row.
pub proof fn lemma_seeded_checkerboard_queen_count(
    before: Seq<Block>,
    after: Seq<Block>,
    size: int,
)
    requires
        0 <= size,
        is_checkerboard(before, size),
        after.len() == size * size,
        forall|r: int| 0 <= r < size ==> row_seeded(before, after, size, r),
    ensures
        queen_count(after) == size,
{
    lemma_seeded_checkerboard_one_queen_per_row(before, after, size);
    lemma_queen_count_of_rows(after, size, size);
}

/// The failure of building a board from an explicit queen list.
#[derive(Clone, Copy, PartialEq, Eq, Structural, Debug)]
pub enum BoardError {
    /// A listed flat index lies outside the board.
    QueenOutOfBounds,
}

/// A rectangle to fill, in its colour: what drawing one cell takes.
#[derive(Clone, Copy, PartialEq, Eq, Structural, Debug)]
pub struct DrawCommand {
    pub rect: Rect,
    pub color: Color,
}

/// The ordered cells of a board, row-major.
pub struct Blocks {
    pub blocks: Vec<Block>,
}

/// `n` cells as `Block::default` makes them.
fn default_blocks(n: usize) -> (r: Vec<Block>)
    ensures
        r@.len() == n,
        forall|k: int| 0 <= k < n ==> r@[k] == default_block(),
{
    let mut blocks: Vec<Block> = Vec::new();
    while blocks.len() < n
        invariant
            blocks@.len() <= n,
            forall|k: int| 0 <= k < blocks@.len() ==> blocks@[k] == default_block(),
        decreases n - blocks.len(),
    {
        blocks.push(Block::default());
    }
    blocks
}

impl Blocks {
    /// A checkerboard of side `size`.
    pub fn new(size: usize) -> (r: Self)
        requires
            size <= 32768,
        ensures
            is_checkerboard(r.blocks@, size as int),
    {
        Self { blocks: Self::make_checkerboard(size) }
    }

    /// `size * size` cells in row-major order, each holding its own
    /// coordinates and its checkerboard colour.
    pub fn make_checkerboard(size: usize) -> (r: Vec<Block>)
        requires
            size <= 32768,
        ensures
            is_checkerboard(r@, size as int),
    {
        proof {
            assert(size * size <= 32768 * 32768) by (nonlinear_arith)
                requires
                    size <= 32768,
            ;
        }
        let total = size * size;
        let mut blocks = default_blocks(total);
        let mut i: usize = 0;
        while i < size
            invariant
                size <= 32768,
                total == size * size,
                i <= size,
                blocks@.len() == total,
                forall|r: int, c: int|
                    0 <= r < i && 0 <= c < size ==> cell(blocks@, size as int, r, c)
                        == checker_block(c as i16, r as i16),
                forall|k: int| i * size <= k < total ==> blocks@[k] == default_block(),
            decreases size - i,
        {
            let mut j: usize = 0;
            while j < size
                invariant
                    size <= 32768,
                    total == size * size,
                    i < size,
                    j <= size,
                    blocks@.len() == total,
                    forall|r: int, c: int|
                        0 <= r < i && 0 <= c < size ==> cell(blocks@, size as int, r, c)
                            == checker_block(c as i16, r as i16),
                    forall|c: int|
                        0 <= c < j ==> cell(blocks@, size as int, i as int, c) == checker_block(
                            c as i16,
                            i as i16,
                        ),
                    forall|k: int| i * size + j <= k < total ==> blocks@[k] == default_block(),
                decreases size - j,
            {
                proof {
                    lemma_cell_index_bounds(size as int, i as int, j as int);
                }
                let idx = i * size + j;
                let ghost pre = blocks@;
                let p = GridPosition::new(j as i16, i as i16);
                let mut blk = blocks[idx];
                blk.pos(p);
                blocks[idx] = blk;
                proof {
                    assert(blocks@ == pre.update(idx as int, blk));
                    assert(pre[idx as int] == default_block());
                    assert(blk == checker_block(j as i16, i as i16));
                    assert forall|r: int, c: int|
                        0 <= r < i && 0 <= c < size implies cell(blocks@, size as int, r, c)
                        == checker_block(c as i16, r as i16) by {
                        lemma_cell_index_bounds(size as int, r, c);
                        lemma_cell_index_distinct(size as int, r, c, i as int, j as int);
                        assert(cell(pre, size as int, r, c) == checker_block(c as i16, r as i16));
                    }
                    assert forall|c: int|
                        0 <= c < j + 1 implies cell(blocks@, size as int, i as int, c)
                        == checker_block(c as i16, i as i16) by {
                        if c < j {
                            assert(cell(pre, size as int, i as int, c) == checker_block(
                                c as i16,
                                i as i16,
                            ));
                        }
                    }
                    assert forall|k: int|
                        i * size + j + 1 <= k < total implies blocks@[k] == default_block() by {
                        assert(pre[k] == default_block());
                    }
                }
                j = j + 1;
            }
            proof {
                assert((i + 1) * size == i * size + size) by (nonlinear_arith);
            }
            i = i + 1;
        }
        blocks
    }

    /// A board whose side is the length of `queens`: default cells,
    /// except that the cell at each listed flat index holds a queen.
    /// A listed index outside the board is an error.
    pub fn new_from_queens(queens: Vec<usize>) -> (r: Result<Self, BoardError>)
        requires
            queens@.len() * queens@.len() <= usize::MAX,
        ensures
            r is Ok <==> (forall|m: int|
                0 <= m < queens@.len() ==> queens@[m] < queens@.len() * queens@.len()),
            r matches Ok(b) ==> b.blocks@.len() == queens@.len() * queens@.len(),
            r matches Ok(b) ==> forall|k: int|
                0 <= k < queens@.len() * queens@.len() ==> b.blocks@[k] == (if queen_listed(
                    queens@,
                    queens@.len() as int,
                    k,
                ) {
                    queen_block()
                } else {
                    default_block()
                }),
            r matches Err(e) ==> e == BoardError::QueenOutOfBounds,
    {
        let size = queens.len();
        let total = size * size;
        let mut blocks = default_blocks(total);
        let mut q: usize = 0;
        while q < size
            invariant
                size == queens@.len(),
                total == size * size,
                q <= size,
                blocks@.len() == total,
                forall|m: int| 0 <= m < q ==> queens@[m] < total,
                forall|k: int|
                    0 <= k < total ==> blocks@[k] == (if queen_listed(queens@, q as int, k) {
                        queen_block()
                    } else {
                        default_block()
                    }),
            decreases size - q,
        {
            let idx = queens[q];
            if idx >= total {
                return Err(BoardError::QueenOutOfBounds);
            }
            let ghost pre = blocks@;
            blocks[idx] = Block::queen();
            proof {
                assert forall|k: int|
                    0 <= k < total implies blocks@[k] == (if queen_listed(queens@, q + 1, k) {
                        queen_block()
                    } else {
                        default_block()
                    }) by {
                    if k == idx {
                        assert(queen_listed(queens@, q + 1, k));
                    } else {
                        assert(queen_listed(queens@, q + 1, k) == queen_listed(queens@, q as int, k));
                    }
                }
            }
            q = q + 1;
        }
        Ok(Self { blocks })
    }

    /// Overwrite, for each row, the cell in the column that `cols`
    /// names for that row with a queen; all other cells keep their
    /// value.
    pub fn place_queens(&mut self, size: usize, cols: &Vec<usize>)
        requires
            old(self).blocks@.len() == size * size,
            cols@.len() == size,
            forall|r: int| 0 <= r < size ==> cols@[r] < size,
        ensures
            final(self).blocks@.len() == size * size,
            forall|r: int, c: int|
                0 <= r < size && 0 <= c < size ==> cell(final(self).blocks@, size as int, r, c)
                    == (if c == cols@[r] {
                    queen_block()
                } else {
                    cell(old(self).blocks@, size as int, r, c)
                }),
    {
        let n = self.blocks.len();
        proof {
            assert(n == size * size);
        }
        let mut row: usize = 0;
        while row < size
            invariant
                self.blocks@.len() == size * size,
                size * size <= usize::MAX,
                row <= size,
                cols@.len() == size,
                forall|r: int| 0 <= r < size ==> cols@[r] < size,
                forall|r: int, c: int|
                    0 <= r < row && 0 <= c < size ==> cell(self.blocks@, size as int, r, c) == (
                    if c == cols@[r] {
                        queen_block()
                    } else {
                        cell(old(self).blocks@, size as int, r, c)
                    }),
                forall|r: int, c: int|
                    row <= r < size && 0 <= c < size ==> cell(self.blocks@, size as int, r, c)
                        == cell(old(self).blocks@, size as int, r, c),
            decreases size - row,
        {
            let col = cols[row];
            proof {
                lemma_cell_index_bounds(size as int, row as int, col as int);
            }
            let idx = row * size + col;
            let ghost pre = self.blocks@;
            self.blocks[idx] = Block::queen();
            proof {
                assert forall|r: int, c: int|
                    0 <= r < row + 1 && 0 <= c < size implies cell(self.blocks@, size as int, r, c)
                    == (if c == cols@[r] {
                    queen_block()
                } else {
                    cell(old(self).blocks@, size as int, r, c)
                }) by {
                    lemma_cell_index_bounds(size as int, r, c);
                    if r * size + c != idx {
                        lemma_cell_index_distinct(size as int, r, c, row as int, col as int);
                        assert(cell(self.blocks@, size as int, r, c) == cell(pre, size as int, r, c));
                    } else {
                        assert(r == row && c == col) by {
                            if r != row || c != col {
                                lemma_cell_index_distinct(size as int, r, c, row as int, col as int);
                            }
                        }
                    }
                }
                assert forall|r: int, c: int|
                    row + 1 <= r < size && 0 <= c < size implies cell(
                    self.blocks@,
                    size as int,
                    r,
                    c,
                ) == cell(old(self).blocks@, size as int, r, c) by {
                    lemma_cell_index_bounds(size as int, r, c);
                    lemma_cell_index_distinct(size as int, r, c, row as int, col as int);
                }
            }
            row = row + 1;
        }
    }

    /// Overwrite one cell of each row, in a column drawn at random for
    /// that row, with a queen. Rows may repeat columns: nothing keeps
    /// two queens out of one column.
    pub fn initialize_queens(&mut self, size: usize)
        requires
            old(self).blocks@.len() == size * size,
        ensures
            final(self).blocks@.len() == size * size,
            forall|r: int|
                0 <= r < size ==> row_seeded(
                    old(self).blocks@,
                    final(self).blocks@,
                    size as int,
                    r,
                ),
    {
        let mut cols: Vec<usize> = Vec::new();
        while cols.len() < size
            invariant
                cols@.len() <= size,
                forall|r: int| 0 <= r < cols@.len() ==> cols@[r] < size,
            decreases size - cols.len(),
        {
            let col = random_below(size);
            cols.push(col);
        }
        self.place_queens(size, &cols);
        proof {
            assert forall|r: int|
                0 <= r < size implies row_seeded(old(self).blocks@, self.blocks@, size as int, r) by {
                let col = cols@[r] as int;
                assert(0 <= col < size && cell(self.blocks@, size as int, r, col) == queen_block()
                    && forall|c: int|
                    0 <= c < size && c != col ==> cell(self.blocks@, size as int, r, c) == cell(
                        old(self).blocks@,
                        size as int,
                        r,
                        c,
                    ));
            }
        }
    }

    /// One draw command per cell, in the cells' own order: the cell's
    /// pixel rectangle filled with the cell's stored colour.
    pub fn draw(&self) -> (r: Vec<DrawCommand>)
        ensures
            r@.len() == self.blocks@.len(),
            forall|k: int|
                0 <= k < r@.len() ==> r@[k] == (DrawCommand {
                    rect: rect_of(self.blocks@[k].pos),
                    color: self.blocks@[k].color,
                }),
    {
        let mut cmds: Vec<DrawCommand> = Vec::new();
        let mut k: usize = 0;
        while k < self.blocks.len()
            invariant
                k <= self.blocks@.len(),
                cmds@.len() == k,
                forall|m: int|
                    0 <= m < k ==> cmds@[m] == (DrawCommand {
                        rect: rect_of(self.blocks@[m].pos),
                        color: self.blocks@[m].color,
                    }),
            decreases self.blocks@.len() - k,
        {
            let block = &self.blocks[k];
            cmds.push(DrawCommand { rect: Rect::from(block.pos), color: block.color });
            k = k + 1;
        }
        cmds
    }
}

/// The full grid: its side, its cells, and a conflict counter that
/// this library never raises.
pub struct Board {
    pub size: usize,
    pub blocks: Blocks,
    pub conflicts: i32,
}

impl Board {
    /// The cells cover the board exactly: one block per cell.
    pub open spec fn wf(self) -> bool {
        self.blocks.blocks@.len() == self.size * self.size
    }

    /// A checkerboard of side `size` with no queens and no conflicts.
    pub fn new(size: usize) -> (b: Self)
        requires
            size <= 32768,
        ensures
            b.size == size,
            b.conflicts == 0,
            is_checkerboard(b.blocks.blocks@, size as int),
            b.wf(),
    {
        Self { size, blocks: Blocks::new(size), conflicts: 0 }
    }

    /// A board whose side is the length of `queens`, with a queen at
    /// each listed flat index and default cells elsewhere. A listed
    /// index outside the board is an error.
    pub fn new_from_queens(queens: Vec<usize>) -> (r: Result<Self, BoardError>)
        requires
            queens@.len() * queens@.len() <= usize::MAX,
        ensures
            r is Ok <==> (forall|m: int|
                0 <= m < queens@.len() ==> queens@[m] < queens@.len() * queens@.len()),
            r matches Ok(b) ==> b.size == queens@.len() && b.conflicts == 0 && b.wf()
                && b.blocks.blocks@.len() == queens@.len() * queens@.len(),
            r matches Ok(b) ==> forall|k: int|
                0 <= k < queens@.len() * queens@.len() ==> b.blocks.blocks@[k] == (
                if queen_listed(queens@, queens@.len() as int, k) {
                    queen_block()
                } else {
                    default_block()
                }),
            r matches Err(e) ==> e == BoardError::QueenOutOfBounds,
    {
        let size = queens.len();
        match Blocks::new_from_queens(queens) {
            Ok(blocks) => Ok(Self { size, blocks, conflicts: 0 }),
            Err(e) => Err(e),
        }
    }

    /// Seed one random queen in each row of the board.
    pub fn initialize_queens(&mut self)
        requires
            old(self).wf(),
        ensures
            final(self).wf(),
            final(self).size == old(self).size,
            final(self).conflicts == old(self).conflicts,
            forall|r: int|
                0 <= r < old(self).size ==> row_seeded(
                    old(self).blocks.blocks@,
                    final(self).blocks.blocks@,
                    old(self).size as int,
                    r,
                ),
    {
        let size = self.size;
        self.blocks.initialize_queens(size);
    }

    /// One draw command per cell of the board, row-major.
    pub fn draw(&self) -> (r: Vec<DrawCommand>)
        ensures
            r@.len() == self.blocks.blocks@.len(),
            forall|k: int|
                0 <= k < r@.len() ==> r@[k] == (DrawCommand {
                    rect: rect_of(self.blocks.blocks@[k].pos),
                    color: self.blocks.blocks@[k].color,
                }),
    {
        self.blocks.draw()
    }
}

impl Default for Board {
    /// The standard board: a fresh checkerboard of side eight.
    fn default() -> (b: Self)
        ensures
            b.size == GRID_SIZE,
            b.conflicts == 0,
            is_checkerboard(b.blocks.blocks@, GRID_SIZE as int),
            b.wf(),
    {
        Self::new(GRID_SIZE)
    }
}

} // verus!
