//! The static maze: cell classification by coordinate, and construction from
//! a textual layout.
//!
//! A layout is a sequence of `'\n'`-separated lines. Lines that hold none of
//! the glyphs `+ - | O .` and lines starting with `//` are skipped; the
//! remaining lines are the maze rows, which must all share the length of the
//! first such line. A `'+'` is a junction wall whose subtype is derived from
//! its four neighbor glyphs, `'-'` and `'|'` are plain walls, `'O'` is a
//! power pill, `'.'` a dot, `' '` an empty cell, and `'1'` an empty cell
//! that records an enemy spawn point.
use vstd::prelude::*;

use crate::enemies::Enemy;
use crate::enemies::EnemyAI;
use crate::movement::Position;
use crate::CELL;
use crate::COORD_LIMIT;
use crate::MAX_DIM;

verus! {

/// Which stretch of wall a wall cell draws.
#[derive(PartialEq, Eq, Structural, Clone, Copy, Debug)]
pub enum WallType {
    Vertical,
    Horizontal,
    TopLeft,
    TopRight,
    BottomLeft,
    BottomRight,
}

/// Classification of one maze cell. `Outside` is never stored: it is the
/// answer for any query beyond the grid bounds.
#[derive(PartialEq, Eq, Structural, Clone, Copy, Debug)]
pub enum CellType {
    Wall(WallType),
    Dot,
    PowerPill,
    Empty,
    Outside,
}

/// Why a textual layout was rejected.
#[derive(PartialEq, Eq, Structural, Clone, Copy, Debug)]
pub enum BoardError {
    /// A maze row whose length differs from the first row's, or a maze too
    /// large for the engine's coordinate range.
    InvalidLayout,
    /// A character that is no layout glyph.
    InvalidCellGlyph,
    /// A junction whose neighbor glyphs match no wall pattern.
    InvalidJunction,
}

/// The immutable maze grid, row-major.
#[derive(Debug)]
pub struct Board {
    columns: usize,
    rows: usize,
    cells: Vec<CellType>,
    enemies: Vec<Enemy>,
}

impl Board {
    pub closed spec fn spec_columns(self) -> int {
        self.columns as int
    }

    pub closed spec fn spec_rows(self) -> int {
        self.rows as int
    }

    pub closed spec fn spec_cells(self) -> Seq<CellType> {
        self.cells@
    }

    pub closed spec fn spec_enemies(self) -> Seq<Enemy> {
        self.enemies@
    }

    /// The cell stored at cell coordinates `(cx, cy)`, or `Outside` beyond
    /// the bounds.
    pub open spec fn cell_at(self, cx: int, cy: int) -> CellType {
        if 0 <= cx < self.spec_columns() && 0 <= cy < self.spec_rows() {
            self.spec_cells()[cy * self.spec_columns() + cx]
        } else {
            CellType::Outside
        }
    }

    /// The classification of the cell containing the subcell coordinates
    /// `(x, y)`: coordinates are truncated toward the containing cell index,
    /// and anything left of, above, right of or below the grid is `Outside`.
    pub open spec fn classify(self, x: int, y: int) -> CellType {
        if x < 0 || y < 0 {
            CellType::Outside
        } else {
            self.cell_at(x / (CELL as int), y / (CELL as int))
        }
    }

    /// An enemy spawn cell recorded by the parser: grid-aligned and on the
    /// board.
    pub open spec fn spawn_ok(self, e: Enemy) -> bool {
        &&& e.start_position.aligned()
        &&& 0 <= e.start_position.x < self.spec_columns() * CELL
        &&& 0 <= e.start_position.y < self.spec_rows() * CELL
    }

    /// Well-formedness: dimensions within the engine's bounds, a cell for
    /// every (row, column) pair, no stored `Outside`, and sane spawn points.
    pub open spec fn wf(self) -> bool {
        &&& 0 <= self.spec_columns() <= MAX_DIM as int
        &&& 0 <= self.spec_rows() <= MAX_DIM as int
        &&& self.spec_cells().len() == self.spec_rows() * self.spec_columns()
        &&& forall|i: int|
            0 <= i < self.spec_cells().len() ==> !(#[trigger] self.spec_cells()[i] is Outside)
        &&& forall|i: int|
            0 <= i < self.spec_enemies().len() ==> self.spawn_ok(#[trigger] self.spec_enemies()[i])
    }

    /// The maze's size as `(rows, columns)`.
    pub fn get_dimensions(&self) -> (d: (usize, usize))
        ensures
            d.0 == self.spec_rows(),
            d.1 == self.spec_columns(),
    {
        (self.rows, self.columns)
    }

    /// The enemy spawn points found in the layout, in row-major order.
    pub fn get_enemies(&self) -> (e: &Vec<Enemy>)
        ensures
            e@ == self.spec_enemies(),
    {
        &self.enemies
    }

    /// Classify the cell containing the subcell coordinates `(x, y)`;
    /// `Outside` for any coordinate beyond the grid.
    pub fn get_cell(&self, x: i64, y: i64) -> (c: CellType)
        requires
            self.wf(),
            crate::movement::coord_ok(x),
            crate::movement::coord_ok(y),
        ensures
            c == self.classify(x as int, y as int),
    {
        if x < 0 || y < 0 {
            return CellType::Outside;
        }
        if x >= (self.columns as i64) * CELL || y >= (self.rows as i64) * CELL {
            proof {
                if x as int >= self.spec_columns() * CELL {
                    lemma_div_outside(x as int, self.spec_columns());
                } else {
                    lemma_div_outside(y as int, self.spec_rows());
                }
            }
            return CellType::Outside;
        }
        let cx = ((x as u64) / (CELL as u64)) as usize;
        let cy = ((y as u64) / (CELL as u64)) as usize;
        proof {
            lemma_div_inside(x as int, self.spec_columns());
            lemma_div_inside(y as int, self.spec_rows());
            assert((cy * self.spec_columns() + cx) < self.spec_rows() * self.spec_columns())
                by (nonlinear_arith)
                requires
                    0 <= cx < self.spec_columns(),
                    0 <= cy < self.spec_rows(),
            ;
        }
        let n = self.cells.len();
        proof {
            assert(cy * self.spec_columns() + cx < n);
        }
        let idx = cy * self.columns + cx;
        self.cells[idx]
    }
}

impl Board {
    /// Build the maze from a textual layout; see the module doc for the
    /// format. Construction succeeds exactly when every maze row matches the
    /// first row's length, the maze fits the engine's size bound, every
    /// character is a glyph, and every junction resolves; otherwise the
    /// first offense in scan order decides the error.
    pub fn from_layout(input: &str) -> (res: Result<Board, BoardError>)
        ensures
            ({
                let grid = grid_of(input@);
                &&& (res is Ok <==> layout_check(grid) is Ok)
                &&& (res matches Err(e) ==> layout_check(grid) == Err::<(), BoardError>(e))
                &&& (res matches Ok(b) ==> {
                    &&& b.wf()
                    &&& b.spec_rows() == grid.len()
                    &&& b.spec_columns() == (if grid.len() == 0 {
                        0int
                    } else {
                        grid[0].len() as int
                    })
                    &&& (forall|r: int, c: int|
                        0 <= r < b.spec_rows() && 0 <= c < b.spec_columns() ==> cell_spec(
                            grid,
                            r,
                            c,
                        ) == Ok::<CellType, BoardError>(
                            #[trigger] b.spec_cells()[r * b.spec_columns() + c],
                        ))
                    &&& b.spec_enemies() == grid_spawns(grid, 0)
                })
            }),
    {
        let all_lines = split_layout(input);
        let total = all_lines.len();
        let mut rows_vec: Vec<Vec<char>> = Vec::new();
        let mut k: usize = 0;
        proof {
            assert(grid_view(all_lines@).subrange(0, 0) =~= Seq::<Seq<char>>::empty());
            assert(grid_view(rows_vec@) =~= qualifying(grid_view(all_lines@).subrange(0, 0)));
        }
        while k < total
            invariant
                k <= total,
                total == all_lines@.len(),
                grid_view(rows_vec@) == qualifying(grid_view(all_lines@).subrange(0, k as int)),
            decreases total - k,
        {
            let ghost prefix = grid_view(all_lines@).subrange(0, k as int);
            let ghost prefix1 = grid_view(all_lines@).subrange(0, k as int + 1);
            proof {
                assert(prefix1.drop_last() =~= prefix);
                assert(prefix1.last() == all_lines@[k as int]@);
            }
            let ghost old_sel = rows_vec@;
            if line_qualifies(&all_lines[k]) {
                let line = all_lines[k].clone();
                proof {
                    assert(line@ == all_lines@[k as int]@);
                }
                rows_vec.push(line);
                proof {
                    assert(grid_view(rows_vec@) =~= grid_view(old_sel).push(
                        all_lines@[k as int]@,
                    ));
                }
            }
            k = k + 1;
        }
        proof {
            assert(grid_view(all_lines@).subrange(0, total as int) =~= grid_view(all_lines@));
        }
        let ghost grid = grid_of(input@);
        proof {
            assert(grid_view(rows_vec@) == grid);
        }

        let rows = rows_vec.len();
        if rows > MAX_DIM {
            return Err(BoardError::InvalidLayout);
        }
        let columns = if rows == 0 {
            0
        } else {
            rows_vec[0].len()
        };
        if columns > MAX_DIM {
            return Err(BoardError::InvalidLayout);
        }

        let mut cells: Vec<CellType> = Vec::new();
        let mut enemies: Vec<Enemy> = Vec::new();
        let mut i: usize = 0;
        while i < rows
            invariant
                i <= rows,
                rows == grid.len(),
                rows <= MAX_DIM,
                columns <= MAX_DIM,
                columns as int == (if grid.len() == 0 {
                    0int
                } else {
                    grid[0].len() as int
                }),
                grid == grid_of(input@),
                grid_view(rows_vec@) == grid,
                rows_check(grid, 0) == rows_check(grid, i as int),
                cells@.len() == i * columns,
                forall|r: int, c: int|
                    0 <= r < i && 0 <= c < columns ==> cell_spec(grid, r, c) == Ok::<
                        CellType,
                        BoardError,
                    >(#[trigger] cells@[r * (columns as int) + c]),
                forall|t: int| 0 <= t < cells@.len() ==> !(#[trigger] cells@[t] is Outside),
                enemies@ + grid_spawns(grid, i as int) == grid_spawns(grid, 0),
                forall|t: int|
                    0 <= t < enemies@.len() ==> spawn_fields_ok(
                        #[trigger] enemies@[t],
                        columns as int,
                        rows as int,
                    ),
            decreases rows - i,
        {
            if rows_vec[i].len() != columns {
                return Err(BoardError::InvalidLayout);
            }
            let mut j: usize = 0;
            while j < columns
                invariant
                    j <= columns,
                    i < rows,
                    rows == grid.len(),
                    rows <= MAX_DIM,
                    columns <= MAX_DIM,
                    columns as int == grid[0].len() as int,
                    grid[i as int].len() == columns,
                    grid == grid_of(input@),
                    grid_view(rows_vec@) == grid,
                    rows_check(grid, 0) == rows_check(grid, i as int),
                    row_check(grid, i as int, 0) == row_check(grid, i as int, j as int),
                    cells@.len() == i * columns + j,
                    forall|r: int, c: int|
                        0 <= r < i && 0 <= c < columns ==> cell_spec(grid, r, c) == Ok::<
                            CellType,
                            BoardError,
                        >(#[trigger] cells@[r * (columns as int) + c]),
                    forall|c: int|
                        0 <= c < j ==> cell_spec(grid, i as int, c) == Ok::<CellType, BoardError>(
                            #[trigger] cells@[i * (columns as int) + c],
                        ),
                    forall|t: int| 0 <= t < cells@.len() ==> !(#[trigger] cells@[t] is Outside),
                    enemies@ + row_spawns(grid[i as int], i as int, j as int) + grid_spawns(
                        grid,
                        i as int + 1,
                    ) == grid_spawns(grid, 0),
                    forall|t: int|
                        0 <= t < enemies@.len() ==> spawn_fields_ok(
                            #[trigger] enemies@[t],
                            columns as int,
                            rows as int,
                        ),
                decreases columns - j,
            {
                let g = rows_vec[i][j];
                proof {
                    assert(g == grid[i as int][j as int]);
                }
                let cell: CellType;
                if g == '+' {
                    let up = if i == 0 {
                        ' '
                    } else {
                        char_or_space(&rows_vec, i - 1, j)
                    };
                    let down = char_or_space(&rows_vec, i + 1, j);
                    let left = if j == 0 {
                        ' '
                    } else {
                        char_or_space(&rows_vec, i, j - 1)
                    };
                    let right = char_or_space(&rows_vec, i, j + 1);
                    proof {
                        assert(up == neighbor_glyph(grid, i as int - 1, j as int));
                        assert(left == neighbor_glyph(grid, i as int, j as int - 1));
                    }
                    match junction_wall_type(up, down, left, right) {
                        Some(w) => {
                            cell = CellType::Wall(w);
                        },
                        None => {
                            proof {
                                lemma_first_error(grid, i as int, j as int);
                            }
                            return Err(BoardError::InvalidJunction);
                        },
                    }
                } else if g == '-' {
                    cell = CellType::Wall(WallType::Horizontal);
                } else if g == '|' {
                    cell = CellType::Wall(WallType::Vertical);
                } else if g == 'O' {
                    cell = CellType::PowerPill;
                } else if g == '.' {
                    cell = CellType::Dot;
                } else if g == ' ' {
                    cell = CellType::Empty;
                } else if g == '1' {
                    let ghost old_enemies = enemies@;
                    let spawn = Enemy::new(
                        Position::new((j as i64) * CELL, (i as i64) * CELL),
                        EnemyAI::Random,
                    );
                    enemies.push(spawn);
                    proof {
                        lemma_cell_times_is_aligned(j as int);
                        lemma_cell_times_is_aligned(i as int);
                        assert(spawn == spawn_at(i as int, j as int));
                        assert(row_spawns(grid[i as int], i as int, j as int) == seq![
                            spawn_at(i as int, j as int),
                        ] + row_spawns(grid[i as int], i as int, j as int + 1));
                        assert(old_enemies + row_spawns(grid[i as int], i as int, j as int)
                            + grid_spawns(grid, i as int + 1) =~= enemies@ + row_spawns(
                            grid[i as int],
                            i as int,
                            j as int + 1,
                        ) + grid_spawns(grid, i as int + 1));
                    }
                    cell = CellType::Empty;
                } else {
                    proof {
                        lemma_first_error(grid, i as int, j as int);
                    }
                    return Err(BoardError::InvalidCellGlyph);
                }
                let ghost old_cells = cells@;
                cells.push(cell);
                proof {
                    assert(cell_spec(grid, i as int, j as int) == Ok::<CellType, BoardError>(
                        cell,
                    ));
                    assert(row_check(grid, i as int, j as int) == row_check(
                        grid,
                        i as int,
                        j as int + 1,
                    ));
                    assert(cells@[i * (columns as int) + j] == cell);
                    assert forall|r: int, c: int|
                        0 <= r < i && 0 <= c < columns implies cell_spec(grid, r, c) == Ok::<
                        CellType,
                        BoardError,
                    >(#[trigger] cells@[r * (columns as int) + c]) by {
                        lemma_row_major_lt(r, c, i as int, columns as int);
                        assert(cells@[r * (columns as int) + c] == old_cells[r * (columns as int)
                            + c]);
                    }
                }
                j = j + 1;
            }
            proof {
                assert((i as int + 1) * (columns as int) == i as int * (columns as int)
                    + columns as int) by (nonlinear_arith);
                assert(row_check(grid, i as int, columns as int) is Ok);
                assert(rows_check(grid, i as int) == rows_check(grid, i as int + 1));
                assert(enemies@ + row_spawns(grid[i as int], i as int, columns as int)
                    + grid_spawns(grid, i as int + 1) =~= enemies@ + grid_spawns(
                    grid,
                    i as int + 1,
                ));
            }
            i = i + 1;
        }
        let board = Board { columns, rows, cells, enemies };
        proof {
            assert(rows_check(grid, rows as int) is Ok);
            assert(board.spec_cells().len() == board.spec_rows() * board.spec_columns());
            assert(grid_spawns(grid, rows as int) =~= Seq::<Enemy>::empty());
            assert(board.spec_enemies() + Seq::<Enemy>::empty() =~= board.spec_enemies());
            assert(board.wf());
        }
        Ok(board)
    }
}

/// The fields every recorded spawn point has: grid-aligned, and on a board
/// of the given size.
pub open spec fn spawn_fields_ok(e: Enemy, columns: int, rows: int) -> bool {
    &&& e.start_position.aligned()
    &&& 0 <= e.start_position.x < columns * CELL
    &&& 0 <= e.start_position.y < rows * CELL
}

/// A row-major index of an earlier row stays below the block of rows before
/// `i`.
proof fn lemma_row_major_lt(r: int, c: int, i: int, cols: int)
    by (nonlinear_arith)
    requires
        0 <= r < i,
        0 <= c < cols,
    ensures
        0 <= r * cols + c < i * cols,
{
}

/// A multiple of the cell size is an aligned coordinate.
proof fn lemma_cell_times_is_aligned(k: int)
    ensures
        (k * CELL) % (CELL as int) == 0,
{
    vstd::arithmetic::div_mod::lemma_fundamental_div_mod_converse(k * (CELL as int), CELL as int, k, 0);
}

/// When scanning reaches an offending cell, its error is the layout's.
proof fn lemma_first_error(grid: Seq<Seq<char>>, i: int, j: int)
    requires
        0 <= i < grid.len(),
        0 <= j < grid[i].len(),
        grid.len() <= MAX_DIM,
        grid[0].len() <= MAX_DIM,
        grid[i].len() == grid[0].len(),
        rows_check(grid, 0) == rows_check(grid, i),
        row_check(grid, i, 0) == row_check(grid, i, j),
        cell_spec(grid, i, j) is Err,
    ensures
        layout_check(grid) == Err::<(), BoardError>(cell_spec(grid, i, j)->Err_0),
{
    assert(row_check(grid, i, j) == Err::<(), BoardError>(cell_spec(grid, i, j)->Err_0));
    assert(rows_check(grid, i) == Err::<(), BoardError>(cell_spec(grid, i, j)->Err_0));
}

/// A character that makes a line count as a maze row.
pub open spec fn layout_glyph(c: char) -> bool {
    c == '+' || c == '-' || c == '|' || c == 'O' || c == '.'
}

/// A comment line: it starts with `//`.
pub open spec fn is_comment(line: Seq<char>) -> bool {
    line.len() >= 2 && line[0] == '/' && line[1] == '/'
}

/// A line that becomes a maze row: it holds at least one layout glyph and is
/// no comment.
pub open spec fn qualifies(line: Seq<char>) -> bool {
    (exists|i: int| 0 <= i < line.len() && layout_glyph(line[i])) && !is_comment(line)
}

/// The input split at `'\n'` into lines, with no trailing empty line when
/// the input ends in `'\n'` (as `str::lines` splits).
pub open spec fn split_lines(s: Seq<char>) -> Seq<Seq<char>>
    decreases s.len(),
{
    if s.len() == 0 {
        seq![]
    } else if s[0] == '\n' {
        seq![Seq::<char>::empty()] + split_lines(s.subrange(1, s.len() as int))
    } else {
        let rest = split_lines(s.subrange(1, s.len() as int));
        if rest.len() == 0 {
            seq![seq![s[0]]]
        } else {
            seq![seq![s[0]] + rest[0]] + rest.subrange(1, rest.len() as int)
        }
    }
}

/// The qualifying lines among `lines`, in order.
pub open spec fn qualifying(lines: Seq<Seq<char>>) -> Seq<Seq<char>>
    decreases lines.len(),
{
    if lines.len() == 0 {
        seq![]
    } else {
        let rest = qualifying(lines.drop_last());
        if qualifies(lines.last()) {
            rest.push(lines.last())
        } else {
            rest
        }
    }
}

/// The maze rows of a layout: its qualifying lines.
pub open spec fn grid_of(s: Seq<char>) -> Seq<Seq<char>> {
    qualifying(split_lines(s))
}

/// The glyph at `(r, c)` of the grid, with `' '` for anything out of bounds.
pub open spec fn neighbor_glyph(grid: Seq<Seq<char>>, r: int, c: int) -> char {
    if 0 <= r < grid.len() && 0 <= c < grid[r].len() {
        grid[r][c]
    } else {
        ' '
    }
}

/// The wall subtype of a junction, from its four neighbor glyphs, trying the
/// patterns in order: a plain `'|'`/`'-'` pair first, then pairs where a
/// neighboring junction continues the wall. `None` when no pattern fits.
pub open spec fn junction_type(u: char, d: char, l: char, r: char) -> Option<WallType> {
    if d == '|' && r == '-' {
        Some(WallType::TopLeft)
    } else if d == '|' && l == '-' {
        Some(WallType::TopRight)
    } else if u == '|' && l == '-' {
        Some(WallType::BottomRight)
    } else if u == '|' && r == '-' {
        Some(WallType::BottomLeft)
    } else if d == '|' && r == '+' {
        Some(WallType::TopLeft)
    } else if d == '+' && r == '-' {
        Some(WallType::TopLeft)
    } else if d == '|' && l == '+' {
        Some(WallType::TopRight)
    } else if d == '+' && l == '-' {
        Some(WallType::TopRight)
    } else if u == '|' && l == '+' {
        Some(WallType::BottomRight)
    } else if u == '+' && l == '-' {
        Some(WallType::BottomRight)
    } else if u == '|' && r == '+' {
        Some(WallType::BottomLeft)
    } else if u == '+' && r == '-' {
        Some(WallType::BottomLeft)
    } else {
        None
    }
}

/// What the glyph at `(r, c)` of the grid classifies to, or the construction
/// error it raises.
pub open spec fn cell_spec(grid: Seq<Seq<char>>, r: int, c: int) -> Result<CellType, BoardError> {
    let g = grid[r][c];
    if g == '+' {
        match junction_type(
            neighbor_glyph(grid, r - 1, c),
            neighbor_glyph(grid, r + 1, c),
            neighbor_glyph(grid, r, c - 1),
            neighbor_glyph(grid, r, c + 1),
        ) {
            Some(w) => Ok(CellType::Wall(w)),
            None => Err(BoardError::InvalidJunction),
        }
    } else if g == '-' {
        Ok(CellType::Wall(WallType::Horizontal))
    } else if g == '|' {
        Ok(CellType::Wall(WallType::Vertical))
    } else if g == 'O' {
        Ok(CellType::PowerPill)
    } else if g == '.' {
        Ok(CellType::Dot)
    } else if g == ' ' {
        Ok(CellType::Empty)
    } else if g == '1' {
        Ok(CellType::Empty)
    } else {
        Err(BoardError::InvalidCellGlyph)
    }
}

/// The first construction error in row `r` at or after column `j`, scanning
/// left to right.
pub open spec fn row_check(grid: Seq<Seq<char>>, r: int, j: int) -> Result<(), BoardError>
    decreases grid[r].len() - j,
{
    if j < 0 || j >= grid[r].len() {
        Ok(())
    } else {
        match cell_spec(grid, r, j) {
            Err(e) => Err(e),
            Ok(_) => row_check(grid, r, j + 1),
        }
    }
}

/// The first construction error at or after row `i`: each row must match the
/// first row's length and then classify glyph by glyph.
pub open spec fn rows_check(grid: Seq<Seq<char>>, i: int) -> Result<(), BoardError>
    decreases grid.len() - i,
{
    if i < 0 || i >= grid.len() {
        Ok(())
    } else if grid[i].len() != grid[0].len() {
        Err(BoardError::InvalidLayout)
    } else {
        match row_check(grid, i, 0) {
            Err(e) => Err(e),
            Ok(_) => rows_check(grid, i + 1),
        }
    }
}

/// Whether a grid of maze rows builds, and if not, with which error: a grid
/// beyond the engine's size bound is rejected outright, otherwise the rows
/// are scanned in order.
pub open spec fn layout_check(grid: Seq<Seq<char>>) -> Result<(), BoardError> {
    if grid.len() > MAX_DIM || (grid.len() > 0 && grid[0].len() > MAX_DIM) {
        Err(BoardError::InvalidLayout)
    } else {
        rows_check(grid, 0)
    }
}

/// The enemy spawned by the `'1'` glyph at cell `(r, c)`.
pub open spec fn spawn_at(r: int, c: int) -> Enemy {
    Enemy {
        start_position: Position { x: (c * CELL) as i64, y: (r * CELL) as i64 },
        enemy_ai: EnemyAI::Random,
    }
}

/// The spawns recorded in row `r` at or after column `j`, left to right.
pub open spec fn row_spawns(row: Seq<char>, r: int, j: int) -> Seq<Enemy>
    decreases row.len() - j,
{
    if j < 0 || j >= row.len() {
        seq![]
    } else if row[j] == '1' {
        seq![spawn_at(r, j)] + row_spawns(row, r, j + 1)
    } else {
        row_spawns(row, r, j + 1)
    }
}

/// The spawns recorded at or after row `i`, in row-major order.
pub open spec fn grid_spawns(grid: Seq<Seq<char>>, i: int) -> Seq<Enemy>
    decreases grid.len() - i,
{
    if i < 0 || i >= grid.len() {
        seq![]
    } else {
        row_spawns(grid[i], i, 0) + grid_spawns(grid, i + 1)
    }
}

/// View of a vector of rows as a sequence of character sequences.
pub open spec fn grid_view(g: Seq<Vec<char>>) -> Seq<Seq<char>> {
    Seq::new(g.len(), |i: int| g[i]@)
}

/// The lines an in-progress split still owes: the unfinished current line
/// `cur` glued onto the lines of the unread input suffix.
spec fn glue(cur: Seq<char>, rest: Seq<Seq<char>>) -> Seq<Seq<char>> {
    if rest.len() == 0 {
        if cur.len() == 0 {
            seq![]
        } else {
            seq![cur]
        }
    } else {
        seq![cur + rest[0]] + rest.subrange(1, rest.len() as int)
    }
}

/// Split the layout text into its lines.
fn split_layout(s: &str) -> (out: Vec<Vec<char>>)
    ensures
        grid_view(out@) == split_lines(s@),
{
    let n = s.unicode_len();
    let mut out: Vec<Vec<char>> = Vec::new();
    let mut cur: Vec<char> = Vec::new();
    let mut i: usize = 0;
    proof {
        assert(s@.subrange(0, s@.len() as int) =~= s@);
        assert(glue(cur@, split_lines(s@)) =~= split_lines(s@));
        assert(grid_view(out@) + glue(cur@, split_lines(s@)) =~= split_lines(s@));
    }
    while i < n
        invariant
            i <= n,
            n == s@.len(),
            split_lines(s@) == grid_view(out@) + glue(cur@, split_lines(s@.subrange(i as int, n as int))),
        decreases n - i,
    {
        let ghost pre = s@.subrange(i as int, n as int);
        let ghost post = s@.subrange(i as int + 1, n as int);
        proof {
            assert(pre[0] == s@[i as int]);
            assert(pre.subrange(1, pre.len() as int) =~= post);
        }
        let c = s.get_char(i);
        if c == '\n' {
            let ghost old_out = out@;
            let ghost old_cur = cur@;
            let finished = cur;
            out.push(finished);
            cur = Vec::new();
            proof {
                let rest = split_lines(post);
                assert(split_lines(pre) == seq![Seq::<char>::empty()] + rest);
                assert(glue(old_cur, split_lines(pre))[0] =~= old_cur);
                assert(glue(old_cur, split_lines(pre)) =~= seq![old_cur] + glue(
                    Seq::<char>::empty(),
                    rest,
                ));
                assert(grid_view(out@) =~= grid_view(old_out) + seq![old_cur]);
                assert(grid_view(out@) + glue(cur@, rest) =~= grid_view(old_out) + glue(
                    old_cur,
                    split_lines(pre),
                ));
            }
        } else {
            let ghost old_cur = cur@;
            cur.push(c);
            proof {
                let rest = split_lines(post);
                if rest.len() == 0 {
                    assert(split_lines(pre) =~= seq![seq![c]]);
                    assert(old_cur + seq![c] =~= cur@);
                    assert(glue(old_cur, split_lines(pre)) =~= glue(cur@, rest));
                } else {
                    assert(split_lines(pre) =~= seq![seq![c] + rest[0]] + rest.subrange(
                        1,
                        rest.len() as int,
                    ));
                    assert(old_cur + (seq![c] + rest[0]) =~= cur@ + rest[0]);
                    assert(glue(old_cur, split_lines(pre)) =~= glue(cur@, rest));
                }
            }
        }
        i = i + 1;
    }
    proof {
        assert(s@.subrange(n as int, n as int) =~= Seq::<char>::empty());
        assert(split_lines(Seq::<char>::empty()) =~= Seq::<Seq<char>>::empty());
    }
    if cur.len() > 0 {
        let ghost old_out = out@;
        let ghost cur_snapshot = cur@;
        out.push(cur);
        proof {
            assert(grid_view(out@) =~= grid_view(old_out) + seq![cur_snapshot]);
            assert(grid_view(out@) =~= split_lines(s@));
        }
    } else {
        proof {
            assert(glue(cur@, Seq::<Seq<char>>::empty()) =~= Seq::<Seq<char>>::empty());
            assert(grid_view(out@) + Seq::<Seq<char>>::empty() =~= grid_view(out@));
            assert(grid_view(out@) =~= split_lines(s@));
        }
    }
    out
}

/// Whether a line becomes a maze row.
fn line_qualifies(line: &Vec<char>) -> (r: bool)
    ensures
        r == qualifies(line@),
{
    if line.len() >= 2 && line[0] == '/' && line[1] == '/' {
        return false;
    }
    let mut i: usize = 0;
    while i < line.len()
        invariant
            i <= line@.len(),
            !is_comment(line@),
            forall|j: int| 0 <= j < i ==> !layout_glyph(line@[j]),
        decreases line@.len() - i,
    {
        let c = line[i];
        if c == '+' || c == '-' || c == '|' || c == 'O' || c == '.' {
            proof {
                assert(layout_glyph(line@[i as int]));
            }
            return true;
        }
        i = i + 1;
    }
    false
}

/// The glyph at `(r, c)` of the row vector, `' '` when out of bounds.
fn char_or_space(grid: &Vec<Vec<char>>, r: usize, c: usize) -> (g: char)
    ensures
        g == neighbor_glyph(grid_view(grid@), r as int, c as int),
{
    if r < grid.len() && c < grid[r].len() {
        grid[r][c]
    } else {
        ' '
    }
}

/// The wall subtype of a junction from its neighbor glyphs; see
/// `junction_type`.
fn junction_wall_type(u: char, d: char, l: char, r: char) -> (w: Option<WallType>)
    ensures
        w == junction_type(u, d, l, r),
{
    if d == '|' && r == '-' {
        Some(WallType::TopLeft)
    } else if d == '|' && l == '-' {
        Some(WallType::TopRight)
    } else if u == '|' && l == '-' {
        Some(WallType::BottomRight)
    } else if u == '|' && r == '-' {
        Some(WallType::BottomLeft)
    } else if d == '|' && r == '+' {
        Some(WallType::TopLeft)
    } else if d == '+' && r == '-' {
        Some(WallType::TopLeft)
    } else if d == '|' && l == '+' {
        Some(WallType::TopRight)
    } else if d == '+' && l == '-' {
        Some(WallType::TopRight)
    } else if u == '|' && l == '+' {
        Some(WallType::BottomRight)
    } else if u == '+' && l == '-' {
        Some(WallType::BottomRight)
    } else if u == '|' && r == '+' {
        Some(WallType::BottomLeft)
    } else if u == '+' && r == '-' {
        Some(WallType::BottomLeft)
    } else {
        None
    }
}

impl Board {
    /// Classification answers `Outside` for exactly the coordinates beyond
    /// the grid: left of, above, right of or below it — and never for a
    /// coordinate on the grid.
    pub proof fn lemma_classify_outside_iff(self, x: int, y: int)
        requires
            self.wf(),
        ensures
            self.classify(x, y) is Outside <==> (x < 0 || x >= self.spec_columns() * CELL || y < 0
                || y >= self.spec_rows() * CELL),
    {
        if 0 <= x && 0 <= y {
            if x < self.spec_columns() * CELL && y < self.spec_rows() * CELL {
                lemma_div_inside(x, self.spec_columns());
                lemma_div_inside(y, self.spec_rows());
                let cx = x / (CELL as int);
                let cy = y / (CELL as int);
                assert(cy * self.spec_columns() + cx < self.spec_rows() * self.spec_columns())
                    by (nonlinear_arith)
                    requires
                        0 <= cx < self.spec_columns(),
                        0 <= cy < self.spec_rows(),
                ;
                assert(0 <= cy * self.spec_columns() + cx) by (nonlinear_arith)
                    requires
                        0 <= cx,
                        0 <= cy,
                        0 <= self.spec_columns(),
                ;
                assert(!(self.spec_cells()[cy * self.spec_columns() + cx] is Outside));
            } else if x >= self.spec_columns() * CELL {
                lemma_div_outside(x, self.spec_columns());
            } else {
                lemma_div_outside(y, self.spec_rows());
            }
        }
    }

    /// Classifying the exact center of cell `(cx, cy)` finds that cell.
    pub proof fn lemma_classify_cell_center(self, cx: int, cy: int)
        requires
            self.wf(),
            0 <= cx,
            0 <= cy,
        ensures
            self.classify(cx * CELL, cy * CELL) == self.cell_at(cx, cy),
    {
        vstd::arithmetic::div_mod::lemma_fundamental_div_mod_converse(
            cx * (CELL as int),
            CELL as int,
            cx,
            0,
        );
        vstd::arithmetic::div_mod::lemma_fundamental_div_mod_converse(
            cy * (CELL as int),
            CELL as int,
            cy,
            0,
        );
    }
}

/// For a nonnegative coordinate at or past the grid edge, the containing
/// cell index is at or past the edge too.
proof fn lemma_div_outside(v: int, n: int)
    requires
        0 <= v,
        0 <= n,
        v >= n * CELL,
    ensures
        v / (CELL as int) >= n,
{
    vstd::arithmetic::div_mod::lemma_fundamental_div_mod(v, CELL as int);
    vstd::arithmetic::div_mod::lemma_mod_bound(v, CELL as int);
    assert(v / (CELL as int) >= n) by (nonlinear_arith)
        requires
            v == (CELL as int) * (v / (CELL as int)) + v % (CELL as int),
            0 <= v % (CELL as int) < CELL,
            v >= n * CELL,
    ;
}

/// For a nonnegative coordinate short of the grid edge, the containing cell
/// index is on the grid.
proof fn lemma_div_inside(v: int, n: int)
    requires
        0 <= v,
        v < n * CELL,
    ensures
        0 <= v / (CELL as int) < n,
{
    vstd::arithmetic::div_mod::lemma_fundamental_div_mod(v, CELL as int);
    vstd::arithmetic::div_mod::lemma_mod_bound(v, CELL as int);
    assert(v / (CELL as int) < n) by (nonlinear_arith)
        requires
            v == (CELL as int) * (v / (CELL as int)) + v % (CELL as int),
            0 <= v % (CELL as int) < CELL,
            v < n * CELL,
    ;
    assert(v / (CELL as int) >= 0) by (nonlinear_arith)
        requires
            v == (CELL as int) * (v / (CELL as int)) + v % (CELL as int),
            0 <= v % (CELL as int) < CELL,
            0 <= v,
    ;
}

} // verus!
