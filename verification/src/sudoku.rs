//! A sudoku board and its backtracking solver. A cell holds `0` when it is
//! empty and a digit from 1 to 9 otherwise.
use vstd::prelude::*;

verus! {

/// A 9 by 9 board, indexed by row and then column.
pub type Grid = [[i32; 9]; 9];

pub open spec fn on_board(r: int, c: int) -> bool {
    0 <= r < 9 && 0 <= c < 9
}

/// Two cells share a row, a column or a 3 by 3 box.
pub open spec fn same_unit(r1: int, c1: int, r2: int, c2: int) -> bool {
    r1 == r2 || c1 == c2 || (r1 / 3 == r2 / 3 && c1 / 3 == c2 / 3)
}

/// No two distinct cells of one row, column or box hold the same digit.
pub open spec fn consistent(g: Grid) -> bool {
    forall|r1: int, c1: int, r2: int, c2: int|
        on_board(r1, c1) && on_board(r2, c2) && (r1 != r2 || c1 != c2) && same_unit(r1, c1, r2, c2)
            && 1 <= g[r1][c1] <= 9 ==> #[trigger] g[r1][c1] != #[trigger] g[r2][c2]
}

/// Every cell is filled.
pub open spec fn filled(g: Grid) -> bool {
    forall|r: int, c: int| on_board(r, c) ==> #[trigger] g[r][c] != 0
}

/// `f` fills the empty cells of `g` with digits, keeps its other cells,
/// and puts no filled-in digit next to an equal one in a row, column or
/// box.
pub open spec fn is_completion(g: Grid, f: Grid) -> bool {
    &&& forall|r: int, c: int| on_board(r, c) && g[r][c] != 0 ==> #[trigger] f[r][c] == g[r][c]
    &&& forall|r: int, c: int| on_board(r, c) && g[r][c] == 0 ==> 1 <= #[trigger] f[r][c] <= 9
    &&& forall|r1: int, c1: int, r2: int, c2: int|
        on_board(r1, c1) && on_board(r2, c2) && (r1 != r2 || c1 != c2) && same_unit(r1, c1, r2, c2)
            && (g[r1][c1] == 0 || g[r2][c2] == 0) ==> #[trigger] f[r1][c1] != #[trigger] f[r2][c2]
}

/// The cell at offset `(a, b)` in the box of `(y, x)`.
pub open spec fn box_cell(g: Grid, y: int, x: int, a: int, b: int) -> i32 {
    g[y / 3 * 3 + a][x / 3 * 3 + b]
}

/// `n` occurs neither in row `y`, nor in column `x`, nor in the box of
/// `(y, x)`.
pub open spec fn can_place(g: Grid, y: int, x: int, n: i32) -> bool {
    &&& forall|k: int| 0 <= k < 9 ==> #[trigger] g[y][k] != n
    &&& forall|k: int| 0 <= k < 9 ==> #[trigger] g[k][x] != n
    &&& forall|a: int, b: int| 0 <= a < 3 && 0 <= b < 3 ==> #[trigger] box_cell(g, y, x, a, b) != n
}

/// The number of empty cells at row-major positions `k` and after.
pub open spec fn zeros_from(g: Grid, k: nat) -> nat
    decreases 81 - k,
{
    if k >= 81 {
        0
    } else {
        (if g[(k / 9) as int][(k % 9) as int] == 0 { 1nat } else { 0nat }) + zeros_from(g, k + 1)
    }
}

/// Filling one empty cell leaves one empty cell fewer.
proof fn lemma_fill_one(g: Grid, h: Grid, i: int, j: int, k: nat)
    requires
        on_board(i, j),
        g[i][j] == 0,
        h[i][j] != 0,
        forall|r: int, c: int| on_board(r, c) && (r != i || c != j) ==> #[trigger] h[r][c] == g[r][c],
        k <= 81,
    ensures
        zeros_from(h, k) + (if k <= 9 * i + j { 1nat } else { 0nat }) == zeros_from(g, k),
    decreases 81 - k,
{
    if k < 81 {
        lemma_fill_one(g, h, i, j, k + 1);
        let r = k / 9;
        let c = k % 9;
        assert(on_board(r as int, c as int));
        if r == i && c == j {
            assert(k == 9 * i + j);
        } else {
            assert(k != 9 * i + j);
            assert(h[r as int][c as int] == g[r as int][c as int]);
        }
    }
}

/// A completion places at each empty cell a digit that the cell's row,
/// column and box do not hold yet.
proof fn lemma_completion_places(g: Grid, f: Grid, i: int, j: int)
    requires
        is_completion(g, f),
        on_board(i, j),
        g[i][j] == 0,
    ensures
        can_place(g, i, j, f[i][j]),
{
    let n = f[i][j];
    assert(1 <= n <= 9);
    assert forall|k: int| 0 <= k < 9 implies #[trigger] g[i][k] != n by {
        if k != j && g[i][k] != 0 {
            assert(f[i][k] == g[i][k]);
            assert(f[i][j] != f[i][k]);
        }
    }
    assert forall|k: int| 0 <= k < 9 implies #[trigger] g[k][j] != n by {
        if k != i && g[k][j] != 0 {
            assert(f[k][j] == g[k][j]);
            assert(f[i][j] != f[k][j]);
        }
    }
    assert forall|a: int, b: int| 0 <= a < 3 && 0 <= b < 3 implies #[trigger] box_cell(g, i, j, a, b)
        != n by {
        let r = i / 3 * 3 + a;
        let c = j / 3 * 3 + b;
        assert(on_board(r, c));
        assert(r / 3 == i / 3 && c / 3 == j / 3);
        if (r != i || c != j) && g[r][c] != 0 {
            assert(f[r][c] == g[r][c]);
            assert(f[i][j] != f[r][c]);
        }
    }
}

/// Placing a digit that fits at the first empty cell of `g`: the
/// completions of the new board are the completions of `g` that hold that
/// digit there.
proof fn lemma_place_step(g: Grid, h: Grid, i: int, j: int, f: Grid)
    requires
        on_board(i, j),
        g[i][j] == 0,
        1 <= h[i][j] <= 9,
        can_place(g, i, j, h[i][j]),
        forall|r: int, c: int| on_board(r, c) && (r != i || c != j) ==> #[trigger] h[r][c] == g[r][c],
    ensures
        is_completion(h, f) <==> (is_completion(g, f) && f[i][j] == h[i][j]),
{
    let n = h[i][j];
    if is_completion(h, f) {
        assert(f[i][j] == n);
        assert forall|r1: int, c1: int, r2: int, c2: int|
            on_board(r1, c1) && on_board(r2, c2) && (r1 != r2 || c1 != c2) && same_unit(
                r1,
                c1,
                r2,
                c2,
            ) && (g[r1][c1] == 0 || g[r2][c2] == 0) implies #[trigger] f[r1][c1]
            != #[trigger] f[r2][c2] by {
            if h[r1][c1] != 0 && h[r2][c2] != 0 {
                if r1 == i && c1 == j {
                    assert(f[r2][c2] == g[r2][c2]);
                    lemma_unit_cases(g, i, j, r2, c2, n);
                } else {
                    assert(r2 == i && c2 == j);
                    assert(f[r1][c1] == g[r1][c1]);
                    lemma_unit_cases(g, i, j, r1, c1, n);
                }
            }
        }
        assert forall|r: int, c: int| on_board(r, c) && g[r][c] == 0 implies 1 <= #[trigger] f[r][c]
            <= 9 by {
            if r != i || c != j {
                assert(h[r][c] == 0);
            }
        }
    }
    if is_completion(g, f) && f[i][j] == n {
        assert forall|r: int, c: int| on_board(r, c) && h[r][c] != 0 implies #[trigger] f[r][c]
            == h[r][c] by {
            if r != i || c != j {
                assert(g[r][c] == h[r][c]);
            }
        }
    }
}

/// A cell in a unit of `(i, j)` other than itself does not hold a digit
/// that can be placed at `(i, j)`.
proof fn lemma_unit_cases(g: Grid, i: int, j: int, r: int, c: int, n: i32)
    requires
        on_board(i, j),
        on_board(r, c),
        r != i || c != j,
        same_unit(i, j, r, c),
        can_place(g, i, j, n),
    ensures
        g[r][c] != n,
{
    if r == i {
        assert(g[i][c] != n);
    } else if c == j {
        assert(g[r][j] != n);
    } else {
        let a = r - i / 3 * 3;
        let b = c - j / 3 * 3;
        assert(0 <= a < 3 && 0 <= b < 3);
        assert(box_cell(g, i, j, a, b) != n);
    }
}

/// Row of the `k`-th cell of unit `u` of a kind: rows (0), columns (1) or
/// boxes (2, numbered in reading order).
pub open spec fn unit_row(kind: int, u: int, k: int) -> int {
    if kind == 0 {
        u
    } else if kind == 1 {
        k
    } else {
        u / 3 * 3 + k / 3
    }
}

/// Column of the `k`-th cell of unit `u` of a kind.
pub open spec fn unit_col(kind: int, u: int, k: int) -> int {
    if kind == 0 {
        k
    } else if kind == 1 {
        u
    } else {
        u % 3 * 3 + k % 3
    }
}

/// The value of the `k`-th cell of a unit.
pub open spec fn unit_value(g: Grid, kind: int, u: int, k: int) -> i32 {
    g[unit_row(kind, u, k)][unit_col(kind, u, k)]
}

/// No digit occurs twice in the unit.
pub open spec fn unit_distinct(g: Grid, kind: int, u: int) -> bool {
    forall|k1: int, k2: int|
        0 <= k1 < 9 && 0 <= k2 < 9 && k1 != k2 && 1 <= unit_value(g, kind, u, k1) <= 9 ==> #[trigger] unit_value(
            g,
            kind,
            u,
            k1,
        ) != #[trigger] unit_value(g, kind, u, k2)
}

proof fn lemma_unit_cell(kind: int, u: int, k: int)
    requires
        0 <= kind < 3,
        0 <= u < 9,
        0 <= k < 9,
    ensures
        on_board(unit_row(kind, u, k), unit_col(kind, u, k)),
        kind == 2 ==> unit_row(kind, u, k) / 3 == u / 3 && unit_col(kind, u, k) / 3 == u % 3,
        kind == 2 ==> unit_row(kind, u, k) % 3 == k / 3 && unit_col(kind, u, k) % 3 == k % 3,
{
}

/// The pairwise statement of consistency and the unit-by-unit one agree.
proof fn lemma_consistent_by_units(g: Grid)
    ensures
        consistent(g) <==> forall|kind: int, u: int|
            0 <= kind < 3 && 0 <= u < 9 ==> #[trigger] unit_distinct(g, kind, u),
{
    if consistent(g) {
        assert forall|kind: int, u: int| 0 <= kind < 3 && 0 <= u < 9 implies #[trigger] unit_distinct(
            g,
            kind,
            u,
        ) by {
            assert forall|k1: int, k2: int|
                0 <= k1 < 9 && 0 <= k2 < 9 && k1 != k2 && 1 <= unit_value(g, kind, u, k1)
                    <= 9 implies #[trigger] unit_value(g, kind, u, k1) != #[trigger] unit_value(
                g,
                kind,
                u,
                k2,
            ) by {
                lemma_unit_cell(kind, u, k1);
                lemma_unit_cell(kind, u, k2);
                let r1 = unit_row(kind, u, k1);
                let c1 = unit_col(kind, u, k1);
                let r2 = unit_row(kind, u, k2);
                let c2 = unit_col(kind, u, k2);
                assert(r1 != r2 || c1 != c2);
                assert(same_unit(r1, c1, r2, c2));
                assert(g[r1][c1] != g[r2][c2]);
            }
        }
    }
    if forall|kind: int, u: int| 0 <= kind < 3 && 0 <= u < 9 ==> #[trigger] unit_distinct(g, kind, u) {
        assert forall|r1: int, c1: int, r2: int, c2: int|
            on_board(r1, c1) && on_board(r2, c2) && (r1 != r2 || c1 != c2) && same_unit(r1, c1, r2, c2)
                && 1 <= g[r1][c1] <= 9 implies #[trigger] g[r1][c1] != #[trigger] g[r2][c2] by {
            if r1 == r2 {
                assert(unit_distinct(g, 0, r1));
                assert(unit_value(g, 0, r1, c1) != unit_value(g, 0, r1, c2));
            } else if c1 == c2 {
                assert(unit_distinct(g, 1, c1));
                assert(unit_value(g, 1, c1, r1) != unit_value(g, 1, c1, r2));
            } else {
                let u = r1 / 3 * 3 + c1 / 3;
                let k1 = r1 % 3 * 3 + c1 % 3;
                let k2 = r2 % 3 * 3 + c2 % 3;
                assert(0 <= u < 9);
                assert(u / 3 == r1 / 3 && u % 3 == c1 / 3);
                assert(k1 / 3 == r1 % 3 && k1 % 3 == c1 % 3);
                assert(k2 / 3 == r2 % 3 && k2 % 3 == c2 % 3);
                assert(unit_row(2, u, k1) == r1 && unit_col(2, u, k1) == c1);
                assert(unit_row(2, u, k2) == r2 && unit_col(2, u, k2) == c2);
                assert(unit_distinct(g, 2, u));
                assert(unit_value(g, 2, u, k1) != unit_value(g, 2, u, k2));
            }
        }
    }
}

/// A completion of a consistent board is a full, consistent board.
pub proof fn law_completion_is_solution(g: Grid, f: Grid)
    requires
        consistent(g),
        is_completion(g, f),
    ensures
        consistent(f),
        filled(f),
{
    assert forall|r: int, c: int| on_board(r, c) implies #[trigger] f[r][c] != 0 by {
        if g[r][c] == 0 {
            assert(1 <= f[r][c]);
        }
    }
    assert forall|r1: int, c1: int, r2: int, c2: int|
        on_board(r1, c1) && on_board(r2, c2) && (r1 != r2 || c1 != c2) && same_unit(r1, c1, r2, c2)
            && 1 <= f[r1][c1] <= 9 implies #[trigger] f[r1][c1] != #[trigger] f[r2][c2] by {
        if g[r1][c1] != 0 && g[r2][c2] != 0 {
            assert(f[r1][c1] == g[r1][c1]);
            assert(f[r2][c2] == g[r2][c2]);
        }
    }
}

/// A full, consistent board of digits that keeps the filled cells of `g`
/// is a completion of `g`; so when `solve` fails, no such board exists.
pub proof fn law_solution_is_completion(g: Grid, s: Grid)
    requires
        consistent(s),
        forall|r: int, c: int| on_board(r, c) ==> 1 <= #[trigger] s[r][c] <= 9,
        forall|r: int, c: int| on_board(r, c) && g[r][c] != 0 ==> #[trigger] s[r][c] == g[r][c],
    ensures
        is_completion(g, s),
{
}

/// The row has an empty cell.
pub open spec fn row_has_empty(g: Grid, r: int) -> bool {
    exists|c: int| 0 <= c < 9 && #[trigger] g[r][c] == 0
}

/// The number of rows, from row `r` on, that hold an empty cell.
pub open spec fn empty_rows_from(g: Grid, r: nat) -> nat
    decreases 9 - r,
{
    if r >= 9 {
        0
    } else {
        (if row_has_empty(g, r as int) { 1nat } else { 0nat }) + empty_rows_from(g, r + 1)
    }
}

proof fn lemma_empty_rows_split(g: Grid, r: nat)
    requires
        r < 9,
    ensures
        empty_rows_from(g, r) == (if row_has_empty(g, r as int) { 1nat } else { 0nat }) + empty_rows_from(
            g,
            r + 1,
        ),
        empty_rows_from(g, r + 1) <= 8 - r,
    decreases 9 - r,
{
    if r + 1 < 9 {
        lemma_empty_rows_split(g, r + 1);
    }
}

proof fn lemma_no_empty_rows(g: Grid, r: nat)
    requires
        filled(g),
        r <= 9,
    ensures
        empty_rows_from(g, r) == 0,
    decreases 9 - r,
{
    if r < 9 {
        lemma_no_empty_rows(g, r + 1);
        if row_has_empty(g, r as int) {
            let c = choose|c: int| 0 <= c < 9 && #[trigger] g[r as int][c] == 0;
            assert(on_board(r as int, c));
        }
    }
}

/// The cell at row-major position `k`.
pub open spec fn cell_at(g: Grid, k: int) -> i32 {
    g[k / 9][k % 9]
}

/// `a` comes before `b` when the boards are read cell by cell in reading
/// order: they agree up to some cell, where `a` holds the smaller value.
pub open spec fn lex_less(a: Grid, b: Grid) -> bool {
    exists|k: int|
        0 <= k < 81 && (forall|m: int| 0 <= m < k ==> #[trigger] cell_at(a, m) == cell_at(b, m))
            && #[trigger] cell_at(a, k) < cell_at(b, k)
}

proof fn lemma_first_difference(a: Grid, b: Grid, p: int)
    requires
        0 <= p < 81,
        forall|m: int| 0 <= m < p ==> #[trigger] cell_at(a, m) == cell_at(b, m),
        cell_at(a, p) > cell_at(b, p),
    ensures
        !lex_less(a, b),
{
    if lex_less(a, b) {
        let k = choose|k: int|
            0 <= k < 81 && (forall|m: int| 0 <= m < k ==> #[trigger] cell_at(a, m) == cell_at(b, m))
                && #[trigger] cell_at(a, k) < cell_at(b, k);
        if k < p {
            assert(cell_at(a, k) == cell_at(b, k));
        } else if k > p {
            assert(cell_at(a, p) == cell_at(b, p));
        }
    }
}

/// The sudoku board behind the grid of buttons.
#[derive(Debug, Clone, Copy)]
pub struct Model {
    pub grid: Grid,
}

impl Model {
    /// An empty board.
    pub fn new() -> (m: Model)
        ensures
            forall|r: int, c: int| on_board(r, c) ==> #[trigger] m.grid[r][c] == 0,
    {
        Model { grid: [[0; 9]; 9] }
    }

    fn unit_ok(&self, kind: usize, u: usize) -> (b: bool)
        requires
            kind < 3,
            u < 9,
        ensures
            b == unit_distinct(self.grid, kind as int, u as int),
    {
        let mut seen: [bool; 9] = [false; 9];
        let mut k: usize = 0;
        while k < 9
            invariant
                kind < 3,
                u < 9,
                k <= 9,
                forall|v: int|
                    1 <= v <= 9 ==> (#[trigger] seen[v - 1] <==> exists|m: int|
                        0 <= m < k && #[trigger] unit_value(self.grid, kind as int, u as int, m) == v),
                forall|k1: int, k2: int|
                    0 <= k1 < k && 0 <= k2 < k && k1 != k2 && 1 <= unit_value(
                        self.grid,
                        kind as int,
                        u as int,
                        k1,
                    ) <= 9 ==> #[trigger] unit_value(self.grid, kind as int, u as int, k1)
                        != #[trigger] unit_value(self.grid, kind as int, u as int, k2),
            decreases 9 - k,
        {
            proof {
                lemma_unit_cell(kind as int, u as int, k as int);
            }
            let (r, c) = if kind == 0 {
                (u, k)
            } else if kind == 1 {
                (k, u)
            } else {
                (u / 3 * 3 + k / 3, u % 3 * 3 + k % 3)
            };
            let v = self.grid[r][c];
            assert(v == unit_value(self.grid, kind as int, u as int, k as int));
            if v > 0 && v < 10 {
                let idx = (v - 1) as usize;
                if seen[idx] {
                    let ghost m = choose|m: int|
                        0 <= m < k && #[trigger] unit_value(self.grid, kind as int, u as int, m) == v;
                    assert(unit_value(self.grid, kind as int, u as int, k as int) == unit_value(
                        self.grid,
                        kind as int,
                        u as int,
                        m,
                    ));
                    return false;
                }
                seen[idx] = true;
                assert forall|w: int|
                    1 <= w <= 9 implies (#[trigger] seen[w - 1] <==> exists|m: int|
                        0 <= m < k + 1 && #[trigger] unit_value(self.grid, kind as int, u as int, m)
                            == w) by {
                    if w == v {
                        assert(unit_value(self.grid, kind as int, u as int, k as int) == w);
                    } else {
                        if exists|m: int|
                            0 <= m < k + 1 && #[trigger] unit_value(self.grid, kind as int, u as int, m)
                                == w {
                            let m = choose|m: int|
                                0 <= m < k + 1 && #[trigger] unit_value(self.grid, kind as int, u as int, m)
                                    == w;
                            assert(m < k);
                        }
                    }
                }
            } else {
                assert forall|w: int|
                    1 <= w <= 9 implies (#[trigger] seen[w - 1] <==> exists|m: int|
                        0 <= m < k + 1 && #[trigger] unit_value(self.grid, kind as int, u as int, m)
                            == w) by {
                    if exists|m: int|
                        0 <= m < k + 1 && #[trigger] unit_value(self.grid, kind as int, u as int, m) == w {
                        let m = choose|m: int|
                            0 <= m < k + 1 && #[trigger] unit_value(self.grid, kind as int, u as int, m)
                                == w;
                        assert(m < k);
                    }
                }
            }
            k = k + 1;
        }
        true
    }

    /// Whether no row, column or box holds a digit twice.
    pub fn solvable(&self) -> (b: bool)
        ensures
            b == consistent(self.grid),
    {
        proof {
            lemma_consistent_by_units(self.grid);
        }
        let mut kind: usize = 0;
        while kind < 3
            invariant
                kind <= 3,
                forall|q: int, u: int| 0 <= q < kind && 0 <= u < 9 ==> #[trigger] unit_distinct(self.grid, q, u),
            decreases 3 - kind,
        {
            let mut u: usize = 0;
            while u < 9
                invariant
                    kind < 3,
                    u <= 9,
                    forall|q: int, w: int|
                        (0 <= q < kind && 0 <= w < 9) || (q == kind && 0 <= w < u) ==> #[trigger] unit_distinct(
                            self.grid,
                            q,
                            w,
                        ),
                decreases 9 - u,
            {
                if !self.unit_ok(kind, u) {
                    return false;
                }
                u = u + 1;
            }
            kind = kind + 1;
        }
        true
    }

    /// Empties every cell.
    pub fn clear(&mut self)
        ensures
            forall|r: int, c: int| on_board(r, c) ==> #[trigger] final(self).grid[r][c] == 0,
    {
        self.grid = [[0; 9]; 9];
    }

    /// Writes a value into the cell at row `x`, column `y`.
    pub fn set(&mut self, x: usize, y: usize, value: i32)
        requires
            x < 9,
            y < 9,
        ensures
            final(self).grid[x as int][y as int] == value,
            forall|r: int, c: int|
                on_board(r, c) && (r != x || c != y) ==> #[trigger] final(self).grid[r][c] == old(
                    self,
                ).grid[r][c],
    {
        self.grid[x][y] = value;
        proof {
            assert forall|r: int, c: int|
                on_board(r, c) && (r != x || c != y) implies #[trigger] self.grid[r][c] == old(
                self,
            ).grid[r][c] by {
                if r != x {
                    assert(self.grid[r] == old(self).grid[r]);
                }
            }
        }
    }

    /// The number of rows, from row `r` on, that hold an empty cell.
    fn rows_with_empty(&self) -> (n: usize)
        ensures
            n == empty_rows_from(self.grid, 0),
    {
        let mut n: usize = 0;
        let mut r: usize = 9;
        while r > 0
            invariant
                r <= 9,
                n <= 9 - r,
                n == empty_rows_from(self.grid, r as nat),
            decreases r,
        {
            r = r - 1;
            let mut c: usize = 0;
            let mut found = false;
            while c < 9
                invariant
                    r < 9,
                    c <= 9,
                    found == exists|k: int| 0 <= k < c && #[trigger] self.grid[r as int][k] == 0,
                decreases 9 - c,
            {
                if self.grid[r][c] == 0 {
                    found = true;
                }
                c = c + 1;
            }
            proof {
                lemma_empty_rows_split(self.grid, r as nat);
                assert(found == row_has_empty(self.grid, r as int));
            }
            if found {
                n = n + 1;
            }
        }
        n
    }

    /// What pressing "Solve" does: a board with a repeated digit is left
    /// as it is; otherwise it is solved when it can be. The result is the
    /// number of "Not solvable" alerts shown: one for a board with a
    /// repeated digit, else one per row still holding an empty cell.
    pub fn solve_pressed(&mut self) -> (alerts: usize)
        ensures
            !consistent(old(self).grid) ==> final(self).grid == old(self).grid && alerts == 1,
            consistent(old(self).grid) && (exists|f: Grid| #[trigger] is_completion(old(self).grid, f))
                ==> is_completion(old(self).grid, final(self).grid) && alerts == 0 && (forall|f: Grid|
                #[trigger] is_completion(old(self).grid, f) ==> !lex_less(f, final(self).grid)),
            consistent(old(self).grid) && !(exists|f: Grid| #[trigger] is_completion(old(self).grid, f))
                ==> final(self).grid == old(self).grid && alerts == empty_rows_from(old(self).grid, 0),
    {
        if self.solvable() {
            let ghost g0 = self.grid;
            let solved = self.solve();
            if solved {
                proof {
                    law_completion_is_solution(g0, self.grid);
                    lemma_no_empty_rows(self.grid, 0);
                }
            }
            self.rows_with_empty()
        } else {
            1
        }
    }

    /// Whether digit `n` is absent from the row, the column and the box of
    /// the cell at row `y`, column `x`.
    pub fn possible(&self, y: usize, x: usize, number: i32) -> (b: bool)
        requires
            y < 9,
            x < 9,
        ensures
            b == can_place(self.grid, y as int, x as int, number),
    {
        let mut k: usize = 0;
        while k < 9
            invariant
                k <= 9,
                y < 9,
                forall|m: int| 0 <= m < k ==> #[trigger] self.grid[y as int][m] != number,
            decreases 9 - k,
        {
            if self.grid[y][k] == number {
                return false;
            }
            k = k + 1;
        }
        let mut k: usize = 0;
        while k < 9
            invariant
                k <= 9,
                x < 9,
                forall|m: int| 0 <= m < k ==> #[trigger] self.grid[m][x as int] != number,
            decreases 9 - k,
        {
            if self.grid[k][x] == number {
                return false;
            }
            k = k + 1;
        }
        let x0: usize = (x / 3) * 3;
        let y0: usize = (y / 3) * 3;
        let mut a: usize = 0;
        while a < 3
            invariant
                a <= 3,
                x < 9,
                y < 9,
                x0 == x / 3 * 3,
                y0 == y / 3 * 3,
                forall|p: int, q: int|
                    0 <= p < a && 0 <= q < 3 ==> #[trigger] box_cell(self.grid, y as int, x as int, p, q)
                        != number,
            decreases 3 - a,
        {
            let mut b: usize = 0;
            while b < 3
                invariant
                    a < 3,
                    b <= 3,
                    x < 9,
                    y < 9,
                    x0 == x / 3 * 3,
                    y0 == y / 3 * 3,
                    forall|p: int, q: int|
                        (0 <= p < a && 0 <= q < 3) || (p == a && 0 <= q < b) ==> #[trigger] box_cell(
                            self.grid,
                            y as int,
                            x as int,
                            p,
                            q,
                        ) != number,
                decreases 3 - b,
            {
                if self.grid[y0 + a][x0 + b] == number {
                    assert(box_cell(self.grid, y as int, x as int, a as int, b as int) == number);
                    return false;
                }
                b = b + 1;
            }
            a = a + 1;
        }
        true
    }

    /// The first empty cell in reading order, as `(row, column)`, or
    /// `(99, 99)` when the board is full.
    pub fn find_next_cell2fill(&self) -> (r: (usize, usize))
        ensures
            r == (99usize, 99usize) <==> filled(self.grid),
            r != (99usize, 99usize) ==> {
                &&& r.0 < 9 && r.1 < 9
                &&& self.grid[r.0 as int][r.1 as int] == 0
                &&& forall|a: int, b: int|
                    on_board(a, b) && (a < r.0 || (a == r.0 && b < r.1)) ==> #[trigger] self.grid[a][b]
                        != 0
            },
    {
        let mut x: usize = 0;
        while x < 9
            invariant
                x <= 9,
                forall|a: int, b: int| on_board(a, b) && a < x ==> #[trigger] self.grid[a][b] != 0,
            decreases 9 - x,
        {
            let mut y: usize = 0;
            while y < 9
                invariant
                    x < 9,
                    y <= 9,
                    forall|a: int, b: int|
                        on_board(a, b) && (a < x || (a == x && b < y)) ==> #[trigger] self.grid[a][b]
                            != 0,
                decreases 9 - y,
            {
                if self.grid[x][y] == 0 {
                    return (x, y);
                }
                y = y + 1;
            }
            x = x + 1;
        }
        (99, 99)
    }

    /// Fills the empty cells by trying the digits 1 to 9 in order at the
    /// first empty cell and backtracking. On success the board is a
    /// completion of the one given; on failure the board is unchanged and
    /// no completion exists.
    pub fn solve(&mut self) -> (r: bool)
        ensures
            r ==> is_completion(old(self).grid, final(self).grid),
            !r ==> final(self).grid == old(self).grid,
            !r ==> forall|f: Grid| !#[trigger] is_completion(old(self).grid, f),
            r ==> forall|f: Grid| #[trigger] is_completion(old(self).grid, f) ==> !lex_less(
                f,
                final(self).grid,
            ),
        decreases zeros_from(old(self).grid, 0),
    {
        let (i, j) = self.find_next_cell2fill();
        if i == 99 {
            proof {
                assert forall|f: Grid| #[trigger] is_completion(self.grid, f) implies !lex_less(
                    f,
                    self.grid,
                ) by {
                    if lex_less(f, self.grid) {
                        let k = choose|k: int|
                            0 <= k < 81 && (forall|m: int|
                                0 <= m < k ==> #[trigger] cell_at(f, m) == cell_at(self.grid, m))
                                && #[trigger] cell_at(f, k) < cell_at(self.grid, k);
                        assert(on_board(k / 9, k % 9));
                    }
                }
            }
            return true;
        }
        let ghost g0 = self.grid;
        let mut e: i32 = 1;
        while e < 10
            invariant
                1 <= e <= 10,
                i < 9,
                j < 9,
                self.grid == g0,
                old(self).grid == g0,
                g0[i as int][j as int] == 0,
                forall|a: int, b: int|
                    on_board(a, b) && (a < i || (a == i && b < j)) ==> #[trigger] g0[a][b] != 0,
                forall|f: Grid| #[trigger] is_completion(g0, f) ==> f[i as int][j as int] >= e,
            decreases 10 - e,
        {
            if self.possible(i, j, e) {
                self.grid[i][j] = e;
                let ghost h = self.grid;
                proof {
                    assert(h[i as int][j as int] == e);
                    assert forall|r: int, c: int| on_board(r, c) && (r != i || c != j) implies #[trigger] h[r][c]
                        == g0[r][c] by {
                        if r != i {
                            assert(h[r] == g0[r]);
                        } else {
                            assert(h[r][c] == g0[r][c]);
                        }
                    }
                    lemma_fill_one(g0, h, i as int, j as int, 0);
                }
                if self.solve() {
                    proof {
                        lemma_place_step(g0, h, i as int, j as int, self.grid);
                        let p = 9 * i + j;
                        assert forall|f: Grid| #[trigger] is_completion(g0, f) implies !lex_less(
                            f,
                            self.grid,
                        ) by {
                            lemma_place_step(g0, h, i as int, j as int, f);
                            if f[i as int][j as int] != e {
                                assert forall|m: int| 0 <= m < p implies #[trigger] cell_at(f, m)
                                    == cell_at(self.grid, m) by {
                                    let a = m / 9;
                                    let b = m % 9;
                                    assert(on_board(a, b));
                                    assert(a < i || (a == i && b < j));
                                    assert(g0[a][b] != 0);
                                }
                                assert(p / 9 == i && p % 9 == j);
                                lemma_first_difference(f, self.grid, p);
                            }
                        }
                    }
                    return true;
                }
                self.grid[i][j] = 0;
                proof {
                    assert(self.grid[i as int] =~= g0[i as int]);
                    assert forall|r: int| 0 <= r < 9 implies #[trigger] self.grid[r] == g0[r] by {
                        if r != i {
                            assert(self.grid[r] == h[r]);
                            assert(h[r] =~= g0[r]) by {
                                assert forall|c: int| 0 <= c < 9 implies h[r][c] == g0[r][c] by {
                                    assert(on_board(r, c));
                                }
                            }
                        }
                    }
                    assert(self.grid =~= g0);
                    assert forall|f: Grid| #[trigger] is_completion(g0, f) implies f[i as int][j as int]
                        >= e + 1 by {
                        lemma_place_step(g0, h, i as int, j as int, f);
                    }
                }
            } else {
                proof {
                    assert forall|f: Grid| #[trigger] is_completion(g0, f) implies f[i as int][j as int]
                        >= e + 1 by {
                        if f[i as int][j as int] == e {
                            lemma_completion_places(g0, f, i as int, j as int);
                        }
                    }
                }
            }
            e = e + 1;
        }
        false
    }
}

} // verus!
