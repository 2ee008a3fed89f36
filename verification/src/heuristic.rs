//! The board evaluation of the depth-limited agent: completed triplets, central
//! positions and open windows of three squares.

use vstd::prelude::*;
use crate::board::{Cell, grid_view};

verus! {

/// The number of cells among `a`, `b`, `c` equal to `x`.
pub open spec fn count_of(a: Cell, b: Cell, c: Cell, x: Cell) -> int {
    (if a == x { 1int } else { 0 }) + (if b == x { 1int } else { 0 }) + (if c == x { 1int } else { 0 })
}

/// The value of a window of three squares: nothing once both players are in it or a wall
/// blocks it; ±20 for two pieces of one player and an empty square; ±3 for one piece and
/// two empty squares; positive for `X`, negative for `O`.
pub open spec fn window_value(a: Cell, b: Cell, c: Cell) -> int {
    let xs = count_of(a, b, c, Cell::X);
    let os = count_of(a, b, c, Cell::O);
    let es = count_of(a, b, c, Cell::Empty);
    if xs > 0 && os > 0 {
        0
    } else if xs + os + es < 3 {
        0
    } else if xs == 2 && es == 1 {
        20
    } else if os == 2 && es == 1 {
        -20
    } else if xs == 1 && es == 2 {
        3
    } else if os == 1 && es == 2 {
        -3
    } else {
        0
    }
}

fn count_cell(a: &Cell, b: &Cell, c: &Cell, x: Cell) -> (n: usize)
    ensures
        n == count_of(*a, *b, *c, x),
{
    let mut n: usize = 0;
    if *a == x {
        n += 1;
    }
    if *b == x {
        n += 1;
    }
    if *c == x {
        n += 1;
    }
    n
}

/// The value of the window of squares `a`, `b`, `c`.
pub fn eval_window(a: &Cell, b: &Cell, c: &Cell) -> (v: i32)
    ensures
        v == window_value(*a, *b, *c),
{
    let x_count = count_cell(a, b, c, Cell::X);
    let o_count = count_cell(a, b, c, Cell::O);
    let empty_count = count_cell(a, b, c, Cell::Empty);

    // if both players have pieces in this window, neither can complete a triplet here
    if x_count > 0 && o_count > 0 {
        return 0;
    }
    // if the window contains a wall, it can never become a triplet
    if x_count + o_count + empty_count < 3 {
        return 0;
    }
    // two in a row with an open end is one move from completing a triplet
    if x_count == 2 && empty_count == 1 {
        return 20;
    }
    if o_count == 2 && empty_count == 1 {
        return -20;
    }
    // a single piece with open space has some value, much less than two in a row
    if x_count == 1 && empty_count == 2 {
        return 3;
    }
    if o_count == 1 && empty_count == 2 {
        return -3;
    }
    0
}


/// The absolute value of an integer.
pub open spec fn abs(x: int) -> int {
    if x < 0 {
        -x
    } else {
        x
    }
}

/// What the piece on square (`i`, `j`) of an `n`-wide board adds for its position: `n`
/// less its distance to the centre, positive for `X`, negative for `O`.
pub open spec fn position_bonus(g: Seq<Seq<Cell>>, n: int, i: int, j: int) -> int {
    let center = n / 2;
    let bonus = n - (abs(i - center) + abs(j - center));
    match g[i][j] {
        Cell::X => bonus,
        Cell::O => -bonus,
        _ => 0,
    }
}

/// The position bonuses of the first `j` squares of row `i`.
pub open spec fn row_bonus(g: Seq<Seq<Cell>>, n: int, i: int, j: int) -> int
    decreases j,
{
    if j <= 0 {
        0
    } else {
        row_bonus(g, n, i, j - 1) + position_bonus(g, n, i, j - 1)
    }
}

/// The position bonuses of the first `i` rows.
pub open spec fn rows_bonus(g: Seq<Seq<Cell>>, n: int, i: int) -> int
    decreases i,
{
    if i <= 0 {
        0
    } else {
        rows_bonus(g, n, i - 1) + row_bonus(g, n, i - 1, n)
    }
}

/// The four directions a window runs in: right, down, down-right, down-left.
pub open spec fn direction(d: int) -> (int, int) {
    if d == 0 {
        (0, 1)
    } else if d == 1 {
        (1, 0)
    } else if d == 2 {
        (1, 1)
    } else {
        (1, -1)
    }
}

/// The value of the window that starts on square (`i`, `j`) and runs in direction `d`;
/// nothing when it leaves the `n` by `n` board.
pub open spec fn window_term(g: Seq<Seq<Cell>>, n: int, i: int, j: int, d: int) -> int {
    let (di, dj) = direction(d);
    let i2 = i + di;
    let j2 = j + dj;
    let i3 = i + 2 * di;
    let j3 = j + 2 * dj;
    if i2 < 0 || j2 < 0 || i3 < 0 || j3 < 0 || i2 >= n || j2 >= n || i3 >= n || j3 >= n {
        0
    } else {
        window_value(g[i][j], g[i2][j2], g[i3][j3])
    }
}

/// The windows of the first `d` directions from square (`i`, `j`).
pub open spec fn cell_windows(g: Seq<Seq<Cell>>, n: int, i: int, j: int, d: int) -> int
    decreases d,
{
    if d <= 0 {
        0
    } else {
        cell_windows(g, n, i, j, d - 1) + window_term(g, n, i, j, d - 1)
    }
}

/// The windows from the first `j` squares of row `i`.
pub open spec fn row_windows(g: Seq<Seq<Cell>>, n: int, i: int, j: int) -> int
    decreases j,
{
    if j <= 0 {
        0
    } else {
        row_windows(g, n, i, j - 1) + cell_windows(g, n, i, j - 1, 4)
    }
}

/// The windows from the first `i` rows.
pub open spec fn rows_windows(g: Seq<Seq<Cell>>, n: int, i: int) -> int
    decreases i,
{
    if i <= 0 {
        0
    } else {
        rows_windows(g, n, i - 1) + row_windows(g, n, i - 1, n)
    }
}

/// The estimate of a board whose rows are `g` and whose score is `score`: a hundred
/// times the score, plus the position bonuses, plus the values of all windows.
pub open spec fn heuristic_value(g: Seq<Seq<Cell>>, score: int) -> int {
    let n = g.len() as int;
    score * 100 + rows_bonus(g, n, n) + rows_windows(g, n, n)
}

/// `x` fits in an `i32`.
pub open spec fn fits_i32(x: int) -> bool {
    i32::MIN <= x <= i32::MAX
}

/// Every row of `g` is at least as long as `g` has rows, and that number fits the
/// arithmetic on positions.
pub open spec fn board_shape(g: Seq<Seq<Cell>>) -> bool {
    &&& g.len() < i32::MAX
    &&& forall|i: int| 0 <= i < g.len() ==> #[trigger] g[i].len() >= g.len()
}

/// Every running total of the estimate, in the order the squares and windows are
/// visited, fits in an `i32`.
pub open spec fn heuristic_fits(g: Seq<Seq<Cell>>, score: int) -> bool {
    let n = g.len() as int;
    let base = score * 100;
    &&& fits_i32(base)
    &&& forall|i: int, j: int|
        0 <= i < n && 0 <= j <= n ==> fits_i32(base + rows_bonus(g, n, i) + #[trigger] row_bonus(g, n, i, j))
    &&& forall|i: int, j: int, d: int|
        0 <= i < n && 0 <= j < n && 0 <= d <= 4 ==> fits_i32(
            base + rows_bonus(g, n, n) + rows_windows(g, n, i) + row_windows(g, n, i, j)
                + #[trigger] cell_windows(g, n, i, j, d),
        )
}

fn magnitude(x: i32) -> (r: i32)
    requires
        x > i32::MIN,
    ensures
        r == abs(x as int),
{
    if x < 0 {
        -x
    } else {
        x
    }
}

fn direction_of(d: usize) -> (r: (i32, i32))
    requires
        d < 4,
    ensures
        r.0 == direction(d as int).0,
        r.1 == direction(d as int).1,
{
    if d == 0 {
        (0, 1)
    } else if d == 1 {
        (1, 0)
    } else if d == 2 {
        (1, 1)
    } else {
        (1, -1)
    }
}

fn bonus_at(cells: &Vec<Vec<Cell>>, i: usize, j: usize) -> (b: i32)
    requires
        board_shape(grid_view(cells@)),
        i < cells@.len(),
        j < cells@.len(),
    ensures
        b == position_bonus(grid_view(cells@), cells@.len() as int, i as int, j as int),
        -i32::MAX <= b <= i32::MAX,
{
    let ghost g = grid_view(cells@);
    let n = cells.len();
    assert(g[i as int].len() >= n);
    let center = (n / 2) as i32;
    let dist = magnitude(i as i32 - center) + magnitude(j as i32 - center);
    // central pieces can join more triplets than pieces near the edge
    let position_bonus = n as i32 - dist;
    assert(cells@[i as int]@[j as int] == g[i as int][j as int]);
    match &cells[i][j] {
        Cell::X => position_bonus,
        Cell::O => -position_bonus,
        _ => 0,
    }
}

fn window_at(cells: &Vec<Vec<Cell>>, i: usize, j: usize, d: usize) -> (v: i32)
    requires
        board_shape(grid_view(cells@)),
        i < cells@.len(),
        j < cells@.len(),
        d < 4,
    ensures
        v == window_term(grid_view(cells@), cells@.len() as int, i as int, j as int, d as int),
{
    let ghost g = grid_view(cells@);
    let n = cells.len();
    assert(g[i as int].len() >= n);
    let (di, dj) = direction_of(d);
    // the second and third squares of the window, one and two steps away
    let i2 = i as i32 + di;
    let j2 = j as i32 + dj;
    let i3 = i as i32 + 2 * di;
    let j3 = j as i32 + 2 * dj;
    // windows that leave the board are not counted
    if i2 < 0 || j2 < 0 || i3 < 0 || j3 < 0 {
        return 0;
    }
    if i2 >= n as i32 || j2 >= n as i32 || i3 >= n as i32 || j3 >= n as i32 {
        return 0;
    }
    assert(g[i2 as int].len() >= n);
    assert(g[i3 as int].len() >= n);
    let a = &cells[i][j];
    let b = &cells[i2 as usize][j2 as usize];
    let c = &cells[i3 as usize][j3 as usize];
    eval_window(a, b, c)
}

/// The estimate of a board from its rows `cells` and its score `board_score`, positive
/// when it favours `X`: completed triplets weigh a hundred times, then central pieces,
/// then open windows of three squares.
pub fn heuristic(cells: &Vec<Vec<Cell>>, board_score: i32) -> (v: i32)
    requires
        board_shape(grid_view(cells@)),
        heuristic_fits(grid_view(cells@), board_score as int),
    ensures
        v == heuristic_value(grid_view(cells@), board_score as int),
{
    let ghost g = grid_view(cells@);
    let n = cells.len();
    let ghost ni = n as int;
    let ghost base = board_score * 100;
    assert(fits_i32(base));
    let mut score: i32 = board_score * 100;
    let center = (n / 2) as i32;
    for i in 0..n
        invariant
            n == cells@.len(),
            ni == n,
            g == grid_view(cells@),
            board_shape(g),
            heuristic_fits(g, board_score as int),
            base == board_score * 100,
            center == ni / 2,
            score == base + rows_bonus(g, ni, i as int),
    {
        assert(g[i as int].len() >= n);
        assert(row_bonus(g, ni, i as int, 0) == 0);
        for j in 0..n
            invariant
                n == cells@.len(),
                ni == n,
                g == grid_view(cells@),
                board_shape(g),
                heuristic_fits(g, board_score as int),
                base == board_score * 100,
                center == ni / 2,
                i < n,
                g[i as int].len() >= n,
                score == base + rows_bonus(g, ni, i as int) + row_bonus(g, ni, i as int, j as int),
        {
            let dist = magnitude(i as i32 - center) + magnitude(j as i32 - center);
            // central pieces can join more triplets than pieces near the edge
            let position_bonus = n as i32 - dist;
            assert(fits_i32(base + rows_bonus(g, ni, i as int) + row_bonus(g, ni, i as int, j + 1)));
            assert(cells@[i as int]@[j as int] == g[i as int][j as int]);
            match &cells[i][j] {
                Cell::X => score += position_bonus,
                Cell::O => score -= position_bonus,
                _ => {},
            }
        }
    }
    let ghost mid = base + rows_bonus(g, ni, ni);
    for i in 0..n
        invariant
            n == cells@.len(),
            ni == n,
            g == grid_view(cells@),
            board_shape(g),
            heuristic_fits(g, board_score as int),
            base == board_score * 100,
            mid == base + rows_bonus(g, ni, ni),
            score == mid + rows_windows(g, ni, i as int),
    {
        for j in 0..n
            invariant
                n == cells@.len(),
                ni == n,
                g == grid_view(cells@),
                board_shape(g),
                heuristic_fits(g, board_score as int),
                base == board_score * 100,
                mid == base + rows_bonus(g, ni, ni),
                i < n,
                score == mid + rows_windows(g, ni, i as int) + row_windows(g, ni, i as int, j as int),
        {
            // scan the four directions: right, down, down-right, down-left
            for d in 0..4usize
                invariant
                    n == cells@.len(),
                    ni == n,
                    g == grid_view(cells@),
                    board_shape(g),
                    heuristic_fits(g, board_score as int),
                    base == board_score * 100,
                    mid == base + rows_bonus(g, ni, ni),
                    i < n,
                    j < n,
                    score == mid + rows_windows(g, ni, i as int) + row_windows(g, ni, i as int, j as int)
                        + cell_windows(g, ni, i as int, j as int, d as int),
            {
                let w = window_at(cells, i, j, d);
                assert(fits_i32(mid + rows_windows(g, ni, i as int) + row_windows(g, ni, i as int, j as int)
                    + cell_windows(g, ni, i as int, j as int, d + 1)));
                score += w;
            }
        }
    }
    score
}


fn board_shape_holds(cells: &Vec<Vec<Cell>>) -> (r: bool)
    ensures
        r == board_shape(grid_view(cells@)),
{
    let ghost g = grid_view(cells@);
    let n = cells.len();
    if n >= 0x7fff_ffffusize {
        return false;
    }
    for i in 0..n
        invariant
            n == cells@.len(),
            g == grid_view(cells@),
            forall|k: int| 0 <= k < i ==> #[trigger] g[k].len() >= n,
    {
        assert(g[i as int] == cells@[i as int]@);
        if cells[i].len() < n {
            return false;
        }
    }
    true
}

fn row_bonus_check(cells: &Vec<Vec<Cell>>, i: usize, start: i64) -> (r: Option<i64>)
    requires
        board_shape(grid_view(cells@)),
        i < cells@.len(),
        fits_i32(start as int),
    ensures
        r is Some <==> forall|b: int|
            0 <= b <= cells@.len() ==> fits_i32(
                start + #[trigger] row_bonus(grid_view(cells@), cells@.len() as int, i as int, b),
            ),
        r matches Some(t) ==> t == start + row_bonus(grid_view(cells@), cells@.len() as int, i as int, cells@.len() as int),
{
    let ghost g = grid_view(cells@);
    let n = cells.len();
    let ghost ni = n as int;
    let mut total: i64 = start;
    for j in 0..n
        invariant
            n == cells@.len(),
            ni == n,
            g == grid_view(cells@),
            board_shape(g),
            i < n,
            total == start + row_bonus(g, ni, i as int, j as int),
            forall|b: int| 0 <= b <= j ==> fits_i32(start + #[trigger] row_bonus(g, ni, i as int, b)),
    {
        total = total + bonus_at(cells, i, j) as i64;
        assert(total == start + row_bonus(g, ni, i as int, j + 1));
        if total < i32::MIN as i64 || total > i32::MAX as i64 {
            assert(!fits_i32(start + row_bonus(g, ni, i as int, j + 1)));
            return None;
        }
    }
    Some(total)
}

fn cell_windows_check(cells: &Vec<Vec<Cell>>, i: usize, j: usize, start: i64) -> (r: Option<i64>)
    requires
        board_shape(grid_view(cells@)),
        i < cells@.len(),
        j < cells@.len(),
        fits_i32(start as int),
    ensures
        r is Some <==> forall|c: int|
            0 <= c <= 4 ==> fits_i32(
                start + #[trigger] cell_windows(grid_view(cells@), cells@.len() as int, i as int, j as int, c),
            ),
        r matches Some(t) ==> t == start + cell_windows(grid_view(cells@), cells@.len() as int, i as int, j as int, 4),
{
    let ghost g = grid_view(cells@);
    let ghost ni = cells.len() as int;
    let mut total: i64 = start;
    for d in 0..4usize
        invariant
            ni == cells@.len(),
            g == grid_view(cells@),
            board_shape(g),
            i < ni,
            j < ni,
            total == start + cell_windows(g, ni, i as int, j as int, d as int),
            forall|c: int| 0 <= c <= d ==> fits_i32(start + #[trigger] cell_windows(g, ni, i as int, j as int, c)),
    {
        let w = window_at(cells, i, j, d);
        total = total + w as i64;
        assert(total == start + cell_windows(g, ni, i as int, j as int, d + 1));
        if total < i32::MIN as i64 || total > i32::MAX as i64 {
            assert(!fits_i32(start + cell_windows(g, ni, i as int, j as int, d + 1)));
            return None;
        }
    }
    Some(total)
}

fn row_windows_check(cells: &Vec<Vec<Cell>>, i: usize, start: i64) -> (r: Option<i64>)
    requires
        board_shape(grid_view(cells@)),
        i < cells@.len(),
        fits_i32(start as int),
    ensures
        r is Some <==> forall|b: int, c: int|
            0 <= b < cells@.len() && 0 <= c <= 4 ==> fits_i32(
                start + row_windows(grid_view(cells@), cells@.len() as int, i as int, b)
                    + #[trigger] cell_windows(grid_view(cells@), cells@.len() as int, i as int, b, c),
            ),
        r matches Some(t) ==> t == start + row_windows(grid_view(cells@), cells@.len() as int, i as int, cells@.len() as int)
            && fits_i32(t as int),
{
    let ghost g = grid_view(cells@);
    let n = cells.len();
    let ghost ni = n as int;
    let mut total: i64 = start;
    for j in 0..n
        invariant
            n == cells@.len(),
            ni == n,
            g == grid_view(cells@),
            board_shape(g),
            i < n,
            total == start + row_windows(g, ni, i as int, j as int),
            fits_i32(total as int),
            forall|b: int, c: int|
                0 <= b < j && 0 <= c <= 4 ==> fits_i32(
                    start + row_windows(g, ni, i as int, b) + #[trigger] cell_windows(g, ni, i as int, b, c),
                ),
    {
        match cell_windows_check(cells, i, j, total) {
            Some(t) => {
                total = t;
                assert(total == start + row_windows(g, ni, i as int, j + 1));
                assert(fits_i32(start + row_windows(g, ni, i as int, j as int) + cell_windows(g, ni, i as int, j as int, 4)));
            },
            None => {
                return None;
            },
        }
    }
    Some(total)
}

/// Whether [`heuristic`] can estimate the board `cells` with score `board_score`: the board
/// has the expected shape and no running total leaves the `i32` range.
pub fn heuristic_defined(cells: &Vec<Vec<Cell>>, board_score: i32) -> (r: bool)
    ensures
        r == (board_shape(grid_view(cells@)) && heuristic_fits(grid_view(cells@), board_score as int)),
{
    let ghost g = grid_view(cells@);
    if !board_shape_holds(cells) {
        return false;
    }
    let n = cells.len();
    let ghost ni = n as int;
    let wide_score = board_score as i64;
    let base = wide_score * 100;
    if base < i32::MIN as i64 || base > i32::MAX as i64 {
        return false;
    }
    let mut total: i64 = base;
    for i in 0..n
        invariant
            n == cells@.len(),
            ni == n,
            g == grid_view(cells@),
            board_shape(g),
            base == board_score * 100,
            fits_i32(base as int),
            total == base + rows_bonus(g, ni, i as int),
            fits_i32(total as int),
            forall|a: int, b: int|
                0 <= a < i && 0 <= b <= ni ==> fits_i32(base + rows_bonus(g, ni, a) + #[trigger] row_bonus(g, ni, a, b)),
    {
        let ghost start = total;
        match row_bonus_check(cells, i, total) {
            Some(t) => {
                total = t;
                assert(total == base + rows_bonus(g, ni, i + 1));
                assert(fits_i32(start + row_bonus(g, ni, i as int, ni)));
                assert forall|a: int, b: int|
                    0 <= a < i + 1 && 0 <= b <= ni implies fits_i32(base + rows_bonus(g, ni, a) + #[trigger] row_bonus(g, ni, a, b)) by {
                    if a == i {
                        assert(fits_i32(start + row_bonus(g, ni, i as int, b)));
                    }
                }
            },
            None => {
                proof {
                    let b = choose|b: int| 0 <= b <= ni && !fits_i32(start + #[trigger] row_bonus(g, ni, i as int, b));
                    assert(!fits_i32(base + rows_bonus(g, ni, i as int) + row_bonus(g, ni, i as int, b)));
                }
                return false;
            },
        }
    }
    let ghost mid = base + rows_bonus(g, ni, ni);
    assert(heuristic_fits(g, board_score as int) <== (forall|a: int, b: int, c: int|
        0 <= a < ni && 0 <= b < ni && 0 <= c <= 4 ==> fits_i32(
            mid + rows_windows(g, ni, a) + row_windows(g, ni, a, b) + #[trigger] cell_windows(g, ni, a, b, c),
        )));
    for i in 0..n
        invariant
            n == cells@.len(),
            ni == n,
            g == grid_view(cells@),
            board_shape(g),
            base == board_score * 100,
            heuristic_fits(g, board_score as int) <== (forall|a: int, b: int, c: int|
                0 <= a < ni && 0 <= b < ni && 0 <= c <= 4 ==> fits_i32(
                    mid + rows_windows(g, ni, a) + row_windows(g, ni, a, b) + #[trigger] cell_windows(g, ni, a, b, c),
                )),
            mid == base + rows_bonus(g, ni, ni),
            total == mid + rows_windows(g, ni, i as int),
            fits_i32(total as int),
            forall|a: int, b: int, c: int|
                0 <= a < i && 0 <= b < ni && 0 <= c <= 4 ==> fits_i32(
                    mid + rows_windows(g, ni, a) + row_windows(g, ni, a, b) + #[trigger] cell_windows(g, ni, a, b, c),
                ),
    {
        match row_windows_check(cells, i, total) {
            Some(t) => {
                let ghost start = total;
                total = t;
                assert(total == mid + rows_windows(g, ni, i + 1));
                assert forall|a: int, b: int, c: int|
                    0 <= a < i + 1 && 0 <= b < ni && 0 <= c <= 4 implies fits_i32(
                        mid + rows_windows(g, ni, a) + row_windows(g, ni, a, b) + #[trigger] cell_windows(g, ni, a, b, c),
                    ) by {
                    if a == i {
                        assert(fits_i32(start + row_windows(g, ni, i as int, b) + cell_windows(g, ni, i as int, b, c)));
                    }
                }
            },
            None => {
                let ghost start = mid + rows_windows(g, ni, i as int);
                proof {
                    let (b, c) = choose|b: int, c: int|
                        0 <= b < ni && 0 <= c <= 4 && !fits_i32(
                            start + row_windows(g, ni, i as int, b) + #[trigger] cell_windows(g, ni, i as int, b, c),
                        );
                    assert(!fits_i32(mid + rows_windows(g, ni, i as int) + row_windows(g, ni, i as int, b) + cell_windows(g, ni, i as int, b, c)));
                }
                return false;
            },
        }
    }
    true
}

/// The estimate of a board, where [`heuristic`] can compute it.
pub fn checked_heuristic(cells: &Vec<Vec<Cell>>, board_score: i32) -> (r: Option<i32>)
    ensures
        r is Some <==> (board_shape(grid_view(cells@)) && heuristic_fits(grid_view(cells@), board_score as int)),
        r matches Some(v) ==> v == heuristic_value(grid_view(cells@), board_score as int),
{
    if heuristic_defined(cells, board_score) {
        Some(heuristic(cells, board_score))
    } else {
        None
    }
}

/// The same square with the two players' pieces exchanged.
pub open spec fn swap_cell(c: Cell) -> Cell {
    match c {
        Cell::X => Cell::O,
        Cell::O => Cell::X,
        other => other,
    }
}

/// The same board with the two players' pieces exchanged.
pub open spec fn swap_grid(g: Seq<Seq<Cell>>) -> Seq<Seq<Cell>> {
    g.map_values(|r: Seq<Cell>| r.map_values(|c: Cell| swap_cell(c)))
}

/// The value of a window depends only on how many `X`, `O` and empty squares it holds,
/// not on their order; in particular two pieces of one player and an empty square are
/// worth 20 for `X` and -20 for `O` wherever the empty square is, and one piece with two
/// empty squares 3 or -3; a window holding both players or a wall is worth nothing.
pub proof fn lemma_window_order_irrelevant(a: Cell, b: Cell, c: Cell)
    ensures
        window_value(a, b, c) == window_value(b, a, c),
        window_value(a, b, c) == window_value(a, c, b),
        window_value(a, b, c) == window_value(c, b, a),
        count_of(a, b, c, Cell::X) == 2 && count_of(a, b, c, Cell::Empty) == 1 ==> window_value(a, b, c) == 20,
        count_of(a, b, c, Cell::O) == 2 && count_of(a, b, c, Cell::Empty) == 1 ==> window_value(a, b, c) == -20,
        count_of(a, b, c, Cell::X) == 1 && count_of(a, b, c, Cell::Empty) == 2 ==> window_value(a, b, c) == 3,
        count_of(a, b, c, Cell::O) == 1 && count_of(a, b, c, Cell::Empty) == 2 ==> window_value(a, b, c) == -3,
        (count_of(a, b, c, Cell::X) > 0 && count_of(a, b, c, Cell::O) > 0) || count_of(a, b, c, Cell::Wall) > 0
            ==> window_value(a, b, c) == 0,
        count_of(a, b, c, Cell::X) == 3 || count_of(a, b, c, Cell::O) == 3 || count_of(a, b, c, Cell::Empty) == 3
            ==> window_value(a, b, c) == 0,
{
}

/// What a piece adds for its position: an `X` on the centre square of an `n`-wide board
/// adds `n`; moving an `X` changes what it adds by exactly the change in its distance
/// (rows plus columns) to the centre, the other way round; an `O` adds the opposite of an
/// `X` on the same square; empty squares and walls add nothing.
pub proof fn lemma_position_bonus_by_distance(g: Seq<Seq<Cell>>, h: Seq<Seq<Cell>>, n: int, i: int, j: int, k: int, l: int)
    ensures
        g[n / 2][n / 2] == Cell::X ==> position_bonus(g, n, n / 2, n / 2) == n,
        g[i][j] == Cell::X && h[k][l] == Cell::X ==> position_bonus(g, n, i, j) - position_bonus(h, n, k, l) == (
        abs(k - n / 2) + abs(l - n / 2)) - (abs(i - n / 2) + abs(j - n / 2)),
        g[i][j] == Cell::X && h[k][l] == Cell::O && i == k && j == l ==> position_bonus(h, n, k, l) == -position_bonus(
            g,
            n,
            i,
            j,
        ),
        g[i][j] == Cell::Empty || g[i][j] == Cell::Wall ==> position_bonus(g, n, i, j) == 0,
{
}

/// Exchanging the players' pieces negates the value of a window.
pub proof fn lemma_window_antisymmetric(a: Cell, b: Cell, c: Cell)
    ensures
        window_value(swap_cell(a), swap_cell(b), swap_cell(c)) == -window_value(a, b, c),
{
}

proof fn lemma_row_bonus_swap(g: Seq<Seq<Cell>>, n: int, i: int, j: int)
    requires
        board_shape(g),
        n == g.len(),
        0 <= i < n,
        j <= n,
    ensures
        row_bonus(swap_grid(g), n, i, j) == -row_bonus(g, n, i, j),
    decreases j,
{
    if j > 0 {
        lemma_row_bonus_swap(g, n, i, j - 1);
        assert(g[i].len() >= n);
        assert(swap_grid(g)[i][j - 1] == swap_cell(g[i][j - 1]));
    }
}

proof fn lemma_rows_bonus_swap(g: Seq<Seq<Cell>>, n: int, i: int)
    requires
        board_shape(g),
        n == g.len(),
        i <= n,
    ensures
        rows_bonus(swap_grid(g), n, i) == -rows_bonus(g, n, i),
    decreases i,
{
    if i > 0 {
        lemma_rows_bonus_swap(g, n, i - 1);
        lemma_row_bonus_swap(g, n, i - 1, n);
    }
}

proof fn lemma_cell_windows_swap(g: Seq<Seq<Cell>>, n: int, i: int, j: int, d: int)
    requires
        board_shape(g),
        n == g.len(),
        0 <= i < n,
        0 <= j < n,
        d <= 4,
    ensures
        cell_windows(swap_grid(g), n, i, j, d) == -cell_windows(g, n, i, j, d),
    decreases d,
{
    if d > 0 {
        lemma_cell_windows_swap(g, n, i, j, d - 1);
        let (di, dj) = direction(d - 1);
        let i2 = i + di;
        let j2 = j + dj;
        let i3 = i + 2 * di;
        let j3 = j + 2 * dj;
        if !(i2 < 0 || j2 < 0 || i3 < 0 || j3 < 0 || i2 >= n || j2 >= n || i3 >= n || j3 >= n) {
            assert(g[i].len() >= n && g[i2].len() >= n && g[i3].len() >= n);
            assert(swap_grid(g)[i][j] == swap_cell(g[i][j]));
            assert(swap_grid(g)[i2][j2] == swap_cell(g[i2][j2]));
            assert(swap_grid(g)[i3][j3] == swap_cell(g[i3][j3]));
            lemma_window_antisymmetric(g[i][j], g[i2][j2], g[i3][j3]);
        }
    }
}

proof fn lemma_row_windows_swap(g: Seq<Seq<Cell>>, n: int, i: int, j: int)
    requires
        board_shape(g),
        n == g.len(),
        0 <= i < n,
        j <= n,
    ensures
        row_windows(swap_grid(g), n, i, j) == -row_windows(g, n, i, j),
    decreases j,
{
    if j > 0 {
        lemma_row_windows_swap(g, n, i, j - 1);
        lemma_cell_windows_swap(g, n, i, j - 1, 4);
    }
}

proof fn lemma_rows_windows_swap(g: Seq<Seq<Cell>>, n: int, i: int)
    requires
        board_shape(g),
        n == g.len(),
        i <= n,
    ensures
        rows_windows(swap_grid(g), n, i) == -rows_windows(g, n, i),
    decreases i,
{
    if i > 0 {
        lemma_rows_windows_swap(g, n, i - 1);
        lemma_row_windows_swap(g, n, i - 1, n);
    }
}

/// Exchanging the players' pieces, and negating the board's score, negates the estimate:
/// what favours `X` by some amount favours `O` by the same amount once the pieces swap.
pub proof fn lemma_heuristic_antisymmetric(g: Seq<Seq<Cell>>, score: int)
    requires
        board_shape(g),
    ensures
        board_shape(swap_grid(g)),
        heuristic_value(swap_grid(g), -score) == -heuristic_value(g, score),
{
    let n = g.len() as int;
    assert(swap_grid(g).len() == n);
    assert forall|i: int| 0 <= i < n implies #[trigger] swap_grid(g)[i].len() >= n by {
        assert(g[i].len() >= n);
    }
    lemma_rows_bonus_swap(g, n, n);
    lemma_rows_windows_swap(g, n, n);
}

} // verus!
