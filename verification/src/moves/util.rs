use super::{direction_of, steps_lead_in_their_direction, Direction, DirectionError};
use crate::board::model::BoardView;
use crate::board::{Board, Coord};
use crate::piece::{Color, Piece};
use vstd::prelude::*;

verus! {

/// The cell with these indices, where they fit a coordinate.
pub open spec fn coord_of(cell: (int, int)) -> Coord {
    Coord { row: cell.0 as i32, col: cell.1 as i32 }
}

/// The `k`-th cell from `from` along `step` is on the grid and empty.
pub open spec fn free_at(b: BoardView, from: Coord, step: Coord, k: int) -> bool {
    let cell = from.stepped(step, k);
    b.inside(cell.0, cell.1) && b.cell(cell.0, cell.1) is None
}

/// The `k`-th cell from `from` along `step` is on the grid, and empty or held
/// by the other colour.
pub open spec fn landing_at(b: BoardView, color: Color, from: Coord, step: Coord, k: int) -> bool {
    let cell = from.stepped(step, k);
    b.inside(cell.0, cell.1) && (b.cell(cell.0, cell.1) matches Some(p) ==> p.color != color)
}

/// A piece of `color` sliding from `from` along `step` can stop on the `k`-th
/// cell: every cell before it is free, and the cell itself is empty or holds
/// a piece to capture.
pub open spec fn open_at(b: BoardView, color: Color, from: Coord, step: Coord, k: int) -> bool {
    &&& forall|j: int| 1 <= j < k ==> #[trigger] free_at(b, from, step, j)
    &&& landing_at(b, color, from, step, k)
}

/// A piece of `color` sliding from `from` along `step` reaches `to` within
/// `range` steps.
pub open spec fn reachable(
    b: BoardView,
    color: Color,
    from: Coord,
    step: Coord,
    to: Coord,
    range: int,
) -> bool {
    exists|k: int|
        1 <= k <= range && from.stepped(step, k) == (to.row as int, to.col as int) && #[trigger] open_at(
            b,
            color,
            from,
            step,
            k,
        )
}

/// How far a piece of `color` can slide from `from` along `step`, within
/// `range` steps.
pub open spec fn ray_len(b: BoardView, color: Color, from: Coord, step: Coord, range: int) -> int
    decreases range,
{
    if range <= 0 {
        0
    } else if open_at(b, color, from, step, range) {
        range
    } else {
        ray_len(b, color, from, step, range - 1)
    }
}

/// The cells a piece of `color` can slide to from `from` along `step`, nearest
/// first.
pub open spec fn ray(b: BoardView, color: Color, from: Coord, step: Coord, range: int) -> Seq<
    Coord,
> {
    Seq::new(
        ray_len(b, color, from, step, range) as nat,
        |j: int| coord_of(from.stepped(step, j + 1)),
    )
}

/// The range of a sliding rule in a direction: its own limit, or the extent
/// of the board where it has none.
pub open spec fn range_of(max_range: Option<u32>, b: BoardView, d: Direction) -> int {
    match max_range {
        Some(n) => n as int,
        None => b.max_cells(d),
    }
}

/// The piece on `from` can slide to `to`: the two cells lie on a line of the
/// wanted kind, and the piece reaches `to` within the range of the rule.
pub open spec fn slide_valid(
    b: BoardView,
    max_range: Option<u32>,
    orthogonal: bool,
    from: Coord,
    to: Coord,
) -> bool {
    &&& b.at(from) matches Some(p)
    &&& direction_of(from, to) matches Ok(d)
    &&& d.is_orthogonal() == orthogonal
    &&& reachable(b, p.color, p.coord, d.step(), to, range_of(max_range, b, d))
}

/// The cells the piece on `from` can slide to in one direction.
pub open spec fn slide_ray(b: BoardView, max_range: Option<u32>, from: Coord, d: Direction) -> Seq<
    Coord,
> {
    match b.at(from) {
        Some(p) => ray(b, p.color, from, d.step(), range_of(max_range, b, d)),
        None => Seq::empty(),
    }
}

/// A slide ends on a cell of the grid.
pub(crate) proof fn lemma_slide_lands_inside(
    b: BoardView,
    max_range: Option<u32>,
    orthogonal: bool,
    from: Coord,
    to: Coord,
)
    requires
        slide_valid(b, max_range, orthogonal, from, to),
    ensures
        b.in_bounds(to),
{
    let p = b.at(from)->0;
    let d = direction_of(from, to)->Ok_0;
    let range = range_of(max_range, b, d);
    let k = choose|k: int|
        1 <= k <= range && p.coord.stepped(d.step(), k) == (to.row as int, to.col as int)
            && #[trigger] open_at(b, p.color, p.coord, d.step(), k);
    assert(landing_at(b, p.color, p.coord, d.step(), k));
}

/// A cell is on the ray of a direction exactly when it lies in that direction
/// and the piece can slide to it.
pub proof fn slide_ray_holds_valid(
    b: BoardView,
    max_range: Option<u32>,
    from: Coord,
    d: Direction,
    to: Coord,
)
    requires
        b.wf(),
    ensures
        slide_ray(b, max_range, from, d).contains(to) <==> direction_of(from, to) == Ok::<
            Direction,
            DirectionError,
        >(d) && slide_valid(b, max_range, d.is_orthogonal(), from, to),
{
    if b.at(from) is Some {
        let p = b.at(from)->0;
        let range = range_of(max_range, b, d);
        ray_holds_reachable(b, p.color, from, d.step(), range, to);
        if reachable(b, p.color, from, d.step(), to, range) {
            let k = choose|k: int|
                1 <= k <= range && from.stepped(d.step(), k) == (to.row as int, to.col as int)
                    && #[trigger] open_at(b, p.color, from, d.step(), k);
            steps_lead_in_their_direction(from, to, d, k);
        }
    }
}

/// Is `c` one of `cells`?
pub(crate) fn has_coord(cells: &Vec<Coord>, c: Coord) -> (r: bool)
    ensures
        r == cells@.contains(c),
{
    let mut i: usize = 0;
    while i < cells.len()
        invariant
            i <= cells.len(),
            forall|j: int| 0 <= j < i ==> cells@[j] != c,
        decreases cells.len() - i,
    {
        if cells[i].row == c.row && cells[i].col == c.col {
            return true;
        }
        i += 1;
    }
    false
}

/// Adds `c` to `cells` unless it is there already.
pub(crate) fn push_unique(cells: &mut Vec<Coord>, c: Coord)
    requires
        old(cells)@.no_duplicates(),
    ensures
        final(cells)@.no_duplicates(),
        forall|x: Coord| #[trigger] final(cells)@.contains(x) <==> old(cells)@.contains(x) || x == c,
{
    if !has_coord(cells, c) {
        cells.push(c);
        proof {
            let before = old(cells)@;
            let now = cells@;
            assert(now[before.len() as int] == c);
            assert forall|x: Coord| #[trigger] now.contains(x) <==> before.contains(x) || x
                == c by {
                if before.contains(x) {
                    let n = choose|n: int| 0 <= n < before.len() && before[n] == x;
                    assert(now[n] == x);
                }
                if now.contains(x) {
                    let n = choose|n: int| 0 <= n < now.len() && now[n] == x;
                    if n < before.len() {
                        assert(before[n] == x);
                    }
                }
            }
        }
    }
}

/// Adds to `cells` each of `more` that is not there already.
pub(crate) fn extend_unique(cells: &mut Vec<Coord>, more: &Vec<Coord>)
    requires
        old(cells)@.no_duplicates(),
    ensures
        final(cells)@.no_duplicates(),
        forall|x: Coord| #[trigger]
            final(cells)@.contains(x) <==> old(cells)@.contains(x) || more@.contains(x),
{
    let mut k: usize = 0;
    while k < more.len()
        invariant
            k <= more.len(),
            cells@.no_duplicates(),
            forall|x: Coord| #[trigger]
                cells@.contains(x) <==> old(cells)@.contains(x) || more@.subrange(
                    0,
                    k as int,
                ).contains(x),
        decreases more.len() - k,
    {
        let ghost held = cells@;
        push_unique(cells, more[k]);
        proof {
            let shorter = more@.subrange(0, k as int);
            let longer = more@.subrange(0, k + 1);
            assert(longer =~= shorter.push(more@[k as int]));
            assert forall|x: Coord| #[trigger]
                cells@.contains(x) <==> old(cells)@.contains(x) || longer.contains(x) by {
                assert(held.contains(x) <==> old(cells)@.contains(x) || shorter.contains(x));
                if shorter.contains(x) {
                    let n = choose|n: int| 0 <= n < shorter.len() && shorter[n] == x;
                    assert(longer[n] == x);
                }
                if x == more@[k as int] {
                    assert(longer[k as int] == x);
                }
                if longer.contains(x) {
                    let n = choose|n: int| 0 <= n < longer.len() && longer[n] == x;
                    if n < k {
                        assert(shorter[n] == x);
                    }
                }
            }
        }
        k += 1;
    }
    assert(more@.subrange(0, more@.len() as int) =~= more@);
}

/// A value is in a concatenation exactly when it is in one of the two parts.
pub(crate) proof fn lemma_concat_contains(a: Seq<Coord>, b: Seq<Coord>, x: Coord)
    ensures
        (a + b).contains(x) <==> a.contains(x) || b.contains(x),
{
    if a.contains(x) {
        let i = choose|i: int| 0 <= i < a.len() && a[i] == x;
        assert((a + b)[i] == x);
    }
    if b.contains(x) {
        let i = choose|i: int| 0 <= i < b.len() && b[i] == x;
        assert((a + b)[a.len() + i] == x);
    }
    if (a + b).contains(x) {
        let i = choose|i: int| 0 <= i < (a + b).len() && (a + b)[i] == x;
        if i < a.len() {
            assert(a[i] == x);
        } else {
            assert(b[i - a.len()] == x);
        }
    }
}

/// One more step adds the step vector once more.
pub(crate) proof fn lemma_stepped_next(from: Coord, step: Coord, k: int)
    ensures
        from.stepped(step, k + 1) == (
            from.stepped(step, k).0 + step.row,
            from.stepped(step, k).1 + step.col,
        ),
        from.stepped(step, 0) == (from.row as int, from.col as int),
{
    assert((k + 1) * step.row == k * step.row + step.row) by (nonlinear_arith);
    assert((k + 1) * step.col == k * step.col + step.col) by (nonlinear_arith);
}

/// A cell that can be stopped on lies no farther than the ray goes.
proof fn lemma_ray_len_bounds(
    b: BoardView,
    color: Color,
    from: Coord,
    step: Coord,
    range: int,
    k: int,
)
    requires
        1 <= k <= range,
        open_at(b, color, from, step, k),
    ensures
        k <= ray_len(b, color, from, step, range) <= range,
    decreases range,
{
    if range > k && !open_at(b, color, from, step, range) {
        lemma_ray_len_bounds(b, color, from, step, range - 1, k);
    }
}

/// The ray ends on a cell that can be stopped on, or has no cell at all.
proof fn lemma_ray_len_open(b: BoardView, color: Color, from: Coord, step: Coord, range: int)
    ensures
        0 <= ray_len(b, color, from, step, range),
        range >= 0 ==> ray_len(b, color, from, step, range) <= range,
        ray_len(b, color, from, step, range) > 0 ==> open_at(
            b,
            color,
            from,
            step,
            ray_len(b, color, from, step, range),
        ),
    decreases range,
{
    if range > 0 && !open_at(b, color, from, step, range) {
        lemma_ray_len_open(b, color, from, step, range - 1);
    }
}

/// Where no cell beyond the `n`-th can be stopped on, the ray has `n` cells.
proof fn lemma_ray_len_is(
    b: BoardView,
    color: Color,
    from: Coord,
    step: Coord,
    range: int,
    n: int,
)
    requires
        0 <= n <= range,
        n > 0 ==> open_at(b, color, from, step, n),
        forall|k: int| n < k <= range ==> !#[trigger] open_at(b, color, from, step, k),
    ensures
        ray_len(b, color, from, step, range) == n,
    decreases range,
{
    if range > n {
        lemma_ray_len_is(b, color, from, step, range - 1, n);
    }
}

/// Every cell up to one that can be stopped on can be stopped on too.
proof fn lemma_open_prefix(
    b: BoardView,
    color: Color,
    from: Coord,
    step: Coord,
    k: int,
    j: int,
)
    requires
        1 <= j <= k,
        open_at(b, color, from, step, k),
    ensures
        open_at(b, color, from, step, j),
{
    if j < k {
        assert(free_at(b, from, step, j));
    }
}

/// A piece of the slider's own colour on the `m`-th cell of its way blocks the
/// way: the slider can stop neither on that cell nor on any cell beyond it,
/// and it can stop on every cell before it up to which the way is free.
pub proof fn own_piece_blocks_the_way(
    b: BoardView,
    color: Color,
    from: Coord,
    step: Coord,
    m: int,
    k: int,
)
    requires
        1 <= m,
        1 <= k,
        b.cell(from.stepped(step, m).0, from.stepped(step, m).1) matches Some(p) && p.color
            == color,
    ensures
        k >= m ==> !open_at(b, color, from, step, k),
        k < m && (forall|j: int| 1 <= j <= k ==> #[trigger] free_at(b, from, step, j)) ==> open_at(
            b,
            color,
            from,
            step,
            k,
        ),
{
    if k > m {
        assert(!free_at(b, from, step, m));
    }
    if k < m && (forall|j: int| 1 <= j <= k ==> #[trigger] free_at(b, from, step, j)) {
        assert(free_at(b, from, step, k));
    }
}

/// The ray holds exactly the cells that can be reached.
pub proof fn ray_holds_reachable(
    b: BoardView,
    color: Color,
    from: Coord,
    step: Coord,
    range: int,
    to: Coord,
)
    ensures
        ray(b, color, from, step, range).contains(to) <==> reachable(
            b,
            color,
            from,
            step,
            to,
            range,
        ),
{
    let r = ray(b, color, from, step, range);
    let n = ray_len(b, color, from, step, range);
    lemma_ray_len_open(b, color, from, step, range);
    if r.contains(to) {
        let j = choose|j: int| 0 <= j < r.len() && r[j] == to;
        lemma_open_prefix(b, color, from, step, n, j + 1);
        assert(open_at(b, color, from, step, j + 1));
    }
    if reachable(b, color, from, step, to, range) {
        let k = choose|k: int|
            1 <= k <= range && from.stepped(step, k) == (to.row as int, to.col as int)
                && #[trigger] open_at(b, color, from, step, k);
        lemma_ray_len_bounds(b, color, from, step, range, k);
        assert(r[k - 1] == to);
    }
}

/// Can the piece slide from its cell along `step` to `to`, in at most
/// `max_range` steps? A piece of its own colour blocks the way, one of the
/// other colour can be captured but not passed.
pub fn can_traverse(board: &Board, from_piece: &Piece, to: &Coord, step: &Coord, max_range: u32) -> (r:
    bool)
    requires
        board.wf(),
    ensures
        r == reachable(board@, from_piece.color, from_piece.coord, *step, *to, max_range as int),
{
    let ghost b = board@;
    let ghost color = from_piece.color;
    let ghost from = from_piece.coord;
    let mut cur_row: i64 = from_piece.coord.row as i64;
    let mut cur_col: i64 = from_piece.coord.col as i64;
    let mut i: u32 = 0;
    proof {
        lemma_stepped_next(from, *step, 0);
    }
    while i < max_range
        invariant
            board.wf(),
            b == board@,
            color == from_piece.color,
            from == from_piece.coord,
            i <= max_range,
            i32::MIN <= cur_row <= i32::MAX,
            i32::MIN <= cur_col <= i32::MAX,
            from.stepped(*step, i as int) == (cur_row as int, cur_col as int),
            forall|j: int| 1 <= j <= i ==> #[trigger] free_at(b, from, *step, j),
            forall|j: int|
                1 <= j <= i ==> #[trigger] from.stepped(*step, j) != (to.row as int, to.col as int),
        decreases max_range - i,
    {
        let next_row: i64 = cur_row + step.row as i64;
        let next_col: i64 = cur_col + step.col as i64;
        proof {
            lemma_stepped_next(from, *step, i as int);
        }
        let ghost k = i + 1;
        if next_row < i32::MIN as i64 || next_row > i32::MAX as i64 || next_col < i32::MIN as i64
            || next_col > i32::MAX as i64 {
            proof {
                assert(!free_at(b, from, *step, k));
                assert(!landing_at(b, color, from, *step, k));
                lemma_not_reachable(b, color, from, *step, *to, max_range as int, k);
            }
            return false;
        }
        let next_coord = Coord { row: next_row as i32, col: next_col as i32 };
        let next_piece = match board.get_piece(&next_coord) {
            Ok(piece) => piece,
            Err(_) => {
                proof {
                    assert(!free_at(b, from, *step, k));
                    assert(!landing_at(b, color, from, *step, k));
                    lemma_not_reachable(b, color, from, *step, *to, max_range as int, k);
                }
                return false;
            },
        };
        if next_coord.row == to.row && next_coord.col == to.col {
            let r = match next_piece {
                Some(piece) => piece.color != from_piece.color,
                None => true,
            };
            proof {
                if r {
                    assert(open_at(b, color, from, *step, k));
                } else {
                    assert(!free_at(b, from, *step, k));
                    assert(!landing_at(b, color, from, *step, k));
                    lemma_not_reachable(b, color, from, *step, *to, max_range as int, k);
                }
            }
            return r;
        }
        if next_piece.is_some() {
            proof {
                assert(!free_at(b, from, *step, k));
                lemma_not_reachable(b, color, from, *step, *to, max_range as int, k);
            }
            return false;
        }
        cur_row = next_row;
        cur_col = next_col;
        i += 1;
    }
    false
}

/// Nothing is reached where the `k`-th cell stops the slide, and no cell up
/// to it is the one asked for or lets the piece stop there.
proof fn lemma_not_reachable(
    b: BoardView,
    color: Color,
    from: Coord,
    step: Coord,
    to: Coord,
    range: int,
    k: int,
)
    requires
        1 <= k,
        !free_at(b, from, step, k),
        forall|j: int|
            1 <= j < k ==> #[trigger] from.stepped(step, j) != (to.row as int, to.col as int),
        from.stepped(step, k) != (to.row as int, to.col as int) || !landing_at(
            b,
            color,
            from,
            step,
            k,
        ),
    ensures
        !reachable(b, color, from, step, to, range),
{
    assert forall|m: int|
        1 <= m <= range && from.stepped(step, m) == (to.row as int, to.col as int) implies !#[trigger] open_at(
        b,
        color,
        from,
        step,
        m,
    ) by {
        if m > k {
            assert(!free_at(b, from, step, k));
        }
    }
}

/// The cells the piece can slide to from `from` in a direction, nearest
/// first, in at most `max_range` steps.
pub fn legal_coords_along_direction(
    from: &Coord,
    direction: &Direction,
    board: &Board,
    from_piece: &Piece,
    max_range: u32,
) -> (cells: Vec<Coord>)
    requires
        board.wf(),
    ensures
        cells@ == ray(board@, from_piece.color, *from, direction.step(), max_range as int),
{
    let ghost b = board@;
    let ghost color = from_piece.color;
    let step = direction.get_step();
    let mut cur_row: i64 = from.row as i64;
    let mut cur_col: i64 = from.col as i64;
    let mut legal_coords: Vec<Coord> = Vec::new();
    let mut i: u32 = 0;
    let mut blocked = false;
    proof {
        lemma_stepped_next(*from, step, 0);
    }
    while i < max_range && !blocked
        invariant
            board.wf(),
            b == board@,
            color == from_piece.color,
            step == direction.step(),
            i <= max_range,
            i32::MIN <= cur_row <= i32::MAX,
            i32::MIN <= cur_col <= i32::MAX,
            !blocked ==> from.stepped(step, i as int) == (cur_row as int, cur_col as int),
            !blocked ==> forall|j: int| 1 <= j <= i ==> #[trigger] free_at(b, *from, step, j),
            !blocked ==> legal_coords@.len() == i,
            forall|j: int|
                0 <= j < legal_coords@.len() ==> legal_coords@[j] == coord_of(
                    from.stepped(step, j + 1),
                ),
            blocked ==> legal_coords@ == ray(b, color, *from, step, max_range as int),
        decreases (max_range - i) + (if blocked { 0int } else { 1int }),
    {
        let next_row: i64 = cur_row + step.row as i64;
        let next_col: i64 = cur_col + step.col as i64;
        proof {
            lemma_stepped_next(*from, step, i as int);
            if i > 0 {
                assert(free_at(b, *from, step, i as int));
                assert(open_at(b, color, *from, step, i as int));
            }
        }
        let ghost k = i + 1;
        if next_row < i32::MIN as i64 || next_row > i32::MAX as i64 || next_col < i32::MIN as i64
            || next_col > i32::MAX as i64 {
            proof {
                assert(!free_at(b, *from, step, k));
                assert(!landing_at(b, color, *from, step, k));
                lemma_ray_stops(b, color, *from, step, max_range as int, i as int, k);
                assert(legal_coords@ =~= ray(b, color, *from, step, max_range as int));
            }
            blocked = true;
            continue ;
        }
        let next_coord = Coord { row: next_row as i32, col: next_col as i32 };
        match board.get_piece(&next_coord) {
            Err(_) => {
                proof {
                    assert(!free_at(b, *from, step, k));
                    assert(!landing_at(b, color, *from, step, k));
                    lemma_ray_stops(b, color, *from, step, max_range as int, i as int, k);
                    assert(legal_coords@ =~= ray(b, color, *from, step, max_range as int));
                }
                blocked = true;
            },
            Ok(None) => {
                legal_coords.push(next_coord);
                proof {
                    assert(free_at(b, *from, step, k));
                }
                cur_row = next_row;
                cur_col = next_col;
                i += 1;
            },
            Ok(Some(piece)) => {
                if piece.color != from_piece.color {
                    legal_coords.push(next_coord);
                    proof {
                        assert(!free_at(b, *from, step, k));
                        assert(landing_at(b, color, *from, step, k));
                        assert(open_at(b, color, *from, step, k));
                        lemma_ray_stops(b, color, *from, step, max_range as int, k, k);
                        assert(legal_coords@ =~= ray(b, color, *from, step, max_range as int));
                    }
                } else {
                    proof {
                        assert(!free_at(b, *from, step, k));
                        assert(!landing_at(b, color, *from, step, k));
                        lemma_ray_stops(b, color, *from, step, max_range as int, i as int, k);
                        assert(legal_coords@ =~= ray(b, color, *from, step, max_range as int));
                    }
                }
                blocked = true;
            },
        }
    }
    proof {
        if !blocked {
            if i > 0 {
                assert(free_at(b, *from, step, i as int));
                assert(open_at(b, color, *from, step, i as int));
            }
            lemma_ray_len_is(b, color, *from, step, max_range as int, i as int);
            assert(legal_coords@ =~= ray(b, color, *from, step, max_range as int));
        }
    }
    legal_coords
}

/// The ray has `n` cells where the `n`-th can be stopped on, the cell `stop`
/// is not free, and `stop` is that cell or the next one, on which the piece
/// cannot stop.
proof fn lemma_ray_stops(
    b: BoardView,
    color: Color,
    from: Coord,
    step: Coord,
    range: int,
    n: int,
    stop: int,
)
    requires
        0 <= n <= range,
        n > 0 ==> open_at(b, color, from, step, n),
        1 <= stop,
        n <= stop <= n + 1,
        !free_at(b, from, step, stop),
        stop == n + 1 ==> !landing_at(b, color, from, step, stop),
    ensures
        ray_len(b, color, from, step, range) == n,
{
    assert forall|k: int| n < k <= range implies !#[trigger] open_at(b, color, from, step, k) by {
        if k > stop {
            assert(!free_at(b, from, step, stop));
        }
    }
    lemma_ray_len_is(b, color, from, step, range, n);
}

} // verus!
