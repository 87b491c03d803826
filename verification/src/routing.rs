//! Spatial routing: grid-based nearest-node sampling and commute-time
//! estimation, either directly (straight-line distance over a configured
//! speed) or via the transit network's shortest-path index.

use vstd::prelude::*;

use crate::containers::Containers;
use crate::rng::choose_from;
use crate::rng::sample_from;
use crate::shared::Bounds;
use crate::disease::mixing::MixingStrategy;
use crate::shared::Pos;
use crate::shared::SimParams;
use crate::shared::TimeStep;
use crate::shared::MAX_COORD;
use crate::shared::MAX_DIRECT_TICKS;
use vstd::arithmetic::div_mod::lemma_div_nonincreasing;
use vstd::arithmetic::div_mod::lemma_div_pos_is_pos;

pub mod granular_grid;
pub mod transit;

pub use granular_grid::GranularGrid;

verus! {

/// How an agent travels: directly under its own power or by transit.
#[derive(PartialEq, Eq, Structural, Clone, Copy, Debug)]
pub enum RoutingType {
    Transit,
    Direct(DirectRoutingType),
}

/// The direct modes, each with its configured speed.
#[derive(PartialEq, Eq, Structural, Clone, Copy, Debug)]
pub enum DirectRoutingType {
    Walking,
    Cycling,
    Driving,
}

/// The integer square root: the largest `r` with `r * r <= n`.
pub open spec fn spec_isqrt(n: int) -> int
    decreases n,
{
    if n <= 0 {
        0
    } else {
        let r = spec_isqrt(n - 1);
        if (r + 1) * (r + 1) <= n {
            r + 1
        } else {
            r
        }
    }
}

/// The defining bracket of the integer square root.
pub proof fn lemma_isqrt_bracket(n: int)
    requires
        n >= 0,
    ensures
        spec_isqrt(n) * spec_isqrt(n) <= n,
        n < (spec_isqrt(n) + 1) * (spec_isqrt(n) + 1),
        spec_isqrt(n) >= 0,
    decreases n,
{
    if n > 0 {
        lemma_isqrt_bracket(n - 1);
        let r = spec_isqrt(n - 1);
        if (r + 1) * (r + 1) <= n {
            assert(spec_isqrt(n) == r + 1);
            assert(n - 1 < (r + 1) * (r + 1));
            assert(n < (r + 2) * (r + 2)) by (nonlinear_arith)
                requires
                    r >= 0,
                    n <= (r + 1) * (r + 1),
            ;
            assert(n < (spec_isqrt(n) + 1) * (spec_isqrt(n) + 1));
        } else {
            assert(spec_isqrt(n) == r);
            assert(n < (r + 1) * (r + 1));
            assert(n < (spec_isqrt(n) + 1) * (spec_isqrt(n) + 1));
        }
    } else {
        assert(n == 0);
        assert(spec_isqrt(n) == 0);
        assert(n < (spec_isqrt(n) + 1) * (spec_isqrt(n) + 1)) by (nonlinear_arith)
            requires
                n == 0,
                spec_isqrt(n) == 0,
        ;
    }
}

/// Any value bracketed the same way is the integer square root.
pub proof fn lemma_isqrt_unique(n: int, r: int)
    requires
        n >= 0,
        r >= 0,
        r * r <= n,
        n < (r + 1) * (r + 1),
    ensures
        r == spec_isqrt(n),
{
    lemma_isqrt_bracket(n);
    let s = spec_isqrt(n);
    assert(r == s) by (nonlinear_arith)
        requires
            r >= 0,
            s >= 0,
            r * r <= n,
            n < (r + 1) * (r + 1),
            s * s <= n,
            n < (s + 1) * (s + 1),
    ;
}

/// The integer square root, by binary search.
pub fn isqrt(n: u64) -> (r: u64)
    requires
        n < 0x40000000000,  // 2^42, so the search's upper bound squares safely
    ensures
        r == spec_isqrt(n as int),
{
    let mut lo: u64 = 0;
    let mut hi: u64 = 0x200000;  // 2^21, whose square exceeds every allowed n
    proof {
        assert((0x200000 as int) * (0x200000 as int) > n);
    }
    while lo + 1 < hi
        invariant
            lo < hi,
            hi <= 0x200000,
            lo * lo <= n,
            n < hi * hi,
        decreases hi - lo,
    {
        let mid = lo + (hi - lo) / 2;
        proof {
            assert(mid as int * mid as int <= 0x200000 * 0x200000) by (nonlinear_arith)
                requires
                    0 <= mid <= 0x200000,
            ;
        }
        if mid * mid <= n {
            lo = mid;
        } else {
            hi = mid;
        }
    }
    proof {
        lemma_isqrt_unique(n as int, lo as int);
    }
    lo
}

/// The straight-line distance between two positions, rounded down to whole
/// spatial units.
pub open spec fn spec_distance(p1: Pos, p2: Pos) -> int {
    let dx = if p1.x >= p2.x {
        p1.x - p2.x
    } else {
        p2.x - p1.x
    };
    let dy = if p1.y >= p2.y {
        p1.y - p2.y
    } else {
        p2.y - p1.y
    };
    spec_isqrt(dx * dx + dy * dy)
}

/// The straight-line distance between two positions, rounded down to whole
/// spatial units.
pub fn distance(p1: Pos, p2: Pos) -> (r: u64)
    requires
        p1.x < MAX_COORD,
        p1.y < MAX_COORD,
        p2.x < MAX_COORD,
        p2.y < MAX_COORD,
    ensures
        r == spec_distance(p1, p2),
{
    let dx: u64 = if p1.x >= p2.x {
        (p1.x - p2.x) as u64
    } else {
        (p2.x - p1.x) as u64
    };
    let dy: u64 = if p1.y >= p2.y {
        (p1.y - p2.y) as u64
    } else {
        (p2.y - p1.y) as u64
    };
    proof {
        assert(dx * dx + dy * dy < 0x40000000000) by (nonlinear_arith)
            requires
                0 <= dx < MAX_COORD,
                0 <= dy < MAX_COORD,
                MAX_COORD == 0x100000,
        ;
    }
    isqrt(dx * dx + dy * dy)
}

/// How many whole time steps a direct trip between the two container
/// positions takes at the mode's configured speed: distance over speed,
/// rounded down.
pub open spec fn spec_direct_commute_time(
    p1: Pos,
    p2: Pos,
    routing_type: DirectRoutingType,
    params: SimParams,
) -> int {
    spec_distance(p1, p2) / match routing_type {
        DirectRoutingType::Walking => params.walking_speed as int,
        DirectRoutingType::Cycling => params.cycling_speed as int,
        DirectRoutingType::Driving => params.driving_speed as int,
    }
}

/// Estimate a direct commute between two containers: straight-line distance
/// over the mode's speed, floored to whole time steps.
pub fn calculate_direct_commute_time<M: MixingStrategy>(
    containers: &Containers<M>,
    routing_type: DirectRoutingType,
    from_container_idx: u64,
    to_container_idx: u64,
    params: &SimParams,
) -> (r: TimeStep)
    requires
        params.wf(),
        from_container_idx < containers@.len(),
        to_container_idx < containers@.len(),
        containers.positions_bounded(),
    ensures
        r == spec_direct_commute_time(
            containers@[from_container_idx as int].pos,
            containers@[to_container_idx as int].pos,
            routing_type,
            *params,
        ),
        r <= MAX_DIRECT_TICKS,
{
    let p1 = containers.get(from_container_idx).unwrap().pos;
    let p2 = containers.get(to_container_idx).unwrap().pos;
    let dist = distance(p1, p2);
    proof {
        lemma_distance_bounded(p1, p2);
        let speed_spec: int = match routing_type {
            DirectRoutingType::Walking => params.walking_speed as int,
            DirectRoutingType::Cycling => params.cycling_speed as int,
            DirectRoutingType::Driving => params.driving_speed as int,
        };
        lemma_div_pos_is_pos(dist as int, speed_spec);
        lemma_div_nonincreasing(dist as int, speed_spec);
    }
    let speed = match routing_type {
        DirectRoutingType::Walking => params.walking_speed,
        DirectRoutingType::Cycling => params.cycling_speed,
        DirectRoutingType::Driving => params.driving_speed,
    };
    dist / speed
}

/// Distances stay below `MAX_DIRECT_TICKS`, because coordinates stay below
/// `MAX_COORD`.
pub proof fn lemma_distance_bounded(p1: Pos, p2: Pos)
    requires
        p1.x < MAX_COORD,
        p1.y < MAX_COORD,
        p2.x < MAX_COORD,
        p2.y < MAX_COORD,
    ensures
        0 <= spec_distance(p1, p2) < MAX_DIRECT_TICKS,
{
    let dx: int = if p1.x >= p2.x {
        p1.x - p2.x
    } else {
        p2.x - p1.x
    };
    let dy: int = if p1.y >= p2.y {
        p1.y - p2.y
    } else {
        p2.y - p1.y
    };
    assert(dx * dx + dy * dy < 0x40000000000) by (nonlinear_arith)
        requires
            0 <= dx < MAX_COORD,
            0 <= dy < MAX_COORD,
            MAX_COORD == 0x100000,
    ;
    lemma_isqrt_bracket(dx * dx + dy * dy);
    let r = spec_isqrt(dx * dx + dy * dy);
    if r >= MAX_DIRECT_TICKS {
        assert(r * r >= 0x40000000000) by (nonlinear_arith)
            requires
                r >= 0x200000,
        ;
    }
}


/// The Chebyshev distance between two scalars.
pub open spec fn cheb(a: int, b: int) -> int {
    if a >= b {
        a - b
    } else {
        b - a
    }
}

/// Whether `(r, c)` is a valid cell index on the perimeter of the square of
/// Chebyshev radius `dist` centred at `(center_row, center_col)`.
pub open spec fn on_perimeter(
    center_row: int,
    center_col: int,
    dist: int,
    rows: int,
    cols: int,
    r: int,
    c: int,
) -> bool {
    &&& 0 <= r < rows
    &&& 0 <= c < cols
    &&& cheb(r, center_row) <= dist
    &&& cheb(c, center_col) <= dist
    &&& (cheb(r, center_row) == dist || cheb(c, center_col) == dist)
}

/// A horizontal run of cells: row `row`, columns `col_start` up to (not
/// including) `col_end`, left to right.
pub open spec fn spec_row_segment(row: int, col_start: int, col_end: int) -> Seq<(u32, u32)> {
    Seq::new(
        (if col_end > col_start {
            col_end - col_start
        } else {
            0
        }) as nat,
        |k: int| ((row as u32, (col_start + k) as u32)),
    )
}

/// A vertical run of cells: column `col`, rows `row_start` up to (not
/// including) `row_end`, top to bottom.
pub open spec fn spec_col_segment(col: int, row_start: int, row_end: int) -> Seq<(u32, u32)> {
    Seq::new(
        (if row_end > row_start {
            row_end - row_start
        } else {
            0
        }) as nat,
        |k: int| (((row_start + k) as u32, col as u32)),
    )
}

/// The perimeter walk's exact output: the in-range top line, right line,
/// bottom line and left line of the square of Chebyshev radius `d`, in that
/// order, with the corners belonging to the top line, the left line taking
/// the lower-left corner, and the bottom line the lower-right one.
pub open spec fn spec_perimeter_coords(cr: int, cc: int, d: int, rows: int, cols: int) -> Seq<
    (u32, u32),
> {
    let top = if cr >= d {
        spec_row_segment(
            cr - d,
            if cc - d > 0 {
                cc - d
            } else {
                0
            },
            if cc + d + 1 < cols {
                cc + d + 1
            } else {
                cols
            },
        )
    } else {
        Seq::empty()
    };
    let right = if cc + d < cols {
        spec_col_segment(
            cc + d,
            if cr - d + 1 > 0 {
                cr - d + 1
            } else {
                0
            },
            if cr + d < rows {
                cr + d
            } else {
                rows
            },
        )
    } else {
        Seq::empty()
    };
    let bottom = if cr + d < rows {
        spec_row_segment(
            cr + d,
            if cc - d + 1 > 0 {
                cc - d + 1
            } else {
                0
            },
            if cc + d + 1 < cols {
                cc + d + 1
            } else {
                cols
            },
        )
    } else {
        Seq::empty()
    };
    let left = if cc >= d {
        spec_col_segment(
            cc - d,
            if cr - d + 1 > 0 {
                cr - d + 1
            } else {
                0
            },
            if cr + d + 1 < rows {
                cr + d + 1
            } else {
                rows
            },
        )
    } else {
        Seq::empty()
    };
    top + right + bottom + left
}

/// The perimeter walk never yields a cell twice: the four lines are
/// pairwise disjoint (they differ in their fixed row or column) and each
/// line enumerates strictly increasing coordinates.
#[verifier::rlimit(100)]
pub proof fn lemma_perimeter_coords_distinct(cr: int, cc: int, d: int, rows: int, cols: int)
    requires
        0 <= cr < rows,
        0 <= cc < cols,
        0 <= d,
        rows <= u32::MAX,
        cols <= u32::MAX,
    ensures
        forall|i: int, j: int|
            0 <= i < j < spec_perimeter_coords(cr, cc, d, rows, cols).len()
                ==> spec_perimeter_coords(cr, cc, d, rows, cols)[i] != spec_perimeter_coords(
                cr,
                cc,
                d,
                rows,
                cols,
            )[j],
{
    let full = spec_perimeter_coords(cr, cc, d, rows, cols);
    let ts: int = if cc - d > 0 {
        cc - d
    } else {
        0
    };
    let te: int = if cc + d + 1 < cols {
        cc + d + 1
    } else {
        cols
    };
    let rs: int = if cr - d + 1 > 0 {
        cr - d + 1
    } else {
        0
    };
    let re: int = if cr + d < rows {
        cr + d
    } else {
        rows
    };
    let bs: int = if cc - d + 1 > 0 {
        cc - d + 1
    } else {
        0
    };
    let be: int = te;
    let ls: int = rs;
    let le: int = if cr + d + 1 < rows {
        cr + d + 1
    } else {
        rows
    };
    let t = if cr >= d {
        spec_row_segment(cr - d, ts, te)
    } else {
        Seq::<(u32, u32)>::empty()
    };
    let r = if cc + d < cols {
        spec_col_segment(cc + d, rs, re)
    } else {
        Seq::<(u32, u32)>::empty()
    };
    let b = if cr + d < rows {
        spec_row_segment(cr + d, bs, be)
    } else {
        Seq::<(u32, u32)>::empty()
    };
    let l = if cc >= d {
        spec_col_segment(cc - d, ls, le)
    } else {
        Seq::<(u32, u32)>::empty()
    };
    let lt = t.len() as int;
    let lr = r.len() as int;
    let lb = b.len() as int;
    let ll = l.len() as int;
    assert(full == t + r + b + l);
    assert(d == 0 ==> lr == 0 && lb == 0 && ll == 0);
    assert(lt > 0 ==> cr >= d);
    assert(lr > 0 ==> cc + d < cols && d >= 1);
    assert(lb > 0 ==> cr + d < rows && d >= 1);
    assert(ll > 0 ==> cc >= d && d >= 1);
    assert forall|i: int, j: int| 0 <= i < j < full.len() implies full[i] != full[j] by {
        let pi = full[i];
        let pj = full[j];
        let rowi: int = if i < lt {
            cr - d
        } else if i < lt + lr {
            rs + (i - lt)
        } else if i < lt + lr + lb {
            cr + d
        } else {
            ls + (i - lt - lr - lb)
        };
        let coli: int = if i < lt {
            ts + i
        } else if i < lt + lr {
            cc + d
        } else if i < lt + lr + lb {
            bs + (i - lt - lr)
        } else {
            cc - d
        };
        let rowj: int = if j < lt {
            cr - d
        } else if j < lt + lr {
            rs + (j - lt)
        } else if j < lt + lr + lb {
            cr + d
        } else {
            ls + (j - lt - lr - lb)
        };
        let colj: int = if j < lt {
            ts + j
        } else if j < lt + lr {
            cc + d
        } else if j < lt + lr + lb {
            bs + (j - lt - lr)
        } else {
            cc - d
        };
        assert(pi == ((rowi as u32, coli as u32)));
        assert(pj == ((rowj as u32, colj as u32)));
        assert(0 <= rowi < rows && 0 <= coli < cols);
        assert(0 <= rowj < rows && 0 <= colj < cols);
        assert(rowi != rowj || coli != colj);
    }
}

proof fn lemma_push_keeps_contains(s: Seq<(u32, u32)>, e: (u32, u32), x: (u32, u32))
    requires
        s.contains(x),
    ensures
        s.push(e).contains(x),
{
    let i = choose|i: int| 0 <= i < s.len() && s[i] == x;
    assert(s.push(e)[i] == x);
}

/// The (row, col) indices of every valid cell on the perimeter of a square
/// on the grid: exactly the in-range cells at Chebyshev distance `dist` from
/// the centre, walked top line, right line, bottom line, left line.
///
/// # Arguments
/// * `center_row` - The row index of the center point of the square
/// * `center_col` - The column index of the center point of the square
/// * `dist` - The radius of the square, i.e. the perimeter's distance from the center
/// * `rows` - The number of rows in the grid
/// * `cols` - The number of columns in the grid
#[verifier::rlimit(60)]
pub fn get_coords_on_perimeter(
    center_row: i64,
    center_col: i64,
    dist: i64,
    rows: u32,
    cols: u32,
) -> (coords: Vec<(u32, u32)>)
    requires
        0 <= center_row < rows,
        0 <= center_col < cols,
        0 <= dist <= 0x10000000000,
    ensures
        forall|i: int|
            0 <= i < coords@.len() ==> on_perimeter(
                center_row as int,
                center_col as int,
                dist as int,
                rows as int,
                cols as int,
                (#[trigger] coords@[i]).0 as int,
                coords@[i].1 as int,
            ),
        forall|r: u32, c: u32|
            on_perimeter(
                center_row as int,
                center_col as int,
                dist as int,
                rows as int,
                cols as int,
                r as int,
                c as int,
            ) ==> coords@.contains((r, c)),
        coords@ == spec_perimeter_coords(
            center_row as int,
            center_col as int,
            dist as int,
            rows as int,
            cols as int,
        ),
        forall|i: int, j: int| 0 <= i < j < coords@.len() ==> coords@[i] != coords@[j],
{
    let ghost cr = center_row as int;
    let ghost cc = center_col as int;
    let ghost d = dist as int;
    let ghost rows_i = rows as int;
    let ghost cols_i = cols as int;
    let mut coords: Vec<(u32, u32)> = Vec::new();
    let top_start: i64 = if center_col - dist > 0 {
        center_col - dist
    } else {
        0
    };
    let top_end: i64 = if center_col + dist + 1 < cols as i64 {
        center_col + dist + 1
    } else {
        cols as i64
    };
    if center_row >= dist {
        let mut col: i64 = top_start;
        while col < top_end
            invariant
                cr >= d,
                cr == center_row as int,
                cc == center_col as int,
                d == dist as int,
                rows_i == rows as int,
                cols_i == cols as int,
                top_start <= col <= top_end,
                top_start == if cc - d > 0 { cc - d } else { 0 },
                top_end == if cc + d + 1 < cols_i { cc + d + 1 } else { cols_i },
                0 <= cr < rows_i,
                0 <= cc < cols_i,
                0 <= d <= 0x10000000000,
                forall|i: int|
                    0 <= i < coords@.len() ==> on_perimeter(
                        cr, cc, d, rows_i, cols_i,
                        (#[trigger] coords@[i]).0 as int,
                        coords@[i].1 as int,
                    ),
                forall|c2: u32| top_start <= c2 < col ==> #[trigger] coords@.contains((((cr - d) as u32, c2))),
                coords@ == spec_row_segment(cr - d, top_start as int, col as int),
            decreases top_end - col,
        {
            let ghost snap = coords@;
            coords.push(((center_row - dist) as u32, col as u32));
            proof {
                assert(coords@ =~= spec_row_segment(cr - d, top_start as int, col + 1));
                assert forall|c2: u32| top_start <= c2 < col + 1 implies #[trigger] coords@.contains((((cr - d) as u32, c2))) by {
                    if c2 < col {
                        lemma_push_keeps_contains(
                            snap,
                            (((cr - d) as u32, col as u32)),
                            (((cr - d) as u32, c2)),
                        );
                    } else {
                        assert(coords@[coords@.len() - 1] == (((cr - d) as u32, c2)));
                    }
                }
            }
            col = col + 1;
        }
    }
    proof {
        if center_row >= dist {
            assert(coords@ == spec_row_segment(cr - d, top_start as int, top_end as int));
        } else {
            assert(coords@ =~= Seq::<(u32, u32)>::empty());
        }
    }
    let ghost after_top = coords@;
    let right_start: i64 = if center_row - dist + 1 > 0 {
        center_row - dist + 1
    } else {
        0
    };
    let right_end: i64 = if center_row + dist < rows as i64 {
        center_row + dist
    } else {
        rows as i64
    };
    if center_col + dist < cols as i64 {
        let mut row: i64 = right_start;
        while row < right_end
            invariant
                cc + d < cols_i,
                cr == center_row as int,
                cc == center_col as int,
                d == dist as int,
                rows_i == rows as int,
                cols_i == cols as int,
                right_start <= row <= right_end || (right_start > right_end && row == right_start),
                right_start == if cr - d + 1 > 0 { cr - d + 1 } else { 0 },
                right_end == if cr + d < rows_i { cr + d } else { rows_i },
                0 <= cr < rows_i,
                0 <= cc < cols_i,
                0 <= d <= 0x10000000000,
                forall|i: int|
                    0 <= i < coords@.len() ==> on_perimeter(
                        cr, cc, d, rows_i, cols_i,
                        (#[trigger] coords@[i]).0 as int,
                        coords@[i].1 as int,
                    ),
                forall|x: (u32, u32)| after_top.contains(x) ==> coords@.contains(x),
                forall|r2: u32| right_start <= r2 < row ==> #[trigger] coords@.contains(((r2, (cc + d) as u32))),
                coords@ == after_top + spec_col_segment(cc + d, right_start as int, row as int),
            decreases right_end - row,
        {
            let ghost snap = coords@;
            coords.push((row as u32, (center_col + dist) as u32));
            proof {
                assert(coords@ =~= after_top + spec_col_segment(
                    cc + d,
                    right_start as int,
                    row + 1,
                ));
                assert forall|x: (u32, u32)| after_top.contains(x) implies coords@.contains(x) by {
                    lemma_push_keeps_contains(snap, ((row as u32, (cc + d) as u32)), x);
                }
                assert forall|r2: u32| right_start <= r2 < row + 1 implies #[trigger] coords@.contains(((r2, (cc + d) as u32))) by {
                    if r2 < row {
                        lemma_push_keeps_contains(
                            snap,
                            ((row as u32, (cc + d) as u32)),
                            ((r2, (cc + d) as u32)),
                        );
                    } else {
                        assert(coords@[coords@.len() - 1] == ((r2, (cc + d) as u32)));
                    }
                }
            }
            row = row + 1;
        }
    }
    proof {
        if center_col + dist < cols as i64 {
            assert(coords@ == after_top + spec_col_segment(
                cc + d,
                right_start as int,
                right_end as int,
            ));
        } else {
            assert(coords@ =~= after_top + Seq::<(u32, u32)>::empty());
        }
    }
    let ghost after_right = coords@;
    let bottom_start: i64 = if center_col - dist + 1 > 0 {
        center_col - dist + 1
    } else {
        0
    };
    let bottom_end: i64 = top_end;
    if center_row + dist < rows as i64 {
        let mut col: i64 = bottom_start;
        while col < bottom_end
            invariant
                cr + d < rows_i,
                cr == center_row as int,
                cc == center_col as int,
                d == dist as int,
                rows_i == rows as int,
                cols_i == cols as int,
                bottom_start <= col <= bottom_end || (bottom_start > bottom_end && col == bottom_start),
                bottom_start == if cc - d + 1 > 0 { cc - d + 1 } else { 0 },
                bottom_end == if cc + d + 1 < cols_i { cc + d + 1 } else { cols_i },
                0 <= cr < rows_i,
                0 <= cc < cols_i,
                0 <= d <= 0x10000000000,
                forall|i: int|
                    0 <= i < coords@.len() ==> on_perimeter(
                        cr, cc, d, rows_i, cols_i,
                        (#[trigger] coords@[i]).0 as int,
                        coords@[i].1 as int,
                    ),
                forall|x: (u32, u32)| after_right.contains(x) ==> coords@.contains(x),
                forall|c2: u32| bottom_start <= c2 < col ==> #[trigger] coords@.contains((((cr + d) as u32, c2))),
                coords@ == after_right + spec_row_segment(cr + d, bottom_start as int, col as int),
            decreases bottom_end - col,
        {
            let ghost snap = coords@;
            coords.push(((center_row + dist) as u32, col as u32));
            proof {
                assert(coords@ =~= after_right + spec_row_segment(
                    cr + d,
                    bottom_start as int,
                    col + 1,
                ));
                assert forall|x: (u32, u32)| after_right.contains(x) implies coords@.contains(x) by {
                    lemma_push_keeps_contains(snap, (((cr + d) as u32, col as u32)), x);
                }
                assert forall|c2: u32| bottom_start <= c2 < col + 1 implies #[trigger] coords@.contains((((cr + d) as u32, c2))) by {
                    if c2 < col {
                        lemma_push_keeps_contains(
                            snap,
                            (((cr + d) as u32, col as u32)),
                            (((cr + d) as u32, c2)),
                        );
                    } else {
                        assert(coords@[coords@.len() - 1] == (((cr + d) as u32, c2)));
                    }
                }
            }
            col = col + 1;
        }
    }
    proof {
        if center_row + dist < rows as i64 {
            assert(coords@ == after_right + spec_row_segment(
                cr + d,
                bottom_start as int,
                bottom_end as int,
            ));
        } else {
            assert(coords@ =~= after_right + Seq::<(u32, u32)>::empty());
        }
    }
    let ghost after_bottom = coords@;
    let left_start: i64 = right_start;
    let left_end: i64 = if center_row + dist + 1 < rows as i64 {
        center_row + dist + 1
    } else {
        rows as i64
    };
    if center_col >= dist {
        let mut row: i64 = left_start;
        while row < left_end
            invariant
                cc >= d,
                cr == center_row as int,
                cc == center_col as int,
                d == dist as int,
                rows_i == rows as int,
                cols_i == cols as int,
                left_start <= row <= left_end || (left_start > left_end && row == left_start),
                left_start == if cr - d + 1 > 0 { cr - d + 1 } else { 0 },
                left_end == if cr + d + 1 < rows_i { cr + d + 1 } else { rows_i },
                0 <= cr < rows_i,
                0 <= cc < cols_i,
                0 <= d <= 0x10000000000,
                forall|i: int|
                    0 <= i < coords@.len() ==> on_perimeter(
                        cr, cc, d, rows_i, cols_i,
                        (#[trigger] coords@[i]).0 as int,
                        coords@[i].1 as int,
                    ),
                forall|x: (u32, u32)| after_bottom.contains(x) ==> coords@.contains(x),
                forall|r2: u32| left_start <= r2 < row ==> #[trigger] coords@.contains(((r2, (cc - d) as u32))),
                coords@ == after_bottom + spec_col_segment(cc - d, left_start as int, row as int),
            decreases left_end - row,
        {
            let ghost snap = coords@;
            coords.push((row as u32, (center_col - dist) as u32));
            proof {
                assert(coords@ =~= after_bottom + spec_col_segment(
                    cc - d,
                    left_start as int,
                    row + 1,
                ));
                assert forall|x: (u32, u32)| after_bottom.contains(x) implies coords@.contains(x) by {
                    lemma_push_keeps_contains(snap, ((row as u32, (cc - d) as u32)), x);
                }
                assert forall|r2: u32| left_start <= r2 < row + 1 implies #[trigger] coords@.contains(((r2, (cc - d) as u32))) by {
                    if r2 < row {
                        lemma_push_keeps_contains(
                            snap,
                            ((row as u32, (cc - d) as u32)),
                            ((r2, (cc - d) as u32)),
                        );
                    } else {
                        assert(coords@[coords@.len() - 1] == ((r2, (cc - d) as u32)));
                    }
                }
            }
            row = row + 1;
        }
    }
    proof {
        if center_col >= dist {
            assert(coords@ == after_bottom + spec_col_segment(
                cc - d,
                left_start as int,
                left_end as int,
            ));
        } else {
            assert(coords@ =~= after_bottom + Seq::<(u32, u32)>::empty());
        }
        assert(coords@ =~= spec_perimeter_coords(cr, cc, d, rows_i, cols_i));
        lemma_perimeter_coords_distinct(cr, cc, d, rows_i, cols_i);
    }
    let ghost after_left = coords@;
    proof {
        assert forall|r: u32, c: u32|
            on_perimeter(cr, cc, d, rows_i, cols_i, r as int, c as int) implies coords@.contains(
            (r, c),
        ) by {
            let ri = r as int;
            let ci = c as int;
            if ri == cr - d {
                assert(cr >= d);
                assert(r == (cr - d) as u32);
                assert(top_start <= ci < top_end);
                assert(after_top.contains((((cr - d) as u32, c))));
                assert(after_right.contains((r, c)));
                assert(after_bottom.contains((r, c)));
            } else if ci == cc + d && cr - d + 1 <= ri <= cr + d - 1 {
                assert(cc + d < cols_i);
                assert(c == (cc + d) as u32);
                assert(right_start <= ri < right_end);
                assert(after_right.contains(((r, (cc + d) as u32))));
                assert(after_bottom.contains((r, c)));
            } else if ri == cr + d {
                if ci >= cc - d + 1 {
                    assert(cr + d < rows_i);
                    assert(r == (cr + d) as u32);
                    assert(bottom_start <= ci < bottom_end);
                    assert(after_bottom.contains((((cr + d) as u32, c))));
                } else {
                    assert(ci == cc - d);
                    assert(cc >= d);
                    assert(c == (cc - d) as u32);
                    assert(left_start <= ri < left_end);
                    assert(after_left.contains(((r, (cc - d) as u32))));
                }
            } else {
                assert(ci == cc - d);
                assert(cc >= d);
                assert(c == (cc - d) as u32);
                assert(left_start <= ri < left_end);
                assert(after_left.contains(((r, (cc - d) as u32))));
            }
        }
    }
    coords
}


/// Whether any valid cell at Chebyshev radius `d` from `(crow, ccol)` holds
/// a node (radius zero is the centre cell itself).
pub open spec fn ring_has_node(grid: GranularGrid<usize>, crow: int, ccol: int, d: int) -> bool {
    exists|r: int, c: int|
        on_perimeter(crow, ccol, d, grid.rows as int, grid.cols as int, r, c) && grid.cell(
            r,
            c,
        ).len() > 0
}

/// Whether the node index `v` lies in some valid cell at Chebyshev radius
/// `d` from the centre cell.
pub open spec fn node_in_ring(
    grid: GranularGrid<usize>,
    crow: int,
    ccol: int,
    d: int,
    v: usize,
) -> bool {
    exists|r: int, c: int|
        on_perimeter(crow, ccol, d, grid.rows as int, grid.cols as int, r, c) && grid.cell(
            r,
            c,
        ).contains(v)
}

/// How many node slots the listed cells hold in total: the size of the
/// candidate pool a ring scan gathers.
pub open spec fn cells_total(grid: GranularGrid<usize>, coords: Seq<(u32, u32)>) -> nat
    decreases coords.len(),
{
    if coords.len() == 0 {
        0
    } else {
        cells_total(grid, coords.drop_last()) + grid.cell(
            coords.last().0 as int,
            coords.last().1 as int,
        ).len()
    }
}

/// Whether the node index `v` lies in some cell the expanding search from
/// `(crow, ccol)` sweeps before the cut-off distance stops it.
pub open spec fn node_in_sweep(
    grid: GranularGrid<usize>,
    crow: int,
    ccol: int,
    cut_off: u32,
    v: usize,
) -> bool {
    exists|d: int|
        0 <= d <= spec_max_ring(grid, cut_off) && #[trigger] node_in_ring(grid, crow, ccol, d, v)
}

/// Every sampled value lies in some cell at Chebyshev radius `d`.
pub open spec fn sampled_from_ring(
    grid: GranularGrid<usize>,
    crow: int,
    ccol: int,
    d: int,
    v: Seq<usize>,
) -> bool {
    forall|i: int| 0 <= i < v.len() ==> node_in_ring(grid, crow, ccol, d, #[trigger] v[i])
}

/// The largest Chebyshev radius, in cells, that a search with this cut-off
/// distance sweeps.
pub open spec fn spec_max_ring(grid: GranularGrid<usize>, cut_off: u32) -> int {
    (cut_off * grid.rows) as int / grid.bounds.max_y as int + 1
}

/// Bucket the transit nodes into a spatial grid by their positions: cell
/// `(row_of(y), col_of(x))` of the result holds exactly the indices of the
/// nodes positioned there.
pub fn nodes_to_granular_grid(
    node_positions: &Vec<Pos>,
    bounds: &Bounds,
    rows: u32,
) -> (grid: GranularGrid<usize>)
    requires
        bounds.wf(),
        1 <= rows,
        granular_grid::spec_grid_cols(rows, *bounds) <= u32::MAX,
        rows * granular_grid::spec_grid_cols(rows, *bounds) <= usize::MAX,
        forall|i: int| 0 <= i < node_positions@.len() ==> bounds.spec_contains(
            #[trigger] node_positions@[i],
        ),
    ensures
        grid.wf(),
        grid.rows == rows,
        grid.bounds == *bounds,
        forall|i: int|
            0 <= i < node_positions@.len() ==> grid.cell(
                grid.spec_row_of((#[trigger] node_positions@[i]).y),
                grid.spec_col_of(node_positions@[i].x),
            ).contains(i as usize),
        forall|row: int, col: int, k: int|
            0 <= row < grid.rows && 0 <= col < grid.cols && 0 <= k < grid.cell(row, col).len()
                ==> (#[trigger] grid.cell(row, col)[k]) < node_positions@.len() && row
                == grid.spec_row_of(node_positions@[grid.cell(row, col)[k] as int].y) && col
                == grid.spec_col_of(node_positions@[grid.cell(row, col)[k] as int].x),
        forall|row: int, col: int, k1: int, k2: int|
            #![trigger grid.cell(row, col)[k1], grid.cell(row, col)[k2]]
            0 <= row < grid.rows && 0 <= col < grid.cols && 0 <= k1 < grid.cell(row, col).len()
                && 0 <= k2 < grid.cell(row, col).len() && k1 != k2 ==> grid.cell(row, col)[k1]
                != grid.cell(row, col)[k2],
{
    let mut grid = GranularGrid::<usize>::new(rows, bounds);
    let n = node_positions.len();
    let mut i: usize = 0;
    while i < n
        invariant
            n == node_positions@.len(),
            i <= n,
            grid.wf(),
            grid.rows == rows,
            grid.bounds == *bounds,
            forall|k: int| 0 <= k < node_positions@.len() ==> bounds.spec_contains(
                #[trigger] node_positions@[k],
            ),
            forall|j: int|
                0 <= j < i ==> grid.cell(
                    grid.spec_row_of((#[trigger] node_positions@[j]).y),
                    grid.spec_col_of(node_positions@[j].x),
                ).contains(j as usize),
            forall|row: int, col: int, k: int|
                0 <= row < grid.rows && 0 <= col < grid.cols && 0 <= k < grid.cell(row, col).len()
                    ==> (#[trigger] grid.cell(row, col)[k]) < i && row == grid.spec_row_of(
                    node_positions@[grid.cell(row, col)[k] as int].y,
                ) && col == grid.spec_col_of(node_positions@[grid.cell(row, col)[k] as int].x),
            forall|row: int, col: int, k1: int, k2: int|
                #![trigger grid.cell(row, col)[k1], grid.cell(row, col)[k2]]
                0 <= row < grid.rows && 0 <= col < grid.cols && 0 <= k1 < grid.cell(
                    row,
                    col,
                ).len() && 0 <= k2 < grid.cell(row, col).len() && k1 != k2 ==> grid.cell(
                    row,
                    col,
                )[k1] != grid.cell(row, col)[k2],
        decreases n - i,
    {
        let ghost pre = grid;
        let pos = node_positions[i];
        let row = grid.row_of(pos.y);
        let col = grid.col_of(pos.x);
        grid.push_at(row, col, i);
        proof {
            assert forall|j: int|
                0 <= j < i + 1 implies grid.cell(
                grid.spec_row_of((#[trigger] node_positions@[j]).y),
                grid.spec_col_of(node_positions@[j].x),
            ).contains(j as usize) by {
                let rj = grid.spec_row_of(node_positions@[j].y);
                let cj = grid.spec_col_of(node_positions@[j].x);
                if j < i {
                    pre.lemma_row_of_in_range(node_positions@[j].y);
                    pre.lemma_col_of_in_range(node_positions@[j].x);
                    assert(pre.cell(rj, cj).contains(j as usize));
                    if rj == row && cj == col {
                        let k = choose|k: int|
                            0 <= k < pre.cell(rj, cj).len() && pre.cell(rj, cj)[k] == j as usize;
                        assert(grid.cell(rj, cj)[k] == j as usize);
                    } else {
                        assert(grid.cell(rj, cj) == pre.cell(rj, cj));
                    }
                } else {
                    assert(grid.cell(row as int, col as int)[grid.cell(
                        row as int,
                        col as int,
                    ).len() - 1] == i as usize);
                }
            }
            assert forall|row2: int, col2: int, k1: int, k2: int|
                0 <= row2 < grid.rows && 0 <= col2 < grid.cols && 0 <= k1 < grid.cell(
                    row2,
                    col2,
                ).len() && 0 <= k2 < grid.cell(row2, col2).len() && k1 != k2 implies grid.cell(
                row2,
                col2,
            )[k1] != grid.cell(row2, col2)[k2] by {
                if row2 == row && col2 == col {
                    let old_len = pre.cell(row2, col2).len() as int;
                    if k1 < old_len && k2 < old_len {
                        assert(grid.cell(row2, col2)[k1] == pre.cell(row2, col2)[k1]);
                        assert(grid.cell(row2, col2)[k2] == pre.cell(row2, col2)[k2]);
                    } else if k1 == old_len {
                        assert(grid.cell(row2, col2)[k1] == i as usize);
                        assert(grid.cell(row2, col2)[k2] == pre.cell(row2, col2)[k2]);
                        assert(pre.cell(row2, col2)[k2] < i as usize);
                    } else {
                        assert(grid.cell(row2, col2)[k2] == i as usize);
                        assert(grid.cell(row2, col2)[k1] == pre.cell(row2, col2)[k1]);
                        assert(pre.cell(row2, col2)[k1] < i as usize);
                    }
                } else {
                    assert(grid.cell(row2, col2) == pre.cell(row2, col2));
                }
            }
        }
        i = i + 1;
    }
    grid
}

/// Sample up to `num_samples` nearby nodes from the grid, checking the
/// centre's own cell first and then expanding in concentric square rings
/// until a ring yields nodes or the swept radius exceeds the cut-off
/// distance.  `None` means every cell within the sweep is empty.
pub fn sample_nearby_from_grid(
    grid: &GranularGrid<usize>,
    centre: (u32, u32),
    cut_off: u32,
    num_samples: usize,
    rng: &mut rand::rngs::StdRng,
) -> (r: Option<Vec<usize>>)
    requires
        grid.wf(),
        grid.rows <= 65536,
        cut_off <= MAX_COORD,
        centre.0 < grid.bounds.max_y,
        centre.1 < grid.bounds.max_x,
        num_samples >= 1,
    ensures
        ({
            let crow = grid.spec_row_of(centre.0);
            let ccol = grid.spec_col_of(centre.1);
            match r {
                None => forall|d: int|
                    0 <= d <= spec_max_ring(*grid, cut_off) ==> !ring_has_node(
                        *grid,
                        crow,
                        ccol,
                        d,
                    ),
                Some(v) => {
                    &&& 1 <= v@.len() <= num_samples
                    &&& (grid.cell(crow, ccol).len() > 0 ==> v@.len() == 1)
                    &&& forall|i: int|
                        0 <= i < v@.len() ==> node_in_sweep(
                            *grid,
                            crow,
                            ccol,
                            cut_off,
                            #[trigger] v@[i],
                        )
                    &&& exists|d: int|
                        {
                            &&& 0 <= d <= spec_max_ring(*grid, cut_off)
                            &&& #[trigger] ring_has_node(*grid, crow, ccol, d)
                            &&& (forall|d2: int|
                                0 <= d2 < d ==> !ring_has_node(*grid, crow, ccol, d2))
                            &&& sampled_from_ring(*grid, crow, ccol, d, v@)
                            &&& (d >= 1 ==> v@.len() == {
                                let pool_size = cells_total(
                                    *grid,
                                    spec_perimeter_coords(
                                        crow,
                                        ccol,
                                        d,
                                        grid.rows as int,
                                        grid.cols as int,
                                    ),
                                );
                                if num_samples <= pool_size {
                                    num_samples as int
                                } else {
                                    pool_size as int
                                }
                            })
                        }
                },
            }
        }),
{
    let crow = grid.row_of(centre.0);
    let ccol = grid.col_of(centre.1);
    let own = grid.get_int_index(crow, ccol);
    if own.len() > 0 {
        let chosen = choose_from(own, rng).unwrap();
        let result = vec![chosen];
        proof {
            let crow_i = crow as int;
            let ccol_i = ccol as int;
            assert(on_perimeter(
                crow_i,
                ccol_i,
                0,
                grid.rows as int,
                grid.cols as int,
                crow_i,
                ccol_i,
            ));
            assert(ring_has_node(*grid, crow_i, ccol_i, 0));
            assert(result@[0] == chosen);
            assert(grid.cell(crow_i, ccol_i).contains(chosen));
            assert(node_in_ring(*grid, crow_i, ccol_i, 0, chosen));
            assert(sampled_from_ring(*grid, crow_i, ccol_i, 0, result@));
            vstd::arithmetic::div_mod::lemma_div_pos_is_pos(
                (cut_off * grid.rows) as int,
                grid.bounds.max_y as int,
            );
            assert(spec_max_ring(*grid, cut_off) >= 1);
            assert forall|i: int| 0 <= i < result@.len() implies node_in_sweep(
                *grid,
                crow_i,
                ccol_i,
                cut_off,
                #[trigger] result@[i],
            ) by {
                assert(node_in_ring(*grid, crow_i, ccol_i, 0, result@[i]));
            }
        }
        return Some(result);
    }
    proof {
        assert forall|d2: int| 0 <= d2 < 1 implies !ring_has_node(
            *grid,
            crow as int,
            ccol as int,
            d2,
        ) by {
            if ring_has_node(*grid, crow as int, ccol as int, 0) {
                let (rr, cc2) = choose|rr: int, cc2: int|
                    on_perimeter(
                        crow as int,
                        ccol as int,
                        0,
                        grid.rows as int,
                        grid.cols as int,
                        rr,
                        cc2,
                    ) && grid.cell(rr, cc2).len() > 0;
                assert(rr == crow as int && cc2 == ccol as int);
            }
        }
    }
    let mut dist: u64 = 0;
    let ghost crow_i = crow as int;
    let ghost ccol_i = ccol as int;
    proof {
        assert(cut_off as int * grid.rows as int <= 0x1000000000) by (nonlinear_arith)
            requires
                cut_off <= MAX_COORD,
                grid.rows <= 65536,
                MAX_COORD == 0x100000,
        ;
        vstd::arithmetic::div_mod::lemma_div_pos_is_pos(
            cut_off as int * grid.rows as int,
            grid.bounds.max_y as int,
        );
    }
    let sweep_limit: u64 = ((cut_off as u64) * (grid.rows as u64)) / (grid.bounds.max_y as u64);
    proof {
        vstd::arithmetic::div_mod::lemma_div_nonincreasing(
            cut_off as int * grid.rows as int,
            grid.bounds.max_y as int,
        );
    }
    while dist <= sweep_limit
        invariant
            sweep_limit == (cut_off * grid.rows) as int / grid.bounds.max_y as int,
            sweep_limit <= 0x1000000000,
            grid.wf(),
            grid.rows <= 65536,
            cut_off <= MAX_COORD,
            num_samples >= 1,
            crow_i == grid.spec_row_of(centre.0),
            ccol_i == grid.spec_col_of(centre.1),
            0 <= crow_i < grid.rows,
            0 <= ccol_i < grid.cols,
            crow_i == crow as int,
            ccol_i == ccol as int,
            0 <= dist <= spec_max_ring(*grid, cut_off),
            forall|d2: int| 0 <= d2 <= dist ==> !ring_has_node(*grid, crow_i, ccol_i, d2),
        decreases spec_max_ring(*grid, cut_off) - dist,
    {
        dist = dist + 1;
        let coords = get_coords_on_perimeter(
            crow as i64,
            ccol as i64,
            dist as i64,
            grid.rows,
            grid.cols,
        );
        let mut pool: Vec<usize> = Vec::new();
        let nc = coords.len();
        let mut j: usize = 0;
        while j < nc
            invariant
                grid.wf(),
                nc == coords@.len(),
                j <= nc,
                crow_i == crow as int,
                ccol_i == ccol as int,
                forall|i2: int|
                    0 <= i2 < coords@.len() ==> on_perimeter(
                        crow_i,
                        ccol_i,
                        dist as int,
                        grid.rows as int,
                        grid.cols as int,
                        (#[trigger] coords@[i2]).0 as int,
                        coords@[i2].1 as int,
                    ),
                forall|i2: int|
                    0 <= i2 < pool@.len() ==> node_in_ring(
                        *grid,
                        crow_i,
                        ccol_i,
                        dist as int,
                        #[trigger] pool@[i2],
                    ),
                pool@.len() == 0 ==> forall|j2: int|
                    0 <= j2 < j ==> grid.cell(
                        (#[trigger] coords@[j2]).0 as int,
                        coords@[j2].1 as int,
                    ).len() == 0,
                pool@.len() == cells_total(*grid, coords@.take(j as int)),
            decreases nc - j,
        {
            let (rr, cc2) = coords[j];
            let cell = grid.get_int_index(rr, cc2);
            let m = cell.len();
            let mut k: usize = 0;
            while k < m
                invariant
                    grid.wf(),
                    m == cell@.len(),
                    k <= m,
                    cell@ == grid.cell(rr as int, cc2 as int),
                    on_perimeter(
                        crow_i,
                        ccol_i,
                        dist as int,
                        grid.rows as int,
                        grid.cols as int,
                        rr as int,
                        cc2 as int,
                    ),
                    forall|i2: int|
                        0 <= i2 < pool@.len() ==> node_in_ring(
                            *grid,
                            crow_i,
                            ccol_i,
                            dist as int,
                            #[trigger] pool@[i2],
                        ),
                    k > 0 ==> pool@.len() > 0,
                    nc == coords@.len(),
                    j < nc,
                    pool@.len() == 0 ==> forall|j2: int|
                        0 <= j2 < j ==> grid.cell(
                            (#[trigger] coords@[j2]).0 as int,
                            coords@[j2].1 as int,
                        ).len() == 0,
                    pool@.len() == cells_total(*grid, coords@.take(j as int)) + k,
                decreases m - k,
            {
                pool.push(cell[k]);
                proof {
                    assert(grid.cell(rr as int, cc2 as int).contains(cell@[k as int]));
                    assert(node_in_ring(*grid, crow_i, ccol_i, dist as int, cell@[k as int]));
                }
                k = k + 1;
            }
            proof {
                if pool@.len() == 0 {
                    assert(m == 0);
                    assert(grid.cell(
                        coords@[j as int].0 as int,
                        coords@[j as int].1 as int,
                    ).len() == 0);
                }
                assert(coords@.take(j + 1).drop_last() =~= coords@.take(j as int));
                assert(coords@.take(j + 1).last() == coords@[j as int]);
            }
            j = j + 1;
        }
        let sampled = sample_from(&pool, num_samples, rng);
        if sampled.len() > 0 {
            proof {
                let d = dist as int;
                assert(pool@.len() > 0);
                assert(coords@.take(nc as int) =~= coords@);
                assert(pool@.len() == cells_total(
                    *grid,
                    spec_perimeter_coords(crow_i, ccol_i, d, grid.rows as int, grid.cols as int),
                ));
                assert(grid.cell(crow_i, ccol_i).len() == 0) by {
                    if grid.cell(crow_i, ccol_i).len() > 0 {
                        assert(on_perimeter(
                            crow_i,
                            ccol_i,
                            0,
                            grid.rows as int,
                            grid.cols as int,
                            crow_i,
                            ccol_i,
                        ));
                        assert(ring_has_node(*grid, crow_i, ccol_i, 0));
                    }
                }
                assert(node_in_ring(*grid, crow_i, ccol_i, d, pool@[0]));
                assert(ring_has_node(*grid, crow_i, ccol_i, d)) by {
                    let (rr, c2) = choose|rr: int, c2: int|
                        on_perimeter(
                            crow_i,
                            ccol_i,
                            d,
                            grid.rows as int,
                            grid.cols as int,
                            rr,
                            c2,
                        ) && grid.cell(rr, c2).contains(pool@[0]);
                    assert(grid.cell(rr, c2).len() > 0);
                }
                assert forall|i2: int| 0 <= i2 < sampled@.len() implies node_in_ring(
                    *grid,
                    crow_i,
                    ccol_i,
                    d,
                    #[trigger] sampled@[i2],
                ) by {
                    assert(pool@.contains(sampled@[i2]));
                    let pi = choose|pi: int| 0 <= pi < pool@.len() && pool@[pi] == sampled@[i2];
                    assert(node_in_ring(*grid, crow_i, ccol_i, d, pool@[pi]));
                }
                assert forall|i2: int| 0 <= i2 < sampled@.len() implies node_in_sweep(
                    *grid,
                    crow_i,
                    ccol_i,
                    cut_off,
                    #[trigger] sampled@[i2],
                ) by {
                    assert(node_in_ring(*grid, crow_i, ccol_i, d, sampled@[i2]));
                }
            }
            return Some(sampled);
        }
        proof {
            assert(pool@.len() == 0);
            assert forall|d2: int| 0 <= d2 <= dist implies !ring_has_node(
                *grid,
                crow_i,
                ccol_i,
                d2,
            ) by {
                if d2 == dist as int && ring_has_node(*grid, crow_i, ccol_i, d2) {
                    let (rr, c2) = choose|rr: int, c2: int|
                        on_perimeter(
                            crow_i,
                            ccol_i,
                            d2,
                            grid.rows as int,
                            grid.cols as int,
                            rr,
                            c2,
                        ) && grid.cell(rr, c2).len() > 0;
                    assert(coords@.contains(((rr as u32, c2 as u32))));
                    let ci = choose|ci: int|
                        0 <= ci < coords@.len() && coords@[ci] == ((rr as u32, c2 as u32));
                    assert(grid.cell(rr, c2).len() == 0);
                }
            }
        }
    }
    None
}


/// Returned when no transit route could be found between the sampled
/// candidate nodes; the caller falls back to a direct commute.
#[derive(PartialEq, Eq, Structural, Clone, Copy, Debug)]
pub struct NoRouteError;

/// Estimate a transit commute between two containers: sample candidate
/// transit nodes near both endpoints, query the shortest-path index for
/// every candidate pair in priority order, and return the first found
/// path's weight in time steps (zero when both endpoints sampled the same
/// node; the scheduler coerces that to one tick).  A path at or above
/// `MAX_TRANSIT_TICKS` is treated as unusable and skipped.  `Err` means no
/// candidate pair had a usable path, and the caller falls back to direct
/// routing.
pub fn calculate_public_transit_commute_time<M: MixingStrategy>(
    containers: &Containers<M>,
    transit_grid: &GranularGrid<usize>,
    transit_path_calculator: &mut fast_paths::PathCalculator,
    fast_graph: &fast_paths::FastGraph,
    from_container_idx: u64,
    to_container_idx: u64,
    rng: &mut rand::rngs::StdRng,
) -> (r: Result<TimeStep, NoRouteError>)
    requires
        from_container_idx < containers@.len(),
        to_container_idx < containers@.len(),
        transit_grid.wf(),
        transit_grid.rows <= 65536,
        forall|c: int|
            0 <= c < containers@.len() ==> transit_grid.bounds.spec_contains(
                (#[trigger] containers@[c]).pos,
            ),
        transit::calculator_num_nodes(*old(transit_path_calculator)) == transit::graph_num_nodes(
            *fast_graph,
        ),
        transit::graph_safe_weights(*fast_graph),
    ensures
        transit::calculator_num_nodes(*final(transit_path_calculator))
            == transit::calculator_num_nodes(*old(transit_path_calculator)),
        r matches Ok(w) ==> w < crate::shared::MAX_TRANSIT_TICKS && exists|s: usize, t: usize|
            {
                &&& s < transit::graph_num_nodes(*fast_graph)
                &&& t < transit::graph_num_nodes(*fast_graph)
                &&& node_in_sweep(
                    *transit_grid,
                    transit_grid.spec_row_of(containers@[from_container_idx as int].pos.y),
                    transit_grid.spec_col_of(containers@[from_container_idx as int].pos.x),
                    3_500,
                    s,
                )
                &&& node_in_sweep(
                    *transit_grid,
                    transit_grid.spec_row_of(containers@[to_container_idx as int].pos.y),
                    transit_grid.spec_col_of(containers@[to_container_idx as int].pos.x),
                    3_500,
                    t,
                )
                &&& #[trigger] transit::transit_path_weight(*fast_graph, s, t) == Some(
                    w as usize,
                )
            },
{
    let start_pos = containers.get(from_container_idx).unwrap().pos;
    let end_pos = containers.get(to_container_idx).unwrap().pos;

    let possible_start_nodes = sample_nearby_from_grid(
        transit_grid,
        (start_pos.y, start_pos.x),
        3_500,
        5,
        rng,
    );
    let possible_end_nodes = sample_nearby_from_grid(
        transit_grid,
        (end_pos.y, end_pos.x),
        3_500,
        5,
        rng,
    );

    if let (Some(start_nodes), Some(end_nodes)) = (possible_start_nodes, possible_end_nodes) {
        let ghost start_crow = transit_grid.spec_row_of(start_pos.y);
        let ghost start_ccol = transit_grid.spec_col_of(start_pos.x);
        let ghost end_crow = transit_grid.spec_row_of(end_pos.y);
        let ghost end_ccol = transit_grid.spec_col_of(end_pos.x);
        let num_graph_nodes = transit::fast_graph_num_nodes(fast_graph);
        let ne = end_nodes.len();
        let mut ei: usize = 0;
        while ei < ne
            invariant
                ne == end_nodes@.len(),
                ei <= ne,
                start_crow == transit_grid.spec_row_of(
                    containers@[from_container_idx as int].pos.y,
                ),
                start_ccol == transit_grid.spec_col_of(
                    containers@[from_container_idx as int].pos.x,
                ),
                end_crow == transit_grid.spec_row_of(containers@[to_container_idx as int].pos.y),
                end_ccol == transit_grid.spec_col_of(containers@[to_container_idx as int].pos.x),

                transit::calculator_num_nodes(*transit_path_calculator)
                    == transit::calculator_num_nodes(*old(transit_path_calculator)),
                transit::calculator_num_nodes(*transit_path_calculator)
                    == transit::graph_num_nodes(*fast_graph),
                num_graph_nodes == transit::graph_num_nodes(*fast_graph),
                transit::graph_safe_weights(*fast_graph),
                forall|i: int|
                    0 <= i < start_nodes@.len() ==> node_in_sweep(
                        *transit_grid,
                        start_crow,
                        start_ccol,
                        3_500,
                        #[trigger] start_nodes@[i],
                    ),
                forall|i: int|
                    0 <= i < end_nodes@.len() ==> node_in_sweep(
                        *transit_grid,
                        end_crow,
                        end_ccol,
                        3_500,
                        #[trigger] end_nodes@[i],
                    ),
            decreases ne - ei,
        {
            let ns = start_nodes.len();
            let mut si: usize = 0;
            while si < ns
                invariant
                    ns == start_nodes@.len(),
                    ne == end_nodes@.len(),
                    ei < ne,
                    si <= ns,
                    start_crow == transit_grid.spec_row_of(
                        containers@[from_container_idx as int].pos.y,
                    ),
                    start_ccol == transit_grid.spec_col_of(
                        containers@[from_container_idx as int].pos.x,
                    ),
                    end_crow == transit_grid.spec_row_of(
                        containers@[to_container_idx as int].pos.y,
                    ),
                    end_ccol == transit_grid.spec_col_of(
                        containers@[to_container_idx as int].pos.x,
                    ),

                    transit::calculator_num_nodes(*transit_path_calculator)
                        == transit::calculator_num_nodes(*old(transit_path_calculator)),
                    transit::calculator_num_nodes(*transit_path_calculator)
                        == transit::graph_num_nodes(*fast_graph),
                    num_graph_nodes == transit::graph_num_nodes(*fast_graph),
                    transit::graph_safe_weights(*fast_graph),
                    forall|i: int|
                        0 <= i < start_nodes@.len() ==> node_in_sweep(
                            *transit_grid,
                            start_crow,
                            start_ccol,
                            3_500,
                            #[trigger] start_nodes@[i],
                        ),
                    forall|i: int|
                        0 <= i < end_nodes@.len() ==> node_in_sweep(
                            *transit_grid,
                            end_crow,
                            end_ccol,
                            3_500,
                            #[trigger] end_nodes@[i],
                        ),
                decreases ns - si,
            {
                let start_node = start_nodes[si];
                let end_node = end_nodes[ei];
                if start_node < num_graph_nodes && end_node < num_graph_nodes {
                    match transit::calc_path_weight(
                        transit_path_calculator,
                        fast_graph,
                        start_node,
                        end_node,
                    ) {
                        Some(weight) => {
                            if (weight as u64) < crate::shared::MAX_TRANSIT_TICKS {
                                proof {
                                    assert(node_in_sweep(
                                        *transit_grid,
                                        start_crow,
                                        start_ccol,
                                        3_500,
                                        start_nodes@[si as int],
                                    ));
                                    assert(node_in_sweep(
                                        *transit_grid,
                                        end_crow,
                                        end_ccol,
                                        3_500,
                                        end_nodes@[ei as int],
                                    ));
                                }
                                return Ok(weight as u64);
                            }
                        },
                        None => {},
                    }
                }
                si = si + 1;
            }
            ei = ei + 1;
        }
    }
    Err(NoRouteError)
}

} // verus!
