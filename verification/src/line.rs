use vstd::prelude::*;

verus! {

/// How far apart two values of an axis are.
pub open spec fn distance(from: u8, to: u8) -> int {
    if from <= to {
        to - from
    } else {
        from - to
    }
}

/// The direction in which a walk from `from` to `to` moves along an axis.
pub open spec fn direction(from: u8, to: u8) -> int {
    if from < to {
        1
    } else {
        -1
    }
}

/// The number of steps of the line from `a` to `b`: its larger extent.
pub open spec fn line_steps(a: (u8, u8), b: (u8, u8)) -> nat {
    let dx = distance(a.0, b.0);
    let dy = distance(a.1, b.1);
    (if dx >= dy {
        dx
    } else {
        dy
    }) as nat
}

/// Position and error term of Bresenham's walk from `a` towards `b` after `k` steps.
pub open spec fn line_walk(a: (u8, u8), b: (u8, u8), k: nat) -> (int, int, int)
    decreases k,
{
    let dx = distance(a.0, b.0);
    let dy = -distance(a.1, b.1);
    if k == 0 {
        (a.0 as int, a.1 as int, dx + dy)
    } else {
        let (x, y, err) = line_walk(a, b, (k - 1) as nat);
        let e2 = 2 * err;
        let (x1, err1) = if e2 >= dy {
            (x + direction(a.0, b.0), err + dy)
        } else {
            (x, err)
        };
        let (y1, err2) = if e2 <= dx {
            (y + direction(a.1, b.1), err1 + dx)
        } else {
            (y, err1)
        };
        (x1, y1, err2)
    }
}

/// The points of the line from `a` to `b` that Bresenham's algorithm plots, in order.
pub open spec fn spec_bresenham(a: (u8, u8), b: (u8, u8)) -> Seq<(u8, u8)> {
    Seq::new(
        line_steps(a, b) + 1,
        |k: int| (line_walk(a, b, k as nat).0 as u8, line_walk(a, b, k as nat).1 as u8),
    )
}

/// How far the walk has moved from `a` along each axis.
pub open spec fn progress(a: (u8, u8), b: (u8, u8), p: (int, int)) -> (int, int) {
    (direction(a.0, b.0) * (p.0 - a.0), direction(a.1, b.1) * (p.1 - a.1))
}

/// What holds of the walk after `k` steps, for every `k` up to the number of steps.
pub open spec fn walk_invariant(a: (u8, u8), b: (u8, u8), k: nat) -> bool {
    let dx = distance(a.0, b.0);
    let dy = distance(a.1, b.1);
    let m = line_steps(a, b) as int;
    let (x, y, err) = line_walk(a, b, k);
    let (ux, uy) = progress(a, b, (x, y));
    &&& 0 <= ux <= dx
    &&& 0 <= uy <= dy
    &&& x == a.0 + direction(a.0, b.0) * ux
    &&& y == a.1 + direction(a.1, b.1) * uy
    &&& err == dx - dy + dx * uy - dy * ux
    &&& -m <= 2 * (dx * uy - dy * ux) <= m
    &&& (dx >= dy ==> ux == k)
    &&& (dx < dy ==> uy == k)
}

proof fn lemma_walk_step(a: (u8, u8), b: (u8, u8), k: nat)
    requires
        k < line_steps(a, b),
        walk_invariant(a, b, k),
    ensures
        walk_invariant(a, b, k + 1),
        ({
            let p = line_walk(a, b, k);
            let q = line_walk(a, b, k + 1);
            let d = progress(a, b, (q.0, q.1));
            let c = progress(a, b, (p.0, p.1));
            &&& d.0 == c.0 || d.0 == c.0 + 1
            &&& d.1 == c.1 || d.1 == c.1 + 1
        }),
{
    let dx = distance(a.0, b.0);
    let dy = distance(a.1, b.1);
    let m = line_steps(a, b) as int;
    let sx = direction(a.0, b.0);
    let sy = direction(a.1, b.1);
    let (x, y, err) = line_walk(a, b, k);
    let (ux, uy) = progress(a, b, (x, y));
    let g = dx * uy - dy * ux;
    let e2 = 2 * err;
    let xmove = e2 >= -dy;
    let ymove = e2 <= dx;
    assert(line_walk(a, b, k + 1) == {
        let (x1, err1) = if xmove {
            (x + sx, err - dy)
        } else {
            (x, err)
        };
        let (y1, err2) = if ymove {
            (y + sy, err1 + dx)
        } else {
            (y, err1)
        };
        (x1, y1, err2)
    });
    assert(sx * sx == 1) by (nonlinear_arith)
        requires
            sx == 1 || sx == -1,
    ;
    assert(sy * sy == 1) by (nonlinear_arith)
        requires
            sy == 1 || sy == -1,
    ;
    assert(dx * (uy + 1) == dx * uy + dx) by (nonlinear_arith);
    assert(dy * (ux + 1) == dy * ux + dy) by (nonlinear_arith);
    // The walk never overshoots: it moves along an axis only while it has ground left there.
    if ux == dx && xmove {
        if dx >= dy {
            assert(false);
        } else {
            assert(uy < dy);
            assert(dx * uy - dy * dx == dx * (uy - dy)) by (nonlinear_arith);
            assert(2 * dx * (uy - dy + 1) <= 0) by (nonlinear_arith)
                requires
                    uy - dy + 1 <= 0,
                    dx >= 0,
            ;
            assert(2 * dx * (uy - dy + 1) == 2 * g + 2 * dx) by (nonlinear_arith)
                requires
                    g == dx * uy - dy * ux,
                    ux == dx,
            ;
        }
    }
    if uy == dy && ymove {
        if dx < dy {
            assert(false);
        } else {
            assert(ux < dx);
            assert(2 * dy * (ux - dx + 1) <= 0) by (nonlinear_arith)
                requires
                    ux - dx + 1 <= 0,
                    dy >= 0,
            ;
            assert(2 * dy * (ux - dx + 1) == -2 * g + 2 * dy) by (nonlinear_arith)
                requires
                    g == dx * uy - dy * ux,
                    uy == dy,
            ;
        }
    }
    let (x1, y1, err1) = line_walk(a, b, k + 1);
    let (ux1, uy1) = progress(a, b, (x1, y1));
    if xmove {
        assert(sx * (x + sx - a.0) == sx * (x - a.0) + sx * sx) by (nonlinear_arith);
        assert(ux1 == ux + 1);
    } else {
        assert(ux1 == ux);
    }
    if ymove {
        assert(sy * (y + sy - a.1) == sy * (y - a.1) + sy * sy) by (nonlinear_arith);
        assert(uy1 == uy + 1);
    } else {
        assert(uy1 == uy);
    }
    assert(x1 == a.0 + sx * ux1) by (nonlinear_arith)
        requires
            x1 == a.0 + sx * ux || x1 == a.0 + sx * ux + sx,
            ux1 == ux || ux1 == ux + 1,
            x1 == a.0 + sx * ux ==> ux1 == ux,
            x1 == a.0 + sx * ux + sx ==> ux1 == ux + 1,
    ;
    assert(y1 == a.1 + sy * uy1) by (nonlinear_arith)
        requires
            y1 == a.1 + sy * uy || y1 == a.1 + sy * uy + sy,
            uy1 == uy || uy1 == uy + 1,
            y1 == a.1 + sy * uy ==> uy1 == uy,
            y1 == a.1 + sy * uy + sy ==> uy1 == uy + 1,
    ;
}

/// Every state of the walk, up to its last step, keeps the walk invariant.
pub proof fn lemma_walk(a: (u8, u8), b: (u8, u8), k: nat)
    requires
        k <= line_steps(a, b),
    ensures
        walk_invariant(a, b, k),
    decreases k,
{
    if k == 0 {
        let dx = distance(a.0, b.0);
        let dy = distance(a.1, b.1);
        assert(dx * 0 == 0 && dy * 0 == 0) by (nonlinear_arith);
        assert(direction(a.0, b.0) * 0 == 0 && direction(a.1, b.1) * 0 == 0) by (nonlinear_arith);
    } else {
        lemma_walk(a, b, (k - 1) as nat);
        lemma_walk_step(a, b, (k - 1) as nat);
    }
}


/// The walk ends on `b`, and not before its last step.
pub proof fn lemma_walk_end(a: (u8, u8), b: (u8, u8), k: nat)
    requires
        k <= line_steps(a, b),
    ensures
        (line_walk(a, b, k).0 == b.0 && line_walk(a, b, k).1 == b.1) <==> k == line_steps(a, b),
        0 <= line_walk(a, b, k).0 <= 255,
        0 <= line_walk(a, b, k).1 <= 255,
{
    lemma_walk(a, b, k);
    let dx = distance(a.0, b.0);
    let dy = distance(a.1, b.1);
    let m = line_steps(a, b) as int;
    let sx = direction(a.0, b.0);
    let sy = direction(a.1, b.1);
    let (x, y, err) = line_walk(a, b, k);
    let (ux, uy) = progress(a, b, (x, y));
    assert(a.0 + sx * dx == b.0);
    assert(a.1 + sy * dy == b.1);
    if sx == 1 {
        assert(x == a.0 + ux);
    } else {
        assert(direction(a.0, b.0) == -1);
        assert(x == a.0 - ux);
    }
    if sy == 1 {
        assert(y == a.1 + uy);
    } else {
        assert(direction(a.1, b.1) == -1);
        assert(y == a.1 - uy);
    }
    if k == m {
        if dx >= dy {
            assert(ux == dx);
            if dx > 0 {
                assert(uy == dy) by (nonlinear_arith)
                    requires
                        -dx <= 2 * (dx * uy - dy * dx) <= dx,
                        dx > 0,
                        0 <= uy <= dy,
                ;
            }
        } else {
            assert(uy == dy);
            assert(ux == dx) by (nonlinear_arith)
                requires
                    -dy <= 2 * (dx * dy - dy * ux) <= dy,
                    dy > 0,
                    0 <= ux <= dx,
            ;
        }
    }
}

/// The points of the line from `a` to `b` that Bresenham's algorithm plots, from `a` to `b`.
pub fn bresenham(a: (u8, u8), b: (u8, u8)) -> (r: Vec<(u8, u8)>)
    ensures
        r@ == spec_bresenham(a, b),
{
    let x1 = b.0 as i32;
    let y1 = b.1 as i32;
    let mut x0 = a.0 as i32;
    let mut y0 = a.1 as i32;
    let dx: i32 = if x0 < x1 {
        x1 - x0
    } else {
        x0 - x1
    };
    let sx: i32 = if x0 < x1 {
        1
    } else {
        -1
    };
    let dy: i32 = -(if y0 < y1 {
        y1 - y0
    } else {
        y0 - y1
    });
    let sy: i32 = if y0 < y1 {
        1
    } else {
        -1
    };
    let mut err: i32 = dx + dy;
    let mut points: Vec<(u8, u8)> = Vec::new();
    let ghost m = line_steps(a, b);
    loop
        invariant_except_break
            points@.len() <= m,
            line_walk(a, b, points@.len()) == (x0 as int, y0 as int, err as int),
        invariant
            dx == distance(a.0, b.0),
            dy == -distance(a.1, b.1),
            sx == direction(a.0, b.0),
            sy == direction(a.1, b.1),
            x1 == b.0,
            y1 == b.1,
            m == line_steps(a, b),
            points@ == spec_bresenham(a, b).take(points@.len() as int),
        ensures
            points@ == spec_bresenham(a, b),
        decreases m - points@.len(),
    {
        let ghost k = points@.len();
        proof {
            lemma_walk(a, b, k);
            lemma_walk_end(a, b, k);
        }
        points.push((x0 as u8, y0 as u8));
        assert(points@ == spec_bresenham(a, b).take(k + 1 as int));
        if x0 == x1 && y0 == y1 {
            assert(points@ == spec_bresenham(a, b));
            break;
        }
        let e2 = 2 * err;
        if e2 >= dy {
            err += dy;
            x0 += sx;
        }
        if e2 <= dx {
            err += dx;
            y0 += sy;
        }
    }
    points
}


/// The plotted line has one point more than its larger extent, starts at `a` and ends at `b`.
pub proof fn law_bresenham_endpoints(a: (u8, u8), b: (u8, u8))
    ensures
        spec_bresenham(a, b).len() == line_steps(a, b) + 1,
        spec_bresenham(a, b)[0] == a,
        spec_bresenham(a, b).last() == b,
{
    let m = line_steps(a, b);
    lemma_walk_end(a, b, 0);
    lemma_walk_end(a, b, m);
}

/// Each point of the plotted line follows the one before it by one step towards `b` along
/// one or both axes, never away from `b`; along the longer axis it always moves.
pub proof fn law_bresenham_steps(a: (u8, u8), b: (u8, u8), k: int)
    requires
        0 <= k < line_steps(a, b),
    ensures
        ({
            let p = spec_bresenham(a, b)[k];
            let q = spec_bresenham(a, b)[k + 1];
            let c = progress(a, b, (p.0 as int, p.1 as int));
            let d = progress(a, b, (q.0 as int, q.1 as int));
            &&& d.0 == c.0 || d.0 == c.0 + 1
            &&& d.1 == c.1 || d.1 == c.1 + 1
            &&& distance(a.0, b.0) >= distance(a.1, b.1) ==> d.0 == c.0 + 1
            &&& distance(a.0, b.0) < distance(a.1, b.1) ==> d.1 == c.1 + 1
        }),
{
    lemma_walk(a, b, k as nat);
    lemma_walk(a, b, (k + 1) as nat);
    lemma_walk_end(a, b, k as nat);
    lemma_walk_end(a, b, (k + 1) as nat);
    lemma_walk_step(a, b, k as nat);
}

/// Every plotted point lies within half a step of the ideal line from `a` to `b`: scaled by
/// twice the larger extent, its distance across the line is at most that extent.
pub proof fn law_bresenham_near_line(a: (u8, u8), b: (u8, u8), k: int)
    requires
        0 <= k <= line_steps(a, b),
    ensures
        ({
            let p = spec_bresenham(a, b)[k];
            let u = progress(a, b, (p.0 as int, p.1 as int));
            let across = distance(a.0, b.0) * u.1 - distance(a.1, b.1) * u.0;
            -(line_steps(a, b) as int) <= 2 * across <= line_steps(a, b)
        }),
{
    lemma_walk(a, b, k as nat);
    lemma_walk_end(a, b, k as nat);
}

/// Every plotted point lies in the rectangle that `a` and `b` span.
pub proof fn law_bresenham_in_box(a: (u8, u8), b: (u8, u8), k: int)
    requires
        0 <= k <= line_steps(a, b),
    ensures
        ({
            let p = spec_bresenham(a, b)[k];
            &&& (a.0 <= p.0 <= b.0 || b.0 <= p.0 <= a.0)
            &&& (a.1 <= p.1 <= b.1 || b.1 <= p.1 <= a.1)
        }),
{
    lemma_walk(a, b, k as nat);
    lemma_walk_end(a, b, k as nat);
    let (x, y, _) = line_walk(a, b, k as nat);
    let (ux, uy) = progress(a, b, (x, y));
    if a.0 < b.0 {
        assert(x == a.0 + ux);
    } else {
        assert(direction(a.0, b.0) == -1);
        assert(x == a.0 - ux);
    }
    if a.1 < b.1 {
        assert(y == a.1 + uy);
    } else {
        assert(direction(a.1, b.1) == -1);
        assert(y == a.1 - uy);
    }
    assert(spec_bresenham(a, b)[k] == (x as u8, y as u8));
}

} // verus!
