//! Integer Bresenham line rasterization.
//!
//! A line is first brought into a canonical form: if it is steep (taller
//! than wide) the roles of x and y are transposed, and the endpoints are
//! reordered so iteration runs left to right. The same canonical form is
//! reached from either endpoint order, which makes the drawn pixel set
//! independent of the draw direction.

use crate::fixed::iabs;
use crate::geometry::Vertex2;
use vstd::prelude::*;

verus! {

/// Bound on the endpoint coordinates under which the error accumulator
/// cannot overflow `i64`.
pub const LINE_LIMIT: i64 = 0x2000_0000;

/// The line is steep: taller than it is wide.
pub open spec fn line_steep(x0: int, y0: int, x1: int, y1: int) -> bool {
    iabs(x1 - x0) < iabs(y1 - y0)
}

/// The pixels of one Bresenham run from `x` to `x1` inclusive, stepping
/// `x` by one and `y` by `ystep` whenever the accumulated error exceeds
/// `dx`. When `steep` holds the stored pixel is transposed back.
pub open spec fn bres_rec(
    x: int,
    y: int,
    err: int,
    x1: int,
    dx: int,
    dy2: int,
    ystep: int,
    steep: bool,
) -> Seq<Vertex2<i64>>
    decreases x1 + 1 - x,
{
    if x > x1 {
        Seq::empty()
    } else {
        let pix = if steep {
            Vertex2 { x: y as i64, y: x as i64 }
        } else {
            Vertex2 { x: x as i64, y: y as i64 }
        };
        let err2 = err + dy2;
        if err2 > dx {
            seq![pix] + bres_rec(x + 1, y + ystep, err2 - 2 * dx, x1, dx, dy2, ystep, steep)
        } else {
            seq![pix] + bres_rec(x + 1, y, err2, x1, dx, dy2, ystep, steep)
        }
    }
}

/// The canonical endpoints of the line: transposed when steep, then
/// ordered left to right.
pub open spec fn line_canon(x0: int, y0: int, x1: int, y1: int) -> (int, int, int, int) {
    let (a0, b0, a1, b1) = if line_steep(x0, y0, x1, y1) {
        (y0, x0, y1, x1)
    } else {
        (x0, y0, x1, y1)
    };
    if a0 > a1 {
        (a1, b1, a0, b0)
    } else {
        (a0, b0, a1, b1)
    }
}

/// The pixels drawn for the line from `(x0, y0)` to `(x1, y1)`, in
/// drawing order.
pub open spec fn line_pixels(x0: int, y0: int, x1: int, y1: int) -> Seq<Vertex2<i64>> {
    let steep = line_steep(x0, y0, x1, y1);
    let (c0, d0, c1, d1) = line_canon(x0, y0, x1, y1);
    bres_rec(c0, d0, 0, c1, c1 - c0, 2 * iabs(d1 - d0), if d0 > d1 {
        -1
    } else {
        1
    }, steep)
}

/// Law: the line is symmetric: drawing from `(x0, y0)` to `(x1, y1)`
/// yields exactly the pixels, in the same order, as drawing from
/// `(x1, y1)` to `(x0, y0)`.
pub proof fn lemma_line_symmetric(x0: int, y0: int, x1: int, y1: int)
    ensures
        line_pixels(x0, y0, x1, y1) == line_pixels(x1, y1, x0, y0),
{
    if !line_steep(x0, y0, x1, y1) && x0 == x1 {
        assert(y0 == y1);
    }
    if line_steep(x0, y0, x1, y1) && y0 == y1 {
        assert(false);
    }
}

/// A Bresenham run covers one pixel per column.
pub proof fn lemma_bres_len(
    x: int,
    y: int,
    err: int,
    x1: int,
    dx: int,
    dy2: int,
    ystep: int,
    steep: bool,
)
    requires
        x <= x1,
    ensures
        bres_rec(x, y, err, x1, dx, dy2, ystep, steep).len() == x1 + 1 - x,
    decreases x1 + 1 - x,
{
    let err2 = err + dy2;
    if x < x1 {
        if err2 > dx {
            lemma_bres_len(x + 1, y + ystep, err2 - 2 * dx, x1, dx, dy2, ystep, steep);
        } else {
            lemma_bres_len(x + 1, y, err2, x1, dx, dy2, ystep, steep);
        }
    } else {
        assert(bres_rec(x + 1, y + ystep, err2 - 2 * dx, x1, dx, dy2, ystep, steep).len() == 0);
        assert(bres_rec(x + 1, y, err2, x1, dx, dy2, ystep, steep).len() == 0);
    }
}

/// Draws the line from `(x0, y0)` to `(x1, y1)` and returns the pixels
/// it covers, in drawing order. A zero-length line covers exactly its
/// single point.
pub fn line(x0: i64, y0: i64, x1: i64, y1: i64) -> (r: Vec<Vertex2<i64>>)
    requires
        -LINE_LIMIT <= x0 <= LINE_LIMIT,
        -LINE_LIMIT <= y0 <= LINE_LIMIT,
        -LINE_LIMIT <= x1 <= LINE_LIMIT,
        -LINE_LIMIT <= y1 <= LINE_LIMIT,
    ensures
        r@ == line_pixels(x0 as int, y0 as int, x1 as int, y1 as int),
        r@.len() >= 1,
{
    let steep: bool = {
        let adx: i64 = if x1 >= x0 {
            x1 - x0
        } else {
            x0 - x1
        };
        let ady: i64 = if y1 >= y0 {
            y1 - y0
        } else {
            y0 - y1
        };
        adx < ady
    };
    let (mut a0, mut b0, mut a1, mut b1): (i64, i64, i64, i64) = if steep {
        (y0, x0, y1, x1)
    } else {
        (x0, y0, x1, y1)
    };
    if a0 > a1 {
        let ta: i64 = a0;
        let tb: i64 = b0;
        a0 = a1;
        b0 = b1;
        a1 = ta;
        b1 = tb;
    }
    let dx: i64 = a1 - a0;
    let dy2: i64 = if b1 >= b0 {
        2 * (b1 - b0)
    } else {
        2 * (b0 - b1)
    };
    let ystep: i64 = if b0 > b1 {
        -1
    } else {
        1
    };
    let ghost full = line_pixels(x0 as int, y0 as int, x1 as int, y1 as int);
    let mut r: Vec<Vertex2<i64>> = Vec::new();
    let mut x: i64 = a0;
    let mut y: i64 = b0;
    let mut err: i64 = 0;
    proof {
        assert(iabs(b1 as int - b0 as int) <= a1 - a0);
        assert(full == bres_rec(
            a0 as int,
            b0 as int,
            0,
            a1 as int,
            dx as int,
            dy2 as int,
            ystep as int,
            steep,
        ));
        lemma_bres_len(
            a0 as int,
            b0 as int,
            0,
            a1 as int,
            dx as int,
            dy2 as int,
            ystep as int,
            steep,
        );
        assert(Seq::<Vertex2<i64>>::empty() + bres_rec(
            a0 as int,
            b0 as int,
            0,
            a1 as int,
            dx as int,
            dy2 as int,
            ystep as int,
            steep,
        ) =~= bres_rec(
            a0 as int,
            b0 as int,
            0,
            a1 as int,
            dx as int,
            dy2 as int,
            ystep as int,
            steep,
        ));
    }
    while x <= a1
        invariant
            a0 <= x <= a1 + 1,
            -LINE_LIMIT <= a0 <= LINE_LIMIT,
            -LINE_LIMIT <= a1 <= LINE_LIMIT,
            -LINE_LIMIT <= b0 <= LINE_LIMIT,
            -LINE_LIMIT <= b1 <= LINE_LIMIT,
            dx == a1 - a0,
            dy2 == 2 * iabs(b1 as int - b0 as int),
            dy2 <= 2 * dx,
            ystep == (if b0 > b1 {
                -1int
            } else {
                1int
            }),
            iabs(y as int - b0 as int) <= x - a0,
            -(dx + dy2) <= err <= dx + dy2,
            full == r@ + bres_rec(
                x as int,
                y as int,
                err as int,
                a1 as int,
                dx as int,
                dy2 as int,
                ystep as int,
                steep,
            ),
        decreases a1 + 1 - x,
    {
        let pix: Vertex2<i64> = if steep {
            Vertex2 { x: y, y: x }
        } else {
            Vertex2 { x, y }
        };
        let ghost oldr = r@;
        let ghost rest = bres_rec(
            x as int,
            y as int,
            err as int,
            a1 as int,
            dx as int,
            dy2 as int,
            ystep as int,
            steep,
        );
        r.push(pix);
        err = err + dy2;
        if err > dx {
            y = y + ystep;
            err = err - 2 * dx;
        }
        proof {
            let rest2 = bres_rec(
                x + 1,
                y as int,
                err as int,
                a1 as int,
                dx as int,
                dy2 as int,
                ystep as int,
                steep,
            );
            assert(rest =~= seq![pix] + rest2);
            assert(oldr + rest =~= oldr.push(pix) + rest2);
            assert(full == r@ + rest2);
        }
        x = x + 1;
    }
    proof {
        assert(bres_rec(
            x as int,
            y as int,
            err as int,
            a1 as int,
            dx as int,
            dy2 as int,
            ystep as int,
            steep,
        ) =~= Seq::<Vertex2<i64>>::empty());
        assert(full =~= r@);
    }
    r
}

} // verus!
