//! The status bar's drawing primitives: single pixels, rectangle outlines,
//! filled discs, midpoint circles and Bresenham lines, on a canvas whose
//! pixels are stored row by row as `[R, G, B, A]` (the little-endian bytes of
//! `0xAABBGGRR`).
use vstd::prelude::*;
use crate::overlay::offset_fits;
use crate::session::UiState;

verus! {

/// Commands accepted by the status bar.
pub enum StatusBarCmd {
    UpdateState(UiState),
    Quit,
}

/// Byte `k` of a pixel of `color` with opacity `alpha`.
pub open spec fn rgba_byte(color: (u8, u8, u8), alpha: u8, k: int) -> u8 {
    if k == 0 {
        color.0
    } else if k == 1 {
        color.1
    } else if k == 2 {
        color.2
    } else {
        alpha
    }
}

/// Whether pixel (`x`, `y`) is drawn on a canvas of `len` bytes: it lies in
/// the `width` x `height` area and all four of its bytes are in the canvas.
pub open spec fn drawable(len: int, width: i32, height: i32, x: int, y: int) -> bool {
    &&& 0 <= x < width
    &&& 0 <= y < height
    &&& (y * width + x) * 4 + 3 < len
}

/// `canvas` with pixel `p` set to `color` and `alpha`, when it is drawable.
pub open spec fn paint_pixel(
    canvas: Seq<u8>,
    width: i32,
    height: i32,
    p: (int, int),
    color: (u8, u8, u8),
    alpha: u8,
) -> Seq<u8> {
    let i = (p.1 * width + p.0) * 4;
    if drawable(canvas.len() as int, width, height, p.0, p.1) {
        Seq::new(
            canvas.len(),
            |j: int|
                if i <= j < i + 4 {
                    rgba_byte(color, alpha, j - i)
                } else {
                    canvas[j]
                },
        )
    } else {
        canvas
    }
}

/// `canvas` after drawing the points `pts` in order.
pub open spec fn paint_points(
    canvas: Seq<u8>,
    width: i32,
    height: i32,
    pts: Seq<(int, int)>,
    color: (u8, u8, u8),
    alpha: u8,
) -> Seq<u8>
    decreases pts.len(),
{
    if pts.len() == 0 {
        canvas
    } else {
        paint_pixel(
            paint_points(canvas, width, height, pts.drop_last(), color, alpha),
            width,
            height,
            pts.last(),
            color,
            alpha,
        )
    }
}

/// Whether every point of `pts` has an offset that fits the machine
/// integers when it lies in the area (see [`offset_fits`]).
pub open spec fn points_fit(width: i32, height: i32, pts: Seq<(int, int)>) -> bool {
    forall|p: (int, int)| #[trigger] pts.contains(p) ==> offset_fits(width, height, p.0, p.1)
}

proof fn lemma_paint_push(
    canvas: Seq<u8>,
    width: i32,
    height: i32,
    pts: Seq<(int, int)>,
    p: (int, int),
    color: (u8, u8, u8),
    alpha: u8,
)
    ensures
        paint_points(canvas, width, height, pts.push(p), color, alpha) == paint_pixel(
            paint_points(canvas, width, height, pts, color, alpha),
            width,
            height,
            p,
            color,
            alpha,
        ),
{
    assert(pts.push(p).drop_last() =~= pts);
}

/// Sets pixel (`x`, `y`) to `color` with opacity `alpha`; pixels outside the
/// `width` x `height` area or beyond the canvas are skipped.
pub fn draw_pixel_safe(
    canvas: &mut [u8],
    width: i32,
    height: i32,
    x: i32,
    y: i32,
    color: (u8, u8, u8),
    alpha: u8,
)
    requires
        offset_fits(width, height, x as int, y as int),
    ensures
        final(canvas)@ == paint_pixel(old(canvas)@, width, height, (x as int, y as int), color, alpha),
{
    if x >= 0 && x < width && y >= 0 && y < height {
        assert(0 <= (y as int) * (width as int)) by (nonlinear_arith)
            requires
                0 <= y,
                0 < width,
        ;
        let pix = y * width + x;
        let idx = (pix as usize) * 4;
        if idx < canvas.len() && canvas.len() - idx > 3 {
            let (r, g, b) = color;
            canvas[idx] = r;
            canvas[idx + 1] = g;
            canvas[idx + 2] = b;
            canvas[idx + 3] = alpha;
            assert(canvas@ =~= paint_pixel(
                old(canvas)@,
                width,
                height,
                (x as int, y as int),
                color,
                alpha,
            ));
        } else {
            assert(canvas@ =~= paint_pixel(
                old(canvas)@,
                width,
                height,
                (x as int, y as int),
                color,
                alpha,
            ));
        }
    }
}

// ---------------------------------------------------------------------------
// Rectangle outlines
// ---------------------------------------------------------------------------

/// The top and bottom edges of the `w` x `h` rectangle at (`x`, `y`),
/// column by column: top pixel, then bottom pixel.
pub open spec fn rect_top_bottom(x: int, y: int, w: int, h: int) -> Seq<(int, int)> {
    Seq::new(
        (if w > 0 { 2 * w } else { 0 }) as nat,
        |i: int|
            if i % 2 == 0 {
                (x + i / 2, y)
            } else {
                (x + i / 2, y + h - 1)
            },
    )
}

/// The left and right edges, row by row: left pixel, then right pixel.
pub open spec fn rect_sides(x: int, y: int, w: int, h: int) -> Seq<(int, int)> {
    Seq::new(
        (if h > 0 { 2 * h } else { 0 }) as nat,
        |i: int|
            if i % 2 == 0 {
                (x, y + i / 2)
            } else {
                (x + w - 1, y + i / 2)
            },
    )
}

/// The pixels of a rectangle outline, in drawing order.
pub open spec fn rect_points(x: int, y: int, w: int, h: int) -> Seq<(int, int)> {
    rect_top_bottom(x, y, w, h) + rect_sides(x, y, w, h)
}

/// Draws the outline of the `w` x `h` rectangle whose top-left pixel is
/// (`x`, `y`).
pub fn draw_rect_outline(
    canvas: &mut [u8],
    width: i32,
    height: i32,
    x: i32,
    y: i32,
    w: i32,
    h: i32,
    color: (u8, u8, u8),
    alpha: u8,
)
    requires
        points_fit(width, height, rect_points(x as int, y as int, w as int, h as int)),
        i32::MIN <= x + w <= i32::MAX,
        i32::MIN <= y + h <= i32::MAX,
        w > 0 ==> y + h - 1 >= i32::MIN,
        h > 0 ==> x + w - 1 >= i32::MIN,
    ensures
        final(canvas)@ == paint_points(
            old(canvas)@,
            width,
            height,
            rect_points(x as int, y as int, w as int, h as int),
            color,
            alpha,
        ),
{
    let ghost base = canvas@;
    let ghost tb = rect_top_bottom(x as int, y as int, w as int, h as int);
    let ghost sides = rect_sides(x as int, y as int, w as int, h as int);
    let end_x = x + w;
    let mut px = x;
    assert(tb.take(0) =~= Seq::<(int, int)>::empty());
    while px < end_x
        invariant
            points_fit(width, height, tb + sides),
            sides == rect_sides(x as int, y as int, w as int, h as int),
            end_x == x + w,
            x <= px,
            w > 0 ==> px <= end_x,
            w <= 0 ==> px == x,
            i32::MIN <= y + h <= i32::MAX,
            w > 0 ==> y + h - 1 >= i32::MIN,
            tb == rect_top_bottom(x as int, y as int, w as int, h as int),
            canvas@ == paint_points(base, width, height, tb.take(2 * (px - x)), color, alpha),
        decreases end_x - px,
    {
        let bottom = y + h - 1;
        let ghost k = 2 * (px - x);
        proof {
            assert((tb + sides)[k] == tb[k] && (tb + sides)[k + 1] == tb[k + 1]);
            assert((tb + sides).contains(tb[k]) && (tb + sides).contains(tb[k + 1]));
        }
        draw_pixel_safe(canvas, width, height, px, y, color, alpha);
        proof {
            assert(tb.take(k).push(tb[k]) =~= tb.take(k + 1));
            lemma_paint_push(base, width, height, tb.take(k), tb[k], color, alpha);
        }
        draw_pixel_safe(canvas, width, height, px, bottom, color, alpha);
        proof {
            assert(tb.take(k + 1).push(tb[k + 1]) =~= tb.take(k + 2));
            lemma_paint_push(base, width, height, tb.take(k + 1), tb[k + 1], color, alpha);
        }
        px = px + 1;
    }
    assert(tb.take(2 * (px - x)) =~= tb);
    let end_y = y + h;
    let mut py = y;
    assert(tb + sides.take(0) =~= tb);
    while py < end_y
        invariant
            points_fit(width, height, tb + sides),
            tb == rect_top_bottom(x as int, y as int, w as int, h as int),
            end_y == y + h,
            y <= py,
            h > 0 ==> py <= end_y,
            h <= 0 ==> py == y,
            i32::MIN <= x + w <= i32::MAX,
            h > 0 ==> x + w - 1 >= i32::MIN,
            sides == rect_sides(x as int, y as int, w as int, h as int),
            canvas@ == paint_points(base, width, height, tb + sides.take(2 * (py - y)), color, alpha),
        decreases end_y - py,
    {
        let right = x + w - 1;
        let ghost k = 2 * (py - y);
        proof {
            assert((tb + sides)[tb.len() + k] == sides[k]);
            assert((tb + sides)[tb.len() + k + 1] == sides[k + 1]);
            assert((tb + sides).contains(sides[k]) && (tb + sides).contains(sides[k + 1]));
        }
        draw_pixel_safe(canvas, width, height, x, py, color, alpha);
        proof {
            assert((tb + sides.take(k)).push(sides[k]) =~= tb + sides.take(k + 1));
            lemma_paint_push(base, width, height, tb + sides.take(k), sides[k], color, alpha);
        }
        draw_pixel_safe(canvas, width, height, right, py, color, alpha);
        proof {
            assert((tb + sides.take(k + 1)).push(sides[k + 1]) =~= tb + sides.take(k + 2));
            lemma_paint_push(base, width, height, tb + sides.take(k + 1), sides[k + 1], color, alpha);
        }
        py = py + 1;
    }
    assert(tb + sides.take(2 * (py - y)) =~= rect_points(x as int, y as int, w as int, h as int));
}

// ---------------------------------------------------------------------------
// Filled discs
// ---------------------------------------------------------------------------

/// The first `n` columns (offsets `-r`, `-r + 1`, ...) of row `y` of the
/// disc of radius `r` centred on (`cx`, `cy`): those whose offset (`x`, `y`)
/// satisfies `x² + y² <= r²`.
pub open spec fn disc_row(cx: int, cy: int, r: int, y: int, n: int) -> Seq<(int, int)>
    decreases n,
{
    if n <= 0 {
        Seq::empty()
    } else {
        let x = -r + n - 1;
        if x * x + y * y <= r * r {
            disc_row(cx, cy, r, y, n - 1).push((cx + x, cy + y))
        } else {
            disc_row(cx, cy, r, y, n - 1)
        }
    }
}

/// The first `m` rows (offsets `-r`, `-r + 1`, ...) of the disc.
pub open spec fn disc_rows(cx: int, cy: int, r: int, m: int) -> Seq<(int, int)>
    decreases m,
{
    if m <= 0 {
        Seq::empty()
    } else {
        disc_rows(cx, cy, r, m - 1) + disc_row(cx, cy, r, -r + m - 1, 2 * r + 1)
    }
}

/// The pixels of a filled disc, row by row from the top.
pub open spec fn disc_points(cx: int, cy: int, r: int) -> Seq<(int, int)> {
    disc_rows(cx, cy, r, 2 * r + 1)
}

/// Fills the disc of radius `radius` centred on (`cx`, `cy`).
pub fn draw_circle_filled(
    canvas: &mut [u8],
    width: i32,
    height: i32,
    cx: i32,
    cy: i32,
    radius: i32,
    color: (u8, u8, u8),
    alpha: u8,
)
    requires
        points_fit(width, height, disc_points(cx as int, cy as int, radius as int)),
        radius > i32::MIN,
        radius >= 0 ==> {
            &&& 2 * radius * radius <= i32::MAX
            &&& i32::MIN <= cx - radius
            &&& cx + radius <= i32::MAX
            &&& i32::MIN <= cy - radius
            &&& cy + radius <= i32::MAX
        },
    ensures
        final(canvas)@ == paint_points(
            old(canvas)@,
            width,
            height,
            disc_points(cx as int, cy as int, radius as int),
            color,
            alpha,
        ),
{
    let ghost base = canvas@;
    let ghost r = radius as int;
    if radius < 0 {
        return;
    }
    assert(radius <= 32768 && 2 * (radius * radius) <= i32::MAX) by (nonlinear_arith)
        requires
            2 * radius * radius <= i32::MAX,
            radius >= 0,
    ;
    let mut y = -radius;
    while y <= radius
        invariant
            points_fit(width, height, disc_points(cx as int, cy as int, radius as int)),
            0 <= radius <= 32768,
            2 * (radius * radius) <= i32::MAX,
            i32::MIN <= cx - radius,
            cx + radius <= i32::MAX,
            i32::MIN <= cy - radius,
            cy + radius <= i32::MAX,
            r == radius,
            -radius <= y <= radius + 1,
            canvas@ == paint_points(base, width, height, disc_rows(cx as int, cy as int, r, y + r), color, alpha),
        decreases radius + 1 - y,
    {
        let ghost above = disc_rows(cx as int, cy as int, r, y + r);
        let mut x = -radius;
        while x <= radius
            invariant
                points_fit(width, height, disc_points(cx as int, cy as int, radius as int)),
                0 <= radius <= 32768,
                2 * (radius * radius) <= i32::MAX,
                i32::MIN <= cx - radius,
                cx + radius <= i32::MAX,
                i32::MIN <= cy - radius,
                cy + radius <= i32::MAX,
                r == radius,
                -radius <= y <= radius,
                -radius <= x <= radius + 1,
                above == disc_rows(cx as int, cy as int, r, y + r),
                canvas@ == paint_points(
                    base,
                    width,
                    height,
                    above + disc_row(cx as int, cy as int, r, y as int, x + r),
                    color,
                    alpha,
                ),
            decreases radius + 1 - x,
        {
            let ghost row = disc_row(cx as int, cy as int, r, y as int, x + r);
            assert(0 <= x * x <= radius * radius && 0 <= y * y <= radius * radius) by (nonlinear_arith)
                requires
                    -radius <= x <= radius,
                    -radius <= y <= radius,
            ;
            if x * x + y * y <= radius * radius {
                proof {
                    lemma_disc_points(cx as int, cy as int, r, (cx + x, cy + y));
                }
                draw_pixel_safe(canvas, width, height, cx + x, cy + y, color, alpha);
                proof {
                    assert((above + row).push((cx + x, cy + y)) =~= above + row.push(
                        (cx + x, cy + y),
                    ));
                    lemma_paint_push(base, width, height, above + row, (cx + x, cy + y), color, alpha);
                }
            }
            x = x + 1;
        }
        y = y + 1;
    }
}

proof fn lemma_contains_push(s: Seq<(int, int)>, a: (int, int), x: (int, int))
    ensures
        s.push(a).contains(x) <==> (s.contains(x) || x == a),
{
    if s.push(a).contains(x) {
        let i = choose|i: int| 0 <= i < s.push(a).len() && s.push(a)[i] == x;
        if i < s.len() {
            assert(s[i] == x);
        }
    }
    if s.contains(x) {
        let i = choose|i: int| 0 <= i < s.len() && s[i] == x;
        assert(s.push(a)[i] == x);
    }
    if x == a {
        assert(s.push(a)[s.len() as int] == a);
    }
}

proof fn lemma_contains_concat(s: Seq<(int, int)>, t: Seq<(int, int)>, x: (int, int))
    ensures
        (s + t).contains(x) <==> (s.contains(x) || t.contains(x)),
{
    if (s + t).contains(x) {
        let i = choose|i: int| 0 <= i < (s + t).len() && (s + t)[i] == x;
        if i < s.len() {
            assert(s[i] == x);
        } else {
            assert(t[i - s.len()] == x);
        }
    }
    if s.contains(x) {
        let i = choose|i: int| 0 <= i < s.len() && s[i] == x;
        assert((s + t)[i] == x);
    }
    if t.contains(x) {
        let i = choose|i: int| 0 <= i < t.len() && t[i] == x;
        assert((s + t)[s.len() + i] == x);
    }
}

proof fn lemma_disc_row_contains(cx: int, cy: int, r: int, y: int, n: int, p: (int, int))
    ensures
        disc_row(cx, cy, r, y, n).contains(p) <==> {
            &&& p.1 == cy + y
            &&& -r <= p.0 - cx < -r + n
            &&& (p.0 - cx) * (p.0 - cx) + y * y <= r * r
        },
    decreases n,
{
    if n > 0 {
        let x = -r + n - 1;
        lemma_disc_row_contains(cx, cy, r, y, n - 1, p);
        if x * x + y * y <= r * r {
            lemma_contains_push(disc_row(cx, cy, r, y, n - 1), (cx + x, cy + y), p);
        }
    }
}

proof fn lemma_disc_rows_contains(cx: int, cy: int, r: int, m: int, p: (int, int))
    ensures
        disc_rows(cx, cy, r, m).contains(p) <==> {
            &&& -r <= p.1 - cy < -r + m
            &&& -r <= p.0 - cx <= r
            &&& (p.0 - cx) * (p.0 - cx) + (p.1 - cy) * (p.1 - cy) <= r * r
        },
    decreases m,
{
    if m > 0 {
        let y = -r + m - 1;
        lemma_disc_rows_contains(cx, cy, r, m - 1, p);
        lemma_disc_row_contains(cx, cy, r, y, 2 * r + 1, p);
        lemma_contains_concat(disc_rows(cx, cy, r, m - 1), disc_row(cx, cy, r, y, 2 * r + 1), p);
    }
}

/// A filled disc holds exactly the pixels whose offset from the centre
/// satisfies `dx² + dy² <= r²`.
pub proof fn lemma_disc_points(cx: int, cy: int, r: int, p: (int, int))
    requires
        r >= 0,
    ensures
        disc_points(cx, cy, r).contains(p) <==> (p.0 - cx) * (p.0 - cx) + (p.1 - cy) * (p.1 - cy)
            <= r * r,
{
    lemma_disc_rows_contains(cx, cy, r, 2 * r + 1, p);
    let a = p.0 - cx;
    let b = p.1 - cy;
    if a * a + b * b <= r * r {
        assert(-r <= a <= r && -r <= b <= r) by (nonlinear_arith)
            requires
                a * a + b * b <= r * r,
                r >= 0,
        ;
    }
}

// ---------------------------------------------------------------------------
// Midpoint circles
// ---------------------------------------------------------------------------

/// The eight pixels symmetric to offset (`x`, `y`) around (`cx`, `cy`), in
/// drawing order.
pub open spec fn octant_points(cx: int, cy: int, x: int, y: int) -> Seq<(int, int)> {
    seq![
        (cx + x, cy + y),
        (cx - x, cy + y),
        (cx + x, cy - y),
        (cx - x, cy - y),
        (cx + y, cy + x),
        (cx - y, cy + x),
        (cx + y, cy - x),
        (cx - y, cy - x),
    ]
}

/// The midpoint algorithm from state (`x`, `y`) with decision value `d`:
/// while `x <= y`, the eight symmetric pixels of (`x`, `y`), then one step
/// along the octant.
pub open spec fn midpoint_from(cx: int, cy: int, x: int, y: int, d: int) -> Seq<(int, int)>
    decreases (if x <= y { y - x + 1 } else { 0 }),
{
    if x > y {
        Seq::empty()
    } else {
        let nx = x + 1;
        let ny = if d < 0 { y } else { y - 1 };
        let nd = if d < 0 { d + 2 * nx + 1 } else { d + 2 * (nx - ny) + 1 };
        octant_points(cx, cy, x, y) + midpoint_from(cx, cy, nx, ny, nd)
    }
}

/// The pixels of the midpoint circle of radius `r` centred on (`cx`, `cy`).
pub open spec fn circle_points(cx: int, cy: int, r: int) -> Seq<(int, int)> {
    midpoint_from(cx, cy, 0, r, 1 - r)
}

/// `|a|`.
pub open spec fn abs_int(a: int) -> int {
    if a < 0 {
        -a
    } else {
        a
    }
}

/// Whether pixel `p` lies on the circle of radius `r` around (`cx`, `cy`)
/// to within half a pixel along its major axis: with offsets `dx`, `dy` and
/// `m = max(|dx|, |dy|)`, `r² - m <= dx² + dy² <= r² + m` (as
/// `(m ± ½)² = m² ± m + ¼`).
pub open spec fn near_circle(cx: int, cy: int, r: int, p: (int, int)) -> bool {
    let dx = p.0 - cx;
    let dy = p.1 - cy;
    let m = if abs_int(dx) >= abs_int(dy) { abs_int(dx) } else { abs_int(dy) };
    r * r - m <= dx * dx + dy * dy <= r * r + m
}

proof fn lemma_octant_near(cx: int, cy: int, r: int, x: int, y: int)
    requires
        0 <= x <= y,
        r * r - y <= x * x + y * y <= r * r + y,
    ensures
        forall|k: int| 0 <= k < 8 ==> near_circle(cx, cy, r, #[trigger] octant_points(cx, cy, x, y)[k]),
{
    assert((-x) * (-x) == x * x && (-y) * (-y) == y * y) by (nonlinear_arith);
    let pts = octant_points(cx, cy, x, y);
    assert forall|k: int| 0 <= k < 8 implies near_circle(cx, cy, r, #[trigger] pts[k]) by {
        if k == 0 {
            assert(pts[k] == (cx + x, cy + y));
        } else if k == 1 {
            assert(pts[k] == (cx - x, cy + y));
        } else if k == 2 {
            assert(pts[k] == (cx + x, cy - y));
        } else if k == 3 {
            assert(pts[k] == (cx - x, cy - y));
        } else if k == 4 {
            assert(pts[k] == (cx + y, cy + x));
        } else if k == 5 {
            assert(pts[k] == (cx - y, cy + x));
        } else if k == 6 {
            assert(pts[k] == (cx + y, cy - x));
        } else {
            assert(pts[k] == (cx - y, cy - x));
        }
    }
}

proof fn lemma_midpoint_near(cx: int, cy: int, r: int, x: int, y: int, d: int)
    requires
        0 <= x,
        d == x * x + 2 * x + y * y - y + 1 - r * r,
        x <= y ==> 2 * x - 2 * y + 1 <= d <= 2 * x + 1,
    ensures
        forall|i: int|
            0 <= i < midpoint_from(cx, cy, x, y, d).len() ==> near_circle(
                cx,
                cy,
                r,
                #[trigger] midpoint_from(cx, cy, x, y, d)[i],
            ),
    decreases (if x <= y { y - x + 1 } else { 0 }),
{
    if x <= y {
        let nx = x + 1;
        let ny = if d < 0 { y } else { y - 1 };
        let nd = if d < 0 { d + 2 * nx + 1 } else { d + 2 * (nx - ny) + 1 };
        lemma_octant_near(cx, cy, r, x, y);
        assert(nd == nx * nx + 2 * nx + ny * ny - ny + 1 - r * r) by (nonlinear_arith)
            requires
                d == x * x + 2 * x + y * y - y + 1 - r * r,
                nx == x + 1,
                ny == y || ny == y - 1,
                ny == y ==> nd == d + 2 * nx + 1,
                ny == y - 1 ==> nd == d + 2 * (nx - ny) + 1,
        ;
        lemma_midpoint_near(cx, cy, r, nx, ny, nd);
        let pts = octant_points(cx, cy, x, y);
        let rest = midpoint_from(cx, cy, nx, ny, nd);
        assert(midpoint_from(cx, cy, x, y, d) == pts + rest);
        assert forall|i: int| 0 <= i < (pts + rest).len() implies near_circle(
            cx,
            cy,
            r,
            #[trigger] (pts + rest)[i],
        ) by {
            if i < 8 {
                assert((pts + rest)[i] == pts[i]);
            } else {
                assert((pts + rest)[i] == rest[i - 8]);
            }
        }
    }
}

/// Every pixel of a midpoint circle is within half a pixel of the true
/// circle: with offsets `dx`, `dy` from the centre and
/// `m = max(|dx|, |dy|)`, `r² - m <= dx² + dy² <= r² + m`.
pub proof fn lemma_circle_points_near(cx: int, cy: int, r: int)
    requires
        r >= 0,
    ensures
        forall|i: int|
            0 <= i < circle_points(cx, cy, r).len() ==> near_circle(
                cx,
                cy,
                r,
                #[trigger] circle_points(cx, cy, r)[i],
            ),
{
    lemma_midpoint_near(cx, cy, r, 0, r, 1 - r);
}

/// Draws the outline of the circle of radius `radius` centred on
/// (`cx`, `cy`) with the midpoint algorithm.
pub fn draw_circle(
    canvas: &mut [u8],
    width: i32,
    height: i32,
    cx: i32,
    cy: i32,
    radius: i32,
    color: (u8, u8, u8),
    alpha: u8,
)
    requires
        points_fit(width, height, circle_points(cx as int, cy as int, radius as int)),
        radius >= 0 ==> {
            &&& i32::MIN <= cx - radius
            &&& cx + radius <= i32::MAX
            &&& i32::MIN <= cy - radius
            &&& cy + radius <= i32::MAX
        },
    ensures
        final(canvas)@ == paint_points(
            old(canvas)@,
            width,
            height,
            circle_points(cx as int, cy as int, radius as int),
            color,
            alpha,
        ),
{
    let ghost base = canvas@;
    let ghost c = (cx as int, cy as int);
    if radius < 0 {
        return;
    }
    let mut x: i64 = 0;
    let mut y: i64 = radius as i64;
    let mut d: i128 = 1 - radius as i128;
    let ghost mut done: Seq<(int, int)> = Seq::empty();
    while x <= y
        invariant
            points_fit(width, height, circle_points(cx as int, cy as int, radius as int)),
            0 <= radius,
            i32::MIN <= cx - radius,
            cx + radius <= i32::MAX,
            i32::MIN <= cy - radius,
            cy + radius <= i32::MAX,
            0 <= x <= y + 2,
            y <= radius,
            x <= 0x8000_0002,
            -0x1_0000_0000 - x * 0x4_0000_0000 <= d <= 0x1_0000_0000 + x * 0x4_0000_0000,
            circle_points(cx as int, cy as int, radius as int) == done + midpoint_from(
                cx as int,
                cy as int,
                x as int,
                y as int,
                d as int,
            ),
            canvas@ == paint_points(base, width, height, done, color, alpha),
        decreases y + 2 - x,
    {
        let ghost pts = octant_points(cx as int, cy as int, x as int, y as int);
        let ghost rest = midpoint_from(cx as int, cy as int, x as int, y as int, d as int);
        let xi = x as i32;
        let yi = y as i32;
        let xs: [i32; 8] = [cx + xi, cx - xi, cx + xi, cx - xi, cx + yi, cx - yi, cx + yi, cx - yi];
        let ys: [i32; 8] = [cy + yi, cy + yi, cy - yi, cy - yi, cy + xi, cy + xi, cy - xi, cy - xi];
        proof {
            assert(rest =~= pts + midpoint_from(
                cx as int,
                cy as int,
                x + 1,
                if d < 0 { y as int } else { y - 1 },
                if d < 0 { d + 2 * (x + 1) + 1 } else { d + 2 * (x + 1 - (y - 1)) + 1 },
            ));
            assert forall|t: int| 0 <= t < 8 implies circle_points(
                cx as int,
                cy as int,
                radius as int,
            ).contains(#[trigger] pts[t]) by {
                assert(circle_points(cx as int, cy as int, radius as int)[done.len() + t] == pts[t]);
            }
        }
        let mut k: usize = 0;
        while k < 8
            invariant
                points_fit(width, height, circle_points(cx as int, cy as int, radius as int)),
                forall|t: int|
                    0 <= t < 8 ==> circle_points(cx as int, cy as int, radius as int).contains(
                        #[trigger] pts[t],
                    ),
                k <= 8,
                pts == octant_points(cx as int, cy as int, x as int, y as int),
                forall|t: int| 0 <= t < 8 ==> (xs@[t] as int, ys@[t] as int) == #[trigger] pts[t],
                canvas@ == paint_points(base, width, height, done + pts.take(k as int), color, alpha),
            decreases 8 - k,
        {
            proof {
                assert(circle_points(cx as int, cy as int, radius as int).contains(pts[k as int]));
            }
            draw_pixel_safe(canvas, width, height, xs[k], ys[k], color, alpha);
            proof {
                assert((done + pts.take(k as int)).push(pts[k as int]) =~= done + pts.take(k + 1));
                lemma_paint_push(base, width, height, done + pts.take(k as int), pts[k as int], color, alpha);
            }
            k = k + 1;
        }
        proof {
            assert(pts.take(8) =~= pts);
            assert(done + rest =~= (done + pts) + midpoint_from(
                cx as int,
                cy as int,
                x + 1,
                if d < 0 { y as int } else { y - 1 },
                if d < 0 { d + 2 * (x + 1) + 1 } else { d + 2 * (x + 1 - (y - 1)) + 1 },
            ));
            done = done + pts;
        }
        x = x + 1;
        if d < 0 {
            d = d + 2 * (x as i128) + 1;
        } else {
            y = y - 1;
            d = d + 2 * ((x - y) as i128) + 1;
        }
    }
    assert(midpoint_from(cx as int, cy as int, x as int, y as int, d as int) == Seq::<(int, int)>::empty());
    assert(done + Seq::<(int, int)>::empty() =~= done);
}

// ---------------------------------------------------------------------------
// Bresenham lines
// ---------------------------------------------------------------------------

/// The distance from `a` to `b` along one axis.
pub open spec fn dist(a: int, b: int) -> int {
    if a <= b {
        b - a
    } else {
        a - b
    }
}

/// The direction of a step from `a` towards `b`: `1`, or `-1` (also when
/// they are equal).
pub open spec fn step_dir(a: int, b: int) -> int {
    if a < b {
        1
    } else {
        -1
    }
}

/// One step of Bresenham's algorithm from (`x`, `y`) with error term `err`:
/// the next position and error term.
pub open spec fn line_step(x: int, y: int, err: int, dx: int, dy: int, sx: int, sy: int) -> (
    int,
    int,
    int,
) {
    let e2 = 2 * err;
    let nx = if e2 > -dy { x + sx } else { x };
    let err1 = if e2 > -dy { err - dy } else { err };
    let ny = if e2 < dx { y + sy } else { y };
    let err2 = if e2 < dx { err1 + dx } else { err1 };
    (nx, ny, err2)
}

/// The pixels Bresenham's algorithm visits from (`x`, `y`) until it reaches
/// (`x1`, `y1`), taking at most `fuel` steps.
pub open spec fn line_from(
    x: int,
    y: int,
    err: int,
    x1: int,
    y1: int,
    dx: int,
    dy: int,
    sx: int,
    sy: int,
    fuel: nat,
) -> Seq<(int, int)>
    decreases fuel,
{
    if fuel == 0 || (x == x1 && y == y1) {
        seq![(x, y)]
    } else {
        let (nx, ny, nerr) = line_step(x, y, err, dx, dy, sx, sy);
        seq![(x, y)] + line_from(nx, ny, nerr, x1, y1, dx, dy, sx, sy, (fuel - 1) as nat)
    }
}

/// The pixels of the Bresenham line from (`x0`, `y0`) to (`x1`, `y1`).
pub open spec fn line_points(x0: int, y0: int, x1: int, y1: int) -> Seq<(int, int)> {
    let dx = dist(x0, x1);
    let dy = dist(y0, y1);
    line_from(x0, y0, dx - dy, x1, y1, dx, dy, step_dir(x0, x1), step_dir(y0, y1), (dx + dy) as nat)
}

/// How far `a` has moved from `a0` in direction `s`.
pub open spec fn progress(a0: int, a: int, s: int) -> int {
    if s == 1 {
        a - a0
    } else {
        a0 - a
    }
}

/// The state invariant of a line in progress: each coordinate has moved
/// from the start towards the end without passing it, the error term is
/// the one those moves produce and stays bounded, and `fuel` covers the
/// moves left.
pub open spec fn line_state_ok(
    x0: int,
    y0: int,
    x1: int,
    y1: int,
    x: int,
    y: int,
    err: int,
    fuel: int,
) -> bool {
    let dx = dist(x0, x1);
    let dy = dist(y0, y1);
    let px = progress(x0, x, step_dir(x0, x1));
    let py = progress(y0, y, step_dir(y0, y1));
    &&& 0 <= px <= dx
    &&& 0 <= py <= dy
    &&& err == dx - dy - px * dy + py * dx
    &&& -3 * dy <= 2 * err <= 3 * dx
    &&& fuel >= (dx - px) + (dy - py)
}

/// A step away from an unfinished state moves each coordinate by at most
/// one, moves at least one of them, and keeps the invariant with one unit of
/// fuel less.
proof fn lemma_line_step(x0: int, y0: int, x1: int, y1: int, x: int, y: int, err: int, fuel: int)
    requires
        line_state_ok(x0, y0, x1, y1, x, y, err, fuel),
        !(x == x1 && y == y1),
    ensures
        fuel >= 1,
        ({
            let (nx, ny, nerr) = line_step(
                x,
                y,
                err,
                dist(x0, x1),
                dist(y0, y1),
                step_dir(x0, x1),
                step_dir(y0, y1),
            );
            &&& line_state_ok(x0, y0, x1, y1, nx, ny, nerr, fuel - 1)
            &&& -1 <= nx - x <= 1
            &&& -1 <= ny - y <= 1
        }),
{
    let dx = dist(x0, x1);
    let dy = dist(y0, y1);
    let sx = step_dir(x0, x1);
    let sy = step_dir(y0, y1);
    let px = progress(x0, x, sx);
    let py = progress(y0, y, sy);
    let e2 = 2 * err;
    let mx = e2 > -dy;
    let my = e2 < dx;
    // Reaching the end on one axis means `px == dx` (or `py == dy`).
    assert((x == x1) == (px == dx));
    assert((y == y1) == (py == dy));
    if px == dx && py < dy {
        assert(dx * (1 - dy + py) <= 0) by (nonlinear_arith)
            requires
                dx >= 0,
                1 - dy + py <= 0,
        ;
        assert(err == dx * (1 - dy + py) - dy) by (nonlinear_arith)
            requires
                err == dx - dy - px * dy + py * dx,
                px == dx,
        ;
        assert(!mx);
    }
    if py == dy && px < dx {
        assert(dy * (1 + px - dx) <= 0) by (nonlinear_arith)
            requires
                dy >= 0,
                1 + px - dx <= 0,
        ;
        assert(err == dx - dy * (1 + px - dx)) by (nonlinear_arith)
            requires
                err == dx - dy - px * dy + py * dx,
                py == dy,
        ;
        assert(!my);
    }
    let npx = if mx { px + 1 } else { px };
    let npy = if my { py + 1 } else { py };
    let nerr = err - (if mx { dy } else { 0 }) + (if my { dx } else { 0 });
    assert(nerr == dx - dy - npx * dy + npy * dx) by (nonlinear_arith)
        requires
            err == dx - dy - px * dy + py * dx,
            npx == px || npx == px + 1,
            npy == py || npy == py + 1,
            nerr == err - (if npx == px + 1 { dy } else { 0 }) + (if npy == py + 1 { dx } else { 0 }),
    ;
    assert(mx || my);
}

/// A Bresenham line starts at its first endpoint, ends at its second, and
/// every pixel touches the previous one (8-connected): no gaps.
pub proof fn lemma_line_shape(x0: int, y0: int, x1: int, y1: int)
    ensures
        line_points(x0, y0, x1, y1).len() >= 1,
        line_points(x0, y0, x1, y1)[0] == (x0, y0),
        line_points(x0, y0, x1, y1).last() == (x1, y1),
        forall|i: int|
            0 <= i < line_points(x0, y0, x1, y1).len() - 1 ==> {
                &&& -1 <= #[trigger] line_points(x0, y0, x1, y1)[i + 1].0 - line_points(
                    x0,
                    y0,
                    x1,
                    y1,
                )[i].0 <= 1
                &&& -1 <= line_points(x0, y0, x1, y1)[i + 1].1 - line_points(x0, y0, x1, y1)[i].1
                    <= 1
            },
{
    let dx = dist(x0, x1);
    let dy = dist(y0, y1);
    lemma_line_from_shape(x0, y0, x1, y1, x0, y0, dx - dy, dx + dy);
}

proof fn lemma_line_from_shape(
    x0: int,
    y0: int,
    x1: int,
    y1: int,
    x: int,
    y: int,
    err: int,
    fuel: int,
)
    requires
        line_state_ok(x0, y0, x1, y1, x, y, err, fuel),
    ensures
        ({
            let pts = line_from(
                x,
                y,
                err,
                x1,
                y1,
                dist(x0, x1),
                dist(y0, y1),
                step_dir(x0, x1),
                step_dir(y0, y1),
                fuel as nat,
            );
            &&& pts.len() >= 1
            &&& pts[0] == (x, y)
            &&& pts.last() == (x1, y1)
            &&& forall|i: int|
                0 <= i < pts.len() - 1 ==> {
                    &&& -1 <= #[trigger] pts[i + 1].0 - pts[i].0 <= 1
                    &&& -1 <= pts[i + 1].1 - pts[i].1 <= 1
                }
        }),
    decreases fuel,
{
    let dx = dist(x0, x1);
    let dy = dist(y0, y1);
    let sx = step_dir(x0, x1);
    let sy = step_dir(y0, y1);
    let pts = line_from(x, y, err, x1, y1, dx, dy, sx, sy, fuel as nat);
    if !(x == x1 && y == y1) {
        lemma_line_step(x0, y0, x1, y1, x, y, err, fuel);
        let (nx, ny, nerr) = line_step(x, y, err, dx, dy, sx, sy);
        lemma_line_from_shape(x0, y0, x1, y1, nx, ny, nerr, fuel - 1);
        let rest = line_from(nx, ny, nerr, x1, y1, dx, dy, sx, sy, (fuel - 1) as nat);
        assert(pts == seq![(x, y)] + rest);
        assert forall|i: int| 0 <= i < pts.len() - 1 implies {
            &&& -1 <= #[trigger] pts[i + 1].0 - pts[i].0 <= 1
            &&& -1 <= pts[i + 1].1 - pts[i].1 <= 1
        } by {
            assert(pts[i + 1] == rest[i]);
            if i > 0 {
                let j = i - 1;
                assert(pts[i] == rest[j]);
                assert(-1 <= rest[j + 1].0 - rest[j].0 <= 1);
                assert(-1 <= rest[j + 1].1 - rest[j].1 <= 1);
            } else {
                assert(rest[0] == (nx, ny));
            }
        }
    }
}

/// Draws the line from (`x0`, `y0`) to (`x1`, `y1`) with Bresenham's
/// algorithm.
pub fn draw_line(
    canvas: &mut [u8],
    width: i32,
    height: i32,
    x0: i32,
    y0: i32,
    x1: i32,
    y1: i32,
    color: (u8, u8, u8),
    alpha: u8,
)
    requires
        points_fit(width, height, line_points(x0 as int, y0 as int, x1 as int, y1 as int)),
    ensures
        final(canvas)@ == paint_points(
            old(canvas)@,
            width,
            height,
            line_points(x0 as int, y0 as int, x1 as int, y1 as int),
            color,
            alpha,
        ),
{
    let ghost base = canvas@;
    let ghost all = line_points(x0 as int, y0 as int, x1 as int, y1 as int);
    let dx: i64 = if x0 <= x1 {
        x1 as i64 - x0 as i64
    } else {
        x0 as i64 - x1 as i64
    };
    let dy: i64 = if y0 <= y1 {
        y1 as i64 - y0 as i64
    } else {
        y0 as i64 - y1 as i64
    };
    let sx: i32 = if x0 < x1 {
        1
    } else {
        -1
    };
    let sy: i32 = if y0 < y1 {
        1
    } else {
        -1
    };
    let mut err: i64 = dx - dy;
    let mut x = x0;
    let mut y = y0;
    let ghost mut fuel: int = dx + dy;
    let ghost mut done: Seq<(int, int)> = Seq::empty();
    assert(all == done + line_from(
        x as int,
        y as int,
        err as int,
        x1 as int,
        y1 as int,
        dx as int,
        dy as int,
        sx as int,
        sy as int,
        fuel as nat,
    ));
    loop
        invariant_except_break
            all == done + line_from(
                x as int,
                y as int,
                err as int,
                x1 as int,
                y1 as int,
                dx as int,
                dy as int,
                sx as int,
                sy as int,
                fuel as nat,
            ),
            canvas@ == paint_points(base, width, height, done, color, alpha),
        invariant
            points_fit(width, height, all),
            dx == dist(x0 as int, x1 as int),
            dy == dist(y0 as int, y1 as int),
            sx == step_dir(x0 as int, x1 as int),
            sy == step_dir(y0 as int, y1 as int),
            0 <= dx <= 0xffff_ffff,
            0 <= dy <= 0xffff_ffff,
            fuel >= 0,
            line_state_ok(x0 as int, y0 as int, x1 as int, y1 as int, x as int, y as int, err as int, fuel),
            all == line_points(x0 as int, y0 as int, x1 as int, y1 as int),
        ensures
            canvas@ == paint_points(base, width, height, all, color, alpha),
        decreases (dx - progress(x0 as int, x as int, sx as int)) + (dy - progress(
            y0 as int,
            y as int,
            sy as int,
        )),
    {
        proof {
            assert(all[done.len() as int] == (x as int, y as int));
            assert(all.contains((x as int, y as int)));
        }
        draw_pixel_safe(canvas, width, height, x, y, color, alpha);
        proof {
            lemma_paint_push(base, width, height, done, (x as int, y as int), color, alpha);
        }
        if x == x1 && y == y1 {
            proof {
                assert(all =~= done.push((x as int, y as int)));
            }
            break;
        }
        proof {
            lemma_line_step(x0 as int, y0 as int, x1 as int, y1 as int, x as int, y as int, err as int, fuel);
            assert(all =~= done.push((x as int, y as int)) + line_from(
                line_step(x as int, y as int, err as int, dx as int, dy as int, sx as int, sy as int).0,
                line_step(x as int, y as int, err as int, dx as int, dy as int, sx as int, sy as int).1,
                line_step(x as int, y as int, err as int, dx as int, dy as int, sx as int, sy as int).2,
                x1 as int,
                y1 as int,
                dx as int,
                dy as int,
                sx as int,
                sy as int,
                (fuel - 1) as nat,
            ));
            done = done.push((x as int, y as int));
            fuel = fuel - 1;
        }
        let e2 = 2 * err;
        if e2 > -dy {
            err = err - dy;
            x = x + sx;
        }
        if e2 < dx {
            err = err + dx;
            y = y + sy;
        }
    }
}

} // verus!
