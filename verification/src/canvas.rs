//! The canvas: vector-like primitives (points, lines, a pre-baked world
//! outline) projected from a continuous coordinate space onto the
//! character grid. Coordinates are fixed-point: millionths of a degree,
//! so the world spans `-180_000_000 .. 180_000_000` in x (longitude) and
//! `-90_000_000 .. 90_000_000` in y (latitude, positive up).
//!
//! Shapes are drawn in order and a later shape overwrites an earlier one
//! at the same cell: the sequence of shapes is the layering.

use vstd::prelude::*;

use crate::buffer::{spec_set, Buffer};
use crate::geometry::Rect;
use crate::style::{Cell, Color, Style};
use crate::widgets::{
    cell_of, lemma_block_preserves, lemma_inner_within, lemma_preserves_mono,
    lemma_set_preserves, preserves_outside, spec_block, spec_block_view, Block,
};

verus! {

/// The largest magnitude a projection bound may have; keeps every
/// intermediate product inside the machine's integers.
pub const BOUND_LIMIT: i64 = 2_000_000_000;

pub open spec fn valid_bounds(lo: i64, hi: i64) -> bool {
    -BOUND_LIMIT <= lo < hi <= BOUND_LIMIT
}

/// Linear scaling of `v` from `lo .. hi` onto `0 .. n` cells, the top
/// value clamped onto the last cell.
pub open spec fn spec_scale(v: i64, lo: i64, hi: i64, n: int) -> int {
    let q = (v - lo) * n / (hi - lo);
    if q >= n {
        n - 1
    } else {
        q
    }
}

/// The cell a coordinate lands on: columns grow with x, rows grow
/// against y (canvas y-up, screen row-down). Out-of-bounds coordinates
/// and degenerate rectangles project to nothing.
pub open spec fn spec_project(
    x: i64,
    y: i64,
    xlo: i64,
    xhi: i64,
    ylo: i64,
    yhi: i64,
    area: Rect,
) -> Option<(int, int)> {
    if xlo <= x <= xhi && ylo <= y <= yhi && area.width > 0 && area.height > 0 {
        Some(
            (
                area.x + spec_scale(x, xlo, xhi, area.width as int),
                area.y + area.height - 1 - spec_scale(y, ylo, yhi, area.height as int),
            ),
        )
    } else {
        None
    }
}

proof fn lemma_scale_in_range(v: i64, lo: i64, hi: i64, n: int)
    requires
        valid_bounds(lo, hi),
        lo <= v <= hi,
        0 < n,
    ensures
        0 <= spec_scale(v, lo, hi, n) < n,
{
    let d = hi - lo;
    vstd::arithmetic::div_mod::lemma_div_pos_is_pos((v - lo) * n, d);
    assert((v - lo) * n >= 0) by (nonlinear_arith)
        requires
            v - lo >= 0,
            n > 0,
    ;
    assert((v - lo) * n <= d * n) by (nonlinear_arith)
        requires
            0 <= v - lo <= d,
            n > 0,
    ;
    vstd::arithmetic::div_mod::lemma_div_is_ordered((v - lo) * n, d * n, d);
    vstd::arithmetic::div_mod::lemma_div_multiples_vanish(n, d);
}

/// Project a coordinate onto the cell grid of `area`. For every
/// coordinate inside the bounds the projected cell lies inside `area`;
/// a coordinate outside the bounds is never given a cell.
pub fn project(x: i64, y: i64, xlo: i64, xhi: i64, ylo: i64, yhi: i64, area: &Rect) -> (r: Option<
    (u16, u16),
>)
    requires
        valid_bounds(xlo, xhi),
        valid_bounds(ylo, yhi),
        area.wf(),
    ensures
        r is Some <==> spec_project(x, y, xlo, xhi, ylo, yhi, *area) is Some,
        r matches Some(p) ==> spec_project(x, y, xlo, xhi, ylo, yhi, *area) == Some(
            (p.0 as int, p.1 as int),
        ) && area.contains(p.0 as int, p.1 as int),
{
    if x < xlo || x > xhi || y < ylo || y > yhi || area.width == 0 || area.height == 0 {
        return None;
    }
    proof {
        lemma_scale_in_range(x, xlo, xhi, area.width as int);
        lemma_scale_in_range(y, ylo, yhi, area.height as int);
        assert((x - xlo) as int * (area.width as int) <= 0x100000000 * 0x10000)
            by (nonlinear_arith)
            requires
                0 <= (x - xlo) as int <= 0x100000000,
                0 <= area.width as int <= 0x10000,
        ;
        assert((y - ylo) as int * (area.height as int) <= 0x100000000 * 0x10000)
            by (nonlinear_arith)
            requires
                0 <= (y - ylo) as int <= 0x100000000,
                0 <= area.height as int <= 0x10000,
        ;
    }
    let dx: u64 = (x - xlo) as u64;
    let sx: u64 = (xhi - xlo) as u64;
    let mut qx: u64 = dx * (area.width as u64) / sx;
    if qx >= area.width as u64 {
        qx = (area.width - 1) as u64;
    }
    let dy: u64 = (y - ylo) as u64;
    let sy: u64 = (yhi - ylo) as u64;
    let mut qy: u64 = dy * (area.height as u64) / sy;
    if qy >= area.height as u64 {
        qy = (area.height - 1) as u64;
    }
    let col: u16 = area.x + (qx as u16);
    let row: u16 = area.y + area.height - 1 - (qy as u16);
    Some((col, row))
}

#[derive(Clone, Copy, PartialEq, Eq, Structural, Debug)]
pub enum MapResolution {
    Low,
    High,
}

/// A drawable primitive: a single dot, a straight segment, or the
/// pre-baked world coastline outline at the chosen resolution tier. A
/// set of points is a run of `Point` shapes.
#[derive(Clone, Copy, PartialEq, Eq, Structural, Debug)]
pub enum Shape {
    Point { x: i64, y: i64, color: Color },
    Line { x1: i64, y1: i64, x2: i64, y2: i64, color: Color },
    WorldMap { resolution: MapResolution, color: Color },
}

/// The dot painted for a shape's color.
pub open spec fn spec_dot(color: Color) -> Cell {
    Cell { symbol: '*', style: Style { fg: color, bg: Color::Reset, modifier: crate::style::Modifier::Plain } }
}

/// Each coordinate that projects onto a cell gets a dot; the rest are
/// dropped.
pub open spec fn spec_points(
    cells: Seq<Cell>,
    w: int,
    h: int,
    xlo: i64,
    xhi: i64,
    ylo: i64,
    yhi: i64,
    inner: Rect,
    coords: Seq<(i64, i64)>,
    i: int,
    dot: Cell,
) -> Seq<Cell>
    decreases coords.len() - i,
{
    if i < 0 || i >= coords.len() {
        cells
    } else {
        let next = match spec_project(coords[i].0, coords[i].1, xlo, xhi, ylo, yhi, inner) {
            Some(p) => spec_set(cells, w, h, p.0, p.1, dot),
            None => cells,
        };
        spec_points(next, w, h, xlo, xhi, ylo, yhi, inner, coords, i + 1, dot)
    }
}

/// The cell `s` steps along the rasterized segment from `(c0, r0)`
/// toward `(c1, r1)`, out of `steps` equal increments.
pub open spec fn spec_line_cell(c0: int, r0: int, c1: int, r1: int, steps: int, s: int) -> (
    int,
    int,
) {
    if steps <= 0 {
        (c0, r0)
    } else {
        let adc = if c1 >= c0 {
            c1 - c0
        } else {
            c0 - c1
        };
        let adr = if r1 >= r0 {
            r1 - r0
        } else {
            r0 - r1
        };
        let offc = adc * s / steps;
        let offr = adr * s / steps;
        let pc = if c1 >= c0 {
            c0 + offc
        } else {
            c0 - offc
        };
        let pr = if r1 >= r0 {
            r0 + offr
        } else {
            r0 - offr
        };
        (pc, pr)
    }
}

/// Dots along the segment, step `s` through `steps`.
pub open spec fn spec_line_dots(
    cells: Seq<Cell>,
    w: int,
    h: int,
    c0: int,
    r0: int,
    c1: int,
    r1: int,
    steps: int,
    s: int,
    dot: Cell,
) -> Seq<Cell>
    decreases steps - s + 1,
{
    if s < 0 || s > steps {
        cells
    } else {
        let p = spec_line_cell(c0, r0, c1, r1, steps, s);
        spec_line_dots(
            spec_set(cells, w, h, p.0, p.1, dot),
            w,
            h,
            c0,
            r0,
            c1,
            r1,
            steps,
            s + 1,
            dot,
        )
    }
}

/// A straight segment between two projected endpoints; a segment with
/// an endpoint out of bounds is dropped.
pub open spec fn spec_line(
    cells: Seq<Cell>,
    w: int,
    h: int,
    xlo: i64,
    xhi: i64,
    ylo: i64,
    yhi: i64,
    inner: Rect,
    x1: i64,
    y1: i64,
    x2: i64,
    y2: i64,
    dot: Cell,
) -> Seq<Cell> {
    let p1 = spec_project(x1, y1, xlo, xhi, ylo, yhi, inner);
    let p2 = spec_project(x2, y2, xlo, xhi, ylo, yhi, inner);
    match (p1, p2) {
        (Some(a), Some(b)) => {
            let adc = if b.0 >= a.0 {
                b.0 - a.0
            } else {
                a.0 - b.0
            };
            let adr = if b.1 >= a.1 {
                b.1 - a.1
            } else {
                a.1 - b.1
            };
            let steps = if adc >= adr {
                adc
            } else {
                adr
            };
            spec_line_dots(cells, w, h, a.0, a.1, b.0, b.1, steps, 0, dot)
        },
        _ => cells,
    }
}

/// Rasterize the segment between two cells already on the grid.
fn draw_segment(buf: &mut Buffer, c0: u16, r0: u16, c1: u16, r1: u16, dot: Cell)
    requires
        old(buf).wf(),
    ensures
        final(buf).wf(),
        final(buf).width == old(buf).width,
        final(buf).height == old(buf).height,
        final(buf).cells@ == spec_line_dots(
            old(buf).cells@,
            old(buf).width as int,
            old(buf).height as int,
            c0 as int,
            r0 as int,
            c1 as int,
            r1 as int,
            (if (if c1 >= c0 {
                c1 - c0
            } else {
                c0 - c1
            }) >= (if r1 >= r0 {
                r1 - r0
            } else {
                r0 - r1
            }) {
                if c1 >= c0 {
                    c1 - c0
                } else {
                    c0 - c1
                }
            } else {
                if r1 >= r0 {
                    r1 - r0
                } else {
                    r0 - r1
                }
            }) as int,
            0,
            dot,
        ),
{
    let adc: u16 = if c1 >= c0 {
        c1 - c0
    } else {
        c0 - c1
    };
    let adr: u16 = if r1 >= r0 {
        r1 - r0
    } else {
        r0 - r1
    };
    let steps: u16 = if adc >= adr {
        adc
    } else {
        adr
    };
    let ghost target = spec_line_dots(
        buf.cells@,
        buf.width as int,
        buf.height as int,
        c0 as int,
        r0 as int,
        c1 as int,
        r1 as int,
        steps as int,
        0,
        dot,
    );
    let mut s: u32 = 0;
    while s <= steps as u32
        invariant
            0 <= s <= steps as u32 + 1,
            adc == (if c1 >= c0 {
                c1 - c0
            } else {
                c0 - c1
            }),
            adr == (if r1 >= r0 {
                r1 - r0
            } else {
                r0 - r1
            }),
            steps == (if adc >= adr {
                adc
            } else {
                adr
            }),
            buf.wf(),
            buf.width == old(buf).width,
            buf.height == old(buf).height,
            target == spec_line_dots(
                buf.cells@,
                buf.width as int,
                buf.height as int,
                c0 as int,
                r0 as int,
                c1 as int,
                r1 as int,
                steps as int,
                s as int,
                dot,
            ),
        decreases steps as int - s as int + 1,
    {
        proof {
            assert((adc as int) * (s as int) <= 0x10000 * 0x10000) by (nonlinear_arith)
                requires
                    0 <= adc as int <= 0x10000,
                    0 <= s as int <= 0x10000,
            ;
            assert((adr as int) * (s as int) <= 0x10000 * 0x10000) by (nonlinear_arith)
                requires
                    0 <= adr as int <= 0x10000,
                    0 <= s as int <= 0x10000,
            ;
            if steps > 0 {
                vstd::arithmetic::div_mod::lemma_div_pos_is_pos((adc as int) * (s as int), steps as int);
                vstd::arithmetic::div_mod::lemma_div_pos_is_pos((adr as int) * (s as int), steps as int);
                assert((adc as int) * (s as int) <= (adc as int) * (steps as int))
                    by (nonlinear_arith)
                    requires
                        0 <= s as int <= steps as int,
                        0 <= adc as int,
                ;
                assert((adr as int) * (s as int) <= (adr as int) * (steps as int))
                    by (nonlinear_arith)
                    requires
                        0 <= s as int <= steps as int,
                        0 <= adr as int,
                ;
                vstd::arithmetic::div_mod::lemma_div_is_ordered(
                    (adc as int) * (s as int),
                    (adc as int) * (steps as int),
                    steps as int,
                );
                vstd::arithmetic::div_mod::lemma_div_is_ordered(
                    (adr as int) * (s as int),
                    (adr as int) * (steps as int),
                    steps as int,
                );
                vstd::arithmetic::div_mod::lemma_div_multiples_vanish(adc as int, steps as int);
                vstd::arithmetic::div_mod::lemma_div_multiples_vanish(adr as int, steps as int);
                assert((adc as int) * (steps as int) == (steps as int) * (adc as int));
                assert((adr as int) * (steps as int) == (steps as int) * (adr as int));
                assert(((adc as int) * (s as int)) / (steps as int) <= adc as int);
                assert(((adr as int) * (s as int)) / (steps as int) <= adr as int);
            }
        }
        let (offc, offr): (u16, u16) = if steps == 0 {
            (0, 0)
        } else {
            (
                (((adc as u64) * (s as u64)) / (steps as u64)) as u16,
                (((adr as u64) * (s as u64)) / (steps as u64)) as u16,
            )
        };
        let pc: u16 = if c1 >= c0 {
            c0 + offc
        } else {
            c0 - offc
        };
        let pr: u16 = if r1 >= r0 {
            r0 + offr
        } else {
            r0 - offr
        };
        buf.set(pc, pr, dot);
        s = s + 1;
    }
}

/// The coarse tier of the pre-baked world coastline outline, in
/// millionths of a degree.
pub open spec fn spec_world_low() -> Seq<(i64, i64)> {
    seq![
        (-155_000_000i64, 60_000_000i64),
        (-120_000_000i64, 50_000_000i64),
        (-100_000_000i64, 40_000_000i64),
        (-80_000_000i64, 30_000_000i64),
        (-75_000_000i64, 5_000_000i64),
        (-60_000_000i64, -10_000_000i64),
        (-70_000_000i64, -35_000_000i64),
        (-65_000_000i64, -55_000_000i64),
        (-10_000_000i64, 35_000_000i64),
        (0i64, 50_000_000i64),
        (10_000_000i64, 60_000_000i64),
        (25_000_000i64, 45_000_000i64),
        (15_000_000i64, 5_000_000i64),
        (25_000_000i64, -30_000_000i64),
        (45_000_000i64, 10_000_000i64),
        (60_000_000i64, 45_000_000i64),
        (80_000_000i64, 20_000_000i64),
        (100_000_000i64, 15_000_000i64),
        (120_000_000i64, 30_000_000i64),
        (140_000_000i64, 40_000_000i64),
    ]
}

/// The extra points the denser tier adds to the coarse outline.
pub open spec fn spec_world_extra() -> Seq<(i64, i64)> {
    seq![
        (-140_000_000i64, 65_000_000i64),
        (-90_000_000i64, 20_000_000i64),
        (-55_000_000i64, -20_000_000i64),
        (-20_000_000i64, 65_000_000i64),
        (5_000_000i64, 35_000_000i64),
        (35_000_000i64, 30_000_000i64),
        (50_000_000i64, -20_000_000i64),
        (70_000_000i64, 55_000_000i64),
        (90_000_000i64, 60_000_000i64),
        (110_000_000i64, -5_000_000i64),
        (130_000_000i64, -15_000_000i64),
        (150_000_000i64, -30_000_000i64),
        (165_000_000i64, -45_000_000i64),
        (75_000_000i64, 10_000_000i64),
        (125_000_000i64, 10_000_000i64),
        (145_000_000i64, 60_000_000i64),
    ]
}

pub open spec fn spec_world(res: MapResolution) -> Seq<(i64, i64)> {
    match res {
        MapResolution::Low => spec_world_low(),
        MapResolution::High => spec_world_low() + spec_world_extra(),
    }
}

fn push_world_low(out: &mut Vec<(i64, i64)>)
    ensures
        final(out)@ == old(out)@ + spec_world_low(),
{
    out.push((-155_000_000, 60_000_000));
    out.push((-120_000_000, 50_000_000));
    out.push((-100_000_000, 40_000_000));
    out.push((-80_000_000, 30_000_000));
    out.push((-75_000_000, 5_000_000));
    out.push((-60_000_000, -10_000_000));
    out.push((-70_000_000, -35_000_000));
    out.push((-65_000_000, -55_000_000));
    out.push((-10_000_000, 35_000_000));
    out.push((0, 50_000_000));
    out.push((10_000_000, 60_000_000));
    out.push((25_000_000, 45_000_000));
    out.push((15_000_000, 5_000_000));
    out.push((25_000_000, -30_000_000));
    out.push((45_000_000, 10_000_000));
    out.push((60_000_000, 45_000_000));
    out.push((80_000_000, 20_000_000));
    out.push((100_000_000, 15_000_000));
    out.push((120_000_000, 30_000_000));
    out.push((140_000_000, 40_000_000));
    proof {
        assert(out@ =~= old(out)@ + spec_world_low());
    }
}

/// The pre-baked outline at the chosen resolution tier.
pub fn world_outline(res: MapResolution) -> (out: Vec<(i64, i64)>)
    ensures
        out@ == spec_world(res),
{
    let mut out: Vec<(i64, i64)> = Vec::new();
    push_world_low(&mut out);
    match res {
        MapResolution::Low => {
            proof {
                assert(out@ =~= spec_world(res));
            }
        },
        MapResolution::High => {
            out.push((-140_000_000, 65_000_000));
            out.push((-90_000_000, 20_000_000));
            out.push((-55_000_000, -20_000_000));
            out.push((-20_000_000, 65_000_000));
            out.push((5_000_000, 35_000_000));
            out.push((35_000_000, 30_000_000));
            out.push((50_000_000, -20_000_000));
            out.push((70_000_000, 55_000_000));
            out.push((90_000_000, 60_000_000));
            out.push((110_000_000, -5_000_000));
            out.push((130_000_000, -15_000_000));
            out.push((150_000_000, -30_000_000));
            out.push((165_000_000, -45_000_000));
            out.push((75_000_000, 10_000_000));
            out.push((125_000_000, 10_000_000));
            out.push((145_000_000, 60_000_000));
            proof {
                assert(out@ =~= spec_world(res));
            }
        },
    }
    out
}

/// Draw a dot for each coordinate that projects onto the grid.
fn draw_points(
    buf: &mut Buffer,
    coords: &Vec<(i64, i64)>,
    xlo: i64,
    xhi: i64,
    ylo: i64,
    yhi: i64,
    inner: &Rect,
    dot: Cell,
)
    requires
        old(buf).wf(),
        valid_bounds(xlo, xhi),
        valid_bounds(ylo, yhi),
        inner.wf(),
    ensures
        final(buf).wf(),
        final(buf).width == old(buf).width,
        final(buf).height == old(buf).height,
        final(buf).cells@ == spec_points(
            old(buf).cells@,
            old(buf).width as int,
            old(buf).height as int,
            xlo,
            xhi,
            ylo,
            yhi,
            *inner,
            coords@,
            0,
            dot,
        ),
{
    let ghost target = spec_points(
        buf.cells@,
        buf.width as int,
        buf.height as int,
        xlo,
        xhi,
        ylo,
        yhi,
        *inner,
        coords@,
        0,
        dot,
    );
    let n: usize = coords.len();
    let mut i: usize = 0;
    while i < n
        invariant
            0 <= i <= n,
            n == coords@.len(),
            valid_bounds(xlo, xhi),
            valid_bounds(ylo, yhi),
            inner.wf(),
            buf.wf(),
            buf.width == old(buf).width,
            buf.height == old(buf).height,
            target == spec_points(
                buf.cells@,
                buf.width as int,
                buf.height as int,
                xlo,
                xhi,
                ylo,
                yhi,
                *inner,
                coords@,
                i as int,
                dot,
            ),
        decreases n - i,
    {
        let (cx, cy): (i64, i64) = coords[i];
        match project(cx, cy, xlo, xhi, ylo, yhi, inner) {
            Some(p) => {
                buf.set(p.0, p.1, dot);
            },
            None => {},
        }
        i = i + 1;
    }
}

/// The canvas widget: a coordinate window (`x_min .. x_max` by
/// `y_min .. y_max`) and the shapes to draw into it, in order — a later
/// shape paints over an earlier one, which is the layering.
pub struct Canvas {
    pub x_min: i64,
    pub x_max: i64,
    pub y_min: i64,
    pub y_max: i64,
    pub shapes: Vec<Shape>,
    pub block: Option<Block>,
}

/// All shapes from index `i` on, drawn in order.
pub open spec fn spec_shapes(
    cells: Seq<Cell>,
    w: int,
    h: int,
    xlo: i64,
    xhi: i64,
    ylo: i64,
    yhi: i64,
    inner: Rect,
    shapes: Seq<Shape>,
    i: int,
) -> Seq<Cell>
    decreases shapes.len() - i,
{
    if i < 0 || i >= shapes.len() {
        cells
    } else {
        let next = match shapes[i] {
            Shape::Point { x, y, color } => {
                match spec_project(x, y, xlo, xhi, ylo, yhi, inner) {
                    Some(p) => spec_set(cells, w, h, p.0, p.1, spec_dot(color)),
                    None => cells,
                }
            },
            Shape::Line { x1, y1, x2, y2, color } => spec_line(
                cells,
                w,
                h,
                xlo,
                xhi,
                ylo,
                yhi,
                inner,
                x1,
                y1,
                x2,
                y2,
                spec_dot(color),
            ),
            Shape::WorldMap { resolution, color } => spec_points(
                cells,
                w,
                h,
                xlo,
                xhi,
                ylo,
                yhi,
                inner,
                spec_world(resolution),
                0,
                spec_dot(color),
            ),
        };
        spec_shapes(next, w, h, xlo, xhi, ylo, yhi, inner, shapes, i + 1)
    }
}

pub open spec fn spec_canvas(
    cells: Seq<Cell>,
    w: int,
    h: int,
    area: Rect,
    xlo: i64,
    xhi: i64,
    ylo: i64,
    yhi: i64,
    shapes: Seq<Shape>,
    block: Option<(Seq<char>, Style, Style)>,
) -> Seq<Cell> {
    match block {
        Some(b) => spec_shapes(
            spec_block(cells, w, h, area, b.0, b.1, b.2),
            w,
            h,
            xlo,
            xhi,
            ylo,
            yhi,
            area.spec_inner(),
            shapes,
            0,
        ),
        None => spec_shapes(cells, w, h, xlo, xhi, ylo, yhi, area, shapes, 0),
    }
}

impl Canvas {
    pub open spec fn wf(self) -> bool {
        valid_bounds(self.x_min, self.x_max) && valid_bounds(self.y_min, self.y_max)
    }

    pub fn new(
        x_min: i64,
        x_max: i64,
        y_min: i64,
        y_max: i64,
        shapes: Vec<Shape>,
        block: Option<Block>,
    ) -> (c: Canvas)
        requires
            valid_bounds(x_min, x_max),
            valid_bounds(y_min, y_max),
        ensures
            c == (Canvas { x_min, x_max, y_min, y_max, shapes, block }),
            c.wf(),
    {
        Canvas { x_min, x_max, y_min, y_max, shapes, block }
    }

    pub fn paint(&self, area: &Rect, buf: &mut Buffer)
        requires
            old(buf).wf(),
            area.wf(),
            self.wf(),
        ensures
            final(buf).wf(),
            final(buf).width == old(buf).width,
            final(buf).height == old(buf).height,
            final(buf).cells@ == spec_canvas(
                old(buf).cells@,
                old(buf).width as int,
                old(buf).height as int,
                *area,
                self.x_min,
                self.x_max,
                self.y_min,
                self.y_max,
                self.shapes@,
                spec_block_view(self.block),
            ),
    {
        let inner: Rect = match &self.block {
            Some(b) => {
                b.paint(area, buf);
                area.inner()
            },
            None => *area,
        };
        let ghost target = spec_shapes(
            buf.cells@,
            buf.width as int,
            buf.height as int,
            self.x_min,
            self.x_max,
            self.y_min,
            self.y_max,
            inner,
            self.shapes@,
            0,
        );
        let n: usize = self.shapes.len();
        let mut i: usize = 0;
        while i < n
            invariant
                0 <= i <= n,
                n == self.shapes@.len(),
                self.wf(),
                inner.wf(),
                buf.wf(),
                buf.width == old(buf).width,
                buf.height == old(buf).height,
                target == spec_shapes(
                    buf.cells@,
                    buf.width as int,
                    buf.height as int,
                    self.x_min,
                    self.x_max,
                    self.y_min,
                    self.y_max,
                    inner,
                    self.shapes@,
                    i as int,
                ),
            decreases n - i,
        {
            let sh: Shape = self.shapes[i];
            match sh {
                Shape::Point { x, y, color } => {
                    let dot = Cell {
                        symbol: '*',
                        style: Style {
                            fg: color,
                            bg: Color::Reset,
                            modifier: crate::style::Modifier::Plain,
                        },
                    };
                    match project(x, y, self.x_min, self.x_max, self.y_min, self.y_max, &inner) {
                        Some(p) => {
                            buf.set(p.0, p.1, dot);
                        },
                        None => {},
                    }
                },
                Shape::Line { x1, y1, x2, y2, color } => {
                    let dot = Cell {
                        symbol: '*',
                        style: Style {
                            fg: color,
                            bg: Color::Reset,
                            modifier: crate::style::Modifier::Plain,
                        },
                    };
                    let p1 = project(x1, y1, self.x_min, self.x_max, self.y_min, self.y_max, &inner);
                    let p2 = project(x2, y2, self.x_min, self.x_max, self.y_min, self.y_max, &inner);
                    match (p1, p2) {
                        (Some(a), Some(b)) => {
                            draw_segment(buf, a.0, a.1, b.0, b.1, dot);
                        },
                        _ => {},
                    }
                },
                Shape::WorldMap { resolution, color } => {
                    let dot = Cell {
                        symbol: '*',
                        style: Style {
                            fg: color,
                            bg: Color::Reset,
                            modifier: crate::style::Modifier::Plain,
                        },
                    };
                    let pts: Vec<(i64, i64)> = world_outline(resolution);
                    draw_points(
                        buf,
                        &pts,
                        self.x_min,
                        self.x_max,
                        self.y_min,
                        self.y_max,
                        &inner,
                        dot,
                    );
                },
            }
            i = i + 1;
        }
    }
}

/// A coordinate that projects at all projects into the rectangle.
proof fn lemma_project_in_area(
    x: i64,
    y: i64,
    xlo: i64,
    xhi: i64,
    ylo: i64,
    yhi: i64,
    area: Rect,
)
    requires
        valid_bounds(xlo, xhi),
        valid_bounds(ylo, yhi),
        area.wf(),
    ensures
        spec_project(x, y, xlo, xhi, ylo, yhi, area) matches Some(p) ==> area.contains(p.0, p.1),
{
    if xlo <= x <= xhi && ylo <= y <= yhi && area.width > 0 && area.height > 0 {
        lemma_scale_in_range(x, xlo, xhi, area.width as int);
        lemma_scale_in_range(y, ylo, yhi, area.height as int);
    }
}

proof fn lemma_points_preserves(
    cs: Seq<Cell>,
    w: int,
    h: int,
    xlo: i64,
    xhi: i64,
    ylo: i64,
    yhi: i64,
    inner: Rect,
    coords: Seq<(i64, i64)>,
    i: int,
    dot: Cell,
)
    requires
        cs.len() == w * h,
        valid_bounds(xlo, xhi),
        valid_bounds(ylo, yhi),
        inner.wf(),
    ensures
        spec_points(cs, w, h, xlo, xhi, ylo, yhi, inner, coords, i, dot).len() == cs.len(),
        preserves_outside(
            cs,
            spec_points(cs, w, h, xlo, xhi, ylo, yhi, inner, coords, i, dot),
            w,
            h,
            inner,
        ),
    decreases coords.len() - i,
{
    if 0 <= i && i < coords.len() {
        lemma_project_in_area(coords[i].0, coords[i].1, xlo, xhi, ylo, yhi, inner);
        let next = match spec_project(coords[i].0, coords[i].1, xlo, xhi, ylo, yhi, inner) {
            Some(p) => spec_set(cs, w, h, p.0, p.1, dot),
            None => cs,
        };
        match spec_project(coords[i].0, coords[i].1, xlo, xhi, ylo, yhi, inner) {
            Some(p) => {
                lemma_set_preserves(cs, w, h, p.0, p.1, dot, inner);
            },
            None => {},
        }
        lemma_points_preserves(next, w, h, xlo, xhi, ylo, yhi, inner, coords, i + 1, dot);
    }
}

/// Every step cell of a rasterized segment lies between the endpoints.
proof fn lemma_line_cell_between(c0: int, r0: int, c1: int, r1: int, steps: int, s: int)
    requires
        0 <= s <= steps,
        steps >= (if c1 >= c0 {
            c1 - c0
        } else {
            c0 - c1
        }),
        steps >= (if r1 >= r0 {
            r1 - r0
        } else {
            r0 - r1
        }),
    ensures
        ({
            let p = spec_line_cell(c0, r0, c1, r1, steps, s);
            &&& (if c0 <= c1 {
                c0 <= p.0 <= c1
            } else {
                c1 <= p.0 <= c0
            })
            &&& (if r0 <= r1 {
                r0 <= p.1 <= r1
            } else {
                r1 <= p.1 <= r0
            })
        }),
{
    if steps > 0 {
        let adc = if c1 >= c0 {
            c1 - c0
        } else {
            c0 - c1
        };
        let adr = if r1 >= r0 {
            r1 - r0
        } else {
            r0 - r1
        };
        assert(adc * s >= 0) by (nonlinear_arith)
            requires
                adc >= 0,
                s >= 0,
        ;
        assert(adr * s >= 0) by (nonlinear_arith)
            requires
                adr >= 0,
                s >= 0,
        ;
        vstd::arithmetic::div_mod::lemma_div_pos_is_pos(adc * s, steps);
        vstd::arithmetic::div_mod::lemma_div_pos_is_pos(adr * s, steps);
        assert(adc * s <= adc * steps) by (nonlinear_arith)
            requires
                0 <= s <= steps,
                adc >= 0,
        ;
        assert(adr * s <= adr * steps) by (nonlinear_arith)
            requires
                0 <= s <= steps,
                adr >= 0,
        ;
        vstd::arithmetic::div_mod::lemma_div_is_ordered(adc * s, adc * steps, steps);
        vstd::arithmetic::div_mod::lemma_div_is_ordered(adr * s, adr * steps, steps);
        vstd::arithmetic::div_mod::lemma_div_multiples_vanish(adc, steps);
        vstd::arithmetic::div_mod::lemma_div_multiples_vanish(adr, steps);
        assert(adc * steps == steps * adc);
        assert(adr * steps == steps * adr);
    }
}

proof fn lemma_line_dots_preserves(
    cs: Seq<Cell>,
    w: int,
    h: int,
    c0: int,
    r0: int,
    c1: int,
    r1: int,
    steps: int,
    s: int,
    dot: Cell,
    inner: Rect,
)
    requires
        cs.len() == w * h,
        inner.wf(),
        inner.contains(c0, r0),
        inner.contains(c1, r1),
        steps >= (if c1 >= c0 {
            c1 - c0
        } else {
            c0 - c1
        }),
        steps >= (if r1 >= r0 {
            r1 - r0
        } else {
            r0 - r1
        }),
    ensures
        spec_line_dots(cs, w, h, c0, r0, c1, r1, steps, s, dot).len() == cs.len(),
        preserves_outside(
            cs,
            spec_line_dots(cs, w, h, c0, r0, c1, r1, steps, s, dot),
            w,
            h,
            inner,
        ),
    decreases steps - s + 1,
{
    if 0 <= s && s <= steps {
        let p = spec_line_cell(c0, r0, c1, r1, steps, s);
        lemma_line_cell_between(c0, r0, c1, r1, steps, s);
        lemma_set_preserves(cs, w, h, p.0, p.1, dot, inner);
        lemma_line_dots_preserves(
            spec_set(cs, w, h, p.0, p.1, dot),
            w,
            h,
            c0,
            r0,
            c1,
            r1,
            steps,
            s + 1,
            dot,
            inner,
        );
    }
}

proof fn lemma_line_preserves(
    cs: Seq<Cell>,
    w: int,
    h: int,
    xlo: i64,
    xhi: i64,
    ylo: i64,
    yhi: i64,
    inner: Rect,
    x1: i64,
    y1: i64,
    x2: i64,
    y2: i64,
    dot: Cell,
)
    requires
        cs.len() == w * h,
        valid_bounds(xlo, xhi),
        valid_bounds(ylo, yhi),
        inner.wf(),
    ensures
        spec_line(cs, w, h, xlo, xhi, ylo, yhi, inner, x1, y1, x2, y2, dot).len() == cs.len(),
        preserves_outside(
            cs,
            spec_line(cs, w, h, xlo, xhi, ylo, yhi, inner, x1, y1, x2, y2, dot),
            w,
            h,
            inner,
        ),
{
    let p1 = spec_project(x1, y1, xlo, xhi, ylo, yhi, inner);
    let p2 = spec_project(x2, y2, xlo, xhi, ylo, yhi, inner);
    lemma_project_in_area(x1, y1, xlo, xhi, ylo, yhi, inner);
    lemma_project_in_area(x2, y2, xlo, xhi, ylo, yhi, inner);
    match (p1, p2) {
        (Some(a), Some(b)) => {
            let adc = if b.0 >= a.0 {
                b.0 - a.0
            } else {
                a.0 - b.0
            };
            let adr = if b.1 >= a.1 {
                b.1 - a.1
            } else {
                a.1 - b.1
            };
            let steps = if adc >= adr {
                adc
            } else {
                adr
            };
            lemma_line_dots_preserves(cs, w, h, a.0, a.1, b.0, b.1, steps, 0, dot, inner);
        },
        _ => {},
    }
}

proof fn lemma_shapes_preserves(
    cs: Seq<Cell>,
    w: int,
    h: int,
    xlo: i64,
    xhi: i64,
    ylo: i64,
    yhi: i64,
    inner: Rect,
    shapes: Seq<Shape>,
    i: int,
)
    requires
        cs.len() == w * h,
        valid_bounds(xlo, xhi),
        valid_bounds(ylo, yhi),
        inner.wf(),
    ensures
        spec_shapes(cs, w, h, xlo, xhi, ylo, yhi, inner, shapes, i).len() == cs.len(),
        preserves_outside(
            cs,
            spec_shapes(cs, w, h, xlo, xhi, ylo, yhi, inner, shapes, i),
            w,
            h,
            inner,
        ),
    decreases shapes.len() - i,
{
    if 0 <= i && i < shapes.len() {
        let next = match shapes[i] {
            Shape::Point { x, y, color } => {
                match spec_project(x, y, xlo, xhi, ylo, yhi, inner) {
                    Some(p) => spec_set(cs, w, h, p.0, p.1, spec_dot(color)),
                    None => cs,
                }
            },
            Shape::Line { x1, y1, x2, y2, color } => spec_line(
                cs,
                w,
                h,
                xlo,
                xhi,
                ylo,
                yhi,
                inner,
                x1,
                y1,
                x2,
                y2,
                spec_dot(color),
            ),
            Shape::WorldMap { resolution, color } => spec_points(
                cs,
                w,
                h,
                xlo,
                xhi,
                ylo,
                yhi,
                inner,
                spec_world(resolution),
                0,
                spec_dot(color),
            ),
        };
        match shapes[i] {
            Shape::Point { x, y, color } => {
                lemma_project_in_area(x, y, xlo, xhi, ylo, yhi, inner);
                match spec_project(x, y, xlo, xhi, ylo, yhi, inner) {
                    Some(p) => {
                        lemma_set_preserves(cs, w, h, p.0, p.1, spec_dot(color), inner);
                    },
                    None => {},
                }
            },
            Shape::Line { x1, y1, x2, y2, color } => {
                lemma_line_preserves(
                    cs,
                    w,
                    h,
                    xlo,
                    xhi,
                    ylo,
                    yhi,
                    inner,
                    x1,
                    y1,
                    x2,
                    y2,
                    spec_dot(color),
                );
            },
            Shape::WorldMap { resolution, color } => {
                lemma_points_preserves(
                    cs,
                    w,
                    h,
                    xlo,
                    xhi,
                    ylo,
                    yhi,
                    inner,
                    spec_world(resolution),
                    0,
                    spec_dot(color),
                );
            },
        }
        lemma_shapes_preserves(next, w, h, xlo, xhi, ylo, yhi, inner, shapes, i + 1);
    }
}

/// The canvas contract: painting writes cells within the target
/// rectangle only — projected points land inside it, and out-of-bounds
/// coordinates are never drawn anywhere.
pub proof fn lemma_canvas_in_target(
    cs: Seq<Cell>,
    w: int,
    h: int,
    area: Rect,
    xlo: i64,
    xhi: i64,
    ylo: i64,
    yhi: i64,
    shapes: Seq<Shape>,
    block: Option<(Seq<char>, crate::style::Style, crate::style::Style)>,
)
    requires
        cs.len() == w * h,
        area.wf(),
        valid_bounds(xlo, xhi),
        valid_bounds(ylo, yhi),
    ensures
        preserves_outside(
            cs,
            spec_canvas(cs, w, h, area, xlo, xhi, ylo, yhi, shapes, block),
            w,
            h,
            area,
        ),
{
    match block {
        Some(b) => {
            lemma_block_preserves(cs, w, h, area, b.0, b.1, b.2);
            let c1 = spec_block(cs, w, h, area, b.0, b.1, b.2);
            let inner = area.spec_inner();
            lemma_shapes_preserves(c1, w, h, xlo, xhi, ylo, yhi, inner, shapes, 0);
            lemma_inner_within(area);
            lemma_preserves_mono(
                c1,
                spec_shapes(c1, w, h, xlo, xhi, ylo, yhi, inner, shapes, 0),
                w,
                h,
                inner,
                area,
            );
        },
        None => {
            lemma_shapes_preserves(cs, w, h, xlo, xhi, ylo, yhi, area, shapes, 0);
        },
    }
}

} // verus!
