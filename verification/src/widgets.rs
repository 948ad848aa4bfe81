//! Widgets: stateless renderable units that paint themselves into an
//! assigned rectangle of a frame buffer. Painting always clips to the
//! buffer and to the assigned rectangle; a degenerate rectangle makes a
//! paint a no-op, never an error.

use vstd::prelude::*;

use crate::buffer::{spec_set, Buffer};
use crate::geometry::Rect;
use crate::style::{Cell, Style};

verus! {

/// A horizontal run of one repeated cell over columns `x0 .. x1` of row `y`.
pub open spec fn spec_hline(
    cells: Seq<Cell>,
    w: int,
    h: int,
    x0: int,
    x1: int,
    y: int,
    c: Cell,
) -> Seq<Cell>
    decreases x1 - x0,
{
    if x0 >= x1 {
        cells
    } else {
        spec_hline(spec_set(cells, w, h, x0, y, c), w, h, x0 + 1, x1, y, c)
    }
}

/// A vertical run of one repeated cell over rows `y0 .. y1` of column `x`.
pub open spec fn spec_vline(
    cells: Seq<Cell>,
    w: int,
    h: int,
    x: int,
    y0: int,
    y1: int,
    c: Cell,
) -> Seq<Cell>
    decreases y1 - y0,
{
    if y0 >= y1 {
        cells
    } else {
        spec_vline(spec_set(cells, w, h, x, y0, c), w, h, x, y0 + 1, y1, c)
    }
}

/// `text` written from `(x, y)` rightward in one style, truncated at
/// column `x_end`.
pub open spec fn spec_text(
    cells: Seq<Cell>,
    w: int,
    h: int,
    x: int,
    y: int,
    text: Seq<char>,
    sty: Style,
    x_end: int,
) -> Seq<Cell>
    decreases text.len(),
{
    if text.len() == 0 || x >= x_end {
        cells
    } else {
        spec_text(
            spec_set(cells, w, h, x, y, Cell { symbol: text[0], style: sty }),
            w,
            h,
            x + 1,
            y,
            text.drop_first(),
            sty,
            x_end,
        )
    }
}

/// The rectangle `x0 .. x1` by `y0 .. y1` filled with one cell.
pub open spec fn spec_fill_rect(
    cells: Seq<Cell>,
    w: int,
    h: int,
    x0: int,
    x1: int,
    y0: int,
    y1: int,
    c: Cell,
) -> Seq<Cell>
    decreases y1 - y0,
{
    if y0 >= y1 {
        cells
    } else {
        spec_fill_rect(spec_hline(cells, w, h, x0, x1, y0, c), w, h, x0, x1, y0 + 1, y1, c)
    }
}

pub fn hline(buf: &mut Buffer, x0: u16, x1: u16, y: u16, c: Cell)
    requires
        old(buf).wf(),
    ensures
        final(buf).wf(),
        final(buf).width == old(buf).width,
        final(buf).height == old(buf).height,
        final(buf).cells@ == spec_hline(
            old(buf).cells@,
            old(buf).width as int,
            old(buf).height as int,
            x0 as int,
            x1 as int,
            y as int,
            c,
        ),
{
    let ghost target = spec_hline(
        buf.cells@,
        buf.width as int,
        buf.height as int,
        x0 as int,
        x1 as int,
        y as int,
        c,
    );
    let mut x: u16 = x0;
    while x < x1
        invariant
            x0 <= x,
            x1 > x0 ==> x <= x1,
            x1 <= x0 ==> x == x0,
            buf.wf(),
            buf.width == old(buf).width,
            buf.height == old(buf).height,
            target == spec_hline(
                buf.cells@,
                buf.width as int,
                buf.height as int,
                x as int,
                x1 as int,
                y as int,
                c,
            ),
        decreases x1 - x,
    {
        buf.set(x, y, c);
        x = x + 1;
    }
}

pub fn vline(buf: &mut Buffer, x: u16, y0: u16, y1: u16, c: Cell)
    requires
        old(buf).wf(),
    ensures
        final(buf).wf(),
        final(buf).width == old(buf).width,
        final(buf).height == old(buf).height,
        final(buf).cells@ == spec_vline(
            old(buf).cells@,
            old(buf).width as int,
            old(buf).height as int,
            x as int,
            y0 as int,
            y1 as int,
            c,
        ),
{
    let ghost target = spec_vline(
        buf.cells@,
        buf.width as int,
        buf.height as int,
        x as int,
        y0 as int,
        y1 as int,
        c,
    );
    let mut y: u16 = y0;
    while y < y1
        invariant
            y0 <= y,
            y1 > y0 ==> y <= y1,
            y1 <= y0 ==> y == y0,
            buf.wf(),
            buf.width == old(buf).width,
            buf.height == old(buf).height,
            target == spec_vline(
                buf.cells@,
                buf.width as int,
                buf.height as int,
                x as int,
                y as int,
                y1 as int,
                c,
            ),
        decreases y1 - y,
    {
        buf.set(x, y, c);
        y = y + 1;
    }
}

pub fn write_text(buf: &mut Buffer, x: u16, y: u16, text: &Vec<char>, sty: Style, x_end: u16)
    requires
        old(buf).wf(),
    ensures
        final(buf).wf(),
        final(buf).width == old(buf).width,
        final(buf).height == old(buf).height,
        final(buf).cells@ == spec_text(
            old(buf).cells@,
            old(buf).width as int,
            old(buf).height as int,
            x as int,
            y as int,
            text@,
            sty,
            x_end as int,
        ),
{
    let ghost target = spec_text(
        buf.cells@,
        buf.width as int,
        buf.height as int,
        x as int,
        y as int,
        text@,
        sty,
        x_end as int,
    );
    let n: usize = text.len();
    let mut i: usize = 0;
    let mut cx: u16 = x;
    proof {
        assert(text@.skip(0) =~= text@);
    }
    while i < n && cx < x_end
        invariant
            0 <= i <= n,
            n == text@.len(),
            cx as int == x as int + i,
            buf.wf(),
            buf.width == old(buf).width,
            buf.height == old(buf).height,
            target == spec_text(
                buf.cells@,
                buf.width as int,
                buf.height as int,
                cx as int,
                y as int,
                text@.skip(i as int),
                sty,
                x_end as int,
            ),
        decreases n - i,
    {
        proof {
            assert(text@.skip(i as int)[0] == text@[i as int]);
            assert(text@.skip(i as int).drop_first() =~= text@.skip(i as int + 1));
        }
        buf.set(cx, y, Cell { symbol: text[i], style: sty });
        cx = cx + 1;
        i = i + 1;
    }
    proof {
        if i == n {
            assert(text@.skip(n as int) =~= Seq::<char>::empty());
        }
    }
}

pub fn fill_rect(buf: &mut Buffer, x0: u16, x1: u16, y0: u16, y1: u16, c: Cell)
    requires
        old(buf).wf(),
    ensures
        final(buf).wf(),
        final(buf).width == old(buf).width,
        final(buf).height == old(buf).height,
        final(buf).cells@ == spec_fill_rect(
            old(buf).cells@,
            old(buf).width as int,
            old(buf).height as int,
            x0 as int,
            x1 as int,
            y0 as int,
            y1 as int,
            c,
        ),
{
    let ghost target = spec_fill_rect(
        buf.cells@,
        buf.width as int,
        buf.height as int,
        x0 as int,
        x1 as int,
        y0 as int,
        y1 as int,
        c,
    );
    let mut y: u16 = y0;
    while y < y1
        invariant
            y0 <= y,
            y1 > y0 ==> y <= y1,
            y1 <= y0 ==> y == y0,
            buf.wf(),
            buf.width == old(buf).width,
            buf.height == old(buf).height,
            target == spec_fill_rect(
                buf.cells@,
                buf.width as int,
                buf.height as int,
                x0 as int,
                x1 as int,
                y as int,
                y1 as int,
                c,
            ),
        decreases y1 - y,
    {
        hline(buf, x0, x1, y, c);
        y = y + 1;
    }
}

/// A bordered box with a title; every other widget may draw one around
/// its content. The border takes one cell on each side, the content
/// area is the interior.
pub struct Block {
    pub title: Vec<char>,
    pub title_style: Style,
    pub border_style: Style,
}

/// The border and title of a block: edge lines, corners, then the title
/// on the top edge. A rectangle too thin for a border draws nothing.
pub open spec fn spec_block(
    cells: Seq<Cell>,
    w: int,
    h: int,
    area: Rect,
    title: Seq<char>,
    tsty: Style,
    bsty: Style,
) -> Seq<Cell> {
    if area.width < 2 || area.height < 2 {
        cells
    } else {
        let hc = Cell { symbol: '-', style: bsty };
        let vc = Cell { symbol: '|', style: bsty };
        let cc = Cell { symbol: '+', style: bsty };
        let x0 = area.x as int;
        let y0 = area.y as int;
        let x1 = area.x + area.width - 1;
        let y1 = area.y + area.height - 1;
        let c1 = spec_hline(cells, w, h, x0, x1 + 1, y0, hc);
        let c2 = spec_hline(c1, w, h, x0, x1 + 1, y1, hc);
        let c3 = spec_vline(c2, w, h, x0, y0, y1 + 1, vc);
        let c4 = spec_vline(c3, w, h, x1, y0, y1 + 1, vc);
        let c5 = spec_set(c4, w, h, x0, y0, cc);
        let c6 = spec_set(c5, w, h, x1, y0, cc);
        let c7 = spec_set(c6, w, h, x0, y1, cc);
        let c8 = spec_set(c7, w, h, x1, y1, cc);
        spec_text(c8, w, h, x0 + 1, y0, title, tsty, x1)
    }
}

impl Block {
    pub fn new(title: Vec<char>, title_style: Style, border_style: Style) -> (b: Block)
        ensures
            b.title == title,
            b.title_style == title_style,
            b.border_style == border_style,
    {
        Block { title, title_style, border_style }
    }

    /// Draw the border and title into `area`.
    pub fn paint(&self, area: &Rect, buf: &mut Buffer)
        requires
            old(buf).wf(),
            area.wf(),
        ensures
            final(buf).wf(),
            final(buf).width == old(buf).width,
            final(buf).height == old(buf).height,
            final(buf).cells@ == spec_block(
                old(buf).cells@,
                old(buf).width as int,
                old(buf).height as int,
                *area,
                self.title@,
                self.title_style,
                self.border_style,
            ),
    {
        if area.width < 2 || area.height < 2 {
            return ;
        }
        let hc = Cell { symbol: '-', style: self.border_style };
        let vc = Cell { symbol: '|', style: self.border_style };
        let cc = Cell { symbol: '+', style: self.border_style };
        let x0: u16 = area.x;
        let y0: u16 = area.y;
        let x1: u16 = area.x + area.width - 1;
        let y1: u16 = area.y + area.height - 1;
        hline(buf, x0, x1 + 1, y0, hc);
        hline(buf, x0, x1 + 1, y1, hc);
        vline(buf, x0, y0, y1 + 1, vc);
        vline(buf, x1, y0, y1 + 1, vc);
        buf.set(x0, y0, cc);
        buf.set(x1, y0, cc);
        buf.set(x0, y1, cc);
        buf.set(x1, y1, cc);
        write_text(buf, x0 + 1, y0, &self.title, self.title_style, x1);
    }
}

/// Styled characters laid out from the content area's top-left corner:
/// a newline moves to the next row, rows below the area are clipped,
/// characters past the right edge are truncated (no wrapping).
pub open spec fn spec_par(
    cells: Seq<Cell>,
    w: int,
    h: int,
    inner: Rect,
    cs: Seq<(char, Style)>,
    cx: int,
    cy: int,
) -> Seq<Cell>
    decreases cs.len(),
{
    if cs.len() == 0 || cy >= inner.height {
        cells
    } else if cs[0].0 == '\n' {
        spec_par(cells, w, h, inner, cs.drop_first(), 0, cy + 1)
    } else if cx >= inner.width {
        spec_par(cells, w, h, inner, cs.drop_first(), cx, cy)
    } else {
        spec_par(
            spec_set(
                cells,
                w,
                h,
                inner.x + cx,
                inner.y + cy,
                Cell { symbol: cs[0].0, style: cs[0].1 },
            ),
            w,
            h,
            inner,
            cs.drop_first(),
            cx + 1,
            cy,
        )
    }
}

pub open spec fn spec_paragraph(
    cells: Seq<Cell>,
    w: int,
    h: int,
    area: Rect,
    content: Seq<(char, Style)>,
    block: Option<(Seq<char>, Style, Style)>,
) -> Seq<Cell> {
    match block {
        Some(b) => spec_par(
            spec_block(cells, w, h, area, b.0, b.1, b.2),
            w,
            h,
            area.spec_inner(),
            content,
            0,
            0,
        ),
        None => spec_par(cells, w, h, area, content, 0, 0),
    }
}

/// Pre-styled text, usually from the markup lexer.
pub struct Paragraph {
    pub content: Vec<(char, Style)>,
    pub block: Option<Block>,
}

pub open spec fn spec_block_view(b: Option<Block>) -> Option<(Seq<char>, Style, Style)> {
    match b {
        Some(bb) => Some((bb.title@, bb.title_style, bb.border_style)),
        None => None,
    }
}

impl Paragraph {
    pub fn new(content: Vec<(char, Style)>, block: Option<Block>) -> (p: Paragraph)
        ensures
            p.content == content,
            p.block == block,
    {
        Paragraph { content, block }
    }

    pub fn paint(&self, area: &Rect, buf: &mut Buffer)
        requires
            old(buf).wf(),
            area.wf(),
        ensures
            final(buf).wf(),
            final(buf).width == old(buf).width,
            final(buf).height == old(buf).height,
            final(buf).cells@ == spec_paragraph(
                old(buf).cells@,
                old(buf).width as int,
                old(buf).height as int,
                *area,
                self.content@,
                spec_block_view(self.block),
            ),
    {
        let inner: Rect = match &self.block {
            Some(b) => {
                b.paint(area, buf);
                area.inner()
            },
            None => *area,
        };
        let ghost target = spec_par(
            buf.cells@,
            buf.width as int,
            buf.height as int,
            inner,
            self.content@,
            0,
            0,
        );
        let n: usize = self.content.len();
        let mut i: usize = 0;
        let mut cx: u16 = 0;
        let mut cy: u16 = 0;
        proof {
            assert(self.content@.skip(0) =~= self.content@);
        }
        while i < n && cy < inner.height
            invariant
                0 <= i <= n,
                n == self.content@.len(),
                cx <= inner.width,
                cy <= inner.height,
                inner.wf(),
                buf.wf(),
                buf.width == old(buf).width,
                buf.height == old(buf).height,
                target == spec_par(
                    buf.cells@,
                    buf.width as int,
                    buf.height as int,
                    inner,
                    self.content@.skip(i as int),
                    cx as int,
                    cy as int,
                ),
            decreases n - i,
        {
            proof {
                assert(self.content@.skip(i as int)[0] == self.content@[i as int]);
                assert(self.content@.skip(i as int).drop_first() =~= self.content@.skip(
                    i as int + 1,
                ));
            }
            let (ch, sty): (char, Style) = self.content[i];
            if ch == '\n' {
                cx = 0;
                cy = cy + 1;
            } else if cx >= inner.width {
                // truncated: skip until the next line break
            } else {
                buf.set(inner.x + cx, inner.y + cy, Cell { symbol: ch, style: sty });
                cx = cx + 1;
            }
            i = i + 1;
        }
        proof {
            if i == n {
                assert(self.content@.skip(n as int) =~= Seq::<(char, Style)>::empty());
            }
        }
    }
}

/// One item per row from the content area's top, clipped to its height,
/// each truncated at its right edge.
pub open spec fn spec_list_rows(
    cells: Seq<Cell>,
    w: int,
    h: int,
    inner: Rect,
    items: Seq<(Seq<char>, Style)>,
    i: int,
) -> Seq<Cell>
    decreases items.len() - i,
{
    if i < 0 || i >= items.len() || i >= inner.height {
        cells
    } else {
        spec_list_rows(
            spec_text(
                cells,
                w,
                h,
                inner.x as int,
                inner.y + i,
                items[i].0,
                items[i].1,
                inner.x + inner.width,
            ),
            w,
            h,
            inner,
            items,
            i + 1,
        )
    }
}

pub open spec fn spec_items_view(items: Seq<(Vec<char>, Style)>) -> Seq<(Seq<char>, Style)> {
    items.map_values(|p: (Vec<char>, Style)| (p.0@, p.1))
}

pub open spec fn spec_list(
    cells: Seq<Cell>,
    w: int,
    h: int,
    area: Rect,
    items: Seq<(Seq<char>, Style)>,
    block: Option<(Seq<char>, Style, Style)>,
) -> Seq<Cell> {
    match block {
        Some(b) => spec_list_rows(
            spec_block(cells, w, h, area, b.0, b.1, b.2),
            w,
            h,
            area.spec_inner(),
            items,
            0,
        ),
        None => spec_list_rows(cells, w, h, area, items, 0),
    }
}

/// An ordered sequence of styled lines.
pub struct List {
    pub items: Vec<(Vec<char>, Style)>,
    pub block: Option<Block>,
}

impl List {
    pub fn new(items: Vec<(Vec<char>, Style)>, block: Option<Block>) -> (l: List)
        ensures
            l.items == items,
            l.block == block,
    {
        List { items, block }
    }

    pub fn paint(&self, area: &Rect, buf: &mut Buffer)
        requires
            old(buf).wf(),
            area.wf(),
        ensures
            final(buf).wf(),
            final(buf).width == old(buf).width,
            final(buf).height == old(buf).height,
            final(buf).cells@ == spec_list(
                old(buf).cells@,
                old(buf).width as int,
                old(buf).height as int,
                *area,
                spec_items_view(self.items@),
                spec_block_view(self.block),
            ),
    {
        let inner: Rect = match &self.block {
            Some(b) => {
                b.paint(area, buf);
                area.inner()
            },
            None => *area,
        };
        let ghost iv = spec_items_view(self.items@);
        let ghost target = spec_list_rows(
            buf.cells@,
            buf.width as int,
            buf.height as int,
            inner,
            iv,
            0,
        );
        let n: usize = self.items.len();
        let mut i: usize = 0;
        while i < n && i < inner.height as usize
            invariant
                0 <= i <= n,
                n == self.items@.len(),
                iv == spec_items_view(self.items@),
                iv.len() == n,
                i <= inner.height,
                inner.wf(),
                buf.wf(),
                buf.width == old(buf).width,
                buf.height == old(buf).height,
                target == spec_list_rows(
                    buf.cells@,
                    buf.width as int,
                    buf.height as int,
                    inner,
                    iv,
                    i as int,
                ),
            decreases n - i,
        {
            proof {
                assert(iv[i as int] == (self.items@[i as int].0@, self.items@[i as int].1));
            }
            let row: u16 = inner.y + (i as u16);
            write_text(buf, inner.x, row, &self.items[i].0, self.items[i].1, inner.right());
            i = i + 1;
        }
    }
}

/// The rows a bar of value `v` stands on when the tallest value `max`
/// fills `avail` rows: `v * avail / max`, clamped to `avail`.
pub open spec fn spec_bar_height(v: u64, max: u64, avail: int) -> int {
    if max == 0 {
        0
    } else {
        let q = v * avail / max as int;
        if q > avail {
            avail
        } else {
            q
        }
    }
}

/// The tallest value among `data[i ..]`.
pub open spec fn spec_max_val(data: Seq<(Seq<char>, u64)>, i: int) -> u64
    decreases data.len() - i,
{
    if i < 0 || i >= data.len() {
        0
    } else {
        let r = spec_max_val(data, i + 1);
        if data[i].1 > r {
            data[i].1
        } else {
            r
        }
    }
}

/// Bars of width `bw` separated by `gap`, left to right from `x`, each
/// scaled to the tallest value; the bottom row carries the labels when
/// the content area affords it.
pub open spec fn spec_bars(
    cells: Seq<Cell>,
    w: int,
    h: int,
    inner: Rect,
    data: Seq<(Seq<char>, u64)>,
    bw: int,
    gap: int,
    max: u64,
    bsty: Style,
    lsty: Style,
    idx: int,
    x: int,
) -> Seq<Cell>
    decreases data.len() - idx,
{
    let bar_h = if inner.height >= 2 {
        inner.height - 1
    } else {
        inner.height as int
    };
    if idx < 0 || idx >= data.len() || x + bw > inner.x + inner.width || bw <= 0 {
        cells
    } else {
        let hgt = spec_bar_height(data[idx].1, max, bar_h);
        let c1 = spec_fill_rect(
            cells,
            w,
            h,
            x,
            x + bw,
            inner.y + bar_h - hgt,
            inner.y + bar_h,
            Cell { symbol: '#', style: bsty },
        );
        let c2 = if inner.height >= 2 {
            spec_text(c1, w, h, x, inner.y + bar_h, data[idx].0, lsty, x + bw)
        } else {
            c1
        };
        spec_bars(c2, w, h, inner, data, bw, gap, max, bsty, lsty, idx + 1, x + bw + gap)
    }
}

pub open spec fn spec_barchart(
    cells: Seq<Cell>,
    w: int,
    h: int,
    area: Rect,
    data: Seq<(Seq<char>, u64)>,
    bw: int,
    gap: int,
    bsty: Style,
    lsty: Style,
    block: Option<(Seq<char>, Style, Style)>,
) -> Seq<Cell> {
    let max = spec_max_val(data, 0);
    match block {
        Some(b) => {
            let inner = area.spec_inner();
            spec_bars(
                spec_block(cells, w, h, area, b.0, b.1, b.2),
                w,
                h,
                inner,
                data,
                bw,
                gap,
                max,
                bsty,
                lsty,
                0,
                inner.x as int,
            )
        },
        None => spec_bars(cells, w, h, area, data, bw, gap, max, bsty, lsty, 0, area.x as int),
    }
}

/// Vertical bars for an ordered sequence of labelled values, scaled to
/// the tallest value within the available height.
pub struct BarChart {
    pub data: Vec<(Vec<char>, u64)>,
    pub bar_width: u16,
    pub bar_gap: u16,
    pub bar_style: Style,
    pub label_style: Style,
    pub block: Option<Block>,
}

/// `v * avail / max` clamped to `avail`: the painted height of one bar.
pub fn bar_height(v: u64, max: u64, avail: u16) -> (r: u16)
    ensures
        r as int == spec_bar_height(v, max, avail as int),
        r <= avail,
{
    if max == 0 {
        return 0;
    }
    proof {
        assert((v as int) * (avail as int) <= 0xffff_ffff_ffff_ffff * 0xffff) by (nonlinear_arith)
            requires
                0 <= v as int <= 0xffff_ffff_ffff_ffff,
                0 <= avail as int <= 0xffff,
        ;
    }
    let q: u128 = (v as u128) * (avail as u128) / (max as u128);
    if q > avail as u128 {
        avail
    } else {
        q as u16
    }
}

impl BarChart {
    pub fn new(
        data: Vec<(Vec<char>, u64)>,
        bar_width: u16,
        bar_gap: u16,
        bar_style: Style,
        label_style: Style,
        block: Option<Block>,
    ) -> (c: BarChart)
        ensures
            c.data == data,
            c.bar_width == bar_width,
            c.bar_gap == bar_gap,
            c.bar_style == bar_style,
            c.label_style == label_style,
            c.block == block,
    {
        BarChart { data, bar_width, bar_gap, bar_style, label_style, block }
    }

    pub fn paint(&self, area: &Rect, buf: &mut Buffer)
        requires
            old(buf).wf(),
            area.wf(),
        ensures
            final(buf).wf(),
            final(buf).width == old(buf).width,
            final(buf).height == old(buf).height,
            final(buf).cells@ == spec_barchart(
                old(buf).cells@,
                old(buf).width as int,
                old(buf).height as int,
                *area,
                spec_items_view64(self.data@),
                self.bar_width as int,
                self.bar_gap as int,
                self.bar_style,
                self.label_style,
                spec_block_view(self.block),
            ),
    {
        let inner: Rect = match &self.block {
            Some(b) => {
                b.paint(area, buf);
                area.inner()
            },
            None => *area,
        };
        let ghost dv = spec_items_view64(self.data@);
        let n: usize = self.data.len();

        // the tallest value, computed back to front
        let mut max: u64 = 0;
        let mut b: usize = n;
        while b > 0
            invariant
                0 <= b <= n,
                n == self.data@.len(),
                dv == spec_items_view64(self.data@),
                dv.len() == n,
                max == spec_max_val(dv, b as int),
            decreases b,
        {
            b = b - 1;
            proof {
                assert(dv[b as int] == (self.data@[b as int].0@, self.data@[b as int].1));
            }
            let v: u64 = self.data[b].1;
            if v > max {
                max = v;
            }
        }

        let bar_h: u16 = if inner.height >= 2 {
            inner.height - 1
        } else {
            inner.height
        };
        let ghost target = spec_bars(
            buf.cells@,
            buf.width as int,
            buf.height as int,
            inner,
            dv,
            self.bar_width as int,
            self.bar_gap as int,
            max,
            self.bar_style,
            self.label_style,
            0,
            inner.x as int,
        );
        if self.bar_width == 0 {
            proof {
                assert(spec_bars(
                    buf.cells@,
                    buf.width as int,
                    buf.height as int,
                    inner,
                    dv,
                    self.bar_width as int,
                    self.bar_gap as int,
                    max,
                    self.bar_style,
                    self.label_style,
                    0,
                    inner.x as int,
                ) == buf.cells@);
            }
            return ;
        }
        let mut idx: usize = 0;
        let mut x: u32 = inner.x as u32;
        while idx < n && x + (self.bar_width as u32) <= (inner.x as u32) + (inner.width as u32)
            invariant
                0 <= idx <= n,
                n == self.data@.len(),
                dv == spec_items_view64(self.data@),
                dv.len() == n,
                self.bar_width > 0,
                max == spec_max_val(dv, 0),
                x <= 0x2ffff,
                inner.wf(),
                bar_h as int == (if inner.height >= 2 {
                    inner.height - 1
                } else {
                    inner.height as int
                }),
                buf.wf(),
                buf.width == old(buf).width,
                buf.height == old(buf).height,
                target == spec_bars(
                    buf.cells@,
                    buf.width as int,
                    buf.height as int,
                    inner,
                    dv,
                    self.bar_width as int,
                    self.bar_gap as int,
                    max,
                    self.bar_style,
                    self.label_style,
                    idx as int,
                    x as int,
                ),
            decreases n - idx,
        {
            proof {
                assert(dv[idx as int] == (self.data@[idx as int].0@, self.data@[idx as int].1));
            }
            let v: u64 = self.data[idx].1;
            let hgt: u16 = bar_height(v, max, bar_h);
            let xs: u16 = x as u16;
            fill_rect(
                buf,
                xs,
                xs + self.bar_width,
                inner.y + (bar_h - hgt),
                inner.y + bar_h,
                Cell { symbol: '#', style: self.bar_style },
            );
            if inner.height >= 2 {
                write_text(
                    buf,
                    xs,
                    inner.y + bar_h,
                    &self.data[idx].0,
                    self.label_style,
                    xs + self.bar_width,
                );
            }
            idx = idx + 1;
            x = x + (self.bar_width as u32) + (self.bar_gap as u32);
        }
        proof {
            assert(spec_bars(
                buf.cells@,
                buf.width as int,
                buf.height as int,
                inner,
                dv,
                self.bar_width as int,
                self.bar_gap as int,
                max,
                self.bar_style,
                self.label_style,
                idx as int,
                x as int,
            ) == buf.cells@);
        }
    }
}

pub open spec fn spec_items_view64(items: Seq<(Vec<char>, u64)>) -> Seq<(Seq<char>, u64)> {
    items.map_values(|p: (Vec<char>, u64)| (p.0@, p.1))
}

/// Tab titles on one row, separated by `" | "`, the selected one in the
/// highlight style, truncated at the content area's right edge.
pub open spec fn spec_tabs_row(
    cells: Seq<Cell>,
    w: int,
    h: int,
    inner: Rect,
    titles: Seq<Seq<char>>,
    sel: int,
    hsty: Style,
    sty: Style,
    i: int,
    x: int,
) -> Seq<Cell>
    decreases titles.len() - i,
{
    if i < 0 || i >= titles.len() || x >= inner.x + inner.width || inner.height <= 0 {
        cells
    } else {
        let st = if i == sel {
            hsty
        } else {
            sty
        };
        let right = inner.x + inner.width;
        let c1 = spec_text(cells, w, h, x, inner.y as int, titles[i], st, right);
        let c2 = spec_text(c1, w, h, x + titles[i].len(), inner.y as int, " | "@, sty, right);
        spec_tabs_row(c2, w, h, inner, titles, sel, hsty, sty, i + 1, x + titles[i].len() + 3)
    }
}

pub open spec fn spec_tabs(
    cells: Seq<Cell>,
    w: int,
    h: int,
    area: Rect,
    titles: Seq<Seq<char>>,
    sel: int,
    hsty: Style,
    sty: Style,
    block: Option<(Seq<char>, Style, Style)>,
) -> Seq<Cell> {
    match block {
        Some(b) => {
            let inner = area.spec_inner();
            spec_tabs_row(
                spec_block(cells, w, h, area, b.0, b.1, b.2),
                w,
                h,
                inner,
                titles,
                sel,
                hsty,
                sty,
                0,
                inner.x as int,
            )
        },
        None => spec_tabs_row(cells, w, h, area, titles, sel, hsty, sty, 0, area.x as int),
    }
}

/// A row of tab titles with one selected; part of the widget contract
/// set even though the dashboard's fixed composition does not place it.
pub struct Tabs {
    pub titles: Vec<Vec<char>>,
    pub selected: usize,
    pub highlight_style: Style,
    pub style: Style,
    pub block: Option<Block>,
}

pub open spec fn spec_titles_of(titles: Seq<Vec<char>>) -> Seq<Seq<char>> {
    titles.map_values(|t: Vec<char>| t@)
}

impl Tabs {
    pub fn new(
        titles: Vec<Vec<char>>,
        selected: usize,
        highlight_style: Style,
        style: Style,
        block: Option<Block>,
    ) -> (t: Tabs)
        ensures
            t.titles == titles,
            t.selected == selected,
            t.highlight_style == highlight_style,
            t.style == style,
            t.block == block,
    {
        Tabs { titles, selected, highlight_style, style, block }
    }

    pub fn paint(&self, area: &Rect, buf: &mut Buffer)
        requires
            old(buf).wf(),
            area.wf(),
        ensures
            final(buf).wf(),
            final(buf).width == old(buf).width,
            final(buf).height == old(buf).height,
            final(buf).cells@ == spec_tabs(
                old(buf).cells@,
                old(buf).width as int,
                old(buf).height as int,
                *area,
                spec_titles_of(self.titles@),
                self.selected as int,
                self.highlight_style,
                self.style,
                spec_block_view(self.block),
            ),
    {
        let inner: Rect = match &self.block {
            Some(b) => {
                b.paint(area, buf);
                area.inner()
            },
            None => *area,
        };
        let ghost tv = spec_titles_of(self.titles@);
        let ghost target = spec_tabs_row(
            buf.cells@,
            buf.width as int,
            buf.height as int,
            inner,
            tv,
            self.selected as int,
            self.highlight_style,
            self.style,
            0,
            inner.x as int,
        );
        if inner.height == 0 {
            proof {
                assert(spec_tabs_row(
                    buf.cells@,
                    buf.width as int,
                    buf.height as int,
                    inner,
                    tv,
                    self.selected as int,
                    self.highlight_style,
                    self.style,
                    0,
                    inner.x as int,
                ) == buf.cells@);
            }
            return ;
        }
        let right: u16 = inner.right();
        let sep: Vec<char> = crate::text::chars_of(" | ");
        let n: usize = self.titles.len();
        let mut i: usize = 0;
        let mut x: u16 = inner.x;
        let ghost mut xg: int = inner.x as int;
        while i < n && x < right
            invariant
                0 <= i <= n,
                n == self.titles@.len(),
                tv == spec_titles_of(self.titles@),
                tv.len() == n,
                sep@ == " | "@,
                inner.wf(),
                inner.height > 0,
                right == inner.x + inner.width,
                inner.x <= x <= right,
                if xg < right as int {
                    x as int == xg
                } else {
                    x == right
                },
                buf.wf(),
                buf.width == old(buf).width,
                buf.height == old(buf).height,
                target == spec_tabs_row(
                    buf.cells@,
                    buf.width as int,
                    buf.height as int,
                    inner,
                    tv,
                    self.selected as int,
                    self.highlight_style,
                    self.style,
                    i as int,
                    xg,
                ),
            decreases n - i,
        {
            proof {
                assert(tv[i as int] == self.titles@[i as int]@);
            }
            let st: Style = if i == self.selected {
                self.highlight_style
            } else {
                self.style
            };
            write_text(buf, x, inner.y, &self.titles[i], st, right);
            let len: usize = self.titles[i].len();
            let sx: u128 = (x as u128) + (len as u128);
            if sx < right as u128 {
                write_text(buf, sx as u16, inner.y, &sep, self.style, right);
            } else {
                proof {
                    assert(spec_text(
                        buf.cells@,
                        buf.width as int,
                        buf.height as int,
                        xg + tv[i as int].len(),
                        inner.y as int,
                        " | "@,
                        self.style,
                        right as int,
                    ) == buf.cells@);
                }
            }
            let adv: u128 = sx + 3;
            proof {
                xg = xg + tv[i as int].len() + 3;
            }
            if adv >= right as u128 {
                x = right;
            } else {
                x = adv as u16;
            }
            i = i + 1;
        }
    }
}

/// The cell of a row-major grid at column `x`, row `y`.
pub open spec fn cell_of(cs: Seq<Cell>, w: int, x: int, y: int) -> Cell {
    cs[y * w + x]
}

/// `c1` agrees with `c0` on every grid cell outside `area`: whatever
/// painting produced `c1` stayed inside the assigned rectangle.
pub open spec fn preserves_outside(
    c0: Seq<Cell>,
    c1: Seq<Cell>,
    w: int,
    h: int,
    area: Rect,
) -> bool {
    c1.len() == c0.len() && forall|qx: int, qy: int|
        0 <= qx < w && 0 <= qy < h && !area.contains(qx, qy) ==> #[trigger] cell_of(
            c1,
            w,
            qx,
            qy,
        ) == cell_of(c0, w, qx, qy)
}

pub(crate) proof fn lemma_set_preserves(cs: Seq<Cell>, w: int, h: int, x: int, y: int, c: Cell, area: Rect)
    requires
        cs.len() == w * h,
        area.contains(x, y) || !(0 <= x < w && 0 <= y < h),
    ensures
        spec_set(cs, w, h, x, y, c).len() == cs.len(),
        preserves_outside(cs, spec_set(cs, w, h, x, y, c), w, h, area),
{
    if 0 <= x < w && 0 <= y < h {
        assert(0 <= y * w + x < w * h) by (nonlinear_arith)
            requires
                0 <= x < w,
                0 <= y < h,
        ;
        let c1 = spec_set(cs, w, h, x, y, c);
        assert forall|qx: int, qy: int|
            0 <= qx < w && 0 <= qy < h && !area.contains(qx, qy) implies #[trigger] cell_of(
            c1,
            w,
            qx,
            qy,
        ) == cell_of(cs, w, qx, qy) by {
            assert(qy * w + qx != y * w + x) by (nonlinear_arith)
                requires
                    0 <= qx < w,
                    0 <= x < w,
                    0 <= qy,
                    0 <= y,
                    !(qx == x && qy == y),
            ;
            assert(0 <= qy * w + qx < w * h) by (nonlinear_arith)
                requires
                    0 <= qx < w,
                    0 <= qy < h,
            ;
        }
    }
}

proof fn lemma_hline_preserves(
    cs: Seq<Cell>,
    w: int,
    h: int,
    x0: int,
    x1: int,
    y: int,
    c: Cell,
    area: Rect,
)
    requires
        cs.len() == w * h,
        area.x <= x0,
        x1 <= area.x + area.width,
        area.y <= y < area.y + area.height,
    ensures
        spec_hline(cs, w, h, x0, x1, y, c).len() == cs.len(),
        preserves_outside(cs, spec_hline(cs, w, h, x0, x1, y, c), w, h, area),
    decreases x1 - x0,
{
    if x0 < x1 {
        lemma_set_preserves(cs, w, h, x0, y, c, area);
        lemma_hline_preserves(spec_set(cs, w, h, x0, y, c), w, h, x0 + 1, x1, y, c, area);
    }
}

proof fn lemma_vline_preserves(
    cs: Seq<Cell>,
    w: int,
    h: int,
    x: int,
    y0: int,
    y1: int,
    c: Cell,
    area: Rect,
)
    requires
        cs.len() == w * h,
        area.x <= x < area.x + area.width,
        area.y <= y0,
        y1 <= area.y + area.height,
    ensures
        spec_vline(cs, w, h, x, y0, y1, c).len() == cs.len(),
        preserves_outside(cs, spec_vline(cs, w, h, x, y0, y1, c), w, h, area),
    decreases y1 - y0,
{
    if y0 < y1 {
        lemma_set_preserves(cs, w, h, x, y0, c, area);
        lemma_vline_preserves(spec_set(cs, w, h, x, y0, c), w, h, x, y0 + 1, y1, c, area);
    }
}

proof fn lemma_text_preserves(
    cs: Seq<Cell>,
    w: int,
    h: int,
    x: int,
    y: int,
    text: Seq<char>,
    sty: Style,
    x_end: int,
    area: Rect,
)
    requires
        cs.len() == w * h,
        area.x <= x,
        x_end <= area.x + area.width,
        area.y <= y < area.y + area.height,
    ensures
        spec_text(cs, w, h, x, y, text, sty, x_end).len() == cs.len(),
        preserves_outside(cs, spec_text(cs, w, h, x, y, text, sty, x_end), w, h, area),
    decreases text.len(),
{
    if text.len() > 0 && x < x_end {
        let c = Cell { symbol: text[0], style: sty };
        lemma_set_preserves(cs, w, h, x, y, c, area);
        lemma_text_preserves(
            spec_set(cs, w, h, x, y, c),
            w,
            h,
            x + 1,
            y,
            text.drop_first(),
            sty,
            x_end,
            area,
        );
    }
}

proof fn lemma_fill_rect_preserves(
    cs: Seq<Cell>,
    w: int,
    h: int,
    x0: int,
    x1: int,
    y0: int,
    y1: int,
    c: Cell,
    area: Rect,
)
    requires
        cs.len() == w * h,
        area.x <= x0,
        x1 <= area.x + area.width,
        area.y <= y0,
        y1 <= area.y + area.height,
    ensures
        spec_fill_rect(cs, w, h, x0, x1, y0, y1, c).len() == cs.len(),
        preserves_outside(cs, spec_fill_rect(cs, w, h, x0, x1, y0, y1, c), w, h, area),
    decreases y1 - y0,
{
    if y0 < y1 {
        lemma_hline_preserves(cs, w, h, x0, x1, y0, c, area);
        lemma_fill_rect_preserves(
            spec_hline(cs, w, h, x0, x1, y0, c),
            w,
            h,
            x0,
            x1,
            y0 + 1,
            y1,
            c,
            area,
        );
    }
}

pub(crate) proof fn lemma_block_preserves(
    cs: Seq<Cell>,
    w: int,
    h: int,
    area: Rect,
    title: Seq<char>,
    tsty: Style,
    bsty: Style,
)
    requires
        cs.len() == w * h,
        area.wf(),
    ensures
        spec_block(cs, w, h, area, title, tsty, bsty).len() == cs.len(),
        preserves_outside(cs, spec_block(cs, w, h, area, title, tsty, bsty), w, h, area),
{
    if area.width >= 2 && area.height >= 2 {
        let hc = Cell { symbol: '-', style: bsty };
        let vc = Cell { symbol: '|', style: bsty };
        let cc = Cell { symbol: '+', style: bsty };
        let x0 = area.x as int;
        let y0 = area.y as int;
        let x1 = area.x + area.width - 1;
        let y1 = area.y + area.height - 1;
        let c1 = spec_hline(cs, w, h, x0, x1 + 1, y0, hc);
        let c2 = spec_hline(c1, w, h, x0, x1 + 1, y1, hc);
        let c3 = spec_vline(c2, w, h, x0, y0, y1 + 1, vc);
        let c4 = spec_vline(c3, w, h, x1, y0, y1 + 1, vc);
        let c5 = spec_set(c4, w, h, x0, y0, cc);
        let c6 = spec_set(c5, w, h, x1, y0, cc);
        let c7 = spec_set(c6, w, h, x0, y1, cc);
        let c8 = spec_set(c7, w, h, x1, y1, cc);
        lemma_hline_preserves(cs, w, h, x0, x1 + 1, y0, hc, area);
        lemma_hline_preserves(c1, w, h, x0, x1 + 1, y1, hc, area);
        lemma_vline_preserves(c2, w, h, x0, y0, y1 + 1, vc, area);
        lemma_vline_preserves(c3, w, h, x1, y0, y1 + 1, vc, area);
        lemma_set_preserves(c4, w, h, x0, y0, cc, area);
        lemma_set_preserves(c5, w, h, x1, y0, cc, area);
        lemma_set_preserves(c6, w, h, x0, y1, cc, area);
        lemma_set_preserves(c7, w, h, x1, y1, cc, area);
        lemma_text_preserves(c8, w, h, x0 + 1, y0, title, tsty, x1, area);
    }
}

/// Inside the block's interior is inside the block's rectangle.
pub(crate) proof fn lemma_inner_within(area: Rect)
    requires
        area.wf(),
    ensures
        forall|qx: int, qy: int| area.spec_inner().contains(qx, qy) ==> area.contains(qx, qy),
{
}

/// Containment is monotonic: staying inside a smaller rectangle is
/// staying inside any rectangle that encloses it.
pub(crate) proof fn lemma_preserves_mono(c0: Seq<Cell>, c1: Seq<Cell>, w: int, h: int, small: Rect, big: Rect)
    requires
        preserves_outside(c0, c1, w, h, small),
        forall|qx: int, qy: int| small.contains(qx, qy) ==> big.contains(qx, qy),
    ensures
        preserves_outside(c0, c1, w, h, big),
{
    assert forall|qx: int, qy: int|
        0 <= qx < w && 0 <= qy < h && !big.contains(qx, qy) implies #[trigger] cell_of(
        c1,
        w,
        qx,
        qy,
    ) == cell_of(c0, w, qx, qy) by {
        assert(!small.contains(qx, qy));
    }
}

proof fn lemma_par_preserves(
    cs: Seq<Cell>,
    w: int,
    h: int,
    inner: Rect,
    content: Seq<(char, Style)>,
    cx: int,
    cy: int,
)
    requires
        cs.len() == w * h,
        inner.wf(),
        0 <= cx,
        0 <= cy,
    ensures
        spec_par(cs, w, h, inner, content, cx, cy).len() == cs.len(),
        preserves_outside(cs, spec_par(cs, w, h, inner, content, cx, cy), w, h, inner),
    decreases content.len(),
{
    if content.len() == 0 || cy >= inner.height {
    } else if content[0].0 == '\n' {
        lemma_par_preserves(cs, w, h, inner, content.drop_first(), 0, cy + 1);
    } else if cx >= inner.width {
        lemma_par_preserves(cs, w, h, inner, content.drop_first(), cx, cy);
    } else {
        let c = Cell { symbol: content[0].0, style: content[0].1 };
        lemma_set_preserves(cs, w, h, inner.x + cx, inner.y + cy, c, inner);
        lemma_par_preserves(
            spec_set(cs, w, h, inner.x + cx, inner.y + cy, c),
            w,
            h,
            inner,
            content.drop_first(),
            cx + 1,
            cy,
        );
    }
}

/// The paragraph contract: painting writes cells within the target
/// rectangle only; every cell outside it keeps its previous contents.
pub proof fn lemma_paragraph_in_target(
    cs: Seq<Cell>,
    w: int,
    h: int,
    area: Rect,
    content: Seq<(char, Style)>,
    block: Option<(Seq<char>, Style, Style)>,
)
    requires
        cs.len() == w * h,
        area.wf(),
    ensures
        preserves_outside(cs, spec_paragraph(cs, w, h, area, content, block), w, h, area),
{
    match block {
        Some(b) => {
            lemma_block_preserves(cs, w, h, area, b.0, b.1, b.2);
            let c1 = spec_block(cs, w, h, area, b.0, b.1, b.2);
            lemma_par_preserves(c1, w, h, area.spec_inner(), content, 0, 0);
            lemma_inner_within(area);
            lemma_preserves_mono(
                c1,
                spec_par(c1, w, h, area.spec_inner(), content, 0, 0),
                w,
                h,
                area.spec_inner(),
                area,
            );
        },
        None => {
            lemma_par_preserves(cs, w, h, area, content, 0, 0);
        },
    }
}

proof fn lemma_list_rows_preserves(
    cs: Seq<Cell>,
    w: int,
    h: int,
    inner: Rect,
    items: Seq<(Seq<char>, Style)>,
    i: int,
)
    requires
        cs.len() == w * h,
        inner.wf(),
        0 <= i,
    ensures
        spec_list_rows(cs, w, h, inner, items, i).len() == cs.len(),
        preserves_outside(cs, spec_list_rows(cs, w, h, inner, items, i), w, h, inner),
    decreases items.len() - i,
{
    if 0 <= i && i < items.len() && i < inner.height {
        lemma_text_preserves(
            cs,
            w,
            h,
            inner.x as int,
            inner.y + i,
            items[i].0,
            items[i].1,
            inner.x + inner.width,
            inner,
        );
        lemma_list_rows_preserves(
            spec_text(
                cs,
                w,
                h,
                inner.x as int,
                inner.y + i,
                items[i].0,
                items[i].1,
                inner.x + inner.width,
            ),
            w,
            h,
            inner,
            items,
            i + 1,
        );
    }
}

/// The list contract: painting writes cells within the target
/// rectangle only.
pub proof fn lemma_list_in_target(
    cs: Seq<Cell>,
    w: int,
    h: int,
    area: Rect,
    items: Seq<(Seq<char>, Style)>,
    block: Option<(Seq<char>, Style, Style)>,
)
    requires
        cs.len() == w * h,
        area.wf(),
    ensures
        preserves_outside(cs, spec_list(cs, w, h, area, items, block), w, h, area),
{
    match block {
        Some(b) => {
            lemma_block_preserves(cs, w, h, area, b.0, b.1, b.2);
            let c1 = spec_block(cs, w, h, area, b.0, b.1, b.2);
            lemma_list_rows_preserves(c1, w, h, area.spec_inner(), items, 0);
            lemma_inner_within(area);
            lemma_preserves_mono(
                c1,
                spec_list_rows(c1, w, h, area.spec_inner(), items, 0),
                w,
                h,
                area.spec_inner(),
                area,
            );
        },
        None => {
            lemma_list_rows_preserves(cs, w, h, area, items, 0);
        },
    }
}

proof fn lemma_bar_height_bounds(v: u64, max: u64, avail: int)
    requires
        0 <= avail,
    ensures
        0 <= spec_bar_height(v, max, avail) <= avail,
{
    if max != 0 {
        assert(v * avail >= 0) by (nonlinear_arith)
            requires
                v >= 0,
                avail >= 0,
        ;
        vstd::arithmetic::div_mod::lemma_div_pos_is_pos(v * avail, max as int);
    }
}

proof fn lemma_bars_preserves(
    cs: Seq<Cell>,
    w: int,
    h: int,
    inner: Rect,
    data: Seq<(Seq<char>, u64)>,
    bw: int,
    gap: int,
    max: u64,
    bsty: Style,
    lsty: Style,
    idx: int,
    x: int,
)
    requires
        cs.len() == w * h,
        inner.wf(),
        inner.x <= x,
        0 <= gap,
    ensures
        spec_bars(cs, w, h, inner, data, bw, gap, max, bsty, lsty, idx, x).len() == cs.len(),
        preserves_outside(
            cs,
            spec_bars(cs, w, h, inner, data, bw, gap, max, bsty, lsty, idx, x),
            w,
            h,
            inner,
        ),
    decreases data.len() - idx,
{
    let bar_h = if inner.height >= 2 {
        inner.height - 1
    } else {
        inner.height as int
    };
    if !(idx < 0 || idx >= data.len() || x + bw > inner.x + inner.width || bw <= 0) {
        let hgt = spec_bar_height(data[idx].1, max, bar_h);
        lemma_bar_height_bounds(data[idx].1, max, bar_h);
        let c1 = spec_fill_rect(
            cs,
            w,
            h,
            x,
            x + bw,
            inner.y + bar_h - hgt,
            inner.y + bar_h,
            Cell { symbol: '#', style: bsty },
        );
        lemma_fill_rect_preserves(
            cs,
            w,
            h,
            x,
            x + bw,
            inner.y + bar_h - hgt,
            inner.y + bar_h,
            Cell { symbol: '#', style: bsty },
            inner,
        );
        let c2 = if inner.height >= 2 {
            spec_text(c1, w, h, x, inner.y + bar_h, data[idx].0, lsty, x + bw)
        } else {
            c1
        };
        if inner.height >= 2 {
            lemma_text_preserves(c1, w, h, x, inner.y + bar_h, data[idx].0, lsty, x + bw, inner);
        }
        lemma_bars_preserves(
            c2,
            w,
            h,
            inner,
            data,
            bw,
            gap,
            max,
            bsty,
            lsty,
            idx + 1,
            x + bw + gap,
        );
    }
}

/// The bar chart contract: painting writes cells within the target
/// rectangle only.
pub proof fn lemma_barchart_in_target(
    cs: Seq<Cell>,
    w: int,
    h: int,
    area: Rect,
    data: Seq<(Seq<char>, u64)>,
    bw: int,
    gap: int,
    bsty: Style,
    lsty: Style,
    block: Option<(Seq<char>, Style, Style)>,
)
    requires
        cs.len() == w * h,
        area.wf(),
        0 <= gap,
    ensures
        preserves_outside(
            cs,
            spec_barchart(cs, w, h, area, data, bw, gap, bsty, lsty, block),
            w,
            h,
            area,
        ),
{
    let max = spec_max_val(data, 0);
    match block {
        Some(b) => {
            lemma_block_preserves(cs, w, h, area, b.0, b.1, b.2);
            let c1 = spec_block(cs, w, h, area, b.0, b.1, b.2);
            let inner = area.spec_inner();
            lemma_bars_preserves(
                c1,
                w,
                h,
                inner,
                data,
                bw,
                gap,
                max,
                bsty,
                lsty,
                0,
                inner.x as int,
            );
            lemma_inner_within(area);
            lemma_preserves_mono(
                c1,
                spec_bars(c1, w, h, inner, data, bw, gap, max, bsty, lsty, 0, inner.x as int),
                w,
                h,
                inner,
                area,
            );
        },
        None => {
            lemma_bars_preserves(cs, w, h, area, data, bw, gap, max, bsty, lsty, 0, area.x as int);
        },
    }
}

proof fn lemma_tabs_row_preserves(
    cs: Seq<Cell>,
    w: int,
    h: int,
    inner: Rect,
    titles: Seq<Seq<char>>,
    sel: int,
    hsty: Style,
    sty: Style,
    i: int,
    x: int,
)
    requires
        cs.len() == w * h,
        inner.wf(),
        inner.x <= x,
    ensures
        spec_tabs_row(cs, w, h, inner, titles, sel, hsty, sty, i, x).len() == cs.len(),
        preserves_outside(
            cs,
            spec_tabs_row(cs, w, h, inner, titles, sel, hsty, sty, i, x),
            w,
            h,
            inner,
        ),
    decreases titles.len() - i,
{
    if !(i < 0 || i >= titles.len() || x >= inner.x + inner.width || inner.height <= 0) {
        let st = if i == sel {
            hsty
        } else {
            sty
        };
        let right = inner.x + inner.width;
        let c1 = spec_text(cs, w, h, x, inner.y as int, titles[i], st, right);
        lemma_text_preserves(cs, w, h, x, inner.y as int, titles[i], st, right, inner);
        let c2 = spec_text(c1, w, h, x + titles[i].len(), inner.y as int, " | "@, sty, right);
        lemma_text_preserves(c1, w, h, x + titles[i].len(), inner.y as int, " | "@, sty, right, inner);
        lemma_tabs_row_preserves(
            c2,
            w,
            h,
            inner,
            titles,
            sel,
            hsty,
            sty,
            i + 1,
            x + titles[i].len() + 3,
        );
    }
}

/// The tabs contract: painting writes cells within the target
/// rectangle only.
pub proof fn lemma_tabs_in_target(
    cs: Seq<Cell>,
    w: int,
    h: int,
    area: Rect,
    titles: Seq<Seq<char>>,
    sel: int,
    hsty: Style,
    sty: Style,
    block: Option<(Seq<char>, Style, Style)>,
)
    requires
        cs.len() == w * h,
        area.wf(),
    ensures
        preserves_outside(cs, spec_tabs(cs, w, h, area, titles, sel, hsty, sty, block), w, h, area),
{
    match block {
        Some(b) => {
            lemma_block_preserves(cs, w, h, area, b.0, b.1, b.2);
            let c1 = spec_block(cs, w, h, area, b.0, b.1, b.2);
            let inner = area.spec_inner();
            lemma_tabs_row_preserves(c1, w, h, inner, titles, sel, hsty, sty, 0, inner.x as int);
            lemma_inner_within(area);
            lemma_preserves_mono(
                c1,
                spec_tabs_row(c1, w, h, inner, titles, sel, hsty, sty, 0, inner.x as int),
                w,
                h,
                inner,
                area,
            );
        },
        None => {
            lemma_tabs_row_preserves(cs, w, h, area, titles, sel, hsty, sty, 0, area.x as int);
        },
    }
}

} // verus!
