//! The dashboard itself: its state, the event-loop decision logic, and
//! the full render pass that lays out and paints every panel.

use vstd::prelude::*;

use crate::buffer::Buffer;
use crate::canvas::{spec_canvas, Canvas, MapResolution, Shape};
use crate::geometry::Rect;
use crate::layout::{spec_split, split, Direction, SizeConstraint};
use crate::stat::Stat;
use crate::style::{Cell, Color, Modifier, Style};
use crate::text::{chars_of, parse_markup, spec_markup};
use crate::widgets::{
    spec_barchart, spec_items_view, spec_items_view64, spec_list, spec_paragraph, BarChart, Block,
    List, Paragraph,
};

verus! {

/// A university on the map: a display name and a position in millionths
/// of a degree (x east, y north).
pub struct University {
    pub name: Vec<char>,
    pub lon: i64,
    pub lat: i64,
}

/// Everything one frame is rendered from.
pub struct IU5Years {
    pub innopolis: University,
    pub friends: Vec<University>,
    pub stat: Stat,
    pub size: Rect,
    pub logo_markup: Vec<char>,
    pub uptime_markup: Vec<char>,
}

/// A key as the loop sees it: the quit key matters, anything else only
/// triggers a redraw.
#[derive(Clone, Copy, PartialEq, Eq, Structural, Debug)]
pub enum InputKey {
    Char(char),
    Other,
}

#[derive(Clone, Copy, PartialEq, Eq, Structural, Debug)]
pub enum AppEvent {
    Input(InputKey),
}

/// What the loop does after an event: stop, or redraw — resizing the
/// backend first when the terminal changed under it.
#[derive(Clone, Copy, PartialEq, Eq, Structural, Debug)]
pub enum LoopAction {
    Exit,
    Redraw { resized: bool },
}

pub open spec fn is_quit(ev: AppEvent) -> bool {
    ev == AppEvent::Input(InputKey::Char('q'))
}

/// One turn of the event loop: quit exits and changes nothing; any
/// other event adopts the terminal size just measured and asks for a
/// full redraw, flagging whether the size changed.
pub fn step(size: &mut Rect, ev: AppEvent, current: Rect) -> (a: LoopAction)
    ensures
        is_quit(ev) ==> a == LoopAction::Exit && *final(size) == *old(size),
        !is_quit(ev) ==> a == (LoopAction::Redraw { resized: current != *old(size) })
            && *final(size) == current,
{
    match ev {
        AppEvent::Input(k) => {
            if k == InputKey::Char('q') {
                return LoopAction::Exit;
            }
            let resized: bool = current != *size;
            *size = current;
            LoopAction::Redraw { resized }
        },
    }
}

/// Redraws performed before the first quit event: one per earlier event.
pub open spec fn spec_redraws(events: Seq<AppEvent>) -> int
    decreases events.len(),
{
    if events.len() == 0 {
        0
    } else if is_quit(events[0]) {
        0
    } else {
        1 + spec_redraws(events.drop_first())
    }
}

pub open spec fn spec_quits(events: Seq<AppEvent>) -> bool
    decreases events.len(),
{
    if events.len() == 0 {
        false
    } else {
        is_quit(events[0]) || spec_quits(events.drop_first())
    }
}

/// Drain an event stream as the loop would: each event before the first
/// quit costs exactly one redraw, the quit ends the loop at once, and
/// nothing after it is looked at.
pub fn process_events(events: &Vec<AppEvent>) -> (r: (usize, bool))
    ensures
        r.0 == spec_redraws(events@),
        r.1 == spec_quits(events@),
{
    let n: usize = events.len();
    let mut count: usize = 0;
    let mut i: usize = 0;
    proof {
        assert(events@.skip(0) =~= events@);
    }
    while i < n
        invariant
            0 <= i <= n,
            n == events@.len(),
            count == i,
            spec_redraws(events@) == i + spec_redraws(events@.skip(i as int)),
            spec_quits(events@) == spec_quits(events@.skip(i as int)),
        decreases n - i,
    {
        proof {
            assert(events@.skip(i as int)[0] == events@[i as int]);
            assert(events@.skip(i as int).drop_first() =~= events@.skip(i as int + 1));
        }
        let ev: AppEvent = events[i];
        match ev {
            AppEvent::Input(k) => {
                if k == InputKey::Char('q') {
                    return (count, true);
                }
            },
        }
        count = count + 1;
        i = i + 1;
    }
    proof {
        assert(events@.skip(n as int) =~= Seq::<AppEvent>::empty());
    }
    (count, false)
}

/// An owned copy of a character vector.
pub fn copy_chars(v: &Vec<char>) -> (out: Vec<char>)
    ensures
        out@ == v@,
{
    let n: usize = v.len();
    let mut out: Vec<char> = Vec::new();
    let mut i: usize = 0;
    while i < n
        invariant
            0 <= i <= n,
            n == v@.len(),
            out@ =~= v@.take(i as int),
        decreases n - i,
    {
        proof {
            assert(v@.take(i as int + 1) =~= v@.take(i as int).push(v@[i as int]));
        }
        out.push(v[i]);
        i = i + 1;
    }
    proof {
        assert(v@.take(n as int) =~= v@);
    }
    out
}

pub open spec fn plain() -> Style {
    Style { fg: Color::Reset, bg: Color::Reset, modifier: Modifier::Plain }
}

pub open spec fn fg_style(c: Color) -> Style {
    Style { fg: c, bg: Color::Reset, modifier: Modifier::Plain }
}

/// The shapes of the world panel: the coastline outline, a point for
/// the home university, and one line from home to every friend.
pub open spec fn frame_shapes(inno_lon: i64, inno_lat: i64, friends: Seq<University>) -> Seq<
    Shape,
> {
    seq![
        Shape::WorldMap { resolution: MapResolution::Low, color: Color::White },
        Shape::Point { x: inno_lon, y: inno_lat, color: Color::Green },
    ] + Seq::new(
        friends.len(),
        |i: int|
            Shape::Line {
                x1: inno_lon,
                y1: inno_lat,
                x2: friends[i].lon,
                y2: friends[i].lat,
                color: Color::Green,
            },
    )
}

/// The friends list: every name, then a trailing ellipsis row.
pub open spec fn list_items_spec(friends: Seq<University>) -> Seq<(Seq<char>, Style)> {
    Seq::new(
        friends.len() + 1,
        |i: int|
            if i < friends.len() {
                (friends[i].name@, plain())
            } else {
                ("..."@, plain())
            },
    )
}

/// The bar chart's data: day labels with their activity counts.
pub open spec fn bar_data_spec(stat: Stat) -> Seq<(Seq<char>, u64)> {
    Seq::new(stat.activity_view().len(), |i: int| (stat.days_view()[i], stat.activity_view()[i]))
}

/// The whole frame, as a function of the dashboard data and the
/// terminal size alone: a blank buffer, the layout recomputed from the
/// root rectangle, and the five panels painted in order. Rendering has
/// no other input, so re-rendering the same state yields the same frame.
pub open spec fn frame_spec(app: IU5Years, w: u16, h: u16) -> Seq<Cell> {
    let root = Rect { x: 0, y: 0, width: w, height: h };
    let blank = Seq::new((w * h) as nat, |i: int| Cell::spec_blank());
    let rows = spec_split(
        root,
        Direction::Vertical,
        seq![SizeConstraint::Fixed(13), SizeConstraint::Min(1), SizeConstraint::Fixed(10)],
    );
    let top = spec_split(
        rows[0],
        Direction::Horizontal,
        seq![SizeConstraint::Fixed(44), SizeConstraint::Min(0)],
    );
    let mid = spec_split(
        rows[1],
        Direction::Horizontal,
        seq![SizeConstraint::Percent(65), SizeConstraint::Percent(35)],
    );
    let c1 = spec_paragraph(
        blank,
        w as int,
        h as int,
        top[0],
        spec_markup(app.logo_markup@, fg_style(Color::Cyan)),
        Some(("Innopolis University"@, plain(), plain())),
    );
    let c2 = spec_barchart(
        c1,
        w as int,
        h as int,
        top[1],
        bar_data_spec(app.stat),
        2,
        1,
        fg_style(Color::Yellow),
        fg_style(Color::Green),
        Some(("Telegram activity: 10th of Nov. - 11th of Dec."@, plain(), plain())),
    );
    let c3 = spec_canvas(
        c2,
        w as int,
        h as int,
        mid[0],
        -180_000_000i64,
        180_000_000i64,
        -90_000_000i64,
        90_000_000i64,
        frame_shapes(app.innopolis.lon, app.innopolis.lat, app.friends@),
        Some(("World"@, plain(), plain())),
    );
    let c4 = spec_list(
        c3,
        w as int,
        h as int,
        mid[1],
        list_items_spec(app.friends@),
        Some(("Friends"@, plain(), plain())),
    );
    spec_paragraph(
        c4,
        w as int,
        h as int,
        rows[2],
        spec_markup(
            app.uptime_markup@,
            Style { fg: Color::DarkGray, bg: Color::Reset, modifier: Modifier::Bold },
        ),
        Some(("Uptime"@, plain(), plain())),
    )
}

/// One full render pass: recompute the layout from the root rectangle
/// and paint every panel into a fresh buffer of the given size.
pub fn render_frame(app: &IU5Years, width: u16, height: u16) -> (b: Buffer)
    requires
        app.stat.wf(),
    ensures
        b.wf(),
        b.width == width,
        b.height == height,
        b.cells@ == frame_spec(*app, width, height),
{
    let plain_sty: Style = Style { fg: Color::Reset, bg: Color::Reset, modifier: Modifier::Plain };
    let root: Rect = Rect::new(0, 0, width, height);
    let mut buf: Buffer = Buffer::new(width, height);

    let mut cs1: Vec<SizeConstraint> = Vec::new();
    cs1.push(SizeConstraint::Fixed(13));
    cs1.push(SizeConstraint::Min(1));
    cs1.push(SizeConstraint::Fixed(10));
    proof {
        assert(cs1@ =~= seq![
            SizeConstraint::Fixed(13),
            SizeConstraint::Min(1),
            SizeConstraint::Fixed(10),
        ]);
    }
    let rows: Vec<Rect> = split(&root, Direction::Vertical, &cs1);

    let mut cs2: Vec<SizeConstraint> = Vec::new();
    cs2.push(SizeConstraint::Fixed(44));
    cs2.push(SizeConstraint::Min(0));
    proof {
        assert(cs2@ =~= seq![SizeConstraint::Fixed(44), SizeConstraint::Min(0)]);
    }
    let top: Vec<Rect> = split(&rows[0], Direction::Horizontal, &cs2);

    let mut cs3: Vec<SizeConstraint> = Vec::new();
    cs3.push(SizeConstraint::Percent(65));
    cs3.push(SizeConstraint::Percent(35));
    proof {
        assert(cs3@ =~= seq![SizeConstraint::Percent(65), SizeConstraint::Percent(35)]);
    }
    let mid: Vec<Rect> = split(&rows[1], Direction::Horizontal, &cs3);

    // the logo panel
    let logo_content: Vec<(char, Style)> = parse_markup(
        &app.logo_markup,
        Style { fg: Color::Cyan, bg: Color::Reset, modifier: Modifier::Plain },
    );
    let par_logo = Paragraph::new(
        logo_content,
        Some(Block::new(chars_of("Innopolis University"), plain_sty, plain_sty)),
    );
    par_logo.paint(&top[0], &mut buf);

    // the activity chart
    let d: Vec<(&str, u64)> = app.stat.data();
    let nd: usize = d.len();
    let mut bars: Vec<(Vec<char>, u64)> = Vec::new();
    let mut i: usize = 0;
    while i < nd
        invariant
            0 <= i <= nd,
            nd == d@.len(),
            nd == app.stat.activity_view().len(),
            forall|j: int|
                0 <= j < nd ==> d@[j].0@ == app.stat.days_view()[j] && d@[j].1
                    == app.stat.activity_view()[j],
            bars@.len() == i,
            spec_items_view64(bars@) =~= bar_data_spec(app.stat).take(i as int),
        decreases nd - i,
    {
        let label: Vec<char> = chars_of(d[i].0);
        bars.push((label, d[i].1));
        proof {
            assert(spec_items_view64(bars@) =~= bar_data_spec(app.stat).take(i as int + 1));
        }
        i = i + 1;
    }
    proof {
        assert(bar_data_spec(app.stat).take(nd as int) =~= bar_data_spec(app.stat));
    }
    let chart = BarChart::new(
        bars,
        2,
        1,
        Style { fg: Color::Yellow, bg: Color::Reset, modifier: Modifier::Plain },
        Style { fg: Color::Green, bg: Color::Reset, modifier: Modifier::Plain },
        Some(
            Block::new(
                chars_of("Telegram activity: 10th of Nov. - 11th of Dec."),
                plain_sty,
                plain_sty,
            ),
        ),
    );
    chart.paint(&top[1], &mut buf);

    // the world panel
    let lon: i64 = app.innopolis.lon;
    let lat: i64 = app.innopolis.lat;
    let ghost fsh = frame_shapes(lon, lat, app.friends@);
    let mut shapes: Vec<Shape> = Vec::new();
    shapes.push(Shape::WorldMap { resolution: MapResolution::Low, color: Color::White });
    shapes.push(Shape::Point { x: lon, y: lat, color: Color::Green });
    let nf: usize = app.friends.len();
    let mut k: usize = 0;
    while k < nf
        invariant
            0 <= k <= nf,
            nf == app.friends@.len(),
            fsh == frame_shapes(lon, lat, app.friends@),
            fsh.len() == 2 + nf,
            shapes@ =~= fsh.take(2 + k as int),
        decreases nf - k,
    {
        let fr: &University = &app.friends[k];
        shapes.push(
            Shape::Line { x1: lon, y1: lat, x2: fr.lon, y2: fr.lat, color: Color::Green },
        );
        proof {
            assert(fsh[2 + k as int] == (Shape::Line {
                x1: lon,
                y1: lat,
                x2: app.friends@[k as int].lon,
                y2: app.friends@[k as int].lat,
                color: Color::Green,
            }));
            assert(shapes@ =~= fsh.take(2 + k as int + 1));
        }
        k = k + 1;
    }
    proof {
        assert(fsh.take(2 + nf as int) =~= fsh);
    }
    let cv = Canvas::new(
        -180_000_000,
        180_000_000,
        -90_000_000,
        90_000_000,
        shapes,
        Some(Block::new(chars_of("World"), plain_sty, plain_sty)),
    );
    cv.paint(&mid[0], &mut buf);

    // the friends list
    let ghost lit = list_items_spec(app.friends@);
    let mut items: Vec<(Vec<char>, Style)> = Vec::new();
    let mut q: usize = 0;
    while q < nf
        invariant
            0 <= q <= nf,
            nf == app.friends@.len(),
            lit == list_items_spec(app.friends@),
            lit.len() == nf + 1,
            plain_sty == plain(),
            items@.len() == q,
            spec_items_view(items@) =~= lit.take(q as int),
        decreases nf - q,
    {
        let name: Vec<char> = copy_chars(&app.friends[q].name);
        let ghost nview = name@;
        let ghost before = items@;
        items.push((name, plain_sty));
        proof {
            assert forall|t: int| 0 <= t <= q as int implies spec_items_view(items@)[t]
                == lit.take(q as int + 1)[t] by {
                assert(spec_items_view(items@)[t] == (items@[t].0@, items@[t].1));
                if t < q as int {
                    assert(items@[t] == before[t]);
                    assert(spec_items_view(before)[t] == (before[t].0@, before[t].1));
                } else {
                    assert(items@[t].0@ == nview);
                }
            }
            assert(spec_items_view(items@) =~= lit.take(q as int + 1));
        }
        q = q + 1;
    }
    let tail: Vec<char> = chars_of("...");
    let ghost tview = tail@;
    let ghost before2 = items@;
    items.push((tail, plain_sty));
    proof {
        assert forall|t: int| 0 <= t <= nf as int implies spec_items_view(items@)[t] == lit[t] by {
            assert(spec_items_view(items@)[t] == (items@[t].0@, items@[t].1));
            if t < nf as int {
                assert(items@[t] == before2[t]);
                assert(spec_items_view(before2)[t] == (before2[t].0@, before2[t].1));
                assert(lit.take(nf as int)[t] == lit[t]);
            } else {
                assert(items@[t].0@ == tview);
            }
        }
        assert(spec_items_view(items@) =~= lit);
    }
    let lst = List::new(items, Some(Block::new(chars_of("Friends"), plain_sty, plain_sty)));
    lst.paint(&mid[1], &mut buf);

    // the uptime banner
    let up_content: Vec<(char, Style)> = parse_markup(
        &app.uptime_markup,
        Style { fg: Color::DarkGray, bg: Color::Reset, modifier: Modifier::Bold },
    );
    let par_up = Paragraph::new(
        up_content,
        Some(Block::new(chars_of("Uptime"), plain_sty, plain_sty)),
    );
    par_up.paint(&rows[2], &mut buf);

    buf
}

/// Re-rendering is idempotent: the frame is a function of the dashboard
/// data and the size alone, so two renders of the same state are
/// cell-for-cell identical.
pub proof fn lemma_render_idempotent(b1: Buffer, b2: Buffer, app: IU5Years, w: u16, h: u16)
    requires
        b1.cells@ == frame_spec(app, w, h),
        b2.cells@ == frame_spec(app, w, h),
    ensures
        b1.cells@ == b2.cells@,
{
}

} // verus!
