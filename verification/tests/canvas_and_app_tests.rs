use iu5years::{
    chars_of, process_events, project, render_frame, split, step, world_outline, AppEvent, Buffer,
    Canvas, Color, Direction, InputKey, IU5Years, LoopAction, MapResolution, Rect, Shape,
    SizeConstraint, Stat, University,
};

const LON_MIN: i64 = -180_000_000;
const LON_MAX: i64 = 180_000_000;
const LAT_MIN: i64 = -90_000_000;
const LAT_MAX: i64 = 90_000_000;

#[test]
fn projection_stays_inside_the_target_rectangle() {
    let area = Rect::new(2, 3, 10, 5);
    let samples = [
        (0i64, 0i64),
        (LON_MIN, LAT_MIN),
        (LON_MAX, LAT_MAX),
        (48_743_411, 55_753_449),
        (-79_943_012, 40_442_808),
    ];
    for (x, y) in samples {
        let p = project(x, y, LON_MIN, LON_MAX, LAT_MIN, LAT_MAX, &area);
        let (c, r) = p.expect("in-bounds coordinate must project");
        assert!(c >= 2 && c < 12, "column {} out of the rectangle", c);
        assert!(r >= 3 && r < 8, "row {} out of the rectangle", r);
    }
}

#[test]
fn projection_drops_out_of_bounds_coordinates() {
    let area = Rect::new(0, 0, 10, 10);
    assert_eq!(project(LON_MAX + 1, 0, LON_MIN, LON_MAX, LAT_MIN, LAT_MAX, &area), None);
    assert_eq!(project(0, LAT_MIN - 1, LON_MIN, LON_MAX, LAT_MIN, LAT_MAX, &area), None);
    // a degenerate rectangle projects nothing rather than failing
    let empty = Rect::new(0, 0, 0, 0);
    assert_eq!(project(0, 0, LON_MIN, LON_MAX, LAT_MIN, LAT_MAX, &empty), None);
}

#[test]
fn projection_orients_the_axes() {
    let area = Rect::new(0, 0, 10, 10);
    // the south-west corner lands on the first column, last row
    assert_eq!(
        project(LON_MIN, LAT_MIN, LON_MIN, LON_MAX, LAT_MIN, LAT_MAX, &area),
        Some((0, 9))
    );
    // the north-east corner clamps onto the last column, first row
    assert_eq!(
        project(LON_MAX, LAT_MAX, LON_MIN, LON_MAX, LAT_MIN, LAT_MAX, &area),
        Some((9, 0))
    );
}

#[test]
fn world_outline_tiers() {
    let low = world_outline(MapResolution::Low);
    let high = world_outline(MapResolution::High);
    assert_eq!(low.len(), 20);
    assert_eq!(high.len(), 36);
    assert_eq!(&high[..20], &low[..]);
}

#[test]
fn canvas_draws_a_point_where_it_projects() {
    let mut buf = Buffer::new(10, 10);
    let shapes = vec![Shape::Point { x: LON_MIN, y: LAT_MIN, color: Color::Green }];
    let cv = Canvas::new(LON_MIN, LON_MAX, LAT_MIN, LAT_MAX, shapes, None);
    cv.paint(&Rect::new(0, 0, 10, 10), &mut buf);
    assert_eq!(buf.get(0, 9).symbol, '*');
    assert_eq!(buf.get(0, 9).style.fg, Color::Green);
    assert_eq!(buf.get(5, 5).symbol, ' ');
}

#[test]
fn canvas_line_connects_its_endpoints() {
    let mut buf = Buffer::new(10, 1);
    let shapes = vec![Shape::Line {
        x1: LON_MIN,
        y1: 0,
        x2: LON_MAX,
        y2: 0,
        color: Color::Green,
    }];
    let cv = Canvas::new(LON_MIN, LON_MAX, LAT_MIN, LAT_MAX, shapes, None);
    cv.paint(&Rect::new(0, 0, 10, 1), &mut buf);
    for x in 0..10u16 {
        assert_eq!(buf.get(x, 0).symbol, '*', "gap at column {}", x);
    }
}

#[test]
fn later_shapes_paint_over_earlier_ones() {
    let mut buf = Buffer::new(3, 3);
    let shapes = vec![
        Shape::Point { x: 0, y: 0, color: Color::White },
        Shape::Point { x: 0, y: 0, color: Color::Green },
    ];
    let cv = Canvas::new(LON_MIN, LON_MAX, LAT_MIN, LAT_MAX, shapes, None);
    cv.paint(&Rect::new(0, 0, 3, 3), &mut buf);
    assert_eq!(buf.get(1, 1).style.fg, Color::Green);
}

fn key(c: char) -> AppEvent {
    AppEvent::Input(InputKey::Char(c))
}

#[test]
fn quit_ends_the_loop_after_exactly_two_redraws() {
    let events = vec![key('a'), key('b'), key('q')];
    let (redraws, exited) = process_events(&events);
    assert_eq!(redraws, 2);
    assert!(exited);
}

#[test]
fn without_a_quit_key_every_event_redraws() {
    let events = vec![key('a'), AppEvent::Input(InputKey::Other), key('z')];
    let (redraws, exited) = process_events(&events);
    assert_eq!(redraws, 3);
    assert!(!exited);
}

#[test]
fn nothing_after_the_quit_key_is_consumed() {
    let events = vec![key('q'), key('a'), key('b')];
    let (redraws, exited) = process_events(&events);
    assert_eq!(redraws, 0);
    assert!(exited);
}

#[test]
fn step_reacts_to_resize_and_quit() {
    let mut size = Rect::new(0, 0, 80, 24);
    let grown = Rect::new(0, 0, 100, 30);

    let a = step(&mut size, key('x'), grown);
    assert_eq!(a, LoopAction::Redraw { resized: true });
    assert_eq!(size, grown);

    let b = step(&mut size, key('x'), grown);
    assert_eq!(b, LoopAction::Redraw { resized: false });

    let c = step(&mut size, key('q'), Rect::new(0, 0, 10, 10));
    assert_eq!(c, LoopAction::Exit);
    assert_eq!(size, grown);
}

fn sample_app() -> IU5Years {
    let activity: Vec<u64> = vec![20, 39, 2, 55, 119, 66, 41, 79, 11, 7, 83, 150];
    IU5Years {
        innopolis: University {
            name: chars_of("Innopolis University"),
            lon: 48_743_411,
            lat: 55_753_449,
        },
        friends: vec![
            University {
                name: chars_of("University of Bonn"),
                lon: 7_086_522,
                lat: 50_726_771,
            },
            University {
                name: chars_of("Carnegie Mellon University"),
                lon: -79_943_012,
                lat: 40_442_808,
            },
            University {
                name: chars_of("Politecnico di Milano"),
                lon: 9_227_545,
                lat: 45_478_415,
            },
        ],
        stat: Stat::new(11, 10, &activity),
        size: Rect::new(0, 0, 80, 24),
        logo_markup: iu5years::logo(&chars_of("X: INNOPOLIS\nUNIVERSITY |-|")),
        uptime_markup: iu5years::uptime(&chars_of("## uptime ##")),
    }
}

#[test]
fn rendering_twice_yields_an_identical_buffer() {
    let app = sample_app();
    let first = render_frame(&app, 80, 24);
    let second = render_frame(&app, 80, 24);
    assert_eq!(first, second);
}

#[test]
fn a_frame_fills_the_terminal_and_draws_every_panel() {
    let app = sample_app();
    let buf = render_frame(&app, 80, 30);
    assert_eq!(buf.width, 80);
    assert_eq!(buf.height, 30);
    // rows are 13, 7 and 10 cells high; the top row splits at column 44
    // and the middle row at column 52 (65% of 80)
    assert_eq!(buf.get(0, 0).symbol, '+'); // logo block
    assert_eq!(buf.get(44, 0).symbol, '+'); // chart block
    assert_eq!(buf.get(0, 13).symbol, '+'); // world block
    assert_eq!(buf.get(52, 13).symbol, '+'); // friends block
    assert_eq!(buf.get(0, 20).symbol, '+'); // uptime block
    // the friends list holds the first name inside its border
    assert_eq!(buf.get(53, 14).symbol, 'U');
}

#[test]
fn degenerate_terminal_sizes_render_without_failing() {
    let app = sample_app();
    for (w, h) in [(0u16, 0u16), (1, 1), (5, 3), (13, 24)] {
        let buf = render_frame(&app, w, h);
        assert_eq!(buf.width, w);
        assert_eq!(buf.height, h);
    }
}

#[test]
fn resize_recomputes_the_layout_from_the_new_root() {
    let mut size = Rect::new(0, 0, 80, 24);
    let app = sample_app();
    let _first = render_frame(&app, size.width, size.height);

    // an event arrives and the terminal has grown meanwhile
    let grown = Rect::new(0, 0, 100, 30);
    let action = step(&mut size, key('x'), grown);
    assert_eq!(action, LoopAction::Redraw { resized: true });
    assert_eq!(size, Rect::new(0, 0, 100, 30));

    let second = render_frame(&app, size.width, size.height);
    assert_eq!(second.width, 100);
    assert_eq!(second.height, 30);

    // the recomputed rows follow the new dimensions
    let rows = split(
        &size,
        Direction::Vertical,
        &vec![
            SizeConstraint::Fixed(13),
            SizeConstraint::Min(1),
            SizeConstraint::Fixed(10),
        ],
    );
    assert_eq!(rows[1].height, 7);
    let mid = split(
        &rows[1],
        Direction::Horizontal,
        &vec![SizeConstraint::Percent(65), SizeConstraint::Percent(35)],
    );
    assert_eq!(mid[0].width, 65);
    assert_eq!(mid[1].width, 35);
}
