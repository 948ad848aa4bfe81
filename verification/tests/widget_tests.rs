use iu5years::{
    bar_height, BarChart, Block, Buffer, Cell, Color, List, Modifier, Paragraph, Rect, Style,
    Tabs,
};

fn plain() -> Style {
    Style::plain()
}

#[test]
fn style_builders_replace_one_field_at_a_time() {
    let s = Style::plain().fg(Color::Red).bg(Color::Blue).modifier(Modifier::Bold);
    assert_eq!(s.fg, Color::Red);
    assert_eq!(s.bg, Color::Blue);
    assert_eq!(s.modifier, Modifier::Bold);
    assert_eq!(plain(), Style { fg: Color::Reset, bg: Color::Reset, modifier: Modifier::Plain });
}

fn chars(s: &str) -> Vec<char> {
    s.chars().collect()
}

#[test]
fn bar_scaling_matches_the_tallest_value() {
    // the tallest value fills the full height, the others scale down
    assert_eq!(bar_height(150, 150, 10), 10);
    assert_eq!(bar_height(20, 150, 10), 1); // floor(20 / 150 * 10)
    assert_eq!(bar_height(10, 150, 10), 0);
    assert_eq!(bar_height(0, 150, 10), 0);
    assert_eq!(bar_height(75, 150, 10), 5);
    assert_eq!(bar_height(7, 0, 10), 0); // no data, no bars
}

#[test]
fn barchart_paints_scaled_columns() {
    // 3 one-cell-wide bars, 10 bar rows + 1 label row
    let mut buf = Buffer::new(3, 11);
    let data = vec![
        (chars("a"), 20u64),
        (chars("b"), 150u64),
        (chars("c"), 10u64),
    ];
    let chart = BarChart::new(data, 1, 0, plain(), plain(), None);
    chart.paint(&Rect::new(0, 0, 3, 11), &mut buf);
    let count = |x: u16| -> usize {
        (0..10).filter(|y| buf.get(x, *y).symbol == '#').count()
    };
    assert_eq!(count(0), 1);
    assert_eq!(count(1), 10);
    assert_eq!(count(2), 0);
    // labels sit on the bottom row
    assert_eq!(buf.get(0, 10).symbol, 'a');
    assert_eq!(buf.get(1, 10).symbol, 'b');
    assert_eq!(buf.get(2, 10).symbol, 'c');
}

#[test]
fn block_draws_border_and_title() {
    let mut buf = Buffer::new(8, 4);
    let blk = Block::new(chars("Hi"), plain(), plain());
    blk.paint(&Rect::new(0, 0, 8, 4), &mut buf);
    assert_eq!(buf.get(0, 0).symbol, '+');
    assert_eq!(buf.get(7, 0).symbol, '+');
    assert_eq!(buf.get(0, 3).symbol, '+');
    assert_eq!(buf.get(7, 3).symbol, '+');
    assert_eq!(buf.get(3, 0).symbol, '-');
    assert_eq!(buf.get(0, 2).symbol, '|');
    assert_eq!(buf.get(7, 1).symbol, '|');
    // title overwrites the top edge just after the corner
    assert_eq!(buf.get(1, 0).symbol, 'H');
    assert_eq!(buf.get(2, 0).symbol, 'i');
}

#[test]
fn degenerate_rectangles_paint_nothing() {
    let blank = Buffer::new(6, 6);
    let mut buf = Buffer::new(6, 6);
    let blk = Block::new(chars("t"), plain(), plain());
    blk.paint(&Rect::new(2, 2, 1, 1), &mut buf);
    assert_eq!(buf, blank);
    let lst = List::new(vec![(chars("row"), plain())], None);
    lst.paint(&Rect::new(0, 0, 0, 0), &mut buf);
    assert_eq!(buf, blank);
}

#[test]
fn paragraph_writes_lines_and_truncates() {
    let mut buf = Buffer::new(3, 2);
    let content: Vec<(char, Style)> =
        "abcd\nef".chars().map(|c| (c, plain())).collect();
    let par = Paragraph::new(content, None);
    par.paint(&Rect::new(0, 0, 3, 2), &mut buf);
    assert_eq!(buf.get(0, 0).symbol, 'a');
    assert_eq!(buf.get(1, 0).symbol, 'b');
    assert_eq!(buf.get(2, 0).symbol, 'c'); // 'd' truncated, not wrapped
    assert_eq!(buf.get(0, 1).symbol, 'e');
    assert_eq!(buf.get(1, 1).symbol, 'f');
    assert_eq!(buf.get(2, 1).symbol, ' ');
}

#[test]
fn paragraph_styles_follow_the_markup_runs() {
    let mut buf = Buffer::new(4, 1);
    let yellow = Style { fg: Color::Yellow, bg: Color::Reset, modifier: Modifier::Plain };
    let content = vec![('o', plain()), ('k', yellow)];
    let par = Paragraph::new(content, None);
    par.paint(&Rect::new(0, 0, 4, 1), &mut buf);
    assert_eq!(buf.get(0, 0).style, plain());
    assert_eq!(buf.get(1, 0).style, yellow);
}

#[test]
fn list_clips_to_the_available_height() {
    let mut buf = Buffer::new(5, 2);
    let items = vec![
        (chars("one"), plain()),
        (chars("two"), plain()),
        (chars("three"), plain()),
    ];
    let lst = List::new(items, None);
    lst.paint(&Rect::new(0, 0, 5, 2), &mut buf);
    assert_eq!(buf.get(0, 0).symbol, 'o');
    assert_eq!(buf.get(0, 1).symbol, 't');
    // the third row does not exist: nothing else was written
    let cell: Cell = buf.get(4, 1);
    assert_eq!(cell.symbol, ' ');
}

#[test]
fn tabs_highlight_the_selected_title() {
    let mut buf = Buffer::new(12, 1);
    let red = Style { fg: Color::Red, bg: Color::Reset, modifier: Modifier::Plain };
    let tabs = Tabs::new(vec![chars("one"), chars("two")], 1, red, plain(), None);
    tabs.paint(&Rect::new(0, 0, 12, 1), &mut buf);
    let text: String = (0..12).map(|x| buf.get(x, 0).symbol).collect();
    assert_eq!(text, "one | two | ");
    assert_eq!(buf.get(0, 0).style, plain());
    assert_eq!(buf.get(6, 0).style, red);
    assert_eq!(buf.get(4, 0).style, plain()); // the separator keeps the base style
}

#[test]
fn writes_stay_inside_the_assigned_rectangle() {
    let blank = Buffer::new(10, 10);
    let mut buf = Buffer::new(10, 10);
    let blk = Block::new(chars("title far too long for the box"), plain(), plain());
    let par = Paragraph::new(
        "some long paragraph\nwith\nmany\nmany\nlines".chars().map(|c| (c, plain())).collect(),
        Some(blk),
    );
    let target = Rect::new(2, 2, 5, 4);
    par.paint(&target, &mut buf);
    for x in 0..10u16 {
        for y in 0..10u16 {
            let inside = x >= 2 && x < 7 && y >= 2 && y < 6;
            if !inside {
                assert_eq!(buf.get(x, y), blank.get(x, y), "cell ({}, {}) leaked", x, y);
            }
        }
    }
}
