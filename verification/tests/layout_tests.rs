use iu5years::{split, Direction, Rect, SizeConstraint};

fn rect(x: u16, y: u16, w: u16, h: u16) -> Rect {
    Rect::new(x, y, w, h)
}

#[test]
fn rect_edges_and_interior() {
    let r = rect(2, 3, 10, 5);
    assert_eq!(r.right(), 12);
    assert_eq!(r.bottom(), 8);
    assert_eq!(r.inner(), rect(3, 4, 8, 3));
    // a rectangle too thin for a border shrinks to nothing
    assert_eq!(rect(4, 4, 1, 5).inner(), rect(4, 4, 0, 0));
}

#[test]
fn vertical_split_covers_the_frame_exactly() {
    let root = rect(0, 0, 80, 24);
    let cs = vec![
        SizeConstraint::Fixed(13),
        SizeConstraint::Min(1),
        SizeConstraint::Fixed(10),
    ];
    let out = split(&root, Direction::Vertical, &cs);
    assert_eq!(out.len(), 3);
    let total: u32 = out.iter().map(|r| r.height as u32).sum();
    assert_eq!(total, 24);
    assert_eq!(out[0], rect(0, 0, 80, 13));
    assert_eq!(out[1], rect(0, 13, 80, 1));
    assert_eq!(out[2], rect(0, 14, 80, 10));
}

#[test]
fn min_takes_all_remaining_space() {
    let root = rect(0, 0, 80, 30);
    let cs = vec![
        SizeConstraint::Fixed(13),
        SizeConstraint::Min(1),
        SizeConstraint::Fixed(10),
    ];
    let out = split(&root, Direction::Vertical, &cs);
    assert_eq!(out[0].height, 13);
    assert_eq!(out[1].height, 7);
    assert_eq!(out[2].height, 10);
    assert_eq!(out[1].y, 13);
    assert_eq!(out[2].y, 20);
}

#[test]
fn cross_axis_is_inherited_unchanged() {
    let root = rect(3, 5, 40, 20);
    let cs = vec![SizeConstraint::Percent(65), SizeConstraint::Percent(35)];
    let out = split(&root, Direction::Horizontal, &cs);
    for r in &out {
        assert_eq!(r.y, 5);
        assert_eq!(r.height, 20);
    }
    let total: u32 = out.iter().map(|r| r.width as u32).sum();
    assert_eq!(total, 40);
}

#[test]
fn percent_rounding_remainder_goes_to_the_last_percent() {
    let root = rect(0, 0, 21, 5);
    let cs = vec![SizeConstraint::Percent(50), SizeConstraint::Percent(50)];
    let out = split(&root, Direction::Horizontal, &cs);
    assert_eq!(out[0].width, 10);
    assert_eq!(out[1].width, 11);
}

#[test]
fn zero_constraints_give_an_empty_result() {
    let root = rect(0, 0, 10, 10);
    let cs: Vec<SizeConstraint> = vec![];
    let out = split(&root, Direction::Vertical, &cs);
    assert!(out.is_empty());
}

#[test]
fn oversized_fixed_constraints_are_served_first_come() {
    let root = rect(0, 0, 10, 4);
    let cs = vec![
        SizeConstraint::Fixed(8),
        SizeConstraint::Fixed(8),
        SizeConstraint::Min(0),
    ];
    let out = split(&root, Direction::Horizontal, &cs);
    assert_eq!(out[0].width, 8);
    assert_eq!(out[1].width, 2);
    assert_eq!(out[2].width, 0);
    let total: u32 = out.iter().map(|r| r.width as u32).sum();
    assert_eq!(total, 10);
}

#[test]
fn mixed_constraints_tile_many_sizes() {
    for w in [1u16, 2, 7, 19, 44, 80, 120, 255] {
        let root = rect(0, 0, w, 3);
        let cs = vec![
            SizeConstraint::Fixed(5),
            SizeConstraint::Percent(30),
            SizeConstraint::Min(2),
            SizeConstraint::Percent(10),
            SizeConstraint::Min(0),
        ];
        let out = split(&root, Direction::Horizontal, &cs);
        assert_eq!(out.len(), 5);
        let total: u32 = out.iter().map(|r| r.width as u32).sum();
        assert_eq!(total, w as u32, "width {} not tiled", w);
        let mut pos = 0u16;
        for r in &out {
            assert_eq!(r.x, pos);
            pos += r.width;
        }
    }
}
