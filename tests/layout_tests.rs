use termlayout::{Border, Fraction, Layout, LayoutError, Rect, SplitDirection};

fn pct(num: u16, den: u16) -> Fraction {
    Fraction { num, den }
}

fn find<'a>(rects: &'a [Rect], name: &str) -> &'a Rect {
    rects.iter().find(|r| r.name == name).expect("missing region")
}

fn pos(r: &Rect) -> (u16, u16, u16, u16) {
    (r.x, r.y, r.width, r.height)
}

#[test]
fn vertical_percentage_split_truncates() {
    let l = Layout::merge(
        Layout::new_str("top"),
        Layout::new_str("bottom"),
        SplitDirection::VERTICAL,
        pct(3, 10),
    )
    .unwrap();
    let rects = Rect::from_layout(&l, 1, 1, 80, 24).unwrap();
    assert_eq!(rects.len(), 2);
    assert_eq!(pos(find(&rects, "top")), (1, 1, 80, 7));
    assert_eq!(pos(find(&rects, "bottom")), (1, 8, 80, 17));
}

#[test]
fn horizontal_percentage_split() {
    let l = Layout::merge(
        Layout::new_str("left"),
        Layout::new_str("right"),
        SplitDirection::HORIZONTAL,
        pct(1, 2),
    )
    .unwrap();
    let rects = Rect::from_layout(&l, 1, 1, 81, 10).unwrap();
    assert_eq!(pos(&rects[0]), (1, 1, 40, 10));
    assert_eq!(pos(&rects[1]), (41, 1, 41, 10));
}

#[test]
fn percentage_split_with_border_keeps_gutter() {
    let l = Layout::merge(
        Layout::new_border_str("a", Border::lined()),
        Layout::new_str("b"),
        SplitDirection::HORIZONTAL,
        pct(1, 2),
    )
    .unwrap();
    let rects = Rect::from_layout(&l, 1, 1, 21, 5).unwrap();
    // near region: 10 cells wide, border inside it; one gutter cell; far region 10 cells.
    assert_eq!(pos(&rects[0]), (2, 2, 8, 3));
    assert_eq!(rects[0].border, Some(Border::lined()));
    assert_eq!(pos(&rects[1]), (12, 1, 10, 5));
    // near + gutter + far spans the whole width
    assert_eq!((rects[0].width + 2) + 1 + rects[1].width, 21);
}

#[test]
fn resolution_is_deterministic() {
    let l = Layout::merge_value(
        Layout::new_border_str("menu", Border::space()),
        Layout::merge(
            Layout::new_str("main"),
            Layout::new_str("status"),
            SplitDirection::VERTICAL,
            pct(2, 3),
        )
        .unwrap(),
        SplitDirection::HORIZONTAL,
        12,
    )
    .unwrap();
    let a = Rect::from_layout(&l, 1, 1, 100, 30).unwrap();
    let b = Rect::from_layout(&l, 1, 1, 100, 30).unwrap();
    assert_eq!(a.len(), b.len());
    for (p, q) in a.iter().zip(b.iter()) {
        assert_eq!(p.name, q.name);
        assert_eq!(pos(p), pos(q));
        assert_eq!(p.border, q.border);
    }
}

#[test]
fn value_split_gives_near_exact_width() {
    for w in [5u16, 6, 20, 200] {
        let l = Layout::merge_value(
            Layout::new_str("a"),
            Layout::new_str("b"),
            SplitDirection::HORIZONTAL,
            5,
        )
        .unwrap();
        let rects = Rect::from_layout(&l, 1, 1, w, 3).unwrap();
        assert_eq!(rects[0].width, 5);
        assert_eq!(rects[1].width, w - 5);
        assert_eq!(rects[1].x, 6);
    }
}

#[test]
fn value_split_counts_near_border() {
    let l = Layout::merge_value(
        Layout::new_border_str("a", Border::lined()),
        Layout::new_str("b"),
        SplitDirection::VERTICAL,
        3,
    )
    .unwrap();
    let rects = Rect::from_layout(&l, 1, 1, 10, 20).unwrap();
    // near region 3 + 2 rows, gutter 1, far 14 rows
    assert_eq!(pos(&rects[0]), (2, 2, 8, 3));
    assert_eq!(pos(&rects[1]), (1, 7, 10, 14));
}

#[test]
fn negative_value_sizes_far_child() {
    let l = Layout::merge_value(
        Layout::new_str("body"),
        Layout::new_str("footer"),
        SplitDirection::VERTICAL,
        -2,
    )
    .unwrap();
    let rects = Rect::from_layout(&l, 1, 1, 40, 12).unwrap();
    assert_eq!(pos(&rects[0]), (1, 1, 40, 10));
    assert_eq!(pos(&rects[1]), (1, 11, 40, 2));
}

#[test]
fn value_larger_than_area_is_too_small() {
    let l = Layout::merge_value(
        Layout::new_str("a"),
        Layout::new_str("b"),
        SplitDirection::HORIZONTAL,
        30,
    )
    .unwrap();
    assert_eq!(Rect::from_layout(&l, 1, 1, 29, 3).unwrap_err(), LayoutError::TooSmall);
    assert!(Rect::from_layout(&l, 1, 1, 30, 3).is_ok());
}

#[test]
fn bordered_leaf_too_small_fails() {
    let l = Layout::new_border_str("box", Border::lined());
    assert_eq!(Rect::from_layout(&l, 1, 1, 2, 10).unwrap_err(), LayoutError::TooSmall);
    assert_eq!(Rect::from_layout(&l, 1, 1, 10, 1).unwrap_err(), LayoutError::TooSmall);
    let r = Rect::from_layout(&l, 1, 1, 3, 3).unwrap();
    assert_eq!(pos(&r[0]), (2, 2, 1, 1));
}

#[test]
fn full_percentage_with_gutter_fails() {
    let l = Layout::merge(
        Layout::new_border_str("a", Border::lined()),
        Layout::new_border_str("b", Border::lined()),
        SplitDirection::HORIZONTAL,
        pct(1, 1),
    )
    .unwrap();
    assert_eq!(Rect::from_layout(&l, 1, 1, 20, 5).unwrap_err(), LayoutError::TooSmall);
}

#[test]
fn percentage_out_of_range_is_rejected() {
    let r = Layout::merge(Layout::new_str("a"), Layout::new_str("b"), SplitDirection::VERTICAL, pct(11, 10));
    assert_eq!(r.err(), Some(LayoutError::PercentageOutOfRange));
    let r = Layout::merge(Layout::new_str("a"), Layout::new_str("b"), SplitDirection::VERTICAL, pct(0, 0));
    assert_eq!(r.err(), Some(LayoutError::PercentageOutOfRange));
    let r = Layout::merge(Layout::new_str("a"), Layout::new_str("b"), SplitDirection::VERTICAL, pct(0, 3));
    assert!(r.is_ok());
}

#[test]
fn duplicate_names_are_rejected() {
    let inner = Layout::merge_value(
        Layout::new_str("x"),
        Layout::new_str("y"),
        SplitDirection::HORIZONTAL,
        3,
    )
    .unwrap();
    let r = Layout::merge(inner, Layout::new(String::from("y")), SplitDirection::VERTICAL, pct(1, 2));
    assert_eq!(r.err(), Some(LayoutError::DuplicateName));
    let r = Layout::merge_value(Layout::new_str("y"), Layout::new_str("y"), SplitDirection::VERTICAL, 1);
    assert_eq!(r.err(), Some(LayoutError::DuplicateName));
}

#[test]
fn nested_layout_tiles_the_area() {
    let l = Layout::merge(
        Layout::merge_value(
            Layout::new_border_str("side", Border::lined()),
            Layout::new_str("main"),
            SplitDirection::HORIZONTAL,
            10,
        )
        .unwrap(),
        Layout::merge(
            Layout::new_str("log"),
            Layout::new_border(String::from("input"), Border::space()),
            SplitDirection::HORIZONTAL,
            pct(1, 3),
        )
        .unwrap(),
        SplitDirection::VERTICAL,
        pct(3, 4),
    )
    .unwrap();
    let (w, h) = (60u32, 20u32);
    let rects = Rect::from_layout(&l, 1, 1, w as u16, h as u16).unwrap();
    assert_eq!(rects.len(), 4);
    let outer: Vec<(u32, u32, u32, u32)> = rects
        .iter()
        .map(|r| {
            let b = if r.border.is_some() { 1 } else { 0 };
            (r.x as u32 - b, r.y as u32 - b, r.width as u32 + 2 * b, r.height as u32 + 2 * b)
        })
        .collect();
    let mut covered = vec![vec![0u32; w as usize]; h as usize];
    for (x, y, rw, rh) in &outer {
        assert!(*x >= 1 && *y >= 1 && x + rw <= w + 1 && y + rh <= h + 1);
        for yy in *y..(y + rh) {
            for xx in *x..(x + rw) {
                covered[(yy - 1) as usize][(xx - 1) as usize] += 1;
            }
        }
    }
    let mut uncovered = 0;
    for row in &covered {
        for c in row {
            assert!(*c <= 1, "regions overlap");
            if *c == 0 {
                uncovered += 1;
            }
        }
    }
    // top half 15 rows, one free row, bottom half 4 rows; a free column of 15 cells
    // beside "side" and one of 4 cells beside "input"
    assert_eq!(uncovered, 60 + 15 + 4);
}

#[test]
fn whole_terminal_uses_given_size_or_default() {
    let l = Layout::new_str("all");
    let r = Rect::from_layout_whole(&l, None).unwrap();
    assert_eq!(pos(&r[0]), (1, 1, 70, 40));
    let r = Rect::from_layout_whole(&l, Some((120, 50))).unwrap();
    assert_eq!(pos(&r[0]), (1, 1, 120, 50));
}

#[test]
fn leaf_constructors_keep_name_and_border() {
    let l = Layout::new_border_str("b", Border::lined());
    assert!(l.has_border());
    assert!(!Layout::new_str("a").has_border());
    let split = Layout::merge(Layout::new_str("a"), l, SplitDirection::VERTICAL, pct(1, 2)).unwrap();
    assert!(split.has_border());
    let lined = Border::lined();
    assert_eq!((lined.nw, lined.n, lined.ne, lined.w), ('┌', '─', '┐', '│'));
    assert_eq!(Border::space().se, ' ');
}
