use termlayout::{Border, DrawError, Layout, Rect};

fn rect(w: u16, h: u16) -> Rect {
    Rect::from_layout(&Layout::new_str("r"), 3, 5, w, h).unwrap().remove(0)
}

fn runs(r: &[termlayout::TextRun]) -> Vec<(u16, u16, String)> {
    r.iter().map(|t| (t.x, t.y, t.text.clone())).collect()
}

#[test]
fn write_that_fits_is_one_run() {
    let r = rect(10, 3);
    let out = r.write("hello", 2, 1).unwrap();
    assert_eq!(runs(&out), vec![(5, 6, String::from("hello"))]);
}

#[test]
fn write_wraps_to_next_lines() {
    let r = rect(4, 3);
    let out = r.write("abcdefghi", 1, 0).unwrap();
    assert_eq!(
        runs(&out),
        vec![
            (4, 5, String::from("abc")),
            (3, 6, String::from("defg")),
            (3, 7, String::from("hi")),
        ]
    );
}

#[test]
fn write_past_last_line_fails() {
    let r = rect(4, 2);
    // needs three lines of four cells
    assert_eq!(r.write("abcdefghi", 0, 0).unwrap_err(), DrawError::OutOfBounds);
    // exactly two lines fit
    assert!(r.write("abcdefgh", 0, 0).is_ok());
    // a row outside the area
    assert_eq!(r.write("a", 0, 2).unwrap_err(), DrawError::OutOfBounds);
}

#[test]
fn write_on_zero_width_fails_instead_of_looping() {
    let r = rect(0, 3);
    assert_eq!(r.write("x", 0, 0).unwrap_err(), DrawError::OutOfBounds);
}

#[test]
fn write_counts_characters_not_bytes() {
    let r = rect(3, 2);
    let out = r.write("äöüß", 0, 0).unwrap();
    assert_eq!(runs(&out), vec![(3, 5, String::from("äöü")), (3, 6, String::from("ß"))]);
}

#[test]
fn write_trimmed_adds_ellipsis() {
    let r = rect(10, 2);
    let run = r.write_trimmed("a rather long line", 0, 1).unwrap();
    assert_eq!((run.x, run.y, run.text.as_str()), (3, 6, "a rathe..."));
    let run = r.write_trimmed("fits", 6, 0).unwrap();
    assert_eq!(run.text, "fits");
    let run = r.write_trimmed("toolong", 8, 0).unwrap();
    assert_eq!(run.text, "..");
    assert_eq!(r.write_trimmed("x", 0, 2).unwrap_err(), DrawError::OutOfBounds);
}

#[test]
fn clear_fills_every_row() {
    let r = rect(3, 2);
    let out = r.clear();
    assert_eq!(runs(&out), vec![(3, 5, String::from("   ")), (3, 6, String::from("   "))]);
}

#[test]
fn border_glyphs_surround_content() {
    let r = Rect::from_layout(&Layout::new_border_str("b", Border::lined()), 1, 1, 4, 3)
        .unwrap()
        .remove(0);
    assert_eq!((r.x, r.y, r.width, r.height), (2, 2, 2, 1));
    let g = r.show_border();
    assert_eq!(g.len(), 2 * 2 + 2 * 3 + 4);
    let at = |x: u16, y: u16| g.iter().rev().find(|c| c.x == x && c.y == y).map(|c| c.ch);
    assert_eq!(at(1, 1), Some('┌'));
    assert_eq!(at(4, 1), Some('┐'));
    assert_eq!(at(1, 3), Some('└'));
    assert_eq!(at(4, 3), Some('┘'));
    assert_eq!(at(2, 1), Some('─'));
    assert_eq!(at(1, 2), Some('│'));
    assert_eq!(at(3, 3), Some('─'));
    assert_eq!(at(2, 2), None);
}

#[test]
fn no_border_no_glyphs() {
    assert!(rect(5, 5).show_border().is_empty());
}

#[test]
fn show_marks_corners() {
    let g = rect(4, 2).show();
    let v: Vec<(u16, u16, char)> = g.iter().map(|c| (c.x, c.y, c.ch)).collect();
    assert_eq!(v, vec![(3, 5, '┌'), (6, 5, '┐'), (3, 6, '└'), (6, 6, '┘')]);
    assert!(rect(0, 2).show().is_empty());
}

#[test]
fn dimensions_are_content_size() {
    assert_eq!(rect(7, 4).get_dimensions(), (7, 4));
}
