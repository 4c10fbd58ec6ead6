use termlayout::{Layout, ListRectColored, Rect};

fn list_of(height: u16, labels: &[&str]) -> ListRectColored<usize> {
    let rects = Rect::from_layout(&Layout::new_str("list"), 1, 1, 20, height).unwrap();
    let mut list = rects.into_iter().next().unwrap().into_list_colored();
    list.set_elements(labels.iter().enumerate().map(|(i, s)| (i, s.to_string())).collect());
    list
}

fn shown_indices(list: &ListRectColored<usize>) -> Vec<usize> {
    list.show().1.iter().map(|r| r.index).collect()
}

#[test]
fn two_steps_from_fresh_state() {
    let mut list = list_of(3, &["a", "b", "c", "d", "e"]);
    assert_eq!(list.get_index(), 0);
    list.next();
    list.next();
    assert_eq!(list.get_index(), 2);
    assert_eq!(shown_indices(&list), vec![0, 1, 2]);
    let rows = list.show().1;
    assert_eq!(rows.iter().map(|r| r.run.y).collect::<Vec<_>>(), vec![1, 2, 3]);
    assert_eq!(rows.iter().map(|r| r.selected).collect::<Vec<_>>(), vec![false, false, true]);
    assert_eq!(rows[2].run.text, "c");
}

#[test]
fn next_n_times_returns_to_start() {
    for start in 0..4 {
        let mut list = list_of(3, &["a", "b", "c", "d"]);
        for _ in 0..start {
            list.next();
        }
        let before = list.get_index();
        for _ in 0..4 {
            list.next();
        }
        assert_eq!(list.get_index(), before);
    }
}

#[test]
fn prev_from_first_wraps_to_last() {
    let mut list = list_of(3, &["a", "b", "c", "d", "e"]);
    list.prev();
    assert_eq!(list.get_index(), 4);
    assert_eq!(list.get_selected(), Some(String::from("e")));
    list.next();
    assert_eq!(list.get_index(), 0);
}

#[test]
fn last_selected_shows_last_window() {
    let mut list = list_of(3, &["a", "b", "c", "d", "e", "f", "g"]);
    list.prev();
    assert_eq!(list.get_index(), 6);
    // offset is n - h = 4
    assert_eq!(shown_indices(&list), vec![4, 5, 6]);
    let rows = list.show().1;
    assert_eq!(rows[0].run.y, 1);
    assert_eq!(rows[2].run.text, "g");
    assert!(rows[2].selected);
}

#[test]
fn scrolling_is_minimal() {
    let mut list = list_of(3, &["a", "b", "c", "d", "e"]);
    list.next();
    list.next();
    list.next();
    // selection 3 needs offset 1, no more
    assert_eq!(shown_indices(&list), vec![1, 2, 3]);
}

#[test]
fn short_list_shows_every_item() {
    let list = list_of(10, &["a", "b"]);
    assert_eq!(shown_indices(&list), vec![0, 1]);
}

#[test]
fn empty_list_has_no_selection() {
    let mut list = list_of(3, &[]);
    list.next();
    list.prev();
    assert_eq!(list.get_index(), 0);
    assert_eq!(list.get_selected(), None);
    assert_eq!(list.get_selected_extra(), None);
    assert!(list.show().1.is_empty());
}

#[test]
fn selected_extra_and_label() {
    let mut list = list_of(3, &["a", "b", "c"]);
    list.next();
    assert_eq!(list.get_selected_extra(), Some(1));
    assert_eq!(list.get_selected(), Some(String::from("b")));
}

#[test]
fn set_element_replaces_one_item() {
    let mut list = list_of(3, &["a", "b", "c"]);
    list.next();
    list.set_element(1, (42, String::from("bee")));
    assert_eq!(list.get_selected(), Some(String::from("bee")));
    assert_eq!(list.get_selected_extra(), Some(42));
    list.set_element(7, (0, String::from("nothing")));
    assert_eq!(list.get_selected(), Some(String::from("bee")));
}

#[test]
fn set_elements_resets_selection() {
    let mut list = list_of(3, &["a", "b", "c"]);
    list.next();
    list.next();
    list.set_elements(vec![(9, String::from("z"))]);
    assert_eq!(list.get_index(), 0);
    assert_eq!(list.get_selected(), Some(String::from("z")));
}

#[test]
fn long_labels_are_trimmed_in_rows() {
    let rects = Rect::from_layout(&Layout::new_str("l"), 1, 1, 8, 2).unwrap();
    let mut list = rects.into_iter().next().unwrap().into_list_colored::<u8>();
    list.set_elements(vec![(0, String::from("abcdefghijkl")), (1, String::from("short"))]);
    let rows = list.show().1;
    assert_eq!(rows[0].run.text, "abcde...");
    assert_eq!(rows[1].run.text, "short");
}

#[test]
fn list_clear_blanks_its_rect() {
    let list = list_of(2, &["a"]);
    let runs = list.clear();
    assert_eq!(runs.len(), 2);
    assert_eq!(runs[1].text, " ".repeat(20));
    assert_eq!((runs[1].x, runs[1].y), (1, 2));
}

#[test]
fn rows_carry_item_extra() {
    let mut list = list_of(2, &["a", "b", "c"]);
    list.next();
    list.next();
    let rows = list.show().1;
    assert_eq!(rows.iter().map(|r| (r.index, r.extra)).collect::<Vec<_>>(), vec![(1, 1), (2, 2)]);
}
