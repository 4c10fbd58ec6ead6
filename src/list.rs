use vstd::prelude::*;

use crate::draw::{blank_runs, border_glyphs, run_views, trim_spec, Glyph, TextRun};
use crate::rect::Rect;

verus! {

/// The index after `sel` in a list of `len` items, wrapping to the start.
pub open spec fn next_index(sel: int, len: int) -> int {
    if len == 0 {
        sel
    } else {
        (sel + 1) % len
    }
}

/// The index before `sel` in a list of `len` items, wrapping to the end.
pub open spec fn prev_index(sel: int, len: int) -> int {
    if len == 0 {
        sel
    } else {
        (sel + len - 1) % len
    }
}

/// The index reached from `sel` after `k` steps forward.
pub open spec fn next_steps(sel: int, len: int, k: nat) -> int
    decreases k,
{
    if k == 0 {
        sel
    } else {
        next_index(next_steps(sel, len, (k - 1) as nat), len)
    }
}

/// The first list index shown in `h` rows when `sel` is selected: the smallest
/// that keeps `sel` in view.
pub open spec fn scroll_offset(sel: int, h: int) -> int {
    if sel - h + 1 > 0 {
        sel - h + 1
    } else {
        0
    }
}

/// Index `i` is among the `h` indices shown from `off` on.
pub open spec fn in_window(i: int, off: int, h: int) -> bool {
    off <= i < off + h
}

/// One row of a shown list: the item's index, whether it is the selected one,
/// its label trimmed to the row, and a copy of its extra data.
#[derive(Clone, Debug)]
pub struct ListRow<T> {
    pub index: usize,
    pub selected: bool,
    pub run: TextRun,
    pub extra: T,
}

impl<T> View for ListRow<T> {
    type V = (int, bool, (int, int, Seq<char>));

    open spec fn view(&self) -> (int, bool, (int, int, Seq<char>)) {
        (self.index as int, self.selected, self.run@)
    }
}

/// The views of a sequence of list rows.
pub open spec fn row_views<T>(s: Seq<ListRow<T>>) -> Seq<(int, bool, (int, int, Seq<char>))> {
    s.map_values(|r: ListRow<T>| r@)
}

/// A list of items shown in a rect. Each item carries extra data of type `T`
/// and a label; one item is selected, and the list scrolls to keep it in view.
pub struct ListRectColored<T> {
    rect: Rect,
    elements: Vec<(T, String)>,
    selected: usize,
}

/// The items of a list as extra data and label.
pub open spec fn item_views<T>(s: Seq<(T, String)>) -> Seq<(T, Seq<char>)> {
    s.map_values(|e: (T, String)| (e.0, e.1@))
}

impl<T> ListRectColored<T> {
    #[verifier::type_invariant]
    spec fn inv(&self) -> bool {
        &&& self.rect.wf()
        &&& (self.selected < self.elements.len() || self.selected == 0)
    }

    /// The items, in display order.
    pub closed spec fn items(&self) -> Seq<(T, Seq<char>)> {
        item_views(self.elements@)
    }

    /// The index of the selected item.
    pub closed spec fn index(&self) -> int {
        self.selected as int
    }

    /// The rect the list is shown in.
    pub closed spec fn area(&self) -> Rect {
        self.rect
    }

    /// The rows `show` produces: every item from the scroll offset on, as many as
    /// the rect has lines, each trimmed to its line.
    pub open spec fn shown_rows(&self) -> Seq<(int, bool, (int, int, Seq<char>))> {
        let r = self.area();
        let h = r.height as int;
        let off = scroll_offset(self.index(), h);
        let len = self.items().len() as int;
        let count = if len - off <= 0 || h <= 0 {
            0
        } else if len - off < h {
            len - off
        } else {
            h
        };
        Seq::new(
            count as nat,
            |k: int|
                (
                    off + k,
                    off + k == self.index(),
                    (
                        r.x as int,
                        r.y + k,
                        trim_spec(r.width as int, h, self.items()[off + k].1, 0, k).unwrap(),
                    ),
                ),
        )
    }

    /// Blanks the rect.
    pub fn clear(&self) -> (r: Vec<TextRun>)
        ensures
            run_views(r@) == blank_runs(self.area()),
    {
        proof {
            use_type_invariant(self);
        }
        self.rect.clear()
    }

    /// Replaces the items and selects the first.
    pub fn set_elements(&mut self, elements: Vec<(T, String)>)
        ensures
            final(self).items() == item_views(elements@),
            final(self).index() == 0,
            final(self).area() == old(self).area(),
    {
        proof {
            use_type_invariant(&*self);
        }
        self.selected = 0;
        self.elements = elements;
    }

    /// Replaces the item at `index`; nothing happens if there is none.
    pub fn set_element(&mut self, index: usize, element: (T, String))
        ensures
            index < old(self).items().len() ==> final(self).items() == old(self).items().update(
                index as int,
                (element.0, element.1@),
            ),
            index >= old(self).items().len() ==> final(self).items() == old(self).items(),
            final(self).index() == old(self).index(),
            final(self).area() == old(self).area(),
        no_unwind
    {
        proof {
            use_type_invariant(&*self);
        }
        if index >= self.elements.len() {
            return;
        }
        let ghost before = self.elements@;
        let ghost e = (element.0, element.1@);
        self.elements[index] = element;
        assert(item_views(self.elements@) =~= item_views(before).update(index as int, e));
    }

    /// The label of the selected item; `None` for an empty list.
    pub fn get_selected(&self) -> (r: Option<String>)
        ensures
            r is Some <==> self.items().len() > 0,
            r matches Some(s) ==> s@ == self.items()[self.index()].1,
    {
        proof {
            use_type_invariant(self);
        }
        if self.elements.len() == 0 || self.selected >= self.elements.len() {
            return None;
        }
        Some(self.elements[self.selected].1.clone())
    }

    /// The index of the selected item.
    pub fn get_index(&self) -> (r: usize)
        ensures
            r == self.index(),
    {
        self.selected
    }

    /// Selects the next item, wrapping from the last to the first. Does nothing
    /// on an empty list.
    pub fn next(&mut self)
        ensures
            final(self).index() == next_index(old(self).index(), old(self).items().len() as int),
            final(self).items() == old(self).items(),
            final(self).area() == old(self).area(),
    {
        proof {
            use_type_invariant(&*self);
        }
        let len = self.elements.len();
        if len > 0 {
            self.selected = (self.selected + 1) % len;
        }
    }

    /// Selects the previous item, wrapping from the first to the last. Does
    /// nothing on an empty list.
    pub fn prev(&mut self)
        ensures
            final(self).index() == prev_index(old(self).index(), old(self).items().len() as int),
            final(self).items() == old(self).items(),
            final(self).area() == old(self).area(),
    {
        proof {
            use_type_invariant(&*self);
        }
        let len = self.elements.len();
        if len > 0 {
            let sel = self.selected;
            proof {
                vstd::arithmetic::div_mod::lemma_mod_add_multiples_vanish(sel - 1, len as int);
                if sel == 0 {
                    vstd::arithmetic::div_mod::lemma_small_mod((len - 1) as nat, len as nat);
                } else {
                    vstd::arithmetic::div_mod::lemma_small_mod((sel - 1) as nat, len as nat);
                }
            }
            self.selected = if sel == 0 {
                len - 1
            } else {
                sel - 1
            };
        }
    }
}

impl<T: Clone> ListRectColored<T> {
    /// What showing the list draws: the border of its rect, then one row per
    /// visible item, from the scroll offset on.
    pub fn show(&self) -> (r: (Vec<Glyph>, Vec<ListRow<T>>))
        ensures
            r.0@ == border_glyphs(self.area()),
            row_views(r.1@) == self.shown_rows(),
            forall|k: int|
                0 <= k < r.1@.len() ==> cloned(
                    self.items()[r.1@[k].index as int].0,
                    #[trigger] r.1@[k].extra,
                ),
    {
        proof {
            use_type_invariant(self);
        }
        let border = self.rect.show_border();
        let h = self.rect.height as usize;
        let offset: usize = if self.selected + 1 > h {
            self.selected + 1 - h
        } else {
            0
        };
        let len = self.elements.len();
        let mut rows: Vec<ListRow<T>> = Vec::new();
        let mut i: usize = offset;
        assert(row_views(rows@) =~= self.shown_rows().take(0));
        while i < len && i - offset < h
            invariant
                self.rect.wf(),
                self.selected < len || self.selected == 0,
                len == self.elements.len(),
                h == self.rect.height,
                offset == scroll_offset(self.selected as int, h as int),
                offset <= i,
                i - offset <= h,
                i <= len || i == offset,
                row_views(rows@) =~= self.shown_rows().take(i - offset),
                forall|k: int|
                    0 <= k < rows@.len() ==> cloned(
                        self.items()[rows@[k].index as int].0,
                        #[trigger] rows@[k].extra,
                    ),
                forall|k: int| 0 <= k < rows@.len() ==> (#[trigger] rows@[k].index) < len,
            decreases len - i,
        {
            let row = (i - offset) as u16;
            let label = self.elements[i].1.as_str();
            match self.rect.write_trimmed(label, 0, row) {
                Ok(run) => {
                    let extra = self.elements[i].0.clone();
                    let r = ListRow { index: i, selected: i == self.selected, run, extra };
                    let ghost prev = rows@;
                    let ghost k = i - offset;
                    assert(r@ == self.shown_rows()[k]);
                    rows.push(r);
                    assert(row_views(rows@) =~= row_views(prev).push(r@));
                    assert(self.shown_rows().take(k + 1) =~= self.shown_rows().take(k).push(
                        self.shown_rows()[k],
                    ));
                },
                Err(_) => {
                    assert(false);
                },
            }
            i += 1;
        }
        assert(self.shown_rows().take(i - offset) =~= self.shown_rows());
        (border, rows)
    }

    /// The extra data of the selected item, cloned; `None` for an empty list.
    pub fn get_selected_extra(&self) -> (r: Option<T>)
        ensures
            r is Some <==> self.items().len() > 0,
            r matches Some(e) ==> cloned(self.items()[self.index()].0, e),
    {
        proof {
            use_type_invariant(self);
        }
        if self.elements.len() == 0 || self.selected >= self.elements.len() {
            return None;
        }
        Some(self.elements[self.selected].0.clone())
    }
}

impl Rect {
    /// An empty list shown in this rect.
    pub fn into_list_colored<T>(self) -> (r: ListRectColored<T>)
        requires
            self.wf(),
        ensures
            r.area() == self,
            r.items().len() == 0,
            r.index() == 0,
    {
        let r = ListRectColored { rect: self, elements: Vec::new(), selected: 0 };
        assert(r.items() =~= Seq::empty());
        r
    }
}

/// Stepping forward through a list as many times as it has items comes back to
/// where it started; stepping back from the first item reaches the last.
pub proof fn lemma_wraparound(sel: int, n: int)
    requires
        n >= 1,
        0 <= sel < n,
    ensures
        next_steps(sel, n, n as nat) == sel,
        prev_index(0, n) == n - 1,
{
    lemma_next_steps(sel, n, n as nat);
    vstd::arithmetic::div_mod::lemma_mod_self_0(n);
    vstd::arithmetic::div_mod::lemma_add_mod_noop(sel, n, n);
    vstd::arithmetic::div_mod::lemma_small_mod(sel as nat, n as nat);
    vstd::arithmetic::div_mod::lemma_small_mod((n - 1) as nat, n as nat);
}

proof fn lemma_next_steps(sel: int, n: int, k: nat)
    requires
        n >= 1,
        0 <= sel < n,
    ensures
        next_steps(sel, n, k) == (sel + k) % n,
    decreases k,
{
    if k == 0 {
        vstd::arithmetic::div_mod::lemma_small_mod(sel as nat, n as nat);
    } else {
        lemma_next_steps(sel, n, (k - 1) as nat);
        vstd::arithmetic::div_mod::lemma_add_mod_noop_right(1, sel + k - 1, n);
    }
}

/// The scroll offset keeps the selection in view and scrolls no further than
/// that: with the last of `n` items selected and `h < n` rows, the last `h`
/// items are shown.
pub proof fn lemma_scroll_minimal(sel: int, h: int, n: int)
    requires
        0 <= sel < n,
        h >= 1,
    ensures
        in_window(sel, scroll_offset(sel, h), h),
        forall|o: int| 0 <= o < scroll_offset(sel, h) ==> !#[trigger] in_window(sel, o, h),
        sel == n - 1 && h < n ==> scroll_offset(sel, h) == n - h,
{
}

} // verus!
