use vstd::prelude::*;

use crate::border::Border;
use crate::layout::{lemma_names_unique, unique, Fraction, Layout, LayoutError, SplitDirection, SplitType};

verus! {

/// A resolved region of the screen. `x`, `y`, `width` and `height` describe the
/// content area, in absolute 1-based cells; a border, if any, lies one cell
/// outside it on every side.
#[derive(Clone, Debug)]
pub struct Rect {
    pub name: String,
    pub x: u16,
    pub y: u16,
    pub width: u16,
    pub height: u16,
    pub border: Option<Border>,
}

/// The mathematical content of a [`Rect`].
pub struct RectView {
    pub name: Seq<char>,
    pub x: int,
    pub y: int,
    pub width: int,
    pub height: int,
    pub border: Option<Border>,
}

impl View for Rect {
    type V = RectView;

    open spec fn view(&self) -> RectView {
        RectView {
            name: self.name@,
            x: self.x as int,
            y: self.y as int,
            width: self.width as int,
            height: self.height as int,
            border: self.border,
        }
    }
}

/// Cells a border takes on each side.
pub open spec fn inset(has_border: bool) -> int {
    if has_border {
        1
    } else {
        0
    }
}

/// The extent a split gives its near child along the split axis, out of `total`,
/// keeping `gutter` cells between the children.
pub open spec fn near_extent(
    split_type: SplitType,
    total: int,
    gutter: int,
    near_border: bool,
    far_border: bool,
) -> int {
    match split_type {
        SplitType::Percentage(f) => total * f.num / (f.den as int),
        SplitType::Value(v) => if v >= 0 {
            v + 2 * inset(near_border)
        } else {
            total - gutter - (-v + 2 * inset(far_border))
        },
    }
}

/// The extent the far child gets: whatever the near child and the gutter leave.
pub open spec fn far_extent(
    split_type: SplitType,
    total: int,
    gutter: int,
    near_border: bool,
    far_border: bool,
) -> int {
    total - near_extent(split_type, total, gutter, near_border, far_border) - gutter
}

/// The regions of the leaves of `l` resolved in the rectangle `(x, y, w, h)`,
/// near side first; `None` where some region is too small.
pub open spec fn resolve_spec(l: Layout, x: int, y: int, w: int, h: int) -> Option<Seq<RectView>>
    decreases l,
{
    match l {
        Layout::Leaf { name, border } => {
            let b = inset(border is Some);
            if border is Some && (w <= 2 || h <= 2) {
                None
            } else {
                Some(
                    seq![
                        RectView {
                            name: name@,
                            x: x + b,
                            y: y + b,
                            width: w - 2 * b,
                            height: h - 2 * b,
                            border,
                        },
                    ],
                )
            }
        },
        Layout::Split { first, second, direction, split_type, has_border } => {
            let g = inset(has_border);
            let horizontal = direction == SplitDirection::HORIZONTAL;
            let total = if horizontal {
                w
            } else {
                h
            };
            let n = near_extent(split_type, total, g, first.bordered(), second.bordered());
            let f = far_extent(split_type, total, g, first.bordered(), second.bordered());
            if n < 0 || f < 0 {
                None
            } else {
                let a = if horizontal {
                    resolve_spec(*first, x, y, n, h)
                } else {
                    resolve_spec(*first, x, y, w, n)
                };
                let c = if horizontal {
                    resolve_spec(*second, x + n + g, y, f, h)
                } else {
                    resolve_spec(*second, x, y + n + g, w, f)
                };
                match (a, c) {
                    (Some(a), Some(c)) => Some(a + c),
                    _ => None,
                }
            }
        },
    }
}

/// The views of a sequence of rects.
pub open spec fn rect_views(s: Seq<Rect>) -> Seq<RectView> {
    s.map_values(|r: Rect| r@)
}

/// Splits `total` cells between the near and the far child of a split, keeping
/// `gutter` cells between them. `None` where one of them would get a negative extent.
pub fn split_extents(
    split_type: SplitType,
    total: u16,
    gutter: u16,
    near_border: bool,
    far_border: bool,
) -> (r: Option<(u16, u16)>)
    requires
        gutter <= 1,
        split_type matches SplitType::Percentage(f) ==> f.valid(),
    ensures
        ({
            let n = near_extent(split_type, total as int, gutter as int, near_border, far_border);
            let f = far_extent(split_type, total as int, gutter as int, near_border, far_border);
            &&& r is Some <==> (n >= 0 && f >= 0)
            &&& r matches Some((a, b)) ==> a == n && b == f
        }),
{
    let nb: i64 = if near_border {
        1
    } else {
        0
    };
    let fb: i64 = if far_border {
        1
    } else {
        0
    };
    let t = total as i64;
    let g = gutter as i64;
    let near: i64 = match split_type {
        SplitType::Percentage(f) => {
            let num = f.num as u32;
            let den = f.den as u32;
            let tt = total as u32;
            proof {
                assert(0 <= tt * num <= 65535 * 65535) by (nonlinear_arith)
                    requires
                        tt <= 65535,
                        num <= 65535,
                ;
                assert(tt * num / (den as int) <= tt) by (nonlinear_arith)
                    requires
                        num <= den,
                        den > 0,
                ;
            }
            ((tt * num) / den) as i64
        },
        SplitType::Value(v) => {
            if v >= 0 {
                v as i64 + 2 * nb
            } else {
                t - g - (-(v as i64) + 2 * fb)
            }
        },
    };
    let far = t - near - g;
    if near < 0 || far < 0 {
        None
    } else {
        Some((near as u16, far as u16))
    }
}

/// Appends the regions of the leaves of `l`, resolved in `(x, y, w, h)`, to `out`.
fn resolve_into(l: &Layout, x: u16, y: u16, w: u16, h: u16, out: &mut Vec<Rect>) -> (r: Result<
    (),
    LayoutError,
>)
    requires
        l.wf(),
        x + w <= u16::MAX,
        y + h <= u16::MAX,
    ensures
        r is Ok <==> resolve_spec(*l, x as int, y as int, w as int, h as int) is Some,
        r is Ok ==> rect_views(final(out)@) == rect_views(old(out)@) + resolve_spec(
            *l,
            x as int,
            y as int,
            w as int,
            h as int,
        ).unwrap(),
        r is Err ==> r == Err::<(), LayoutError>(LayoutError::TooSmall),
    decreases l,
{
    match l {
        Layout::Leaf { name, border } => {
            let b: u16 = if border.is_some() {
                1
            } else {
                0
            };
            if border.is_some() && (w <= 2 || h <= 2) {
                return Err(LayoutError::TooSmall);
            }
            let ghost before = out@;
            out.push(
                Rect {
                    name: name.clone(),
                    x: x + b,
                    y: y + b,
                    width: w - 2 * b,
                    height: h - 2 * b,
                    border: *border,
                },
            );
            assert(rect_views(out@) =~= rect_views(before) + resolve_spec(
                *l,
                x as int,
                y as int,
                w as int,
                h as int,
            ).unwrap());
            Ok(())
        },
        Layout::Split { first, second, direction, split_type, has_border } => {
            let g: u16 = if *has_border {
                1
            } else {
                0
            };
            let horizontal = match direction {
                SplitDirection::HORIZONTAL => true,
                SplitDirection::VERTICAL => false,
            };
            let total = if horizontal {
                w
            } else {
                h
            };
            let ext = split_extents(*split_type, total, g, first.has_border(), second.has_border());
            match ext {
                None => Err(LayoutError::TooSmall),
                Some((n, f)) => {
                    let ghost before = rect_views(out@);
                    let ghost a = if horizontal {
                        resolve_spec(**first, x as int, y as int, n as int, h as int)
                    } else {
                        resolve_spec(**first, x as int, y as int, w as int, n as int)
                    };
                    let ghost c = if horizontal {
                        resolve_spec(**second, x + n + g, y as int, f as int, h as int)
                    } else {
                        resolve_spec(**second, x as int, y + n + g, w as int, f as int)
                    };
                    let r1 = if horizontal {
                        resolve_into(first, x, y, n, h, out)
                    } else {
                        resolve_into(first, x, y, w, n, out)
                    };
                    if r1.is_err() {
                        return Err(LayoutError::TooSmall);
                    }
                    let r2 = if horizontal {
                        resolve_into(second, x + n + g, y, f, h, out)
                    } else {
                        resolve_into(second, x, y + n + g, w, f, out)
                    };
                    if r2.is_err() {
                        return Err(LayoutError::TooSmall);
                    }
                    assert(rect_views(out@) =~= before + (a.unwrap() + c.unwrap()));
                    Ok(())
                },
            }
        },
    }
}


/// The region `(x, y, width, height)` a resolved rect occupies, border included.
pub open spec fn outer(r: RectView) -> (int, int, int, int) {
    let b = inset(r.border is Some);
    (r.x - b, r.y - b, r.width + 2 * b, r.height + 2 * b)
}

/// Region `o` lies inside the rectangle `(x, y, w, h)`.
pub open spec fn region_within(o: (int, int, int, int), x: int, y: int, w: int, h: int) -> bool {
    x <= o.0 && y <= o.1 && o.0 + o.2 <= x + w && o.1 + o.3 <= y + h
}

/// Regions `a` and `b` share no cell.
pub open spec fn regions_disjoint(a: (int, int, int, int), b: (int, int, int, int)) -> bool {
    a.0 + a.2 <= b.0 || b.0 + b.2 <= a.0 || a.1 + a.3 <= b.1 || b.1 + b.3 <= a.1
}

/// The total number of cells the regions of `s` occupy, borders included.
pub open spec fn outer_area_sum(s: Seq<RectView>) -> int
    decreases s.len(),
{
    if s.len() == 0 {
        0
    } else {
        outer_area_sum(s.drop_last()) + outer(s.last()).2 * outer(s.last()).3
    }
}

/// The number of cells that the splits of `l`, resolved in a `w` by `h` area,
/// keep free between their children.
pub open spec fn gutter_area(l: Layout, w: int, h: int) -> int
    decreases l,
{
    match l {
        Layout::Leaf { .. } => 0,
        Layout::Split { first, second, direction, split_type, has_border } => {
            let g = inset(has_border);
            let horizontal = direction == SplitDirection::HORIZONTAL;
            let total = if horizontal {
                w
            } else {
                h
            };
            let n = near_extent(split_type, total, g, first.bordered(), second.bordered());
            let f = far_extent(split_type, total, g, first.bordered(), second.bordered());
            if horizontal {
                g * h + gutter_area(*first, n, h) + gutter_area(*second, f, h)
            } else {
                g * w + gutter_area(*first, w, n) + gutter_area(*second, w, f)
            }
        },
    }
}

proof fn lemma_area_sum_concat(a: Seq<RectView>, b: Seq<RectView>)
    ensures
        outer_area_sum(a + b) == outer_area_sum(a) + outer_area_sum(b),
    decreases b.len(),
{
    if b.len() > 0 {
        assert((a + b).drop_last() =~= a + b.drop_last());
        lemma_area_sum_concat(a, b.drop_last());
    } else {
        assert(a + b =~= a);
    }
}

/// Resolution tiles its rectangle: every resolved region (border included) lies
/// inside it, no two regions overlap, and the regions together with the cells
/// that splits keep free between their children make up the whole rectangle.
pub proof fn lemma_tiling(l: Layout, x: int, y: int, w: int, h: int)
    requires
        w >= 0,
        h >= 0,
        resolve_spec(l, x, y, w, h) is Some,
    ensures
        ({
            let s = resolve_spec(l, x, y, w, h).unwrap();
            &&& forall|i: int| 0 <= i < s.len() ==> region_within(#[trigger] outer(s[i]), x, y, w, h)
            &&& forall|i: int, j: int|
                0 <= i < s.len() && 0 <= j < s.len() && i != j ==> regions_disjoint(
                    #[trigger] outer(s[i]),
                    #[trigger] outer(s[j]),
                )
            &&& outer_area_sum(s) + gutter_area(l, w, h) == w * h
        }),
    decreases l,
{
    let s = resolve_spec(l, x, y, w, h).unwrap();
    match l {
        Layout::Leaf { .. } => {
            assert(s.drop_last() =~= Seq::<RectView>::empty());
            assert(outer_area_sum(s.drop_last()) == 0);
            assert(outer(s[0]) == (x, y, w, h));
            assert(outer(s.last()) == (x, y, w, h));
            assert(outer_area_sum(s) == w * h);
        },
        Layout::Split { first, second, direction, split_type, has_border } => {
            let g = inset(has_border);
            let horizontal = direction == SplitDirection::HORIZONTAL;
            let total = if horizontal {
                w
            } else {
                h
            };
            let n = near_extent(split_type, total, g, first.bordered(), second.bordered());
            let f = far_extent(split_type, total, g, first.bordered(), second.bordered());
            if horizontal {
                lemma_tiling(*first, x, y, n, h);
                lemma_tiling(*second, x + n + g, y, f, h);
                let a = resolve_spec(*first, x, y, n, h).unwrap();
                let c = resolve_spec(*second, x + n + g, y, f, h).unwrap();
                assert(s == a + c);
                lemma_area_sum_concat(a, c);
                assert(n * h + g * h + f * h == w * h) by (nonlinear_arith)
                    requires
                        n + g + f == w,
                ;
                assert forall|i: int, j: int|
                    0 <= i < s.len() && 0 <= j < s.len() && i != j implies regions_disjoint(
                    #[trigger] outer(s[i]),
                    #[trigger] outer(s[j]),
                ) by {
                    if i < a.len() && j >= a.len() {
                        assert(s[i] == a[i] && s[j] == c[j - a.len()]);
                    } else if j < a.len() && i >= a.len() {
                        assert(s[j] == a[j] && s[i] == c[i - a.len()]);
                    } else if i < a.len() {
                        assert(s[i] == a[i] && s[j] == a[j]);
                    } else {
                        assert(s[i] == c[i - a.len()] && s[j] == c[j - a.len()]);
                    }
                }
                assert forall|i: int| 0 <= i < s.len() implies region_within(
                    #[trigger] outer(s[i]),
                    x,
                    y,
                    w,
                    h,
                ) by {
                    if i < a.len() {
                        assert(s[i] == a[i]);
                    } else {
                        assert(s[i] == c[i - a.len()]);
                    }
                }
            } else {
                lemma_tiling(*first, x, y, w, n);
                lemma_tiling(*second, x, y + n + g, w, f);
                let a = resolve_spec(*first, x, y, w, n).unwrap();
                let c = resolve_spec(*second, x, y + n + g, w, f).unwrap();
                assert(s == a + c);
                lemma_area_sum_concat(a, c);
                assert(w * n + g * w + w * f == w * h) by (nonlinear_arith)
                    requires
                        n + g + f == h,
                ;
                assert forall|i: int, j: int|
                    0 <= i < s.len() && 0 <= j < s.len() && i != j implies regions_disjoint(
                    #[trigger] outer(s[i]),
                    #[trigger] outer(s[j]),
                ) by {
                    if i < a.len() && j >= a.len() {
                        assert(s[i] == a[i] && s[j] == c[j - a.len()]);
                    } else if j < a.len() && i >= a.len() {
                        assert(s[j] == a[j] && s[i] == c[i - a.len()]);
                    } else if i < a.len() {
                        assert(s[i] == a[i] && s[j] == a[j]);
                    } else {
                        assert(s[i] == c[i - a.len()] && s[j] == c[j - a.len()]);
                    }
                }
                assert forall|i: int| 0 <= i < s.len() implies region_within(
                    #[trigger] outer(s[i]),
                    x,
                    y,
                    w,
                    h,
                ) by {
                    if i < a.len() {
                        assert(s[i] == a[i]);
                    } else {
                        assert(s[i] == c[i - a.len()]);
                    }
                }
            }
        },
    }
}

/// Width of the terminal assumed when its size cannot be queried.
pub const DEFAULT_WIDTH: u16 = 70;

/// Height of the terminal assumed when its size cannot be queried.
pub const DEFAULT_HEIGHT: u16 = 40;

impl Rect {
    /// The coordinates of the region and of its border fit in `u16`.
    pub open spec fn wf(&self) -> bool {
        let b = inset(self.border is Some);
        &&& b <= self.x
        &&& b <= self.y
        &&& self.x + self.width + b <= u16::MAX
        &&& self.y + self.height + b <= u16::MAX
    }

    /// Resolves `layout` in the rectangle `(x, y, width, height)`: one rect per
    /// leaf, near side first. Fails with `TooSmall` where a split or a border
    /// does not fit.
    pub fn from_layout(layout: &Layout, x: u16, y: u16, width: u16, height: u16) -> (r: Result<
        Vec<Rect>,
        LayoutError,
    >)
        requires
            layout.wf(),
            x + width <= u16::MAX,
            y + height <= u16::MAX,
        ensures
            r is Ok <==> resolve_spec(
                *layout,
                x as int,
                y as int,
                width as int,
                height as int,
            ) is Some,
            r matches Ok(v) ==> rect_views(v@) == resolve_spec(
                *layout,
                x as int,
                y as int,
                width as int,
                height as int,
            ).unwrap(),
            r matches Ok(v) ==> forall|i: int| 0 <= i < v@.len() ==> (#[trigger] v@[i]).wf(),
            r is Err ==> r == Err::<Vec<Rect>, LayoutError>(LayoutError::TooSmall),
    {
        let mut out: Vec<Rect> = Vec::new();
        let res = resolve_into(layout, x, y, width, height, &mut out);
        match res {
            Ok(()) => {
                proof {
                    let s = resolve_spec(
                        *layout,
                        x as int,
                        y as int,
                        width as int,
                        height as int,
                    ).unwrap();
                    assert(rect_views(out@) =~= s);
                    lemma_tiling(*layout, x as int, y as int, width as int, height as int);
                    assert forall|i: int| 0 <= i < out@.len() implies (#[trigger] out@[i]).wf() by {
                        assert(s[i] == out@[i]@);
                        assert(region_within(outer(s[i]), x as int, y as int, width as int, height as int));
                    }
                }
                Ok(out)
            },
            Err(e) => Err(e),
        }
    }

    /// Resolves `layout` over the whole terminal, whose size is given if it is
    /// known; otherwise a 70 by 40 terminal is assumed. The origin is `(1, 1)`.
    pub fn from_layout_whole(layout: &Layout, terminal_size: Option<(u16, u16)>) -> (r: Result<
        Vec<Rect>,
        LayoutError,
    >)
        requires
            layout.wf(),
            terminal_size matches Some((w, h)) ==> w < u16::MAX && h < u16::MAX,
        ensures
            ({
                let (w, h) = match terminal_size {
                    Some(size) => size,
                    None => (DEFAULT_WIDTH, DEFAULT_HEIGHT),
                };
                let s = resolve_spec(*layout, 1, 1, w as int, h as int);
                &&& r is Ok <==> s is Some
                &&& r matches Ok(v) ==> rect_views(v@) == s.unwrap()
                &&& r is Err ==> r == Err::<Vec<Rect>, LayoutError>(LayoutError::TooSmall)
            }),
    {
        let (w, h) = match terminal_size {
            Some(size) => size,
            None => (DEFAULT_WIDTH, DEFAULT_HEIGHT),
        };
        Rect::from_layout(layout, 1, 1, w, h)
    }
}

/// A percentage split of two leaves divides the split axis exactly: the near
/// region gets `floor(total * p)` cells, and the near region, the gutter and the
/// far region together span the whole axis.
pub proof fn lemma_percentage_split(
    first: Layout,
    second: Layout,
    direction: SplitDirection,
    p: Fraction,
    x: int,
    y: int,
    w: int,
    h: int,
)
    requires
        first is Leaf,
        second is Leaf,
        p.valid(),
        resolve_spec(
            Layout::Split {
                first: Box::new(first),
                second: Box::new(second),
                direction,
                split_type: SplitType::Percentage(p),
                has_border: first.bordered() || second.bordered(),
            },
            x,
            y,
            w,
            h,
        ) is Some,
    ensures
        ({
            let l = Layout::Split {
                first: Box::new(first),
                second: Box::new(second),
                direction,
                split_type: SplitType::Percentage(p),
                has_border: first.bordered() || second.bordered(),
            };
            let s = resolve_spec(l, x, y, w, h).unwrap();
            let g = inset(first.bordered() || second.bordered());
            &&& s.len() == 2
            &&& direction == SplitDirection::HORIZONTAL ==> {
                &&& outer(s[0]).2 == w * p.num / (p.den as int)
                &&& outer(s[0]).2 + g + outer(s[1]).2 == w
            }
            &&& direction == SplitDirection::VERTICAL ==> {
                &&& outer(s[0]).3 == h * p.num / (p.den as int)
                &&& outer(s[0]).3 + g + outer(s[1]).3 == h
            }
        }),
{
    reveal_with_fuel(resolve_spec, 2);
}

/// A fixed-value split with `v >= 0` of two unbordered leaves gives the near
/// leaf exactly `v` cells along the split axis, whenever the axis has room for them.
pub proof fn lemma_value_split_exact(
    first: Layout,
    second: Layout,
    direction: SplitDirection,
    v: i16,
    x: int,
    y: int,
    w: int,
    h: int,
)
    requires
        first matches Layout::Leaf { border, .. } && border is None,
        second matches Layout::Leaf { border, .. } && border is None,
        v >= 0,
        w >= 0,
        h >= 0,
        direction == SplitDirection::HORIZONTAL ==> w >= v,
        direction == SplitDirection::VERTICAL ==> h >= v,
    ensures
        ({
            let l = Layout::Split {
                first: Box::new(first),
                second: Box::new(second),
                direction,
                split_type: SplitType::Value(v),
                has_border: false,
            };
            let r = resolve_spec(l, x, y, w, h);
            &&& r is Some
            &&& r.unwrap().len() == 2
            &&& direction == SplitDirection::HORIZONTAL ==> r.unwrap()[0].width == v
                && r.unwrap()[1].width == w - v
            &&& direction == SplitDirection::VERTICAL ==> r.unwrap()[0].height == v
                && r.unwrap()[1].height == h - v
        }),
{
    reveal_with_fuel(resolve_spec, 2);
}

/// Resolution gives one region per leaf: the names of the resolved rects are the
/// leaf names of the tree, in order, and in a well-formed tree no two are equal.
pub proof fn lemma_resolved_names(l: Layout, x: int, y: int, w: int, h: int)
    requires
        resolve_spec(l, x, y, w, h) is Some,
    ensures
        resolve_spec(l, x, y, w, h).unwrap().map_values(|r: RectView| r.name) == l.names(),
        l.wf() ==> unique(resolve_spec(l, x, y, w, h).unwrap().map_values(|r: RectView| r.name)),
    decreases l,
{
    let s = resolve_spec(l, x, y, w, h).unwrap();
    match l {
        Layout::Leaf { .. } => {
            assert(s.map_values(|r: RectView| r.name) =~= l.names());
        },
        Layout::Split { first, second, direction, split_type, has_border } => {
            let g = inset(has_border);
            let horizontal = direction == SplitDirection::HORIZONTAL;
            let total = if horizontal {
                w
            } else {
                h
            };
            let n = near_extent(split_type, total, g, first.bordered(), second.bordered());
            let f = far_extent(split_type, total, g, first.bordered(), second.bordered());
            let (a, c) = if horizontal {
                lemma_resolved_names(*first, x, y, n, h);
                lemma_resolved_names(*second, x + n + g, y, f, h);
                (resolve_spec(*first, x, y, n, h).unwrap(), resolve_spec(*second, x + n + g, y, f, h).unwrap())
            } else {
                lemma_resolved_names(*first, x, y, w, n);
                lemma_resolved_names(*second, x, y + n + g, w, f);
                (resolve_spec(*first, x, y, w, n).unwrap(), resolve_spec(*second, x, y + n + g, w, f).unwrap())
            };
            assert(s == a + c);
            assert(s.map_values(|r: RectView| r.name) =~= a.map_values(|r: RectView| r.name)
                + c.map_values(|r: RectView| r.name));
        },
    }
    if l.wf() {
        lemma_names_unique(l);
    }
}

} // verus!
