use vstd::prelude::*;

use crate::border::Border;

verus! {

/// Along which axis a split divides its area.
/// `VERTICAL` stacks the two children (top, bottom);
/// `HORIZONTAL` puts them side by side (left, right).
#[derive(Clone, Copy, PartialEq, Eq, Structural, Debug)]
pub enum SplitDirection {
    VERTICAL,
    HORIZONTAL,
}

/// A share of a whole, `num / den`. It is valid when it lies in `[0, 1]`.
#[derive(Clone, Copy, PartialEq, Eq, Structural, Debug)]
pub struct Fraction {
    pub num: u16,
    pub den: u16,
}

impl Fraction {
    pub open spec fn valid(self) -> bool {
        self.den > 0 && self.num <= self.den
    }
}

/// How a split sizes its two children.
/// `Percentage(f)` gives the near child `floor(total * f)` cells.
/// `Value(v)` with `v >= 0` gives the near child `v` content cells (plus its
/// border); with `v < 0` it gives the far child `-v` content cells (plus its border).
/// The other child always gets what remains.
#[derive(Clone, Copy, PartialEq, Eq, Structural, Debug)]
pub enum SplitType {
    Percentage(Fraction),
    Value(i16),
}

/// Why building or resolving a layout failed.
#[derive(Clone, Copy, PartialEq, Eq, Structural, Debug)]
pub enum LayoutError {
    /// A percentage outside `[0, 1]` (or with a zero denominator).
    PercentageOutOfRange,
    /// The two halves of a split share a leaf name.
    DuplicateName,
    /// A region is too small for its split or for its border.
    TooSmall,
}

/// A tree describing how a rectangular area is divided.
/// The first child of a split is the near one (left or top), the second the far one.
/// A split records whether either child has a border: it then keeps one cell free
/// between its children.
pub enum Layout {
    Leaf { name: String, border: Option<Border> },
    Split {
        first: Box<Layout>,
        second: Box<Layout>,
        direction: SplitDirection,
        split_type: SplitType,
        has_border: bool,
    },
}

/// No sequence element of `a` equals one of `b`.
pub open spec fn disjoint(a: Seq<Seq<char>>, b: Seq<Seq<char>>) -> bool {
    forall|i: int, j: int| 0 <= i < a.len() && 0 <= j < b.len() ==> a[i] != b[j]
}

/// No two elements of `s` are equal.
pub open spec fn unique(s: Seq<Seq<char>>) -> bool {
    forall|i: int, j: int| 0 <= i < j < s.len() ==> s[i] != s[j]
}

/// The views of a sequence of strings.
pub open spec fn string_views(s: Seq<String>) -> Seq<Seq<char>> {
    s.map_values(|t: String| t@)
}

impl Layout {
    /// Whether this node reserves border cells.
    pub open spec fn bordered(self) -> bool {
        match self {
            Layout::Leaf { border, .. } => border is Some,
            Layout::Split { has_border, .. } => has_border,
        }
    }

    /// The leaf names of the tree, near side first.
    pub open spec fn names(self) -> Seq<Seq<char>>
        decreases self,
    {
        match self {
            Layout::Leaf { name, .. } => seq![name@],
            Layout::Split { first, second, .. } => first.names() + second.names(),
        }
    }

    /// What the constructors guarantee: every split's border flag is the OR of
    /// its children's, every percentage is valid, and leaf names are distinct.
    pub open spec fn wf(self) -> bool
        decreases self,
    {
        match self {
            Layout::Leaf { .. } => true,
            Layout::Split { first, second, split_type, has_border, .. } => {
                &&& first.wf()
                &&& second.wf()
                &&& has_border == (first.bordered() || second.bordered())
                &&& (split_type matches SplitType::Percentage(f) ==> f.valid())
                &&& disjoint(first.names(), second.names())
            },
        }
    }

    /// A leaf without a border, named by a string slice.
    pub fn new_str(name: &str) -> (r: Layout)
        ensures
            r matches Layout::Leaf { name: n, border } && n@ == name@ && border is None,
            r.wf(),
    {
        Layout::new(String::from_str(name))
    }

    /// A leaf without a border.
    pub fn new(name: String) -> (r: Layout)
        ensures
            r == (Layout::Leaf { name, border: None }),
            r.wf(),
    {
        Layout::Leaf { name, border: None }
    }

    /// A bordered leaf, named by a string slice.
    pub fn new_border_str(name: &str, border: Border) -> (r: Layout)
        ensures
            r matches Layout::Leaf { name: n, border: b } && n@ == name@ && b == Some(border),
            r.wf(),
    {
        Layout::new_border(String::from_str(name), border)
    }

    /// A bordered leaf.
    pub fn new_border(name: String, border: Border) -> (r: Layout)
        ensures
            r == (Layout::Leaf { name, border: Some(border) }),
            r.wf(),
    {
        Layout::Leaf { name, border: Some(border) }
    }

    /// Whether this node reserves border cells.
    pub fn has_border(&self) -> (r: bool)
        ensures
            r == self.bordered(),
    {
        match self {
            Layout::Leaf { border, .. } => border.is_some(),
            Layout::Split { has_border, .. } => *has_border,
        }
    }

    /// Appends the leaf names of the tree to `out`, near side first.
    fn collect_names(&self, out: &mut Vec<String>)
        ensures
            string_views(final(out)@) == string_views(old(out)@) + self.names(),
        decreases self,
    {
        match self {
            Layout::Leaf { name, .. } => {
                let ghost before = out@;
                out.push(name.clone());
                assert(string_views(out@) =~= string_views(before) + self.names());
            },
            Layout::Split { first, second, .. } => {
                let ghost before = string_views(out@);
                first.collect_names(out);
                second.collect_names(out);
                assert(string_views(out@) =~= before + self.names());
            },
        }
    }

    /// Whether no leaf name of `a` is also a leaf name of `b`.
    fn names_disjoint(a: &Layout, b: &Layout) -> (r: bool)
        ensures
            r == disjoint(a.names(), b.names()),
    {
        let mut na: Vec<String> = Vec::new();
        a.collect_names(&mut na);
        let mut nb: Vec<String> = Vec::new();
        b.collect_names(&mut nb);
        assert(string_views(na@) =~= a.names());
        assert(string_views(nb@) =~= b.names());
        let mut i: usize = 0;
        while i < na.len()
            invariant
                string_views(na@) == a.names(),
                string_views(nb@) == b.names(),
                i <= na.len(),
                forall|p: int, q: int| 0 <= p < i && 0 <= q < nb.len() ==> na@[p]@ != nb@[q]@,
            decreases na.len() - i,
        {
            let mut j: usize = 0;
            while j < nb.len()
                invariant
                    string_views(na@) == a.names(),
                    string_views(nb@) == b.names(),
                    i < na.len(),
                    j <= nb.len(),
                    forall|p: int, q: int| 0 <= p < i && 0 <= q < nb.len() ==> na@[p]@ != nb@[q]@,
                    forall|q: int| 0 <= q < j ==> na@[i as int]@ != nb@[q]@,
                decreases nb.len() - j,
            {
                if na[i] == nb[j] {
                    assert(a.names()[i as int] == b.names()[j as int]);
                    return false;
                }
                j += 1;
            }
            i += 1;
        }
        assert forall|p: int, q: int|
            0 <= p < a.names().len() && 0 <= q < b.names().len() implies a.names()[p]
            != b.names()[q] by {
            assert(a.names()[p] == na@[p]@);
            assert(b.names()[q] == nb@[q]@);
        }
        true
    }

    /// Joins two layouts side by side (`HORIZONTAL`) or stacked (`VERTICAL`); the
    /// near child gets the share `percentage` of the split axis.
    pub fn merge(r1: Layout, r2: Layout, direction: SplitDirection, percentage: Fraction) -> (r:
        Result<Layout, LayoutError>)
        requires
            r1.wf(),
            r2.wf(),
        ensures
            !percentage.valid() ==> r == Err::<Layout, LayoutError>(
                LayoutError::PercentageOutOfRange,
            ),
            percentage.valid() && !disjoint(r1.names(), r2.names()) ==> r == Err::<
                Layout,
                LayoutError,
            >(LayoutError::DuplicateName),
            percentage.valid() && disjoint(r1.names(), r2.names()) ==> r == Ok::<
                Layout,
                LayoutError,
            >(
                Layout::Split {
                    first: Box::new(r1),
                    second: Box::new(r2),
                    direction,
                    split_type: SplitType::Percentage(percentage),
                    has_border: r1.bordered() || r2.bordered(),
                },
            ),
            r matches Ok(l) ==> l.wf(),
    {
        if percentage.den == 0 || percentage.num > percentage.den {
            return Err(LayoutError::PercentageOutOfRange);
        }
        Layout::join(r1, r2, direction, SplitType::Percentage(percentage))
    }

    /// Joins two layouts; with `value >= 0` the near child gets `value` content
    /// cells along the split axis, with `value < 0` the far child gets `-value`.
    pub fn merge_value(r1: Layout, r2: Layout, direction: SplitDirection, value: i16) -> (r: Result<
        Layout,
        LayoutError,
    >)
        requires
            r1.wf(),
            r2.wf(),
        ensures
            !disjoint(r1.names(), r2.names()) ==> r == Err::<Layout, LayoutError>(
                LayoutError::DuplicateName,
            ),
            disjoint(r1.names(), r2.names()) ==> r == Ok::<Layout, LayoutError>(
                Layout::Split {
                    first: Box::new(r1),
                    second: Box::new(r2),
                    direction,
                    split_type: SplitType::Value(value),
                    has_border: r1.bordered() || r2.bordered(),
                },
            ),
            r matches Ok(l) ==> l.wf(),
    {
        Layout::join(r1, r2, direction, SplitType::Value(value))
    }

    fn join(r1: Layout, r2: Layout, direction: SplitDirection, split_type: SplitType) -> (r: Result<
        Layout,
        LayoutError,
    >)
        requires
            r1.wf(),
            r2.wf(),
            split_type matches SplitType::Percentage(f) ==> f.valid(),
        ensures
            !disjoint(r1.names(), r2.names()) ==> r == Err::<Layout, LayoutError>(
                LayoutError::DuplicateName,
            ),
            disjoint(r1.names(), r2.names()) ==> r == Ok::<Layout, LayoutError>(
                Layout::Split {
                    first: Box::new(r1),
                    second: Box::new(r2),
                    direction,
                    split_type,
                    has_border: r1.bordered() || r2.bordered(),
                },
            ),
            r matches Ok(l) ==> l.wf(),
    {
        if !Layout::names_disjoint(&r1, &r2) {
            return Err(LayoutError::DuplicateName);
        }
        let has_border = r1.has_border() || r2.has_border();
        Ok(
            Layout::Split {
                first: Box::new(r1),
                second: Box::new(r2),
                direction,
                split_type,
                has_border,
            },
        )
    }
}

/// In a well-formed layout no two leaves share a name.
pub proof fn lemma_names_unique(l: Layout)
    requires
        l.wf(),
    ensures
        unique(l.names()),
    decreases l,
{
    if let Layout::Split { first, second, .. } = l {
        lemma_names_unique(*first);
        lemma_names_unique(*second);
        let a = first.names();
        let b = second.names();
        assert forall|i: int, j: int| 0 <= i < j < l.names().len() implies l.names()[i]
            != l.names()[j] by {
            if j < a.len() {
                assert(l.names()[i] == a[i] && l.names()[j] == a[j]);
            } else if i >= a.len() {
                assert(l.names()[i] == b[i - a.len()] && l.names()[j] == b[j - a.len()]);
            } else {
                assert(l.names()[i] == a[i] && l.names()[j] == b[j - a.len()]);
            }
        }
    }
}

} // verus!
