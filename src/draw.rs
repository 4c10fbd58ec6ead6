use vstd::prelude::*;

use crate::rect::Rect;

verus! {

/// One character to put at an absolute screen cell.
#[derive(Clone, Copy, PartialEq, Eq, Structural, Debug)]
pub struct Glyph {
    pub x: u16,
    pub y: u16,
    pub ch: char,
}

/// A piece of text to put on screen, starting at an absolute cell and running right.
#[derive(Clone, Debug)]
pub struct TextRun {
    pub x: u16,
    pub y: u16,
    pub text: String,
}

impl View for TextRun {
    type V = (int, int, Seq<char>);

    open spec fn view(&self) -> (int, int, Seq<char>) {
        (self.x as int, self.y as int, self.text@)
    }
}

/// Why a drawing operation was refused.
#[derive(Clone, Copy, PartialEq, Eq, Structural, Debug)]
pub enum DrawError {
    /// The text would start or continue outside the content area.
    OutOfBounds,
}

/// The views of a sequence of text runs.
pub open spec fn run_views(s: Seq<TextRun>) -> Seq<(int, int, Seq<char>)> {
    s.map_values(|r: TextRun| r@)
}

proof fn lemma_run_views_push(s: Seq<TextRun>, r: TextRun)
    ensures
        run_views(s.push(r)) == run_views(s).push(r@),
{
    assert(run_views(s.push(r)) =~= run_views(s).push(r@));
}

/// `p` followed by the runs of `o`, if there are any.
pub open spec fn prepend(p: Seq<(int, int, Seq<char>)>, o: Option<Seq<(int, int, Seq<char>)>>) -> Option<
    Seq<(int, int, Seq<char>)>,
> {
    match o {
        Some(s) => Some(p + s),
        None => None,
    }
}

/// The runs that writing `text` at content position `(x, y)` produces in a `w` by
/// `h` content area whose first cell is `(ox, oy)`: what does not fit on a line
/// continues at the start of the next one. `None` when a line falls outside.
pub open spec fn wrap_spec(ox: int, oy: int, w: int, h: int, text: Seq<char>, x: int, y: int) -> Option<
    Seq<(int, int, Seq<char>)>,
>
    decreases h - y,
{
    if y >= h || x > w {
        None
    } else if x + text.len() <= w {
        Some(seq![(ox + x, oy + y, text)])
    } else {
        let k = w - x;
        prepend(seq![(ox + x, oy + y, text.take(k))], wrap_spec(ox, oy, w, h, text.skip(k), 0, y + 1))
    }
}

/// Writing never runs past the bottom of the area: text that needs more cells than
/// the lines from `y` down hold (`x + len > w * (h - y)`) is refused.
pub proof fn lemma_wrap_overflow_fails(
    ox: int,
    oy: int,
    w: int,
    h: int,
    text: Seq<char>,
    x: int,
    y: int,
)
    requires
        0 <= w,
        0 <= x,
        y <= h,
        x + text.len() > w * (h - y),
    ensures
        wrap_spec(ox, oy, w, h, text, x, y) is None,
    decreases h - y,
{
    if y < h && x <= w {
        if x + text.len() <= w {
            assert(w * (h - y) >= w) by (nonlinear_arith)
                requires
                    w >= 0,
                    h - y >= 1,
            ;
        } else {
            let k = w - x;
            assert(w * (h - y) == w * (h - (y + 1)) + w) by (nonlinear_arith);
            lemma_wrap_overflow_fails(ox, oy, w, h, text.skip(k), 0, y + 1);
        }
    }
}

/// The marker that replaces the tail of a line that does not fit.
pub open spec fn ellipsis() -> Seq<char> {
    seq!['.', '.', '.']
}

/// What `write_trimmed` shows of `text` at content position `(x, y)` of a `w` by
/// `h` content area: the text itself if it fits on the line, else as much of it as
/// leaves room for the ellipsis, followed by the ellipsis (cut to the room there is).
pub open spec fn trim_spec(w: int, h: int, text: Seq<char>, x: int, y: int) -> Option<Seq<char>> {
    if y >= h || x > w {
        None
    } else {
        let room = w - x;
        if text.len() <= room {
            Some(text)
        } else if room >= 3 {
            Some(text.take(room - 3) + ellipsis())
        } else {
            Some(ellipsis().take(room))
        }
    }
}

/// `n` spaces.
pub open spec fn spaces(n: int) -> Seq<char> {
    Seq::new(n as nat, |i: int| ' ')
}

/// The runs that blank the content area of `r`: one row of spaces per line.
pub open spec fn blank_runs(r: Rect) -> Seq<(int, int, Seq<char>)> {
    Seq::new(r.height as nat, |i: int| (r.x as int, r.y + i, spaces(r.width as int)))
}

/// `len` glyphs `ch` in a row (`horizontal`) or a column, starting at `(x, y)`.
pub open spec fn glyph_line(x: int, y: int, horizontal: bool, len: int, ch: char) -> Seq<Glyph> {
    Seq::new(
        len as nat,
        |i: int|
            if horizontal {
                Glyph { x: (x + i) as u16, y: y as u16, ch }
            } else {
                Glyph { x: x as u16, y: (y + i) as u16, ch }
            },
    )
}

/// The glyphs of the border of `r`, one cell outside its content area: the west
/// and east columns, the north and south rows, then the four corners.
pub open spec fn border_glyphs(r: Rect) -> Seq<Glyph> {
    let (x, y, w, h) = (r.x as int, r.y as int, r.width as int, r.height as int);
    match r.border {
        None => Seq::empty(),
        Some(b) => glyph_line(x - 1, y, false, h + 1, b.w) + glyph_line(x + w, y, false, h + 1, b.e)
            + glyph_line(x, y - 1, true, w + 1, b.n) + glyph_line(x, y + h, true, w + 1, b.s) + seq![
            Glyph { x: (x - 1) as u16, y: (y - 1) as u16, ch: b.nw },
            Glyph { x: (x + w) as u16, y: (y - 1) as u16, ch: b.ne },
            Glyph { x: (x - 1) as u16, y: (y + h) as u16, ch: b.sw },
            Glyph { x: (x + w) as u16, y: (y + h) as u16, ch: b.se },
        ],
    }
}

/// Appends `len` glyphs `ch` in a row or a column starting at `(x, y)`.
fn push_line(out: &mut Vec<Glyph>, x: u16, y: u16, horizontal: bool, len: u16, ch: char)
    requires
        horizontal ==> x + len <= u16::MAX + 1,
        !horizontal ==> y + len <= u16::MAX + 1,
    ensures
        final(out)@ == old(out)@ + glyph_line(x as int, y as int, horizontal, len as int, ch),
{
    let ghost before = out@;
    let mut i: u16 = 0;
    while i < len
        invariant
            i <= len,
            horizontal ==> x + len <= u16::MAX + 1,
            !horizontal ==> y + len <= u16::MAX + 1,
            out@ =~= before + glyph_line(x as int, y as int, horizontal, i as int, ch),
        decreases len - i,
    {
        let g = if horizontal {
            Glyph { x: x + i, y, ch }
        } else {
            Glyph { x, y: y + i, ch }
        };
        out.push(g);
        i += 1;
    }
}

impl Rect {
    /// The content size, `(width, height)`.
    pub fn get_dimensions(&self) -> (r: (u16, u16))
        ensures
            r == (self.width, self.height),
    {
        (self.width, self.height)
    }

    /// The corners of the content area, marked with box-drawing corners; nothing
    /// for an empty area.
    pub fn show(&self) -> (r: Vec<Glyph>)
        requires
            self.wf(),
        ensures
            self.width == 0 || self.height == 0 ==> r@.len() == 0,
            self.width > 0 && self.height > 0 ==> r@ == seq![
                Glyph { x: self.x, y: self.y, ch: '┌' },
                Glyph { x: (self.x + self.width - 1) as u16, y: self.y, ch: '┐' },
                Glyph { x: self.x, y: (self.y + self.height - 1) as u16, ch: '└' },
                Glyph {
                    x: (self.x + self.width - 1) as u16,
                    y: (self.y + self.height - 1) as u16,
                    ch: '┘',
                },
            ],
    {
        let mut out: Vec<Glyph> = Vec::new();
        if self.width == 0 || self.height == 0 {
            return out;
        }
        let right = self.x + self.width - 1;
        let bottom = self.y + self.height - 1;
        out.push(Glyph { x: self.x, y: self.y, ch: '┌' });
        out.push(Glyph { x: right, y: self.y, ch: '┐' });
        out.push(Glyph { x: self.x, y: bottom, ch: '└' });
        out.push(Glyph { x: right, y: bottom, ch: '┘' });
        assert(out@ =~= seq![
            Glyph { x: self.x, y: self.y, ch: '┌' },
            Glyph { x: right, y: self.y, ch: '┐' },
            Glyph { x: self.x, y: bottom, ch: '└' },
            Glyph { x: right, y: bottom, ch: '┘' },
        ]);
        out
    }

    /// The glyphs of the border, if the rect has one.
    pub fn show_border(&self) -> (r: Vec<Glyph>)
        requires
            self.wf(),
        ensures
            r@ == border_glyphs(*self),
    {
        let mut out: Vec<Glyph> = Vec::new();
        match self.border {
            None => {
                assert(out@ =~= border_glyphs(*self));
            },
            Some(b) => {
                let (x, y, w, h) = (self.x, self.y, self.width, self.height);
                push_line(&mut out, x - 1, y, false, h + 1, b.w);
                push_line(&mut out, x + w, y, false, h + 1, b.e);
                push_line(&mut out, x, y - 1, true, w + 1, b.n);
                push_line(&mut out, x, y + h, true, w + 1, b.s);
                out.push(Glyph { x: x - 1, y: y - 1, ch: b.nw });
                out.push(Glyph { x: x + w, y: y - 1, ch: b.ne });
                out.push(Glyph { x: x - 1, y: y + h, ch: b.sw });
                out.push(Glyph { x: x + w, y: y + h, ch: b.se });
                assert(out@ =~= border_glyphs(*self));
            },
        }
        out
    }

    /// Writes `text` at content position `(x, y)`, 0-based. What does not fit on
    /// the line continues at the start of the next one. Fails, producing nothing,
    /// when a line would fall outside the content area.
    pub fn write(&self, text: &str, x: u16, y: u16) -> (r: Result<Vec<TextRun>, DrawError>)
        requires
            self.wf(),
        ensures
            ({
                let s = wrap_spec(
                    self.x as int,
                    self.y as int,
                    self.width as int,
                    self.height as int,
                    text@,
                    x as int,
                    y as int,
                );
                &&& s is None ==> r == Err::<Vec<TextRun>, DrawError>(DrawError::OutOfBounds)
                &&& s matches Some(runs) ==> r matches Ok(v) && run_views(v@) == runs
            }),
    {
        let ghost (ox, oy, w, h) = (self.x as int, self.y as int, self.width as int, self.height as int);
        let n = text.unicode_len();
        let mut out: Vec<TextRun> = Vec::new();
        let mut start: usize = 0;
        let mut cx: u16 = x;
        let mut cy: u16 = y;
        assert(text@.skip(0) =~= text@);
        assert(run_views(out@) =~= Seq::empty());
        loop
            invariant
                self.wf(),
                ox == self.x as int,
                oy == self.y as int,
                w == self.width as int,
                h == self.height as int,
                n == text@.len(),
                start <= n,
                wrap_spec(ox, oy, w, h, text@, x as int, y as int) == prepend(
                    run_views(out@),
                    wrap_spec(ox, oy, w, h, text@.skip(start as int), cx as int, cy as int),
                ),
            decreases h - cy,
        {
            let ghost rest = text@.skip(start as int);
            let ghost prev = run_views(out@);
            if cy >= self.height || cx > self.width {
                assert(wrap_spec(ox, oy, w, h, rest, cx as int, cy as int) is None);
                return Err(DrawError::OutOfBounds);
            }
            let room = self.width - cx;
            if n - start <= room as usize {
                let piece = String::from_str(text.substring_char(start, n));
                let run = TextRun { x: self.x + cx, y: self.y + cy, text: piece };
                assert(text@.subrange(start as int, n as int) =~= rest);
                assert(run@ == (ox + cx, oy + cy, rest));
                proof {
                    lemma_run_views_push(out@, run);
                }
                out.push(run);
                assert(wrap_spec(ox, oy, w, h, rest, cx as int, cy as int) == Some(
                    seq![(ox + cx, oy + cy, rest)],
                ));
                assert(run_views(out@) =~= prev + seq![(ox + cx, oy + cy, rest)]);
                return Ok(out);
            }
            let k = room as usize;
            let piece = String::from_str(text.substring_char(start, start + k));
            let run = TextRun { x: self.x + cx, y: self.y + cy, text: piece };
            assert(text@.subrange(start as int, start + k) =~= rest.take(k as int));
            assert(rest.skip(k as int) =~= text@.skip(start + k));
            proof {
                lemma_run_views_push(out@, run);
            }
            out.push(run);
            assert(run_views(out@) =~= prev + seq![(ox + cx, oy + cy, rest.take(k as int))]);
            start = start + k;
            cx = 0;
            cy = cy + 1;
        }
    }

    /// Writes `text` at content position `(x, y)` on one line: if it does not fit,
    /// its tail is replaced with `...` so that the result does.
    pub fn write_trimmed(&self, text: &str, x: u16, y: u16) -> (r: Result<TextRun, DrawError>)
        requires
            self.wf(),
        ensures
            ({
                let s = trim_spec(self.width as int, self.height as int, text@, x as int, y as int);
                &&& s is None ==> r == Err::<TextRun, DrawError>(DrawError::OutOfBounds)
                &&& s matches Some(t) ==> r matches Ok(run) && run@ == (
                    self.x + x,
                    self.y + y,
                    t,
                )
            }),
    {
        if y >= self.height || x > self.width {
            return Err(DrawError::OutOfBounds);
        }
        proof {
            reveal_strlit("...");
        }
        let n = text.unicode_len();
        let room = (self.width - x) as usize;
        let shown = if n <= room {
            String::from_str(text)
        } else if room >= 3 {
            let mut s = String::from_str(text.substring_char(0, room - 3));
            s.append("...");
            assert(text@.subrange(0, room - 3) =~= text@.take(room - 3));
            s
        } else {
            let dots = "...";
            let s = String::from_str(dots.substring_char(0, room));
            assert(dots@.subrange(0, room as int) =~= ellipsis().take(room as int));
            s
        };
        Ok(TextRun { x: self.x + x, y: self.y + y, text: shown })
    }

    /// Blanks the content area: one run of spaces per row, top to bottom.
    pub fn clear(&self) -> (r: Vec<TextRun>)
        requires
            self.wf(),
        ensures
            run_views(r@) == blank_runs(*self),
    {
        proof {
            reveal_strlit(" ");
        }
        let mut blank = String::new();
        let mut i: u16 = 0;
        while i < self.width
            invariant
                i <= self.width,
                blank@ =~= spaces(i as int),
            decreases self.width - i,
        {
            proof {
                reveal_strlit(" ");
            }
            blank.append(" ");
            i += 1;
        }
        let mut out: Vec<TextRun> = Vec::new();
        let mut j: u16 = 0;
        while j < self.height
            invariant
                self.wf(),
                j <= self.height,
                blank@ == spaces(self.width as int),
                run_views(out@) =~= Seq::new(
                    j as nat,
                    |i: int| (self.x as int, self.y + i, spaces(self.width as int)),
                ),
            decreases self.height - j,
        {
            let run = TextRun { x: self.x, y: self.y + j, text: blank.clone() };
            proof {
                lemma_run_views_push(out@, run);
            }
            out.push(run);
            j += 1;
        }
        out
    }
}

} // verus!
