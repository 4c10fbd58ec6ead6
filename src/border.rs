use vstd::prelude::*;

verus! {

/// The eight glyphs drawn around a bordered region: four edges and four corners.
#[derive(Clone, Copy, PartialEq, Eq, Structural, Debug)]
pub struct Border {
    pub n: char,
    pub s: char,
    pub e: char,
    pub w: char,
    pub ne: char,
    pub nw: char,
    pub se: char,
    pub sw: char,
}

impl Border {
    /// A single-line box drawn with box-drawing characters.
    pub fn lined() -> (r: Border)
        ensures
            r == (Border {
                n: '─',
                s: '─',
                e: '│',
                w: '│',
                ne: '┐',
                nw: '┌',
                se: '┘',
                sw: '└',
            }),
    {
        Border { n: '─', s: '─', e: '│', w: '│', ne: '┐', nw: '┌', se: '┘', sw: '└' }
    }

    /// An invisible border: every slot holds a space.
    pub fn space() -> (r: Border)
        ensures
            r == (Border { n: ' ', s: ' ', e: ' ', w: ' ', ne: ' ', nw: ' ', se: ' ', sw: ' ' }),
    {
        Border { n: ' ', s: ' ', e: ' ', w: ' ', ne: ' ', nw: ' ', se: ' ', sw: ' ' }
    }
}

} // verus!
