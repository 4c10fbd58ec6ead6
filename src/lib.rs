//! A terminal-screen layout engine.
//!
//! A [`Layout`] tree describes how a screen area is divided into named,
//! non-overlapping regions. [`Rect::from_layout`] resolves such a tree against
//! an absolute rectangle into one [`Rect`] per leaf, and [`ListRectColored`]
//! turns one resolved region into a scrollable, selectable list.
//!
//! Nothing here touches a terminal: drawing operations return the glyphs and
//! text runs to put on screen, at absolute 1-based screen coordinates.

pub mod border;
pub mod layout;
pub mod draw;
pub mod list;
pub mod rect;

pub use border::Border;
pub use layout::{Fraction, Layout, LayoutError, SplitDirection, SplitType};
pub use draw::{DrawError, Glyph, TextRun};
pub use list::{ListRectColored, ListRow};
pub use rect::Rect;
