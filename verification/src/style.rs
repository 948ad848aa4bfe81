//! Colors, modifiers and styled cells.

use vstd::prelude::*;

verus! {

#[derive(Clone, Copy, PartialEq, Eq, Structural, Debug)]
pub enum Color {
    Reset,
    Black,
    Red,
    Green,
    Yellow,
    Blue,
    Magenta,
    Cyan,
    Gray,
    DarkGray,
    White,
}

#[derive(Clone, Copy, PartialEq, Eq, Structural, Debug)]
pub enum Modifier {
    Plain,
    Bold,
}

#[derive(Clone, Copy, PartialEq, Eq, Structural, Debug)]
pub struct Style {
    pub fg: Color,
    pub bg: Color,
    pub modifier: Modifier,
}

impl Style {
    /// The unstyled default: reset colors, no modifier.
    pub fn plain() -> (s: Style)
        ensures
            s == Style::spec_plain(),
    {
        Style { fg: Color::Reset, bg: Color::Reset, modifier: Modifier::Plain }
    }

    pub open spec fn spec_plain() -> Style {
        Style { fg: Color::Reset, bg: Color::Reset, modifier: Modifier::Plain }
    }

    pub fn fg(self, c: Color) -> (s: Style)
        ensures
            s == (Style { fg: c, ..self }),
    {
        Style { fg: c, ..self }
    }

    pub fn bg(self, c: Color) -> (s: Style)
        ensures
            s == (Style { bg: c, ..self }),
    {
        Style { bg: c, ..self }
    }

    pub fn modifier(self, m: Modifier) -> (s: Style)
        ensures
            s == (Style { modifier: m, ..self }),
    {
        Style { modifier: m, ..self }
    }
}

/// One character cell of a frame: a symbol and its style.
#[derive(Clone, Copy, PartialEq, Eq, Structural, Debug)]
pub struct Cell {
    pub symbol: char,
    pub style: Style,
}

impl Cell {
    pub open spec fn spec_blank() -> Cell {
        Cell { symbol: ' ', style: Style::spec_plain() }
    }

    pub fn blank() -> (c: Cell)
        ensures
            c == Cell::spec_blank(),
    {
        Cell { symbol: ' ', style: Style { fg: Color::Reset, bg: Color::Reset, modifier: Modifier::Plain } }
    }
}

} // verus!
