//! The colours that placed and falling cells carry.

use crate::rng::next_usize;
use rand::rngs::StdRng;
use vstd::prelude::*;

verus! {

/// The tag of a cell: six colours, told apart by identity alone.
#[derive(Copy, Clone, Debug, PartialEq, Eq, Structural)]
pub enum Color {
    Red,
    Green,
    Blue,
    White,
    Magenta,
    Yellow,
}

/// How many colours there are.
pub const COLOR_COUNT: usize = 6;

impl Color {
    /// The place of a colour in the declaration order, from 0 to 5.
    pub open spec fn index(self) -> int {
        match self {
            Color::Red => 0,
            Color::Green => 1,
            Color::Blue => 2,
            Color::White => 3,
            Color::Magenta => 4,
            Color::Yellow => 5,
        }
    }

    /// The colour at a place of the declaration order; `Red` outside 0..6.
    pub open spec fn at(i: int) -> Color {
        if i == 1 {
            Color::Green
        } else if i == 2 {
            Color::Blue
        } else if i == 3 {
            Color::White
        } else if i == 4 {
            Color::Magenta
        } else if i == 5 {
            Color::Yellow
        } else {
            Color::Red
        }
    }

    /// The display colour as red, green and blue, each channel off (0) or
    /// fully on (1).
    pub open spec fn channels(self) -> (u8, u8, u8) {
        match self {
            Color::Red => (1, 0, 0),
            Color::Green => (0, 1, 0),
            Color::Blue => (0, 0, 1),
            Color::White => (1, 1, 1),
            Color::Magenta => (1, 0, 1),
            Color::Yellow => (1, 1, 0),
        }
    }

    /// The display colour as red, green and blue, each channel off (0) or
    /// fully on (1).
    pub fn rgb(&self) -> (c: (u8, u8, u8))
        ensures
            c == self.channels(),
    {
        match self {
            Color::Red => (1, 0, 0),
            Color::Green => (0, 1, 0),
            Color::Blue => (0, 0, 1),
            Color::White => (1, 1, 1),
            Color::Magenta => (1, 0, 1),
            Color::Yellow => (1, 1, 0),
        }
    }

    /// The colour that a drawn number selects: the number is reduced modulo
    /// the count of colours and indexes the declaration order.
    pub fn from_index(n: usize) -> (c: Color)
        ensures
            c == Color::at(n as int % 6),
            c.index() == n as int % 6,
    {
        let k: usize = n % COLOR_COUNT;
        if k == 0 {
            Color::Red
        } else if k == 1 {
            Color::Green
        } else if k == 2 {
            Color::Blue
        } else if k == 3 {
            Color::White
        } else if k == 4 {
            Color::Magenta
        } else {
            Color::Yellow
        }
    }

    /// Draws a colour: one number is taken from the generator and handed to
    /// [`Color::from_index`]. Which colour comes out is up to the generator.
    pub fn from_rng(rng: &mut StdRng) -> Color {
        let n: usize = next_usize(rng);
        Color::from_index(n)
    }
}

} // verus!
