//! A plain list of colors.

use vstd::prelude::*;
use crate::blokus::color::Color;

verus! {

/// A list of colors, e.g. the colors still in the game in play order.
#[derive(Debug, Clone, PartialEq, Eq)]
pub struct Colors {
    pub colors: Vec<Color>,
}

impl Colors {
    /// Creates an empty list.
    pub fn new() -> (r: Self)
        ensures
            r.colors@ == Seq::<Color>::empty(),
    {
        Self { colors: Vec::new() }
    }

    /// The number of colors in the list.
    pub fn len(&self) -> (r: usize)
        ensures
            r == self.colors@.len(),
    {
        self.colors.len()
    }

    /// Tests whether the list is empty.
    pub fn is_empty(&self) -> (r: bool)
        ensures
            r == (self.colors@.len() == 0),
    {
        self.colors.len() == 0
    }

    /// Appends a color.
    pub fn push(&mut self, color: Color)
        ensures
            final(self).colors@ == old(self).colors@.push(color),
    {
        self.colors.push(color)
    }

    /// Fetches the color at an index.
    pub fn get(&self, index: usize) -> (r: Color)
        requires
            index < self.colors@.len(),
        ensures
            r == self.colors@[index as int],
    {
        self.colors[index]
    }

    /// Read access to the colors.
    pub fn iter(&self) -> (r: &Vec<Color>)
        ensures
            r == &self.colors,
    {
        &self.colors
    }
}

} // verus!
