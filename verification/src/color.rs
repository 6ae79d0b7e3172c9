//! A plain RGB color: the core only carries these values through to the
//! hosting renderer, for team tints and tile highlighting.

use vstd::prelude::*;

verus! {

/// An opaque RGB triple.
#[derive(Debug, Clone, Copy, PartialEq, Eq, Structural)]
pub struct Color(pub u8, pub u8, pub u8);

impl Color {
    pub fn new(r: u8, g: u8, b: u8) -> (c: Color)
        ensures
            c == Color(r, g, b),
    {
        Color(r, g, b)
    }
}

impl Default for Color {
    /// White.
    fn default() -> (c: Color)
        ensures
            c == Color(255, 255, 255),
    {
        Color(255, 255, 255)
    }
}

/// Which side a combatant fights for.
#[derive(Debug, Clone, Copy, PartialEq, Eq, Structural)]
pub enum TeamSide {
    A,
    B,
}

impl Default for TeamSide {
    fn default() -> (s: TeamSide)
        ensures
            s == TeamSide::A,
    {
        TeamSide::A
    }
}

/// A combatant's team: its side and its display color.
#[derive(Debug, Clone, Copy, PartialEq, Eq, Structural)]
pub struct Team(pub TeamSide, pub Color);

impl Team {
    pub fn new(side: TeamSide, color: Color) -> (t: Team)
        ensures
            t == Team(side, color),
    {
        Team(side, color)
    }

    pub fn side(&self) -> (s: TeamSide)
        ensures
            s == self.0,
    {
        self.0
    }

    pub fn color(&self) -> (c: Color)
        ensures
            c == self.1,
    {
        self.1
    }
}

} // verus!
