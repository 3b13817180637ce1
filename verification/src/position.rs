//! The lane/position a build is recommended for.

use vstd::prelude::*;

verus! {

/// A lane/position assignment for one build. `Unknown` is a valid sentinel
/// for vendor data that carries no position, never a target for application.
#[derive(Clone, Copy, Debug, PartialEq, Eq, Structural)]
pub enum Position {
    Unknown,
    Jungle,
    Support,
    Bottom,
    Top,
    Mid,
}

impl Position {
    /// The numeric key the vendor uses for this position.
    pub open spec fn index_spec(self) -> int {
        match self {
            Position::Unknown => 0,
            Position::Jungle => 1,
            Position::Support => 2,
            Position::Bottom => 3,
            Position::Top => 4,
            Position::Mid => 5,
        }
    }

    /// The position a vendor key stands for; unknown keys map to `Unknown`.
    pub open spec fn from_index_spec(v: int) -> Position {
        if v == 1 {
            Position::Jungle
        } else if v == 2 {
            Position::Support
        } else if v == 3 {
            Position::Bottom
        } else if v == 4 {
            Position::Top
        } else if v == 5 {
            Position::Mid
        } else {
            Position::Unknown
        }
    }

    /// Decodes the vendor's numeric position key.
    pub fn from_index(v: i64) -> (r: Position)
        ensures
            r == Position::from_index_spec(v as int),
    {
        if v == 1 {
            Position::Jungle
        } else if v == 2 {
            Position::Support
        } else if v == 3 {
            Position::Bottom
        } else if v == 4 {
            Position::Top
        } else if v == 5 {
            Position::Mid
        } else {
            Position::Unknown
        }
    }

    /// The numeric key of this position.
    pub fn index(&self) -> (r: i64)
        ensures
            r as int == self.index_spec(),
    {
        match self {
            Position::Unknown => 0,
            Position::Jungle => 1,
            Position::Support => 2,
            Position::Bottom => 3,
            Position::Top => 4,
            Position::Mid => 5,
        }
    }

    /// Advances to the next position in key order; reports whether it moved.
    pub fn next(&mut self) -> (moved: bool)
        ensures
            moved == (old(self).index_spec() < 5),
            moved ==> final(self).index_spec() == old(self).index_spec() + 1,
            !moved ==> *final(self) == *old(self),
    {
        let curr = self.index();
        if curr < 5 {
            *self = Position::from_index(curr + 1);
            return true;
        }
        false
    }

    /// Steps back to the previous position in key order, never below
    /// `Jungle`; reports whether it moved.
    pub fn previous(&mut self) -> (moved: bool)
        ensures
            moved == (old(self).index_spec() > 1),
            moved ==> final(self).index_spec() == old(self).index_spec() - 1,
            !moved ==> *final(self) == *old(self),
    {
        let curr = self.index();
        if curr > 1 {
            *self = Position::from_index(curr - 1);
            return true;
        }
        false
    }

    /// The display name used in page and item-set titles.
    pub fn name(&self) -> (r: &'static str)
        ensures
            r@ == self.name_spec(),
    {
        match self {
            Position::Unknown => "Unknown",
            Position::Jungle => "Jungle",
            Position::Support => "Support",
            Position::Bottom => "Bottom",
            Position::Top => "Top",
            Position::Mid => "Mid",
        }
    }

    /// The display name, as a sequence of characters.
    pub open spec fn name_spec(self) -> Seq<char> {
        match self {
            Position::Unknown => "Unknown"@,
            Position::Jungle => "Jungle"@,
            Position::Support => "Support"@,
            Position::Bottom => "Bottom"@,
            Position::Top => "Top"@,
            Position::Mid => "Mid"@,
        }
    }
}

impl From<i64> for Position {
    /// Decodes the vendor's numeric position key.
    fn from(v: i64) -> (r: Position) {
        Position::from_index(v)
    }
}

impl vstd::std_specs::convert::FromSpecImpl<i64> for Position {
    open spec fn obeys_from_spec() -> bool {
        true
    }

    open spec fn from_spec(v: i64) -> Position {
        Position::from_index_spec(v as int)
    }
}

} // verus!
