//! Which half of the book an order rests on.

use vstd::prelude::*;

verus! {

/// The side of the book an order rests on.
#[derive(Copy, Clone, Debug, PartialEq, Eq, PartialOrd, Ord, Hash, Structural)]
pub enum Side {
    /// A resting buy. The best bid is the *maximum* of the bid tree.
    Bid,
    /// A resting sell. The best ask is the *minimum* of the ask tree.
    Ask,
}

impl Side {
    /// The other side.
    pub open spec fn other(self) -> Side {
        match self {
            Side::Bid => Side::Ask,
            Side::Ask => Side::Bid,
        }
    }

    /// The side an incoming order must take to cross against this one.
    pub fn opposite(self) -> (side: Self)
        ensures
            side == self.other(),
    {
        match self {
            Side::Bid => Side::Ask,
            Side::Ask => Side::Bid,
        }
    }

    /// Whether this is [`Side::Bid`].
    pub fn is_bid(self) -> (bid: bool)
        ensures
            bid == (self == Side::Bid),
    {
        matches!(self, Side::Bid)
    }
}

/// Taking the opposite twice leads back.
pub proof fn law_opposite_is_an_involution(side: Side)
    ensures
        side.other() != side,
        side.other().other() == side,
{
}

} // verus!
