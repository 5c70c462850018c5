//! The three basic mineral colours.
use vstd::prelude::*;

verus! {

/// A basic mineral colour.
#[derive(Clone, Copy, Debug, PartialEq, Eq, PartialOrd, Ord, Hash, Structural)]
pub enum Basic {
    Cyan,
    Magenta,
    Yellow,
}

/// The position of a colour in every per-colour array: Cyan, Magenta, Yellow.
pub open spec fn spec_basic_index(b: Basic) -> int {
    match b {
        Basic::Cyan => 0,
        Basic::Magenta => 1,
        Basic::Yellow => 2,
    }
}

impl Basic {
    /// Every colour, in per-colour array order.
    pub const ALL: [Basic; 3] = [Basic::Cyan, Basic::Magenta, Basic::Yellow];
}

/// The slot a colour occupies in a per-colour array.
pub fn basic_index(b: Basic) -> (r: usize)
    ensures
        r == spec_basic_index(b),
{
    match b {
        Basic::Cyan => 0,
        Basic::Magenta => 1,
        Basic::Yellow => 2,
    }
}

/// `basic_index` and `Basic::ALL` are inverse: the colour at slot `i` of
/// `ALL` has index `i`, and each colour sits at its own index.
pub proof fn law_basic_index_inverts_all(b: Basic)
    ensures
        0 <= spec_basic_index(b) < 3,
        Basic::ALL@[spec_basic_index(b)] == b,
        forall|i: int| 0 <= i < 3 ==> spec_basic_index(#[trigger] Basic::ALL@[i]) == i,
{
}

} // verus!
