use vstd::prelude::*;

pub mod hex;
pub mod ids;
pub mod topology;

use crate::text::{decimal, with_number};


pub use hex::{Hex, HexCorner, InvalidHexCorner};
pub use ids::{ConnectedEdges, EdgeId, TileId, VertexId};
pub use topology::{Topology, TopologyView};


verus! {

/// Step in `q` taken by direction `d` (directions run counterclockwise from east).
pub open spec fn dir_dq(d: int) -> int {
    if d == 0 {
        1
    } else if d == 1 {
        1
    } else if d == 2 {
        0
    } else if d == 3 {
        -1
    } else if d == 4 {
        -1
    } else {
        0
    }
}

/// Step in `r` taken by direction `d`.
pub open spec fn dir_dr(d: int) -> int {
    if d == 0 {
        0
    } else if d == 1 {
        -1
    } else if d == 2 {
        -1
    } else if d == 3 {
        0
    } else if d == 4 {
        1
    } else {
        1
    }
}

/// A number that is not one of the six directions.
#[derive(Debug, Clone, Copy, PartialEq, Eq, Structural)]
pub struct InvalidDirection(pub usize);

impl InvalidDirection {
    /// The text that explains the error.
    pub open spec fn text(self) -> Seq<char> {
        decimal(self.0 as nat) + " n'est pas une direction valide (0-5)"@
    }

    /// Explains the error.
    pub fn message(&self) -> (r: String)
        ensures
            r@ == self.text(),
    {
        let r = with_number("", self.0, " n'est pas une direction valide (0-5)");
        proof {
            reveal_strlit("");
            assert(""@ + decimal(self.0 as nat) =~= decimal(self.0 as nat));
        }
        r
    }
}

/// One of the six directions from a hexagon to its neighbours.
#[derive(Debug, Clone, Copy, PartialEq, Eq, Structural)]
pub struct HexDirection(usize);

impl View for HexDirection {
    type V = int;

    closed spec fn view(&self) -> int {
        self.0 as int
    }
}

impl HexDirection {
    #[verifier::type_invariant]
    closed spec fn inv(self) -> bool {
        self.0 < 6
    }

    pub fn new(dir: usize) -> (r: Result<HexDirection, InvalidDirection>)
        ensures
            r is Ok <==> dir < 6,
            r matches Ok(d) ==> d@ == dir,
            r matches Err(e) ==> e.0 == dir,
    {
        if dir <= 5 {
            Ok(HexDirection(dir))
        } else {
            Err(InvalidDirection(dir))
        }
    }

    pub fn value(self) -> (v: usize)
        ensures
            v == self@,
            v < 6,
    {
        proof {
            use_type_invariant(&self);
        }
        self.0
    }

    pub(crate) fn nth(dir: usize) -> (d: HexDirection)
        requires
            dir < 6,
        ensures
            d@ == dir,
    {
        HexDirection(dir)
    }
}

} // verus!
