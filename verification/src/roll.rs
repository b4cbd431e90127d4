use vstd::prelude::*;

verus! {

/// A die that shows no face of a six-sided die.
#[derive(Debug, Clone, Copy, PartialEq, Eq, Structural)]
pub struct InvalidRoll(pub u8, pub u8);

/// The two dice of a roll.
#[derive(Debug, Clone, Copy, PartialEq, Eq, Structural)]
pub struct Roll {
    first: u8,
    second: u8,
}

impl View for Roll {
    type V = (u8, u8);

    closed spec fn view(&self) -> (u8, u8) {
        (self.first, self.second)
    }
}

/// The total the two dice show.
pub open spec fn roll_total(r: (u8, u8)) -> int {
    r.0 + r.1
}

impl Roll {
    #[verifier::type_invariant]
    closed spec fn inv(self) -> bool {
        1 <= self.first <= 6 && 1 <= self.second <= 6
    }

    pub fn new(first: u8, second: u8) -> (r: Result<Roll, InvalidRoll>)
        ensures
            r is Ok <==> 1 <= first <= 6 && 1 <= second <= 6,
            r matches Ok(roll) ==> roll@ == (first, second),
            r matches Err(e) ==> e == InvalidRoll(first, second),
    {
        if 1 <= first && first <= 6 && 1 <= second && second <= 6 {
            Ok(Roll { first, second })
        } else {
            Err(InvalidRoll(first, second))
        }
    }

    pub fn dice(self) -> (d: (u8, u8))
        ensures
            d == self@,
            1 <= d.0 <= 6 && 1 <= d.1 <= 6,
    {
        proof {
            use_type_invariant(&self);
        }
        (self.first, self.second)
    }

    /// The sum of the two dice.
    pub fn value(self) -> (v: u8)
        ensures
            v == roll_total(self@),
            2 <= v <= 12,
    {
        proof {
            use_type_invariant(&self);
        }
        self.first + self.second
    }
}

} // verus!
