use vstd::prelude::*;

verus! {

/// One of the two players.
#[derive(Clone, Copy, Debug, PartialEq, Eq, Structural)]
#[must_use]
pub enum Side {
    White,
    Black,
}

impl Side {
    /// The other player.
    pub open spec fn other(self) -> Side {
        match self {
            Side::White => Side::Black,
            Side::Black => Side::White,
        }
    }

    /// Place of this side's occupancy set in a position.
    pub open spec fn spec_index(self) -> usize {
        match self {
            Side::White => 0,
            Side::Black => 1,
        }
    }

    /// Place of this side's occupancy set in a position.
    #[verifier::when_used_as_spec(spec_index)]
    pub fn index(self) -> (i: usize)
        ensures
            i == self.spec_index(),
    {
        match self {
            Side::White => 0,
            Side::Black => 1,
        }
    }

    /// The side's name in lower case.
    pub open spec fn spec_text(self) -> Seq<char> {
        match self {
            Side::White => seq!['w', 'h', 'i', 't', 'e'],
            Side::Black => seq!['b', 'l', 'a', 'c', 'k'],
        }
    }

    /// The side's name in lower case.
    pub fn to_string(&self) -> (s: String)
        ensures
            s@ == self.spec_text(),
    {
        proof {
            reveal_strlit("white");
            reveal_strlit("black");
        }
        match self {
            Side::White => {
                assert("white"@ =~= Side::White.spec_text());
                String::from_str("white")
            },
            Side::Black => {
                assert("black"@ =~= Side::Black.spec_text());
                String::from_str("black")
            },
        }
    }
}

impl Default for Side {
    fn default() -> (s: Self)
        ensures
            s == Side::White,
    {
        Side::White
    }
}

impl core::ops::Not for Side {
    type Output = Self;

    fn not(self) -> (s: Self) {
        match self {
            Side::White => Side::Black,
            Side::Black => Side::White,
        }
    }
}

impl vstd::std_specs::ops::NotSpecImpl for Side {
    open spec fn obeys_not_spec() -> bool {
        true
    }

    open spec fn not_req(self) -> bool {
        true
    }

    open spec fn not_spec(self) -> Self::Output {
        self.other()
    }
}

} // verus!
