use vstd::prelude::*;

verus! {

/// Place of a piece within a cell: the bottom piece, or the piece on top of it.
#[derive(Clone, Copy, Debug, PartialEq, Eq, Structural)]
#[must_use]
pub enum Layer {
    Lower,
    Upper,
}

impl Layer {
    /// The other layer.
    pub open spec fn other(self) -> Layer {
        match self {
            Layer::Lower => Layer::Upper,
            Layer::Upper => Layer::Lower,
        }
    }

    /// Place of this layer's set among the two sets of a piece kind.
    pub open spec fn spec_index(self) -> usize {
        match self {
            Layer::Lower => 0,
            Layer::Upper => 1,
        }
    }

    /// Place of this layer's set among the two sets of a piece kind.
    #[verifier::when_used_as_spec(spec_index)]
    pub fn index(self) -> (i: usize)
        ensures
            i == self.spec_index(),
    {
        match self {
            Layer::Lower => 0,
            Layer::Upper => 1,
        }
    }

    /// The layer's name in lower case.
    pub open spec fn spec_text(self) -> Seq<char> {
        match self {
            Layer::Lower => seq!['l', 'o', 'w', 'e', 'r'],
            Layer::Upper => seq!['u', 'p', 'p', 'e', 'r'],
        }
    }

    /// The layer's name in lower case.
    pub fn to_string(&self) -> (s: String)
        ensures
            s@ == self.spec_text(),
    {
        proof {
            reveal_strlit("lower");
            reveal_strlit("upper");
        }
        match self {
            Layer::Lower => {
                assert("lower"@ =~= Layer::Lower.spec_text());
                String::from_str("lower")
            },
            Layer::Upper => {
                assert("upper"@ =~= Layer::Upper.spec_text());
                String::from_str("upper")
            },
        }
    }
}

impl core::ops::Not for Layer {
    type Output = Self;

    fn not(self) -> (l: Self) {
        match self {
            Layer::Lower => Layer::Upper,
            Layer::Upper => Layer::Lower,
        }
    }
}

impl vstd::std_specs::ops::NotSpecImpl for Layer {
    open spec fn obeys_not_spec() -> bool {
        true
    }

    open spec fn not_req(self) -> bool {
        true
    }

    open spec fn not_spec(self) -> Self::Output {
        self.other()
    }
}

} // verus!
