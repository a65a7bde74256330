use vstd::prelude::*;

verus! {

/// A single binary digit.
#[derive(Clone, Copy, Debug, PartialEq, Eq, Structural)]
pub enum Bit {
    One,
    Zero,
}

impl Bit {
    /// The character this bit renders as.
    pub open spec fn spec_glyph(self) -> char {
        if self == Bit::One {
            '1'
        } else {
            '0'
        }
    }

    /// Renders the bit as its digit, `"1"` or `"0"`.
    pub fn glyph(&self) -> (s: &'static str)
        ensures
            s@ == seq![self.spec_glyph()],
    {
        match self {
            Bit::One => {
                proof {
                    reveal_strlit("1");
                    assert("1"@ =~= seq!['1']);
                }
                "1"
            },
            Bit::Zero => {
                proof {
                    reveal_strlit("0");
                    assert("0"@ =~= seq!['0']);
                }
                "0"
            },
        }
    }
}

} // verus!
