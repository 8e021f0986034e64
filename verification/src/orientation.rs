use vstd::prelude::*;

use crate::error::GfaError;

verus! {

/// The strand marker attached to a segment reference: `+` (forward) or `-`
/// (reverse).
#[derive(Debug, Clone, Copy, PartialEq, Eq, Structural, PartialOrd)]
pub enum Orientation {
    Forward,
    Backward,
}

impl Orientation {
    /// The one-character text form of this orientation.
    pub open spec fn text(self) -> Seq<char> {
        match self {
            Orientation::Forward => seq!['+'],
            Orientation::Backward => seq!['-'],
        }
    }

    /// The orientation denoted by a single marker character, if any.
    pub open spec fn of_char(c: char) -> Option<Orientation> {
        if c == '+' {
            Some(Orientation::Forward)
        } else if c == '-' {
            Some(Orientation::Backward)
        } else {
            None
        }
    }

    /// What parsing a whole string as an orientation yields: exactly `"+"`
    /// and `"-"` are accepted; everything else is rejected.
    pub open spec fn of_text(s: Seq<char>) -> Result<Orientation, GfaError> {
        if s == seq!['+'] {
            Ok(Orientation::Forward)
        } else if s == seq!['-'] {
            Ok(Orientation::Backward)
        } else {
            Err(GfaError::InvalidOrientation)
        }
    }

    /// Parses `"+"` or `"-"`; any other input is rejected with
    /// `InvalidOrientation`. Absence of a marker is never forgiven: parsing
    /// never falls back to the default orientation.
    pub fn parse(s: &str) -> (r: Result<Orientation, GfaError>)
        ensures
            r == Orientation::of_text(s@),
    {
        let n = s.unicode_len();
        if n == 1 {
            let c = s.get_char(0);
            proof {
                assert(s@[0] == c);
                if c == '+' {
                    assert(s@ =~= seq!['+']);
                } else if c == '-' {
                    assert(s@ =~= seq!['-']);
                } else {
                    assert(s@ != seq!['+']) by {
                        assert(seq!['+'][0] == '+');
                    }
                    assert(s@ != seq!['-']) by {
                        assert(seq!['-'][0] == '-');
                    }
                }
            }
            if c == '+' {
                Ok(Orientation::Forward)
            } else if c == '-' {
                Ok(Orientation::Backward)
            } else {
                Err(GfaError::InvalidOrientation)
            }
        } else {
            proof {
                assert(seq!['+'].len() == 1);
                assert(seq!['-'].len() == 1);
            }
            Err(GfaError::InvalidOrientation)
        }
    }

    /// Renders the orientation as its one-character text, the inverse of
    /// `parse`.
    pub fn render(&self) -> (s: String)
        ensures
            s@ == self.text(),
    {
        proof {
            reveal_strlit("+");
            reveal_strlit("-");
        }
        match self {
            Orientation::Forward => {
                let s = "+".to_owned();
                proof {
                    assert(s@ =~= seq!['+']);
                }
                s
            },
            Orientation::Backward => {
                let s = "-".to_owned();
                proof {
                    assert(s@ =~= seq!['-']);
                }
                s
            },
        }
    }

    /// True exactly for `Backward`.
    pub fn is_reverse(&self) -> (r: bool)
        ensures
            r == (*self == Orientation::Backward),
    {
        match self {
            Orientation::Forward => false,
            Orientation::Backward => true,
        }
    }
}

impl Default for Orientation {
    /// Forward is the default orientation, for programmatic construction
    /// only: the wire format always demands an explicit marker.
    fn default() -> (o: Orientation)
        ensures
            o == Orientation::Forward,
    {
        Orientation::Forward
    }
}

/// Round trip: rendering an orientation and parsing the text back restores
/// the orientation.
pub proof fn lemma_orientation_round_trip(o: Orientation)
    ensures
        Orientation::of_text(o.text()) == Ok::<Orientation, GfaError>(o),
{
    assert(seq!['+'] != seq!['-']) by {
        assert(seq!['+'][0] == '+');
    }
}

/// Parsing succeeds on no text but `"+"` and `"-"`.
pub proof fn lemma_orientation_parse_rejects(s: Seq<char>)
    requires
        s != seq!['+'],
        s != seq!['-'],
    ensures
        Orientation::of_text(s) == Err::<Orientation, GfaError>(GfaError::InvalidOrientation),
{
}

} // verus!
