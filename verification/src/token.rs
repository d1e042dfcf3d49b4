use vstd::prelude::*;

verus! {

/// An identifier that a registration hands back with each of its events.
#[derive(Clone, Copy, Debug, PartialEq, Eq, Structural, PartialOrd, Ord, Hash)]
pub struct Token(pub usize);

impl View for Token {
    type V = usize;

    open spec fn view(&self) -> usize {
        self.0
    }
}

impl From<usize> for Token {
    fn from(val: usize) -> (r: Token)
        ensures
            r.0 == val,
    {
        Token(val)
    }
}

impl vstd::std_specs::convert::FromSpecImpl<usize> for Token {
    open spec fn obeys_from_spec() -> bool {
        true
    }

    open spec fn from_spec(v: usize) -> Token {
        Token(v)
    }
}

impl From<Token> for usize {
    fn from(val: Token) -> (r: usize)
        ensures
            r == val.0,
    {
        val.0
    }
}

impl vstd::std_specs::convert::FromSpecImpl<Token> for usize {
    open spec fn obeys_from_spec() -> bool {
        true
    }

    open spec fn from_spec(v: Token) -> usize {
        v.0
    }
}

} // verus!
