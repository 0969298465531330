//! Small helpers shared by the parser: the token stream and a two-sided option.
use vstd::prelude::*;

pub mod lex_wrap;

verus! {

/// Holds neither, one or both of two values.
#[derive(Debug)]
pub enum EitherAnd<A, B> {
    Neither,
    A(A),
    B(B),
    Both(A, B),
}

impl<A, B> EitherAnd<A, B> {
    /// The value with its `A` side set to `a` (a `B` side is kept).
    pub open spec fn spec_with_a(self, a: A) -> Self {
        match self {
            EitherAnd::Neither => EitherAnd::A(a),
            EitherAnd::A(_) => EitherAnd::A(a),
            EitherAnd::B(b) => EitherAnd::Both(a, b),
            EitherAnd::Both(_, b) => EitherAnd::Both(a, b),
        }
    }

    /// The value with its `B` side set to `b` (an `A` side is kept).
    pub open spec fn spec_with_b(self, b: B) -> Self {
        match self {
            EitherAnd::Neither => EitherAnd::B(b),
            EitherAnd::A(a) => EitherAnd::Both(a, b),
            EitherAnd::B(_) => EitherAnd::B(b),
            EitherAnd::Both(a, _) => EitherAnd::Both(a, b),
        }
    }

    #[verifier::when_used_as_spec(spec_with_a)]
    pub fn with_a(self, a: A) -> (r: Self)
        ensures
            r == self.spec_with_a(a),
    {
        match self {
            EitherAnd::Neither => EitherAnd::A(a),
            EitherAnd::A(_) => EitherAnd::A(a),
            EitherAnd::B(b) => EitherAnd::Both(a, b),
            EitherAnd::Both(_, b) => EitherAnd::Both(a, b),
        }
    }

    #[verifier::when_used_as_spec(spec_with_b)]
    pub fn with_b(self, b: B) -> (r: Self)
        ensures
            r == self.spec_with_b(b),
    {
        match self {
            EitherAnd::Neither => EitherAnd::B(b),
            EitherAnd::A(a) => EitherAnd::Both(a, b),
            EitherAnd::B(_) => EitherAnd::B(b),
            EitherAnd::Both(a, _) => EitherAnd::Both(a, b),
        }
    }
}

} // verus!
