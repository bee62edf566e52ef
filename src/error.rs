use vstd::prelude::*;

verus! {

/// Raised when a matrix has a zero or non-finite determinant.
#[derive(Debug, Clone, PartialEq, Eq)]
pub struct NotInvertibleError {}

impl NotInvertibleError {
    pub fn message(&self) -> (r: String)
        ensures
            r@ == "Matrix is not invertible"@,
    {
        String::from_str("Matrix is not invertible")
    }
}

/// Raised when a magnitude (and so a normalization) is NaN or infinite.
#[derive(Debug, Clone, PartialEq, Eq)]
pub struct FloatingPointFiniteError {}

impl FloatingPointFiniteError {
    pub fn message(&self) -> (r: String)
        ensures
            r@ == "Floating point number is NaN or Inf"@,
    {
        String::from_str("Floating point number is NaN or Inf")
    }
}

/// A token of a matrix fixture that is not a number, with the reason the
/// number parser gave.
#[derive(Debug, Clone)]
pub struct MatrixParseError {
    pub token: String,
    pub reason: String,
}

impl MatrixParseError {
    pub fn new(token: String, reason: String) -> (r: MatrixParseError)
        ensures
            r.token == token,
            r.reason == reason,
    {
        MatrixParseError { token, reason }
    }

    pub open spec fn message_spec(&self) -> Seq<char> {
        "Unable to parse matrix. Failed at token "@ + self.token@ + " with error "@
            + self.reason@
    }

    pub fn message(&self) -> (r: String)
        ensures
            r@ == self.message_spec(),
    {
        let s = String::from_str("Unable to parse matrix. Failed at token ");
        let s = s.concat(self.token.as_str());
        let s = s.concat(" with error ");
        s.concat(self.reason.as_str())
    }
}

} // verus!
