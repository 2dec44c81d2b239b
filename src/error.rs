//! The one error of the translator.
use vstd::prelude::*;

verus! {

/// What was expected where a translation stopped.
#[derive(Clone, Copy, PartialEq, Eq, Structural, Debug)]
pub enum Expected {
    /// A key, or the declared name, must be an identifier.
    Identifier,
    /// A key must be followed by `:`.
    Colon,
    /// A value must be one complete expression.
    Expression,
    /// An item must be followed by `,` or by the closing delimiter.
    Separator,
    /// A group was opened and never closed.
    UnterminatedGroup,
    /// The literal ended, yet tokens remain.
    EndOfInput,
    /// In a declaration a leaf must name a type; `null` does not.
    TypeName,
}

/// A syntax error: the position of the offending token in the input and
/// what was expected there.
#[derive(Clone, Copy, PartialEq, Eq, Structural, Debug)]
pub struct SyntaxError {
    pub pos: usize,
    pub expected: Expected,
}

pub open spec fn syntax_error(pos: int, expected: Expected) -> SyntaxError {
    SyntaxError { pos: pos as usize, expected }
}

impl SyntaxError {
    /// A short description of what was expected.
    pub fn message(&self) -> (r: &'static str)
        ensures
            self.expected == Expected::Identifier ==> r@ == "expected identifier"@,
            self.expected == Expected::Colon ==> r@ == "expected ':'"@,
            self.expected == Expected::Expression ==> r@ == "expected expression"@,
            self.expected == Expected::Separator ==> r@ == "expected ',' or closing delimiter"@,
            self.expected == Expected::UnterminatedGroup ==> r@ == "unterminated group"@,
            self.expected == Expected::EndOfInput ==> r@ == "unexpected token"@,
            self.expected == Expected::TypeName ==> r@ == "expected type name, found null"@,
    {
        match self.expected {
            Expected::Identifier => "expected identifier",
            Expected::Colon => "expected ':'",
            Expected::Expression => "expected expression",
            Expected::Separator => "expected ',' or closing delimiter",
            Expected::UnterminatedGroup => "unterminated group",
            Expected::EndOfInput => "unexpected token",
            Expected::TypeName => "expected type name, found null",
        }
    }
}

} // verus!
