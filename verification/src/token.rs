//! Tokens: classified lexical units produced by the lexer and consumed by
//! the partitioner and the section assembler.

use vstd::prelude::*;

verus! {

/// The classification of a lexical unit.
#[derive(Clone, Copy, Debug, PartialEq, Eq, Structural)]
pub enum TokenType {
    /// A section marker: the name after a leading `.`.
    Section,
    /// A label definition: the name before a trailing `:`.
    Label,
    /// An operand: a numeric literal or a symbolic label reference.
    Operand,
}

/// A classified lexical unit: its kind and the exact span of source bytes
/// it was extracted from (the section name without its leading marker, the
/// label name without its trailing delimiter, or the operand literal).
#[derive(Debug)]
pub struct Token {
    pub token_type: TokenType,
    pub text: Vec<u8>,
}

/// The mathematical image of a token: its kind and the byte sequence of
/// its text.
#[verifier::ext_equal]
pub ghost struct TokenView {
    pub token_type: TokenType,
    pub text: Seq<u8>,
}

impl View for Token {
    type V = TokenView;

    open spec fn view(&self) -> TokenView {
        TokenView { token_type: self.token_type, text: self.text@ }
    }
}

/// The views of a sequence of tokens, in order.
pub open spec fn views_of(tokens: Seq<Token>) -> Seq<TokenView> {
    Seq::new(tokens.len(), |i: int| tokens[i]@)
}

impl Token {
    /// An owned copy of this token, equal to it in view.
    pub fn duplicate(&self) -> (t: Token)
        ensures
            t@ == self@,
    {
        Token { token_type: self.token_type, text: vstd::slice::slice_to_vec(self.text.as_slice()) }
    }
}

} // verus!
