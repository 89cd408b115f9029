//! The lines of the body of a recipe.

use crate::expression::Expression;
use crate::token::Token;
use vstd::prelude::*;

verus! {

/// A piece of a recipe line.
#[derive(Debug, PartialEq)]
pub enum Fragment {
    /// Text that is passed on as it stands.
    Text { token: Token },
    /// An expression whose value takes its place.
    Interpolation { expression: Expression },
}

/// A line of the body of a recipe.
#[derive(Debug, PartialEq)]
pub struct Line {
    pub fragments: Vec<Fragment>,
}

/// Whether a text ends with a backslash.
pub open spec fn ends_with_backslash(text: Seq<char>) -> bool {
    text.len() > 0 && text.last() == '\\'
}

/// Whether a text begins with a space or a tab.
pub open spec fn starts_with_whitespace(text: Seq<char>) -> bool {
    text.len() > 0 && (text[0] == ' ' || text[0] == '\t')
}

impl Line {
    /// Whether the line is continued on the next: its last fragment is text
    /// that ends with a backslash.
    pub open spec fn continues(&self) -> bool {
        self.fragments@.len() > 0 && (self.fragments@.last() matches Fragment::Text { token }
            && ends_with_backslash(token.lexeme@))
    }

    /// Whether the line begins with text that has whitespace in front.
    pub open spec fn has_leading_whitespace(&self) -> bool {
        self.fragments@.len() > 0 && (self.fragments@[0] matches Fragment::Text { token }
            && starts_with_whitespace(token.lexeme@))
    }

    pub fn is_continuation(&self) -> (b: bool)
        ensures
            b == self.continues(),
    {
        let n = self.fragments.len();
        if n == 0 {
            return false;
        }
        match &self.fragments[n - 1] {
            Fragment::Text { token } => {
                let text = token.lexeme();
                let len = text.unicode_len();
                len > 0 && text.get_char(len - 1) == '\\'
            },
            Fragment::Interpolation { .. } => false,
        }
    }

    pub fn is_indented(&self) -> (b: bool)
        ensures
            b == self.has_leading_whitespace(),
    {
        if self.fragments.len() == 0 {
            return false;
        }
        match &self.fragments[0] {
            Fragment::Text { token } => {
                let text = token.lexeme();
                if text.unicode_len() == 0 {
                    false
                } else {
                    let c = text.get_char(0);
                    c == ' ' || c == '\t'
                }
            },
            Fragment::Interpolation { .. } => false,
        }
    }
}

} // verus!
