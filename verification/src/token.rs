//! Tokens and names: pieces of the source with their places.

use crate::compilation_error::CompilationError;
use crate::compilation_error_kind::CompilationErrorKind;
use vstd::prelude::*;

verus! {

/// The kinds of token that a manifest is made of.
#[derive(Debug, PartialEq, Eq, Clone, Copy, Structural)]
pub enum TokenKind {
    At,
    Backtick,
    Colon,
    ColonEquals,
    Comma,
    Comment,
    Dedent,
    Eof,
    Eol,
    Equals,
    Identifier,
    Indent,
    InterpolationEnd,
    InterpolationStart,
    ParenL,
    ParenR,
    Plus,
    StringCooked,
    StringRaw,
    Text,
    Whitespace,
    Unspecified,
}

impl TokenKind {
    /// How a kind of token is called in messages.
    pub open spec fn label(self) -> Seq<char> {
        match self {
            TokenKind::At => "'@'"@,
            TokenKind::Backtick => "backtick"@,
            TokenKind::Colon => "':'"@,
            TokenKind::ColonEquals => "':='"@,
            TokenKind::Comma => "','"@,
            TokenKind::Comment => "comment"@,
            TokenKind::Dedent => "dedent"@,
            TokenKind::Eof => "end of file"@,
            TokenKind::Eol => "end of line"@,
            TokenKind::Equals => "'='"@,
            TokenKind::Identifier => "identifier"@,
            TokenKind::Indent => "indent"@,
            TokenKind::InterpolationEnd => "'}}'"@,
            TokenKind::InterpolationStart => "'{{'"@,
            TokenKind::ParenL => "'('"@,
            TokenKind::ParenR => "')'"@,
            TokenKind::Plus => "'+'"@,
            TokenKind::StringCooked => "cooked string"@,
            TokenKind::StringRaw => "raw string"@,
            TokenKind::Text => "command text"@,
            TokenKind::Whitespace => "whitespace"@,
            TokenKind::Unspecified => "unspecified"@,
        }
    }

    pub fn name(&self) -> (s: &'static str)
        ensures
            s@ == self.label(),
    {
        match self {
            TokenKind::At => "'@'",
            TokenKind::Backtick => "backtick",
            TokenKind::Colon => "':'",
            TokenKind::ColonEquals => "':='",
            TokenKind::Comma => "','",
            TokenKind::Comment => "comment",
            TokenKind::Dedent => "dedent",
            TokenKind::Eof => "end of file",
            TokenKind::Eol => "end of line",
            TokenKind::Equals => "'='",
            TokenKind::Identifier => "identifier",
            TokenKind::Indent => "indent",
            TokenKind::InterpolationEnd => "'}}'",
            TokenKind::InterpolationStart => "'{{'",
            TokenKind::ParenL => "'('",
            TokenKind::ParenR => "')'",
            TokenKind::Plus => "'+'",
            TokenKind::StringCooked => "cooked string",
            TokenKind::StringRaw => "raw string",
            TokenKind::Text => "command text",
            TokenKind::Whitespace => "whitespace",
            TokenKind::Unspecified => "unspecified",
        }
    }

    pub fn to_string(&self) -> (s: String)
        ensures
            s@ == self.label(),
    {
        String::from_str(self.name())
    }
}

/// A piece of the source text: where it stands and what it reads.
#[derive(Debug, PartialEq)]
pub struct Token {
    /// The byte offset of the token in the source.
    pub offset: usize,
    /// Its length in bytes.
    pub length: usize,
    /// The line it stands on, counted from zero.
    pub line: usize,
    /// The column it starts at, counted from zero.
    pub column: usize,
    /// The text of the token.
    pub lexeme: String,
    pub kind: TokenKind,
}

impl Token {
    pub fn lexeme(&self) -> (s: &str)
        ensures
            s@ == self.lexeme@,
    {
        self.lexeme.as_str()
    }

    /// A copy of the token.
    pub fn duplicate(&self) -> (t: Token)
        ensures
            t == *self,
    {
        Token {
            offset: self.offset,
            length: self.length,
            line: self.line,
            column: self.column,
            lexeme: self.lexeme.clone(),
            kind: self.kind,
        }
    }

    /// The error of the given kind at this token.
    pub fn error(&self, kind: CompilationErrorKind) -> (e: CompilationError)
        ensures
            e == (CompilationError { token: *self, kind }),
    {
        CompilationError { token: self.duplicate(), kind }
    }
}

/// An identifier in the source: the name of a recipe, a variable, a
/// parameter, an alias, a setting or a module.
#[derive(Debug, PartialEq)]
pub struct Name {
    pub offset: usize,
    pub length: usize,
    pub line: usize,
    pub column: usize,
    pub lexeme: String,
}

impl Name {
    pub fn lexeme(&self) -> (s: &str)
        ensures
            s@ == self.lexeme@,
    {
        self.lexeme.as_str()
    }

    /// The name as a token.
    pub open spec fn token_spec(&self) -> Token {
        Token {
            offset: self.offset,
            length: self.length,
            line: self.line,
            column: self.column,
            lexeme: self.lexeme,
            kind: TokenKind::Identifier,
        }
    }

    pub fn token(&self) -> (t: Token)
        ensures
            t == self.token_spec(),
    {
        Token {
            offset: self.offset,
            length: self.length,
            line: self.line,
            column: self.column,
            lexeme: self.lexeme.clone(),
            kind: TokenKind::Identifier,
        }
    }

    /// A copy of the name.
    pub fn duplicate(&self) -> (n: Name)
        ensures
            n == *self,
    {
        Name {
            offset: self.offset,
            length: self.length,
            line: self.line,
            column: self.column,
            lexeme: self.lexeme.clone(),
        }
    }

    /// The error of the given kind at this name.
    pub fn error(&self, kind: CompilationErrorKind) -> (e: CompilationError)
        ensures
            e == (CompilationError { token: self.token_spec(), kind }),
    {
        CompilationError { token: self.token(), kind }
    }
}

} // verus!
