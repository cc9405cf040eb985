//! The tokens of an attribute's argument list, as plain values.

use vstd::prelude::*;
use crate::source::Span;
use crate::text::same_str;

verus! {

/// What kind of token stands at a place.
#[derive(Clone, Debug)]
pub enum TokenKind {
    /// A word that can stand as a segment of a path, with its text.
    Ident(String),
    /// One character of punctuation. The flag says whether another
    /// punctuation character follows it directly, as the first `:` of `::`
    /// is followed by the second.
    Punct(char, bool),
    /// A string literal, with the text that it denotes.
    Str(String),
    /// An opening parenthesis.
    OpenParen,
    /// A closing parenthesis.
    CloseParen,
    /// Anything else: a number, a reserved word, a bracket or a brace.
    Other,
}

/// What a `TokenKind` holds.
pub enum KindView {
    Ident(Seq<char>),
    Punct(char, bool),
    Str(Seq<char>),
    OpenParen,
    CloseParen,
    Other,
}

impl View for TokenKind {
    type V = KindView;

    open spec fn view(&self) -> KindView {
        match self {
            TokenKind::Ident(s) => KindView::Ident(s@),
            TokenKind::Punct(c, j) => KindView::Punct(*c, *j),
            TokenKind::Str(s) => KindView::Str(s@),
            TokenKind::OpenParen => KindView::OpenParen,
            TokenKind::CloseParen => KindView::CloseParen,
            TokenKind::Other => KindView::Other,
        }
    }
}

/// A token and the stretch of the text that it covers.
#[derive(Clone, Debug)]
pub struct Token {
    pub kind: TokenKind,
    pub span: Span,
}

/// What a `Token` holds.
pub struct TokenView {
    pub kind: KindView,
    pub span: Span,
}

impl View for Token {
    type V = TokenView;

    open spec fn view(&self) -> TokenView {
        TokenView { kind: self.kind@, span: self.span }
    }
}

/// Whether `syn` reads the text as an identifier: as one word that is no
/// reserved word and not `_`.
pub uninterp spec fn syn_reads_ident(text: Seq<char>) -> bool;

/// Calls `syn::parse_str` for a `syn::Ident` and says whether an identifier
/// came out. The answer depends on the text alone.
#[verifier::external_body]
fn reads_as_ident(text: &str) -> (r: bool)
    ensures
        r == syn_reads_ident(text@),
{
    syn::parse_str::<syn::Ident>(text).is_ok()
}

/// Whether a word can stand as a segment of a path: it is an identifier, or
/// one of the reserved words that paths are made of.
pub open spec fn is_path_word(text: Seq<char>) -> bool {
    text == "super"@ || text == "self"@ || text == "crate"@ || text == "try"@ || text == "Self"@
        || syn_reads_ident(text)
}

/// The kind of the token that the word `text` is.
pub open spec fn word_kind(text: Seq<char>) -> KindView {
    if is_path_word(text) {
        KindView::Ident(text)
    } else {
        KindView::Other
    }
}

impl Token {
    /// The token of the given kind at the given place.
    pub fn new(kind: TokenKind, span: Span) -> (t: Self)
        ensures
            t.kind == kind,
            t.span == span,
    {
        Token { kind, span }
    }

    /// The token of the word `text` at the given place: a word that can
    /// stand as a segment of a path keeps its text, any other word is a
    /// token of no further interest.
    pub fn word(text: String, span: Span) -> (t: Self)
        ensures
            t@ == (TokenView { kind: word_kind(text@), span }),
    {
        let name = text.as_str();
        let kind = if same_str(name, "super") || same_str(name, "self") || same_str(name, "crate")
            || same_str(name, "try") || same_str(name, "Self") || reads_as_ident(name) {
            TokenKind::Ident(text)
        } else {
            TokenKind::Other
        };
        Token { kind, span }
    }
}

/// The tokens of a list, each by what it holds.
pub open spec fn tokens_view(tokens: Seq<Token>) -> Seq<TokenView> {
    tokens.map_values(|t: Token| t@)
}

/// Whether an attribute applies to what encloses it or to what follows it.
#[derive(Clone, Copy, Debug, PartialEq, Eq, Structural)]
pub enum AttrStyle {
    /// `#[...]`: the attribute applies to the item that follows.
    Outer,
    /// `#![...]`: the attribute applies to the enclosing scope.
    Inner,
}

/// One attribute of a source file.
#[derive(Clone, Debug)]
pub struct Attribute {
    pub style: AttrStyle,
    /// The attribute's path, where that is a single word.
    pub name: Option<String>,
    /// The tokens between the delimiters that follow the path, where the
    /// attribute has such a list.
    pub tokens: Option<Vec<Token>>,
}

/// What an `Attribute` holds.
pub struct AttributeView {
    pub style: AttrStyle,
    pub name: Option<Seq<char>>,
    pub tokens: Option<Seq<TokenView>>,
}

impl View for Attribute {
    type V = AttributeView;

    open spec fn view(&self) -> AttributeView {
        AttributeView {
            style: self.style,
            name: match self.name {
                Some(n) => Some(n@),
                None => None,
            },
            tokens: match self.tokens {
                Some(t) => Some(tokens_view(t@)),
                None => None,
            },
        }
    }
}

} // verus!
