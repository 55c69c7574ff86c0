//! The structured view of an enum declaration that the library reads: each
//! variant with its annotations, each annotation with its argument tokens.
use vstd::prelude::*;

verus! {

/// One token of an annotation's argument list. Strings are already unescaped;
/// identifiers are given without a raw prefix.
#[derive(Debug)]
pub enum TokenKind {
    Str(String),
    Ident(String),
    Punct(char),
    /// Any other token (another literal, a delimited group).
    Other,
}

pub ghost enum TokenKindView {
    Str(Seq<char>),
    Ident(Seq<char>),
    Punct(char),
    Other,
}

impl View for TokenKind {
    type V = TokenKindView;

    open spec fn view(&self) -> TokenKindView {
        match self {
            TokenKind::Str(s) => TokenKindView::Str(s@),
            TokenKind::Ident(s) => TokenKindView::Ident(s@),
            TokenKind::Punct(c) => TokenKindView::Punct(*c),
            TokenKind::Other => TokenKindView::Other,
        }
    }
}

/// A token and its source location (a handle chosen by the caller).
#[derive(Debug)]
pub struct Token {
    pub kind: TokenKind,
    pub span: usize,
}

pub ghost struct TokenView {
    pub kind: TokenKindView,
    pub span: usize,
}

impl View for Token {
    type V = TokenView;

    open spec fn view(&self) -> TokenView {
        TokenView { kind: self.kind@, span: self.span }
    }
}

pub open spec fn tokens_view(t: Seq<Token>) -> Seq<TokenView> {
    t.map_values(|x: Token| x@)
}

/// One annotation on a variant: its path (`mapstr`, `doc`, ...), the tokens
/// inside its parentheses, and its location.
#[derive(Debug)]
pub struct Attribute {
    pub path: Vec<String>,
    pub args: Vec<Token>,
    pub span: usize,
}

/// One variant of the enum.
#[derive(Debug)]
pub struct Variant {
    pub ident: String,
    pub has_fields: bool,
    pub attrs: Vec<Attribute>,
}

/// The annotations that carry mapping directives are the ones whose path is
/// the single segment `mapstr`.
pub open spec fn is_directive(a: Attribute) -> bool {
    a.path@.len() == 1 && a.path@[0]@ == "mapstr"@
}

/// The directive annotations of a variant, in the order they are written.
pub open spec fn directives_of(v: Variant) -> Seq<Attribute> {
    v.attrs@.filter(|a: Attribute| is_directive(a))
}

/// Whether two strings hold the same text.
pub fn text_eq(s: &String, lit: &str) -> (r: bool)
    ensures
        r == (s@ == lit@),
{
    let t = String::from_str(lit);
    s.eq(&t)
}

impl Attribute {
    pub fn is_directive(&self) -> (r: bool)
        ensures
            r == is_directive(*self),
    {
        self.path.len() == 1 && text_eq(&self.path[0], "mapstr")
    }
}

} // verus!
