//! Diagnostics: the errors found while reading annotations, and the batch that
//! collects all of them over one pass.
use vstd::prelude::*;

verus! {

/// The arguments that a `mapstr` annotation can carry.
#[derive(Clone, Copy, Debug, PartialEq, Eq, Structural)]
pub enum Param {
    /// The leading string literal: the mapped value.
    Value,
    Name,
    DefaultTo,
    DefaultFrom,
    Default,
    NoTo,
    NoFrom,
    Try,
    Display,
}

/// The text by which a parameter is written (the mapped value has no keyword;
/// it is called `value` in messages).
pub open spec fn param_text(p: Param) -> Seq<char> {
    match p {
        Param::Value => "value"@,
        Param::Name => "name"@,
        Param::DefaultTo => "default_to"@,
        Param::DefaultFrom => "default_from"@,
        Param::Default => "default"@,
        Param::NoTo => "no_to"@,
        Param::NoFrom => "no_from"@,
        Param::Try => "try"@,
        Param::Display => "display"@,
    }
}

impl Param {
    pub fn keyword(&self) -> (r: &'static str)
        ensures
            r@ == param_text(*self),
    {
        match self {
            Param::Value => "value",
            Param::Name => "name",
            Param::DefaultTo => "default_to",
            Param::DefaultFrom => "default_from",
            Param::Default => "default",
            Param::NoTo => "no_to",
            Param::NoFrom => "no_from",
            Param::Try => "try",
            Param::Display => "display",
        }
    }
}

/// A token that the annotation grammar required at some place.
#[derive(Clone, Copy, Debug, PartialEq, Eq, Structural)]
pub enum Expected {
    Comma,
    Eq,
    StrLit,
    Ident,
}

/// What went wrong.
#[derive(Debug)]
pub enum ErrorKind {
    /// A parameter occurs twice in one annotation.
    ArgSetTwice(Param),
    /// A required parameter is missing: the mapped value, or the set name on
    /// the first occurrence of a set.
    ArgNotSet(Param),
    /// A token where an argument should start is no known argument.
    UnknownArgument,
    /// The annotation is malformed: another token was required here.
    Expected(Expected),
    /// One variant targets the same named set twice.
    DuplicateMapping(String),
    /// A second mapping set claims the `Display` implementation.
    TraitAlreadyImplemented,
}

pub ghost enum ErrorKindView {
    ArgSetTwice(Param),
    ArgNotSet(Param),
    UnknownArgument,
    Expected(Expected),
    DuplicateMapping(Seq<char>),
    TraitAlreadyImplemented,
}

impl View for ErrorKind {
    type V = ErrorKindView;

    open spec fn view(&self) -> ErrorKindView {
        match self {
            ErrorKind::ArgSetTwice(p) => ErrorKindView::ArgSetTwice(*p),
            ErrorKind::ArgNotSet(p) => ErrorKindView::ArgNotSet(*p),
            ErrorKind::UnknownArgument => ErrorKindView::UnknownArgument,
            ErrorKind::Expected(e) => ErrorKindView::Expected(*e),
            ErrorKind::DuplicateMapping(n) => ErrorKindView::DuplicateMapping(n@),
            ErrorKind::TraitAlreadyImplemented => ErrorKindView::TraitAlreadyImplemented,
        }
    }
}

pub open spec fn expected_text(e: Expected) -> Seq<char> {
    match e {
        Expected::Comma => "expected `,`"@,
        Expected::Eq => "expected `=`"@,
        Expected::StrLit => "expected string literal"@,
        Expected::Ident => "expected identifier"@,
    }
}

/// The message shown for an error.
pub open spec fn message_text(k: ErrorKindView) -> Seq<char> {
    match k {
        ErrorKindView::ArgSetTwice(p) => "argument `"@ + param_text(p) + "` is set twice"@,
        ErrorKindView::ArgNotSet(p) => "argument `"@ + param_text(p) + "` is not set"@,
        ErrorKindView::UnknownArgument => "unknown parameter"@,
        ErrorKindView::Expected(e) => expected_text(e),
        ErrorKindView::DuplicateMapping(n) => "maping with name=`"@ + n + "` set twice"@,
        ErrorKindView::TraitAlreadyImplemented => "trait `Display` is already implemented"@,
    }
}

impl ErrorKind {
    pub fn message(&self) -> (r: String)
        ensures
            r@ == message_text(self@),
    {
        match self {
            ErrorKind::ArgSetTwice(p) => {
                let s = String::from_str("argument `").concat(p.keyword());
                s.concat("` is set twice")
            },
            ErrorKind::ArgNotSet(p) => {
                let s = String::from_str("argument `").concat(p.keyword());
                s.concat("` is not set")
            },
            ErrorKind::UnknownArgument => String::from_str("unknown parameter"),
            ErrorKind::Expected(e) => match e {
                Expected::Comma => String::from_str("expected `,`"),
                Expected::Eq => String::from_str("expected `=`"),
                Expected::StrLit => String::from_str("expected string literal"),
                Expected::Ident => String::from_str("expected identifier"),
            },
            ErrorKind::DuplicateMapping(n) => {
                let s = String::from_str("maping with name=`").concat(n.as_str());
                s.concat("` set twice")
            },
            ErrorKind::TraitAlreadyImplemented => String::from_str(
                "trait `Display` is already implemented",
            ),
        }
    }
}

/// One error and the source location it points at. Locations are handles
/// that the caller assigned to its tokens and annotations.
#[derive(Debug)]
pub struct Diagnostic {
    pub kind: ErrorKind,
    pub span: usize,
}

pub ghost struct DiagnosticView {
    pub kind: ErrorKindView,
    pub span: usize,
}

impl View for Diagnostic {
    type V = DiagnosticView;

    open spec fn view(&self) -> DiagnosticView {
        DiagnosticView { kind: self.kind@, span: self.span }
    }
}

impl Diagnostic {
    pub fn arg_set_twice(p: Param, span: usize) -> (r: Diagnostic)
        ensures
            r@ == (DiagnosticView { kind: ErrorKindView::ArgSetTwice(p), span }),
    {
        Diagnostic { kind: ErrorKind::ArgSetTwice(p), span }
    }

    pub fn arg_not_set(p: Param, span: usize) -> (r: Diagnostic)
        ensures
            r@ == (DiagnosticView { kind: ErrorKindView::ArgNotSet(p), span }),
    {
        Diagnostic { kind: ErrorKind::ArgNotSet(p), span }
    }

    pub fn trait_already_implemented(span: usize) -> (r: Diagnostic)
        ensures
            r@ == (DiagnosticView { kind: ErrorKindView::TraitAlreadyImplemented, span }),
    {
        Diagnostic { kind: ErrorKind::TraitAlreadyImplemented, span }
    }

    pub fn duplicate_mapping(name: String, span: usize) -> (r: Diagnostic)
        ensures
            r@ == (DiagnosticView { kind: ErrorKindView::DuplicateMapping(name@), span }),
    {
        Diagnostic { kind: ErrorKind::DuplicateMapping(name), span }
    }

    pub fn message(&self) -> (r: String)
        ensures
            r@ == message_text(self@.kind),
    {
        self.kind.message()
    }
}

pub open spec fn diagnostics_view(d: Seq<Diagnostic>) -> Seq<DiagnosticView> {
    d.map_values(|e: Diagnostic| e@)
}

/// Collects every error of one pass, in the order they were found.
pub struct MultiError {
    pub errors: Vec<Diagnostic>,
}

impl MultiError {
    pub open spec fn view_errors(&self) -> Seq<DiagnosticView> {
        diagnostics_view(self.errors@)
    }

    pub fn new() -> (r: MultiError)
        ensures
            r.view_errors() == Seq::<DiagnosticView>::empty(),
    {
        MultiError { errors: Vec::new() }
    }

    /// Records one more error; never fails.
    pub fn update(&mut self, e: Diagnostic)
        ensures
            final(self).view_errors() == old(self).view_errors().push(e@),
    {
        let ghost before = self.view_errors();
        self.errors.push(e);
        proof {
            assert(self.view_errors() =~= before.push(e@));
        }
    }

    /// Success when nothing was recorded; otherwise every recorded error, in order.
    pub fn finish(self) -> (r: Result<(), Vec<Diagnostic>>)
        ensures
            self.errors@.len() == 0 <==> r is Ok,
            r matches Err(v) ==> v@ == self.errors@,
    {
        if self.errors.len() == 0 {
            Ok(())
        } else {
            Err(self.errors)
        }
    }
}

} // verus!
