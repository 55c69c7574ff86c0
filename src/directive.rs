//! Reading one `mapstr` annotation: from its argument tokens to a directive.
//!
//! The grammar: a string literal (the mapped value), then optionally a comma
//! and a comma-separated list of arguments with an optional trailing comma.
//! An argument is `name = "..."`, `default_to = "..."`, `default_from = Ident`,
//! or one of the bare keywords `default`, `no_to`, `no_from`, `try`, `display`.
//! No parameter may occur twice.
use vstd::prelude::*;

use crate::diagnostic::{Diagnostic, DiagnosticView, ErrorKindView, Expected, Param};
use crate::input::{text_eq, tokens_view, Token, TokenKind, TokenKindView, TokenView};

verus! {

pub open spec fn diag(kind: ErrorKindView, span: usize) -> DiagnosticView {
    DiagnosticView { kind, span }
}

/// The kind of the token at `i`, or `Other` past the end.
pub open spec fn kind_at(toks: Seq<TokenView>, i: int) -> TokenKindView {
    if 0 <= i < toks.len() {
        toks[i].kind
    } else {
        TokenKindView::Other
    }
}

/// The location of the token at `i`; past the end, the annotation's own.
pub open spec fn span_at(toks: Seq<TokenView>, end: usize, i: int) -> usize {
    if 0 <= i < toks.len() {
        toks[i].span
    } else {
        end
    }
}

/// The parameter that a keyword introduces.
pub open spec fn keyword_of(w: Seq<char>) -> Option<Param> {
    if w == "name"@ {
        Some(Param::Name)
    } else if w == "default_to"@ {
        Some(Param::DefaultTo)
    } else if w == "default_from"@ {
        Some(Param::DefaultFrom)
    } else if w == "no_to"@ {
        Some(Param::NoTo)
    } else if w == "no_from"@ {
        Some(Param::NoFrom)
    } else if w == "default"@ {
        Some(Param::Default)
    } else if w == "try"@ {
        Some(Param::Try)
    } else if w == "display"@ {
        Some(Param::Display)
    } else {
        None
    }
}

/// Parameters written `key = value`.
pub open spec fn takes_value(p: Param) -> bool {
    p == Param::Name || p == Param::DefaultTo || p == Param::DefaultFrom
}

/// One argument: its parameter, its value (empty for a bare keyword) and the
/// location of its keyword.
pub ghost struct ArgView {
    pub param: Param,
    pub text: Seq<char>,
    pub span: usize,
}

pub struct Arg {
    pub param: Param,
    pub text: String,
    pub span: usize,
}

impl View for Arg {
    type V = ArgView;

    open spec fn view(&self) -> ArgView {
        ArgView { param: self.param, text: self.text@, span: self.span }
    }
}

pub open spec fn args_view(a: Seq<Arg>) -> Seq<ArgView> {
    a.map_values(|x: Arg| x@)
}

/// How many tokens the argument starting at `i` spans.
pub open spec fn arg_width(toks: Seq<TokenView>, i: int) -> int {
    match kind_at(toks, i) {
        TokenKindView::Ident(w) => match keyword_of(w) {
            Some(p) => if takes_value(p) {
                3
            } else {
                1
            },
            None => 1,
        },
        _ => 1,
    }
}

/// The argument that starts at token `i`.
pub open spec fn arg_syntax(toks: Seq<TokenView>, end: usize, i: int) -> Result<
    ArgView,
    DiagnosticView,
> {
    let sp = span_at(toks, end, i);
    match kind_at(toks, i) {
        TokenKindView::Ident(w) => match keyword_of(w) {
            None => Err(diag(ErrorKindView::UnknownArgument, sp)),
            Some(p) => if !takes_value(p) {
                Ok(ArgView { param: p, text: Seq::empty(), span: sp })
            } else if kind_at(toks, i + 1) != TokenKindView::Punct('=') {
                Err(diag(ErrorKindView::Expected(Expected::Eq), span_at(toks, end, i + 1)))
            } else if p == Param::DefaultFrom {
                match kind_at(toks, i + 2) {
                    TokenKindView::Ident(v) => Ok(ArgView { param: p, text: v, span: sp }),
                    _ => Err(
                        diag(ErrorKindView::Expected(Expected::Ident), span_at(toks, end, i + 2)),
                    ),
                }
            } else {
                match kind_at(toks, i + 2) {
                    TokenKindView::Str(v) => Ok(ArgView { param: p, text: v, span: sp }),
                    _ => Err(
                        diag(ErrorKindView::Expected(Expected::StrLit), span_at(toks, end, i + 2)),
                    ),
                }
            },
        },
        _ => Err(diag(ErrorKindView::UnknownArgument, sp)),
    }
}

/// The comma-separated arguments from token `i` to the end; a trailing comma
/// is allowed.
pub open spec fn args_syntax(toks: Seq<TokenView>, end: usize, i: int) -> Result<
    Seq<ArgView>,
    DiagnosticView,
>
    decreases toks.len() - i,
{
    if i >= toks.len() {
        Ok(Seq::empty())
    } else {
        match arg_syntax(toks, end, i) {
            Err(e) => Err(e),
            Ok(a) => {
                let j = i + arg_width(toks, i);
                if j >= toks.len() {
                    Ok(seq![a])
                } else if kind_at(toks, j) == TokenKindView::Punct(',') {
                    match args_syntax(toks, end, j + 1) {
                        Ok(rest) => Ok(seq![a] + rest),
                        Err(e) => Err(e),
                    }
                } else {
                    Err(diag(ErrorKindView::Expected(Expected::Comma), toks[j].span))
                }
            },
        }
    }
}

pub open spec fn prepend(acc: Seq<ArgView>, r: Result<Seq<ArgView>, DiagnosticView>) -> Result<
    Seq<ArgView>,
    DiagnosticView,
> {
    match r {
        Ok(s) => Ok(acc + s),
        Err(e) => Err(e),
    }
}

pub fn lookup_keyword(w: &String) -> (r: Option<Param>)
    ensures
        r == keyword_of(w@),
{
    if text_eq(w, "name") {
        Some(Param::Name)
    } else if text_eq(w, "default_to") {
        Some(Param::DefaultTo)
    } else if text_eq(w, "default_from") {
        Some(Param::DefaultFrom)
    } else if text_eq(w, "no_to") {
        Some(Param::NoTo)
    } else if text_eq(w, "no_from") {
        Some(Param::NoFrom)
    } else if text_eq(w, "default") {
        Some(Param::Default)
    } else if text_eq(w, "try") {
        Some(Param::Try)
    } else if text_eq(w, "display") {
        Some(Param::Display)
    } else {
        None
    }
}

fn span_of(toks: &Vec<Token>, end: usize, i: usize) -> (r: usize)
    ensures
        r == span_at(tokens_view(toks@), end, i as int),
{
    if i < toks.len() {
        toks[i].span
    } else {
        end
    }
}

fn is_punct(toks: &Vec<Token>, i: usize, c: char) -> (r: bool)
    ensures
        r == (kind_at(tokens_view(toks@), i as int) == TokenKindView::Punct(c)),
{
    if i < toks.len() {
        match &toks[i].kind {
            TokenKind::Punct(d) => *d == c,
            _ => false,
        }
    } else {
        false
    }
}

impl Arg {
    /// Reads the argument that starts at token `i`; on success also returns
    /// the index just past it.
    pub fn parse(toks: &Vec<Token>, end: usize, i: usize) -> (r: Result<(Arg, usize), Diagnostic>)
        requires
            i < toks.len(),
        ensures
            match r {
                Ok((a, j)) => arg_syntax(tokens_view(toks@), end, i as int) == Ok::<
                    ArgView,
                    DiagnosticView,
                >(a@) && j == i + arg_width(tokens_view(toks@), i as int) && j <= toks.len(),
                Err(e) => arg_syntax(tokens_view(toks@), end, i as int) == Err::<
                    ArgView,
                    DiagnosticView,
                >(e@),
            },
    {
        let ghost tv = tokens_view(toks@);
        let sp = toks[i].span;
        let p = match &toks[i].kind {
            TokenKind::Ident(w) => lookup_keyword(w),
            _ => None,
        };
        match p {
            None => Err(Diagnostic { kind: crate::diagnostic::ErrorKind::UnknownArgument, span: sp }),
            Some(p) => {
                if !(p == Param::Name || p == Param::DefaultTo || p == Param::DefaultFrom) {
                    return Ok((Arg { param: p, text: String::new(), span: sp }, i + 1));
                }
                if !is_punct(toks, i + 1, '=') {
                    return Err(
                        Diagnostic {
                            kind: crate::diagnostic::ErrorKind::Expected(Expected::Eq),
                            span: span_of(toks, end, i + 1),
                        },
                    );
                }
                let v = i + 2;
                let err = if p == Param::DefaultFrom {
                    Expected::Ident
                } else {
                    Expected::StrLit
                };
                if v < toks.len() {
                    match &toks[v].kind {
                        TokenKind::Ident(t) => if p == Param::DefaultFrom {
                            return Ok((Arg { param: p, text: t.clone(), span: sp }, v + 1));
                        },
                        TokenKind::Str(t) => if p != Param::DefaultFrom {
                            return Ok((Arg { param: p, text: t.clone(), span: sp }, v + 1));
                        },
                        _ => {},
                    }
                }
                Err(
                    Diagnostic {
                        kind: crate::diagnostic::ErrorKind::Expected(err),
                        span: span_of(toks, end, v),
                    },
                )
            },
        }
    }
}

/// Reads the argument list from token `start` to the end.
pub fn parse_args(toks: &Vec<Token>, end: usize, start: usize) -> (r: Result<Vec<Arg>, Diagnostic>)
    requires
        start <= toks.len(),
    ensures
        match r {
            Ok(a) => args_syntax(tokens_view(toks@), end, start as int) == Ok::<
                Seq<ArgView>,
                DiagnosticView,
            >(args_view(a@)),
            Err(e) => args_syntax(tokens_view(toks@), end, start as int) == Err::<
                Seq<ArgView>,
                DiagnosticView,
            >(e@),
        },
{
    let ghost tv = tokens_view(toks@);
    let mut args: Vec<Arg> = Vec::new();
    let mut i: usize = start;
    while i < toks.len()
        invariant
            start <= i <= toks.len(),
            tv == tokens_view(toks@),
            args_syntax(tv, end, start as int) == prepend(
                args_view(args@),
                args_syntax(tv, end, i as int),
            ),
        decreases toks.len() - i,
    {
        let ghost acc = args_view(args@);
        match Arg::parse(toks, end, i) {
            Err(e) => {
                return Err(e);
            },
            Ok((a, j)) => {
                let ghost av = a@;
                args.push(a);
                proof {
                    assert(args_view(args@) =~= acc.push(av));
                }
                if j >= toks.len() {
                    proof {
                        assert(acc + seq![av] =~= acc.push(av));
                    }
                    return Ok(args);
                }
                if !is_punct(toks, j, ',') {
                    return Err(
                        Diagnostic {
                            kind: crate::diagnostic::ErrorKind::Expected(Expected::Comma),
                            span: toks[j].span,
                        },
                    );
                }
                proof {
                    match args_syntax(tv, end, j + 1) {
                        Ok(rest) => {
                            assert(acc + (seq![av] + rest) =~= acc.push(av) + rest);
                        },
                        Err(_) => {},
                    }
                }
                i = j + 1;
            },
        }
    }
    proof {
        assert(args_view(args@) + Seq::<ArgView>::empty() =~= args_view(args@));
    }
    Ok(args)
}

/// The last argument for parameter `p` (with no duplicates, the only one).
pub open spec fn find_arg(args: Seq<ArgView>, p: Param) -> Option<ArgView>
    decreases args.len(),
{
    if args.len() == 0 {
        None
    } else if args.last().param == p {
        Some(args.last())
    } else {
        find_arg(args.drop_last(), p)
    }
}

/// The first argument whose parameter already occurred earlier is an error.
pub open spec fn check_args(args: Seq<ArgView>) -> Option<DiagnosticView>
    decreases args.len(),
{
    if args.len() == 0 {
        None
    } else {
        match check_args(args.drop_last()) {
            Some(e) => Some(e),
            None => if find_arg(args.drop_last(), args.last().param) is Some {
                Some(diag(ErrorKindView::ArgSetTwice(args.last().param), args.last().span))
            } else {
                None
            },
        }
    }
}

/// One directive: the mapped value and the options given with it.
pub ghost struct DirectiveView {
    pub value: Seq<char>,
    pub name: Option<Seq<char>>,
    pub name_span: usize,
    pub default_to: Option<Seq<char>>,
    pub default_from: Option<Seq<char>>,
    pub is_default: bool,
    pub create_to: bool,
    pub create_from: bool,
    pub create_try: bool,
    /// Where `display` was written, when it was.
    pub display: Option<usize>,
}

pub struct Directive {
    pub value: String,
    pub name: Option<String>,
    pub name_span: usize,
    pub default_to: Option<String>,
    pub default_from: Option<String>,
    pub is_default: bool,
    pub create_to: bool,
    pub create_from: bool,
    pub create_try: bool,
    pub display: Option<usize>,
}

pub open spec fn opt_view(o: Option<String>) -> Option<Seq<char>> {
    match o {
        Some(s) => Some(s@),
        None => None,
    }
}

impl View for Directive {
    type V = DirectiveView;

    open spec fn view(&self) -> DirectiveView {
        DirectiveView {
            value: self.value@,
            name: opt_view(self.name),
            name_span: self.name_span,
            default_to: opt_view(self.default_to),
            default_from: opt_view(self.default_from),
            is_default: self.is_default,
            create_to: self.create_to,
            create_from: self.create_from,
            create_try: self.create_try,
            display: self.display,
        }
    }
}

pub open spec fn arg_text(a: Option<ArgView>) -> Option<Seq<char>> {
    match a {
        Some(a) => Some(a.text),
        None => None,
    }
}

/// The directive that a value and a duplicate-free argument list describe.
pub open spec fn directive_of(value: Seq<char>, args: Seq<ArgView>) -> DirectiveView {
    DirectiveView {
        value,
        name: arg_text(find_arg(args, Param::Name)),
        name_span: match find_arg(args, Param::Name) {
            Some(a) => a.span,
            None => 0,
        },
        default_to: arg_text(find_arg(args, Param::DefaultTo)),
        default_from: arg_text(find_arg(args, Param::DefaultFrom)),
        is_default: find_arg(args, Param::Default) is Some,
        create_to: find_arg(args, Param::NoTo) is None,
        create_from: find_arg(args, Param::NoFrom) is None,
        create_try: find_arg(args, Param::Try) is Some,
        display: match find_arg(args, Param::Display) {
            Some(a) => Some(a.span),
            None => None,
        },
    }
}

/// What an annotation's tokens say, before defaults are filled in. `end` is
/// the annotation's location, used for errors at the end of its tokens.
pub open spec fn directive_syntax(toks: Seq<TokenView>, end: usize) -> Result<
    DirectiveView,
    DiagnosticView,
> {
    match kind_at(toks, 0) {
        TokenKindView::Str(v) => {
            let args = if toks.len() == 1 {
                Ok(Seq::<ArgView>::empty())
            } else if kind_at(toks, 1) == TokenKindView::Punct(',') {
                args_syntax(toks, end, 2)
            } else {
                Err(diag(ErrorKindView::Expected(Expected::Comma), toks[1].span))
            };
            match args {
                Err(e) => Err(e),
                Ok(a) => match check_args(a) {
                    Some(e) => Err(e),
                    None => Ok(directive_of(v, a)),
                },
            }
        },
        _ => Err(diag(ErrorKindView::ArgNotSet(Param::Value), span_at(toks, end, 0))),
    }
}

/// A directive marked `default` supplies the defaults that it does not give
/// explicitly: its own value, and its own variant.
pub open spec fn finalized(d: DirectiveView, vident: Seq<char>) -> DirectiveView {
    if !d.is_default {
        d
    } else {
        DirectiveView {
            default_to: if d.default_to is None {
                Some(d.value)
            } else {
                d.default_to
            },
            default_from: if d.default_from is None {
                Some(vident)
            } else {
                d.default_from
            },
            ..d
        }
    }
}

/// The first duplicate of a prefix is the first duplicate of the whole list.
proof fn lemma_check_args_prefix(args: Seq<ArgView>, n: int)
    requires
        0 <= n <= args.len(),
        check_args(args.take(n)) is Some,
    ensures
        check_args(args) == check_args(args.take(n)),
    decreases args.len() - n,
{
    if n < args.len() {
        assert(args.take(n + 1).drop_last() =~= args.take(n));
        lemma_check_args_prefix(args, n + 1);
    } else {
        assert(args.take(n) =~= args);
    }
}

pub(crate) fn copy_opt(o: &Option<String>) -> (r: Option<String>)
    ensures
        opt_view(r) == opt_view(*o),
{
    match o {
        Some(s) => Some(s.clone()),
        None => None,
    }
}

fn copy_arg(a: &Arg) -> (r: Arg)
    ensures
        r@ == a@,
{
    Arg { param: a.param, text: a.text.clone(), span: a.span }
}

spec fn opt_arg_view(o: Option<Arg>) -> Option<ArgView> {
    match o {
        Some(a) => Some(a@),
        None => None,
    }
}

/// Builds the directive from a value and its arguments, rejecting the first
/// parameter that occurs twice.
fn collect_args(value: String, args: &Vec<Arg>) -> (r: Result<Directive, Diagnostic>)
    ensures
        match check_args(args_view(args@)) {
            Some(e) => r matches Err(d) && d@ == e,
            None => r matches Ok(d) && d@ == directive_of(value@, args_view(args@)),
        },
{
    let ghost av = args_view(args@);
    let mut name: Option<Arg> = None;
    let mut default_to: Option<Arg> = None;
    let mut default_from: Option<Arg> = None;
    let mut is_default: Option<Arg> = None;
    let mut no_to: Option<Arg> = None;
    let mut no_from: Option<Arg> = None;
    let mut create_try: Option<Arg> = None;
    let mut display: Option<Arg> = None;
    let mut stray_value: Option<Arg> = None;
    let mut k: usize = 0;
    while k < args.len()
        invariant
            0 <= k <= args.len(),
            av == args_view(args@),
            check_args(av.take(k as int)) is None,
            opt_arg_view(name) == find_arg(av.take(k as int), Param::Name),
            opt_arg_view(default_to) == find_arg(av.take(k as int), Param::DefaultTo),
            opt_arg_view(default_from) == find_arg(av.take(k as int), Param::DefaultFrom),
            opt_arg_view(is_default) == find_arg(av.take(k as int), Param::Default),
            opt_arg_view(no_to) == find_arg(av.take(k as int), Param::NoTo),
            opt_arg_view(no_from) == find_arg(av.take(k as int), Param::NoFrom),
            opt_arg_view(create_try) == find_arg(av.take(k as int), Param::Try),
            opt_arg_view(display) == find_arg(av.take(k as int), Param::Display),
            opt_arg_view(stray_value) == find_arg(av.take(k as int), Param::Value),
        decreases args.len() - k,
    {
        let a = copy_arg(&args[k]);
        proof {
            assert(av.take(k + 1).drop_last() =~= av.take(k as int));
            assert(av.take(k + 1).last() == a@);
        }
        let slot: &mut Option<Arg> = match a.param {
            Param::Name => &mut name,
            Param::DefaultTo => &mut default_to,
            Param::DefaultFrom => &mut default_from,
            Param::Default => &mut is_default,
            Param::NoTo => &mut no_to,
            Param::NoFrom => &mut no_from,
            Param::Try => &mut create_try,
            Param::Display => &mut display,
            Param::Value => &mut stray_value,
        };
        if slot.is_some() {
            proof {
                lemma_check_args_prefix(av, k + 1);
            }
            return Err(Diagnostic::arg_set_twice(a.param, a.span));
        }
        *slot = Some(a);
        k = k + 1;
    }
    proof {
        assert(av.take(k as int) =~= av);
    }
    let name_span = match &name {
        Some(a) => a.span,
        None => 0,
    };
    Ok(
        Directive {
            value,
            name: match name {
                Some(a) => Some(a.text),
                None => None,
            },
            name_span,
            default_to: match default_to {
                Some(a) => Some(a.text),
                None => None,
            },
            default_from: match default_from {
                Some(a) => Some(a.text),
                None => None,
            },
            is_default: is_default.is_some(),
            create_to: no_to.is_none(),
            create_from: no_from.is_none(),
            create_try: create_try.is_some(),
            display: match display {
                Some(a) => Some(a.span),
                None => None,
            },
        },
    )
}

impl Directive {
    /// Reads one annotation's argument tokens; `end` is the annotation's
    /// location.
    pub fn parse(toks: &Vec<Token>, end: usize) -> (r: Result<Directive, Diagnostic>)
        ensures
            match r {
                Ok(d) => directive_syntax(tokens_view(toks@), end) == Ok::<
                    DirectiveView,
                    DiagnosticView,
                >(d@),
                Err(e) => directive_syntax(tokens_view(toks@), end) == Err::<
                    DirectiveView,
                    DiagnosticView,
                >(e@),
            },
    {
        let value = if toks.len() > 0 {
            match &toks[0].kind {
                TokenKind::Str(v) => Some(v.clone()),
                _ => None,
            }
        } else {
            None
        };
        let value = match value {
            Some(v) => v,
            None => {
                return Err(Diagnostic::arg_not_set(Param::Value, span_of(toks, end, 0)));
            },
        };
        let args = if toks.len() == 1 {
            Vec::new()
        } else if is_punct(toks, 1, ',') {
            parse_args(toks, end, 2)?
        } else {
            return Err(
                Diagnostic {
                    kind: crate::diagnostic::ErrorKind::Expected(Expected::Comma),
                    span: toks[1].span,
                },
            );
        };
        proof {
            if toks.len() == 1 {
                assert(args_view(args@) =~= Seq::<ArgView>::empty());
            }
        }
        collect_args(value, &args)
    }

    /// Fills in the defaults of a directive marked `default`.
    pub fn finalize(self, vident: &String) -> (r: Directive)
        ensures
            r@ == finalized(self@, vident@),
    {
        if !self.is_default {
            return self;
        }
        let mut d = self;
        if d.default_to.is_none() {
            d.default_to = Some(d.value.clone());
        }
        if d.default_from.is_none() {
            d.default_from = Some(vident.clone());
        }
        d
    }
}

} // verus!
