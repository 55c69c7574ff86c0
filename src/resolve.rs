//! Resolving directives into mapping sets.
//!
//! Variants are read in order, and on each variant its directives in order.
//! A directive with a set name joins the set of that name, creating it if no
//! set has that name yet; one without joins the set whose creation index
//! equals the directive's position on its variant. Joining a set appends the
//! directive's rule (unless the directive marks the default variant, which
//! the fallback arm covers), keeps defaults that are already set, and folds
//! the flags: `no_to` and `no_from` stick once given, so do `try` and
//! `display`. Errors are collected and reading goes on.
use vstd::prelude::*;

use crate::diagnostic::{diagnostics_view, Diagnostic, DiagnosticView, ErrorKindView, MultiError, Param};
use crate::directive::{diag, directive_syntax, finalized, Directive, DirectiveView};
use crate::input::{is_directive, tokens_view, Attribute, Variant};

verus! {

/// One row of a mapping set: a variant and the string it maps to.
pub struct Rule {
    pub variant: String,
    pub value: String,
    pub has_fields: bool,
}

pub ghost struct RuleView {
    pub variant: Seq<char>,
    pub value: Seq<char>,
    pub has_fields: bool,
}

impl View for Rule {
    type V = RuleView;

    open spec fn view(&self) -> RuleView {
        RuleView { variant: self.variant@, value: self.value@, has_fields: self.has_fields }
    }
}

pub open spec fn rules_view(r: Seq<Rule>) -> Seq<RuleView> {
    r.map_values(|x: Rule| x@)
}

/// A named mapping set with its rules and resolved options.
pub struct MappingSet {
    pub name: String,
    pub rules: Vec<Rule>,
    pub create_to: bool,
    pub create_from: bool,
    pub default_to: Option<String>,
    pub default_from: Option<String>,
    pub create_try: bool,
    pub impl_display: bool,
}

pub ghost struct SetView {
    pub name: Seq<char>,
    pub rules: Seq<RuleView>,
    pub create_to: bool,
    pub create_from: bool,
    pub default_to: Option<Seq<char>>,
    pub default_from: Option<Seq<char>>,
    pub create_try: bool,
    pub impl_display: bool,
}

impl View for MappingSet {
    type V = SetView;

    open spec fn view(&self) -> SetView {
        SetView {
            name: self.name@,
            rules: rules_view(self.rules@),
            create_to: self.create_to,
            create_from: self.create_from,
            default_to: crate::directive::opt_view(self.default_to),
            default_from: crate::directive::opt_view(self.default_from),
            create_try: self.create_try,
            impl_display: self.impl_display,
        }
    }
}

pub open spec fn sets_view(s: Seq<MappingSet>) -> Seq<SetView> {
    s.map_values(|x: MappingSet| x@)
}

/// The rule that a directive on variant `ident` contributes.
pub open spec fn rule_of(d: DirectiveView, ident: Seq<char>, has_fields: bool) -> RuleView {
    RuleView { variant: ident, value: d.value, has_fields }
}

/// The set that a directive creates.
pub open spec fn created(d: DirectiveView, ident: Seq<char>, has_fields: bool) -> SetView {
    SetView {
        name: match d.name {
            Some(n) => n,
            None => Seq::empty(),
        },
        rules: if d.is_default {
            Seq::empty()
        } else {
            seq![rule_of(d, ident, has_fields)]
        },
        create_to: d.create_to,
        create_from: d.create_from,
        default_to: d.default_to,
        default_from: d.default_from,
        create_try: d.create_try,
        impl_display: d.display is Some,
    }
}

/// A set after a directive joined it.
pub open spec fn merged(s: SetView, d: DirectiveView, ident: Seq<char>, has_fields: bool) -> SetView {
    SetView {
        name: s.name,
        rules: if d.is_default {
            s.rules
        } else {
            s.rules.push(rule_of(d, ident, has_fields))
        },
        create_to: s.create_to && d.create_to,
        create_from: s.create_from && d.create_from,
        default_to: if s.default_to is Some {
            s.default_to
        } else {
            d.default_to
        },
        default_from: if s.default_from is Some {
            s.default_from
        } else {
            d.default_from
        },
        create_try: s.create_try || d.create_try,
        impl_display: s.impl_display || d.display is Some,
    }
}

/// The index of the first set named `n`, searching from index `i`.
pub open spec fn find_set_from(sets: Seq<SetView>, n: Seq<char>, i: int) -> Option<int>
    decreases sets.len() - i,
{
    if i < 0 || i >= sets.len() {
        None
    } else if sets[i].name == n {
        Some(i)
    } else {
        find_set_from(sets, n, i + 1)
    }
}

pub open spec fn find_set(sets: Seq<SetView>, n: Seq<char>) -> Option<int> {
    find_set_from(sets, n, 0)
}

/// Whether some set already claims the `Display` implementation.
pub open spec fn display_claimed(sets: Seq<SetView>) -> bool {
    exists|i: int| 0 <= i < sets.len() && #[trigger] sets[i].impl_display
}

/// What one directive does to the sets, once its target is known (`None`: a
/// new set): the sets after it, or the error it raises.
pub open spec fn join(
    sets: Seq<SetView>,
    target: Option<int>,
    d: DirectiveView,
    ident: Seq<char>,
    has_fields: bool,
) -> Result<Seq<SetView>, DiagnosticView> {
    let other_claims = display_claimed(sets) && match target {
        Some(t) => !sets[t].impl_display,
        None => true,
    };
    if d.display is Some && other_claims {
        Err(diag(ErrorKindView::TraitAlreadyImplemented, d.display->0))
    } else {
        match target {
            Some(t) => Ok(sets.update(t, merged(sets[t], d, ident, has_fields))),
            None => Ok(sets.push(created(d, ident, has_fields))),
        }
    }
}

/// The outcome of one directive annotation: the sets after it (or its
/// error), and the set names its variant has written to so far.
pub ghost struct Outcome {
    pub sets: Result<Seq<SetView>, DiagnosticView>,
    pub seen: Seq<Seq<char>>,
}

/// One directive annotation, at position `idx` among the directives of
/// variant `ident`, which has already written to the sets named in `seen`.
/// Whether the target set is found by name or by position, a variant may
/// write to it once.
pub open spec fn attr_outcome(
    sets: Seq<SetView>,
    ident: Seq<char>,
    has_fields: bool,
    idx: int,
    seen: Seq<Seq<char>>,
    attr: Attribute,
) -> Outcome {
    match directive_syntax(tokens_view(attr.args@), attr.span) {
        Err(e) => Outcome { sets: Err(e), seen },
        Ok(raw) => {
            let d = finalized(raw, ident);
            match d.name {
                Some(n) => if seen.contains(n) {
                    Outcome {
                        sets: Err(diag(ErrorKindView::DuplicateMapping(n), d.name_span)),
                        seen,
                    }
                } else {
                    Outcome {
                        sets: join(sets, find_set(sets, n), d, ident, has_fields),
                        seen: seen.push(n),
                    }
                },
                None => if 0 <= idx < sets.len() {
                    let n = sets[idx].name;
                    if seen.contains(n) {
                        Outcome {
                            sets: Err(diag(ErrorKindView::DuplicateMapping(n), attr.span)),
                            seen,
                        }
                    } else {
                        Outcome { sets: join(sets, Some(idx), d, ident, has_fields), seen: seen.push(n) }
                    }
                } else {
                    Outcome {
                        sets: Err(diag(ErrorKindView::ArgNotSet(Param::Name), attr.span)),
                        seen,
                    }
                },
            }
        },
    }
}

/// The state of a pass: the sets so far and the errors so far.
pub ghost struct Pass {
    pub sets: Seq<SetView>,
    pub errors: Seq<DiagnosticView>,
}

pub open spec fn record(p: Pass, r: Result<Seq<SetView>, DiagnosticView>) -> Pass {
    match r {
        Ok(s) => Pass { sets: s, errors: p.errors },
        Err(e) => Pass { sets: p.sets, errors: p.errors.push(e) },
    }
}

/// A pass over the directive annotations `dirs` of one variant; also returns
/// the set names that the variant wrote to.
pub open spec fn variant_pass(p: Pass, ident: Seq<char>, has_fields: bool, dirs: Seq<Attribute>) -> (
    Pass,
    Seq<Seq<char>>,
)
    decreases dirs.len(),
{
    if dirs.len() == 0 {
        (p, Seq::empty())
    } else {
        let prev = variant_pass(p, ident, has_fields, dirs.drop_last());
        let o = attr_outcome(prev.0.sets, ident, has_fields, dirs.len() - 1, prev.1, dirs.last());
        (record(prev.0, o.sets), o.seen)
    }
}

/// The directive annotations among a variant's annotations, in order.
pub open spec fn directives_in(attrs: Seq<Attribute>) -> Seq<Attribute>
    decreases attrs.len(),
{
    if attrs.len() == 0 {
        Seq::empty()
    } else if is_directive(attrs.last()) {
        directives_in(attrs.drop_last()).push(attrs.last())
    } else {
        directives_in(attrs.drop_last())
    }
}

pub open spec fn empty_pass() -> Pass {
    Pass { sets: Seq::empty(), errors: Seq::empty() }
}

/// The pass over all variants of an enum.
pub open spec fn resolve_pass(vs: Seq<Variant>) -> Pass
    decreases vs.len(),
{
    if vs.len() == 0 {
        empty_pass()
    } else {
        let v = vs.last();
        variant_pass(resolve_pass(vs.drop_last()), v.ident@, v.has_fields, directives_in(v.attrs@)).0
    }
}

/// At most one set claims the `Display` implementation.
pub open spec fn sets_wf(sets: Seq<SetView>) -> bool {
    &&& forall|i: int, j: int|
        0 <= i < sets.len() && 0 <= j < sets.len() && #[trigger] sets[i].impl_display
            && #[trigger] sets[j].impl_display ==> i == j
}

pub open spec fn names_view(s: Seq<String>) -> Seq<Seq<char>> {
    s.map_values(|x: String| x@)
}


fn contains_name(seen: &Vec<String>, n: &String) -> (r: bool)
    ensures
        r == names_view(seen@).contains(n@),
{
    let mut i: usize = 0;
    while i < seen.len()
        invariant
            0 <= i <= seen.len(),
            forall|j: int| 0 <= j < i ==> names_view(seen@)[j] != n@,
        decreases seen.len() - i,
    {
        if seen[i].eq(n) {
            proof {
                assert(names_view(seen@)[i as int] == n@);
            }
            return true;
        }
        i = i + 1;
    }
    false
}

impl MappingSet {
    /// The set that a directive on variant `ident` creates.
    pub fn create(d: &Directive, ident: &String, has_fields: bool) -> (r: MappingSet)
        ensures
            r@ == created(d@, ident@, has_fields),
    {
        let name = match &d.name {
            Some(n) => n.clone(),
            None => String::new(),
        };
        let mut rules: Vec<Rule> = Vec::new();
        if !d.is_default {
            rules.push(Rule { variant: ident.clone(), value: d.value.clone(), has_fields });
        }
        let r = MappingSet {
            name,
            rules,
            create_to: d.create_to,
            create_from: d.create_from,
            default_to: crate::directive::copy_opt(&d.default_to),
            default_from: crate::directive::copy_opt(&d.default_from),
            create_try: d.create_try,
            impl_display: d.display.is_some(),
        };
        proof {
            assert(r@.rules =~= created(d@, ident@, has_fields).rules);
        }
        r
    }

    /// Lets a directive on variant `ident` join this set.
    pub fn merge(&mut self, d: &Directive, ident: &String, has_fields: bool)
        ensures
            final(self)@ == merged(old(self)@, d@, ident@, has_fields),
    {
        let ghost old_rules = rules_view(self.rules@);
        if !d.is_default {
            self.rules.push(Rule { variant: ident.clone(), value: d.value.clone(), has_fields });
        }
        if self.default_to.is_none() {
            self.default_to = crate::directive::copy_opt(&d.default_to);
        }
        if self.default_from.is_none() {
            self.default_from = crate::directive::copy_opt(&d.default_from);
        }
        self.create_to = self.create_to && d.create_to;
        self.create_from = self.create_from && d.create_from;
        self.create_try = self.create_try || d.create_try;
        self.impl_display = self.impl_display || d.display.is_some();
        proof {
            if !d.is_default {
                assert(rules_view(self.rules@) =~= old_rules.push(rule_of(d@, ident@, has_fields)));
            } else {
                assert(rules_view(self.rules@) =~= old_rules);
            }
        }
    }
}

/// The state of a pass over an enum's variants.
pub struct Mappings {
    pub sets: Vec<MappingSet>,
    pub errors: MultiError,
    pub is_display_implemented: bool,
}

impl View for Mappings {
    type V = Pass;

    open spec fn view(&self) -> Pass {
        Pass { sets: sets_view(self.sets@), errors: self.errors.view_errors() }
    }
}

impl Mappings {
    pub open spec fn wf(&self) -> bool {
        &&& self.is_display_implemented == display_claimed(self@.sets)
        &&& sets_wf(self@.sets)
    }

    /// The index of the first set named `n`.
    fn find_named(&self, n: &String) -> (r: Option<usize>)
        ensures
            match r {
                Some(i) => find_set(self@.sets, n@) == Some(i as int) && i < self.sets.len(),
                None => find_set(self@.sets, n@) is None,
            },
    {
        let ghost sv = self@.sets;
        let mut i: usize = 0;
        while i < self.sets.len()
            invariant
                0 <= i <= self.sets.len(),
                sv == sets_view(self.sets@),
                find_set(sv, n@) == find_set_from(sv, n@, i as int),
            decreases self.sets.len() - i,
        {
            if self.sets[i].name.eq(n) {
                return Some(i);
            }
            i = i + 1;
        }
        None
    }

    /// Applies a directive to its target set (`None`: a new set).
    fn join(&mut self, target: Option<usize>, d: &Directive, ident: &String, has_fields: bool) -> (r:
        Result<(), Diagnostic>)
        requires
            old(self).wf(),
            target matches Some(t) ==> t < old(self)@.sets.len(),
        ensures
            final(self).wf(),
            final(self)@.errors == old(self)@.errors,
            match join(
                old(self)@.sets,
                match target {
                    Some(t) => Some(t as int),
                    None => None,
                },
                d@,
                ident@,
                has_fields,
            ) {
                Ok(s) => r is Ok && final(self)@.sets == s,
                Err(e) => r matches Err(x) && x@ == e && final(self)@.sets == old(self)@.sets,
            },
    {
        let ghost old_sets = self@.sets;
        if let Some(sp) = d.display {
            let other_claims = self.is_display_implemented && match target {
                Some(t) => !self.sets[t].impl_display,
                None => true,
            };
            if other_claims {
                return Err(Diagnostic::trait_already_implemented(sp));
            }
        }
        match target {
            Some(t) => {
                let mut s = self.sets.remove(t);
                s.merge(d, ident, has_fields);
                self.sets.insert(t, s);
                proof {
                    let new_set = merged(old_sets[t as int], d@, ident@, has_fields);
                    assert(self@.sets =~= old_sets.update(t as int, new_set));
                    if d.display is Some && !self.is_display_implemented {
                        assert forall|i: int| 0 <= i < old_sets.len() implies !#[trigger] old_sets[i].impl_display by {}
                    }
                    if self.is_display_implemented {
                        let w = choose|i: int| 0 <= i < old_sets.len() && #[trigger] old_sets[i].impl_display;
                        assert(self@.sets[w].impl_display);
                    }
                    if d.display is Some {
                        assert(self@.sets[t as int].impl_display);
                    }
                }
            },
            None => {
                let s = MappingSet::create(d, ident, has_fields);
                self.sets.push(s);
                proof {
                    let new_set = created(d@, ident@, has_fields);
                    assert(self@.sets =~= old_sets.push(new_set));
                    if self.is_display_implemented {
                        let w = choose|i: int| 0 <= i < old_sets.len() && #[trigger] old_sets[i].impl_display;
                        assert(self@.sets[w].impl_display);
                    }
                    if d.display is Some {
                        assert(self@.sets[old_sets.len() as int].impl_display);
                    }
                }
            },
        }
        self.is_display_implemented = self.is_display_implemented || d.display.is_some();
        Ok(())
    }
}

impl Mappings {
    /// Reads one directive annotation at position `idx` among the directives
    /// of variant `vident`; `seen` holds the set names that variant wrote to.
    fn parse_mapstr_attribute(
        &mut self,
        vident: &String,
        idx: usize,
        has_fields: bool,
        attr: &Attribute,
        seen: &mut Vec<String>,
    ) -> (r: Result<(), Diagnostic>)
        requires
            old(self).wf(),
        ensures
            final(self).wf(),
            final(self)@.errors == old(self)@.errors,
            ({
                let o = attr_outcome(
                    old(self)@.sets,
                    vident@,
                    has_fields,
                    idx as int,
                    names_view(old(seen)@),
                    *attr,
                );
                &&& names_view(final(seen)@) == o.seen
                &&& match o.sets {
                    Ok(s) => r is Ok && final(self)@.sets == s,
                    Err(e) => r matches Err(x) && x@ == e && final(self)@.sets == old(self)@.sets,
                }
            }),
    {
        let raw = Directive::parse(&attr.args, attr.span)?;
        let d = raw.finalize(vident);
        let target = match &d.name {
            Some(n) => {
                if contains_name(seen, n) {
                    return Err(Diagnostic::duplicate_mapping(n.clone(), d.name_span));
                }
                let ghost old_seen = names_view(seen@);
                seen.push(n.clone());
                proof {
                    assert(names_view(seen@) =~= old_seen.push(n@));
                }
                self.find_named(n)
            },
            None => {
                if idx < self.sets.len() {
                    let n = &self.sets[idx].name;
                    if contains_name(seen, n) {
                        return Err(Diagnostic::duplicate_mapping(n.clone(), attr.span));
                    }
                    let ghost old_seen = names_view(seen@);
                    seen.push(n.clone());
                    proof {
                        assert(names_view(seen@) =~= old_seen.push(n@));
                    }
                    Some(idx)
                } else {
                    return Err(Diagnostic::arg_not_set(Param::Name, attr.span));
                }
            },
        };
        self.join(target, &d, vident, has_fields)
    }

    /// Reads the directives of one variant, recording their errors.
    fn parse_variant(&mut self, v: &Variant)
        requires
            old(self).wf(),
        ensures
            final(self).wf(),
            final(self)@ == variant_pass(old(self)@, v.ident@, v.has_fields, directives_in(v.attrs@)).0,
    {
        let ghost start_pass = self@;
        let mut seen: Vec<String> = Vec::new();
        let mut idx: usize = 0;
        let mut j: usize = 0;
        while j < v.attrs.len()
            invariant
                0 <= idx <= j <= v.attrs.len(),
                self.wf(),
                idx == directives_in(v.attrs@.take(j as int)).len(),
                (self@, names_view(seen@)) == variant_pass(
                    start_pass,
                    v.ident@,
                    v.has_fields,
                    directives_in(v.attrs@.take(j as int)),
                ),
            decreases v.attrs.len() - j,
        {
            let a = &v.attrs[j];
            let ghost dirs = directives_in(v.attrs@.take(j as int));
            proof {
                assert(v.attrs@.take(j + 1).drop_last() =~= v.attrs@.take(j as int));
                assert(v.attrs@.take(j + 1).last() == *a);
            }
            if a.is_directive() {
                proof {
                    assert(dirs.push(*a).drop_last() =~= dirs);
                }
                if let Err(e) = self.parse_mapstr_attribute(&v.ident, idx, v.has_fields, a, &mut seen) {
                    self.errors.update(e);
                }
                idx = idx + 1;
            }
            j = j + 1;
        }
        proof {
            assert(v.attrs@.take(j as int) =~= v.attrs@);
        }
    }

    /// Reads every variant of an enum and resolves its mapping sets; fails
    /// with every error found when there is any.
    pub fn parse(variants: &Vec<Variant>) -> (r: Result<Vec<MappingSet>, Vec<Diagnostic>>)
        ensures
            match r {
                Ok(s) => resolve_pass(variants@).errors.len() == 0 && sets_view(s@)
                    == resolve_pass(variants@).sets,
                Err(e) => resolve_pass(variants@).errors.len() > 0 && diagnostics_view(e@)
                    == resolve_pass(variants@).errors,
            },
    {
        let mut m = Mappings { sets: Vec::new(), errors: MultiError::new(), is_display_implemented: false };
        proof {
            assert(m@.sets =~= empty_pass().sets);
        }
        let mut i: usize = 0;
        while i < variants.len()
            invariant
                0 <= i <= variants.len(),
                m.wf(),
                m@ == resolve_pass(variants@.take(i as int)),
            decreases variants.len() - i,
        {
            proof {
                assert(variants@.take(i + 1).drop_last() =~= variants@.take(i as int));
                assert(variants@.take(i + 1).last() == variants@[i as int]);
            }
            m.parse_variant(&variants[i]);
            i = i + 1;
        }
        proof {
            assert(variants@.take(i as int) =~= variants@);
        }
        let Mappings { sets, errors, is_display_implemented: _ } = m;
        match errors.finish() {
            Ok(()) => Ok(sets),
            Err(e) => Err(e),
        }
    }
}

} // verus!
