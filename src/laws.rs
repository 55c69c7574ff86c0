//! Properties of resolution and generation, stated over the specifications
//! that the library's functions meet, and proved.
use vstd::prelude::*;

use crate::emit::{
    arm_for_value, arm_for_variant, call, display_fns, expansion, field_less, forward_fns,
    is_forward, plan, reverse_fns, FnKind, FnView,
};
use crate::enum_map_result;
use crate::input::Variant;
use crate::diagnostic::{DiagnosticView, ErrorKindView};
use crate::directive::{diag, DirectiveView};
use crate::resolve::{
    attr_outcome, created, directives_in, display_claimed, empty_pass, find_set, find_set_from, join,
    merged, record, resolve_pass, sets_wf, variant_pass, Pass, RuleView, SetView,
};
use crate::input::{is_directive, Attribute};

verus! {

/// Whether some function of `fs` has kind `k`.
pub open spec fn has_kind(fs: Seq<FnView>, k: FnKind) -> bool {
    exists|i: int| 0 <= i < fs.len() && #[trigger] fs[i].kind == k
}

proof fn lemma_no_directive_attrs(attrs: Seq<Attribute>)
    requires
        forall|j: int| 0 <= j < attrs.len() ==> !is_directive(#[trigger] attrs[j]),
    ensures
        directives_in(attrs).len() == 0,
    decreases attrs.len(),
{
    if attrs.len() > 0 {
        let rest = attrs.drop_last();
        assert forall|j: int| 0 <= j < rest.len() implies !is_directive(#[trigger] rest[j]) by {
            assert(rest[j] == attrs[j]);
        }
        lemma_no_directive_attrs(rest);
    }
}

/// A variant none of whose annotations is `mapstr` leaves the pass as it
/// was: no set, no error, no display claim changes.
pub proof fn lemma_variant_without_annotations(p: Pass, v: Variant)
    requires
        forall|j: int| 0 <= j < v.attrs@.len() ==> !is_directive(#[trigger] v.attrs@[j]),
    ensures
        variant_pass(p, v.ident@, v.has_fields, directives_in(v.attrs@)).0 == p,
{
    lemma_no_directive_attrs(v.attrs@);
}

/// An enum none of whose variants carries a `mapstr` annotation resolves no
/// set and generates nothing, without error.
pub proof fn lemma_no_annotations(vs: Seq<Variant>)
    requires
        forall|i: int, j: int|
            0 <= i < vs.len() && 0 <= j < vs[i].attrs@.len() ==> !is_directive(
                #[trigger] vs[i].attrs@[j],
            ),
    ensures
        resolve_pass(vs) == empty_pass(),
        enum_map_result(vs) == Ok::<Seq<FnView>, Seq<crate::diagnostic::DiagnosticView>>(
            Seq::empty(),
        ),
    decreases vs.len(),
{
    if vs.len() > 0 {
        let rest = vs.drop_last();
        assert forall|i: int, j: int|
            0 <= i < rest.len() && 0 <= j < rest[i].attrs@.len() implies !is_directive(
                #[trigger] rest[i].attrs@[j],
            ) by {
            assert(rest[i] == vs[i]);
        }
        lemma_no_annotations(rest);
        let v = vs.last();
        assert forall|j: int| 0 <= j < v.attrs@.len() implies !is_directive(
            #[trigger] v.attrs@[j],
        ) by {
            assert(v == vs[vs.len() - 1]);
        }
        lemma_variant_without_annotations(resolve_pass(rest), v);
    }
}

/// A set with neither default generates only fallible conversions.
pub proof fn lemma_no_defaults_only_fallible(s: SetView)
    requires
        s.default_to is None,
        s.default_from is None,
    ensures
        !has_kind(expansion(s), FnKind::To),
        !has_kind(expansion(s), FnKind::From),
        has_kind(expansion(s), FnKind::TryTo) == s.create_to,
        has_kind(expansion(s), FnKind::TryFrom) == s.create_from,
{
    let e = expansion(s);
    let (a, b, c) = (forward_fns(s), reverse_fns(s), display_fns(s));
    assert(e == a + b + c);
    if s.create_to {
        assert(e[0].kind == FnKind::TryTo);
    }
    if s.create_from {
        assert(e[a.len() as int].kind == FnKind::TryFrom);
    }
}

/// A set with both defaults generates the strict conversions, and the
/// fallible ones only where `try` was requested.
pub proof fn lemma_defaults_strict(s: SetView)
    requires
        s.default_to is Some,
        s.default_from is Some,
    ensures
        has_kind(expansion(s), FnKind::To) == s.create_to,
        has_kind(expansion(s), FnKind::TryTo) == (s.create_to && s.create_try),
        has_kind(expansion(s), FnKind::From) == s.create_from,
        has_kind(expansion(s), FnKind::TryFrom) == (s.create_from && s.create_try),
{
    let e = expansion(s);
    let (a, b, c) = (forward_fns(s), reverse_fns(s), display_fns(s));
    assert(e == a + b + c);
    if s.create_to {
        assert(e[0].kind == FnKind::To);
        if s.create_try {
            assert(e[1].kind == FnKind::TryTo);
        }
    }
    if s.create_from {
        assert(e[a.len() as int].kind == FnKind::From);
        if s.create_try {
            assert(e[a.len() + 1int].kind == FnKind::TryFrom);
        }
    }
}

/// Without forward generation, a set generates no forward conversion.
pub proof fn lemma_no_to_no_forward(s: SetView)
    requires
        !s.create_to,
    ensures
        !has_kind(expansion(s), FnKind::To),
        !has_kind(expansion(s), FnKind::TryTo),
{
    assert(expansion(s) == forward_fns(s) + reverse_fns(s) + display_fns(s));
}

proof fn lemma_field_less_elements(rules: Seq<RuleView>)
    ensures
        forall|i: int| 0 <= i < field_less(rules).len() ==> !(#[trigger] field_less(rules)[i]).has_fields,
    decreases rules.len(),
{
    if rules.len() > 0 {
        let prev = field_less(rules.drop_last());
        lemma_field_less_elements(rules.drop_last());
        assert forall|i: int| 0 <= i < field_less(rules).len() implies !(#[trigger] field_less(
            rules,
        )[i]).has_fields by {
            if i < prev.len() {
                assert(field_less(rules)[i] == prev[i]);
            }
        }
    }
}

/// A reverse conversion matches exactly the rules of variants without data:
/// a variant with data is never one of its results but by its fallback.
pub proof fn lemma_reverse_without_fields(s: SetView)
    ensures
        forall|i: int|
            0 <= i < expansion(s).len() && !is_forward(#[trigger] expansion(s)[i].kind) ==> {
                &&& expansion(s)[i].arms == field_less(s.rules)
                &&& forall|j: int|
                    0 <= j < expansion(s)[i].arms.len() ==> !(#[trigger] expansion(s)[i].arms[j]).has_fields
            },
{
    lemma_field_less_elements(s.rules);
    assert(expansion(s) == forward_fns(s) + reverse_fns(s) + display_fns(s));
}

/// What a later state of a set keeps of an earlier one: its name, defaults
/// once set, disabled directions, and requested `try` and `Display`.
pub open spec fn set_evolves(a: SetView, b: SetView) -> bool {
    &&& b.name == a.name
    &&& (a.default_to is Some ==> b.default_to == a.default_to)
    &&& (a.default_from is Some ==> b.default_from == a.default_from)
    &&& (!a.create_to ==> !b.create_to)
    &&& (!a.create_from ==> !b.create_from)
    &&& (a.create_try ==> b.create_try)
    &&& (a.impl_display ==> b.impl_display)
}

/// Sets only get added, and each existing set evolves.
pub open spec fn evolves(a: Seq<SetView>, b: Seq<SetView>) -> bool {
    &&& a.len() <= b.len()
    &&& forall|k: int| 0 <= k < a.len() ==> #[trigger] set_evolves(a[k], b[k])
}

/// No two sets share a name.
pub open spec fn names_unique(sets: Seq<SetView>) -> bool {
    forall|i: int, j: int|
        0 <= i < sets.len() && 0 <= j < sets.len() && #[trigger] sets[i].name == #[trigger] sets[j].name
            ==> i == j
}

/// A step from `a` to `b` evolves the sets and keeps at most one `Display`
/// claim and unique names.
pub open spec fn good_step(a: Seq<SetView>, b: Seq<SetView>) -> bool {
    &&& evolves(a, b)
    &&& sets_wf(a) ==> sets_wf(b)
    &&& names_unique(a) ==> names_unique(b)
}

proof fn lemma_find_set_none(sets: Seq<SetView>, n: Seq<char>, i: int)
    requires
        0 <= i,
        find_set_from(sets, n, i) is None,
    ensures
        forall|k: int| i <= k < sets.len() ==> #[trigger] sets[k].name != n,
    decreases sets.len() - i,
{
    if i < sets.len() {
        lemma_find_set_none(sets, n, i + 1);
    }
}

proof fn lemma_good_step_refl(a: Seq<SetView>)
    ensures
        good_step(a, a),
{
    assert forall|k: int| 0 <= k < a.len() implies #[trigger] set_evolves(a[k], a[k]) by {}
}

proof fn lemma_good_step_trans(a: Seq<SetView>, b: Seq<SetView>, c: Seq<SetView>)
    requires
        good_step(a, b),
        good_step(b, c),
    ensures
        good_step(a, c),
{
    assert forall|k: int| 0 <= k < a.len() implies #[trigger] set_evolves(a[k], c[k]) by {
        assert(set_evolves(a[k], b[k]));
        assert(set_evolves(b[k], c[k]));
    }
}

proof fn lemma_find_set_in_range(sets: Seq<SetView>, n: Seq<char>, i: int)
    ensures
        find_set_from(sets, n, i) matches Some(t) ==> 0 <= t < sets.len(),
    decreases sets.len() - i,
{
    if 0 <= i < sets.len() && sets[i].name != n {
        lemma_find_set_in_range(sets, n, i + 1);
    }
}

proof fn lemma_join_good(
    sets: Seq<SetView>,
    target: Option<int>,
    d: DirectiveView,
    ident: Seq<char>,
    has_fields: bool,
)
    requires
        target matches Some(t) ==> 0 <= t < sets.len(),
    ensures
        join(sets, target, d, ident, has_fields) matches Ok(b) ==> {
            &&& evolves(sets, b)
            &&& sets_wf(sets) ==> sets_wf(b)
            &&& target is Some ==> (names_unique(sets) ==> names_unique(b))
            &&& target is None ==> b == sets.push(created(d, ident, has_fields))
        },
{
    if let Ok(b) = join(sets, target, d, ident, has_fields) {
        if target is Some && names_unique(sets) {
            assert forall|i: int, j: int|
                0 <= i < b.len() && 0 <= j < b.len() && #[trigger] b[i].name == #[trigger] b[j].name
                    implies i == j by {
                assert(b[i].name == sets[i].name);
                assert(b[j].name == sets[j].name);
            }
        }
        assert forall|k: int| 0 <= k < sets.len() implies #[trigger] set_evolves(sets[k], b[k]) by {
            if target == Some(k) {
                assert(b[k] == merged(sets[k], d, ident, has_fields));
            } else {
                assert(b[k] == sets[k]);
            }
        }
        if sets_wf(sets) {
            assert forall|i: int, j: int|
                0 <= i < b.len() && 0 <= j < b.len() && #[trigger] b[i].impl_display
                    && #[trigger] b[j].impl_display implies i == j by {
                let t = match target {
                    Some(t) => t,
                    None => sets.len() as int,
                };
                if d.display is None {
                    if target is None {
                        assert(created(d, ident, has_fields) == b[sets.len() as int]);
                    }
                    assert(i != t ==> b[i] == sets[i]);
                    assert(j != t ==> b[j] == sets[j]);
                    assert(t < sets.len() ==> (b[t].impl_display == sets[t].impl_display));
                } else {
                    if i != t {
                        assert(b[i] == sets[i]);
                        assert(display_claimed(sets));
                    }
                    if j != t {
                        assert(b[j] == sets[j]);
                        assert(display_claimed(sets));
                    }
                }
            }
        }
    }
}

proof fn lemma_attr_good(
    sets: Seq<SetView>,
    ident: Seq<char>,
    has_fields: bool,
    idx: int,
    seen: Seq<Seq<char>>,
    attr: Attribute,
)
    ensures
        attr_outcome(sets, ident, has_fields, idx, seen, attr).sets matches Ok(b) ==> good_step(sets, b),
{
    let o = attr_outcome(sets, ident, has_fields, idx, seen, attr);
    if let Ok(raw) = crate::directive::directive_syntax(
        crate::input::tokens_view(attr.args@),
        attr.span,
    ) {
        let d = crate::directive::finalized(raw, ident);
        match d.name {
            Some(n) => {
                lemma_find_set_in_range(sets, n, 0);
                lemma_join_good(sets, find_set(sets, n), d, ident, has_fields);
                if find_set(sets, n) is None {
                    lemma_find_set_none(sets, n, 0);
                    if let Ok(b) = o.sets {
                        if names_unique(sets) {
                            assert forall|i: int, j: int|
                                0 <= i < b.len() && 0 <= j < b.len() && #[trigger] b[i].name
                                    == #[trigger] b[j].name implies i == j by {
                                if i < sets.len() {
                                    assert(b[i] == sets[i]);
                                }
                                if j < sets.len() {
                                    assert(b[j] == sets[j]);
                                }
                            }
                        }
                    }
                }
            },
            None => {
                if 0 <= idx < sets.len() {
                    lemma_join_good(sets, Some(idx), d, ident, has_fields);
                }
            },
        }
    }
}

proof fn lemma_record_good(p: Pass, r: Result<Seq<SetView>, DiagnosticView>)
    requires
        r matches Ok(b) ==> good_step(p.sets, b),
    ensures
        good_step(p.sets, record(p, r).sets),
{
    if r is Err {
        lemma_good_step_refl(p.sets);
    }
}

proof fn lemma_variant_pass_good(p: Pass, ident: Seq<char>, has_fields: bool, dirs: Seq<Attribute>)
    ensures
        good_step(p.sets, variant_pass(p, ident, has_fields, dirs).0.sets),
    decreases dirs.len(),
{
    if dirs.len() == 0 {
        lemma_good_step_refl(p.sets);
    } else {
        let prev = variant_pass(p, ident, has_fields, dirs.drop_last());
        lemma_variant_pass_good(p, ident, has_fields, dirs.drop_last());
        lemma_attr_good(prev.0.sets, ident, has_fields, dirs.len() - 1, prev.1, dirs.last());
        let o = attr_outcome(prev.0.sets, ident, has_fields, dirs.len() - 1, prev.1, dirs.last());
        lemma_record_good(prev.0, o.sets);
        lemma_good_step_trans(p.sets, prev.0.sets, record(prev.0, o.sets).sets);
    }
}

/// From the state after the first `i` variants to the state after all of
/// them, the sets evolve, and at most one set claims `Display` throughout.
pub proof fn lemma_resolve_evolves(vs: Seq<Variant>, i: int)
    requires
        0 <= i <= vs.len(),
    ensures
        good_step(resolve_pass(vs.take(i)).sets, resolve_pass(vs).sets),
        sets_wf(resolve_pass(vs).sets),
        names_unique(resolve_pass(vs).sets),
    decreases vs.len(),
{
    if vs.len() == 0 {
        assert(vs.take(i) =~= vs);
        lemma_good_step_refl(resolve_pass(vs).sets);
    } else {
        let rest = vs.drop_last();
        let v = vs.last();
        if i == vs.len() {
            lemma_resolve_evolves(rest, rest.len() as int);
            assert(vs.take(i) =~= vs);
            lemma_good_step_refl(resolve_pass(vs).sets);
        } else {
            lemma_resolve_evolves(rest, i);
            assert(rest.take(i) =~= vs.take(i));
        }
        lemma_resolve_evolves(rest, rest.len() as int);
        assert(rest.take(rest.len() as int) =~= rest);
        lemma_variant_pass_good(resolve_pass(rest), v.ident@, v.has_fields, directives_in(v.attrs@));
        if i < vs.len() {
            lemma_good_step_trans(
                resolve_pass(vs.take(i)).sets,
                resolve_pass(rest).sets,
                resolve_pass(vs).sets,
            );
        }
    }
}

/// Defaults are first-write-wins: a default that a set has after some
/// variants is the one it has at the end.
pub proof fn lemma_default_first_write_wins(vs: Seq<Variant>, i: int, k: int)
    requires
        0 <= i <= vs.len(),
        0 <= k < resolve_pass(vs.take(i)).sets.len(),
    ensures
        k < resolve_pass(vs).sets.len(),
        resolve_pass(vs.take(i)).sets[k].default_to is Some ==> resolve_pass(vs).sets[k].default_to
            == resolve_pass(vs.take(i)).sets[k].default_to,
        resolve_pass(vs.take(i)).sets[k].default_from is Some ==> resolve_pass(vs).sets[k].default_from
            == resolve_pass(vs.take(i)).sets[k].default_from,
{
    lemma_resolve_evolves(vs, i);
    assert(set_evolves(resolve_pass(vs.take(i)).sets[k], resolve_pass(vs).sets[k]));
}

/// A directive that creates a set with a default, followed by another
/// directive joining that set with its own default: the first one stays.
pub proof fn lemma_first_default_kept(
    sets: Seq<SetView>,
    d1: DirectiveView,
    ident1: Seq<char>,
    has_fields1: bool,
    d2: DirectiveView,
    ident2: Seq<char>,
    has_fields2: bool,
)
    requires
        join(sets, None, d1, ident1, has_fields1) is Ok,
        join(join(sets, None, d1, ident1, has_fields1)->Ok_0, Some(sets.len() as int), d2, ident2, has_fields2) is Ok,
    ensures
        ({
            let s1 = join(sets, None, d1, ident1, has_fields1)->Ok_0;
            let s2 = join(s1, Some(sets.len() as int), d2, ident2, has_fields2)->Ok_0;
            &&& d1.default_to is Some ==> s2[sets.len() as int].default_to == d1.default_to
            &&& d1.default_from is Some ==> s2[sets.len() as int].default_from == d1.default_from
        }),
{
}

/// Once a directive disables a direction of a set, it stays disabled, and
/// no conversion of that direction is generated for the set.
pub proof fn lemma_disabled_direction_sticks(vs: Seq<Variant>, i: int, k: int)
    requires
        0 <= i <= vs.len(),
        0 <= k < resolve_pass(vs.take(i)).sets.len(),
    ensures
        k < resolve_pass(vs).sets.len(),
        !resolve_pass(vs.take(i)).sets[k].create_to ==> {
            &&& !resolve_pass(vs).sets[k].create_to
            &&& !has_kind(expansion(resolve_pass(vs).sets[k]), FnKind::To)
            &&& !has_kind(expansion(resolve_pass(vs).sets[k]), FnKind::TryTo)
        },
        !resolve_pass(vs.take(i)).sets[k].create_from ==> {
            &&& !resolve_pass(vs).sets[k].create_from
            &&& !has_kind(expansion(resolve_pass(vs).sets[k]), FnKind::From)
            &&& !has_kind(expansion(resolve_pass(vs).sets[k]), FnKind::TryFrom)
        },
{
    lemma_resolve_evolves(vs, i);
    let s = resolve_pass(vs).sets[k];
    assert(set_evolves(resolve_pass(vs.take(i)).sets[k], s));
    assert(expansion(s) == forward_fns(s) + reverse_fns(s) + display_fns(s));
    if !s.create_to {
        lemma_no_to_no_forward(s);
    }
    if !s.create_from {
        let e = expansion(s);
        let a = forward_fns(s);
        assert forall|j: int| 0 <= j < e.len() implies !(#[trigger] e[j].kind == FnKind::From) by {
            if j < a.len() {
                assert(e[j] == a[j]);
            } else {
                assert(e[j] == display_fns(s)[j - a.len()]);
            }
        }
        assert forall|j: int| 0 <= j < e.len() implies !(#[trigger] e[j].kind == FnKind::TryFrom) by {
            if j < a.len() {
                assert(e[j] == a[j]);
            } else {
                assert(e[j] == display_fns(s)[j - a.len()]);
            }
        }
    }
}

/// Once a directive requests `try` on a set, the set keeps it, and where a
/// default is known the fallible conversion is generated beside the strict
/// one.
pub proof fn lemma_try_sticks(vs: Seq<Variant>, i: int, k: int)
    requires
        0 <= i <= vs.len(),
        0 <= k < resolve_pass(vs.take(i)).sets.len(),
        resolve_pass(vs.take(i)).sets[k].create_try,
    ensures
        k < resolve_pass(vs).sets.len(),
        resolve_pass(vs).sets[k].create_try,
        ({
            let s = resolve_pass(vs).sets[k];
            &&& s.create_to && s.default_to is Some ==> has_kind(expansion(s), FnKind::To)
                && has_kind(expansion(s), FnKind::TryTo)
            &&& s.create_from && s.default_from is Some ==> has_kind(expansion(s), FnKind::From)
                && has_kind(expansion(s), FnKind::TryFrom)
        }),
{
    lemma_resolve_evolves(vs, i);
    let s = resolve_pass(vs).sets[k];
    assert(set_evolves(resolve_pass(vs.take(i)).sets[k], s));
    let e = expansion(s);
    let a = forward_fns(s);
    assert(e == a + reverse_fns(s) + display_fns(s));
    if s.create_to && s.default_to is Some {
        assert(e[0].kind == FnKind::To);
        assert(e[1].kind == FnKind::TryTo);
    }
    if s.create_from && s.default_from is Some {
        assert(e[a.len() as int].kind == FnKind::From);
        assert(e[a.len() + 1int].kind == FnKind::TryFrom);
    }
}

/// After any number of variants, at most one set claims `Display`.
pub proof fn lemma_display_claimed_once(vs: Seq<Variant>)
    ensures
        sets_wf(resolve_pass(vs).sets),
{
    lemma_resolve_evolves(vs, vs.len() as int);
}

/// A directive claiming `Display` for one set while another set holds the
/// claim is an error at the `display` keyword; nothing is overridden.
pub proof fn lemma_second_display_rejected(
    sets: Seq<SetView>,
    k: int,
    target: Option<int>,
    d: DirectiveView,
    ident: Seq<char>,
    has_fields: bool,
)
    requires
        sets_wf(sets),
        0 <= k < sets.len(),
        sets[k].impl_display,
        target matches Some(t) ==> 0 <= t < sets.len() && t != k,
        d.display is Some,
    ensures
        join(sets, target, d, ident, has_fields) == Err::<Seq<SetView>, DiagnosticView>(
            diag(ErrorKindView::TraitAlreadyImplemented, d.display->0),
        ),
{
    assert(display_claimed(sets));
    if let Some(t) = target {
        assert(!sets[t].impl_display);
    }
}

proof fn lemma_variant_arm_found(arms: Seq<RuleView>, v: Seq<char>, x: Seq<char>, i: int, j: int)
    requires
        0 <= i <= j < arms.len(),
        arms[j].variant == v,
        arms[j].value == x,
        forall|m: int| i <= m < j && (#[trigger] arms[m]).variant == v ==> arms[m].value == x,
    ensures
        arm_for_variant(arms, v, i) == Some(x),
    decreases j - i,
{
    if i < j && arms[i].variant != v {
        lemma_variant_arm_found(arms, v, x, i + 1, j);
    }
}

proof fn lemma_value_arm_push(arms: Seq<RuleView>, y: RuleView, x: Seq<char>, i: int)
    requires
        0 <= i <= arms.len(),
    ensures
        arm_for_value(arms.push(y), x, i) == match arm_for_value(arms, x, i) {
            Some(w) => Some(w),
            None => if y.value == x {
                Some(y.variant)
            } else {
                None
            },
        },
    decreases arms.len() - i,
{
    if i < arms.len() {
        assert(arms.push(y)[i] == arms[i]);
        lemma_value_arm_push(arms, y, x, i + 1);
    } else {
        assert(arms.push(y)[i] == y);
        assert(arm_for_value(arms.push(y), x, i + 1) is None);
    }
}

/// Where every field-less rule for string `x` names variant `v`, the reverse
/// arms give `v` or nothing for `x`.
proof fn lemma_value_arm_agrees(rules: Seq<RuleView>, x: Seq<char>, v: Seq<char>)
    requires
        forall|m: int|
            0 <= m < rules.len() && !(#[trigger] rules[m]).has_fields && rules[m].value == x
                ==> rules[m].variant == v,
    ensures
        arm_for_value(field_less(rules), x, 0) is None || arm_for_value(field_less(rules), x, 0)
            == Some(v),
    decreases rules.len(),
{
    if rules.len() > 0 {
        let rest = rules.drop_last();
        let y = rules.last();
        assert forall|m: int|
            0 <= m < rest.len() && !(#[trigger] rest[m]).has_fields && rest[m].value == x
                implies rest[m].variant == v by {
            assert(rest[m] == rules[m]);
        }
        lemma_value_arm_agrees(rest, x, v);
        if !y.has_fields {
            lemma_value_arm_push(field_less(rest), y, x, 0);
        }
    }
}

proof fn lemma_value_arm_found(rules: Seq<RuleView>, j: int, x: Seq<char>, v: Seq<char>)
    requires
        0 <= j < rules.len(),
        !rules[j].has_fields,
        rules[j].value == x,
        rules[j].variant == v,
        forall|m: int|
            0 <= m < j && !(#[trigger] rules[m]).has_fields && rules[m].value == x ==> rules[m].variant
                == v,
    ensures
        arm_for_value(field_less(rules), x, 0) == Some(v),
    decreases rules.len(),
{
    let rest = rules.drop_last();
    let y = rules.last();
    if j == rules.len() - 1 {
        assert forall|m: int|
            0 <= m < rest.len() && !(#[trigger] rest[m]).has_fields && rest[m].value == x
                implies rest[m].variant == v by {
            assert(rest[m] == rules[m]);
        }
        lemma_value_arm_agrees(rest, x, v);
        lemma_value_arm_push(field_less(rest), y, x, 0);
    } else {
        assert forall|m: int|
            0 <= m < j && !(#[trigger] rest[m]).has_fields && rest[m].value == x implies rest[m].variant
                == v by {
            assert(rest[m] == rules[m]);
        }
        lemma_value_arm_found(rest, j, x, v);
        if !y.has_fields {
            lemma_value_arm_push(field_less(rest), y, x, 0);
        }
    }
}

/// Round trip: for a rule of a variant without data, where no earlier rule
/// gives that variant another string or that string (on a variant without
/// data) another variant, every forward conversion of the set maps the
/// variant to the string and every reverse conversion maps the string back;
/// with reverse generation enabled, a reverse conversion exists.
pub proof fn lemma_round_trip(s: SetView, j: int)
    requires
        0 <= j < s.rules.len(),
        !s.rules[j].has_fields,
        forall|m: int|
            0 <= m < j ==> {
                &&& (#[trigger] s.rules[m]).variant == s.rules[j].variant ==> s.rules[m].value
                    == s.rules[j].value
                &&& !s.rules[m].has_fields && s.rules[m].value == s.rules[j].value
                    ==> s.rules[m].variant == s.rules[j].variant
            },
    ensures
        s.create_from ==> has_kind(expansion(s), FnKind::From) || has_kind(
            expansion(s),
            FnKind::TryFrom,
        ),
        forall|i: int|
            0 <= i < expansion(s).len() ==> {
                let f = #[trigger] expansion(s)[i];
                &&& is_forward(f.kind) ==> call(f, s.rules[j].variant) == Some(s.rules[j].value)
                &&& !is_forward(f.kind) ==> call(f, s.rules[j].value) == Some(s.rules[j].variant)
            },
{
    let r = s.rules[j];
    lemma_variant_arm_found(s.rules, r.variant, r.value, 0, j);
    lemma_value_arm_found(s.rules, j, r.value, r.variant);
    let e = expansion(s);
    let a = forward_fns(s);
    assert(e == a + reverse_fns(s) + display_fns(s));
    if s.create_from {
        let f = e[a.len() as int];
        assert(f.kind == FnKind::From || f.kind == FnKind::TryFrom);
    }
}

/// A named directive may create its set on any variant; a directive without
/// a name can only join the set at its position, and is an error where no
/// set exists at that position yet.
pub proof fn lemma_set_identity(
    sets: Seq<SetView>,
    ident: Seq<char>,
    has_fields: bool,
    idx: int,
    seen: Seq<Seq<char>>,
    attr: Attribute,
)
    requires
        crate::directive::directive_syntax(crate::input::tokens_view(attr.args@), attr.span) is Ok,
    ensures
        ({
            let raw = crate::directive::directive_syntax(
                crate::input::tokens_view(attr.args@),
                attr.span,
            )->Ok_0;
            let d = crate::directive::finalized(raw, ident);
            let o = attr_outcome(sets, ident, has_fields, idx, seen, attr);
            &&& d.name is None && idx >= sets.len() ==> o.sets == Err::<Seq<SetView>, DiagnosticView>(
                diag(ErrorKindView::ArgNotSet(crate::diagnostic::Param::Name), attr.span),
            )
            &&& (d.name is Some && !seen.contains(d.name->0) && find_set(sets, d.name->0) is None
                && (d.display is None || !display_claimed(sets))) ==> o.sets == Ok::<
                Seq<SetView>,
                DiagnosticView,
            >(sets.push(created(d, ident, has_fields)))
        }),
{
}

/// A directive joining an existing set: a default already set is never
/// overridden, and is taken from the directive otherwise; `no_to` and
/// `no_from` disable for good (AND); `try` and `display` enable for good
/// (OR); a rule row is added unless the directive marks the default variant;
/// no other set changes. The join fails exactly when the directive claims
/// `Display` while another set holds the claim, and then changes nothing.
pub proof fn lemma_join_existing(
    sets: Seq<SetView>,
    t: int,
    d: DirectiveView,
    ident: Seq<char>,
    has_fields: bool,
)
    requires
        0 <= t < sets.len(),
    ensures
        join(sets, Some(t), d, ident, has_fields) is Err <==> (d.display is Some && display_claimed(sets)
            && !sets[t].impl_display),
        join(sets, Some(t), d, ident, has_fields) is Err ==> join(sets, Some(t), d, ident, has_fields)
            == Err::<Seq<SetView>, DiagnosticView>(
            diag(ErrorKindView::TraitAlreadyImplemented, d.display->0),
        ),
        join(sets, Some(t), d, ident, has_fields) matches Ok(b) ==> {
            &&& b.len() == sets.len()
            &&& forall|k: int| 0 <= k < sets.len() && k != t ==> b[k] == sets[k]
            &&& b[t].name == sets[t].name
            &&& b[t].default_to == if sets[t].default_to is Some {
                sets[t].default_to
            } else {
                d.default_to
            }
            &&& b[t].default_from == if sets[t].default_from is Some {
                sets[t].default_from
            } else {
                d.default_from
            }
            &&& b[t].create_to == (sets[t].create_to && d.create_to)
            &&& b[t].create_from == (sets[t].create_from && d.create_from)
            &&& b[t].create_try == (sets[t].create_try || d.create_try)
            &&& b[t].impl_display == (sets[t].impl_display || d.display is Some)
            &&& b[t].rules == if d.is_default {
                sets[t].rules
            } else {
                sets[t].rules.push(RuleView { variant: ident, value: d.value, has_fields })
            }
        },
{
}

/// `b` starts with all of `a`.
pub open spec fn extends(a: Seq<DiagnosticView>, b: Seq<DiagnosticView>) -> bool {
    a.len() <= b.len() && forall|k: int| 0 <= k < a.len() ==> #[trigger] b[k] == a[k]
}

proof fn lemma_record_extends(p: Pass, r: Result<Seq<SetView>, DiagnosticView>)
    ensures
        extends(p.errors, record(p, r).errors),
{
}

proof fn lemma_variant_pass_extends(
    p: Pass,
    ident: Seq<char>,
    has_fields: bool,
    dirs: Seq<Attribute>,
    m: int,
)
    requires
        0 <= m <= dirs.len(),
    ensures
        extends(
            variant_pass(p, ident, has_fields, dirs.take(m)).0.errors,
            variant_pass(p, ident, has_fields, dirs).0.errors,
        ),
    decreases dirs.len(),
{
    if m == dirs.len() {
        assert(dirs.take(m) =~= dirs);
    } else {
        let rest = dirs.drop_last();
        lemma_variant_pass_extends(p, ident, has_fields, rest, m);
        assert(rest.take(m) =~= dirs.take(m));
        let prev = variant_pass(p, ident, has_fields, rest);
        let o = attr_outcome(prev.0.sets, ident, has_fields, dirs.len() - 1, prev.1, dirs.last());
        lemma_record_extends(prev.0, o.sets);
    }
}

proof fn lemma_resolve_extends(vs: Seq<Variant>, i: int)
    requires
        0 <= i <= vs.len(),
    ensures
        extends(resolve_pass(vs.take(i)).errors, resolve_pass(vs).errors),
    decreases vs.len(),
{
    if i == vs.len() {
        assert(vs.take(i) =~= vs);
    } else {
        let rest = vs.drop_last();
        let v = vs.last();
        lemma_resolve_extends(rest, i);
        assert(rest.take(i) =~= vs.take(i));
        let dirs = directives_in(v.attrs@);
        lemma_variant_pass_extends(resolve_pass(rest), v.ident@, v.has_fields, dirs, 0);
        assert(dirs.take(0) =~= Seq::<Attribute>::empty());
    }
}

/// Every error that a directive raises is reported, and the whole
/// generation then fails: directive `m` of variant `i`, met in the state that
/// the pass has reached there, raising `e`.
pub proof fn lemma_error_reported(vs: Seq<Variant>, i: int, m: int)
    requires
        0 <= i < vs.len(),
        0 <= m < directives_in(vs[i].attrs@).len(),
    ensures
        ({
            let v = vs[i];
            let dirs = directives_in(v.attrs@);
            let q = variant_pass(resolve_pass(vs.take(i)), v.ident@, v.has_fields, dirs.take(m));
            let o = attr_outcome(q.0.sets, v.ident@, v.has_fields, m, q.1, dirs[m]);
            o.sets is Err ==> {
                &&& resolve_pass(vs).errors.contains(o.sets->Err_0)
                &&& enum_map_result(vs) is Err
            }
        }),
{
    let v = vs[i];
    let dirs = directives_in(v.attrs@);
    let p = resolve_pass(vs.take(i));
    let q = variant_pass(p, v.ident@, v.has_fields, dirs.take(m));
    let o = attr_outcome(q.0.sets, v.ident@, v.has_fields, m, q.1, dirs[m]);
    if let Err(e) = o.sets {
        assert(dirs.take(m + 1).drop_last() =~= dirs.take(m));
        assert(dirs.take(m + 1).last() == dirs[m]);
        let after = variant_pass(p, v.ident@, v.has_fields, dirs.take(m + 1)).0.errors;
        assert(after == q.0.errors.push(e));
        lemma_variant_pass_extends(p, v.ident@, v.has_fields, dirs, m + 1);
        assert(vs.take(i + 1).drop_last() =~= vs.take(i));
        assert(vs.take(i + 1).last() == v);
        lemma_resolve_extends(vs, i + 1);
        let fin = resolve_pass(vs).errors;
        assert(fin[q.0.errors.len() as int] == e);
    }
}

/// A directive claiming `Display` while some set holds the claim, whose own
/// target (found by name, or by position) does not hold it, raises the error
/// at its `display` keyword; with `lemma_error_reported`, a second claim is
/// always reported and never overrides the first.
pub proof fn lemma_display_claim_outcome(
    sets: Seq<SetView>,
    ident: Seq<char>,
    has_fields: bool,
    idx: int,
    seen: Seq<Seq<char>>,
    attr: Attribute,
)
    requires
        crate::directive::directive_syntax(crate::input::tokens_view(attr.args@), attr.span) is Ok,
        display_claimed(sets),
        ({
            let raw = crate::directive::directive_syntax(
                crate::input::tokens_view(attr.args@),
                attr.span,
            )->Ok_0;
            let d = crate::directive::finalized(raw, ident);
            &&& d.display is Some
            &&& match d.name {
                Some(n) => !seen.contains(n) && (find_set(sets, n) matches Some(t) ==> !sets[t].impl_display),
                None => 0 <= idx < sets.len() && !seen.contains(sets[idx].name)
                    && !sets[idx].impl_display,
            }
        }),
    ensures
        ({
            let raw = crate::directive::directive_syntax(
                crate::input::tokens_view(attr.args@),
                attr.span,
            )->Ok_0;
            let d = crate::directive::finalized(raw, ident);
            attr_outcome(sets, ident, has_fields, idx, seen, attr).sets == Err::<
                Seq<SetView>,
                DiagnosticView,
            >(diag(ErrorKindView::TraitAlreadyImplemented, d.display->0))
        }),
{
}

/// Whether `fs` holds a function of kind `k` for the set named `n`.
pub open spec fn has_named(fs: Seq<FnView>, k: FnKind, n: Seq<char>) -> bool {
    exists|i: int| 0 <= i < fs.len() && #[trigger] fs[i].kind == k && fs[i].set_name == n
}

proof fn lemma_expansion_named(s: SetView, k: FnKind, n: Seq<char>)
    ensures
        has_named(expansion(s), k, n) == (s.name == n && has_kind(expansion(s), k)),
{
    let e = expansion(s);
    assert(e == forward_fns(s) + reverse_fns(s) + display_fns(s));
    assert(forall|i: int| 0 <= i < e.len() ==> (#[trigger] e[i]).set_name == s.name);
    if s.name == n && has_kind(e, k) {
        let i = choose|i: int| 0 <= i < e.len() && #[trigger] e[i].kind == k;
        assert(e[i].set_name == n);
    }
}

proof fn lemma_plan_named(sets: Seq<SetView>, k: FnKind, n: Seq<char>)
    ensures
        has_named(plan(sets), k, n) == exists|j: int|
            0 <= j < sets.len() && #[trigger] sets[j].name == n && has_kind(expansion(sets[j]), k),
    decreases sets.len(),
{
    if sets.len() > 0 {
        let rest = sets.drop_last();
        let last = sets.last();
        let a = plan(rest);
        let b = expansion(last);
        lemma_plan_named(rest, k, n);
        lemma_expansion_named(last, k, n);
        assert(plan(sets) == a + b);
        if has_named(plan(sets), k, n) {
            let i = choose|i: int|
                0 <= i < plan(sets).len() && #[trigger] plan(sets)[i].kind == k && plan(sets)[i].set_name
                    == n;
            if i < a.len() {
                assert(a[i] == plan(sets)[i]);
                let j = choose|j: int|
                    0 <= j < rest.len() && #[trigger] rest[j].name == n && has_kind(
                        expansion(rest[j]),
                        k,
                    );
                assert(sets[j] == rest[j]);
            } else {
                assert(b[i - a.len()] == plan(sets)[i]);
                assert(sets[sets.len() - 1] == last);
            }
        }
        if exists|j: int|
            0 <= j < sets.len() && #[trigger] sets[j].name == n && has_kind(expansion(sets[j]), k) {
            let j = choose|j: int|
                0 <= j < sets.len() && #[trigger] sets[j].name == n && has_kind(expansion(sets[j]), k);
            if j < rest.len() {
                assert(rest[j] == sets[j]);
                let i = choose|i: int| 0 <= i < a.len() && #[trigger] a[i].kind == k && a[i].set_name == n;
                assert(plan(sets)[i] == a[i]);
            } else {
                let i = choose|i: int| 0 <= i < b.len() && #[trigger] b[i].kind == k && b[i].set_name == n;
                assert(plan(sets)[a.len() + i] == b[i]);
            }
        }
    }
}

/// Among everything generated for an enum, the functions for a resolved set
/// are exactly those of that set's expansion.
pub proof fn lemma_generated_for_set(vs: Seq<Variant>, j: int, k: FnKind)
    requires
        0 <= j < resolve_pass(vs).sets.len(),
    ensures
        has_named(plan(resolve_pass(vs).sets), k, resolve_pass(vs).sets[j].name) == has_kind(
            expansion(resolve_pass(vs).sets[j]),
            k,
        ),
{
    let sets = resolve_pass(vs).sets;
    lemma_resolve_evolves(vs, vs.len() as int);
    lemma_plan_named(sets, k, sets[j].name);
}

/// For a resolved set of an enum that generates without error: with neither
/// default, only fallible conversions are generated for it; with both, the
/// strict ones are, and the fallible ones only where `try` was requested.
pub proof fn lemma_defaults_decide_generated(vs: Seq<Variant>, j: int)
    requires
        resolve_pass(vs).errors.len() == 0,
        0 <= j < resolve_pass(vs).sets.len(),
    ensures
        ({
            let s = resolve_pass(vs).sets[j];
            let fs = enum_map_result(vs)->Ok_0;
            &&& enum_map_result(vs) is Ok
            &&& s.default_to is None && s.default_from is None ==> {
                &&& !has_named(fs, FnKind::To, s.name)
                &&& !has_named(fs, FnKind::From, s.name)
                &&& has_named(fs, FnKind::TryTo, s.name) == s.create_to
                &&& has_named(fs, FnKind::TryFrom, s.name) == s.create_from
            }
            &&& s.default_to is Some && s.default_from is Some ==> {
                &&& has_named(fs, FnKind::To, s.name) == s.create_to
                &&& has_named(fs, FnKind::TryTo, s.name) == (s.create_to && s.create_try)
                &&& has_named(fs, FnKind::From, s.name) == s.create_from
                &&& has_named(fs, FnKind::TryFrom, s.name) == (s.create_from && s.create_try)
            }
        }),
{
    let s = resolve_pass(vs).sets[j];
    lemma_generated_for_set(vs, j, FnKind::To);
    lemma_generated_for_set(vs, j, FnKind::TryTo);
    lemma_generated_for_set(vs, j, FnKind::From);
    lemma_generated_for_set(vs, j, FnKind::TryFrom);
    if s.default_to is None && s.default_from is None {
        lemma_no_defaults_only_fallible(s);
    }
    if s.default_to is Some && s.default_from is Some {
        lemma_defaults_strict(s);
    }
}

/// A directive that joined a set: the set's index and the directive after
/// its defaults were filled in.
pub ghost struct Joined {
    pub target: int,
    pub d: DirectiveView,
}

/// The set that an annotation joins, when it does so without error.
pub open spec fn attr_target(
    sets: Seq<SetView>,
    ident: Seq<char>,
    has_fields: bool,
    idx: int,
    seen: Seq<Seq<char>>,
    attr: Attribute,
) -> Option<Joined> {
    match crate::directive::directive_syntax(crate::input::tokens_view(attr.args@), attr.span) {
        Err(_) => None,
        Ok(raw) => {
            let d = crate::directive::finalized(raw, ident);
            let t: Option<int> = match d.name {
                Some(n) => if seen.contains(n) {
                    None
                } else {
                    match find_set(sets, n) {
                        Some(t) => Some(t),
                        None => Some(sets.len() as int),
                    }
                },
                None => if 0 <= idx < sets.len() && !seen.contains(sets[idx].name) {
                    Some(idx)
                } else {
                    None
                },
            };
            match t {
                Some(t) => if join(
                    sets,
                    if t < sets.len() {
                        Some(t)
                    } else {
                        None
                    },
                    d,
                    ident,
                    has_fields,
                ) is Ok {
                    Some(Joined { target: t, d })
                } else {
                    None
                },
                None => None,
            }
        },
    }
}

/// The directives of one variant that joined a set, in order.
pub open spec fn variant_log(p: Pass, ident: Seq<char>, has_fields: bool, dirs: Seq<Attribute>) -> Seq<
    Joined,
>
    decreases dirs.len(),
{
    if dirs.len() == 0 {
        Seq::empty()
    } else {
        let prev = variant_pass(p, ident, has_fields, dirs.drop_last());
        let log = variant_log(p, ident, has_fields, dirs.drop_last());
        match attr_target(prev.0.sets, ident, has_fields, dirs.len() - 1, prev.1, dirs.last()) {
            Some(j) => log.push(j),
            None => log,
        }
    }
}

/// Every directive of an enum that joined a set, in the order of the pass.
pub open spec fn resolve_log(vs: Seq<Variant>) -> Seq<Joined>
    decreases vs.len(),
{
    if vs.len() == 0 {
        Seq::empty()
    } else {
        let v = vs.last();
        resolve_log(vs.drop_last()) + variant_log(
            resolve_pass(vs.drop_last()),
            v.ident@,
            v.has_fields,
            directives_in(v.attrs@),
        )
    }
}

/// The first default string among the directives that joined set `k`.
pub open spec fn first_default_to(log: Seq<Joined>, k: int) -> Option<Seq<char>>
    decreases log.len(),
{
    if log.len() == 0 {
        None
    } else {
        let prev = first_default_to(log.drop_last(), k);
        if prev is Some {
            prev
        } else if log.last().target == k {
            log.last().d.default_to
        } else {
            None
        }
    }
}

/// The first default variant among the directives that joined set `k`.
pub open spec fn first_default_from(log: Seq<Joined>, k: int) -> Option<Seq<char>>
    decreases log.len(),
{
    if log.len() == 0 {
        None
    } else {
        let prev = first_default_from(log.drop_last(), k);
        if prev is Some {
            prev
        } else if log.last().target == k {
            log.last().d.default_from
        } else {
            None
        }
    }
}

/// Each set is the fold of the directives that joined it: forward and
/// reverse generation stay on only if no such directive disabled them,
/// `try` is on if any requested it, and each default is the first one given.
pub open spec fn sets_fold_log(sets: Seq<SetView>, log: Seq<Joined>) -> bool {
    &&& forall|i: int| 0 <= i < log.len() ==> 0 <= #[trigger] log[i].target < sets.len()
    &&& forall|k: int|
        #![trigger sets[k]]
        0 <= k < sets.len() ==> {
            &&& sets[k].create_to == forall|i: int|
                0 <= i < log.len() && #[trigger] log[i].target == k ==> log[i].d.create_to
            &&& sets[k].create_from == forall|i: int|
                0 <= i < log.len() && #[trigger] log[i].target == k ==> log[i].d.create_from
            &&& sets[k].create_try == exists|i: int|
                0 <= i < log.len() && #[trigger] log[i].target == k && log[i].d.create_try
            &&& sets[k].default_to == first_default_to(log, k)
            &&& sets[k].default_from == first_default_from(log, k)
        }
}

proof fn lemma_first_defaults_absent(log: Seq<Joined>, k: int)
    requires
        forall|i: int| 0 <= i < log.len() ==> #[trigger] log[i].target != k,
    ensures
        first_default_to(log, k) is None,
        first_default_from(log, k) is None,
    decreases log.len(),
{
    if log.len() > 0 {
        let rest = log.drop_last();
        assert forall|i: int| 0 <= i < rest.len() implies #[trigger] rest[i].target != k by {
            assert(rest[i] == log[i]);
        }
        lemma_first_defaults_absent(rest, k);
        assert(log.last() == log[log.len() - 1]);
    }
}

proof fn lemma_fold_push(sets: Seq<SetView>, log: Seq<Joined>, b: Seq<SetView>, j: Joined)
    requires
        sets_fold_log(sets, log),
        0 <= j.target <= sets.len(),
        j.target < sets.len() ==> {
            &&& b.len() == sets.len()
            &&& forall|k: int| 0 <= k < sets.len() && k != j.target ==> b[k] == sets[k]
            &&& b[j.target].create_to == (sets[j.target].create_to && j.d.create_to)
            &&& b[j.target].create_from == (sets[j.target].create_from && j.d.create_from)
            &&& b[j.target].create_try == (sets[j.target].create_try || j.d.create_try)
            &&& b[j.target].default_to == if sets[j.target].default_to is Some {
                sets[j.target].default_to
            } else {
                j.d.default_to
            }
            &&& b[j.target].default_from == if sets[j.target].default_from is Some {
                sets[j.target].default_from
            } else {
                j.d.default_from
            }
        },
        j.target == sets.len() ==> {
            &&& b.len() == sets.len() + 1
            &&& forall|k: int| 0 <= k < sets.len() ==> b[k] == sets[k]
            &&& b[j.target].create_to == j.d.create_to
            &&& b[j.target].create_from == j.d.create_from
            &&& b[j.target].create_try == j.d.create_try
            &&& b[j.target].default_to == j.d.default_to
            &&& b[j.target].default_from == j.d.default_from
        },
    ensures
        sets_fold_log(b, log.push(j)),
{
    let nl = log.push(j);
    let t = j.target;
    assert(nl.drop_last() =~= log);
    assert(nl.last() == j);
    assert forall|i: int| 0 <= i < nl.len() implies 0 <= #[trigger] nl[i].target < b.len() by {
        if i < log.len() {
            assert(nl[i] == log[i]);
        }
    }
    if t == sets.len() {
        assert forall|i: int| 0 <= i < log.len() implies #[trigger] log[i].target != t by {}
        lemma_first_defaults_absent(log, t);
    }
    assert forall|k: int| #![trigger b[k]] 0 <= k < b.len() implies {
        &&& b[k].create_to == forall|i: int|
            0 <= i < nl.len() && #[trigger] nl[i].target == k ==> nl[i].d.create_to
        &&& b[k].create_from == forall|i: int|
            0 <= i < nl.len() && #[trigger] nl[i].target == k ==> nl[i].d.create_from
        &&& b[k].create_try == exists|i: int|
            0 <= i < nl.len() && #[trigger] nl[i].target == k && nl[i].d.create_try
        &&& b[k].default_to == first_default_to(nl, k)
        &&& b[k].default_from == first_default_from(nl, k)
    } by {
        assert(forall|i: int| 0 <= i < log.len() ==> nl[i] == log[i]);
        assert(nl[log.len() as int] == j);
        if k < sets.len() {
            assert(sets[k].create_to == forall|i: int|
                0 <= i < log.len() && #[trigger] log[i].target == k ==> log[i].d.create_to);
            assert(sets[k].create_from == forall|i: int|
                0 <= i < log.len() && #[trigger] log[i].target == k ==> log[i].d.create_from);
            assert(sets[k].create_try == exists|i: int|
                0 <= i < log.len() && #[trigger] log[i].target == k && log[i].d.create_try);
            if sets[k].create_try {
                let w = choose|i: int| 0 <= i < log.len() && #[trigger] log[i].target == k && log[i].d.create_try;
                assert(nl[w] == log[w]);
            }
            if !sets[k].create_to {
                let w = choose|i: int| 0 <= i < log.len() && #[trigger] log[i].target == k && !log[i].d.create_to;
                assert(nl[w] == log[w]);
            }
            if !sets[k].create_from {
                let w = choose|i: int| 0 <= i < log.len() && #[trigger] log[i].target == k && !log[i].d.create_from;
                assert(nl[w] == log[w]);
            }
        } else {
            assert(forall|i: int| 0 <= i < log.len() ==> #[trigger] log[i].target != k);
        }
    }
}

proof fn lemma_attr_fold(
    sets: Seq<SetView>,
    ident: Seq<char>,
    has_fields: bool,
    idx: int,
    seen: Seq<Seq<char>>,
    attr: Attribute,
    log: Seq<Joined>,
)
    requires
        sets_fold_log(sets, log),
    ensures
        ({
            let o = attr_outcome(sets, ident, has_fields, idx, seen, attr);
            let jt = attr_target(sets, ident, has_fields, idx, seen, attr);
            match o.sets {
                Ok(b) => jt is Some && sets_fold_log(b, log.push(jt->Some_0)),
                Err(_) => jt is None,
            }
        }),
{
    if let Ok(raw) = crate::directive::directive_syntax(
        crate::input::tokens_view(attr.args@),
        attr.span,
    ) {
        let d = crate::directive::finalized(raw, ident);
        let o = attr_outcome(sets, ident, has_fields, idx, seen, attr);
        match d.name {
            Some(n) => {
                if !seen.contains(n) {
                    lemma_find_set_in_range(sets, n, 0);
                    match find_set(sets, n) {
                        Some(t) => {
                            lemma_join_existing(sets, t, d, ident, has_fields);
                            if let Ok(b) = o.sets {
                                lemma_fold_push(sets, log, b, Joined { target: t, d });
                            }
                        },
                        None => {
                            lemma_join_good(sets, None, d, ident, has_fields);
                            if let Ok(b) = o.sets {
                                assert(b[sets.len() as int] == created(d, ident, has_fields));
                                lemma_fold_push(
                                    sets,
                                    log,
                                    b,
                                    Joined { target: sets.len() as int, d },
                                );
                            }
                        },
                    }
                }
            },
            None => {
                if 0 <= idx < sets.len() && !seen.contains(sets[idx].name) {
                    lemma_join_existing(sets, idx, d, ident, has_fields);
                    if let Ok(b) = o.sets {
                        lemma_fold_push(sets, log, b, Joined { target: idx, d });
                    }
                }
            },
        }
    }
}

proof fn lemma_variant_fold(
    p: Pass,
    ident: Seq<char>,
    has_fields: bool,
    dirs: Seq<Attribute>,
    log: Seq<Joined>,
)
    requires
        sets_fold_log(p.sets, log),
    ensures
        sets_fold_log(
            variant_pass(p, ident, has_fields, dirs).0.sets,
            log + variant_log(p, ident, has_fields, dirs),
        ),
    decreases dirs.len(),
{
    if dirs.len() == 0 {
        assert(log + variant_log(p, ident, has_fields, dirs) =~= log);
    } else {
        let rest = dirs.drop_last();
        let prev = variant_pass(p, ident, has_fields, rest);
        let vlog = variant_log(p, ident, has_fields, rest);
        lemma_variant_fold(p, ident, has_fields, rest, log);
        lemma_attr_fold(prev.0.sets, ident, has_fields, dirs.len() - 1, prev.1, dirs.last(), log + vlog);
        let jt = attr_target(prev.0.sets, ident, has_fields, dirs.len() - 1, prev.1, dirs.last());
        if let Some(j) = jt {
            assert((log + vlog).push(j) =~= log + vlog.push(j));
        }
    }
}

/// Over a whole pass, every resolved set is the fold of the directives that
/// joined it, in the order they were read (`resolve_log`): `no_to` or
/// `no_from` on any of them, earlier or later, disables that direction for
/// the set; `try` on any of them enables the fallible conversions; each
/// default is the first one that any of them gave, later ones never override
/// it.
pub proof fn lemma_sets_fold_directives(vs: Seq<Variant>)
    ensures
        sets_fold_log(resolve_pass(vs).sets, resolve_log(vs)),
    decreases vs.len(),
{
    if vs.len() > 0 {
        let rest = vs.drop_last();
        let v = vs.last();
        lemma_sets_fold_directives(rest);
        lemma_variant_fold(
            resolve_pass(rest),
            v.ident@,
            v.has_fields,
            directives_in(v.attrs@),
            resolve_log(rest),
        );
    }
}

/// First-write-wins over a whole pass: where directive `i` of the pass is
/// the first joining set `k` to give a default string (resp. variant), that
/// is the set's default, whatever later directives give.
pub proof fn lemma_default_from_first_directive(vs: Seq<Variant>, k: int, i: int)
    requires
        0 <= i < resolve_log(vs).len(),
        resolve_log(vs)[i].target == k,
    ensures
        ({
            let log = resolve_log(vs);
            let s = resolve_pass(vs).sets[k];
            &&& 0 <= k < resolve_pass(vs).sets.len()
            &&& log[i].d.default_to is Some && (forall|m: int|
                0 <= m < i && #[trigger] log[m].target == k ==> log[m].d.default_to is None)
                ==> s.default_to == log[i].d.default_to
            &&& log[i].d.default_from is Some && (forall|m: int|
                0 <= m < i && #[trigger] log[m].target == k ==> log[m].d.default_from is None)
                ==> s.default_from == log[i].d.default_from
        }),
{
    let log = resolve_log(vs);
    lemma_sets_fold_directives(vs);
    assert(0 <= log[i].target < resolve_pass(vs).sets.len());
    let sets = resolve_pass(vs).sets;
    assert(sets[k].default_to == first_default_to(log, k));
    assert(sets[k].default_from == first_default_from(log, k));
    lemma_first_default_one(log, k, i);
}

/// The default string and the default variant, each on its own.
proof fn lemma_first_default_one(log: Seq<Joined>, k: int, i: int)
    requires
        0 <= i < log.len(),
        log[i].target == k,
    ensures
        log[i].d.default_to is Some && (forall|m: int|
            0 <= m < i && #[trigger] log[m].target == k ==> log[m].d.default_to is None)
            ==> first_default_to(log, k) == log[i].d.default_to,
        log[i].d.default_from is Some && (forall|m: int|
            0 <= m < i && #[trigger] log[m].target == k ==> log[m].d.default_from is None)
            ==> first_default_from(log, k) == log[i].d.default_from,
    decreases log.len(),
{
    let rest = log.drop_last();
    if i < log.len() - 1 {
        assert(rest[i] == log[i]);
        assert(forall|m: int| 0 <= m < i ==> rest[m] == log[m]);
        lemma_first_default_one(rest, k, i);
    } else {
        if log[i].d.default_to is Some && (forall|m: int|
            0 <= m < i && #[trigger] log[m].target == k ==> log[m].d.default_to is None) {
            lemma_first_to_none(rest, k);
        }
        if log[i].d.default_from is Some && (forall|m: int|
            0 <= m < i && #[trigger] log[m].target == k ==> log[m].d.default_from is None) {
            lemma_first_from_none(rest, k);
        }
    }
}

proof fn lemma_first_to_none(log: Seq<Joined>, k: int)
    requires
        forall|m: int| 0 <= m < log.len() && #[trigger] log[m].target == k ==> log[m].d.default_to is None,
    ensures
        first_default_to(log, k) is None,
    decreases log.len(),
{
    if log.len() > 0 {
        let rest = log.drop_last();
        assert(forall|m: int| 0 <= m < rest.len() ==> rest[m] == log[m]);
        lemma_first_to_none(rest, k);
        assert(log.last() == log[log.len() - 1]);
    }
}

proof fn lemma_first_from_none(log: Seq<Joined>, k: int)
    requires
        forall|m: int| 0 <= m < log.len() && #[trigger] log[m].target == k ==> log[m].d.default_from is None,
    ensures
        first_default_from(log, k) is None,
    decreases log.len(),
{
    if log.len() > 0 {
        let rest = log.drop_last();
        assert(forall|m: int| 0 <= m < rest.len() ==> rest[m] == log[m]);
        lemma_first_from_none(rest, k);
        assert(log.last() == log[log.len() - 1]);
    }
}

} // verus!
