//! Planning the code generated for resolved mapping sets.
//!
//! For a set `n`, the forward direction (variant to string) yields `to_n`
//! when a default string is known and `try_to_n` (returning an option) when
//! none is, or when `try` was requested; likewise the reverse direction yields
//! `from_n` and `try_from_n`, whose arms leave out variants that carry data.
//! A set that claims `Display` also yields an implementation of it.
use vstd::prelude::*;

use crate::resolve::{rules_view, MappingSet, Rule, RuleView, SetView};

verus! {

#[derive(Clone, Copy, Debug, PartialEq, Eq, Structural)]
pub enum FnKind {
    /// `to_<set>(&self) -> &'static str`
    To,
    /// `try_to_<set>(&self) -> Option<&'static str>`
    TryTo,
    /// `from_<set>(s: &str) -> Self`
    From,
    /// `try_from_<set>(s: &str) -> Option<Self>`
    TryFrom,
    /// `impl Display`
    Display,
}

/// Whether a function maps variants to strings (rather than strings to
/// variants).
pub open spec fn is_forward(k: FnKind) -> bool {
    k == FnKind::To || k == FnKind::TryTo || k == FnKind::Display
}

/// One function to generate: its kind, the set it belongs to, its match arms
/// in order, and the result of its fallback arm (`None`: the function returns
/// `None` there).
pub struct GeneratedFn {
    pub kind: FnKind,
    pub set_name: String,
    pub arms: Vec<Rule>,
    pub fallback: Option<String>,
}

pub ghost struct FnView {
    pub kind: FnKind,
    pub set_name: Seq<char>,
    pub arms: Seq<RuleView>,
    pub fallback: Option<Seq<char>>,
}

impl View for GeneratedFn {
    type V = FnView;

    open spec fn view(&self) -> FnView {
        FnView {
            kind: self.kind,
            set_name: self.set_name@,
            arms: rules_view(self.arms@),
            fallback: crate::directive::opt_view(self.fallback),
        }
    }
}

pub open spec fn fns_view(f: Seq<GeneratedFn>) -> Seq<FnView> {
    f.map_values(|x: GeneratedFn| x@)
}

/// The rules of variants without data: the only ones a string can be turned
/// back into.
pub open spec fn field_less(rules: Seq<RuleView>) -> Seq<RuleView>
    decreases rules.len(),
{
    if rules.len() == 0 {
        Seq::empty()
    } else if rules.last().has_fields {
        field_less(rules.drop_last())
    } else {
        field_less(rules.drop_last()).push(rules.last())
    }
}

pub open spec fn gen_fn(
    kind: FnKind,
    s: SetView,
    arms: Seq<RuleView>,
    fallback: Option<Seq<char>>,
) -> FnView {
    FnView { kind, set_name: s.name, arms, fallback }
}

pub open spec fn forward_fns(s: SetView) -> Seq<FnView> {
    if !s.create_to {
        Seq::empty()
    } else {
        match s.default_to {
            Some(d) => if s.create_try {
                seq![gen_fn(FnKind::To, s, s.rules, Some(d)), gen_fn(FnKind::TryTo, s, s.rules, None)]
            } else {
                seq![gen_fn(FnKind::To, s, s.rules, Some(d))]
            },
            None => seq![gen_fn(FnKind::TryTo, s, s.rules, None)],
        }
    }
}

pub open spec fn reverse_fns(s: SetView) -> Seq<FnView> {
    let arms = field_less(s.rules);
    if !s.create_from {
        Seq::empty()
    } else {
        match s.default_from {
            Some(d) => if s.create_try {
                seq![gen_fn(FnKind::From, s, arms, Some(d)), gen_fn(FnKind::TryFrom, s, arms, None)]
            } else {
                seq![gen_fn(FnKind::From, s, arms, Some(d))]
            },
            None => seq![gen_fn(FnKind::TryFrom, s, arms, None)],
        }
    }
}

/// The string that `Display` shows for a variant without a rule.
pub open spec fn display_fallback(s: SetView) -> Seq<char> {
    match s.default_to {
        Some(d) => d,
        None => "Unknown variant"@,
    }
}

pub open spec fn display_fns(s: SetView) -> Seq<FnView> {
    if s.impl_display {
        seq![gen_fn(FnKind::Display, s, s.rules, Some(display_fallback(s)))]
    } else {
        Seq::empty()
    }
}

/// Everything generated for one set, in order.
pub open spec fn expansion(s: SetView) -> Seq<FnView> {
    forward_fns(s) + reverse_fns(s) + display_fns(s)
}

/// Everything generated for a list of sets, set by set.
pub open spec fn plan(sets: Seq<SetView>) -> Seq<FnView>
    decreases sets.len(),
{
    if sets.len() == 0 {
        Seq::empty()
    } else {
        plan(sets.drop_last()) + expansion(sets.last())
    }
}

/// The first arm, from index `i` on, for variant `v`.
pub open spec fn arm_for_variant(arms: Seq<RuleView>, v: Seq<char>, i: int) -> Option<Seq<char>>
    decreases arms.len() - i,
{
    if i < 0 || i >= arms.len() {
        None
    } else if arms[i].variant == v {
        Some(arms[i].value)
    } else {
        arm_for_variant(arms, v, i + 1)
    }
}

/// The first arm, from index `i` on, for string `s`.
pub open spec fn arm_for_value(arms: Seq<RuleView>, s: Seq<char>, i: int) -> Option<Seq<char>>
    decreases arms.len() - i,
{
    if i < 0 || i >= arms.len() {
        None
    } else if arms[i].value == s {
        Some(arms[i].variant)
    } else {
        arm_for_value(arms, s, i + 1)
    }
}

/// What a generated function returns: a forward one, given a variant's name,
/// its string; a reverse one, given a string, the name of the variant. The
/// first matching arm wins; with none, the fallback arm decides.
pub open spec fn call(f: FnView, input: Seq<char>) -> Option<Seq<char>> {
    let hit = if is_forward(f.kind) {
        arm_for_variant(f.arms, input, 0)
    } else {
        arm_for_value(f.arms, input, 0)
    };
    match hit {
        Some(r) => Some(r),
        None => f.fallback,
    }
}

fn copy_rule(r: &Rule) -> (c: Rule)
    ensures
        c@ == r@,
{
    Rule { variant: r.variant.clone(), value: r.value.clone(), has_fields: r.has_fields }
}


/// All rules, or only those of variants without data.
fn select_rules(rules: &Vec<Rule>, field_less_only: bool) -> (r: Vec<Rule>)
    ensures
        rules_view(r@) == if field_less_only {
            field_less(rules_view(rules@))
        } else {
            rules_view(rules@)
        },
{
    let ghost rv = rules_view(rules@);
    let mut out: Vec<Rule> = Vec::new();
    let mut i: usize = 0;
    while i < rules.len()
        invariant
            0 <= i <= rules.len(),
            rv == rules_view(rules@),
            rules_view(out@) == if field_less_only {
                field_less(rv.take(i as int))
            } else {
                rv.take(i as int)
            },
        decreases rules.len() - i,
    {
        let ghost before = rules_view(out@);
        proof {
            assert(rv.take(i + 1).drop_last() =~= rv.take(i as int));
            assert(rv.take(i + 1).last() == rules@[i as int]@);
        }
        if !field_less_only || !rules[i].has_fields {
            out.push(copy_rule(&rules[i]));
            proof {
                assert(rules_view(out@) =~= before.push(rules@[i as int]@));
                if !field_less_only {
                    assert(rv.take(i as int).push(rv[i as int]) =~= rv.take(i + 1));
                }
            }
        }
        i = i + 1;
    }
    proof {
        assert(rv.take(i as int) =~= rv);
    }
    out
}

impl MappingSet {
    fn gen(&self, kind: FnKind, field_less_only: bool, fallback: Option<String>) -> (r: GeneratedFn)
        ensures
            r@ == gen_fn(
                kind,
                self@,
                if field_less_only {
                    field_less(self@.rules)
                } else {
                    self@.rules
                },
                crate::directive::opt_view(fallback),
            ),
    {
        GeneratedFn {
            kind,
            set_name: self.name.clone(),
            arms: select_rules(&self.rules, field_less_only),
            fallback,
        }
    }

    /// The forward functions: `to_<set>` and `try_to_<set>`.
    pub fn create_to(&self) -> (r: Vec<GeneratedFn>)
        ensures
            fns_view(r@) == forward_fns(self@),
    {
        let mut out: Vec<GeneratedFn> = Vec::new();
        if !self.create_to {
            proof {
                assert(fns_view(out@) =~= forward_fns(self@));
            }
            return out;
        }
        match &self.default_to {
            Some(d) => {
                out.push(self.gen(FnKind::To, false, Some(d.clone())));
                if self.create_try {
                    out.push(self.gen(FnKind::TryTo, false, None));
                }
            },
            None => {
                out.push(self.gen(FnKind::TryTo, false, None));
            },
        }
        proof {
            assert(fns_view(out@) =~= forward_fns(self@));
        }
        out
    }

    /// The reverse functions: `from_<set>` and `try_from_<set>`.
    pub fn create_from(&self) -> (r: Vec<GeneratedFn>)
        ensures
            fns_view(r@) == reverse_fns(self@),
    {
        let mut out: Vec<GeneratedFn> = Vec::new();
        if !self.create_from {
            proof {
                assert(fns_view(out@) =~= reverse_fns(self@));
            }
            return out;
        }
        match &self.default_from {
            Some(d) => {
                out.push(self.gen(FnKind::From, true, Some(d.clone())));
                if self.create_try {
                    out.push(self.gen(FnKind::TryFrom, true, None));
                }
            },
            None => {
                out.push(self.gen(FnKind::TryFrom, true, None));
            },
        }
        proof {
            assert(fns_view(out@) =~= reverse_fns(self@));
        }
        out
    }

    /// The `Display` implementation, when this set claims it.
    pub fn create_display(&self) -> (r: Vec<GeneratedFn>)
        ensures
            fns_view(r@) == display_fns(self@),
    {
        let mut out: Vec<GeneratedFn> = Vec::new();
        if self.impl_display {
            let fallback = match &self.default_to {
                Some(d) => d.clone(),
                None => String::from_str("Unknown variant"),
            };
            out.push(self.gen(FnKind::Display, false, Some(fallback)));
        }
        proof {
            assert(fns_view(out@) =~= display_fns(self@));
        }
        out
    }

    /// Everything generated for this set.
    pub fn expand(&self) -> (r: Vec<GeneratedFn>)
        ensures
            fns_view(r@) == expansion(self@),
    {
        let mut out = self.create_to();
        let mut from = self.create_from();
        let mut display = self.create_display();
        let ghost (a, b, c) = (fns_view(out@), fns_view(from@), fns_view(display@));
        out.append(&mut from);
        out.append(&mut display);
        proof {
            assert(fns_view(out@) =~= a + b + c);
        }
        out
    }
}

/// The name of the generated function for a kind and a set name.
pub open spec fn fn_name(kind: FnKind, set_name: Seq<char>) -> Seq<char> {
    match kind {
        FnKind::To => "to_"@ + set_name,
        FnKind::TryTo => "try_to_"@ + set_name,
        FnKind::From => "from_"@ + set_name,
        FnKind::TryFrom => "try_from_"@ + set_name,
        FnKind::Display => "fmt"@,
    }
}

impl GeneratedFn {
    pub fn is_forward(&self) -> (r: bool)
        ensures
            r == is_forward(self.kind),
    {
        match self.kind {
            FnKind::To | FnKind::TryTo | FnKind::Display => true,
            FnKind::From | FnKind::TryFrom => false,
        }
    }

    /// The name under which this function is generated.
    pub fn fn_name(&self) -> (r: String)
        ensures
            r@ == fn_name(self.kind, self.set_name@),
    {
        match self.kind {
            FnKind::To => String::from_str("to_").concat(self.set_name.as_str()),
            FnKind::TryTo => String::from_str("try_to_").concat(self.set_name.as_str()),
            FnKind::From => String::from_str("from_").concat(self.set_name.as_str()),
            FnKind::TryFrom => String::from_str("try_from_").concat(self.set_name.as_str()),
            FnKind::Display => String::from_str("fmt"),
        }
    }

    /// What the generated function returns for `input`: a variant's name for
    /// a forward function, a string for a reverse one.
    pub fn call(&self, input: &String) -> (r: Option<String>)
        ensures
            crate::directive::opt_view(r) == call(self@, input@),
    {
        let forward = self.is_forward();
        let ghost av = rules_view(self.arms@);
        let mut i: usize = 0;
        while i < self.arms.len()
            invariant
                0 <= i <= self.arms.len(),
                av == rules_view(self.arms@),
                forward == is_forward(self.kind),
                forward ==> arm_for_variant(av, input@, 0) == arm_for_variant(av, input@, i as int),
                !forward ==> arm_for_value(av, input@, 0) == arm_for_value(av, input@, i as int),
            decreases self.arms.len() - i,
        {
            let arm = &self.arms[i];
            if forward {
                if arm.variant.eq(input) {
                    return Some(arm.value.clone());
                }
            } else {
                if arm.value.eq(input) {
                    return Some(arm.variant.clone());
                }
            }
            i = i + 1;
        }
        crate::directive::copy_opt(&self.fallback)
    }
}

} // verus!
