//! Bidirectional string mappings for enum variants.
//!
//! The library takes a structured view of one enum declaration (its variants,
//! and on each variant the argument lists of its `mapstr` annotations), groups
//! the annotations into named mapping sets, resolves their options, and plans
//! the conversion functions that a code generator renders for each set.
use vstd::prelude::*;

pub mod diagnostic;
pub mod input;
pub mod directive;
pub mod resolve;
pub mod emit;
pub mod laws;

use crate::diagnostic::{diagnostics_view, Diagnostic, DiagnosticView};
use crate::emit::{fns_view, plan, FnView, GeneratedFn};
use crate::input::Variant;
use crate::resolve::{resolve_pass, sets_view, MappingSet, Mappings};

verus! {

/// What the generator produces for an enum: the functions of every resolved
/// set, or, when any annotation is wrong, every error and nothing else.
pub open spec fn enum_map_result(vs: Seq<Variant>) -> Result<Seq<FnView>, Seq<DiagnosticView>> {
    let p = resolve_pass(vs);
    if p.errors.len() == 0 {
        Ok(plan(p.sets))
    } else {
        Err(p.errors)
    }
}

/// The functions to generate for resolved sets, set by set.
pub fn expand_all(sets: &Vec<MappingSet>) -> (r: Vec<GeneratedFn>)
    ensures
        fns_view(r@) == plan(sets_view(sets@)),
{
    let ghost sv = sets_view(sets@);
    let mut out: Vec<GeneratedFn> = Vec::new();
    let mut i: usize = 0;
    while i < sets.len()
        invariant
            0 <= i <= sets.len(),
            sv == sets_view(sets@),
            fns_view(out@) == plan(sv.take(i as int)),
        decreases sets.len() - i,
    {
        let ghost before = fns_view(out@);
        let mut more = sets[i].expand();
        let ghost added = fns_view(more@);
        out.append(&mut more);
        proof {
            assert(sv.take(i + 1).drop_last() =~= sv.take(i as int));
            assert(sv.take(i + 1).last() == sets@[i as int]@);
            assert(fns_view(out@) =~= before + added);
        }
        i = i + 1;
    }
    proof {
        assert(sv.take(i as int) =~= sv);
    }
    out
}

/// Resolves the mapping sets of an enum's variants and plans the functions to
/// generate for them.
pub fn enum_map(variants: &Vec<Variant>) -> (r: Result<Vec<GeneratedFn>, Vec<Diagnostic>>)
    ensures
        match r {
            Ok(f) => enum_map_result(variants@) == Ok::<Seq<FnView>, Seq<DiagnosticView>>(
                fns_view(f@),
            ),
            Err(e) => enum_map_result(variants@) == Err::<Seq<FnView>, Seq<DiagnosticView>>(
                diagnostics_view(e@),
            ),
        },
{
    match Mappings::parse(variants) {
        Ok(sets) => Ok(expand_all(&sets)),
        Err(e) => Err(e),
    }
}

} // verus!
