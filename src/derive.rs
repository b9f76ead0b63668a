use vstd::prelude::*;
use crate::case::{cases_of_variant, get_cases, groups_view, redefines_field};
use crate::generate::{arms_of, body_of, generatable, never_binds, subject_of, ArmView, BodyView, GeneratedFunction};
use crate::semantics::law_never_excluded;
use crate::model::{
    cases_view, BindError, Binding, BindingView, Case, CaseView, ErrorView, FunctionSpec, FunctionSpecView, OutputMode, Signature, VariantDecl,
    VariantView,
};
use crate::parse::{binding_group, check_expression, refused_expression, parse_binding_group, spec_view_of, suffix_of, tokens_view, Token, TokenView};
use crate::validate::{validation, well_formed_cases};

verus! {

/// One variant of the union with the token lists of its binding annotations.
#[derive(Debug, PartialEq, Eq)]
pub struct VariantInput {
    pub decl: VariantDecl,
    pub groups: Vec<Vec<Token>>,
}

/// One function annotation: visibility, signature, and the tokens after the signature.
#[derive(Debug, PartialEq, Eq)]
pub struct FunctionInput {
    pub visibility: String,
    pub signature: Signature,
    pub suffix: Vec<Token>,
}

/// The view of annotation token lists.
pub open spec fn token_groups_view(gs: Seq<Vec<Token>>) -> Seq<Seq<TokenView>> {
    gs.map_values(|g: Vec<Token>| tokens_view(g@))
}

/// Every group parses; the parsed groups, in order.
pub open spec fn parsed_groups(gs: Seq<Seq<TokenView>>) -> Option<Seq<Seq<BindingView>>>
    decreases gs.len(),
{
    if gs.len() == 0 {
        Some(Seq::empty())
    } else {
        match (parsed_groups(gs.drop_last()), binding_group(gs.last())) {
            (Some(prev), Ok(g)) => Some(prev.push(g)),
            _ => None,
        }
    }
}

/// The variant's annotations all parse and none redefines a stored field.
pub open spec fn variant_ok(v: VariantView, gs: Seq<Seq<TokenView>>) -> bool {
    &&& parsed_groups(gs) is Some
    &&& forall|gi: int| 0 <= gi < parsed_groups(gs).unwrap().len()
        ==> !redefines_field(v, #[trigger] parsed_groups(gs).unwrap()[gi])
}

/// The cases of every variant, variant by variant, in order.
pub open spec fn union_cases(vs: Seq<VariantInput>) -> Seq<CaseView>
    decreases vs.len(),
{
    if vs.len() == 0 {
        Seq::empty()
    } else {
        let v = vs.last();
        union_cases(vs.drop_last()) + cases_of_variant(
            v.decl@,
            parsed_groups(token_groups_view(v.groups@)).unwrap(),
        )
    }
}

/// What one function annotation gives over the cases: the body generated for it,
/// or the error of its suffix or of its validation.
pub open spec fn function_outcome(f: FunctionInput, cases: Seq<CaseView>) -> Result<BodyView, ErrorView> {
    match suffix_of(tokens_view(f.suffix@)) {
        Err(e) => Err(e),
        Ok((m, n)) => {
            let s = spec_view_of(f.signature, m, n);
            match validation(s, cases) {
                Some(e) => Err(e),
                None => Ok(body_of(s, cases)),
            }
        },
    }
}

/// `g` is what the annotation `f` generates over the cases: the body of its
/// outcome, its visibility and signature as written, and the value it matches on.
pub open spec fn generated_as(f: FunctionInput, cases: Seq<CaseView>, g: GeneratedFunction) -> bool {
    &&& function_outcome(f, cases) == Ok::<BodyView, ErrorView>(g.body@)
    &&& g.visibility@ == f.visibility@
    &&& g.signature@ == f.signature.text@
    &&& suffix_of(tokens_view(f.suffix@)) matches Ok((m, n)) && g.subject@ == subject_of(
        spec_view_of(f.signature, m, n),
    )
}

fn parse_groups(groups: &Vec<Vec<Token>>) -> (r: Result<Vec<Vec<Binding>>, BindError>)
    ensures
        r matches Ok(gs) ==> parsed_groups(token_groups_view(groups@)) == Some(groups_view(gs@)),
        r is Err ==> parsed_groups(token_groups_view(groups@)) is None,
{
    let ghost tg = token_groups_view(groups@);
    let mut out: Vec<Vec<Binding>> = Vec::new();
    let mut i: usize = 0;
    assert(tg.subrange(0, 0) =~= Seq::<Seq<TokenView>>::empty());
    assert(groups_view(out@) =~= Seq::<Seq<BindingView>>::empty());
    while i < groups.len()
        invariant
            i <= groups@.len(),
            tg == token_groups_view(groups@),
            parsed_groups(tg.subrange(0, i as int)) == Some(groups_view(out@)),
        decreases groups@.len() - i,
    {
        let ghost sub = tg.subrange(0, i as int + 1);
        assert(sub.drop_last() =~= tg.subrange(0, i as int));
        assert(sub.last() == tokens_view(groups@[i as int]@));
        match parse_binding_group(groups[i].as_slice()) {
            Ok(g) => {
                let ghost before = groups_view(out@);
                out.push(g);
                assert(groups_view(out@) =~= before.push(groups_view(out@).last()));
            },
            Err(e) => {
                proof {
                    lemma_parsed_groups_none(tg, i as int + 1);
                }
                return Err(e);
            },
        }
        i = i + 1;
    }
    assert(tg.subrange(0, groups@.len() as int) =~= tg);
    Ok(out)
}

proof fn lemma_parsed_groups_none(gs: Seq<Seq<TokenView>>, n: int)
    requires
        0 <= n <= gs.len(),
        parsed_groups(gs.subrange(0, n)) is None,
    ensures
        parsed_groups(gs) is None,
    decreases gs.len(),
{
    if gs.len() > n {
        assert(gs.drop_last().subrange(0, n) =~= gs.subrange(0, n));
        lemma_parsed_groups_none(gs.drop_last(), n);
    } else {
        assert(gs.subrange(0, n) =~= gs);
    }
}

/// Every variant's annotations parse and none redefines a named field.
pub open spec fn all_variants_ok(vs: Seq<VariantInput>) -> bool {
    forall|i: int| 0 <= i < vs.len() ==> variant_ok(#[trigger] vs[i].decl@, token_groups_view(vs[i].groups@))
}

/// The error refuses the text of an expression binding in one of the groups.
pub open spec fn refuses_in(gs: Seq<Seq<BindingView>>, e: ErrorView) -> bool {
    exists|gi: int, k: int| 0 <= gi < gs.len() && 0 <= k < gs[gi].len() && refused_expression(#[trigger] gs[gi][k], e)
}

/// The error refuses the text of an expression binding of a variant whose
/// annotations are otherwise accepted.
pub open spec fn refused_in_union(vs: Seq<VariantInput>, e: ErrorView) -> bool {
    exists|i: int|
        0 <= i < vs.len() && variant_ok(#[trigger] vs[i].decl@, token_groups_view(vs[i].groups@)) && refuses_in(
            parsed_groups(token_groups_view(vs[i].groups@)).unwrap(),
            e,
        )
}

/// Asks the expression parser about every expression binding of the groups, in
/// order. Whatever it answers, an error refuses one of their texts.
fn check_groups(groups: &Vec<Vec<Binding>>) -> (r: Result<(), BindError>)
    ensures
        r matches Err(e) ==> refuses_in(groups_view(groups@), e@),
{
    let mut gi: usize = 0;
    while gi < groups.len()
        invariant
            gi <= groups@.len(),
        decreases groups@.len() - gi,
    {
        let g = &groups[gi];
        let mut k: usize = 0;
        while k < g.len()
            invariant
                k <= g@.len(),
                gi < groups@.len(),
                g == groups@[gi as int],
            decreases g@.len() - k,
        {
            if let Err(e) = check_expression(g[k].duplicate()) {
                assert(groups_view(groups@)[gi as int][k as int] == g@[k as int]@);
                return Err(e);
            }
            k = k + 1;
        }
        gi = gi + 1;
    }
    Ok(())
}

/// The cases of every variant, in variant order and, within a variant, in the
/// order of its annotation groups. After a variant's cases are built, the texts of
/// its expression bindings go to the expression parser, which may refuse one.
pub fn collect_cases(variants: &Vec<VariantInput>) -> (r: Result<Vec<Case>, BindError>)
    ensures
        r is Ok ==> all_variants_ok(variants@),
        r matches Err(e) ==> !all_variants_ok(variants@) || refused_in_union(variants@, e@),
        r matches Ok(cs) ==> cases_view(cs@) == union_cases(variants@),
        r matches Ok(cs) ==> well_formed_cases(cases_view(cs@)),
{
    let mut cases: Vec<Case> = Vec::new();
    let mut i: usize = 0;
    assert(variants@.subrange(0, 0) =~= Seq::<VariantInput>::empty());
    assert(cases_view(cases@) =~= Seq::<CaseView>::empty());
    while i < variants.len()
        invariant
            i <= variants@.len(),
            cases_view(cases@) == union_cases(variants@.subrange(0, i as int)),
            well_formed_cases(cases_view(cases@)),
            forall|j: int| 0 <= j < i
                ==> variant_ok(#[trigger] variants@[j].decl@, token_groups_view(variants@[j].groups@)),
        decreases variants@.len() - i,
    {
        let v = &variants[i];
        let ghost tg = token_groups_view(v.groups@);
        let groups = match parse_groups(&v.groups) {
            Ok(gs) => gs,
            Err(e) => {
                assert(!variant_ok(variants@[i as int].decl@, token_groups_view(variants@[i as int].groups@)));
                return Err(e);
            },
        };
        let mut built = match get_cases(&v.decl, &groups) {
            Ok(cs) => cs,
            Err(e) => {
                proof {
                    let pg = parsed_groups(tg).unwrap();
                    assert(pg == groups_view(groups@));
                    let gi = choose|gi: int| 0 <= gi < groups@.len()
                        && redefines_field(v.decl@, #[trigger] groups_view(groups@)[gi]);
                    assert(!variant_ok(variants@[i as int].decl@, token_groups_view(variants@[i as int].groups@)));
                }
                return Err(e);
            },
        };
        let ghost before = cases_view(cases@);
        let ghost added = cases_view(built@);
        assert(variant_ok(v.decl@, tg));
        if let Err(e) = check_groups(&groups) {
            assert(variant_ok(variants@[i as int].decl@, token_groups_view(variants@[i as int].groups@)));
            assert(parsed_groups(tg).unwrap() == groups_view(groups@));
            return Err(e);
        }
        cases.append(&mut built);
        proof {
            let sub = variants@.subrange(0, i as int + 1);
            assert(sub.drop_last() =~= variants@.subrange(0, i as int));
            assert(sub.last() == variants@[i as int]);
            assert(cases_view(cases@) =~= before + added);
            assert forall|k: int| 0 <= k < cases_view(cases@).len()
                implies crate::model::unique_names(#[trigger] cases_view(cases@)[k].bindings) by {
                if k >= before.len() {
                    assert(cases_view(cases@)[k] == added[k - before.len()]);
                } else {
                    assert(cases_view(cases@)[k] == before[k]);
                }
            }
        }
        i = i + 1;
    }
    assert(variants@.subrange(0, variants@.len() as int) =~= variants@);
    Ok(cases)
}

/// Generates every function of the union. The cases of all variants are built
/// first; an error there stops everything. Then each function annotation is
/// parsed, validated and generated on its own: an error in one leaves the others.
pub fn derive_functions(variants: &Vec<VariantInput>, functions: &Vec<FunctionInput>) -> (r: Result<
    Vec<Result<GeneratedFunction, BindError>>,
    BindError,
>)
    ensures
        r is Ok ==> all_variants_ok(variants@),
        r matches Err(e) ==> !all_variants_ok(variants@) || refused_in_union(variants@, e@),
        r matches Ok(fs) ==> fs@.len() == functions@.len(),
        r matches Ok(fs) ==> forall|j: int| 0 <= j < fs@.len() ==> match #[trigger] fs@[j] {
            Ok(g) => generated_as(functions@[j], union_cases(variants@), g),
            Err(e) => function_outcome(functions@[j], union_cases(variants@)) == Err::<BodyView, ErrorView>(e@),
        },
        r matches Ok(fs) ==> forall|j: int| 0 <= j < fs@.len() && function_outcome(functions@[j], union_cases(variants@)) is Ok
            ==> #[trigger] fs@[j] is Ok,
{
    let cases = match collect_cases(variants) {
        Ok(cs) => cs,
        Err(e) => {
            return Err(e);
        },
    };
    let ghost cv = cases_view(cases@);
    let mut out: Vec<Result<GeneratedFunction, BindError>> = Vec::new();
    let mut j: usize = 0;
    while j < functions.len()
        invariant
            j <= functions@.len(),
            cv == cases_view(cases@),
            cv == union_cases(variants@),
            well_formed_cases(cv),
            out@.len() == j,
            forall|k: int| 0 <= k < j ==> match #[trigger] out@[k] {
                Ok(g) => generated_as(functions@[k], cv, g),
                Err(e) => function_outcome(functions@[k], cv) == Err::<BodyView, ErrorView>(e@),
            },
        decreases functions@.len() - j,
    {
        let f = &functions[j];
        let result = match FunctionSpec::parse(f.visibility.clone(), f.signature.duplicate(), f.suffix.as_slice()) {
            Err(e) => Err(e),
            Ok(spec) => {
                match spec.validate(&cases) {
                    Err(e) => Err(e),
                    Ok(()) => Ok(spec.gen_function(&cases)),
                }
            },
        };
        out.push(result);
        j = j + 1;
    }
    Ok(out)
}


/// The description that a function annotation gives, once its suffix parses.
pub open spec fn spec_of(f: FunctionInput) -> FunctionSpecView {
    match suffix_of(tokens_view(f.suffix@)) {
        Ok((m, n)) => spec_view_of(f.signature, m, n),
        Err(_) => spec_view_of(f.signature, OutputMode::Optional, None),
    }
}

/// The arms of a generated body.
pub open spec fn body_arms(b: BodyView) -> Seq<ArmView> {
    match b {
        BodyView::Match(arms, _, _) => arms,
        BodyView::Scan(arms) => arms,
    }
}

/// Within one derivation, a case that declares slot `n` absent gives no arm to an
/// accepted function whose output or input is `n`, and still gives an arm to every
/// other accepted function for which it has a pattern and an output: all functions
/// are generated over the same cases.
pub proof fn law_never_across_functions(
    variants: Seq<VariantInput>,
    f: FunctionInput,
    other: FunctionInput,
    i: int,
    n: Seq<char>,
)
    requires
        function_outcome(f, union_cases(variants)) is Ok,
        function_outcome(other, union_cases(variants)) is Ok,
        0 <= i < union_cases(variants).len(),
        never_binds(union_cases(variants)[i], n),
        (spec_of(f).is_accessor() && spec_of(f).output() == n) || (!spec_of(f).is_accessor()
            && spec_of(f).inputs.contains(n)),
        generatable(spec_of(other), union_cases(variants)[i]),
    ensures
        forall|j: int| 0 <= j < body_arms(function_outcome(f, union_cases(variants))->Ok_0).len()
            ==> (#[trigger] body_arms(function_outcome(f, union_cases(variants))->Ok_0)[j]).case_index != i,
        exists|j: int| 0 <= j < body_arms(function_outcome(other, union_cases(variants))->Ok_0).len()
            && (#[trigger] body_arms(function_outcome(other, union_cases(variants))->Ok_0)[j]).case_index == i,
{
    let cases = union_cases(variants);
    assert(body_arms(function_outcome(f, cases)->Ok_0) == arms_of(spec_of(f), cases));
    assert(body_arms(function_outcome(other, cases)->Ok_0) == arms_of(spec_of(other), cases));
    law_never_excluded(spec_of(f), spec_of(other), cases, i, n);
}

} // verus!
