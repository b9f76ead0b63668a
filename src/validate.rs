use vstd::prelude::*;
use crate::model::{
    cases_view, unique_names, BindError, Binding, BindingView, Case, CaseView, ErrorView, FunctionSpec,
    FunctionSpecView, OutputMode,
};

verus! {

/// Every case has unique slot names.
pub open spec fn well_formed_cases(cases: Seq<CaseView>) -> bool {
    forall|k: int| 0 <= k < cases.len() ==> unique_names(#[trigger] cases[k].bindings)
}

/// Every case binds slot `n`.
pub open spec fn all_bind(cases: Seq<CaseView>, n: Seq<char>) -> bool {
    forall|k: int| 0 <= k < cases.len() ==> #[trigger] cases[k].binds(n)
}

/// Some case binds slot `n`.
pub open spec fn some_binds(cases: Seq<CaseView>, n: Seq<char>) -> bool {
    exists|k: int| 0 <= k < cases.len() && #[trigger] cases[k].binds(n)
}

/// Case `k` is the first that does not bind slot `n`.
pub open spec fn is_first_unbound(cases: Seq<CaseView>, n: Seq<char>, k: int) -> bool {
    &&& 0 <= k < cases.len()
    &&& !cases[k].binds(n)
    &&& forall|j: int| 0 <= j < k ==> #[trigger] cases[j].binds(n)
}

/// The first case that does not bind slot `n`.
pub open spec fn first_unbound(cases: Seq<CaseView>, n: Seq<char>) -> int {
    choose|k: int| is_first_unbound(cases, n, k)
}

/// Input `i` is the first input of the function that some case does not bind.
pub open spec fn is_first_uncovered_input(s: FunctionSpecView, cases: Seq<CaseView>, i: int) -> bool {
    &&& 0 <= i < s.inputs.len()
    &&& !all_bind(cases, s.inputs[i])
    &&& forall|j: int| 0 <= j < i ==> all_bind(cases, #[trigger] s.inputs[j])
}

/// Case `c` binds slot `n` as an expression or as absent, not as a stored field.
pub open spec fn conflicts(c: CaseView, n: Seq<char>) -> bool {
    match c.binding(n) {
        Some(BindingView::Field(_)) => false,
        Some(_) => true,
        None => false,
    }
}

/// Input `i` is the first input that some case binds otherwise than as a field.
pub open spec fn is_first_conflicting_input(s: FunctionSpecView, cases: Seq<CaseView>, i: int) -> bool {
    &&& 0 <= i < s.inputs.len()
    &&& exists|k: int| 0 <= k < cases.len() && conflicts(#[trigger] cases[k], s.inputs[i])
    &&& forall|j: int, k: int| 0 <= j < i && 0 <= k < cases.len()
        ==> !conflicts(#[trigger] cases[k], #[trigger] s.inputs[j])
}

/// The first case that binds slot `n` otherwise than as a field.
pub open spec fn first_conflict(cases: Seq<CaseView>, n: Seq<char>) -> int {
    choose|k: int|
        0 <= k < cases.len() && conflicts(cases[k], n) && forall|j: int|
            0 <= j < k ==> !conflicts(#[trigger] cases[j], n)
}

/// What the validator reports for a function over the cases of a union, checked in
/// this order: an accessor's slot that no case binds; for a strict accessor, the
/// first case that does not bind it; for a lookup, the first input that some case
/// does not bind, with the first such case; for an accessor, the first argument
/// that some case binds as an expression or as absent, with the first such case;
/// a missing return type.
pub open spec fn validation(s: FunctionSpecView, cases: Seq<CaseView>) -> Option<ErrorView> {
    if s.is_accessor() && !some_binds(cases, s.output()) {
        Some(ErrorView::NoOutput(s.name, s.output()))
    } else if s.is_accessor() && s.mode == OutputMode::Strict && !all_bind(cases, s.output()) {
        Some(ErrorView::StrictUncovered(s.name, cases[first_unbound(cases, s.output())].variant.name))
    } else if !s.is_accessor() && exists|i: int| is_first_uncovered_input(s, cases, i) {
        let i = choose|i: int| is_first_uncovered_input(s, cases, i);
        Some(
            ErrorView::InputUncovered(
                s.name,
                cases[first_unbound(cases, s.inputs[i])].variant.name,
                s.inputs[i],
            ),
        )
    } else if s.is_accessor() && exists|i: int| is_first_conflicting_input(s, cases, i) {
        let i = choose|i: int| is_first_conflicting_input(s, cases, i);
        Some(
            ErrorView::ArgumentConflict(
                s.name,
                cases[first_conflict(cases, s.inputs[i])].variant.name,
                s.inputs[i],
            ),
        )
    } else if !s.has_return {
        Some(ErrorView::MissingReturnType(s.name))
    } else {
        None
    }
}

/// The first case that does not bind slot `n`.
fn find_unbound(cases: &Vec<Case>, n: &String) -> (r: Option<usize>)
    ensures
        r matches Some(k) ==> is_first_unbound(cases_view(cases@), n@, k as int),
        r is None ==> all_bind(cases_view(cases@), n@),
{
    let ghost cv = cases_view(cases@);
    let mut k: usize = 0;
    while k < cases.len()
        invariant
            k <= cases@.len(),
            cv == cases_view(cases@),
            forall|j: int| 0 <= j < k ==> #[trigger] cv[j].binds(n@),
        decreases cases@.len() - k,
    {
        if !cases[k].has_binding(n) {
            return Some(k);
        }
        k = k + 1;
    }
    None
}

/// The first case that binds slot `n` as an expression or as absent.
fn find_conflict(cases: &Vec<Case>, n: &String) -> (r: Option<usize>)
    requires
        well_formed_cases(cases_view(cases@)),
    ensures
        r matches Some(k) ==> k < cases@.len() && conflicts(cases_view(cases@)[k as int], n@)
            && forall|j: int| 0 <= j < k ==> !conflicts(#[trigger] cases_view(cases@)[j], n@),
        r is None ==> forall|j: int| 0 <= j < cases@.len() ==> !conflicts(#[trigger] cases_view(cases@)[j], n@),
{
    let ghost cv = cases_view(cases@);
    let mut k: usize = 0;
    while k < cases.len()
        invariant
            k <= cases@.len(),
            cv == cases_view(cases@),
            well_formed_cases(cv),
            forall|j: int| 0 <= j < k ==> !conflicts(#[trigger] cv[j], n@),
        decreases cases@.len() - k,
    {
        assert(unique_names(cv[k as int].bindings));
        match cases[k].binding(n) {
            Some(Binding::Field { .. }) => {},
            Some(_) => {
                return Some(k);
            },
            None => {},
        }
        k = k + 1;
    }
    None
}

proof fn lemma_first_unbound(cases: Seq<CaseView>, n: Seq<char>, k: int)
    requires
        is_first_unbound(cases, n, k),
    ensures
        first_unbound(cases, n) == k,
{
    let c = first_unbound(cases, n);
    assert(is_first_unbound(cases, n, c));
    if c < k {
        assert(cases[c].binds(n));
    }
    if k < c {
        assert(cases[k].binds(n));
    }
}

impl FunctionSpec {
    /// Checks the function description against the cases of the union before any
    /// code is generated for it.
    pub fn validate(&self, cases: &Vec<Case>) -> (r: Result<(), BindError>)
        requires
            well_formed_cases(cases_view(cases@)),
        ensures
            r is Ok <==> validation(self@, cases_view(cases@)) is None,
            r matches Err(e) ==> validation(self@, cases_view(cases@)) == Some(e@),
            self@.is_accessor() && self@.mode == OutputMode::Strict && !all_bind(cases_view(cases@), self@.output())
                ==> r is Err,
    {
        let ghost s = self@;
        let ghost cv = cases_view(cases@);
        let accessor = self.is_accessor();
        if accessor {
            let name = self.output_name();
            let mut k: usize = 0;
            let mut found = false;
            while k < cases.len()
                invariant
                    k <= cases@.len(),
                    cv == cases_view(cases@),
                    found == (exists|j: int| 0 <= j < k && #[trigger] cv[j].binds(name@)),
                decreases cases@.len() - k,
            {
                if cases[k].has_binding(name) {
                    assert(cv[k as int].binds(name@));
                    found = true;
                }
                k = k + 1;
            }
            if !found {
                return Err(BindError::NoOutput { function: self.signature.name.clone(), name: name.clone() });
            }
            if self.output_mode == OutputMode::Strict {
                if let Some(k) = find_unbound(cases, name) {
                    proof {
                        lemma_first_unbound(cv, name@, k as int);
                    }
                    return Err(
                        BindError::StrictUncovered {
                            function: self.signature.name.clone(),
                            variant: cases[k].variant.name.clone(),
                        },
                    );
                }
            }
        }
        let inputs = &self.signature.inputs;
        if !accessor {
            let mut i: usize = 0;
            while i < inputs.len()
                invariant
                    i <= inputs@.len(),
                    cv == cases_view(cases@),
                    s == self@,
                    inputs == self.signature.inputs,
                    !s.is_accessor(),
                    forall|j: int| 0 <= j < i ==> all_bind(cv, #[trigger] s.inputs[j]),
                decreases inputs@.len() - i,
            {
                assert(s.inputs[i as int] == inputs@[i as int]@);
                if let Some(k) = find_unbound(cases, &inputs[i]) {
                    proof {
                        lemma_first_unbound(cv, s.inputs[i as int], k as int);
                        assert(is_first_uncovered_input(s, cv, i as int));
                        let c = choose|c: int| is_first_uncovered_input(s, cv, c);
                        if c < i {
                            assert(all_bind(cv, s.inputs[c]));
                        }
                        if i < c {
                            assert(all_bind(cv, s.inputs[i as int]));
                        }
                        assert(c == i);
                        assert(first_unbound(cv, s.inputs[i as int]) == k);
                        assert(cv[k as int].variant.name == cases@[k as int].variant.name@);
                    }
                    let e = BindError::InputUncovered {
                        function: self.signature.name.clone(),
                        variant: cases[k].variant.name.clone(),
                        name: inputs[i].clone(),
                    };
                    return Err(e);
                }
                i = i + 1;
            }
            assert(forall|c: int| !is_first_uncovered_input(s, cv, c));
        }
        if accessor {
            assert(some_binds(cv, s.output()));
            assert(s.mode == OutputMode::Strict ==> all_bind(cv, s.output()));
            let mut i: usize = 0;
            while i < inputs.len()
                invariant
                    i <= inputs@.len(),
                    cv == cases_view(cases@),
                    well_formed_cases(cv),
                    s == self@,
                    inputs == self.signature.inputs,
                    s.is_accessor(),
                    some_binds(cv, s.output()),
                    s.mode == OutputMode::Strict ==> all_bind(cv, s.output()),
                    forall|j: int, k: int| 0 <= j < i && 0 <= k < cv.len()
                        ==> !conflicts(#[trigger] cv[k], #[trigger] s.inputs[j]),
                decreases inputs@.len() - i,
            {
                assert(s.inputs[i as int] == inputs@[i as int]@);
                if let Some(k) = find_conflict(cases, &inputs[i]) {
                    proof {
                        assert(is_first_conflicting_input(s, cv, i as int));
                        let c = choose|c: int| is_first_conflicting_input(s, cv, c);
                        if c < i {
                            let w = choose|w: int| 0 <= w < cv.len() && conflicts(cv[w], s.inputs[c]);
                            assert(!conflicts(cv[w], s.inputs[c]));
                        }
                        if i < c {
                            assert(!conflicts(cv[k as int], s.inputs[i as int]));
                        }
                        let f = first_conflict(cv, s.inputs[i as int]);
                        assert(0 <= f < cv.len() && conflicts(cv[f], s.inputs[i as int]) && forall|j: int|
                            0 <= j < f ==> !conflicts(#[trigger] cv[j], s.inputs[i as int]));
                        if f < k {
                            assert(!conflicts(cv[f], s.inputs[i as int]));
                        }
                        if k < f {
                            assert(!conflicts(cv[k as int], s.inputs[i as int]));
                        }
                        assert(c == i);
                        assert(f == k);
                        assert(cv[k as int].variant.name == cases@[k as int].variant.name@);
                    }
                    return Err(
                        BindError::ArgumentConflict {
                            function: self.signature.name.clone(),
                            variant: cases[k].variant.name.clone(),
                            name: inputs[i].clone(),
                        },
                    );
                }
                i = i + 1;
            }
            proof {
                assert forall|c: int| !is_first_conflicting_input(s, cv, c) by {
                    if is_first_conflicting_input(s, cv, c) {
                        let w = choose|w: int| 0 <= w < cv.len() && conflicts(cv[w], s.inputs[c]);
                        assert(!conflicts(cv[w], s.inputs[c]));
                    }
                }
            }
        }
        if !self.signature.has_return {
            return Err(BindError::MissingReturnType { function: self.signature.name.clone() });
        }
        Ok(())
    }
}

} // verus!
