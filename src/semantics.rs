use vstd::prelude::*;
use crate::generate::{
    arms_of, body_of, generatable, never_binds, output_of, pattern_of, ArmView, BodyView, Fallback,
    InputPatternView, OutputView, PatternView,
};
use crate::model::{field_names, BindingView, CaseView, FunctionSpecView, OutputMode};

verus! {

/// A value of the union at run time: its variant, and its fields' values by slot name.
#[verifier::reject_recursive_types(V)]
pub struct Instance<V> {
    pub variant: Seq<char>,
    pub fields: Map<Seq<char>, V>,
}

/// How the host language reads an expression: the value it evaluates to, and the
/// values it matches when it stands as a pattern.
#[verifier::reject_recursive_types(V)]
pub struct Host<V> {
    pub value_of: spec_fn(Seq<char>) -> V,
    pub matches: spec_fn(Seq<char>, V) -> bool,
}

/// What a call of a generated function gives.
pub enum Outcome<T> {
    /// One value (wrapped in `Some` in `Option` mode).
    Present(T),
    /// `None`.
    Absent,
    /// The fatal fallthrough: no arm matched.
    Fatal,
    /// The collected values of `Vec` mode.
    All(Seq<T>),
}

/// The outcome of a body, from the outputs of its matching arms in arm order.
pub open spec fn outcome<T>(body: BodyView, outs: Seq<T>) -> Outcome<T> {
    match body {
        BodyView::Scan(_) => Outcome::All(outs),
        BodyView::Match(_, _, fallback) => if outs.len() > 0 {
            Outcome::Present(outs[0])
        } else if fallback == Fallback::Absent {
            Outcome::Absent
        } else {
            Outcome::Fatal
        },
    }
}

/// An accessor's arm matches an instance of the variant of its case.
pub open spec fn accessor_matches<V>(a: ArmView, cases: Seq<CaseView>, x: Instance<V>) -> bool {
    0 <= a.case_index < cases.len() && cases[a.case_index].variant.name == x.variant
}

/// The value of an accessor's output on an instance (accessors never rebuild the
/// instance, so the last arm is not reached from generated accessors).
pub open spec fn accessor_value<V>(o: OutputView, x: Instance<V>, host: Host<V>) -> V {
    match o {
        OutputView::Slot(n) => x.fields[n],
        OutputView::Value(e) => (host.value_of)(e),
        OutputView::SelfShape(_) => (host.value_of)(Seq::empty()),
    }
}

/// The outputs of the arms that match the instance, in arm order.
pub open spec fn accessor_outputs<V>(arms: Seq<ArmView>, cases: Seq<CaseView>, x: Instance<V>, host: Host<V>) -> Seq<V>
    decreases arms.len(),
{
    if arms.len() == 0 {
        Seq::empty()
    } else {
        let prev = accessor_outputs(arms.drop_last(), cases, x, host);
        let a = arms.last();
        if accessor_matches(a, cases, x) {
            prev.push(accessor_value(a.output, x, host))
        } else {
            prev
        }
    }
}

/// A call of an accessor on an instance.
pub open spec fn run_accessor<V>(s: FunctionSpecView, cases: Seq<CaseView>, x: Instance<V>, host: Host<V>) -> Outcome<V> {
    outcome(body_of(s, cases), accessor_outputs(arms_of(s, cases), cases, x, host))
}

/// A lookup's tuple pattern matches the input values.
pub open spec fn inputs_match<V>(ps: Seq<InputPatternView>, vs: Seq<V>, host: Host<V>) -> bool {
    &&& ps.len() == vs.len()
    &&& forall|k: int| 0 <= k < ps.len() ==> match #[trigger] ps[k] {
        InputPatternView::Capture(_) => true,
        InputPatternView::Match(_, e) => (host.matches)(e, vs[k]),
    }
}

/// Each input name bound to its value; a later name wins.
pub open spec fn bind_inputs<V>(names: Seq<Seq<char>>, vs: Seq<V>) -> Map<Seq<char>, V>
    decreases names.len(),
{
    if names.len() == 0 || vs.len() < names.len() {
        Map::empty()
    } else {
        bind_inputs(names.drop_last(), vs).insert(names.last(), vs[names.len() - 1])
    }
}

/// The instance that a lookup builds from a case: the case's variant, and those of
/// its stored fields that an input of the same name fills, with that input's value.
/// (A field filled through a capture inside an expression pattern is left out.)
pub open spec fn built<V>(c: CaseView, names: Seq<Seq<char>>, vs: Seq<V>) -> Instance<V> {
    Instance {
        variant: c.variant.name,
        fields: bind_inputs(names, vs).restrict(field_names(c.variant.fields).to_set()),
    }
}

/// A lookup's arm matches the input values.
pub open spec fn lookup_matches<V>(a: ArmView, vs: Seq<V>, host: Host<V>) -> bool {
    match a.pattern {
        PatternView::Inputs(ps) => inputs_match(ps, vs, host),
        PatternView::SelfShape(_) => false,
    }
}

/// The instances built by the arms that match the inputs, in arm order.
pub open spec fn lookup_outputs<V>(
    arms: Seq<ArmView>,
    cases: Seq<CaseView>,
    names: Seq<Seq<char>>,
    vs: Seq<V>,
    host: Host<V>,
) -> Seq<Instance<V>>
    decreases arms.len(),
{
    if arms.len() == 0 {
        Seq::empty()
    } else {
        let prev = lookup_outputs(arms.drop_last(), cases, names, vs, host);
        let a = arms.last();
        if lookup_matches(a, vs, host) {
            prev.push(built(cases[a.case_index], names, vs))
        } else {
            prev
        }
    }
}

/// A call of a lookup on input values.
pub open spec fn run_lookup<V>(s: FunctionSpecView, cases: Seq<CaseView>, vs: Seq<V>, host: Host<V>) -> Outcome<Instance<V>> {
    outcome(body_of(s, cases), lookup_outputs(arms_of(s, cases), cases, s.inputs, vs, host))
}

/// The case has a pattern for the lookup, and the pattern matches the inputs.
pub open spec fn case_selected<V>(s: FunctionSpecView, c: CaseView, vs: Seq<V>, host: Host<V>) -> bool {
    &&& generatable(s, c)
    &&& pattern_of(s, c) matches Some(PatternView::Inputs(ps)) && inputs_match(ps, vs, host)
}

/// The instances of every case whose pattern matches the inputs, in case order.
pub open spec fn selection<V>(s: FunctionSpecView, cases: Seq<CaseView>, vs: Seq<V>, host: Host<V>) -> Seq<Instance<V>>
    decreases cases.len(),
{
    if cases.len() == 0 {
        Seq::empty()
    } else {
        let prev = selection(s, cases.drop_last(), vs, host);
        if case_selected(s, cases.last(), vs, host) {
            prev.push(built(cases.last(), s.inputs, vs))
        } else {
            prev
        }
    }
}

/// The case has an output for the accessor and is of the instance's variant.
pub open spec fn case_answers<V>(s: FunctionSpecView, c: CaseView, x: Instance<V>) -> bool {
    generatable(s, c) && c.variant.name == x.variant
}

/// The values that every case of the instance's variant gives, in case order.
pub open spec fn answers<V>(s: FunctionSpecView, cases: Seq<CaseView>, x: Instance<V>, host: Host<V>) -> Seq<V>
    decreases cases.len(),
{
    if cases.len() == 0 {
        Seq::empty()
    } else {
        let prev = answers(s, cases.drop_last(), x, host);
        if case_answers(s, cases.last(), x) {
            prev.push(accessor_value(output_of(s, cases.last()).unwrap(), x, host))
        } else {
            prev
        }
    }
}

proof fn lemma_arms_prefix(s: FunctionSpecView, cases: Seq<CaseView>, m: int)
    requires
        0 <= m < cases.len(),
    ensures
        arms_of(s, cases.subrange(0, m + 1)) == if generatable(s, cases[m]) {
            arms_of(s, cases.subrange(0, m)).push(
                ArmView { case_index: m, pattern: pattern_of(s, cases[m]).unwrap(), output: output_of(s, cases[m]).unwrap() },
            )
        } else {
            arms_of(s, cases.subrange(0, m))
        },
{
    let sub = cases.subrange(0, m + 1);
    assert(sub.drop_last() =~= cases.subrange(0, m));
    assert(sub[m] == cases[m]);
}

proof fn lemma_lookup_outputs<V>(s: FunctionSpecView, cases: Seq<CaseView>, m: int, vs: Seq<V>, host: Host<V>)
    requires
        0 <= m <= cases.len(),
        !s.is_accessor(),
    ensures
        lookup_outputs(arms_of(s, cases.subrange(0, m)), cases, s.inputs, vs, host) == selection(
            s,
            cases.subrange(0, m),
            vs,
            host,
        ),
    decreases m,
{
    if m > 0 {
        lemma_lookup_outputs(s, cases, m - 1, vs, host);
        lemma_arms_prefix(s, cases, m - 1);
        let prev_arms = arms_of(s, cases.subrange(0, m - 1));
        if generatable(s, cases[m - 1]) {
            let a = ArmView {
                case_index: m - 1,
                pattern: pattern_of(s, cases[m - 1]).unwrap(),
                output: output_of(s, cases[m - 1]).unwrap(),
            };
            assert(prev_arms.push(a).drop_last() =~= prev_arms);
            assert(prev_arms.push(a).last() == a);
        }
        let sub = cases.subrange(0, m);
        assert(sub.drop_last() =~= cases.subrange(0, m - 1));
        assert(sub.last() == cases[m - 1]);
    } else {
        assert(cases.subrange(0, 0) =~= Seq::<CaseView>::empty());
    }
}

proof fn lemma_accessor_outputs<V>(s: FunctionSpecView, cases: Seq<CaseView>, m: int, x: Instance<V>, host: Host<V>)
    requires
        0 <= m <= cases.len(),
        s.is_accessor(),
    ensures
        accessor_outputs(arms_of(s, cases.subrange(0, m)), cases, x, host) == answers(
            s,
            cases.subrange(0, m),
            x,
            host,
        ),
    decreases m,
{
    if m > 0 {
        lemma_accessor_outputs(s, cases, m - 1, x, host);
        lemma_arms_prefix(s, cases, m - 1);
        let prev_arms = arms_of(s, cases.subrange(0, m - 1));
        if generatable(s, cases[m - 1]) {
            let a = ArmView {
                case_index: m - 1,
                pattern: pattern_of(s, cases[m - 1]).unwrap(),
                output: output_of(s, cases[m - 1]).unwrap(),
            };
            assert(prev_arms.push(a).drop_last() =~= prev_arms);
            assert(prev_arms.push(a).last() == a);
        }
        let sub = cases.subrange(0, m);
        assert(sub.drop_last() =~= cases.subrange(0, m - 1));
        assert(sub.last() == cases[m - 1]);
    } else {
        assert(cases.subrange(0, 0) =~= Seq::<CaseView>::empty());
    }
}

/// A `Vec` lookup returns the instance of every case whose pattern matches the
/// inputs, in case order, and nothing else: an empty sequence when none matches.
pub proof fn law_collect_lookup<V>(s: FunctionSpecView, cases: Seq<CaseView>, vs: Seq<V>, host: Host<V>)
    requires
        !s.is_accessor(),
        s.mode == OutputMode::Collect,
    ensures
        run_lookup(s, cases, vs, host) == Outcome::All(selection(s, cases, vs, host)),
        (forall|k: int| 0 <= k < cases.len() ==> !case_selected(s, #[trigger] cases[k], vs, host))
            ==> run_lookup(s, cases, vs, host) == Outcome::All(Seq::<Instance<V>>::empty()),
{
    lemma_lookup_outputs(s, cases, cases.len() as int, vs, host);
    assert(cases.subrange(0, cases.len() as int) =~= cases);
    lemma_selection_empty(s, cases, vs, host);
    if forall|k: int| 0 <= k < cases.len() ==> !case_selected(s, #[trigger] cases[k], vs, host) {
        assert(selection(s, cases, vs, host) =~= Seq::<Instance<V>>::empty());
    }
}

/// With no case selected, the selection is empty; with one selected, it is not.
pub proof fn lemma_selection_empty<V>(s: FunctionSpecView, cases: Seq<CaseView>, vs: Seq<V>, host: Host<V>)
    ensures
        (selection(s, cases, vs, host).len() == 0) <==> (forall|k: int| 0 <= k < cases.len() ==> !case_selected(s, #[trigger] cases[k], vs, host)),
    decreases cases.len(),
{
    if cases.len() > 0 {
        lemma_selection_empty(s, cases.drop_last(), vs, host);
        if selection(s, cases, vs, host).len() == 0 {
            assert forall|k: int| 0 <= k < cases.len() implies !case_selected(s, #[trigger] cases[k], vs, host) by {
                if k < cases.len() - 1 {
                    assert(cases.drop_last()[k] == cases[k]);
                }
            }
        } else {
            if forall|k: int| 0 <= k < cases.len() ==> !case_selected(s, #[trigger] cases[k], vs, host) {
                assert forall|k: int| 0 <= k < cases.drop_last().len() implies !case_selected(s, #[trigger] cases.drop_last()[k], vs, host) by {
                    assert(cases.drop_last()[k] == cases[k]);
                }
                assert(!case_selected(s, cases[cases.len() - 1], vs, host));
            }
        }
    }
}

/// With no case answering, there is no answer; with one answering, there is one.
pub proof fn lemma_answers_empty<V>(s: FunctionSpecView, cases: Seq<CaseView>, x: Instance<V>, host: Host<V>)
    ensures
        (answers(s, cases, x, host).len() == 0) <==> (forall|k: int| 0 <= k < cases.len() ==> !case_answers(s, #[trigger] cases[k], x)),
    decreases cases.len(),
{
    if cases.len() > 0 {
        lemma_answers_empty(s, cases.drop_last(), x, host);
        if answers(s, cases, x, host).len() == 0 {
            assert forall|k: int| 0 <= k < cases.len() implies !case_answers(s, #[trigger] cases[k], x) by {
                if k < cases.len() - 1 {
                    assert(cases.drop_last()[k] == cases[k]);
                }
            }
        } else {
            if forall|k: int| 0 <= k < cases.len() ==> !case_answers(s, #[trigger] cases[k], x) {
                assert forall|k: int| 0 <= k < cases.drop_last().len() implies !case_answers(s, #[trigger] cases.drop_last()[k], x) by {
                    assert(cases.drop_last()[k] == cases[k]);
                }
                assert(!case_answers(s, cases[cases.len() - 1], x));
            }
        }
    }
}

/// An `Unwrap` lookup takes the fatal path exactly when no case's pattern matches
/// the inputs.
pub proof fn law_unwrap_lookup_fatal<V>(s: FunctionSpecView, cases: Seq<CaseView>, vs: Seq<V>, host: Host<V>)
    requires
        !s.is_accessor(),
        s.mode == OutputMode::Unwrap,
    ensures
        run_lookup(s, cases, vs, host) == Outcome::<Instance<V>>::Fatal <==> forall|k: int|
            0 <= k < cases.len() ==> !case_selected(s, #[trigger] cases[k], vs, host),
{
    lemma_lookup_outputs(s, cases, cases.len() as int, vs, host);
    assert(cases.subrange(0, cases.len() as int) =~= cases);
    lemma_selection_empty(s, cases, vs, host);
}

/// An `Unwrap` accessor takes the fatal path exactly when no case of the
/// instance's variant has an output for it.
pub proof fn law_unwrap_accessor_fatal<V>(s: FunctionSpecView, cases: Seq<CaseView>, x: Instance<V>, host: Host<V>)
    requires
        s.is_accessor(),
        s.mode == OutputMode::Unwrap,
    ensures
        run_accessor(s, cases, x, host) == Outcome::<V>::Fatal <==> forall|k: int|
            0 <= k < cases.len() ==> !case_answers(s, #[trigger] cases[k], x),
{
    lemma_accessor_outputs(s, cases, cases.len() as int, x, host);
    assert(cases.subrange(0, cases.len() as int) =~= cases);
    lemma_answers_empty(s, cases, x, host);
}


proof fn lemma_answers_const<V>(s: FunctionSpecView, cases: Seq<CaseView>, x: Instance<V>, host: Host<V>, v: V)
    requires
        forall|k: int| 0 <= k < cases.len() && case_answers(s, #[trigger] cases[k], x)
            ==> accessor_value(output_of(s, cases[k]).unwrap(), x, host) == v,
    ensures
        forall|j: int| 0 <= j < answers(s, cases, x, host).len() ==> #[trigger] answers(s, cases, x, host)[j] == v,
    decreases cases.len(),
{
    if cases.len() > 0 {
        assert forall|k: int| 0 <= k < cases.drop_last().len() && case_answers(s, #[trigger] cases.drop_last()[k], x)
            implies accessor_value(output_of(s, cases.drop_last()[k]).unwrap(), x, host) == v by {
            assert(cases.drop_last()[k] == cases[k]);
        }
        lemma_answers_const(s, cases.drop_last(), x, host, v);
        let prev = answers(s, cases.drop_last(), x, host);
        let last = cases[cases.len() - 1];
        assert(cases.last() == last);
        if case_answers(s, last, x) {
            let w = accessor_value(output_of(s, last).unwrap(), x, host);
            assert(w == v);
            assert forall|j: int| 0 <= j < prev.push(w).len() implies #[trigger] prev.push(w)[j] == v by {
                if j < prev.len() {
                    assert(prev.push(w)[j] == prev[j]);
                }
            }
        }
    }
}

proof fn lemma_accessor_run<V>(s: FunctionSpecView, cases: Seq<CaseView>, x: Instance<V>, host: Host<V>, i: int, v: V)
    requires
        s.is_accessor(),
        s.mode != OutputMode::Collect,
        0 <= i < cases.len(),
        case_answers(s, cases[i], x),
        forall|k: int| 0 <= k < cases.len() && case_answers(s, #[trigger] cases[k], x)
            ==> accessor_value(output_of(s, cases[k]).unwrap(), x, host) == v,
    ensures
        run_accessor(s, cases, x, host) == Outcome::Present(v),
{
    lemma_accessor_outputs(s, cases, cases.len() as int, x, host);
    assert(cases.subrange(0, cases.len() as int) =~= cases);
    lemma_answers_empty(s, cases, x, host);
    lemma_answers_const(s, cases, x, host, v);
    assert(answers(s, cases, x, host)[0] == v);
}

/// An accessor for a slot that every case binds to a stored field of that name
/// returns, on every instance of the union's variants, that field's value.
pub proof fn law_field_accessor<V>(s: FunctionSpecView, cases: Seq<CaseView>, x: Instance<V>, host: Host<V>, i: int)
    requires
        s.is_accessor(),
        s.mode == OutputMode::Optional,
        0 <= i < cases.len(),
        x.variant == cases[i].variant.name,
        forall|k: int| 0 <= k < cases.len() ==> #[trigger] cases[k].binding(s.output()) == Some(BindingView::Field(s.output())),
    ensures
        run_accessor(s, cases, x, host) == Outcome::Present(x.fields[s.output()]),
{
    assert(case_answers(s, cases[i], x));
    lemma_accessor_run(s, cases, x, host, i, x.fields[s.output()]);
}

/// The arms of a function are exactly its generatable cases: each arm comes from
/// a generatable case, and each generatable case has an arm.
pub proof fn lemma_arms_index(s: FunctionSpecView, cases: Seq<CaseView>)
    ensures
        forall|j: int| 0 <= j < arms_of(s, cases).len() ==> {
            &&& 0 <= (#[trigger] arms_of(s, cases)[j]).case_index < cases.len()
            &&& generatable(s, cases[arms_of(s, cases)[j].case_index])
        },
        forall|i: int| 0 <= i < cases.len() && generatable(s, #[trigger] cases[i])
            ==> exists|j: int| 0 <= j < arms_of(s, cases).len() && #[trigger] arms_of(s, cases)[j].case_index == i,
    decreases cases.len(),
{
    if cases.len() > 0 {
        let d = cases.drop_last();
        lemma_arms_index(s, d);
        let prev = arms_of(s, d);
        let arms = arms_of(s, cases);
        let m = cases.len() - 1;
        assert forall|j: int| 0 <= j < arms.len() implies {
            &&& 0 <= (#[trigger] arms[j]).case_index < cases.len()
            &&& generatable(s, cases[arms[j].case_index])
        } by {
            if j < prev.len() {
                assert(arms[j] == prev[j]);
                assert(d[prev[j].case_index] == cases[prev[j].case_index]);
            }
        }
        assert forall|i: int| 0 <= i < cases.len() && generatable(s, #[trigger] cases[i])
            implies exists|j: int| 0 <= j < arms.len() && #[trigger] arms[j].case_index == i by {
            if i < m {
                assert(d[i] == cases[i]);
                let j = choose|j: int| 0 <= j < prev.len() && #[trigger] prev[j].case_index == i;
                assert(arms[j] == prev[j]);
            } else {
                assert(arms[prev.len() as int].case_index == m);
            }
        }
    }
}

/// A case that declares a slot absent gives no arm to a function whose output or
/// input is that slot, and still gives one to every function for which it has a
/// pattern and an output.
pub proof fn law_never_excluded(s: FunctionSpecView, other: FunctionSpecView, cases: Seq<CaseView>, i: int, n: Seq<char>)
    requires
        0 <= i < cases.len(),
        never_binds(cases[i], n),
        (s.is_accessor() && s.output() == n) || (!s.is_accessor() && s.inputs.contains(n)),
        generatable(other, cases[i]),
    ensures
        forall|j: int| 0 <= j < arms_of(s, cases).len() ==> (#[trigger] arms_of(s, cases)[j]).case_index != i,
        exists|j: int| 0 <= j < arms_of(other, cases).len() && #[trigger] arms_of(other, cases)[j].case_index == i,
{
    lemma_arms_index(s, cases);
    lemma_arms_index(other, cases);
    if !s.is_accessor() {
        let k = choose|k: int| 0 <= k < s.inputs.len() && s.inputs[k] == n;
        assert(never_binds(cases[i], s.inputs[k]));
    }
    assert(!generatable(s, cases[i]));
}

proof fn lemma_bind_inputs<V>(names: Seq<Seq<char>>, vs: Seq<V>, k: int)
    requires
        0 <= k < names.len() <= vs.len(),
        forall|p: int, q: int| 0 <= p < names.len() && 0 <= q < names.len() && p != q ==> names[p] != names[q],
    ensures
        bind_inputs(names, vs).dom().contains(names[k]),
        bind_inputs(names, vs)[names[k]] == vs[k],
    decreases names.len(),
{
    if k < names.len() - 1 {
        let d = names.drop_last();
        assert(d[k] == names[k]);
        assert(names[k] != names[names.len() - 1]);
        lemma_bind_inputs(d, vs, k);
    }
}

/// Round trip: an instance that a lookup builds from a case which binds slot `S`
/// to its stored field gives back, through an accessor for `S`, the input value
/// given for `S`. `S` is a stored field of the case's variant, and every case of
/// that variant binds `S` to it, as the cases built for one variant do.
pub proof fn law_round_trip<V>(
    accessor: FunctionSpecView,
    lookup: FunctionSpecView,
    cases: Seq<CaseView>,
    vs: Seq<V>,
    host: Host<V>,
    i: int,
    k: int,
)
    requires
        accessor.is_accessor(),
        accessor.mode != OutputMode::Collect,
        !lookup.is_accessor(),
        0 <= i < cases.len(),
        generatable(lookup, cases[i]),
        0 <= k < lookup.inputs.len(),
        vs.len() == lookup.inputs.len(),
        lookup.inputs[k] == accessor.output(),
        field_names(cases[i].variant.fields).contains(accessor.output()),
        forall|p: int, q: int| 0 <= p < lookup.inputs.len() && 0 <= q < lookup.inputs.len() && p != q
            ==> lookup.inputs[p] != lookup.inputs[q],
        forall|j: int| 0 <= j < cases.len() && #[trigger] cases[j].variant.name == cases[i].variant.name
            ==> cases[j].binding(accessor.output()) == Some(BindingView::Field(accessor.output())),
    ensures
        run_accessor(accessor, cases, built(cases[i], lookup.inputs, vs), host) == Outcome::Present(vs[k]),
{
    let x = built(cases[i], lookup.inputs, vs);
    lemma_bind_inputs(lookup.inputs, vs, k);
    assert(field_names(cases[i].variant.fields).to_set().contains(accessor.output()));
    assert(x.fields[accessor.output()] == vs[k]);
    assert(case_answers(accessor, cases[i], x));
    assert forall|j: int| 0 <= j < cases.len() && case_answers(accessor, #[trigger] cases[j], x)
        implies accessor_value(output_of(accessor, cases[j]).unwrap(), x, host) == vs[k] by {
        assert(cases[j].variant.name == cases[i].variant.name);
    }
    lemma_accessor_run(accessor, cases, x, host, i, vs[k]);
}


proof fn lemma_selection_first<V>(s: FunctionSpecView, cases: Seq<CaseView>, vs: Seq<V>, host: Host<V>, i: int)
    requires
        0 <= i < cases.len(),
        case_selected(s, cases[i], vs, host),
        forall|j: int| 0 <= j < i ==> !case_selected(s, #[trigger] cases[j], vs, host),
    ensures
        selection(s, cases, vs, host).len() > 0,
        selection(s, cases, vs, host)[0] == built(cases[i], s.inputs, vs),
    decreases cases.len(),
{
    let d = cases.drop_last();
    if i == cases.len() - 1 {
        assert forall|j: int| 0 <= j < d.len() implies !case_selected(s, #[trigger] d[j], vs, host) by {
            assert(d[j] == cases[j]);
        }
        lemma_selection_empty(s, d, vs, host);
        assert(cases.last() == cases[i]);
    } else {
        assert(d[i] == cases[i]);
        assert forall|j: int| 0 <= j < i implies !case_selected(s, #[trigger] d[j], vs, host) by {
            assert(d[j] == cases[j]);
        }
        lemma_selection_first(s, d, vs, host, i);
    }
}

proof fn lemma_answers_first<V>(s: FunctionSpecView, cases: Seq<CaseView>, x: Instance<V>, host: Host<V>, i: int)
    requires
        0 <= i < cases.len(),
        case_answers(s, cases[i], x),
        forall|j: int| 0 <= j < i ==> !case_answers(s, #[trigger] cases[j], x),
    ensures
        answers(s, cases, x, host).len() > 0,
        answers(s, cases, x, host)[0] == accessor_value(output_of(s, cases[i]).unwrap(), x, host),
    decreases cases.len(),
{
    let d = cases.drop_last();
    if i == cases.len() - 1 {
        assert forall|j: int| 0 <= j < d.len() implies !case_answers(s, #[trigger] d[j], x) by {
            assert(d[j] == cases[j]);
        }
        lemma_answers_empty(s, d, x, host);
        assert(cases.last() == cases[i]);
    } else {
        assert(d[i] == cases[i]);
        assert forall|j: int| 0 <= j < i implies !case_answers(s, #[trigger] d[j], x) by {
            assert(d[j] == cases[j]);
        }
        lemma_answers_first(s, d, x, host, i);
    }
}

/// Outside `Vec` mode, a lookup whose inputs some case's pattern matches returns
/// the instance of the first such case, and takes no fatal or absent path.
pub proof fn law_first_match_lookup<V>(s: FunctionSpecView, cases: Seq<CaseView>, vs: Seq<V>, host: Host<V>, i: int)
    requires
        !s.is_accessor(),
        s.mode != OutputMode::Collect,
        0 <= i < cases.len(),
        case_selected(s, cases[i], vs, host),
        forall|j: int| 0 <= j < i ==> !case_selected(s, #[trigger] cases[j], vs, host),
    ensures
        run_lookup(s, cases, vs, host) == Outcome::Present(built(cases[i], s.inputs, vs)),
{
    lemma_lookup_outputs(s, cases, cases.len() as int, vs, host);
    assert(cases.subrange(0, cases.len() as int) =~= cases);
    lemma_selection_first(s, cases, vs, host, i);
}

/// Outside `Vec` mode, an accessor on an instance of a variant that some case
/// answers for returns the output of the first such case, and takes no fatal or
/// absent path.
pub proof fn law_first_match_accessor<V>(s: FunctionSpecView, cases: Seq<CaseView>, x: Instance<V>, host: Host<V>, i: int)
    requires
        s.is_accessor(),
        s.mode != OutputMode::Collect,
        0 <= i < cases.len(),
        case_answers(s, cases[i], x),
        forall|j: int| 0 <= j < i ==> !case_answers(s, #[trigger] cases[j], x),
    ensures
        run_accessor(s, cases, x, host) == Outcome::Present(
            accessor_value(output_of(s, cases[i]).unwrap(), x, host),
        ),
{
    lemma_accessor_outputs(s, cases, cases.len() as int, x, host);
    assert(cases.subrange(0, cases.len() as int) =~= cases);
    lemma_answers_first(s, cases, x, host, i);
}

/// How many cases before case `i` a lookup selects: the place of case `i`'s
/// instance in a `Vec` result.
pub open spec fn rank<V>(s: FunctionSpecView, cases: Seq<CaseView>, i: int, vs: Seq<V>, host: Host<V>) -> int {
    selection(s, cases.subrange(0, i), vs, host).len() as int
}

proof fn lemma_selection_prefix<V>(s: FunctionSpecView, cases: Seq<CaseView>, m: int, vs: Seq<V>, host: Host<V>)
    requires
        0 <= m <= cases.len(),
    ensures
        selection(s, cases.subrange(0, m), vs, host).len() <= selection(s, cases, vs, host).len(),
        forall|p: int| 0 <= p < selection(s, cases.subrange(0, m), vs, host).len()
            ==> #[trigger] selection(s, cases.subrange(0, m), vs, host)[p] == selection(s, cases, vs, host)[p],
    decreases cases.len(),
{
    if m == cases.len() {
        assert(cases.subrange(0, m) =~= cases);
    } else {
        let d = cases.drop_last();
        assert(d.subrange(0, m) =~= cases.subrange(0, m));
        lemma_selection_prefix(s, d, m, vs, host);
        let prev = selection(s, d, vs, host);
        if case_selected(s, cases.last(), vs, host) {
            assert forall|p: int| 0 <= p < prev.len() implies #[trigger] prev.push(
                built(cases.last(), s.inputs, vs),
            )[p] == prev[p] by {}
        }
    }
}

proof fn lemma_rank<V>(s: FunctionSpecView, cases: Seq<CaseView>, i: int, vs: Seq<V>, host: Host<V>)
    requires
        0 <= i < cases.len(),
        case_selected(s, cases[i], vs, host),
    ensures
        rank(s, cases, i, vs, host) < selection(s, cases, vs, host).len(),
        selection(s, cases, vs, host)[rank(s, cases, i, vs, host)] == built(cases[i], s.inputs, vs),
        selection(s, cases.subrange(0, i + 1), vs, host).len() == rank(s, cases, i, vs, host) + 1,
{
    let sub = cases.subrange(0, i + 1);
    assert(sub.drop_last() =~= cases.subrange(0, i));
    assert(sub.last() == cases[i]);
    lemma_selection_prefix(s, cases, i + 1, vs, host);
    let r = rank(s, cases, i, vs, host);
    assert(selection(s, sub, vs, host)[r] == built(cases[i], s.inputs, vs));
}

/// In a `Vec` lookup, the instances of two matching cases come out in case order:
/// each at its own place, the earlier case first.
pub proof fn law_collect_order<V>(s: FunctionSpecView, cases: Seq<CaseView>, vs: Seq<V>, host: Host<V>, i: int, j: int)
    requires
        !s.is_accessor(),
        s.mode == OutputMode::Collect,
        0 <= i < j < cases.len(),
        case_selected(s, cases[i], vs, host),
        case_selected(s, cases[j], vs, host),
    ensures
        run_lookup(s, cases, vs, host) == Outcome::All(selection(s, cases, vs, host)),
        rank(s, cases, i, vs, host) < rank(s, cases, j, vs, host),
        rank(s, cases, j, vs, host) < selection(s, cases, vs, host).len(),
        selection(s, cases, vs, host)[rank(s, cases, i, vs, host)] == built(cases[i], s.inputs, vs),
        selection(s, cases, vs, host)[rank(s, cases, j, vs, host)] == built(cases[j], s.inputs, vs),
{
    law_collect_lookup(s, cases, vs, host);
    lemma_rank(s, cases, i, vs, host);
    lemma_rank(s, cases, j, vs, host);
    let cj = cases.subrange(0, j);
    assert(cj.subrange(0, i + 1) =~= cases.subrange(0, i + 1));
    lemma_selection_prefix(s, cj, i + 1, vs, host);
}

} // verus!
