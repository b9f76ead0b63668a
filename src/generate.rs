use vstd::prelude::*;
use crate::model::{
    cases_view, field_names, positional_field_name, Binding, BindingView, Case, CaseView, Fields, FieldsView,
    FunctionSpec, FunctionSpecView, OutputMode, VariantDecl, VariantView, unique_names,
};
use crate::validate::well_formed_cases;

verus! {

/// `names` separated by `, `.
pub open spec fn join(names: Seq<Seq<char>>) -> Seq<char>
    decreases names.len(),
{
    if names.len() == 0 {
        Seq::empty()
    } else if names.len() == 1 {
        names[0]
    } else {
        join(names.drop_last()) + seq![',', ' '] + names.last()
    }
}

/// The expression, and the pattern, that names a variant with its fields bound to
/// their own names: `Self::V { a, b }`, `Self::V(_0, _1)` or `Self::V`.
pub open spec fn self_expr(v: VariantView) -> Seq<char> {
    let head = seq!['S', 'e', 'l', 'f', ':', ':'] + v.name;
    match v.fields {
        FieldsView::Named(_) => head + seq![' ', '{', ' '] + join(field_names(v.fields)) + seq![' ', '}'],
        FieldsView::Unnamed(_) => head + seq!['('] + join(field_names(v.fields)) + seq![')'],
        FieldsView::Unit => head,
    }
}

fn join_names(v: &VariantDecl) -> (r: String)
    ensures
        r@ == join(field_names(v@.fields)),
{
    let ghost names = field_names(v@.fields);
    let count: usize = match &v.fields {
        Fields::Named(ns) => ns.len(),
        Fields::Unnamed(k) => *k,
        Fields::Unit => 0,
    };
    let mut out = String::new();
    let mut i: usize = 0;
    while i < count
        invariant
            i <= count,
            count == names.len(),
            names == field_names(v@.fields),
            out@ == join(names.subrange(0, i as int)),
        decreases count - i,
    {
        let name = match &v.fields {
            Fields::Named(ns) => ns[i].clone(),
            Fields::Unnamed(_) => positional_field_name(i),
            Fields::Unit => positional_field_name(i),
        };
        assert(name@ == names[i as int]);
        let ghost prev = out@;
        proof {
            reveal_strlit(", ");
        }
        if i > 0 {
            out.append(", ");
        }
        out.append(name.as_str());
        proof {
            let sub = names.subrange(0, i as int + 1);
            assert(sub.drop_last() =~= names.subrange(0, i as int));
            if i == 0 {
                assert(join(sub) == sub[0]);
                assert(out@ =~= name@);
            } else {
                assert(join(sub) == join(sub.drop_last()) + seq![',', ' '] + sub.last());
                assert(out@ =~= prev + seq![',', ' '] + name@);
            }
        }
        i = i + 1;
    }
    assert(names.subrange(0, count as int) =~= names);
    out
}

impl Case {
    /// The text of `self_expr` for the case's variant.
    pub fn gen_self_expr(&self) -> (r: String)
        ensures
            r@ == self_expr(self@.variant),
    {
        proof {
            reveal_strlit("Self::");
            reveal_strlit(" { ");
            reveal_strlit(" }");
            reveal_strlit("(");
            reveal_strlit(")");
        }
        let v = &self.variant;
        let mut out = "Self::".to_owned();
        out.append(v.name.as_str());
        match &v.fields {
            Fields::Named(_) => {
                out.append(" { ");
                out.append(join_names(v).as_str());
                out.append(" }");
            },
            Fields::Unnamed(_) => {
                out.append("(");
                out.append(join_names(v).as_str());
                out.append(")");
            },
            Fields::Unit => {},
        }
        out
    }
}


/// One element of a lookup's tuple pattern.
#[derive(Debug, PartialEq, Eq)]
pub enum InputPattern {
    /// `name @ _`: any value, bound to `name`.
    Capture { name: String },
    /// `name @ expr`: a value that the expression, read as a pattern, matches.
    Match { name: String, expr: String },
}

pub enum InputPatternView {
    Capture(Seq<char>),
    Match(Seq<char>, Seq<char>),
}

impl View for InputPattern {
    type V = InputPatternView;

    open spec fn view(&self) -> InputPatternView {
        match self {
            InputPattern::Capture { name } => InputPatternView::Capture(name@),
            InputPattern::Match { name, expr } => InputPatternView::Match(name@, expr@),
        }
    }
}

/// The pattern of one arm.
#[derive(Debug, PartialEq, Eq)]
pub enum Pattern {
    /// An accessor's pattern: the case's variant, its fields bound to their names.
    SelfShape(String),
    /// A lookup's pattern: one element per input, in order.
    Inputs(Vec<InputPattern>),
}

pub enum PatternView {
    SelfShape(Seq<char>),
    Inputs(Seq<InputPatternView>),
}

impl View for Pattern {
    type V = PatternView;

    open spec fn view(&self) -> PatternView {
        match self {
            Pattern::SelfShape(t) => PatternView::SelfShape(t@),
            Pattern::Inputs(ps) => PatternView::Inputs(ps@.map_values(|p: InputPattern| p@)),
        }
    }
}

/// The output of one arm.
#[derive(Debug, PartialEq, Eq)]
pub enum Output {
    /// The value captured for a stored field.
    Slot(String),
    /// An expression's value.
    Value(String),
    /// The case's variant rebuilt from the captured values.
    SelfShape(String),
}

pub enum OutputView {
    Slot(Seq<char>),
    Value(Seq<char>),
    SelfShape(Seq<char>),
}

impl View for Output {
    type V = OutputView;

    open spec fn view(&self) -> OutputView {
        match self {
            Output::Slot(t) => OutputView::Slot(t@),
            Output::Value(t) => OutputView::Value(t@),
            Output::SelfShape(t) => OutputView::SelfShape(t@),
        }
    }
}

/// One `pattern => output` arm, made from the case at `case_index`.
#[derive(Debug, PartialEq, Eq)]
pub struct Arm {
    pub case_index: usize,
    pub pattern: Pattern,
    pub output: Output,
}

pub struct ArmView {
    pub case_index: int,
    pub pattern: PatternView,
    pub output: OutputView,
}

impl View for Arm {
    type V = ArmView;

    open spec fn view(&self) -> ArmView {
        ArmView { case_index: self.case_index as int, pattern: self.pattern@, output: self.output@ }
    }
}

/// The view of a list of arms.
pub open spec fn arms_view(arms: Seq<Arm>) -> Seq<ArmView> {
    arms.map_values(|a: Arm| a@)
}

/// The case's binding for slot `n` is `Never`.
pub open spec fn never_binds(c: CaseView, n: Seq<char>) -> bool {
    c.binding(n) matches Some(BindingView::Never(_))
}

/// The pattern element for input `n`: the case's expression if it binds `n` to one,
/// a plain capture otherwise.
pub open spec fn input_pattern(c: CaseView, n: Seq<char>) -> InputPatternView {
    match c.binding(n) {
        Some(BindingView::Expr(_, e)) => InputPatternView::Match(n, e),
        _ => InputPatternView::Capture(n),
    }
}

/// The pattern that selects a case, if it has one: an accessor destructures the
/// case's variant; a lookup matches each input, and a case that declares an input
/// absent cannot be selected.
pub open spec fn pattern_of(s: FunctionSpecView, c: CaseView) -> Option<PatternView> {
    if s.is_accessor() {
        Some(PatternView::SelfShape(self_expr(c.variant)))
    } else if exists|k: int| 0 <= k < s.inputs.len() && never_binds(c, #[trigger] s.inputs[k]) {
        None
    } else {
        Some(PatternView::Inputs(s.inputs.map_values(|n: Seq<char>| input_pattern(c, n))))
    }
}

/// What a case produces, if anything: an accessor the case's binding for its slot
/// (none when the slot is unbound or absent); a lookup the case's variant.
pub open spec fn output_of(s: FunctionSpecView, c: CaseView) -> Option<OutputView> {
    if !s.is_accessor() {
        Some(OutputView::SelfShape(self_expr(c.variant)))
    } else {
        match c.binding(s.output()) {
            Some(BindingView::Field(n)) => Some(OutputView::Slot(n)),
            Some(BindingView::Expr(_, e)) => Some(OutputView::Value(e)),
            _ => None,
        }
    }
}

/// The case has both a pattern and an output for the function.
pub open spec fn generatable(s: FunctionSpecView, c: CaseView) -> bool {
    pattern_of(s, c) is Some && output_of(s, c) is Some
}

/// The arms of a function: one per generatable case, in case order.
pub open spec fn arms_of(s: FunctionSpecView, cases: Seq<CaseView>) -> Seq<ArmView>
    decreases cases.len(),
{
    if cases.len() == 0 {
        Seq::empty()
    } else {
        let prev = arms_of(s, cases.drop_last());
        let i = cases.len() - 1;
        if generatable(s, cases[i]) {
            prev.push(
                ArmView {
                    case_index: i,
                    pattern: pattern_of(s, cases[i]).unwrap(),
                    output: output_of(s, cases[i]).unwrap(),
                },
            )
        } else {
            prev
        }
    }
}

impl FunctionSpec {
    /// The pattern that selects `case`, if it has one.
    pub fn gen_pattern(&self, case: &Case) -> (r: Option<Pattern>)
        requires
            unique_names(case@.bindings),
        ensures
            r matches Some(p) ==> pattern_of(self@, case@) == Some(p@),
            r is None ==> pattern_of(self@, case@) is None,
    {
        if self.is_accessor() {
            return Some(Pattern::SelfShape(case.gen_self_expr()));
        }
        let ghost s = self@;
        let inputs = &self.signature.inputs;
        let mut out: Vec<InputPattern> = Vec::new();
        let mut i: usize = 0;
        while i < inputs.len()
            invariant
                i <= inputs@.len(),
                s == self@,
                !s.is_accessor(),
                inputs == self.signature.inputs,
                unique_names(case@.bindings),
                out@.len() == i,
                forall|k: int| 0 <= k < i ==> !never_binds(case@, #[trigger] s.inputs[k]),
                forall|k: int| 0 <= k < i ==> #[trigger] out@[k]@ == input_pattern(case@, s.inputs[k]),
            decreases inputs@.len() - i,
        {
            let name = &inputs[i];
            assert(name@ == s.inputs[i as int]);
            let p = match case.binding(name) {
                Some(Binding::Never { .. }) => {
                    assert(never_binds(case@, s.inputs[i as int]));
                    return None;
                },
                Some(Binding::Expr { expr, .. }) => InputPattern::Match { name: name.clone(), expr: expr.clone() },
                Some(Binding::Field { .. }) => InputPattern::Capture { name: name.clone() },
                None => InputPattern::Capture { name: name.clone() },
            };
            out.push(p);
            i = i + 1;
        }
        assert(out@.map_values(|p: InputPattern| p@) =~= s.inputs.map_values(
            |n: Seq<char>| input_pattern(case@, n),
        ));
        Some(Pattern::Inputs(out))
    }

    /// What `case` produces, if anything.
    pub fn gen_output(&self, case: &Case) -> (r: Option<Output>)
        requires
            unique_names(case@.bindings),
        ensures
            r matches Some(o) ==> output_of(self@, case@) == Some(o@),
            r is None ==> output_of(self@, case@) is None,
    {
        if !self.is_accessor() {
            return Some(Output::SelfShape(case.gen_self_expr()));
        }
        match case.binding(self.output_name()) {
            Some(Binding::Field { name }) => Some(Output::Slot(name.clone())),
            Some(Binding::Expr { expr, .. }) => Some(Output::Value(expr.clone())),
            _ => None,
        }
    }

    /// The arms of the function over `cases`, in case order.
    pub fn gen_arms(&self, cases: &Vec<Case>) -> (r: Vec<Arm>)
        requires
            well_formed_cases(cases_view(cases@)),
        ensures
            arms_view(r@) == arms_of(self@, cases_view(cases@)),
    {
        let ghost cv = cases_view(cases@);
        let mut arms: Vec<Arm> = Vec::new();
        let mut i: usize = 0;
        while i < cases.len()
            invariant
                i <= cases@.len(),
                cv == cases_view(cases@),
                well_formed_cases(cv),
                arms_view(arms@) == arms_of(self@, cv.subrange(0, i as int)),
            decreases cases@.len() - i,
        {
            let case = &cases[i];
            assert(case@ == cv[i as int]);
            assert(unique_names(cv[i as int].bindings));
            let ghost sub = cv.subrange(0, i as int + 1);
            assert(sub.drop_last() =~= cv.subrange(0, i as int));
            assert(sub[i as int] == cv[i as int]);
            if let Some(pattern) = self.gen_pattern(case) {
                if let Some(output) = self.gen_output(case) {
                    arms.push(Arm { case_index: i, pattern, output });
                    assert(arms_view(arms@) =~= arms_of(self@, sub));
                } else {
                    assert(arms_view(arms@) =~= arms_of(self@, sub));
                }
            } else {
                assert(arms_view(arms@) =~= arms_of(self@, sub));
            }
            i = i + 1;
        }
        assert(cv.subrange(0, cases@.len() as int) =~= cv);
        arms
    }
}


/// What a `match` does when no arm matches.
#[derive(Clone, Copy, Debug, PartialEq, Eq, Structural)]
pub enum Fallback {
    /// No fallback arm: the arms cover every value.
    Exhaustive,
    /// `_ => None`.
    Absent,
    /// A fatal error that shows the unmatched value.
    Fatal,
}

/// The body of a generated function.
#[derive(Debug, PartialEq, Eq)]
pub enum Body {
    /// One `match` over the subject; with `wrap_present`, each output is wrapped in `Some`.
    Match { arms: Vec<Arm>, wrap_present: bool, fallback: Fallback },
    /// Each arm tested in turn with `if let`, every match's output pushed onto a `Vec`.
    Scan { arms: Vec<Arm> },
}

pub enum BodyView {
    Match(Seq<ArmView>, bool, Fallback),
    Scan(Seq<ArmView>),
}

impl View for Body {
    type V = BodyView;

    open spec fn view(&self) -> BodyView {
        match self {
            Body::Match { arms, wrap_present, fallback } => BodyView::Match(arms_view(arms@), *wrap_present, *fallback),
            Body::Scan { arms } => BodyView::Scan(arms_view(arms@)),
        }
    }
}

/// The value that a generated function dispatches on.
#[derive(Debug, PartialEq, Eq)]
pub enum Subject {
    /// The receiver: `*self` when taken by reference, else `self`.
    Receiver { by_ref: bool },
    /// The tuple of the inputs, in order.
    Inputs(Vec<String>),
}

pub enum SubjectView {
    Receiver(bool),
    Inputs(Seq<Seq<char>>),
}

impl View for Subject {
    type V = SubjectView;

    open spec fn view(&self) -> SubjectView {
        match self {
            Subject::Receiver { by_ref } => SubjectView::Receiver(*by_ref),
            Subject::Inputs(ns) => SubjectView::Inputs(ns@.map_values(|n: String| n@)),
        }
    }
}

/// One generated function: its visibility and signature as written, what it
/// dispatches on, and its body.
#[derive(Debug, PartialEq, Eq)]
pub struct GeneratedFunction {
    pub visibility: String,
    pub signature: String,
    pub subject: Subject,
    pub body: Body,
}

/// The value that a function dispatches on.
pub open spec fn subject_of(s: FunctionSpecView) -> SubjectView {
    match s.receiver {
        Some(by_ref) => SubjectView::Receiver(by_ref),
        None => SubjectView::Inputs(s.inputs),
    }
}

/// The body for each output mode: the arms of the generatable cases, in case order;
/// `Strict` with no fallback, `Unwrap` with a fatal one, `Option` wrapping each
/// output and falling back to `None`, `Vec` collecting every match.
pub open spec fn body_of(s: FunctionSpecView, cases: Seq<CaseView>) -> BodyView {
    let arms = arms_of(s, cases);
    match s.mode {
        OutputMode::Strict => BodyView::Match(arms, false, Fallback::Exhaustive),
        OutputMode::Unwrap => BodyView::Match(arms, false, Fallback::Fatal),
        OutputMode::Optional => BodyView::Match(arms, true, Fallback::Absent),
        OutputMode::Collect => BodyView::Scan(arms),
    }
}

impl FunctionSpec {
    /// What the function dispatches on.
    pub fn gen_match_expr(&self) -> (r: Subject)
        ensures
            r@ == subject_of(self@),
    {
        match self.signature.receiver {
            Some(by_ref) => Subject::Receiver { by_ref },
            None => {
                let ins = &self.signature.inputs;
                let mut out: Vec<String> = Vec::new();
                let mut i: usize = 0;
                while i < ins.len()
                    invariant
                        i <= ins@.len(),
                        out@.len() == i,
                        forall|k: int| 0 <= k < i ==> #[trigger] out@[k]@ == ins@[k]@,
                    decreases ins@.len() - i,
                {
                    out.push(ins[i].clone());
                    i = i + 1;
                }
                assert(out@.map_values(|n: String| n@) =~= ins@.map_values(|n: String| n@));
                Subject::Inputs(out)
            },
        }
    }

    /// A `match` with no fallback arm.
    pub fn gen_body_strict(&self, cases: &Vec<Case>) -> (r: Body)
        requires
            well_formed_cases(cases_view(cases@)),
        ensures
            r@ == BodyView::Match(arms_of(self@, cases_view(cases@)), false, Fallback::Exhaustive),
    {
        Body::Match { arms: self.gen_arms(cases), wrap_present: false, fallback: Fallback::Exhaustive }
    }

    /// A `match` whose fallback arm is a fatal error.
    pub fn gen_body_unwrap(&self, cases: &Vec<Case>) -> (r: Body)
        requires
            well_formed_cases(cases_view(cases@)),
        ensures
            r@ == BodyView::Match(arms_of(self@, cases_view(cases@)), false, Fallback::Fatal),
    {
        Body::Match { arms: self.gen_arms(cases), wrap_present: false, fallback: Fallback::Fatal }
    }

    /// A `match` that wraps each output in `Some` and falls back to `None`.
    pub fn gen_body_option(&self, cases: &Vec<Case>) -> (r: Body)
        requires
            well_formed_cases(cases_view(cases@)),
        ensures
            r@ == BodyView::Match(arms_of(self@, cases_view(cases@)), true, Fallback::Absent),
    {
        Body::Match { arms: self.gen_arms(cases), wrap_present: true, fallback: Fallback::Absent }
    }

    /// A scan that collects the output of every matching arm.
    pub fn gen_body_vec(&self, cases: &Vec<Case>) -> (r: Body)
        requires
            well_formed_cases(cases_view(cases@)),
        ensures
            r@ == BodyView::Scan(arms_of(self@, cases_view(cases@))),
    {
        Body::Scan { arms: self.gen_arms(cases) }
    }

    /// The function generated from this description over `cases`.
    pub fn gen_function(&self, cases: &Vec<Case>) -> (r: GeneratedFunction)
        requires
            well_formed_cases(cases_view(cases@)),
        ensures
            r.visibility@ == self.visibility@,
            r.signature@ == self.signature.text@,
            r.subject@ == subject_of(self@),
            r.body@ == body_of(self@, cases_view(cases@)),
    {
        let body = match self.output_mode {
            OutputMode::Strict => self.gen_body_strict(cases),
            OutputMode::Unwrap => self.gen_body_unwrap(cases),
            OutputMode::Optional => self.gen_body_option(cases),
            OutputMode::Collect => self.gen_body_vec(cases),
        };
        GeneratedFunction {
            visibility: self.visibility.clone(),
            signature: self.signature.text.clone(),
            subject: self.gen_match_expr(),
            body,
        }
    }
}

} // verus!
