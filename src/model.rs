use vstd::prelude::*;

verus! {

/// What a generated function does when zero, one or several cases match.
#[derive(Clone, Copy, Debug, PartialEq, Eq, Structural)]
pub enum OutputMode {
    /// `Some(output)` for the first match, `None` otherwise.
    Optional,
    /// The output of the first match; coverage is checked at generation time.
    Strict,
    /// The output of the first match; a fatal error when nothing matches.
    Unwrap,
    /// The outputs of every match, in case order.
    Collect,
}

/// The output mode that a keyword names, if any: `Option`, `Strict`, `Unwrap`, `Vec`.
pub open spec fn mode_of_word(w: Seq<char>) -> Option<OutputMode> {
    if w == seq!['O', 'p', 't', 'i', 'o', 'n'] {
        Some(OutputMode::Optional)
    } else if w == seq!['S', 't', 'r', 'i', 'c', 't'] {
        Some(OutputMode::Strict)
    } else if w == seq!['U', 'n', 'w', 'r', 'a', 'p'] {
        Some(OutputMode::Unwrap)
    } else if w == seq!['V', 'e', 'c'] {
        Some(OutputMode::Collect)
    } else {
        None
    }
}

/// Recognises the keyword of an output mode.
pub fn parse_output_mode(word: &str) -> (r: Option<OutputMode>)
    ensures
        r == mode_of_word(word@),
{
    proof {
        reveal_strlit("Option");
        reveal_strlit("Strict");
        reveal_strlit("Unwrap");
        reveal_strlit("Vec");
        assert("Option"@ =~= seq!['O', 'p', 't', 'i', 'o', 'n']);
        assert("Strict"@ =~= seq!['S', 't', 'r', 'i', 'c', 't']);
        assert("Unwrap"@ =~= seq!['U', 'n', 'w', 'r', 'a', 'p']);
        assert("Vec"@ =~= seq!['V', 'e', 'c']);
    }
    let w = word.to_owned();
    if w == "Option".to_owned() {
        Some(OutputMode::Optional)
    } else if w == "Strict".to_owned() {
        Some(OutputMode::Strict)
    } else if w == "Unwrap".to_owned() {
        Some(OutputMode::Unwrap)
    } else if w == "Vec".to_owned() {
        Some(OutputMode::Collect)
    } else {
        None
    }
}

/// One named slot of a case.
#[derive(Debug, PartialEq, Eq)]
pub enum Binding {
    /// The value is the variant's stored field of the same name.
    Field { name: String },
    /// The value is an expression, reused as a pattern when matching input.
    Expr { name: String, expr: String },
    /// The slot is declared absent for this case.
    Never { name: String },
}

/// A binding seen as plain text.
pub enum BindingView {
    Field(Seq<char>),
    Expr(Seq<char>, Seq<char>),
    Never(Seq<char>),
}

impl BindingView {
    pub open spec fn name(self) -> Seq<char> {
        match self {
            BindingView::Field(n) => n,
            BindingView::Expr(n, _) => n,
            BindingView::Never(n) => n,
        }
    }
}

impl View for Binding {
    type V = BindingView;

    open spec fn view(&self) -> BindingView {
        match self {
            Binding::Field { name } => BindingView::Field(name@),
            Binding::Expr { name, expr } => BindingView::Expr(name@, expr@),
            Binding::Never { name } => BindingView::Never(name@),
        }
    }
}

impl Binding {
    pub fn name(&self) -> (r: &String)
        ensures
            r@ == self@.name(),
    {
        match self {
            Binding::Field { name } => name,
            Binding::Expr { name, .. } => name,
            Binding::Never { name } => name,
        }
    }

    pub fn duplicate(&self) -> (r: Binding)
        ensures
            r@ == self@,
    {
        match self {
            Binding::Field { name } => Binding::Field { name: name.clone() },
            Binding::Expr { name, expr } => Binding::Expr { name: name.clone(), expr: expr.clone() },
            Binding::Never { name } => Binding::Never { name: name.clone() },
        }
    }
}

/// The stored fields of a variant.
#[derive(Debug, PartialEq, Eq)]
pub enum Fields {
    Named(Vec<String>),
    Unnamed(usize),
    Unit,
}

pub enum FieldsView {
    Named(Seq<Seq<char>>),
    Unnamed(nat),
    Unit,
}

impl View for Fields {
    type V = FieldsView;

    open spec fn view(&self) -> FieldsView {
        match self {
            Fields::Named(ns) => FieldsView::Named(ns@.map_values(|n: String| n@)),
            Fields::Unnamed(k) => FieldsView::Unnamed(*k as nat),
            Fields::Unit => FieldsView::Unit,
        }
    }
}

/// One variant of the union: its name and its stored fields.
#[derive(Debug, PartialEq, Eq)]
pub struct VariantDecl {
    pub name: String,
    pub fields: Fields,
}

pub struct VariantView {
    pub name: Seq<char>,
    pub fields: FieldsView,
}

impl View for VariantDecl {
    type V = VariantView;

    open spec fn view(&self) -> VariantView {
        VariantView { name: self.name@, fields: self.fields@ }
    }
}

/// The text of a decimal digit.
pub open spec fn digit_text(d: nat) -> Seq<char> {
    seq![(('0' as u8) + (d % 10) as u8) as char]
}

/// The decimal text of a number.
pub open spec fn decimal(n: nat) -> Seq<char>
    decreases n,
{
    if n < 10 {
        digit_text(n)
    } else {
        decimal(n / 10) + digit_text(n % 10)
    }
}

/// The name given to the positional field at index `i`: `_0`, `_1`, ...
pub open spec fn positional_name(i: nat) -> Seq<char> {
    seq!['_'] + decimal(i)
}

/// The slot names that a variant's stored fields provide, in order.
pub open spec fn field_names(f: FieldsView) -> Seq<Seq<char>> {
    match f {
        FieldsView::Named(ns) => ns,
        FieldsView::Unnamed(k) => Seq::new(k, |i: int| positional_name(i as nat)),
        FieldsView::Unit => Seq::empty(),
    }
}

fn digit_str(d: usize) -> (r: &'static str)
    requires
        d < 10,
    ensures
        r@ == digit_text(d as nat),
{
    proof {
        reveal_strlit("0");
        reveal_strlit("1");
        reveal_strlit("2");
        reveal_strlit("3");
        reveal_strlit("4");
        reveal_strlit("5");
        reveal_strlit("6");
        reveal_strlit("7");
        reveal_strlit("8");
        reveal_strlit("9");
    }
    if d == 0 {
        "0"
    } else if d == 1 {
        "1"
    } else if d == 2 {
        "2"
    } else if d == 3 {
        "3"
    } else if d == 4 {
        "4"
    } else if d == 5 {
        "5"
    } else if d == 6 {
        "6"
    } else if d == 7 {
        "7"
    } else if d == 8 {
        "8"
    } else {
        "9"
    }
}

fn decimal_text(n: usize) -> (r: String)
    ensures
        r@ == decimal(n as nat),
    decreases n,
{
    if n < 10 {
        digit_str(n).to_owned()
    } else {
        let mut s = decimal_text(n / 10);
        s.append(digit_str(n % 10));
        s
    }
}

/// The name of the positional field at index `i`.
pub fn positional_field_name(i: usize) -> (r: String)
    ensures
        r@ == positional_name(i as nat),
{
    proof {
        reveal_strlit("_");
    }
    let s = "_".to_owned();
    s.concat(decimal_text(i).as_str())
}


impl Fields {
    pub fn duplicate(&self) -> (r: Fields)
        ensures
            r@ == self@,
    {
        match self {
            Fields::Named(ns) => {
                let mut out: Vec<String> = Vec::new();
                let mut i: usize = 0;
                while i < ns.len()
                    invariant
                        i <= ns.len(),
                        out@.len() == i,
                        forall|k: int| 0 <= k < i ==> out@[k]@ == ns@[k]@,
                    decreases ns.len() - i,
                {
                    out.push(ns[i].clone());
                    i = i + 1;
                }
                assert(out@.map_values(|n: String| n@) =~= ns@.map_values(|n: String| n@));
                Fields::Named(out)
            },
            Fields::Unnamed(k) => Fields::Unnamed(*k),
            Fields::Unit => Fields::Unit,
        }
    }
}

impl VariantDecl {
    pub fn duplicate(&self) -> (r: VariantDecl)
        ensures
            r@ == self@,
    {
        VariantDecl { name: self.name.clone(), fields: self.fields.duplicate() }
    }
}

/// The view of a list of bindings.
pub open spec fn bindings_view(bs: Seq<Binding>) -> Seq<BindingView> {
    bs.map_values(|b: Binding| b@)
}

/// One alternative of one variant: the variant and the slots it binds.
#[derive(Debug, PartialEq, Eq)]
pub struct Case {
    pub variant: VariantDecl,
    pub bindings: Vec<Binding>,
}

pub struct CaseView {
    pub variant: VariantView,
    pub bindings: Seq<BindingView>,
}

impl View for Case {
    type V = CaseView;

    open spec fn view(&self) -> CaseView {
        CaseView { variant: self.variant@, bindings: bindings_view(self.bindings@) }
    }
}

/// The view of a list of cases.
pub open spec fn cases_view(cs: Seq<Case>) -> Seq<CaseView> {
    cs.map_values(|c: Case| c@)
}

/// Whether some binding of the list has the name `n`.
pub open spec fn has_name(bs: Seq<BindingView>, n: Seq<char>) -> bool {
    exists|i: int| 0 <= i < bs.len() && bs[i].name() == n
}

/// No two bindings of the list share a name.
pub open spec fn unique_names(bs: Seq<BindingView>) -> bool {
    forall|i: int, j: int| 0 <= i < bs.len() && 0 <= j < bs.len() && i != j ==> bs[i].name() != bs[j].name()
}

/// The binding named `n`, if the list holds one.
pub open spec fn binding_named(bs: Seq<BindingView>, n: Seq<char>) -> Option<BindingView> {
    if has_name(bs, n) {
        Some(bs[choose|i: int| 0 <= i < bs.len() && bs[i].name() == n])
    } else {
        None
    }
}

impl CaseView {
    /// The case binds the slot `n`, with a binding of any kind.
    pub open spec fn binds(self, n: Seq<char>) -> bool {
        has_name(self.bindings, n)
    }

    pub open spec fn binding(self, n: Seq<char>) -> Option<BindingView> {
        binding_named(self.bindings, n)
    }
}

/// Adds a binding to a list, replacing the one of the same name if there is one.
pub open spec fn insert_binding(bs: Seq<BindingView>, b: BindingView) -> Seq<BindingView> {
    if has_name(bs, b.name()) {
        bs.update(choose|i: int| 0 <= i < bs.len() && bs[i].name() == b.name(), b)
    } else {
        bs.push(b)
    }
}

/// Adds each binding of `g` in turn.
pub open spec fn insert_bindings(bs: Seq<BindingView>, g: Seq<BindingView>) -> Seq<BindingView>
    decreases g.len(),
{
    if g.len() == 0 {
        bs
    } else {
        insert_binding(insert_bindings(bs, g.drop_last()), g.last())
    }
}


/// Why an annotation or a function description was rejected.
#[derive(Debug, PartialEq, Eq)]
pub enum BindError {
    /// The annotation does not follow its grammar; `found` is the offending token text.
    Syntax { expected: String, found: String },
    /// An explicit binding reuses the name of one of the variant's stored fields.
    FieldRedefined { variant: String, name: String },
    /// An accessor returns a slot that no case binds.
    NoOutput { function: String, name: String },
    /// A strict accessor returns a slot that this variant's case does not bind.
    StrictUncovered { function: String, variant: String },
    /// A lookup input that this variant's case does not bind.
    InputUncovered { function: String, variant: String, name: String },
    /// An accessor argument named like an expression or absent binding of this variant.
    ArgumentConflict { function: String, variant: String, name: String },
    /// The function declares no return type.
    MissingReturnType { function: String },
}

pub enum ErrorView {
    Syntax(Seq<char>, Seq<char>),
    FieldRedefined(Seq<char>, Seq<char>),
    NoOutput(Seq<char>, Seq<char>),
    StrictUncovered(Seq<char>, Seq<char>),
    InputUncovered(Seq<char>, Seq<char>, Seq<char>),
    ArgumentConflict(Seq<char>, Seq<char>, Seq<char>),
    MissingReturnType(Seq<char>),
}

impl View for BindError {
    type V = ErrorView;

    open spec fn view(&self) -> ErrorView {
        match self {
            BindError::Syntax { expected, found } => ErrorView::Syntax(expected@, found@),
            BindError::FieldRedefined { variant, name } => ErrorView::FieldRedefined(variant@, name@),
            BindError::NoOutput { function, name } => ErrorView::NoOutput(function@, name@),
            BindError::StrictUncovered { function, variant } => ErrorView::StrictUncovered(
                function@,
                variant@,
            ),
            BindError::InputUncovered { function, variant, name } => ErrorView::InputUncovered(
                function@,
                variant@,
                name@,
            ),
            BindError::ArgumentConflict { function, variant, name } => ErrorView::ArgumentConflict(
                function@,
                variant@,
                name@,
            ),
            BindError::MissingReturnType { function } => ErrorView::MissingReturnType(function@),
        }
    }
}


/// What the validator and the generator read of a function's signature.
#[derive(Debug, PartialEq, Eq)]
pub struct Signature {
    /// The function's name.
    pub name: String,
    /// `Some(by_ref)` when the function takes `self` (`by_ref`: as `&self`).
    pub receiver: Option<bool>,
    /// The names of the typed parameters, in order, the receiver left out.
    pub inputs: Vec<String>,
    /// The signature declares a return type.
    pub has_return: bool,
    /// The signature's source text, for emission.
    pub text: String,
}

/// One declarative function description.
#[derive(Debug, PartialEq, Eq)]
pub struct FunctionSpec {
    /// The visibility's source text (empty for private).
    pub visibility: String,
    pub signature: Signature,
    pub output_mode: OutputMode,
    /// The slot that an accessor returns, when it is not the function's own name.
    pub output_name: Option<String>,
}

pub struct FunctionSpecView {
    pub name: Seq<char>,
    pub receiver: Option<bool>,
    pub inputs: Seq<Seq<char>>,
    pub has_return: bool,
    pub mode: OutputMode,
    pub output_name: Option<Seq<char>>,
}

impl View for FunctionSpec {
    type V = FunctionSpecView;

    open spec fn view(&self) -> FunctionSpecView {
        FunctionSpecView {
            name: self.signature.name@,
            receiver: self.signature.receiver,
            inputs: self.signature.inputs@.map_values(|n: String| n@),
            has_return: self.signature.has_return,
            mode: self.output_mode,
            output_name: match self.output_name {
                Some(n) => Some(n@),
                None => None,
            },
        }
    }
}

impl FunctionSpecView {
    /// The function takes the union instance and returns a slot's value.
    pub open spec fn is_accessor(self) -> bool {
        self.receiver is Some
    }

    /// The slot that an accessor returns: the rename if there is one, else the
    /// function's name.
    pub open spec fn output(self) -> Seq<char> {
        match self.output_name {
            Some(n) => n,
            None => self.name,
        }
    }
}

impl Signature {
    pub fn duplicate(&self) -> (r: Signature)
        ensures
            r.name@ == self.name@,
            r.receiver == self.receiver,
            r.inputs@.map_values(|n: String| n@) == self.inputs@.map_values(|n: String| n@),
            r.has_return == self.has_return,
            r.text@ == self.text@,
    {
        let mut inputs: Vec<String> = Vec::new();
        let mut i: usize = 0;
        while i < self.inputs.len()
            invariant
                i <= self.inputs@.len(),
                inputs@.len() == i,
                forall|k: int| 0 <= k < i ==> #[trigger] inputs@[k]@ == self.inputs@[k]@,
            decreases self.inputs@.len() - i,
        {
            inputs.push(self.inputs[i].clone());
            i = i + 1;
        }
        assert(inputs@.map_values(|n: String| n@) =~= self.inputs@.map_values(|n: String| n@));
        Signature {
            name: self.name.clone(),
            receiver: self.receiver,
            inputs,
            has_return: self.has_return,
            text: self.text.clone(),
        }
    }
}

impl FunctionSpec {
    /// The slot that an accessor returns.
    pub fn output_name(&self) -> (r: &String)
        ensures
            r@ == self@.output(),
    {
        match &self.output_name {
            Some(n) => n,
            None => &self.signature.name,
        }
    }

    pub fn is_accessor(&self) -> (r: bool)
        ensures
            r == self@.is_accessor(),
    {
        self.signature.receiver.is_some()
    }
}

} // verus!
