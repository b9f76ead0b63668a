use std::collections::HashMap;

use enum_bind::derive::{collect_cases, derive_functions, FunctionInput, VariantInput};
use enum_bind::generate::{Body, Fallback, GeneratedFunction, InputPattern, Output, Pattern, Subject};
use enum_bind::model::{BindError, Case, Fields, Signature, VariantDecl};
use enum_bind::parse::Token;

/// Splits source text into the tokens that the annotation parsers read.
fn lex(src: &str) -> Vec<Token> {
    let chars: Vec<char> = src.chars().collect();
    let mut out = Vec::new();
    let mut i = 0;
    while i < chars.len() {
        let c = chars[i];
        if c.is_whitespace() {
            i += 1;
        } else if c.is_alphabetic() || c == '_' {
            let start = i;
            while i < chars.len() && (chars[i].is_alphanumeric() || chars[i] == '_') {
                i += 1;
            }
            out.push(Token::Ident(chars[start..i].iter().collect()));
        } else if c.is_ascii_digit() {
            let start = i;
            while i < chars.len() && chars[i].is_ascii_alphanumeric() {
                i += 1;
            }
            out.push(Token::Literal(chars[start..i].iter().collect()));
        } else if c == '"' {
            let start = i;
            i += 1;
            while chars[i] != '"' {
                i += 1;
            }
            i += 1;
            out.push(Token::Literal(chars[start..i].iter().collect()));
        } else if "([{".contains(c) {
            out.push(Token::Open(c.to_string()));
            i += 1;
        } else if ")]}".contains(c) {
            out.push(Token::Close(c.to_string()));
            i += 1;
        } else if c == ':' && i + 1 < chars.len() && chars[i + 1] == ':' {
            out.push(Token::Punct("::".to_string()));
            i += 2;
        } else {
            out.push(Token::Punct(c.to_string()));
            i += 1;
        }
    }
    out
}

/// A run-time value of the generated functions' domain.
#[derive(Clone, Debug, PartialEq)]
enum Val {
    Int(i64),
    Str(String),
    Opt(Option<Box<Val>>),
    Inst(String, Vec<(String, Val)>),
}

fn num(n: i64) -> Val {
    Val::Int(n)
}

fn st(s: &str) -> Val {
    Val::Str(s.to_string())
}

fn some(v: Val) -> Val {
    Val::Opt(Some(Box::new(v)))
}

fn none() -> Val {
    Val::Opt(None)
}

fn inst(name: &str, fields: Vec<(&str, Val)>) -> Val {
    Val::Inst(name.to_string(), fields.into_iter().map(|(n, v)| (n.to_string(), v)).collect())
}

fn pos(name: &str, values: Vec<Val>) -> Val {
    Val::Inst(name.to_string(), values.into_iter().enumerate().map(|(i, v)| (format!("_{i}"), v)).collect())
}

/// What a call of a generated function gives.
#[derive(Debug, PartialEq)]
enum Ret {
    One(Val),
    Many(Vec<Val>),
    Fatal,
}

fn unit(name: &str) -> VariantDecl {
    VariantDecl { name: name.to_string(), fields: Fields::Unit }
}

fn named(name: &str, fields: &[&str]) -> VariantDecl {
    VariantDecl { name: name.to_string(), fields: Fields::Named(fields.iter().map(|f| f.to_string()).collect()) }
}

fn tuple(name: &str, n: usize) -> VariantDecl {
    VariantDecl { name: name.to_string(), fields: Fields::Unnamed(n) }
}

fn variant(decl: VariantDecl, groups: &[&str]) -> VariantInput {
    VariantInput { decl, groups: groups.iter().map(|g| lex(g)).collect() }
}

/// A function annotation: `receiver` is `Some(by_ref)` for an accessor.
fn function(name: &str, receiver: Option<bool>, inputs: &[&str], suffix: &str) -> FunctionInput {
    FunctionInput {
        visibility: "pub".to_string(),
        signature: Signature {
            name: name.to_string(),
            receiver,
            inputs: inputs.iter().map(|n| n.to_string()).collect(),
            has_return: true,
            text: format!("fn {name}()"),
        },
        suffix: lex(suffix),
    }
}

/// A derived union: its cases and its generated functions with their inputs.
struct Union {
    cases: Vec<Case>,
    functions: Vec<(String, Vec<String>, GeneratedFunction)>,
}

fn derive(variants: Vec<VariantInput>, functions: Vec<FunctionInput>) -> Union {
    let cases = collect_cases(&variants).unwrap();
    let generated = derive_functions(&variants, &functions).unwrap();
    let mut out = Vec::new();
    for (f, g) in functions.iter().zip(generated) {
        out.push((f.signature.name.clone(), f.signature.inputs.clone(), g.unwrap()));
    }
    Union { cases, functions: out }
}

fn derive_errors(variants: Vec<VariantInput>, functions: Vec<FunctionInput>) -> Vec<Option<BindError>> {
    derive_functions(&variants, &functions).unwrap().into_iter().map(|r| r.err()).collect()
}

type Env = HashMap<String, Val>;

fn field_names(decl: &VariantDecl) -> Vec<String> {
    match &decl.fields {
        Fields::Named(ns) => ns.clone(),
        Fields::Unnamed(n) => (0..*n).map(|i| format!("_{i}")).collect(),
        Fields::Unit => vec![],
    }
}

/// Reads an expression: literals, names, `*name`, `Some(e)`, `None`, sums, and
/// `Type::Variant.method()` on a unit variant.
fn eval(ts: &[Token], at: &mut usize, env: &Env, u: &Union) -> Val {
    let mut v = eval_term(ts, at, env, u);
    while *at < ts.len() && ts[*at] == Token::Punct("+".to_string()) {
        *at += 1;
        let w = eval_term(ts, at, env, u);
        v = match (v, w) {
            (Val::Int(a), Val::Int(b)) => Val::Int(a + b),
            _ => panic!("sum of non-integers"),
        };
    }
    v
}

fn eval_term(ts: &[Token], at: &mut usize, env: &Env, u: &Union) -> Val {
    let t = ts[*at].clone();
    *at += 1;
    match t {
        Token::Literal(l) if l.starts_with('"') => Val::Str(l[1..l.len() - 1].to_string()),
        Token::Literal(l) => Val::Int(l.parse().unwrap()),
        Token::Punct(p) if p == "*" => eval_term(ts, at, env, u),
        Token::Ident(n) if n == "None" => none(),
        Token::Ident(n) if n == "Some" => {
            *at += 1;
            let v = eval(ts, at, env, u);
            *at += 1;
            some(v)
        },
        Token::Ident(n) => {
            if *at < ts.len() && ts[*at] == Token::Punct("::".to_string()) {
                let Token::Ident(var) = ts[*at + 1].clone() else { panic!("expected a variant") };
                let Token::Ident(method) = ts[*at + 3].clone() else { panic!("expected a method") };
                *at += 6;
                match call(u, &method, Some(&inst(&var, vec![])), vec![]) {
                    Ret::One(v) => v,
                    other => panic!("unexpected {other:?}"),
                }
            } else {
                env.get(&n).unwrap_or_else(|| panic!("unbound {n}")).clone()
            }
        },
        other => panic!("unexpected token {other:?}"),
    }
}

/// Matches a value against an expression read as a pattern, binding its names.
fn matches(ts: &[Token], at: &mut usize, v: &Val, env: &mut Env) -> bool {
    let t = ts[*at].clone();
    *at += 1;
    match t {
        Token::Ident(n) if n == "_" => true,
        Token::Ident(n) if n == "None" => *v == none(),
        Token::Ident(n) if n == "Some" => {
            *at += 1;
            let r = match v {
                Val::Opt(Some(inner)) => matches(ts, at, inner, env),
                _ => false,
            };
            *at += 1;
            r
        },
        Token::Ident(n) => {
            env.insert(n, v.clone());
            if *at < ts.len() && ts[*at] == Token::Punct("@".to_string()) {
                *at += 1;
                matches(ts, at, v, env)
            } else {
                true
            }
        },
        Token::Literal(l) if l.starts_with('"') => *v == Val::Str(l[1..l.len() - 1].to_string()),
        Token::Literal(l) => *v == Val::Int(l.parse().unwrap()),
        other => panic!("unexpected token {other:?}"),
    }
}

/// Runs a generated function the way the emitted code would.
fn call(u: &Union, name: &str, receiver: Option<&Val>, args: Vec<Val>) -> Ret {
    let (_, inputs, g) = u.functions.iter().find(|(n, _, _)| n == name).unwrap();
    let mut outs = Vec::new();
    let arms = match &g.body {
        Body::Match { arms, .. } => arms,
        Body::Scan { arms } => arms,
    };
    for arm in arms {
        let case = &u.cases[arm.case_index];
        let mut env: Env = inputs.iter().cloned().zip(args.iter().cloned()).collect();
        let matched = match (&arm.pattern, &g.subject) {
            (Pattern::SelfShape(_), Subject::Receiver { .. }) => {
                let Some(Val::Inst(v, fields)) = receiver else { panic!("no receiver") };
                if *v == case.variant.name {
                    env.extend(fields.iter().cloned());
                    true
                } else {
                    false
                }
            },
            (Pattern::Inputs(ps), Subject::Inputs(names)) => {
                assert_eq!(names, inputs);
                ps.iter().zip(args.iter()).all(|(p, v)| match p {
                    InputPattern::Capture { name } => {
                        env.insert(name.clone(), v.clone());
                        true
                    },
                    InputPattern::Match { name, expr } => {
                        env.insert(name.clone(), v.clone());
                        matches(&lex(expr), &mut 0, v, &mut env)
                    },
                })
            },
            _ => panic!("pattern and subject disagree"),
        };
        if !matched {
            continue;
        }
        let out = match &arm.output {
            Output::Slot(n) => env[n].clone(),
            Output::Value(e) => eval(&lex(e), &mut 0, &env, u),
            Output::SelfShape(_) => Val::Inst(
                case.variant.name.clone(),
                field_names(&case.variant).into_iter().map(|f| (f.clone(), env[&f].clone())).collect(),
            ),
        };
        outs.push(out);
    }
    match &g.body {
        Body::Scan { .. } => Ret::Many(outs),
        Body::Match { wrap_present, fallback, .. } => match (outs.into_iter().next(), wrap_present, fallback) {
            (Some(v), true, _) => Ret::One(some(v)),
            (Some(v), false, _) => Ret::One(v),
            (None, _, Fallback::Absent) => Ret::One(none()),
            (None, _, _) => Ret::Fatal,
        },
    }
}

fn get(u: &Union, name: &str, x: Val) -> Val {
    match call(u, name, Some(&x), vec![]) {
        Ret::One(v) => v,
        other => panic!("unexpected {other:?}"),
    }
}

fn lookup(u: &Union, name: &str, args: Vec<Val>) -> Ret {
    call(u, name, None, args)
}

#[test]
fn test_enum_getter() {
    let u = derive(
        vec![
            variant(unit("Alpha"), &["x = 1"]),
            variant(unit("Beta"), &["x = 1 + 1"]),
            variant(unit("Gamma"), &["x = TestEnumGetter::Beta.x() + 1"]),
            variant(named("Delta", &["a"]), &["x = *a"]),
            variant(tuple("Epsilon", 1), &["x = *_0"]),
        ],
        vec![function("x", Some(true), &[], ", return = Strict")],
    );
    assert_eq!(get(&u, "x", inst("Alpha", vec![])), num(1));
    assert_eq!(get(&u, "x", inst("Beta", vec![])), num(2));
    assert_eq!(get(&u, "x", inst("Gamma", vec![])), num(3));
    assert_eq!(get(&u, "x", inst("Delta", vec![("a", num(4))])), num(4));
    assert_eq!(get(&u, "x", pos("Epsilon", vec![num(5)])), num(5));
}

#[test]
fn test_enum_getter_with_rename() {
    let u = derive(
        vec![variant(unit("Alpha"), &["x = 1"]), variant(unit("Beta"), &["x = 2"])],
        vec![function("get_x", Some(true), &[], ", return = Strict(x)")],
    );
    assert_eq!(get(&u, "get_x", inst("Alpha", vec![])), num(1));
    assert_eq!(get(&u, "get_x", inst("Beta", vec![])), num(2));
}

#[test]
fn all_argument_binding_cases_create() {
    let u = derive(
        vec![
            variant(unit("Alpha"), &["x = 1"]),
            variant(named("Beta", &["x"]), &[]),
            variant(named("Gamma", &["y"]), &["x = y"]),
            variant(tuple("Delta", 1), &["x = _0"]),
            variant(tuple("Epsilon", 1), &["x = !"]),
            variant(unit("Zeta"), &["x = _"]),
        ],
        vec![function("create", None, &["x"], ", return = Vec")],
    );
    assert_eq!(
        lookup(&u, "create", vec![num(1)]),
        Ret::Many(vec![
            inst("Alpha", vec![]),
            inst("Beta", vec![("x", num(1))]),
            inst("Gamma", vec![("y", num(1))]),
            pos("Delta", vec![num(1)]),
            inst("Zeta", vec![]),
        ])
    );
    assert_eq!(
        lookup(&u, "create", vec![num(2)]),
        Ret::Many(vec![
            inst("Beta", vec![("x", num(2))]),
            inst("Gamma", vec![("y", num(2))]),
            pos("Delta", vec![num(2)]),
            inst("Zeta", vec![]),
        ])
    );
}

#[test]
fn all_argument_binding_cases_select() {
    let u = derive(
        vec![
            variant(unit("Alpha"), &["x = 1"]),
            variant(named("Beta", &["x"]), &[]),
            variant(named("Gamma", &["y"]), &["x = y"]),
            variant(tuple("Delta", 1), &["x = _0"]),
            variant(tuple("Epsilon", 1), &["x = !"]),
        ],
        vec![function("x", Some(false), &[], ", return = Option")],
    );
    assert_eq!(get(&u, "x", inst("Alpha", vec![])), some(num(1)));
    assert_eq!(get(&u, "x", inst("Beta", vec![("x", num(2))])), some(num(2)));
    assert_eq!(get(&u, "x", inst("Gamma", vec![("y", num(3))])), some(num(3)));
    assert_eq!(get(&u, "x", pos("Delta", vec![num(4)])), some(num(4)));
    assert_eq!(get(&u, "x", pos("Epsilon", vec![num(5)])), none());
}

#[test]
fn extract_key() {
    let u = derive(
        vec![
            variant(unit("Alpha"), &["a = 1"]),
            variant(named("Beta", &["a"]), &[]),
            variant(named("Gamma", &["b"]), &[]),
        ],
        vec![function("a", Some(true), &[], "")],
    );
    assert_eq!(get(&u, "a", inst("Alpha", vec![])), some(num(1)));
    assert_eq!(get(&u, "a", inst("Beta", vec![("a", num(2))])), some(num(2)));
    assert_eq!(get(&u, "a", inst("Gamma", vec![("b", st("test"))])), none());
}

#[test]
fn bidi_capture() {
    let u = derive(
        vec![variant(named("Alpha", &["b"]), &["a = Some(b)"]), variant(named("Beta", &["a"]), &[])],
        vec![function("a", Some(true), &[], ", return = Strict(a)"), function("by_a", None, &["a"], "")],
    );
    assert_eq!(get(&u, "a", inst("Alpha", vec![("b", num(100))])), some(num(100)));
    assert_eq!(get(&u, "a", inst("Beta", vec![("a", some(num(2)))])), some(num(2)));
    assert_eq!(get(&u, "a", inst("Beta", vec![("a", none())])), none());

    assert_eq!(lookup(&u, "by_a", vec![some(num(1))]), Ret::One(some(inst("Alpha", vec![("b", num(1))]))));
    assert_eq!(lookup(&u, "by_a", vec![none()]), Ret::One(some(inst("Beta", vec![("a", none())]))));
}

#[test]
fn map_fields() {
    let u = derive(
        vec![
            variant(named("Function", &["name"]), &[]),
            variant(named("Struct", &["struct_name"]), &["name = struct_name"]),
            variant(named("Variable", &["const_name"]), &["name = const_name"]),
            variant(unit("Marker"), &[r#"name = "marker""#]),
        ],
        vec![function("name", Some(true), &[], "")],
    );
    assert_eq!(get(&u, "name", inst("Function", vec![("name", st("foo"))])), some(st("foo")));
    assert_eq!(get(&u, "name", inst("Struct", vec![("struct_name", st("Bar"))])), some(st("Bar")));
    assert_eq!(get(&u, "name", inst("Variable", vec![("const_name", st("BAZ"))])), some(st("BAZ")));
    assert_eq!(get(&u, "name", inst("Marker", vec![])), some(st("marker")));
}

#[test]
fn dispatch_and_map_input_to_different_fields() {
    let u = derive(
        vec![
            variant(named("Function", &["name"]), &[r#"kind = "fn""#]),
            variant(named("Struct", &["struct_name"]), &[r#"kind = "struct", name = struct_name"#]),
            variant(named("Variable", &["const_name"]), &[r#"kind = "const", name = const_name"#]),
            variant(unit("Marker"), &[r#"kind = "marker", name = "marker""#]),
        ],
        vec![
            function("create", None, &["kind", "name"], ""),
            function("name", Some(true), &[], ", return = Strict(name)"),
        ],
    );
    assert_eq!(
        lookup(&u, "create", vec![st("fn"), st("foo")]),
        Ret::One(some(inst("Function", vec![("name", st("foo"))])))
    );
    assert_eq!(
        lookup(&u, "create", vec![st("struct"), st("Bar")]),
        Ret::One(some(inst("Struct", vec![("struct_name", st("Bar"))])))
    );
    assert_eq!(
        lookup(&u, "create", vec![st("const"), st("BAZ")]),
        Ret::One(some(inst("Variable", vec![("const_name", st("BAZ"))])))
    );
    assert_eq!(lookup(&u, "create", vec![st("enum"), st("E")]), Ret::One(none()));

    assert_eq!(get(&u, "name", inst("Function", vec![("name", st("foo"))])), st("foo"));
    assert_eq!(get(&u, "name", inst("Struct", vec![("struct_name", st("Bar"))])), st("Bar"));
    assert_eq!(get(&u, "name", inst("Variable", vec![("const_name", st("BAZ"))])), st("BAZ"));
    assert_eq!(get(&u, "name", inst("Marker", vec![])), st("marker"));
}

#[test]
fn all_variants_have_column() {
    let u = derive(
        vec![variant(unit("Alpha"), &["a = 1"]), variant(unit("Beta"), &["a = 2"])],
        vec![function("a", Some(true), &[], ", return = Strict")],
    );
    assert_eq!(get(&u, "a", inst("Alpha", vec![])), num(1));
    assert_eq!(get(&u, "a", inst("Beta", vec![])), num(2));
}

#[test]
fn column_from_field() {
    let u = derive(
        vec![variant(unit("Alpha"), &["a = 1"]), variant(named("Beta", &["a"]), &[])],
        vec![function("a", Some(true), &[], ", return = Strict")],
    );
    assert_eq!(get(&u, "a", inst("Alpha", vec![])), num(1));
    assert_eq!(get(&u, "a", inst("Beta", vec![("a", num(2))])), num(2));
}

#[test]
fn expr_column() {
    let u = derive(
        vec![variant(unit("Alpha"), &["a = 1"]), variant(unit("Beta"), &["a = 1 + 1"])],
        vec![function("a", Some(true), &[], ", return = Strict")],
    );
    assert_eq!(get(&u, "a", inst("Alpha", vec![])), num(1));
    assert_eq!(get(&u, "a", inst("Beta", vec![])), num(2));
}

#[test]
fn expr_using_argument() {
    let u = derive(
        vec![variant(unit("Alpha"), &["a = b + 1"])],
        vec![function("a", Some(true), &["b"], ", return = Option(a)")],
    );
    assert_eq!(call(&u, "a", Some(&inst("Alpha", vec![])), vec![num(100)]), Ret::One(some(num(101))));
}

#[test]
fn skips_variants_without_column() {
    let u = derive(
        vec![
            variant(unit("Alpha"), &["a = 1"]),
            variant(unit("Beta"), &["a = !"]),
            variant(named("Gamma", &["a"]), &["b = a + 1"]),
        ],
        vec![function("by_a", None, &["a"], ""), function("b", Some(true), &[], ", return = Option(b)")],
    );
    assert_eq!(lookup(&u, "by_a", vec![num(1)]), Ret::One(some(inst("Alpha", vec![]))));
    assert_eq!(lookup(&u, "by_a", vec![num(2)]), Ret::One(some(inst("Gamma", vec![("a", num(2))]))));

    assert_eq!(get(&u, "b", inst("Alpha", vec![])), none());
    assert_eq!(get(&u, "b", inst("Beta", vec![])), none());
    assert_eq!(get(&u, "b", inst("Gamma", vec![("a", num(10))])), some(num(11)));
}

#[test]
fn opt_all_variants_have_column() {
    let u = derive(
        vec![variant(unit("Alpha"), &["a = 1"]), variant(unit("Beta"), &["a = 2"])],
        vec![function("a", Some(true), &[], "")],
    );
    assert_eq!(get(&u, "a", inst("Alpha", vec![])), some(num(1)));
    assert_eq!(get(&u, "a", inst("Beta", vec![])), some(num(2)));
}

#[test]
fn variant_without_column() {
    let u = derive(
        vec![variant(unit("Alpha"), &["a = 1"]), variant(unit("Beta"), &[])],
        vec![function("a", Some(true), &[], "")],
    );
    assert_eq!(get(&u, "a", inst("Alpha", vec![])), some(num(1)));
    assert_eq!(get(&u, "a", inst("Beta", vec![])), none());
}

#[test]
fn field_as_column() {
    let u = derive(
        vec![variant(unit("Alpha"), &["a = 1"]), variant(named("Beta", &["a"]), &[""])],
        vec![function("a", Some(true), &[], "")],
    );
    assert_eq!(get(&u, "a", inst("Alpha", vec![])), some(num(1)));
    assert_eq!(get(&u, "a", inst("Beta", vec![("a", num(2))])), some(num(2)));
}

#[test]
fn opt_self_for_column() {
    let u = derive(
        vec![variant(unit("Alpha"), &["a = 1"]), variant(unit("Beta"), &["a = 2"])],
        vec![function("by_a", None, &["a"], "")],
    );
    assert_eq!(lookup(&u, "by_a", vec![num(1)]), Ret::One(some(inst("Alpha", vec![]))));
    assert_eq!(lookup(&u, "by_a", vec![num(2)]), Ret::One(some(inst("Beta", vec![]))));
}

#[test]
fn opt_self_for_column_with_capture() {
    let u = derive(
        vec![variant(unit("Alpha"), &["a = 1"]), variant(named("Beta", &["a"]), &[])],
        vec![function("by_a", None, &["a"], "")],
    );
    assert_eq!(lookup(&u, "by_a", vec![num(1)]), Ret::One(some(inst("Alpha", vec![]))));
    assert_eq!(lookup(&u, "by_a", vec![num(2)]), Ret::One(some(inst("Beta", vec![("a", num(2))]))));
}

fn environments_union() -> Union {
    derive(
        vec![
            variant(unit("Prod"), &[r#"data_realm = "prod", push_stage = "prod""#]),
            variant(unit("Canary"), &[r#"data_realm = "prod", push_stage = "canary""#]),
            variant(unit("StagingWithProdData"), &[r#"data_realm = "prod", push_stage = "staging""#]),
            variant(unit("StagingWithTestData"), &[r#"data_realm = "nonprod", push_stage = "staging""#]),
            variant(unit("Autopush"), &[r#"data_realm = "nonprod", push_stage = "autopush""#]),
            variant(unit("IntegrationTests"), &[r#"data_realm = "test""#]),
            variant(unit("Local"), &[r#"data_realm = "local""#]),
        ],
        vec![
            function("by_data_realm", None, &["data_realm"], ", return = Vec"),
            function("get_all", None, &[], ", return = Vec"),
        ],
    )
}

#[test]
fn environments() {
    let u = environments_union();
    let units = |names: &[&str]| Ret::Many(names.iter().map(|n| inst(n, vec![])).collect());
    assert_eq!(lookup(&u, "by_data_realm", vec![st("prod")]), units(&["Prod", "Canary", "StagingWithProdData"]));
    assert_eq!(lookup(&u, "by_data_realm", vec![st("nonprod")]), units(&["StagingWithTestData", "Autopush"]));
    assert_eq!(
        lookup(&u, "get_all", vec![]),
        units(&["Prod", "Canary", "StagingWithProdData", "StagingWithTestData", "Autopush", "IntegrationTests", "Local"])
    );
}

#[test]
fn collect_lookup_in_case_order_and_empty_when_none_match() {
    let u = derive(
        vec![
            variant(unit("Prod"), &[r#"realm = "prod", stage = "prod""#]),
            variant(unit("Canary"), &[r#"realm = "prod", stage = "canary""#]),
            variant(unit("Local"), &[r#"realm = "local""#]),
        ],
        vec![function("by_realm", None, &["realm"], ", return = Vec")],
    );
    assert_eq!(
        lookup(&u, "by_realm", vec![st("prod")]),
        Ret::Many(vec![inst("Prod", vec![]), inst("Canary", vec![])])
    );
    assert_eq!(lookup(&u, "by_realm", vec![st("staging")]), Ret::Many(vec![]));
}

#[test]
fn never_excluded_from_collect_constructor() {
    let u = derive(
        vec![
            variant(unit("Alpha"), &["x = 1"]),
            variant(named("Beta", &["x"]), &[]),
            variant(unit("Gamma"), &["x = !"]),
        ],
        vec![function("create", None, &["x"], ", return = Vec")],
    );
    assert_eq!(
        lookup(&u, "create", vec![num(1)]),
        Ret::Many(vec![inst("Alpha", vec![]), inst("Beta", vec![("x", num(1))])])
    );
    assert_eq!(lookup(&u, "create", vec![num(2)]), Ret::Many(vec![inst("Beta", vec![("x", num(2))])]));
}

#[test]
fn never_case_kept_for_other_functions() {
    let u = derive(
        vec![variant(unit("Alpha"), &["x = 1, y = 5"]), variant(unit("Gamma"), &["x = !, y = 7"])],
        vec![function("x", Some(true), &[], ""), function("y", Some(true), &[], "")],
    );
    assert_eq!(get(&u, "x", inst("Gamma", vec![])), none());
    assert_eq!(get(&u, "y", inst("Gamma", vec![])), some(num(7)));
}

#[test]
fn field_accessor_returns_every_instance_field() {
    let u = derive(
        vec![variant(named("A", &["s"]), &[]), variant(named("B", &["s", "t"]), &[])],
        vec![function("s", Some(true), &[], "")],
    );
    assert_eq!(get(&u, "s", inst("A", vec![("s", num(3))])), some(num(3)));
    assert_eq!(get(&u, "s", inst("B", vec![("s", num(-4)), ("t", num(9))])), some(num(-4)));
}

#[test]
fn unwrap_fatal_only_without_match() {
    let u = derive(
        vec![variant(unit("Alpha"), &["a = 1"]), variant(unit("Beta"), &["a = 2"])],
        vec![function("by_a", None, &["a"], ", return = Unwrap"), function("a", Some(true), &[], ", return = Unwrap")],
    );
    assert_eq!(lookup(&u, "by_a", vec![num(2)]), Ret::One(inst("Beta", vec![])));
    assert_eq!(lookup(&u, "by_a", vec![num(3)]), Ret::Fatal);
    assert_eq!(get(&u, "a", inst("Alpha", vec![])), num(1));
    match &u.functions[0].2.body {
        Body::Match { fallback, wrap_present, .. } => {
            assert_eq!(*fallback, Fallback::Fatal);
            assert!(!wrap_present);
        },
        other => panic!("unexpected {other:?}"),
    }
}

#[test]
fn round_trip_through_field() {
    let u = derive(
        vec![variant(named("Beta", &["x"]), &[]), variant(unit("Alpha"), &["x = 1"])],
        vec![function("by_x", None, &["x"], ""), function("x", Some(true), &[], "")],
    );
    let Ret::One(Val::Opt(Some(built))) = lookup(&u, "by_x", vec![num(42)]) else { panic!("no instance") };
    assert_eq!(get(&u, "x", *built), some(num(42)));
}

#[test]
fn validation_errors() {
    let s = |v: &str| v.to_string();
    let errors = derive_errors(
        vec![
            variant(unit("Alpha"), &["a = 1, c = 3"]),
            variant(named("Beta", &["b"]), &["c = !"]),
        ],
        vec![
            function("z", Some(true), &[], ""),
            function("a", Some(true), &[], ", return = Strict"),
            function("by_a", None, &["a"], ""),
            function("c", Some(true), &["b", "c"], ""),
            function("a", Some(true), &[], ""),
            function("by_c", None, &["c"], ", return = Many"),
        ],
    );
    assert_eq!(errors, vec![
        Some(BindError::NoOutput { function: s("z"), name: s("z") }),
        Some(BindError::StrictUncovered { function: s("a"), variant: s("Beta") }),
        Some(BindError::InputUncovered { function: s("by_a"), variant: s("Beta"), name: s("a") }),
        Some(BindError::ArgumentConflict { function: s("c"), variant: s("Alpha"), name: s("c") }),
        None,
        Some(BindError::Syntax { expected: s("Option, Strict, Unwrap or Vec"), found: s("Many") }),
    ]);
    let mut no_return = function("a", Some(true), &[], "");
    no_return.signature.has_return = false;
    let errors = derive_errors(vec![variant(unit("Alpha"), &["a = 1"])], vec![no_return]);
    assert_eq!(errors, vec![Some(BindError::MissingReturnType { function: s("a") })]);
}

#[test]
fn strict_rejected_when_a_case_omits_the_slot() {
    let errors = derive_errors(
        vec![variant(unit("Alpha"), &["a = 1"]), variant(unit("Beta"), &["a = 2", "b = 3"])],
        vec![function("a", Some(true), &[], ", return = Strict")],
    );
    assert_eq!(errors, vec![Some(BindError::StrictUncovered { function: "a".to_string(), variant: "Beta".to_string() })]);
}

#[test]
fn malformed_expression_stops_derivation() {
    let variants = vec![variant(unit("Alpha"), &["a = 1 +"])];
    assert_eq!(
        derive_functions(&variants, &vec![function("a", Some(true), &[], "")]),
        Err(BindError::Syntax { expected: "expression".to_string(), found: "1 +".to_string() })
    );
}

#[test]
fn case_building_error_stops_derivation() {
    let variants = vec![variant(named("Beta", &["a"]), &["a = 1"])];
    assert_eq!(
        derive_functions(&variants, &vec![]),
        Err(BindError::FieldRedefined { variant: "Beta".to_string(), name: "a".to_string() })
    );
}

#[test]
fn generated_shapes() {
    let u = derive(
        vec![variant(named("Beta", &["x", "y"]), &["z = !"]), variant(tuple("Delta", 2), &["z = _1"]), variant(unit("Zeta"), &["z = 0"])],
        vec![function("z", Some(true), &[], ""), function("by_z", None, &["z"], ", return = Vec")],
    );
    let (_, _, access) = &u.functions[0];
    assert_eq!(access.subject, Subject::Receiver { by_ref: true });
    let Body::Match { arms, .. } = &access.body else { panic!("not a match") };
    assert_eq!(arms.len(), 2);
    assert_eq!(arms[0].case_index, 1);
    assert_eq!(arms[0].pattern, Pattern::SelfShape("Self::Delta(_0, _1)".to_string()));
    assert_eq!(arms[0].output, Output::Value("_1".to_string()));
    assert_eq!(arms[1].pattern, Pattern::SelfShape("Self::Zeta".to_string()));
    assert_eq!(u.cases[0].gen_self_expr(), "Self::Beta { x, y }");
    let (_, _, by_z) = &u.functions[1];
    assert_eq!(by_z.subject, Subject::Inputs(vec!["z".to_string()]));
    assert_eq!(by_z.visibility, "pub");
    assert_eq!(by_z.signature, "fn by_z()");
}
