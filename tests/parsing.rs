use enum_bind::case::get_cases;
use enum_bind::model::{BindError, Binding, Fields, FunctionSpec, OutputMode, Signature, VariantDecl};
use enum_bind::parse::{check_expression, expression_verdict, parse_binding, parse_binding_group, parse_spec_suffix, Token};

/// Splits source text into the tokens that the annotation parsers read.
fn lex(src: &str) -> Vec<Token> {
    let chars: Vec<char> = src.chars().collect();
    let mut out = Vec::new();
    let mut i = 0;
    while i < chars.len() {
        let c = chars[i];
        if c.is_whitespace() {
            i += 1;
        } else if c.is_alphabetic() || c == '_' {
            let start = i;
            while i < chars.len() && (chars[i].is_alphanumeric() || chars[i] == '_') {
                i += 1;
            }
            out.push(Token::Ident(chars[start..i].iter().collect()));
        } else if c.is_ascii_digit() {
            let start = i;
            while i < chars.len() && chars[i].is_ascii_alphanumeric() {
                i += 1;
            }
            out.push(Token::Literal(chars[start..i].iter().collect()));
        } else if c == '"' {
            let start = i;
            i += 1;
            while chars[i] != '"' {
                i += 1;
            }
            i += 1;
            out.push(Token::Literal(chars[start..i].iter().collect()));
        } else if "([{".contains(c) {
            out.push(Token::Open(c.to_string()));
            i += 1;
        } else if ")]}".contains(c) {
            out.push(Token::Close(c.to_string()));
            i += 1;
        } else if c == ':' && i + 1 < chars.len() && chars[i + 1] == ':' {
            out.push(Token::Punct("::".to_string()));
            i += 2;
        } else {
            out.push(Token::Punct(c.to_string()));
            i += 1;
        }
    }
    out
}

fn expr(name: &str, e: &str) -> Binding {
    Binding::Expr { name: name.to_string(), expr: e.to_string() }
}

fn unit(name: &str) -> VariantDecl {
    VariantDecl { name: name.to_string(), fields: Fields::Unit }
}

fn named(name: &str, fields: &[&str]) -> VariantDecl {
    VariantDecl { name: name.to_string(), fields: Fields::Named(fields.iter().map(|f| f.to_string()).collect()) }
}

fn signature(name: &str, receiver: Option<bool>, inputs: &[&str], text: &str) -> Signature {
    Signature {
        name: name.to_string(),
        receiver,
        inputs: inputs.iter().map(|n| n.to_string()).collect(),
        has_return: true,
        text: text.to_string(),
    }
}

/// The cases of a variant whose annotation groups are given as source text.
fn cases_of(variant: &VariantDecl, groups: &[&str]) -> Result<Vec<Vec<Binding>>, BindError> {
    let mut parsed = Vec::new();
    for g in groups {
        parsed.push(parse_binding_group(&lex(g))?);
    }
    get_cases(variant, &parsed).map(|cs| cs.into_iter().map(|c| c.bindings).collect())
}

#[test]
fn test_parse_binding_expr_pat() {
    assert_eq!(parse_binding(&lex(r#"role = "engineer""#)).unwrap(), expr("role", r#""engineer""#));
}

#[test]
fn test_parse_binding_only_pat() {
    assert_eq!(parse_binding(&lex("role = Some(_)")).unwrap(), expr("role", "Some ( _ )"));
}

#[test]
fn test_parse_binding_only_expr() {
    assert_eq!(parse_binding(&lex("a = 2 + 2")).unwrap(), expr("a", "2 + 2"));
}

#[test]
fn parse_binding_never() {
    assert_eq!(parse_binding(&lex("x = !")).unwrap(), Binding::Never { name: "x".to_string() });
}

#[test]
fn parse_binding_negation_is_an_expression() {
    assert_eq!(parse_binding(&lex("x = ! flag")).unwrap(), expr("x", "! flag"));
    assert_eq!(parse_binding(&lex("x = !")).unwrap(), Binding::Never { name: "x".to_string() });
}

#[test]
fn parse_binding_errors() {
    assert_eq!(
        parse_binding(&lex("= 1")),
        Err(BindError::Syntax { expected: "identifier".to_string(), found: "=".to_string() })
    );
    assert_eq!(
        parse_binding(&lex("x 1")),
        Err(BindError::Syntax { expected: "=".to_string(), found: "1".to_string() })
    );
    assert_eq!(
        parse_binding(&lex("x")),
        Err(BindError::Syntax { expected: "=".to_string(), found: "end of input".to_string() })
    );
    assert_eq!(
        parse_binding(&lex("x =")),
        Err(BindError::Syntax { expected: "expression".to_string(), found: "end of input".to_string() })
    );
    assert_eq!(parse_binding(&lex("x = 1 +")).unwrap(), expr("x", "1 +"));
}

#[test]
fn expression_check() {
    assert_eq!(
        check_expression(expr("x", "1 +")),
        Err(BindError::Syntax { expected: "expression".to_string(), found: "1 +".to_string() })
    );
    assert_eq!(check_expression(expr("x", "Some ( b )")), Ok(expr("x", "Some ( b )")));
    assert_eq!(check_expression(Binding::Never { name: "x".to_string() }), Ok(Binding::Never { name: "x".to_string() }));
    assert_eq!(
        expression_verdict(expr("x", "1"), false),
        Err(BindError::Syntax { expected: "expression".to_string(), found: "1".to_string() })
    );
    assert_eq!(expression_verdict(expr("x", "1"), true), Ok(expr("x", "1")));
}

#[test]
fn parse_group_splits_at_top_level_commas() {
    let g = parse_binding_group(&lex("a = f(1, 2), b = !, c = [3, 4],")).unwrap();
    assert_eq!(
        g,
        vec![expr("a", "f ( 1 , 2 )"), Binding::Never { name: "b".to_string() }, expr("c", "[ 3 , 4 ]")]
    );
    assert_eq!(parse_binding_group(&lex("")).unwrap(), vec![]);
    assert!(parse_binding_group(&lex("a = 1,, b = 2")).is_err());
}

#[test]
fn parse_empty() {
    let cases = cases_of(&unit("FooBar"), &[""]).unwrap();
    assert_eq!(cases, vec![vec![]]);
}

#[test]
fn parse_column_value() {
    let cases = cases_of(&unit("FooBar"), &[r#"foo = "value""#]).unwrap();
    assert_eq!(cases, vec![vec![expr("foo", r#""value""#)]]);
}

#[test]
fn parse_column_expr() {
    let cases = cases_of(&unit("FooBar"), &["foo = 2 + 2"]).unwrap();
    assert_eq!(cases, vec![vec![expr("foo", "2 + 2")]]);
}

#[test]
fn parse_column_pattern() {
    let cases = cases_of(&unit("FooBar"), &["foo = Some(_)"]).unwrap();
    assert_eq!(cases, vec![vec![expr("foo", "Some ( _ )")]]);
}

#[test]
fn parse_variant_field() {
    let cases = cases_of(&named("FooBar", &["foo"]), &[""]).unwrap();
    assert_eq!(cases, vec![vec![Binding::Field { name: "foo".to_string() }]]);
}

#[test]
fn parse_variant_field_override() {
    let cases = cases_of(&named("FooBar", &["foo"]), &[r#"foo = "bar""#]);
    assert_eq!(cases.is_err(), true);
    assert_eq!(
        cases,
        Err(BindError::FieldRedefined { variant: "FooBar".to_string(), name: "foo".to_string() })
    );
}

#[test]
fn positional_fields_and_groups() {
    let v = VariantDecl { name: "Delta".to_string(), fields: Fields::Unnamed(2) };
    let cases = cases_of(&v, &[]).unwrap();
    assert_eq!(
        cases,
        vec![vec![Binding::Field { name: "_0".to_string() }, Binding::Field { name: "_1".to_string() }]]
    );
    let cases = cases_of(&unit("Present"), &["foo = 2, bar = 1", "foo = 2, bar = 3, foo = 4"]).unwrap();
    assert_eq!(
        cases,
        vec![vec![expr("foo", "2"), expr("bar", "1")], vec![expr("foo", "4"), expr("bar", "3")]]
    );
}

#[test]
fn self_to_arg() {
    let spec = FunctionSpec::parse(
        "pub".to_string(),
        signature("foo", Some(false), &[], "fn foo(self) -> i32"),
        &lex(", return = Strict"),
    )
    .unwrap();
    assert_eq!(spec, FunctionSpec {
        visibility: "pub".to_string(),
        signature: signature("foo", Some(false), &[], "fn foo(self) -> i32"),
        output_mode: OutputMode::Strict,
        output_name: None,
    });
}

#[test]
fn arg_to_self() {
    let spec = FunctionSpec::parse(
        "pub".to_string(),
        signature("from_foo", None, &["foo"], "fn from_foo(foo: i32) -> Self"),
        &lex(", return = Strict"),
    )
    .unwrap();
    assert_eq!(spec, FunctionSpec {
        visibility: "pub".to_string(),
        signature: signature("from_foo", None, &["foo"], "fn from_foo(foo: i32) -> Self"),
        output_mode: OutputMode::Strict,
        output_name: None,
    });
}

#[test]
fn self_and_arg_to_arg() {
    let spec = FunctionSpec::parse(
        "pub".to_string(),
        signature("check_foo", Some(true), &["foo"], "fn check_foo(&self, foo: i32) -> Option<i32>"),
        &lex(", return = Option(foo)"),
    )
    .unwrap();
    assert_eq!(spec, FunctionSpec {
        visibility: "pub".to_string(),
        signature: signature("check_foo", Some(true), &["foo"], "fn check_foo(&self, foo: i32) -> Option<i32>"),
        output_mode: OutputMode::Optional,
        output_name: Some("foo".to_string()),
    });
}

#[test]
fn suffix_defaults_and_errors() {
    assert_eq!(parse_spec_suffix(&lex("")).unwrap(), (OutputMode::Optional, None));
    assert_eq!(parse_spec_suffix(&lex(", return = Vec")).unwrap(), (OutputMode::Collect, None));
    assert_eq!(parse_spec_suffix(&lex(", return = Unwrap(a)")).unwrap(), (OutputMode::Unwrap, Some("a".to_string())));
    assert_eq!(
        parse_spec_suffix(&lex(", return = Many")),
        Err(BindError::Syntax {
            expected: "Option, Strict, Unwrap or Vec".to_string(),
            found: "Many".to_string()
        })
    );
    assert_eq!(
        parse_spec_suffix(&lex("; return = Vec")),
        Err(BindError::Syntax { expected: ",".to_string(), found: ";".to_string() })
    );
    assert_eq!(
        parse_spec_suffix(&lex(", output = Vec")),
        Err(BindError::Syntax { expected: "return".to_string(), found: "output".to_string() })
    );
    assert_eq!(
        parse_spec_suffix(&lex(", return = Vec(a) b")),
        Err(BindError::Syntax { expected: "end of input".to_string(), found: "b".to_string() })
    );
}

#[test]
fn positional_fields_may_be_rebound() {
    let v = VariantDecl { name: "Delta".to_string(), fields: Fields::Unnamed(1) };
    let cases = cases_of(&v, &["_0 = 5"]).unwrap();
    assert_eq!(cases, vec![vec![expr("_0", "5")]]);
}

#[test]
fn keywords_are_not_names() {
    assert_eq!(
        parse_binding(&lex("_ = 1")),
        Err(BindError::Syntax { expected: "identifier".to_string(), found: "_".to_string() })
    );
    assert_eq!(parse_binding(&lex("typed = 1")).unwrap(), expr("typed", "1"));
    assert_eq!(
        parse_binding(&lex("type = 1")),
        Err(BindError::Syntax { expected: "identifier".to_string(), found: "type".to_string() })
    );
    assert_eq!(
        parse_spec_suffix(&lex(", return = Strict(fn)")),
        Err(BindError::Syntax { expected: "identifier".to_string(), found: "fn".to_string() })
    );
}
