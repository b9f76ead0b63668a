use vstd::prelude::*;
use vstd::slice::slice_subrange;
use crate::model::{
    mode_of_word, parse_output_mode, BindError, Binding, BindingView, ErrorView, FunctionSpec, FunctionSpecView,
    OutputMode, Signature,
};

verus! {

/// One token of an annotation, with its source text. Delimited groups are
/// flattened: their opening and closing delimiters are tokens of their own.
#[derive(Clone, Debug, PartialEq, Eq)]
pub enum Token {
    Ident(String),
    Punct(String),
    Literal(String),
    Open(String),
    Close(String),
}

pub enum TokenView {
    Ident(Seq<char>),
    Punct(Seq<char>),
    Literal(Seq<char>),
    Open(Seq<char>),
    Close(Seq<char>),
}

impl TokenView {
    pub open spec fn text(self) -> Seq<char> {
        match self {
            TokenView::Ident(t) => t,
            TokenView::Punct(t) => t,
            TokenView::Literal(t) => t,
            TokenView::Open(t) => t,
            TokenView::Close(t) => t,
        }
    }
}

impl View for Token {
    type V = TokenView;

    open spec fn view(&self) -> TokenView {
        match self {
            Token::Ident(t) => TokenView::Ident(t@),
            Token::Punct(t) => TokenView::Punct(t@),
            Token::Literal(t) => TokenView::Literal(t@),
            Token::Open(t) => TokenView::Open(t@),
            Token::Close(t) => TokenView::Close(t@),
        }
    }
}

impl Token {
    pub fn text(&self) -> (r: &String)
        ensures
            r@ == self@.text(),
    {
        match self {
            Token::Ident(t) => t,
            Token::Punct(t) => t,
            Token::Literal(t) => t,
            Token::Open(t) => t,
            Token::Close(t) => t,
        }
    }
}

/// The view of a list of tokens.
pub open spec fn tokens_view(ts: Seq<Token>) -> Seq<TokenView> {
    ts.map_values(|t: Token| t@)
}

/// The source text of tokens, separated by single spaces.
pub open spec fn tokens_text(ts: Seq<TokenView>) -> Seq<char>
    decreases ts.len(),
{
    if ts.len() == 0 {
        Seq::empty()
    } else if ts.len() == 1 {
        ts[0].text()
    } else {
        tokens_text(ts.drop_last()) + seq![' '] + ts.last().text()
    }
}

/// The text reported for a token where another was expected.
pub open spec fn found_text(ts: Seq<TokenView>, i: int) -> Seq<char> {
    if 0 <= i < ts.len() {
        ts[i].text()
    } else {
        end_of_input()
    }
}

pub open spec fn end_of_input() -> Seq<char> {
    seq!['e', 'n', 'd', ' ', 'o', 'f', ' ', 'i', 'n', 'p', 'u', 't']
}

/// Relies on `syn::parse_str::<syn::Expr>`: whether the text, lexed and parsed,
/// is one complete expression. Which lexer runs (the compiler's inside a macro,
/// proc-macro2's own elsewhere) is decided at run time, so nothing is stated of
/// the answer.
#[verifier::external_body]
fn is_expression(text: &str) -> (r: bool) {
    syn::parse_str::<syn::Expr>(text).is_ok()
}

/// The words that cannot name a slot: the keywords that `syn` refuses as an
/// identifier, and `_`.
pub open spec fn is_keyword(w: Seq<char>) -> bool {
    w == "_"@
    || w == "abstract"@
    || w == "as"@
    || w == "async"@
    || w == "await"@
    || w == "become"@
    || w == "box"@
    || w == "break"@
    || w == "const"@
    || w == "continue"@
    || w == "crate"@
    || w == "do"@
    || w == "dyn"@
    || w == "else"@
    || w == "enum"@
    || w == "extern"@
    || w == "false"@
    || w == "final"@
    || w == "fn"@
    || w == "for"@
    || w == "if"@
    || w == "impl"@
    || w == "in"@
    || w == "let"@
    || w == "loop"@
    || w == "macro"@
    || w == "match"@
    || w == "mod"@
    || w == "move"@
    || w == "mut"@
    || w == "override"@
    || w == "priv"@
    || w == "pub"@
    || w == "ref"@
    || w == "return"@
    || w == "Self"@
    || w == "self"@
    || w == "static"@
    || w == "struct"@
    || w == "super"@
    || w == "trait"@
    || w == "true"@
    || w == "try"@
    || w == "type"@
    || w == "typeof"@
    || w == "unsafe"@
    || w == "unsized"@
    || w == "use"@
    || w == "virtual"@
    || w == "where"@
    || w == "while"@
    || w == "yield"@
}

fn keyword(w: &String) -> (r: bool)
    ensures
        r == is_keyword(w@),
{
    is_text(w, "_")
    || is_text(w, "abstract")
    || is_text(w, "as")
    || is_text(w, "async")
    || is_text(w, "await")
    || is_text(w, "become")
    || is_text(w, "box")
    || is_text(w, "break")
    || is_text(w, "const")
    || is_text(w, "continue")
    || is_text(w, "crate")
    || is_text(w, "do")
    || is_text(w, "dyn")
    || is_text(w, "else")
    || is_text(w, "enum")
    || is_text(w, "extern")
    || is_text(w, "false")
    || is_text(w, "final")
    || is_text(w, "fn")
    || is_text(w, "for")
    || is_text(w, "if")
    || is_text(w, "impl")
    || is_text(w, "in")
    || is_text(w, "let")
    || is_text(w, "loop")
    || is_text(w, "macro")
    || is_text(w, "match")
    || is_text(w, "mod")
    || is_text(w, "move")
    || is_text(w, "mut")
    || is_text(w, "override")
    || is_text(w, "priv")
    || is_text(w, "pub")
    || is_text(w, "ref")
    || is_text(w, "return")
    || is_text(w, "Self")
    || is_text(w, "self")
    || is_text(w, "static")
    || is_text(w, "struct")
    || is_text(w, "super")
    || is_text(w, "trait")
    || is_text(w, "true")
    || is_text(w, "try")
    || is_text(w, "type")
    || is_text(w, "typeof")
    || is_text(w, "unsafe")
    || is_text(w, "unsized")
    || is_text(w, "use")
    || is_text(w, "virtual")
    || is_text(w, "where")
    || is_text(w, "while")
    || is_text(w, "yield")
}

/// The token is an identifier that is not a keyword.
pub open spec fn is_name(t: TokenView) -> bool {
    t is Ident && !is_keyword(t.text())
}

fn is_name_token(t: &Token) -> (r: bool)
    ensures
        r == is_name(t@),
{
    match t {
        Token::Ident(s) => !keyword(s),
        _ => false,
    }
}

pub open spec fn identifier_word() -> Seq<char> {
    seq!['i', 'd', 'e', 'n', 't', 'i', 'f', 'i', 'e', 'r']
}

pub open spec fn expression_word() -> Seq<char> {
    seq!['e', 'x', 'p', 'r', 'e', 's', 's', 'i', 'o', 'n']
}

pub open spec fn is_punct(t: TokenView, p: Seq<char>) -> bool {
    t == TokenView::Punct(p)
}

/// What one `name = rhs` annotation gives: `Never` when `rhs` is a lone `!`, else
/// an expression binding (a negation such as `! flag` included) whose text is the
/// tokens of `rhs`. Whether that text is a well-formed expression is checked apart
/// (`check_expression`).
pub open spec fn binding_of_tokens(ts: Seq<TokenView>) -> Result<BindingView, ErrorView> {
    if !(ts.len() > 0 && is_name(ts[0])) {
        Err(ErrorView::Syntax(identifier_word(), found_text(ts, 0)))
    } else if !(ts.len() > 1 && is_punct(ts[1], seq!['='])) {
        Err(ErrorView::Syntax(seq!['='], found_text(ts, 1)))
    } else if ts.len() == 2 {
        Err(ErrorView::Syntax(expression_word(), end_of_input()))
    } else if ts.len() == 3 && is_punct(ts[2], seq!['!']) {
        Ok(BindingView::Never(ts[0].text()))
    } else {
        Ok(BindingView::Expr(ts[0].text(), tokens_text(ts.subrange(2, ts.len() as int))))
    }
}

/// What a binding becomes once the expression parser has answered on its text:
/// an expression binding it refuses is an error; every other binding stands.
pub open spec fn verdict_of(b: BindingView, parsed: bool) -> Result<BindingView, ErrorView> {
    match b {
        BindingView::Expr(_, e) => if parsed {
            Ok(b)
        } else {
            Err(ErrorView::Syntax(expression_word(), e))
        },
        _ => Ok(b),
    }
}

/// Applies the expression parser's answer `parsed` on the binding's text.
pub fn expression_verdict(b: Binding, parsed: bool) -> (r: Result<Binding, BindError>)
    ensures
        r matches Ok(x) ==> verdict_of(b@, parsed) == Ok::<BindingView, ErrorView>(x@),
        r matches Err(e) ==> verdict_of(b@, parsed) == Err::<BindingView, ErrorView>(e@),
{
    proof {
        reveal_strlit("expression");
        assert("expression"@ =~= expression_word());
    }
    let refused = match &b {
        Binding::Expr { expr, .. } => if parsed {
            None
        } else {
            Some(expr.clone())
        },
        _ => None,
    };
    match refused {
        Some(text) => Err(BindError::Syntax { expected: "expression".to_owned(), found: text }),
        None => Ok(b),
    }
}

/// The binding refuses to stand: it is an expression binding and the error
/// names its text.
pub open spec fn refused_expression(b: BindingView, e: ErrorView) -> bool {
    b matches BindingView::Expr(_, t) && e == ErrorView::Syntax(expression_word(), t)
}

/// Asks `syn` whether an expression binding's text is an expression. Whatever it
/// answers, a binding that stands is unchanged, and an error names the text of an
/// expression binding; `Field` and `Never` bindings always stand.
pub fn check_expression(b: Binding) -> (r: Result<Binding, BindError>)
    ensures
        r matches Ok(x) ==> x@ == b@,
        r matches Err(e) ==> refused_expression(b@, e@),
        !(b@ is Expr) ==> r is Ok,
{
    let parsed = match &b {
        Binding::Expr { expr, .. } => is_expression(expr.as_str()),
        _ => true,
    };
    expression_verdict(b, parsed)
}

fn is_text(s: &String, lit: &str) -> (r: bool)
    ensures
        r == (s@ == lit@),
{
    let l = lit.to_owned();
    *s == l
}

fn is_punct_token(t: &Token, p: &str) -> (r: bool)
    ensures
        r == is_punct(t@, p@),
{
    match t {
        Token::Punct(s) => is_text(s, p),
        _ => false,
    }
}

fn found_at(ts: &[Token], i: usize) -> (r: String)
    ensures
        r@ == found_text(ts@.map_values(|t: Token| t@), i as int),
{
    proof {
        reveal_strlit("end of input");
        assert("end of input"@ =~= end_of_input());
    }
    if i < ts.len() {
        ts[i].text().clone()
    } else {
        "end of input".to_owned()
    }
}

fn join_tokens(ts: &[Token], from: usize) -> (r: String)
    requires
        from <= ts@.len(),
    ensures
        r@ == tokens_text(ts@.map_values(|t: Token| t@).subrange(from as int, ts@.len() as int)),
{
    let ghost tv = ts@.map_values(|t: Token| t@);
    let mut out = String::new();
    let mut i: usize = from;
    while i < ts.len()
        invariant
            from <= i <= ts@.len(),
            tv == ts@.map_values(|t: Token| t@),
            out@ == tokens_text(tv.subrange(from as int, i as int)),
        decreases ts@.len() - i,
    {
        let ghost prev = out@;
        proof {
            reveal_strlit(" ");
        }
        if i > from {
            out.append(" ");
        }
        out.append(ts[i].text().as_str());
        proof {
            let sub = tv.subrange(from as int, i as int + 1);
            assert(sub.drop_last() =~= tv.subrange(from as int, i as int));
            assert(sub.last() == tv[i as int]);
            if i == from {
                assert(tokens_text(sub) == sub[0].text());
                assert(out@ =~= tv[i as int].text());
            } else {
                assert(tokens_text(sub) == tokens_text(sub.drop_last()) + seq![' '] + sub.last().text());
                assert(out@ =~= prev + seq![' '] + tv[i as int].text());
            }
        }
        i = i + 1;
    }
    out
}

/// Parses one `name = rhs` annotation.
pub fn parse_binding(ts: &[Token]) -> (r: Result<Binding, BindError>)
    ensures
        r matches Ok(b) ==> binding_of_tokens(ts@.map_values(|t: Token| t@)) == Ok::<BindingView, ErrorView>(b@),
        r matches Err(e) ==> binding_of_tokens(ts@.map_values(|t: Token| t@)) == Err::<BindingView, ErrorView>(e@),
{
    proof {
        reveal_strlit("identifier");
        reveal_strlit("=");
        reveal_strlit("!");
        reveal_strlit("expression");
        assert("identifier"@ =~= identifier_word());
        assert("expression"@ =~= expression_word());
        assert("="@ =~= seq!['=']);
        assert("!"@ =~= seq!['!']);
    }
    let ghost tv = ts@.map_values(|t: Token| t@);
    if !(ts.len() > 0 && is_name_token(&ts[0])) {
        return Err(BindError::Syntax { expected: "identifier".to_owned(), found: found_at(ts, 0) });
    }
    let name = ts[0].text().clone();
    if !(ts.len() > 1 && is_punct_token(&ts[1], "=")) {
        return Err(BindError::Syntax { expected: "=".to_owned(), found: found_at(ts, 1) });
    }
    if ts.len() == 2 {
        return Err(BindError::Syntax { expected: "expression".to_owned(), found: found_at(ts, 2) });
    }
    if ts.len() == 3 && is_punct_token(&ts[2], "!") {
        return Ok(Binding::Never { name });
    }
    Ok(Binding::Expr { name, expr: join_tokens(ts, 2) })
}


/// How a token changes the nesting depth.
pub open spec fn delta(t: TokenView) -> int {
    match t {
        TokenView::Open(_) => 1,
        TokenView::Close(_) => -1,
        _ => 0,
    }
}

/// The nesting depth after the tokens.
pub open spec fn depth(ts: Seq<TokenView>) -> int
    decreases ts.len(),
{
    if ts.len() == 0 {
        0
    } else {
        depth(ts.drop_last()) + delta(ts.last())
    }
}

/// Token `j` is a comma outside every delimited group.
pub open spec fn is_separator(ts: Seq<TokenView>, j: int) -> bool {
    is_punct(ts[j], seq![',']) && depth(ts.subrange(0, j)) == 0
}

/// The tokens cut at each top-level comma; the commas themselves are dropped.
pub open spec fn split_top(ts: Seq<TokenView>) -> Seq<Seq<TokenView>>
    decreases ts.len(),
{
    if ts.len() == 0 {
        seq![Seq::empty()]
    } else {
        let prev = split_top(ts.drop_last());
        let j = ts.len() - 1;
        if is_separator(ts, j) {
            prev.push(Seq::empty())
        } else {
            prev.update(prev.len() - 1, prev.last().push(ts[j]))
        }
    }
}

proof fn lemma_split_top_len(ts: Seq<TokenView>)
    ensures
        split_top(ts).len() >= 1,
    decreases ts.len(),
{
    if ts.len() > 0 {
        lemma_split_top_len(ts.drop_last());
    }
}

/// The annotations of a comma-separated list; a trailing comma is allowed.
pub open spec fn group_items(ts: Seq<TokenView>) -> Seq<Seq<TokenView>> {
    let segs = split_top(ts);
    if ts.len() == 0 {
        Seq::empty()
    } else if segs.len() > 1 && segs.last().len() == 0 {
        segs.drop_last()
    } else {
        segs
    }
}

/// Each annotation parsed in turn; the first that fails gives the error.
pub open spec fn parse_items(items: Seq<Seq<TokenView>>) -> Result<Seq<BindingView>, ErrorView>
    decreases items.len(),
{
    if items.len() == 0 {
        Ok(Seq::empty())
    } else {
        match parse_items(items.drop_last()) {
            Err(e) => Err(e),
            Ok(bs) => match binding_of_tokens(items.last()) {
                Ok(b) => Ok(bs.push(b)),
                Err(e) => Err(e),
            },
        }
    }
}

proof fn lemma_parse_items_err(items: Seq<Seq<TokenView>>, n: int)
    requires
        0 <= n <= items.len(),
        parse_items(items.subrange(0, n)) is Err,
    ensures
        parse_items(items) == parse_items(items.subrange(0, n)),
    decreases items.len(),
{
    if items.len() > n {
        assert(items.drop_last().subrange(0, n) =~= items.subrange(0, n));
        lemma_parse_items_err(items.drop_last(), n);
    } else {
        assert(items.subrange(0, n) =~= items);
    }
}

/// What a list of `name = rhs` annotations gives.
pub open spec fn binding_group(ts: Seq<TokenView>) -> Result<Seq<BindingView>, ErrorView> {
    parse_items(group_items(ts))
}

/// The segments between top-level commas, as index ranges.
fn split_top_level(ts: &[Token]) -> (r: Vec<(usize, usize)>)
    ensures
        r@.len() == split_top(ts@.map_values(|t: Token| t@)).len(),
        forall|k: int| 0 <= k < r@.len() ==> {
            &&& (#[trigger] r@[k]).0 <= r@[k].1 <= ts@.len()
            &&& ts@.map_values(|t: Token| t@).subrange(r@[k].0 as int, r@[k].1 as int)
                == split_top(ts@.map_values(|t: Token| t@))[k]
        },
{
    let ghost tv = ts@.map_values(|t: Token| t@);
    let mut ranges: Vec<(usize, usize)> = Vec::new();
    let mut start: usize = 0;
    let mut d: i128 = 0;
    let mut i: usize = 0;
    assert(tv.subrange(0, 0) =~= Seq::<TokenView>::empty());
    while i < ts.len()
        invariant
            i <= ts@.len(),
            tv == ts@.map_values(|t: Token| t@),
            -(i as int) <= d <= i as int,
            d == depth(tv.subrange(0, i as int)),
            ranges@.len() + 1 == split_top(tv.subrange(0, i as int)).len(),
            start <= i,
            tv.subrange(start as int, i as int) == split_top(tv.subrange(0, i as int)).last(),
            forall|k: int| 0 <= k < ranges@.len() ==> {
                &&& (#[trigger] ranges@[k]).0 <= ranges@[k].1 <= i
                &&& tv.subrange(ranges@[k].0 as int, ranges@[k].1 as int) == split_top(
                    tv.subrange(0, i as int),
                )[k]
            },
        decreases ts@.len() - i,
    {
        let ghost sub = tv.subrange(0, i as int + 1);
        let ghost prev = split_top(tv.subrange(0, i as int));
        assert(sub.drop_last() =~= tv.subrange(0, i as int));
        assert(sub.subrange(0, i as int) =~= tv.subrange(0, i as int));
        assert(sub.last() == tv[i as int]);
        proof {
            lemma_split_top_len(tv.subrange(0, i as int));
        }
        let sep = d == 0 && is_punct_token(&ts[i], ",");
        proof {
            reveal_strlit(",");
            assert(","@ =~= seq![',']);
        }
        assert(sep == is_separator(sub, i as int));
        match &ts[i] {
            Token::Open(_) => {
                d = d + 1;
            },
            Token::Close(_) => {
                d = d - 1;
            },
            _ => {},
        }
        assert(d == depth(sub));
        if sep {
            ranges.push((start, i));
            start = i + 1;
            assert(split_top(sub) == prev.push(Seq::empty()));
            assert(tv.subrange(start as int, i as int + 1) =~= Seq::<TokenView>::empty());
        } else {
            assert(split_top(sub) == prev.update(prev.len() - 1, prev.last().push(tv[i as int])));
            assert(tv.subrange(start as int, i as int + 1) =~= tv.subrange(start as int, i as int).push(
                tv[i as int],
            ));
        }
        i = i + 1;
    }
    assert(tv.subrange(0, ts@.len() as int) =~= tv);
    ranges.push((start, i));
    ranges
}

/// Parses a comma-separated list of `name = rhs` annotations.
pub fn parse_binding_group(ts: &[Token]) -> (r: Result<Vec<Binding>, BindError>)
    ensures
        r matches Ok(bs) ==> binding_group(ts@.map_values(|t: Token| t@)) == Ok::<
            Seq<BindingView>,
            ErrorView,
        >(bs@.map_values(|b: Binding| b@)),
        r matches Err(e) ==> binding_group(ts@.map_values(|t: Token| t@)) == Err::<
            Seq<BindingView>,
            ErrorView,
        >(e@),
{
    let ghost tv = ts@.map_values(|t: Token| t@);
    let ghost items = group_items(tv);
    let ranges = split_top_level(ts);
    let count: usize = if ts.len() == 0 {
        0
    } else if ranges.len() > 1 && ranges[ranges.len() - 1].0 == ranges[ranges.len() - 1].1 {
        ranges.len() - 1
    } else {
        ranges.len()
    };
    proof {
        let segs = split_top(tv);
        if ts@.len() > 0 && ranges@.len() > 1 {
            let last = ranges@[ranges@.len() - 1];
            assert(segs.last() == tv.subrange(last.0 as int, last.1 as int));
        }
        assert(items.len() == count);
    }
    let mut out: Vec<Binding> = Vec::new();
    let mut k: usize = 0;
    assert(items.subrange(0, 0) =~= Seq::<Seq<TokenView>>::empty());
    assert(out@.map_values(|b: Binding| b@) =~= Seq::<BindingView>::empty());
    while k < count
        invariant
            k <= count,
            count == items.len(),
            count <= ranges@.len(),
            items == group_items(tv),
            tv == ts@.map_values(|t: Token| t@),
            ranges@.len() == split_top(tv).len(),
            forall|j: int| 0 <= j < ranges@.len() ==> {
                &&& (#[trigger] ranges@[j]).0 <= ranges@[j].1 <= ts@.len()
                &&& tv.subrange(ranges@[j].0 as int, ranges@[j].1 as int) == split_top(tv)[j]
            },
            forall|j: int| 0 <= j < count ==> #[trigger] items[j] == split_top(tv)[j],
            parse_items(items.subrange(0, k as int)) == Ok::<Seq<BindingView>, ErrorView>(
                out@.map_values(|b: Binding| b@),
            ),
        decreases count - k,
    {
        let (a, b) = ranges[k];
        assert(ranges@[k as int] == (a, b));
        let part = slice_subrange(ts, a, b);
        assert(part@.map_values(|t: Token| t@) =~= tv.subrange(a as int, b as int));
        let ghost sub = items.subrange(0, k as int + 1);
        assert(sub.drop_last() =~= items.subrange(0, k as int));
        assert(sub.last() == items[k as int]);
        match parse_binding(part) {
            Ok(binding) => {
                let ghost before = out@.map_values(|b: Binding| b@);
                let ghost bv = binding@;
                out.push(binding);
                assert(out@.map_values(|b: Binding| b@) =~= before.push(bv));
            },
            Err(e) => {
                proof {
                    lemma_parse_items_err(items, k as int + 1);
                }
                return Err(e);
            },
        }
        k = k + 1;
    }
    assert(items.subrange(0, count as int) =~= items);
    Ok(out)
}


/// The view of an optional name.
pub open spec fn opt_view(n: Option<String>) -> Option<Seq<char>> {
    match n {
        Some(s) => Some(s@),
        None => None,
    }
}

pub open spec fn mode_words() -> Seq<char> {
    seq!['O', 'p', 't', 'i', 'o', 'n', ',', ' ', 'S', 't', 'r', 'i', 'c', 't', ',', ' ', 'U', 'n', 'w', 'r', 'a', 'p', ' ', 'o', 'r', ' ', 'V', 'e', 'c']
}

pub open spec fn return_word() -> Seq<char> {
    seq!['r', 'e', 't', 'u', 'r', 'n']
}

/// What follows a function's signature in its description: nothing, for
/// `Option` with no rename; or `, return = Mode`, optionally followed by the
/// returned slot's name in parentheses.
pub open spec fn suffix_of(ts: Seq<TokenView>) -> Result<(OutputMode, Option<Seq<char>>), ErrorView> {
    if ts.len() == 0 {
        Ok((OutputMode::Optional, None))
    } else if !is_punct(ts[0], seq![',']) {
        Err(ErrorView::Syntax(seq![','], ts[0].text()))
    } else if !(ts.len() > 1 && ts[1] == TokenView::Ident(return_word())) {
        Err(ErrorView::Syntax(return_word(), found_text(ts, 1)))
    } else if !(ts.len() > 2 && is_punct(ts[2], seq!['='])) {
        Err(ErrorView::Syntax(seq!['='], found_text(ts, 2)))
    } else if !(ts.len() > 3 && ts[3] is Ident && mode_of_word(ts[3].text()) is Some) {
        Err(ErrorView::Syntax(mode_words(), found_text(ts, 3)))
    } else {
        let m = mode_of_word(ts[3].text()).unwrap();
        if ts.len() == 4 {
            Ok((m, None))
        } else if ts[4] != TokenView::Open(seq!['(']) {
            Err(ErrorView::Syntax(seq!['('], ts[4].text()))
        } else if !(ts.len() > 5 && is_name(ts[5])) {
            Err(ErrorView::Syntax(identifier_word(), found_text(ts, 5)))
        } else if !(ts.len() > 6 && ts[6] == TokenView::Close(seq![')'])) {
            Err(ErrorView::Syntax(seq![')'], found_text(ts, 6)))
        } else if ts.len() > 7 {
            Err(ErrorView::Syntax(end_of_input(), ts[7].text()))
        } else {
            Ok((m, Some(ts[5].text())))
        }
    }
}

fn is_ident_text(t: &Token, text: &str) -> (r: bool)
    ensures
        r == (t@ == TokenView::Ident(text@)),
{
    match t {
        Token::Ident(s) => is_text(s, text),
        _ => false,
    }
}

fn is_open_text(t: &Token, text: &str) -> (r: bool)
    ensures
        r == (t@ == TokenView::Open(text@)),
{
    match t {
        Token::Open(s) => is_text(s, text),
        _ => false,
    }
}

fn is_close_text(t: &Token, text: &str) -> (r: bool)
    ensures
        r == (t@ == TokenView::Close(text@)),
{
    match t {
        Token::Close(s) => is_text(s, text),
        _ => false,
    }
}

fn syntax_error(expected: &str, found: String) -> (r: BindError)
    ensures
        r@ == ErrorView::Syntax(expected@, found@),
{
    BindError::Syntax { expected: expected.to_owned(), found }
}

/// Parses what follows a function's signature: the output mode and the slot rename.
pub fn parse_spec_suffix(ts: &[Token]) -> (r: Result<(OutputMode, Option<String>), BindError>)
    ensures
        r matches Ok((m, n)) ==> suffix_of(ts@.map_values(|t: Token| t@)) == Ok::<
            (OutputMode, Option<Seq<char>>),
            ErrorView,
        >((m, opt_view(n))),
        r matches Err(e) ==> suffix_of(ts@.map_values(|t: Token| t@)) == Err::<
            (OutputMode, Option<Seq<char>>),
            ErrorView,
        >(e@),
{
    proof {
        reveal_strlit(",");
        reveal_strlit("return");
        reveal_strlit("=");
        reveal_strlit("Option, Strict, Unwrap or Vec");
        reveal_strlit("(");
        reveal_strlit(")");
        reveal_strlit("identifier");
        reveal_strlit("end of input");
        assert(","@ =~= seq![',']);
        assert("return"@ =~= return_word());
        assert("="@ =~= seq!['=']);
        assert("Option, Strict, Unwrap or Vec"@ =~= mode_words());
        assert("("@ =~= seq!['(']);
        assert(")"@ =~= seq![')']);
        assert("identifier"@ =~= identifier_word());
        assert("end of input"@ =~= end_of_input());
    }
    let ghost tv = ts@.map_values(|t: Token| t@);
    if ts.len() == 0 {
        return Ok((OutputMode::Optional, None));
    }
    if !is_punct_token(&ts[0], ",") {
        return Err(syntax_error(",", ts[0].text().clone()));
    }
    if !(ts.len() > 1 && is_ident_text(&ts[1], "return")) {
        return Err(syntax_error("return", found_at(ts, 1)));
    }
    if !(ts.len() > 2 && is_punct_token(&ts[2], "=")) {
        return Err(syntax_error("=", found_at(ts, 2)));
    }
    let mode = if ts.len() > 3 {
        match &ts[3] {
            Token::Ident(w) => parse_output_mode(w.as_str()),
            _ => None,
        }
    } else {
        None
    };
    let m = match mode {
        Some(m) => m,
        None => {
            return Err(syntax_error("Option, Strict, Unwrap or Vec", found_at(ts, 3)));
        },
    };
    if ts.len() == 4 {
        return Ok((m, None));
    }
    if !is_open_text(&ts[4], "(") {
        return Err(syntax_error("(", ts[4].text().clone()));
    }
    if !(ts.len() > 5 && is_name_token(&ts[5])) {
        return Err(syntax_error("identifier", found_at(ts, 5)));
    }
    let name = ts[5].text().clone();
    if !(ts.len() > 6 && is_close_text(&ts[6], ")")) {
        return Err(syntax_error(")", found_at(ts, 6)));
    }
    if ts.len() > 7 {
        return Err(syntax_error("end of input", ts[7].text().clone()));
    }
    Ok((m, Some(name)))
}

/// The view of a function description, from its parts.
pub open spec fn spec_view_of(
    sig: Signature,
    m: OutputMode,
    rename: Option<Seq<char>>,
) -> FunctionSpecView {
    FunctionSpecView {
        name: sig.name@,
        receiver: sig.receiver,
        inputs: sig.inputs@.map_values(|n: String| n@),
        has_return: sig.has_return,
        mode: m,
        output_name: rename,
    }
}

impl FunctionSpec {
    /// A function description from its visibility, its signature, and the tokens
    /// that follow the signature.
    pub fn parse(visibility: String, signature: Signature, suffix: &[Token]) -> (r: Result<FunctionSpec, BindError>)
        ensures
            r matches Ok(f) ==> suffix_of(suffix@.map_values(|t: Token| t@)) matches Ok((m, n)) && f@
                == spec_view_of(signature, m, n) && f.visibility == visibility && f.signature == signature,
            r matches Err(e) ==> suffix_of(suffix@.map_values(|t: Token| t@)) == Err::<
                (OutputMode, Option<Seq<char>>),
                ErrorView,
            >(e@),
    {
        match parse_spec_suffix(suffix) {
            Ok((output_mode, output_name)) => Ok(FunctionSpec { visibility, signature, output_mode, output_name }),
            Err(e) => Err(e),
        }
    }
}

} // verus!
