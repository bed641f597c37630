//! Sugar for writing blueprints: from a short notation to the expression that
//! builds the blueprint.
//!
//! The notation is Rust source text. `plan`, `fork`, `scope`, `choose_` and `do_`
//! each take what stands between the brackets of a macro of that name and return
//! the text that it stands for. Where an expression ends is decided by `syn`; what
//! the pieces are and what is made of them is decided here.

use quote::ToTokens;
use syn::{Block, ExprMacro, Pat, Stmt};
use vstd::prelude::*;
use vstd::string::*;

verus! {

/// A piece of source text and what follows it, or what is wrong with it.
pub type Piece = Result<(Seq<char>, Seq<char>), Seq<char>>;

/// What follows a token of source text, or what is wrong with it.
pub type Rest = Result<Seq<char>, Seq<char>>;

/// Why a notation is refused.
#[derive(Debug, PartialEq, Eq)]
pub enum SyntaxError {
    /// Something else was expected, in the words of the parser.
    Parse(String),
    /// `fork` does not start with `left`.
    ForkLeft,
    /// The second branch of `fork` is not `right`.
    ForkRight,
    /// There is more after the branches of `fork`.
    ForkExtra,
    /// There is more after the body of `scope`.
    ScopeExtra,
    /// The first branch of `choose` is not `then`.
    ChooseThen,
    /// There is more after the branches of `choose`.
    ChooseExtra,
    /// A `let` of `do_` has no value.
    LetWithoutValue,
    /// A `let` of `do_` binds something else than a name.
    LetPattern,
    /// An item is declared in `do_`.
    Item,
}

/// What a [`SyntaxError`] holds.
pub enum SyntaxErrorView {
    Parse(Seq<char>),
    ForkLeft,
    ForkRight,
    ForkExtra,
    ScopeExtra,
    ChooseThen,
    ChooseExtra,
    LetWithoutValue,
    LetPattern,
    Item,
}

impl View for SyntaxError {
    type V = SyntaxErrorView;

    open spec fn view(&self) -> SyntaxErrorView {
        match *self {
            SyntaxError::Parse(m) => SyntaxErrorView::Parse(m@),
            SyntaxError::ForkLeft => SyntaxErrorView::ForkLeft,
            SyntaxError::ForkRight => SyntaxErrorView::ForkRight,
            SyntaxError::ForkExtra => SyntaxErrorView::ForkExtra,
            SyntaxError::ScopeExtra => SyntaxErrorView::ScopeExtra,
            SyntaxError::ChooseThen => SyntaxErrorView::ChooseThen,
            SyntaxError::ChooseExtra => SyntaxErrorView::ChooseExtra,
            SyntaxError::LetWithoutValue => SyntaxErrorView::LetWithoutValue,
            SyntaxError::LetPattern => SyntaxErrorView::LetPattern,
            SyntaxError::Item => SyntaxErrorView::Item,
        }
    }
}

/// The message of an error.
pub open spec fn message_of(e: SyntaxErrorView) -> Seq<char> {
    match e {
        SyntaxErrorView::Parse(m) => m,
        SyntaxErrorView::ForkLeft =>
            "fork! 期望标签 `left:`（语法：fork!{ left: <expr>, right: <expr> }）"@,
        SyntaxErrorView::ForkRight =>
            "fork! 期望标签 `right:`（语法：fork!{ left: <expr>, right: <expr> }）"@,
        SyntaxErrorView::ForkExtra =>
            "fork! 存在多余 token（语法：fork!{ left: <expr>, right: <expr> }）"@,
        SyntaxErrorView::ScopeExtra => "scope! 存在多余 token（语法：scope!(base, || expr)）"@,
        SyntaxErrorView::ChooseThen =>
            "choose! 期望标签 `then:`（语法：choose!(cond, then: <expr>, else: <expr>)）"@,
        SyntaxErrorView::ChooseExtra =>
            "choose! 存在多余 token（语法：choose!(cond, then: <expr>, else: <expr>)）"@,
        SyntaxErrorView::LetWithoutValue =>
            "do_! 的 let 必须有初始值（语法：let <标识符> = <Action 表达式>;）"@,
        SyntaxErrorView::LetPattern =>
            "do_! 仅支持 `let <标识符> = <表达式>;` 或 `let _ = <表达式>;`"@,
        SyntaxErrorView::Item => "do_! 不支持块内 item 声明（fn/struct/use 等请放在宏外）"@,
    }
}

impl SyntaxError {
    /// The message to show.
    pub fn message(&self) -> (s: String)
        ensures
            s@ == message_of(self@),
    {
        match self {
            SyntaxError::Parse(m) => m.clone(),
            SyntaxError::ForkLeft =>
                "fork! 期望标签 `left:`（语法：fork!{ left: <expr>, right: <expr> }）".to_owned(),
            SyntaxError::ForkRight =>
                "fork! 期望标签 `right:`（语法：fork!{ left: <expr>, right: <expr> }）".to_owned(),
            SyntaxError::ForkExtra =>
                "fork! 存在多余 token（语法：fork!{ left: <expr>, right: <expr> }）".to_owned(),
            SyntaxError::ScopeExtra =>
                "scope! 存在多余 token（语法：scope!(base, || expr)）".to_owned(),
            SyntaxError::ChooseThen =>
                "choose! 期望标签 `then:`（语法：choose!(cond, then: <expr>, else: <expr>)）".to_owned(),
            SyntaxError::ChooseExtra =>
                "choose! 存在多余 token（语法：choose!(cond, then: <expr>, else: <expr>)）".to_owned(),
            SyntaxError::LetWithoutValue =>
                "do_! 的 let 必须有初始值（语法：let <标识符> = <Action 表达式>;）".to_owned(),
            SyntaxError::LetPattern =>
                "do_! 仅支持 `let <标识符> = <表达式>;` 或 `let _ = <表达式>;`".to_owned(),
            SyntaxError::Item =>
                "do_! 不支持块内 item 声明（fn/struct/use 等请放在宏外）".to_owned(),
        }
    }
}

/// What a `let` binds.
#[derive(Debug, PartialEq, Eq)]
pub enum Pattern {
    Name { mutable: bool, name: String },
    Wild,
    Other,
}

/// What a [`Pattern`] holds.
pub enum PatternView {
    Name { mutable: bool, name: Seq<char> },
    Wild,
    Other,
}

impl View for Pattern {
    type V = PatternView;

    open spec fn view(&self) -> PatternView {
        match *self {
            Pattern::Name { mutable, name } => PatternView::Name { mutable, name: name@ },
            Pattern::Wild => PatternView::Wild,
            Pattern::Other => PatternView::Other,
        }
    }
}

/// A statement of a block: patterns and expressions as source text.
#[derive(Debug, PartialEq, Eq)]
pub enum Statement {
    Let { pattern: String, init: Option<String> },
    Expr { expr: String, semi: bool },
    Item,
}

/// What a [`Statement`] holds.
pub enum StatementView {
    Let { pattern: Seq<char>, init: Option<Seq<char>> },
    Expr { expr: Seq<char>, semi: bool },
    Item,
}

/// A text that may be there.
pub open spec fn text_option(s: Option<String>) -> Option<Seq<char>> {
    match s {
        Some(s) => Some(s@),
        None => None,
    }
}

impl View for Statement {
    type V = StatementView;

    open spec fn view(&self) -> StatementView {
        match *self {
            Statement::Let { pattern, init } => StatementView::Let {
                pattern: pattern@,
                init: text_option(init),
            },
            Statement::Expr { expr, semi } => StatementView::Expr { expr: expr@, semi },
            Statement::Item => StatementView::Item,
        }
    }
}

/// What a sequence of statements holds.
pub open spec fn statements(stmts: Seq<Statement>) -> Seq<StatementView> {
    stmts.map_values(|s: Statement| s@)
}

/// What a sequence of strings holds.
pub open spec fn strings(items: Seq<String>) -> Seq<Seq<char>> {
    items.map_values(|s: String| s@)
}

/// The expression that a source text starts with.
pub uninterp spec fn leading_expr_of(src: Seq<char>) -> Piece;

/// The identifier that a source text starts with.
pub uninterp spec fn leading_ident_of(src: Seq<char>) -> Piece;

/// What follows the colon that a source text starts with.
pub uninterp spec fn after_colon_of(src: Seq<char>) -> Rest;

/// What follows the comma that a source text starts with.
pub uninterp spec fn after_comma_of(src: Seq<char>) -> Rest;

/// What follows the keyword `else` that a source text starts with.
pub uninterp spec fn after_else_of(src: Seq<char>) -> Rest;

/// Whether a source text has no token.
pub uninterp spec fn has_no_token(src: Seq<char>) -> bool;

/// The expressions of a source text that are separated by semicolons.
pub uninterp spec fn expr_list_of(src: Seq<char>) -> Result<Seq<Seq<char>>, Seq<char>>;

/// The statements of a block, given as source text with its braces.
pub uninterp spec fn block_of(src: Seq<char>) -> Result<Seq<StatementView>, Seq<char>>;

/// What a pattern, given as source text, binds.
pub uninterp spec fn pattern_of(src: Seq<char>) -> PatternView;

/// Whether a source text is a string literal.
pub uninterp spec fn is_string_literal(src: Seq<char>) -> bool;

/// `syn::Expr::parse` on the text's tokens: the expression and the tokens after it,
/// printed, or the error's text. All of it depends on the text alone: `proc_macro2`
/// is built without its feature `proc-macro`, so the tokens are lexed and printed by
/// its own code in every process.
#[verifier::external_body]
fn leading_expr(src: &str) -> (r: Result<(String, String), String>)
    ensures
        match r {
            Ok((expr, rest)) => leading_expr_of(src@) == Piece::Ok((expr@, rest@)),
            Err(m) => leading_expr_of(src@) == Piece::Err(m@),
        },
{
    let parsed = syn::parse::Parser::parse_str(
        |input: syn::parse::ParseStream| {
            Ok((input.parse::<syn::Expr>()?, input.parse::<proc_macro2::TokenStream>()?))
        },
        src,
    );
    match parsed {
        Ok((expr, rest)) => Ok((expr.to_token_stream().to_string(), rest.to_string())),
        Err(e) => Err(e.to_string()),
    }
}

/// `syn::Ident::parse` on the text's tokens: the identifier and the tokens after
/// it, printed, or the error's text. A keyword is no identifier. What it finds
/// depends on the text alone.
#[verifier::external_body]
fn leading_ident(src: &str) -> (r: Result<(String, String), String>)
    ensures
        match r {
            Ok((ident, rest)) => leading_ident_of(src@) == Piece::Ok((ident@, rest@)),
            Err(m) => leading_ident_of(src@) == Piece::Err(m@),
        },
{
    let parsed = syn::parse::Parser::parse_str(
        |input: syn::parse::ParseStream| {
            Ok((input.parse::<syn::Ident>()?, input.parse::<proc_macro2::TokenStream>()?))
        },
        src,
    );
    match parsed {
        Ok((ident, rest)) => Ok((ident.to_string(), rest.to_string())),
        Err(e) => Err(e.to_string()),
    }
}

/// `syn::token::Colon::parse` on the text's tokens: the tokens after the colon,
/// printed, or the error's text. What it finds depends on the text alone.
#[verifier::external_body]
fn after_colon(src: &str) -> (r: Result<String, String>)
    ensures
        match r {
            Ok(rest) => after_colon_of(src@) == Rest::Ok(rest@),
            Err(m) => after_colon_of(src@) == Rest::Err(m@),
        },
{
    let parsed = syn::parse::Parser::parse_str(
        |input: syn::parse::ParseStream| {
            input.parse::<syn::token::Colon>()?;
            input.parse::<proc_macro2::TokenStream>()
        },
        src,
    );
    match parsed {
        Ok(rest) => Ok(rest.to_string()),
        Err(e) => Err(e.to_string()),
    }
}

/// `syn::token::Comma::parse` on the text's tokens: the tokens after the comma,
/// printed, or the error's text. What it finds depends on the text alone.
#[verifier::external_body]
fn after_comma(src: &str) -> (r: Result<String, String>)
    ensures
        match r {
            Ok(rest) => after_comma_of(src@) == Rest::Ok(rest@),
            Err(m) => after_comma_of(src@) == Rest::Err(m@),
        },
{
    let parsed = syn::parse::Parser::parse_str(
        |input: syn::parse::ParseStream| {
            input.parse::<syn::token::Comma>()?;
            input.parse::<proc_macro2::TokenStream>()
        },
        src,
    );
    match parsed {
        Ok(rest) => Ok(rest.to_string()),
        Err(e) => Err(e.to_string()),
    }
}

/// `syn::token::Else::parse` on the text's tokens: the tokens after the keyword,
/// printed, or the error's text. What it finds depends on the text alone.
#[verifier::external_body]
fn after_else(src: &str) -> (r: Result<String, String>)
    ensures
        match r {
            Ok(rest) => after_else_of(src@) == Rest::Ok(rest@),
            Err(m) => after_else_of(src@) == Rest::Err(m@),
        },
{
    let parsed = syn::parse::Parser::parse_str(
        |input: syn::parse::ParseStream| {
            input.parse::<syn::token::Else>()?;
            input.parse::<proc_macro2::TokenStream>()
        },
        src,
    );
    match parsed {
        Ok(rest) => Ok(rest.to_string()),
        Err(e) => Err(e.to_string()),
    }
}

/// `syn::parse_str` of `syn::parse::Nothing`, which succeeds on a text without
/// tokens and on no other.
#[verifier::external_body]
fn is_blank(src: &str) -> (r: bool)
    ensures
        r == has_no_token(src@),
{
    syn::parse_str::<syn::parse::Nothing>(src).is_ok()
}

/// `syn::punctuated::Punctuated::parse_terminated` on the text's tokens: the
/// expressions, printed, or the error's text. What it finds depends on the text
/// alone.
#[verifier::external_body]
fn expr_list(src: &str) -> (r: Result<Vec<String>, String>)
    ensures
        match r {
            Ok(list) => expr_list_of(src@) == Ok::<Seq<Seq<char>>, Seq<char>>(strings(list@)),
            Err(m) => expr_list_of(src@) == Err::<Seq<Seq<char>>, Seq<char>>(m@),
        },
{
    let parsed = syn::parse::Parser::parse_str(
        syn::punctuated::Punctuated::<syn::Expr, syn::token::Semi>::parse_terminated,
        src,
    );
    match parsed {
        Ok(list) => Ok(list.iter().map(|e| e.to_token_stream().to_string()).collect()),
        Err(e) => Err(e.to_string()),
    }
}

/// `syn::parse_str` of `syn::Block`: its statements, their expressions printed, or
/// the error's text. A macro call in statement position is an expression. What it
/// finds depends on the text alone.
#[verifier::external_body]
fn block(src: &str) -> (r: Result<Vec<Statement>, String>)
    ensures
        match r {
            Ok(list) => block_of(src@) == Ok::<Seq<StatementView>, Seq<char>>(statements(list@)),
            Err(m) => block_of(src@) == Err::<Seq<StatementView>, Seq<char>>(m@),
        },
{
    let text = |t: &dyn ToTokens| t.to_token_stream().to_string();
    let parsed = syn::parse_str::<Block>(src).map_err(|e| e.to_string())?;
    Ok(parsed.stmts.into_iter().map(|s| match s {
        Stmt::Local(l) => Statement::Let {
            pattern: text(&l.pat),
            init: l.init.map(|i| text(&i.expr)),
        },
        Stmt::Expr(e, semi) => Statement::Expr { expr: text(&e), semi: semi.is_some() },
        Stmt::Macro(m) => Statement::Expr { semi: m.semi_token.is_some(), expr: text(&ExprMacro { attrs: m.attrs, mac: m.mac }) },
        Stmt::Item(_) => Statement::Item,
    }).collect())
}

/// `syn::Pat::parse_single` on the text's tokens: whether the pattern is a name, of
/// which it gives the name and whether it is mutable, or `_`, or another pattern or
/// none. What it finds depends on the text alone.
#[verifier::external_body]
fn pattern(src: &str) -> (r: Pattern)
    ensures
        r@ == pattern_of(src@),
{
    match syn::parse::Parser::parse_str(Pat::parse_single, src) {
        Ok(Pat::Ident(p)) => Pattern::Name {
            mutable: p.mutability.is_some(),
            name: p.ident.to_string(),
        },
        Ok(Pat::Wild(_)) => Pattern::Wild,
        _ => Pattern::Other,
    }
}

/// `syn::parse_str` of `syn::Expr`, and whether that is a string literal.
#[verifier::external_body]
fn string_literal(src: &str) -> (r: bool)
    ensures
        r == is_string_literal(src@),
{
    match syn::parse_str::<syn::Expr>(src) {
        Ok(syn::Expr::Lit(l)) => matches!(l.lit, syn::Lit::Str(_)),
        _ => false,
    }
}

/// The blueprint that does nothing.
pub open spec fn unit_text() -> Seq<char> {
    "algeff_core::action::Action::Pure(algeff_core::action::Value::Unit)"@
}

/// A blueprint followed by another, whatever its value.
pub open spec fn sequential_text(current: Seq<char>, rest: Seq<char>) -> Seq<char> {
    "algeff_core::action::Action::Sequential { current: Box::new("@ + current
        + "), next: Box::new(|_| "@ + rest + ") }"@
}

/// Blueprints one after the other, ending with nothing.
pub open spec fn plan_text(exprs: Seq<Seq<char>>) -> Seq<char>
    decreases exprs.len(),
{
    if exprs.len() == 0 {
        unit_text()
    } else {
        sequential_text(exprs.first(), plan_text(exprs.drop_first()))
    }
}

/// Two branches whose values are dropped.
pub open spec fn fork_text(left: Seq<char>, right: Seq<char>) -> Seq<char> {
    "algeff_core::action::Action::Fork { left: Box::new("@ + left + "), right: Box::new("@ + right
        + "), combine: Box::new(|_, _| "@ + unit_text() + ") }"@
}

/// The path of a scope: a literal becomes a path buffer.
pub open spec fn base_text(base: Seq<char>) -> Seq<char> {
    if is_string_literal(base) {
        "std::path::PathBuf::from("@ + base + ")"@
    } else {
        base
    }
}

/// A scope whose value is dropped. The body is called.
pub open spec fn scope_text(base: Seq<char>, inner: Seq<char>) -> Seq<char> {
    "algeff_core::action::Action::Scope { base: "@ + base_text(base) + ", inner: Box::new(("@
        + inner + ")()), next: Box::new(|_| "@ + unit_text() + ") }"@
}

/// A choice by a condition that is known when the blueprint is built.
pub open spec fn choose_text(
    cond: Seq<char>,
    then_branch: Seq<char>,
    else_branch: Seq<char>,
) -> Seq<char> {
    "algeff_core::action::Action::Choose { cond: Box::new(move |_| "@ + cond
        + "), then_branch: Box::new("@ + then_branch + "), else_branch: Box::new("@ + else_branch
        + ") }"@
}

/// A blueprint whose value is bound in what follows.
pub open spec fn and_then_text(init: Seq<char>, binder: Seq<char>, rest: Seq<char>) -> Seq<char> {
    "algeff_std::dx::and_then("@ + init + ", move |"@ + binder + "| { "@ + rest + " })"@
}

/// A text, or why there is none.
pub type TextView = Result<Seq<char>, SyntaxErrorView>;

/// A text, or why there is none.
pub open spec fn text_view(r: Result<String, SyntaxError>) -> TextView {
    match r {
        Ok(s) => Ok(s@),
        Err(e) => Err(e@),
    }
}

/// An expression behind a label, `label: expression`, and what follows it.
pub open spec fn labelled_expr(src: Seq<char>, label: Seq<char>, otherwise: SyntaxErrorView) -> Result<
    (Seq<char>, Seq<char>),
    SyntaxErrorView,
> {
    match leading_ident_of(src) {
        Err(m) => Err(SyntaxErrorView::Parse(m)),
        Ok((ident, rest)) => if ident != label {
            Err(otherwise)
        } else {
            match after_colon_of(rest) {
                Err(m) => Err(SyntaxErrorView::Parse(m)),
                Ok(rest) => match leading_expr_of(rest) {
                    Err(m) => Err(SyntaxErrorView::Parse(m)),
                    Ok(piece) => Ok(piece),
                },
            }
        },
    }
}

/// Whether at most a comma is left.
pub open spec fn at_end(src: Seq<char>) -> bool {
    match after_comma_of(src) {
        Ok(rest) => has_no_token(rest),
        Err(_) => has_no_token(src),
    }
}

/// What `plan` stands for.
pub open spec fn plan_of(src: Seq<char>) -> TextView {
    match expr_list_of(src) {
        Ok(list) => Ok(plan_text(list)),
        Err(m) => Err(SyntaxErrorView::Parse(m)),
    }
}

/// What `fork` stands for.
pub open spec fn fork_of(src: Seq<char>) -> TextView {
    match labelled_expr(src, "left"@, SyntaxErrorView::ForkLeft) {
        Err(e) => Err(e),
        Ok((left, rest)) => match after_comma_of(rest) {
            Err(m) => Err(SyntaxErrorView::Parse(m)),
            Ok(rest) => match labelled_expr(rest, "right"@, SyntaxErrorView::ForkRight) {
                Err(e) => Err(e),
                Ok((right, rest)) => if at_end(rest) {
                    Ok(fork_text(left, right))
                } else {
                    Err(SyntaxErrorView::ForkExtra)
                },
            },
        },
    }
}

/// What `scope` stands for.
pub open spec fn scope_of(src: Seq<char>) -> TextView {
    match leading_expr_of(src) {
        Err(m) => Err(SyntaxErrorView::Parse(m)),
        Ok((base, rest)) => match after_comma_of(rest) {
            Err(m) => Err(SyntaxErrorView::Parse(m)),
            Ok(rest) => match leading_expr_of(rest) {
                Err(m) => Err(SyntaxErrorView::Parse(m)),
                Ok((inner, rest)) => if at_end(rest) {
                    Ok(scope_text(base, inner))
                } else {
                    Err(SyntaxErrorView::ScopeExtra)
                },
            },
        },
    }
}

/// The last branch of `choose`, from `else` on.
pub open spec fn else_of(src: Seq<char>) -> TextView {
    match after_else_of(src) {
        Err(m) => Err(SyntaxErrorView::Parse(m)),
        Ok(rest) => match after_colon_of(rest) {
            Err(m) => Err(SyntaxErrorView::Parse(m)),
            Ok(rest) => match leading_expr_of(rest) {
                Err(m) => Err(SyntaxErrorView::Parse(m)),
                Ok((expr, rest)) => if at_end(rest) {
                    Ok(expr)
                } else {
                    Err(SyntaxErrorView::ChooseExtra)
                },
            },
        },
    }
}

/// What `choose` stands for.
pub open spec fn choose_of(src: Seq<char>) -> TextView {
    match leading_expr_of(src) {
        Err(m) => Err(SyntaxErrorView::Parse(m)),
        Ok((cond, rest)) => match after_comma_of(rest) {
            Err(m) => Err(SyntaxErrorView::Parse(m)),
            Ok(rest) => match labelled_expr(rest, "then"@, SyntaxErrorView::ChooseThen) {
                Err(e) => Err(e),
                Ok((then_branch, rest)) => match after_comma_of(rest) {
                    Err(m) => Err(SyntaxErrorView::Parse(m)),
                    Ok(rest) => match else_of(rest) {
                        Err(e) => Err(e),
                        Ok(else_branch) => Ok(choose_text(cond, then_branch, else_branch)),
                    },
                },
            },
        },
    }
}

/// A statement with what follows it.
pub open spec fn linked(stmt: StatementView, rest: Seq<char>) -> TextView {
    match stmt {
        StatementView::Let { init: None, .. } => Err(SyntaxErrorView::LetWithoutValue),
        StatementView::Let { pattern, init: Some(init) } => match pattern_of(pattern) {
            PatternView::Name { mutable, name } => Ok(
                and_then_text(
                    init,
                    if mutable {
                        "mut "@ + name
                    } else {
                        name
                    },
                    rest,
                ),
            ),
            PatternView::Wild => Ok(and_then_text(init, "_"@, rest)),
            PatternView::Other => Err(SyntaxErrorView::LetPattern),
        },
        StatementView::Expr { expr, .. } => Ok(and_then_text(expr, "_"@, rest)),
        StatementView::Item => Err(SyntaxErrorView::Item),
    }
}

/// Statements with what follows them. Of several mistakes, the last counts.
pub open spec fn chained(stmts: Seq<StatementView>, rest: Seq<char>) -> TextView
    decreases stmts.len(),
{
    if stmts.len() == 0 {
        Ok(rest)
    } else {
        match linked(stmts.last(), rest) {
            Ok(text) => chained(stmts.drop_last(), text),
            Err(e) => Err(e),
        }
    }
}

/// What a block of statements stands for: a chain that ends with the value of the
/// last expression, or with nothing if that has a semicolon.
pub open spec fn do_text(stmts: Seq<StatementView>) -> TextView {
    if stmts.len() == 0 {
        Ok(unit_text())
    } else {
        match stmts.last() {
            StatementView::Expr { expr, semi: false } => chained(
                stmts.drop_last(),
                "algeff_std::dx::pure("@ + expr + ")"@,
            ),
            _ => chained(stmts, unit_text()),
        }
    }
}

/// What `do_` stands for.
pub open spec fn do_of(src: Seq<char>) -> TextView {
    match block_of("{\n"@ + src + "\n}"@) {
        Ok(stmts) => do_text(stmts),
        Err(m) => Err(SyntaxErrorView::Parse(m)),
    }
}

/// The blueprint that does nothing.
fn pure_unit() -> (s: String)
    ensures
        s@ == unit_text(),
{
    "algeff_core::action::Action::Pure(algeff_core::action::Value::Unit)".to_owned()
}

/// A blueprint followed by another, whatever its value.
fn sequential(current: &str, rest: &str) -> (s: String)
    ensures
        s@ == sequential_text(current@, rest@),
{
    let mut s = "algeff_core::action::Action::Sequential { current: Box::new(".to_owned();
    s.append(current);
    s.append("), next: Box::new(|_| ");
    s.append(rest);
    s.append(") }");
    s
}

/// A blueprint whose value is bound in what follows.
fn and_then(init: &str, binder: &str, rest: &str) -> (s: String)
    ensures
        s@ == and_then_text(init@, binder@, rest@),
{
    let mut s = "algeff_std::dx::and_then(".to_owned();
    s.append(init);
    s.append(", move |");
    s.append(binder);
    s.append("| { ");
    s.append(rest);
    s.append(" })");
    s
}

/// Blueprints one after the other: `e1; e2; ...`. The values of all but the last
/// are dropped, and so is the last.
pub fn plan(src: &str) -> (r: Result<String, SyntaxError>)
    ensures
        text_view(r) == plan_of(src@),
{
    match expr_list(src) {
        Ok(list) => Ok(plan_chain(&list)),
        Err(m) => Err(SyntaxError::Parse(m)),
    }
}

/// Blueprints one after the other.
pub fn plan_chain(exprs: &Vec<String>) -> (s: String)
    ensures
        s@ == plan_text(strings(exprs@)),
{
    let ghost all = strings(exprs@);
    let mut out = pure_unit();
    let mut i: usize = exprs.len();
    assert(all.skip(i as int) =~= Seq::empty());
    while i > 0
        invariant
            i <= exprs@.len(),
            all == strings(exprs@),
            out@ == plan_text(all.skip(i as int)),
        decreases i,
    {
        i -= 1;
        proof {
            assert(all.skip(i as int).drop_first() =~= all.skip(i + 1));
            assert(all.skip(i as int).first() == exprs@[i as int]@);
        }
        out = sequential(exprs[i].as_str(), out.as_str());
    }
    assert(all.skip(0) =~= all);
    out
}

/// An expression behind a label, and what follows it.
fn labelled(src: &str, label: &str, otherwise: SyntaxError) -> (r: Result<
    (String, String),
    SyntaxError,
>)
    ensures
        match r {
            Ok((expr, rest)) => labelled_expr(src@, label@, otherwise@) == Ok::<
                (Seq<char>, Seq<char>),
                SyntaxErrorView,
            >((expr@, rest@)),
            Err(e) => labelled_expr(src@, label@, otherwise@) == Err::<
                (Seq<char>, Seq<char>),
                SyntaxErrorView,
            >(e@),
        },
{
    let (ident, rest) = match leading_ident(src) {
        Ok(piece) => piece,
        Err(m) => {
            return Err(SyntaxError::Parse(m));
        },
    };
    if ident != label.to_owned() {
        return Err(otherwise);
    }
    let rest = match after_colon(rest.as_str()) {
        Ok(rest) => rest,
        Err(m) => {
            return Err(SyntaxError::Parse(m));
        },
    };
    match leading_expr(rest.as_str()) {
        Ok(piece) => Ok(piece),
        Err(m) => Err(SyntaxError::Parse(m)),
    }
}

/// Whether at most a comma is left.
fn ends(src: &str) -> (r: bool)
    ensures
        r == at_end(src@),
{
    match after_comma(src) {
        Ok(rest) => is_blank(rest.as_str()),
        Err(_) => is_blank(src),
    }
}

/// Two branches: `left: e1, right: e2`, with or without a comma at the end.
pub fn fork(src: &str) -> (r: Result<String, SyntaxError>)
    ensures
        text_view(r) == fork_of(src@),
{
    let (left, rest) = match labelled(src, "left", SyntaxError::ForkLeft) {
        Ok(piece) => piece,
        Err(e) => {
            return Err(e);
        },
    };
    let rest = match after_comma(rest.as_str()) {
        Ok(rest) => rest,
        Err(m) => {
            return Err(SyntaxError::Parse(m));
        },
    };
    let (right, rest) = match labelled(rest.as_str(), "right", SyntaxError::ForkRight) {
        Ok(piece) => piece,
        Err(e) => {
            return Err(e);
        },
    };
    if !ends(rest.as_str()) {
        return Err(SyntaxError::ForkExtra);
    }
    let mut s = "algeff_core::action::Action::Fork { left: Box::new(".to_owned();
    s.append(left.as_str());
    s.append("), right: Box::new(");
    s.append(right.as_str());
    s.append("), combine: Box::new(|_, _| ");
    s.append(pure_unit().as_str());
    s.append(") }");
    Ok(s)
}

/// A scope: `base, || body`, with or without a comma at the end. A base that is a
/// string literal becomes a path buffer; any other is taken as it is.
pub fn scope(src: &str) -> (r: Result<String, SyntaxError>)
    ensures
        text_view(r) == scope_of(src@),
{
    let (base, rest) = match leading_expr(src) {
        Ok(piece) => piece,
        Err(m) => {
            return Err(SyntaxError::Parse(m));
        },
    };
    let rest = match after_comma(rest.as_str()) {
        Ok(rest) => rest,
        Err(m) => {
            return Err(SyntaxError::Parse(m));
        },
    };
    let (inner, rest) = match leading_expr(rest.as_str()) {
        Ok(piece) => piece,
        Err(m) => {
            return Err(SyntaxError::Parse(m));
        },
    };
    if !ends(rest.as_str()) {
        return Err(SyntaxError::ScopeExtra);
    }
    let base = if string_literal(base.as_str()) {
        let mut owned = "std::path::PathBuf::from(".to_owned();
        owned.append(base.as_str());
        owned.append(")");
        owned
    } else {
        base
    };
    let mut s = "algeff_core::action::Action::Scope { base: ".to_owned();
    s.append(base.as_str());
    s.append(", inner: Box::new((");
    s.append(inner.as_str());
    s.append(")()), next: Box::new(|_| ");
    s.append(pure_unit().as_str());
    s.append(") }");
    Ok(s)
}

/// The last branch of `choose`.
fn else_branch(src: &str) -> (r: Result<String, SyntaxError>)
    ensures
        text_view(r) == else_of(src@),
{
    let rest = match after_else(src) {
        Ok(rest) => rest,
        Err(m) => {
            return Err(SyntaxError::Parse(m));
        },
    };
    let rest = match after_colon(rest.as_str()) {
        Ok(rest) => rest,
        Err(m) => {
            return Err(SyntaxError::Parse(m));
        },
    };
    let (expr, rest) = match leading_expr(rest.as_str()) {
        Ok(piece) => piece,
        Err(m) => {
            return Err(SyntaxError::Parse(m));
        },
    };
    if ends(rest.as_str()) {
        Ok(expr)
    } else {
        Err(SyntaxError::ChooseExtra)
    }
}

/// A choice: `cond, then: e1, else: e2`, with or without a comma at the end.
pub fn choose_(src: &str) -> (r: Result<String, SyntaxError>)
    ensures
        text_view(r) == choose_of(src@),
{
    let (cond, rest) = match leading_expr(src) {
        Ok(piece) => piece,
        Err(m) => {
            return Err(SyntaxError::Parse(m));
        },
    };
    let rest = match after_comma(rest.as_str()) {
        Ok(rest) => rest,
        Err(m) => {
            return Err(SyntaxError::Parse(m));
        },
    };
    let (then_branch, rest) = match labelled(rest.as_str(), "then", SyntaxError::ChooseThen) {
        Ok(piece) => piece,
        Err(e) => {
            return Err(e);
        },
    };
    let rest = match after_comma(rest.as_str()) {
        Ok(rest) => rest,
        Err(m) => {
            return Err(SyntaxError::Parse(m));
        },
    };
    let else_branch = match else_branch(rest.as_str()) {
        Ok(expr) => expr,
        Err(e) => {
            return Err(e);
        },
    };
    let mut s = "algeff_core::action::Action::Choose { cond: Box::new(move |_| ".to_owned();
    s.append(cond.as_str());
    s.append("), then_branch: Box::new(");
    s.append(then_branch.as_str());
    s.append("), else_branch: Box::new(");
    s.append(else_branch.as_str());
    s.append(") }");
    Ok(s)
}

/// A statement with what follows it.
fn link(stmt: &Statement, rest: &str) -> (r: Result<String, SyntaxError>)
    ensures
        text_view(r) == linked(stmt@, rest@),
{
    match stmt {
        Statement::Let { pattern: text, init } => {
            let init = match init {
                Some(init) => init,
                None => {
                    return Err(SyntaxError::LetWithoutValue);
                },
            };
            match pattern(text.as_str()) {
                Pattern::Name { mutable, name } => {
                    if mutable {
                        let mut binder = "mut ".to_owned();
                        binder.append(name.as_str());
                        Ok(and_then(init.as_str(), binder.as_str(), rest))
                    } else {
                        Ok(and_then(init.as_str(), name.as_str(), rest))
                    }
                },
                Pattern::Wild => Ok(and_then(init.as_str(), "_", rest)),
                Pattern::Other => Err(SyntaxError::LetPattern),
            }
        },
        Statement::Expr { expr, .. } => Ok(and_then(expr.as_str(), "_", rest)),
        Statement::Item => Err(SyntaxError::Item),
    }
}

/// The chain that a block of statements stands for: each statement runs and its
/// value is bound in what follows. The last expression, without a semicolon, is
/// the value of the chain.
pub fn do_chain(stmts: &Vec<Statement>) -> (r: Result<String, SyntaxError>)
    ensures
        text_view(r) == do_text(statements(stmts@)),
{
    let ghost all = statements(stmts@);
    let mut n: usize = stmts.len();
    let mut out = pure_unit();
    if n > 0 {
        assert(all.last() == stmts@[n - 1]@);
        if let Statement::Expr { expr, semi: false } = &stmts[n - 1] {
            out = "algeff_std::dx::pure(".to_owned();
            out.append(expr.as_str());
            out.append(")");
            n -= 1;
        }
    }
    assert(n < stmts@.len() ==> all.take(n as int) =~= all.drop_last());
    assert(n == stmts@.len() ==> all.take(n as int) =~= all);
    assert(do_text(all) == chained(all.take(n as int), out@));
    while n > 0
        invariant
            n <= stmts@.len(),
            all == statements(stmts@),
            do_text(all) == chained(all.take(n as int), out@),
        decreases n,
    {
        n -= 1;
        proof {
            assert(all.take(n + 1).drop_last() =~= all.take(n as int));
            assert(all.take(n + 1).last() == stmts@[n as int]@);
        }
        match link(&stmts[n], out.as_str()) {
            Ok(text) => {
                out = text;
            },
            Err(e) => {
                return Err(e);
            },
        }
    }
    Ok(out)
}

/// A chain written as statements: `let x = e;`, `let _ = e;`, `e;`, and a last
/// expression that is the value.
pub fn do_(src: &str) -> (r: Result<String, SyntaxError>)
    ensures
        text_view(r) == do_of(src@),
{
    let mut text = "{\n".to_owned();
    text.append(src);
    text.append("\n}");
    match block(text.as_str()) {
        Ok(stmts) => do_chain(&stmts),
        Err(m) => Err(SyntaxError::Parse(m)),
    }
}

/// Whether these texts stand around the parts of a sequence.
pub open spec fn surround_a_sequence(a: Seq<char>, b: Seq<char>, c: Seq<char>) -> bool {
    forall|x: Seq<char>, y: Seq<char>| #[trigger] sequential_text(x, y) == a + x + b + y + c
}

/// Whether these texts stand around the parts of a fork.
pub open spec fn surround_a_fork(a: Seq<char>, b: Seq<char>, c: Seq<char>) -> bool {
    forall|x: Seq<char>, y: Seq<char>| #[trigger] fork_text(x, y) == a + x + b + y + c
}

/// Whether these texts stand around the parts of a scope whose base is no literal.
pub open spec fn surround_a_scope(a: Seq<char>, b: Seq<char>, c: Seq<char>) -> bool {
    forall|x: Seq<char>, y: Seq<char>|
        !is_string_literal(x) ==> #[trigger] scope_text(x, y) == a + x + b + y + c
}

/// Whether these texts stand around the parts of a choice.
pub open spec fn surround_a_choice(
    a: Seq<char>,
    b: Seq<char>,
    c: Seq<char>,
    d: Seq<char>,
) -> bool {
    forall|x: Seq<char>, y: Seq<char>, z: Seq<char>| #[trigger]
        choose_text(x, y, z) == a + x + b + y + c + z + d
}

/// Whether these texts stand around the parts of a link of a chain.
pub open spec fn surround_a_link(
    a: Seq<char>,
    b: Seq<char>,
    c: Seq<char>,
    d: Seq<char>,
) -> bool {
    forall|x: Seq<char>, y: Seq<char>, z: Seq<char>| #[trigger]
        and_then_text(x, y, z) == a + x + b + y + c + z + d
}

/// What a notation stands for holds its parts as they were written, each once and in
/// order, between texts that are always the same.
pub proof fn law_parts_are_kept_as_written()
    ensures
        exists|a: Seq<char>, b: Seq<char>, c: Seq<char>| surround_a_sequence(a, b, c),
        exists|a: Seq<char>, b: Seq<char>, c: Seq<char>| surround_a_fork(a, b, c),
        exists|a: Seq<char>, b: Seq<char>, c: Seq<char>| surround_a_scope(a, b, c),
        exists|a: Seq<char>, b: Seq<char>, c: Seq<char>, d: Seq<char>|
            surround_a_choice(a, b, c, d),
        exists|a: Seq<char>, b: Seq<char>, c: Seq<char>, d: Seq<char>|
            surround_a_link(a, b, c, d),
{
    let unit = unit_text();
    let (a, b, c) = (
        "algeff_core::action::Action::Sequential { current: Box::new("@,
        "), next: Box::new(|_| "@,
        ") }"@,
    );
    assert(surround_a_sequence(a, b, c)) by {
        assert forall|x: Seq<char>, y: Seq<char>| #[trigger]
            sequential_text(x, y) == a + x + b + y + c by {
            assert(sequential_text(x, y) =~= a + x + b + y + c);
        }
    }
    let (a, b, c) = (
        "algeff_core::action::Action::Fork { left: Box::new("@,
        "), right: Box::new("@,
        "), combine: Box::new(|_, _| "@ + unit + ") }"@,
    );
    assert(surround_a_fork(a, b, c)) by {
        assert forall|x: Seq<char>, y: Seq<char>| #[trigger]
            fork_text(x, y) == a + x + b + y + c by {
            assert(fork_text(x, y) =~= a + x + b + y + c);
        }
    }
    let (a, b, c) = (
        "algeff_core::action::Action::Scope { base: "@,
        ", inner: Box::new(("@,
        ")()), next: Box::new(|_| "@ + unit + ") }"@,
    );
    assert(surround_a_scope(a, b, c)) by {
        assert forall|x: Seq<char>, y: Seq<char>|
            !is_string_literal(x) implies #[trigger] scope_text(x, y) == a + x + b + y + c by {
            assert(scope_text(x, y) =~= a + x + b + y + c);
        }
    }
    let (a, b, c, d) = (
        "algeff_core::action::Action::Choose { cond: Box::new(move |_| "@,
        "), then_branch: Box::new("@,
        "), else_branch: Box::new("@,
        ") }"@,
    );
    assert(surround_a_choice(a, b, c, d)) by {
        assert forall|x: Seq<char>, y: Seq<char>, z: Seq<char>| #[trigger]
            choose_text(x, y, z) == a + x + b + y + c + z + d by {
            assert(choose_text(x, y, z) =~= a + x + b + y + c + z + d);
        }
    }
    let (a, b, c, d) = ("algeff_std::dx::and_then("@, ", move |"@, "| { "@, " })"@);
    assert(surround_a_link(a, b, c, d)) by {
        assert forall|x: Seq<char>, y: Seq<char>, z: Seq<char>| #[trigger]
            and_then_text(x, y, z) == a + x + b + y + c + z + d by {
            assert(and_then_text(x, y, z) =~= a + x + b + y + c + z + d);
        }
    }
}

/// A scope with a string literal is the scope with the path buffer that is made of it.
pub proof fn law_literal_base(literal: Seq<char>, body: Seq<char>)
    requires
        is_string_literal(literal),
        !is_string_literal("std::path::PathBuf::from("@ + literal + ")"@),
    ensures
        scope_text(literal, body) == scope_text(
            "std::path::PathBuf::from("@ + literal + ")"@,
            body,
        ),
{
}

/// Why a statement by itself cannot stand in a chain, if it cannot.
pub open spec fn mistake(stmt: StatementView) -> Option<SyntaxErrorView> {
    match stmt {
        StatementView::Let { init: None, .. } => Some(SyntaxErrorView::LetWithoutValue),
        StatementView::Let { pattern, .. } => if pattern_of(pattern) is Other {
            Some(SyntaxErrorView::LetPattern)
        } else {
            None
        },
        StatementView::Expr { .. } => None,
        StatementView::Item => Some(SyntaxErrorView::Item),
    }
}

/// A chain stands for a text exactly if no statement in it is a mistake; of several
/// mistakes the last one counts.
pub proof fn law_last_mistake_counts(stmts: Seq<StatementView>, rest: Seq<char>)
    ensures
        chained(stmts, rest) is Ok <==> forall|i: int|
            0 <= i < stmts.len() ==> mistake(#[trigger] stmts[i]) is None,
        chained(stmts, rest) matches Err(e) ==> exists|i: int|
            0 <= i < stmts.len() && mistake(#[trigger] stmts[i]) == Some(e) && forall|j: int|
                i < j < stmts.len() ==> mistake(#[trigger] stmts[j]) is None,
    decreases stmts.len(),
{
    if stmts.len() > 0 {
        let n = stmts.len() - 1;
        let before = stmts.drop_last();
        assert(stmts.last() == stmts[n]);
        assert(forall|i: int| 0 <= i < n ==> #[trigger] before[i] == stmts[i]);
        assert(forall|i: int| 0 <= i < n ==> #[trigger] stmts[i] == before[i]);
        match linked(stmts.last(), rest) {
            Ok(text) => {
                assert(mistake(stmts[n]) is None);
                law_last_mistake_counts(before, text);
                if chained(before, text) is Err {
                    let e = chained(before, text)->Err_0;
                    let i = choose|i: int|
                        0 <= i < before.len() && mistake(#[trigger] before[i]) == Some(e)
                            && forall|j: int|
                            i < j < before.len() ==> mistake(#[trigger] before[j]) is None;
                    assert(mistake(stmts[i]) == Some(e));
                    assert forall|j: int| i < j < stmts.len() implies mistake(
                        #[trigger] stmts[j],
                    ) is None by {
                        if j < n {
                            assert(mistake(before[j]) is None);
                        }
                    }
                } else {
                    assert forall|i: int| 0 <= i < stmts.len() implies mistake(
                        #[trigger] stmts[i],
                    ) is None by {
                        if i < n {
                            assert(mistake(before[i]) is None);
                        }
                    }
                }
            },
            Err(e) => {
                assert(mistake(stmts[n]) == Some(e));
            },
        }
    }
}

/// A chain of some statements and more is the chain of the first with what the others
/// stand for after it: each statement runs before those that follow it.
pub proof fn law_chains_are_joined(
    a: Seq<StatementView>,
    b: Seq<StatementView>,
    rest: Seq<char>,
)
    ensures
        chained(a + b, rest) == (match chained(b, rest) {
            Ok(text) => chained(a, text),
            Err(e) => Err(e),
        }),
    decreases b.len(),
{
    if b.len() == 0 {
        assert(a + b =~= a);
    } else {
        assert((a + b).drop_last() =~= a + b.drop_last());
        assert((a + b).last() == b.last());
        if let Ok(text) = linked(b.last(), rest) {
            law_chains_are_joined(a, b.drop_last(), text);
        }
    }
}

/// A statement binds what its `let` names, mutable or not, in what follows it; one
/// that names nothing drops its value.
pub proof fn law_what_a_statement_binds(
    pattern: Seq<char>,
    init: Seq<char>,
    expr: Seq<char>,
    semi: bool,
    rest: Seq<char>,
)
    ensures
        linked(StatementView::Expr { expr, semi }, rest) == TextView::Ok(
            and_then_text(expr, "_"@, rest),
        ),
        linked(StatementView::Let { pattern, init: Some(init) }, rest) == (match pattern_of(
            pattern,
        ) {
            PatternView::Name { mutable: false, name } => TextView::Ok(
                and_then_text(init, name, rest),
            ),
            PatternView::Name { mutable: true, name } => TextView::Ok(
                and_then_text(init, "mut "@ + name, rest),
            ),
            PatternView::Wild => TextView::Ok(and_then_text(init, "_"@, rest)),
            PatternView::Other => TextView::Err(SyntaxErrorView::LetPattern),
        }),
{
}

/// A block ends with the value of its last expression, unless that has a semicolon
/// or is a `let`: then it ends with nothing.
pub proof fn law_value_of_a_block(stmts: Seq<StatementView>, last: StatementView)
    ensures
        do_text(Seq::empty()) == TextView::Ok(unit_text()),
        last matches StatementView::Expr { expr, semi: false } ==> do_text(stmts.push(last))
            == chained(stmts, "algeff_std::dx::pure("@ + expr + ")"@),
        !(last matches StatementView::Expr { semi: false, .. }) ==> do_text(stmts.push(last))
            == chained(stmts.push(last), unit_text()),
{
    assert(stmts.push(last).drop_last() =~= stmts);
}

/// A plan runs its expressions in order and ends with nothing.
pub proof fn law_plan_in_order(first: Seq<char>, others: Seq<Seq<char>>)
    ensures
        plan_text(Seq::empty()) == unit_text(),
        plan_text(seq![first] + others) == sequential_text(first, plan_text(others)),
{
    let all = seq![first] + others;
    assert(all.drop_first() =~= others);
    assert(all.first() == first);
}

/// A fork is read as `left: a, right: b`, a scope as `base, body`, a choice as
/// `cond, then: a, else: b`, each with at most a comma after it.
pub proof fn law_notations(src: Seq<char>, a: Seq<char>, b: Seq<char>, c: Seq<char>)
    ensures
        is_fork_notation(src, a, b) ==> fork_of(src) == TextView::Ok(fork_text(a, b)),
        is_scope_notation(src, a, b) ==> scope_of(src) == TextView::Ok(scope_text(a, b)),
        is_choice_notation(src, a, b, c) ==> choose_of(src) == TextView::Ok(choose_text(a, b, c)),
{
}

/// Whether what is left is nothing, or a comma.
pub open spec fn only_a_comma_left(src: Seq<char>) -> bool {
    ||| after_comma_of(src) is Err && has_no_token(src)
    ||| exists|rest: Seq<char>| after_comma_of(src) == Rest::Ok(rest) && #[trigger] has_no_token(rest)
}

/// Whether a text is a label, a colon, an expression, and this.
pub open spec fn is_labelled(
    src: Seq<char>,
    label: Seq<char>,
    expr: Seq<char>,
    rest: Seq<char>,
) -> bool {
    exists|x: Seq<char>, y: Seq<char>|
        leading_ident_of(src) == Piece::Ok((label, x)) && #[trigger] after_colon_of(x) == Rest::Ok(
            y,
        ) && #[trigger] leading_expr_of(y) == Piece::Ok((expr, rest))
}

/// Whether a text is `left: a, right: b`.
pub open spec fn is_fork_notation(src: Seq<char>, a: Seq<char>, b: Seq<char>) -> bool {
    exists|x: Seq<char>, y: Seq<char>, z: Seq<char>| #[trigger]
        is_labelled(src, "left"@, a, x) && after_comma_of(x) == Rest::Ok(y) && #[trigger]
            is_labelled(y, "right"@, b, z) && only_a_comma_left(z)
}

/// Whether a text is `base, body`.
pub open spec fn is_scope_notation(src: Seq<char>, base: Seq<char>, body: Seq<char>) -> bool {
    exists|x: Seq<char>, y: Seq<char>, z: Seq<char>|
        leading_expr_of(src) == Piece::Ok((base, x)) && #[trigger] after_comma_of(x) == Rest::Ok(y)
            && #[trigger] leading_expr_of(y) == Piece::Ok((body, z)) && #[trigger]
            only_a_comma_left(z)
}

/// Whether a text is `cond, then: a, else: b`.
pub open spec fn is_choice_notation(
    src: Seq<char>,
    cond: Seq<char>,
    a: Seq<char>,
    b: Seq<char>,
) -> bool {
    exists|
        x: Seq<char>,
        y: Seq<char>,
        z: Seq<char>,
        s: Seq<char>,
        t: Seq<char>,
        u: Seq<char>,
        v: Seq<char>,
    |
        leading_expr_of(src) == Piece::Ok((cond, x)) && #[trigger] after_comma_of(x) == Rest::Ok(y)
            && #[trigger] is_labelled(y, "then"@, a, z) && #[trigger] after_comma_of(z) == Rest::Ok(
            s,
        ) && #[trigger] after_else_of(s) == Rest::Ok(t) && #[trigger] after_colon_of(t) == Rest::Ok(
            u,
        ) && #[trigger] leading_expr_of(u) == Piece::Ok((b, v)) && #[trigger] only_a_comma_left(v)
}

} // verus!
