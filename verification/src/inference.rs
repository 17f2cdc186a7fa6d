//! Inference of an HTTP handler's responses from the expressions its body returns.
//!
//! A handler body is read as a block of statements. Its response alternatives come from the
//! explicit `return`s anywhere in it and from its trailing expression: a `StatusCode::..` path,
//! a `(status, body)` tuple, a `Redirect::..("target")` call, or a
//! `Response::builder().status(..).body(..)` chain, looking through parentheses and through
//! `.expect(..)`, `.unwrap()` and `.into_response()`, following immutable `let` bindings, into
//! nested blocks, `if`/`else` branches and `match` arms. Following bindings and branches is
//! bounded at a depth of sixteen.
use vstd::prelude::*;

use crate::http_responses::{
    AltView, ResponseAlternative, ResponseBody, alt_views, body_view, redirect_expression,
    redirect_status_spec, status_code_spec, status_expression,
};
use crate::text::{owned, text_eq};

verus! {

/// An expression of a handler body, as the inference reads it.
pub enum Expr {
    /// A path, by its segments' identifiers and its token text.
    Path { segments: Vec<String>, text: String },
    /// A block.
    Block(Block),
    /// An `if`: its `then` block and its `else` branch.
    If(Block, Option<Box<Expr>>),
    /// A `match`, by the bodies of its arms.
    Match(Vec<Expr>),
    /// A tuple.
    Tuple(Vec<Expr>),
    /// A call: the callee and the arguments.
    Call(Box<Expr>, Vec<Expr>),
    /// A method call: the receiver, the method's name and the arguments.
    MethodCall(Box<Expr>, String, Vec<Expr>),
    /// A `return`, with its value if any.
    Return(Option<Box<Expr>>),
    /// A parenthesised or invisibly grouped expression.
    Paren(Box<Expr>),
    /// A struct literal, by its path's token text.
    Struct(String),
    /// A string literal, by its value.
    Str(String),
    /// Anything else.
    Other,
}

/// The identifier pattern of a `let`.
pub struct LocalBinding {
    pub name: String,
    pub by_ref: bool,
    pub mutable: bool,
    /// Whether the identifier carries a `@` subpattern.
    pub subpattern: bool,
}

/// A statement of a block.
pub enum Stmt {
    /// A `let`: its identifier pattern (when the pattern is a plain identifier) and initializer.
    Local { binding: Option<LocalBinding>, init: Option<Expr> },
    /// An expression statement, and whether a semicolon ends it.
    Expr { expr: Expr, semicolon: bool },
    /// Anything else (items, macros).
    Other,
}

/// A block of statements.
pub struct Block {
    pub stmts: Vec<Stmt>,
}

// ---------------------------------------------------------------------------------------------
// Heights
// ---------------------------------------------------------------------------------------------

/// The larger of two naturals.
pub open spec fn larger(a: nat, b: nat) -> nat {
    if a >= b {
        a
    } else {
        b
    }
}

/// The height of an expression tree.
pub open spec fn expr_height(e: Expr) -> nat
    decreases e, 0nat,
{
    match e {
        Expr::Block(b) => 1 + block_height(b),
        Expr::If(b, o) => 1 + larger(
            block_height(b),
            match o {
                Some(x) => expr_height(*x),
                None => 0,
            },
        ),
        Expr::Match(arms) => 1 + exprs_height(arms@),
        Expr::Tuple(xs) => 1 + exprs_height(xs@),
        Expr::Call(f, args) => 1 + larger(expr_height(*f), exprs_height(args@)),
        Expr::MethodCall(r, _, args) => 1 + larger(expr_height(*r), exprs_height(args@)),
        Expr::Return(o) => 1 + match o {
            Some(x) => expr_height(*x),
            None => 0,
        },
        Expr::Paren(x) => 1 + expr_height(*x),
        _ => 1,
    }
}

/// The largest height of a sequence of expressions.
pub open spec fn exprs_height(s: Seq<Expr>) -> nat
    decreases s, 0nat,
{
    if s.len() == 0 {
        0
    } else {
        larger(exprs_height(s.drop_last()), expr_height(s.last()))
    }
}

/// The height of a block.
pub open spec fn block_height(b: Block) -> nat
    decreases b, 0nat,
{
    1 + stmts_height(b.stmts@)
}

/// The largest height of a sequence of statements.
pub open spec fn stmts_height(s: Seq<Stmt>) -> nat
    decreases s, 0nat,
{
    if s.len() == 0 {
        0
    } else {
        larger(stmts_height(s.drop_last()), stmt_height(s.last()))
    }
}

/// The height of a statement.
pub open spec fn stmt_height(s: Stmt) -> nat
    decreases s, 0nat,
{
    match s {
        Stmt::Local { binding: _, init } => match init {
            Some(e) => expr_height(e),
            None => 0,
        },
        Stmt::Expr { expr, semicolon: _ } => expr_height(expr),
        Stmt::Other => 0,
    }
}

/// An expression of a sequence is no higher than the sequence.
pub proof fn lemma_exprs_height(s: Seq<Expr>, i: int)
    requires
        0 <= i < s.len(),
    ensures
        expr_height(s[i]) <= exprs_height(s),
    decreases s.len(),
{
    if i < s.len() - 1 {
        lemma_exprs_height(s.drop_last(), i);
        assert(s.drop_last()[i] == s[i]);
    }
}

proof fn lemma_exprs_height_prefix(s: Seq<Expr>, n: int)
    requires
        0 <= n <= s.len(),
    ensures
        exprs_height(s.take(n)) <= exprs_height(s),
    decreases s.len(),
{
    if n < s.len() {
        assert(s.drop_last().take(n) =~= s.take(n));
        lemma_exprs_height_prefix(s.drop_last(), n);
    } else {
        assert(s.take(n) =~= s);
    }
}

/// A statement of a sequence is no higher than the sequence.
pub proof fn lemma_stmts_height(s: Seq<Stmt>, i: int)
    requires
        0 <= i < s.len(),
    ensures
        stmt_height(s[i]) <= stmts_height(s),
    decreases s.len(),
{
    if i < s.len() - 1 {
        lemma_stmts_height(s.drop_last(), i);
        assert(s.drop_last()[i] == s[i]);
    }
}

// ---------------------------------------------------------------------------------------------
// What the inference finds
// ---------------------------------------------------------------------------------------------

/// The deepest level of bindings and branches the inference follows.
pub open spec fn depth_limit() -> nat {
    16
}

/// The expression bound to `name`: the latest binding of that name.
pub open spec fn bound(bs: Seq<(Seq<char>, Expr)>, name: Seq<char>) -> Option<Expr>
    decreases bs.len(),
{
    if bs.len() == 0 {
        None
    } else if bs.last().0 == name {
        Some(bs.last().1)
    } else {
        bound(bs.drop_last(), name)
    }
}

/// Whether every bound expression is lower than `h`.
pub open spec fn values_below(bs: Seq<(Seq<char>, Expr)>, h: nat) -> bool {
    forall|i: int| 0 <= i < bs.len() ==> expr_height(#[trigger] bs[i].1) < h
}

/// An expression without parentheses, groups, `.expect(..)`, `.unwrap()` and
/// `.into_response()`.
pub open spec fn unwrapped(e: Expr) -> Expr
    decreases e,
{
    match e {
        Expr::Paren(x) => unwrapped(*x),
        Expr::MethodCall(r, m, _) => if m@ == "expect"@ || m@ == "unwrap"@ || m@ == "into_response"@ {
            unwrapped(*r)
        } else {
            e
        },
        _ => e,
    }
}

/// Unwrapping never makes an expression higher.
pub proof fn lemma_unwrapped_height(e: Expr)
    ensures
        expr_height(unwrapped(e)) <= expr_height(e),
    decreases e,
{
    match e {
        Expr::Paren(x) => lemma_unwrapped_height(*x),
        Expr::MethodCall(r, m, _) => {
            if m@ == "expect"@ || m@ == "unwrap"@ || m@ == "into_response"@ {
                lemma_unwrapped_height(*r);
            }
        },
        _ => {},
    }
}

/// The status a `..::StatusCode::<NAME>` path stands for.
pub open spec fn status_of(e: Expr) -> Option<u16> {
    match e {
        Expr::Path { segments, text: _ } => if segments@.len() >= 2 && segments@[segments@.len() - 2]@
            == "StatusCode"@ {
            status_code_spec(segments@.last()@)
        } else {
            None
        },
        _ => None,
    }
}

/// The status and target of a `..::Redirect::<method>("<target>")` call.
pub open spec fn redirect_of(f: Expr, args: Seq<Expr>) -> Option<(u16, Seq<char>)> {
    match f {
        Expr::Path { segments, text: _ } => if segments@.len() >= 2 && segments@[segments@.len() - 2]@
            == "Redirect"@ && args.len() > 0 {
            match (args[0], redirect_status_spec(segments@.last()@)) {
                (Expr::Str(t), Some(s)) => Some((s, t@)),
                _ => None,
            }
        } else {
            None
        },
        _ => None,
    }
}

/// The status a `Response::builder()..status(<status>)..` chain sets: the first `.status(..)`
/// found from the outermost call inwards.
pub open spec fn builder_status_of(e: Expr) -> Option<u16>
    decreases expr_height(e),
{
    let u = unwrapped(e);
    proof {
        lemma_unwrapped_height(e);
    }
    match u {
        Expr::MethodCall(r, m, args) => if m@ == "status"@ {
            if args.len() > 0 {
                status_of(args[0])
            } else {
                None
            }
        } else {
            builder_status_of(*r)
        },
        _ => None,
    }
}

/// The last identifier of a callee path.
pub open spec fn call_name(f: Expr) -> Option<Seq<char>> {
    match f {
        Expr::Path { segments, text: _ } => if segments@.len() > 0 {
            Some(segments@.last()@)
        } else {
            None
        },
        _ => None,
    }
}

/// The type an expression constructs: a struct literal's path, or a call's callee path.
pub open spec fn constructed_type(e: Expr) -> Option<Seq<char>> {
    match e {
        Expr::Struct(t) => Some(t@),
        Expr::Call(f, _) => match *f {
            Expr::Path { segments: _, text } => Some(text@),
            _ => None,
        },
        _ => None,
    }
}

/// The opaque body.
pub open spec fn opaque() -> Option<Option<Seq<char>>> {
    Some(None)
}

/// The body an expression produces: `Json(<value>)` is typed by the value's type, `::new(..)`
/// and `::from_utf8(..)` pass their argument's body through, `::empty()` and `()` are empty,
/// `.encode()` passes its receiver's body through, and bound names are followed.
pub open spec fn body_of(e: Expr, bs: Seq<(Seq<char>, Expr)>, depth: nat) -> Option<Option<Seq<char>>>
    decreases 17 - depth,
{
    if depth > depth_limit() {
        opaque()
    } else {
        match unwrapped(e) {
            Expr::Path { segments, text: _ } => if segments@.len() == 1 {
                match bound(bs, segments@[0]@) {
                    Some(x) => body_of(x, bs, depth + 1),
                    None => opaque(),
                }
            } else {
                opaque()
            },
            Expr::Call(f, args) => match call_name(*f) {
                Some(n) => if n == "Json"@ {
                    if args.len() > 0 {
                        match constructed_type(args@[0]) {
                            Some(t) => Some(Some(t)),
                            None => opaque(),
                        }
                    } else {
                        opaque()
                    }
                } else if n == "new"@ || n == "from_utf8"@ {
                    if args.len() > 0 {
                        body_of(args@[0], bs, depth + 1)
                    } else {
                        opaque()
                    }
                } else if n == "empty"@ {
                    None
                } else {
                    opaque()
                },
                None => opaque(),
            },
            Expr::MethodCall(r, m, _) => if m@ == "encode"@ {
                body_of(*r, bs, depth + 1)
            } else {
                opaque()
            },
            Expr::Tuple(xs) => if xs@.len() == 0 {
                None
            } else {
                opaque()
            },
            _ => opaque(),
        }
    }
}

/// The alternative of a status with no body.
pub open spec fn bare(status: u16) -> AltView {
    AltView { status, body: None, redirect: None }
}

/// The bindings a block's `let` adds: a plain immutable identifier binds its initializer.
pub open spec fn let_binds(binding: Option<LocalBinding>, init: Option<Expr>) -> Option<(Seq<char>, Expr)> {
    match (binding, init) {
        (Some(b), Some(e)) => if !b.by_ref && !b.mutable && !b.subpattern {
            Some((b.name@, e))
        } else {
            None
        },
        _ => None,
    }
}

/// The bindings a nested block's `let` adds when looking for explicit returns: any immutable
/// identifier binds its initializer.
pub open spec fn inner_binds(binding: Option<LocalBinding>, init: Option<Expr>) -> Option<(Seq<char>, Expr)> {
    match (binding, init) {
        (Some(b), Some(e)) => if !b.mutable {
            Some((b.name@, e))
        } else {
            None
        },
        _ => None,
    }
}

/// Bindings with one more, if any.
pub open spec fn with_bind(bs: Seq<(Seq<char>, Expr)>, b: Option<(Seq<char>, Expr)>) -> Seq<(Seq<char>, Expr)> {
    match b {
        Some(x) => bs.push(x),
        None => bs,
    }
}

/// The responses of a block: the explicit returns of its statements (and `let` initializers)
/// and its trailing expression's responses, with the block's own bindings.
pub open spec fn block_responses(b: Block) -> Seq<AltView>
    decreases block_height(b) + 1, 4nat, 0nat, 0nat,
{
    block_upto(b, b.stmts@.len() as int, block_height(b) + 1).1
}

/// The bindings and responses after the first `k` statements of a block.
pub open spec fn block_upto(b: Block, k: int, h: nat) -> (Seq<(Seq<char>, Expr)>, Seq<AltView>)
    decreases h, 3nat, 0nat, k,
{
    if k <= 0 || k > b.stmts@.len() {
        (Seq::empty(), Seq::empty())
    } else {
        let (bs, alts) = block_upto(b, k - 1, h);
        proof {
            lemma_stmts_height(b.stmts@, k - 1);
        }
        match b.stmts@[k - 1] {
            Stmt::Local { binding, init } => {
                let bs2 = with_bind(bs, let_binds(binding, init));
                match init {
                    Some(e) => (bs2, alts + explicit_returns(e, bs2, h)),
                    None => (bs2, alts),
                }
            },
            Stmt::Expr { expr, semicolon } => {
                let a1 = alts + explicit_returns(expr, bs, h);
                if k == b.stmts@.len() && !semicolon {
                    (bs, a1 + terminal(expr, bs, 0, h))
                } else {
                    (bs, a1)
                }
            },
            Stmt::Other => (bs, alts),
        }
    }
}

/// The responses of the explicit `return`s in an expression, looking into blocks, `if`
/// branches and `match` arms.
pub open spec fn explicit_returns(e: Expr, bs: Seq<(Seq<char>, Expr)>, h: nat) -> Seq<AltView>
    decreases h, 2nat, expr_height(e), 0nat,
{
    if expr_height(e) >= h {
        Seq::empty()
    } else {
        match e {
            Expr::Return(o) => match o {
                Some(x) => terminal(*x, bs, 0, h),
                None => Seq::empty(),
            },
            Expr::Block(b) => returns_upto(b, b.stmts@.len() as int, bs, h).1,
            Expr::If(b, o) => returns_upto(b, b.stmts@.len() as int, bs, h).1 + match o {
                Some(x) => explicit_returns(*x, bs, h),
                None => Seq::empty(),
            },
            Expr::Match(arms) => arms_returns(arms@, bs, h),
            _ => Seq::empty(),
        }
    }
}

/// The explicit returns of each `match` arm, in turn.
pub open spec fn arms_returns(arms: Seq<Expr>, bs: Seq<(Seq<char>, Expr)>, h: nat) -> Seq<AltView>
    decreases h, 2nat, exprs_height(arms), arms.len(),
{
    if arms.len() == 0 {
        Seq::empty()
    } else {
        proof {
            lemma_exprs_height(arms, arms.len() - 1);
        }
        arms_returns(arms.drop_last(), bs, h) + explicit_returns(arms.last(), bs, h)
    }
}

/// The bindings and explicit returns after the first `k` statements of a nested block, which
/// sees the enclosing bindings.
pub open spec fn returns_upto(b: Block, k: int, outer: Seq<(Seq<char>, Expr)>, h: nat) -> (Seq<(Seq<char>, Expr)>, Seq<AltView>)
    decreases h, 2nat, block_height(b), k,
{
    if k <= 0 || k > b.stmts@.len() {
        (outer, Seq::empty())
    } else {
        let (bs, alts) = returns_upto(b, k - 1, outer, h);
        proof {
            lemma_stmts_height(b.stmts@, k - 1);
        }
        match b.stmts@[k - 1] {
            Stmt::Local { binding, init } => (with_bind(bs, inner_binds(binding, init)), alts),
            Stmt::Expr { expr, semicolon: _ } => (bs, alts + explicit_returns(expr, bs, h)),
            Stmt::Other => (bs, alts),
        }
    }
}

/// The responses of a terminal expression at `depth`.
pub open spec fn terminal(e: Expr, bs: Seq<(Seq<char>, Expr)>, depth: nat, h: nat) -> Seq<AltView>
    decreases h, 1nat, 17 - depth, 1nat,
{
    if depth > depth_limit() || expr_height(e) >= h || !values_below(bs, h) {
        Seq::empty()
    } else {
        let u = unwrapped(e);
        proof {
            lemma_unwrapped_height(e);
        }
        match u {
            Expr::Path { segments, text: _ } => if segments@.len() == 1 && bound(bs, segments@[0]@) is Some {
                terminal(bound(bs, segments@[0]@).unwrap(), bs, depth + 1, h)
            } else {
                match status_of(u) {
                    Some(s) => seq![bare(s)],
                    None => Seq::empty(),
                }
            },
            Expr::Block(b) => block_responses(b),
            Expr::If(b, o) => block_responses(b) + match o {
                Some(x) => terminal(*x, bs, depth + 1, h),
                None => Seq::empty(),
            },
            Expr::Match(arms) => arms_terminal(arms@, bs, depth + 1, h),
            Expr::Tuple(xs) => if xs@.len() > 0 && status_of(xs@[0]) is Some {
                seq![
                    AltView {
                        status: status_of(xs@[0]).unwrap(),
                        body: body_of(xs@.last(), bs, depth + 1),
                        redirect: None,
                    },
                ]
            } else {
                Seq::empty()
            },
            Expr::Call(f, args) => match redirect_of(*f, args@) {
                Some((s, t)) => seq![AltView { status: s, body: None, redirect: Some(t) }],
                None => Seq::empty(),
            },
            Expr::MethodCall(r, m, args) => if m@ == "body"@ && builder_status_of(*r) is Some {
                seq![
                    AltView {
                        status: builder_status_of(*r).unwrap(),
                        body: if args@.len() > 0 {
                            body_of(args@[0], bs, depth + 1)
                        } else {
                            None
                        },
                        redirect: None,
                    },
                ]
            } else {
                Seq::empty()
            },
            _ => Seq::empty(),
        }
    }
}

/// The terminal responses of each `match` arm, in turn.
pub open spec fn arms_terminal(arms: Seq<Expr>, bs: Seq<(Seq<char>, Expr)>, depth: nat, h: nat) -> Seq<AltView>
    decreases h, 1nat, 17 - depth, arms.len() + 2,
{
    if arms.len() == 0 {
        Seq::empty()
    } else {
        arms_terminal(arms.drop_last(), bs, depth, h) + terminal(arms.last(), bs, depth, h)
    }
}


// ---------------------------------------------------------------------------------------------
// Executable inference
// ---------------------------------------------------------------------------------------------

/// Bindings as names and bound expressions.
pub open spec fn binds_view(v: Seq<(&str, &Expr)>) -> Seq<(Seq<char>, Expr)> {
    v.map_values(|p: (&str, &Expr)| (p.0@, *p.1))
}

proof fn lemma_bound_below(bs: Seq<(Seq<char>, Expr)>, name: Seq<char>, h: nat)
    requires
        values_below(bs, h),
    ensures
        bound(bs, name) matches Some(x) ==> expr_height(x) < h,
    decreases bs.len(),
{
    if bs.len() > 0 && bs.last().0 != name {
        let p = bs.drop_last();
        assert forall|i: int| 0 <= i < p.len() implies expr_height(#[trigger] p[i].1) < h by {
            assert(p[i] == bs[i]);
        }
        lemma_bound_below(p, name, h);
    } else if bs.len() > 0 {
        assert(expr_height(bs[bs.len() - 1].1) < h);
    }
}

proof fn lemma_push_alt(a: Seq<ResponseAlternative>, x: ResponseAlternative)
    ensures
        alt_views(a.push(x)) == alt_views(a) + seq![crate::http_responses::alt_view(x)],
{
    assert(alt_views(a.push(x)) =~= alt_views(a) + seq![crate::http_responses::alt_view(x)]);
}

proof fn lemma_push_bind<'a>(v: Seq<(&'a str, &'a Expr)>, p: (&'a str, &'a Expr))
    ensures
        binds_view(v.push(p)) == binds_view(v).push((p.0@, *p.1)),
{
    assert(binds_view(v.push(p)) =~= binds_view(v).push((p.0@, *p.1)));
}

fn is_transparent_method(m: &str) -> (r: bool)
    ensures
        r == (m@ == "expect"@ || m@ == "unwrap"@ || m@ == "into_response"@),
{
    text_eq(m, "expect") || text_eq(m, "unwrap") || text_eq(m, "into_response")
}

/// An expression without parentheses, groups, `.expect(..)`, `.unwrap()` and
/// `.into_response()`.
pub fn unwrap_transparent(e: &Expr) -> (r: &Expr)
    ensures
        *r == unwrapped(*e),
        expr_height(*r) <= expr_height(*e),
{
    let mut cur = e;
    loop
        invariant
            unwrapped(*cur) == unwrapped(*e),
            expr_height(*cur) <= expr_height(*e),
        decreases expr_height(*cur),
    {
        match cur {
            Expr::Paren(x) => {
                cur = &**x;
            },
            Expr::MethodCall(r, m, _) => {
                if is_transparent_method(m.as_str()) {
                    cur = &**r;
                } else {
                    return cur;
                }
            },
            _ => {
                return cur;
            },
        }
    }
}

fn lookup_binding<'a>(bs: &Vec<(&'a str, &'a Expr)>, name: &str) -> (r: Option<&'a Expr>)
    ensures
        match r {
            Some(x) => bound(binds_view(bs@), name@) == Some(*x),
            None => bound(binds_view(bs@), name@) is None,
        },
{
    let ghost bv = binds_view(bs@);
    let mut i = bs.len();
    proof {
        assert(bv.take(i as int) =~= bv);
    }
    while i > 0 && !text_eq(bs[i - 1].0, name)
        invariant
            bv == binds_view(bs@),
            i <= bs@.len(),
            bound(bv, name@) == bound(bv.take(i as int), name@),
        decreases i,
    {
        proof {
            assert(bv.take(i as int).drop_last() =~= bv.take(i - 1));
            assert(bv.take(i as int).last() == bv[i - 1]);
        }
        i = i - 1;
    }
    if i == 0 {
        None
    } else {
        proof {
            assert(bv.take(i as int).last() == bv[i - 1]);
        }
        Some(bs[i - 1].1)
    }
}

fn path_status(e: &Expr) -> (r: Option<u16>)
    ensures
        r == status_of(*e),
{
    match e {
        Expr::Path { segments, text: _ } => status_expression(segments),
        _ => None,
    }
}

fn call_redirect(f: &Expr, args: &Vec<Expr>) -> (r: Option<(u16, String)>)
    ensures
        match r {
            Some((s, t)) => redirect_of(*f, args@) == Some((s, t@)),
            None => redirect_of(*f, args@) is None,
        },
{
    match f {
        Expr::Path { segments, text: _ } => {
            if args.len() == 0 {
                return None;
            }
            let target = match &args[0] {
                Expr::Str(t) => Some(owned(t.as_str())),
                _ => None,
            };
            redirect_expression(segments, target)
        },
        _ => None,
    }
}

/// The status a response builder chain sets, if any.
pub fn builder_status(e: &Expr) -> (r: Option<u16>)
    ensures
        r == builder_status_of(*e),
    decreases expr_height(*e),
{
    let u = unwrap_transparent(e);
    match u {
        Expr::MethodCall(r, m, args) => {
            if text_eq(m.as_str(), "status") {
                if args.len() > 0 {
                    path_status(&args[0])
                } else {
                    None
                }
            } else {
                builder_status(&**r)
            }
        },
        _ => None,
    }
}

fn call_path_name(f: &Expr) -> (r: Option<&str>)
    ensures
        match r {
            Some(n) => call_name(*f) == Some(n@),
            None => call_name(*f) is None,
        },
{
    match f {
        Expr::Path { segments, text: _ } => {
            if segments.len() > 0 {
                Some(segments[segments.len() - 1].as_str())
            } else {
                None
            }
        },
        _ => None,
    }
}

fn expression_type(e: &Expr) -> (r: Option<String>)
    ensures
        match r {
            Some(t) => constructed_type(*e) == Some(t@),
            None => constructed_type(*e) is None,
        },
{
    match e {
        Expr::Struct(t) => Some(owned(t.as_str())),
        Expr::Call(f, _) => match &**f {
            Expr::Path { segments: _, text } => Some(owned(text.as_str())),
            _ => None,
        },
        _ => None,
    }
}

fn infer_body(e: &Expr, bs: &Vec<(&str, &Expr)>, depth: usize) -> (r: ResponseBody)
    ensures
        body_view(r) == body_of(*e, binds_view(bs@), depth as nat),
    decreases 17 - depth,
{
    if depth > 16 {
        return ResponseBody::Opaque;
    }
    let u = unwrap_transparent(e);
    match u {
        Expr::Path { segments, text: _ } => {
            if segments.len() == 1 {
                match lookup_binding(bs, segments[0].as_str()) {
                    Some(x) => infer_body(x, bs, depth + 1),
                    None => ResponseBody::Opaque,
                }
            } else {
                ResponseBody::Opaque
            }
        },
        Expr::Call(f, args) => match call_path_name(&**f) {
            Some(n) => {
                if text_eq(n, "Json") {
                    if args.len() > 0 {
                        match expression_type(&args[0]) {
                            Some(t) => ResponseBody::Typed(t),
                            None => ResponseBody::Opaque,
                        }
                    } else {
                        ResponseBody::Opaque
                    }
                } else if text_eq(n, "new") || text_eq(n, "from_utf8") {
                    if args.len() > 0 {
                        infer_body(&args[0], bs, depth + 1)
                    } else {
                        ResponseBody::Opaque
                    }
                } else if text_eq(n, "empty") {
                    ResponseBody::Empty
                } else {
                    ResponseBody::Opaque
                }
            },
            None => ResponseBody::Opaque,
        },
        Expr::MethodCall(r, m, _) => {
            if text_eq(m.as_str(), "encode") {
                infer_body(&**r, bs, depth + 1)
            } else {
                ResponseBody::Opaque
            }
        },
        Expr::Tuple(xs) => {
            if xs.len() == 0 {
                ResponseBody::Empty
            } else {
                ResponseBody::Opaque
            }
        },
        _ => ResponseBody::Opaque,
    }
}

fn collect_terminal(
    e: &Expr,
    bs: &Vec<(&str, &Expr)>,
    alts: &mut Vec<ResponseAlternative>,
    depth: usize,
    Ghost(h): Ghost<nat>,
)
    requires
        expr_height(*e) < h,
        values_below(binds_view(bs@), h),
    ensures
        alt_views(final(alts)@) == alt_views(old(alts)@) + terminal(*e, binds_view(bs@), depth as nat, h),
    decreases h, 1nat, 17 - depth, 1nat,
{
    let ghost bv = binds_view(bs@);
    let ghost a0 = alt_views(alts@);
    if depth > 16 {
        proof {
            assert(a0 + terminal(*e, bv, depth as nat, h) =~= a0);
        }
        return;
    }
    let u = unwrap_transparent(e);
    match u {
        Expr::Path { segments, text: _ } => {
            let found = if segments.len() == 1 {
                lookup_binding(bs, segments[0].as_str())
            } else {
                None
            };
            match found {
                Some(x) => {
                    proof {
                        lemma_bound_below(bv, segments@[0]@, h);
                    }
                    collect_terminal(x, bs, alts, depth + 1, Ghost(h));
                },
                None => match path_status(u) {
                    Some(s) => {
                        let alt = ResponseAlternative { status: s, body: ResponseBody::Empty, redirect: None };
                        proof {
                            lemma_push_alt(alts@, alt);
                        }
                        alts.push(alt);
                    },
                    None => {
                        proof {
                            assert(a0 + terminal(*e, bv, depth as nat, h) =~= a0);
                        }
                    },
                },
            }
        },
        Expr::Block(b) => {
            infer_block_into(b, alts);
        },
        Expr::If(b, o) => {
            infer_block_into(b, alts);
            let ghost a1 = alt_views(alts@);
            match o {
                Some(x) => {
                    collect_terminal(&**x, bs, alts, depth + 1, Ghost(h));
                    proof {
                        assert(alt_views(alts@) =~= a0 + terminal(*e, bv, depth as nat, h));
                    }
                },
                None => {
                    proof {
                        assert(a1 =~= a0 + terminal(*e, bv, depth as nat, h));
                    }
                },
            }
        },
        Expr::Match(arms) => {
            let mut i: usize = 0;
            proof {
                assert(arms@.take(0) =~= Seq::<Expr>::empty());
                assert(alt_views(alts@) =~= a0 + arms_terminal(arms@.take(0), bv, (depth + 1) as nat, h));
            }
            while i < arms.len()
                invariant
                    i <= arms@.len(),
                    bv == binds_view(bs@),
                    depth <= 16,
                    expr_height(*u) <= expr_height(*e),
                    expr_height(*e) < h,
                    values_below(bv, h),
                    *u == Expr::Match(*arms),
                    alt_views(alts@) == a0 + arms_terminal(arms@.take(i as int), bv, (depth + 1) as nat, h),
                decreases arms@.len() - i,
            {
                proof {
                    lemma_exprs_height(arms@, i as int);
                    assert(arms@.take(i + 1).drop_last() =~= arms@.take(i as int));
                    assert(arms@.take(i + 1).last() == arms@[i as int]);
                }
                let ghost before = alt_views(alts@);
                collect_terminal(&arms[i], bs, alts, depth + 1, Ghost(h));
                proof {
                    assert(alt_views(alts@) =~= a0 + arms_terminal(arms@.take(i + 1), bv, (depth + 1) as nat, h));
                }
                i = i + 1;
            }
            proof {
                assert(arms@.take(arms@.len() as int) =~= arms@);
            }
        },
        Expr::Tuple(xs) => {
            if xs.len() > 0 {
                match path_status(&xs[0]) {
                    Some(s) => {
                        let body = infer_body(&xs[xs.len() - 1], bs, depth + 1);
                        let alt = ResponseAlternative { status: s, body, redirect: None };
                        proof {
                            lemma_push_alt(alts@, alt);
                        }
                        alts.push(alt);
                    },
                    None => {
                        proof {
                            assert(a0 + terminal(*e, bv, depth as nat, h) =~= a0);
                        }
                    },
                }
            } else {
                proof {
                    assert(a0 + terminal(*e, bv, depth as nat, h) =~= a0);
                }
            }
        },
        Expr::Call(f, args) => match call_redirect(&**f, args) {
            Some((s, t)) => {
                let alt = ResponseAlternative { status: s, body: ResponseBody::Empty, redirect: Some(t) };
                proof {
                    lemma_push_alt(alts@, alt);
                }
                alts.push(alt);
            },
            None => {
                proof {
                    assert(a0 + terminal(*e, bv, depth as nat, h) =~= a0);
                }
            },
        },
        Expr::MethodCall(r, m, args) => {
            let status = if text_eq(m.as_str(), "body") {
                builder_status(&**r)
            } else {
                None
            };
            match status {
                Some(s) => {
                    let body = if args.len() > 0 {
                        infer_body(&args[0], bs, depth + 1)
                    } else {
                        ResponseBody::Empty
                    };
                    let alt = ResponseAlternative { status: s, body, redirect: None };
                    proof {
                        lemma_push_alt(alts@, alt);
                    }
                    alts.push(alt);
                },
                None => {
                    proof {
                        assert(a0 + terminal(*e, bv, depth as nat, h) =~= a0);
                    }
                },
            }
        },
        _ => {
            proof {
                assert(a0 + terminal(*e, bv, depth as nat, h) =~= a0);
            }
        },
    }
}

fn collect_explicit_returns(
    e: &Expr,
    bs: &Vec<(&str, &Expr)>,
    alts: &mut Vec<ResponseAlternative>,
    Ghost(h): Ghost<nat>,
)
    requires
        expr_height(*e) < h,
        values_below(binds_view(bs@), h),
    ensures
        alt_views(final(alts)@) == alt_views(old(alts)@) + explicit_returns(*e, binds_view(bs@), h),
    decreases h, 2nat, expr_height(*e), 0nat,
{
    let ghost bv = binds_view(bs@);
    let ghost a0 = alt_views(alts@);
    match e {
        Expr::Return(o) => match o {
            Some(x) => collect_terminal(&**x, bs, alts, 0, Ghost(h)),
            None => {
                proof {
                    assert(a0 + explicit_returns(*e, bv, h) =~= a0);
                }
            },
        },
        Expr::Block(b) => collect_returns_in_block(b, bs, alts, Ghost(h)),
        Expr::If(b, o) => {
            collect_returns_in_block(b, bs, alts, Ghost(h));
            let ghost a1 = alt_views(alts@);
            match o {
                Some(x) => {
                    collect_explicit_returns(&**x, bs, alts, Ghost(h));
                    proof {
                        assert(alt_views(alts@) =~= a0 + explicit_returns(*e, bv, h));
                    }
                },
                None => {
                    proof {
                        assert(a1 =~= a0 + explicit_returns(*e, bv, h));
                    }
                },
            }
        },
        Expr::Match(arms) => {
            let mut i: usize = 0;
            proof {
                assert(arms@.take(0) =~= Seq::<Expr>::empty());
                assert(alt_views(alts@) =~= a0 + arms_returns(arms@.take(0), bv, h));
            }
            while i < arms.len()
                invariant
                    i <= arms@.len(),
                    bv == binds_view(bs@),
                    expr_height(*e) < h,
                    values_below(bv, h),
                    *e == Expr::Match(*arms),
                    alt_views(alts@) == a0 + arms_returns(arms@.take(i as int), bv, h),
                decreases arms@.len() - i,
            {
                proof {
                    lemma_exprs_height(arms@, i as int);
                    assert(arms@.take(i + 1).drop_last() =~= arms@.take(i as int));
                    assert(arms@.take(i + 1).last() == arms@[i as int]);
                }
                collect_explicit_returns(&arms[i], bs, alts, Ghost(h));
                proof {
                    assert(alt_views(alts@) =~= a0 + arms_returns(arms@.take(i + 1), bv, h));
                }
                i = i + 1;
            }
            proof {
                assert(arms@.take(arms@.len() as int) =~= arms@);
            }
        },
        _ => {
            proof {
                assert(a0 + explicit_returns(*e, bv, h) =~= a0);
            }
        },
    }
}

fn collect_returns_in_block(
    b: &Block,
    outer: &Vec<(&str, &Expr)>,
    alts: &mut Vec<ResponseAlternative>,
    Ghost(h): Ghost<nat>,
)
    requires
        block_height(*b) < h,
        values_below(binds_view(outer@), h),
    ensures
        alt_views(final(alts)@) == alt_views(old(alts)@) + returns_upto(
            *b,
            b.stmts@.len() as int,
            binds_view(outer@),
            h,
        ).1,
    decreases h, 2nat, block_height(*b), 1nat,
{
    let ghost ov = binds_view(outer@);
    let ghost a0 = alt_views(alts@);
    let mut bs: Vec<(&str, &Expr)> = Vec::new();
    let mut j: usize = 0;
    while j < outer.len()
        invariant
            j <= outer@.len(),
            bs@ == outer@.take(j as int),
        decreases outer@.len() - j,
    {
        let p = outer[j];
        bs.push(p);
        proof {
            assert(bs@ =~= outer@.take(j + 1));
        }
        j = j + 1;
    }
    proof {
        assert(outer@.take(outer@.len() as int) =~= outer@);
        assert(alt_views(alts@) =~= a0 + returns_upto(*b, 0, ov, h).1);
    }
    let n = b.stmts.len();
    let mut i: usize = 0;
    while i < n
        invariant
            n == b.stmts@.len(),
            i <= n,
            block_height(*b) < h,
            values_below(binds_view(bs@), h),
            binds_view(bs@) == returns_upto(*b, i as int, ov, h).0,
            alt_views(alts@) == a0 + returns_upto(*b, i as int, ov, h).1,
        decreases n - i,
    {
        proof {
            lemma_stmts_height(b.stmts@, i as int);
        }
        let ghost before = alt_views(alts@);
        let ghost bv = binds_view(bs@);
        match &b.stmts[i] {
            Stmt::Local { binding, init } => {
                match binding {
                    Some(lb) => match init {
                        Some(x) => {
                            if !lb.mutable {
                                let pair = (lb.name.as_str(), x);
                                proof {
                                    lemma_push_bind(bs@, pair);
                                }
                                bs.push(pair);
                                proof {
                                    assert forall|q: int| 0 <= q < binds_view(bs@).len() implies expr_height(
                                        #[trigger] binds_view(bs@)[q].1,
                                    ) < h by {
                                        if q < bv.len() {
                                            assert(binds_view(bs@)[q] == bv[q]);
                                        }
                                    }
                                }
                            }
                        },
                        None => {},
                    },
                    None => {},
                }
                proof {
                    assert(alt_views(alts@) =~= a0 + returns_upto(*b, i + 1, ov, h).1);
                }
            },
            Stmt::Expr { expr, semicolon: _ } => {
                collect_explicit_returns(expr, &bs, alts, Ghost(h));
                proof {
                    assert(alt_views(alts@) =~= a0 + returns_upto(*b, i + 1, ov, h).1);
                }
            },
            Stmt::Other => {
                proof {
                    assert(alt_views(alts@) =~= a0 + returns_upto(*b, i + 1, ov, h).1);
                }
            },
        }
        i = i + 1;
    }
}

fn infer_block_into(b: &Block, alts: &mut Vec<ResponseAlternative>)
    ensures
        alt_views(final(alts)@) == alt_views(old(alts)@) + block_responses(*b),
    decreases block_height(*b) + 1, 4nat, 0nat, 0nat,
{
    let ghost h = block_height(*b) + 1;
    let ghost a0 = alt_views(alts@);
    let mut bs: Vec<(&str, &Expr)> = Vec::new();
    let n = b.stmts.len();
    let mut i: usize = 0;
    proof {
        assert(binds_view(bs@) =~= block_upto(*b, 0, h).0);
        assert(alt_views(alts@) =~= a0 + block_upto(*b, 0, h).1);
    }
    while i < n
        invariant
            n == b.stmts@.len(),
            i <= n,
            h == block_height(*b) + 1,
            values_below(binds_view(bs@), h),
            binds_view(bs@) == block_upto(*b, i as int, h).0,
            alt_views(alts@) == a0 + block_upto(*b, i as int, h).1,
        decreases n - i,
    {
        proof {
            lemma_stmts_height(b.stmts@, i as int);
        }
        let ghost bv = binds_view(bs@);
        let ghost before = alt_views(alts@);
        match &b.stmts[i] {
            Stmt::Local { binding, init } => {
                match binding {
                    Some(lb) => match init {
                        Some(x) => {
                            if !lb.by_ref && !lb.mutable && !lb.subpattern {
                                let pair = (lb.name.as_str(), x);
                                proof {
                                    lemma_push_bind(bs@, pair);
                                }
                                bs.push(pair);
                                proof {
                                    assert forall|q: int| 0 <= q < binds_view(bs@).len() implies expr_height(
                                        #[trigger] binds_view(bs@)[q].1,
                                    ) < h by {
                                        if q < bv.len() {
                                            assert(binds_view(bs@)[q] == bv[q]);
                                        }
                                    }
                                }
                            }
                        },
                        None => {},
                    },
                    None => {},
                }
                match init {
                    Some(x) => {
                        collect_explicit_returns(x, &bs, alts, Ghost(h));
                    },
                    None => {},
                }
                proof {
                    assert(alt_views(alts@) =~= a0 + block_upto(*b, i + 1, h).1);
                }
            },
            Stmt::Expr { expr, semicolon } => {
                collect_explicit_returns(expr, &bs, alts, Ghost(h));
                if i + 1 == n && !*semicolon {
                    collect_terminal(expr, &bs, alts, 0, Ghost(h));
                }
                proof {
                    assert(alt_views(alts@) =~= a0 + block_upto(*b, i + 1, h).1);
                }
            },
            Stmt::Other => {
                proof {
                    assert(alt_views(alts@) =~= a0 + block_upto(*b, i + 1, h).1);
                }
            },
        }
        i = i + 1;
    }
    proof {
        assert(block_responses(*b) == block_upto(*b, n as int, h).1);
    }
}

/// The response alternatives a handler body returns, in the order they are found.
pub fn infer_block(block: &Block) -> (r: Vec<ResponseAlternative>)
    ensures
        alt_views(r@) == block_responses(*block),
{
    let mut alts: Vec<ResponseAlternative> = Vec::new();
    proof {
        assert(alt_views(alts@) =~= Seq::<AltView>::empty());
    }
    infer_block_into(block, &mut alts);
    proof {
        assert(Seq::<AltView>::empty() + block_responses(*block) =~= block_responses(*block));
    }
    alts
}

} // verus!
