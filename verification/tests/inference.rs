use overseerd_tooling::http_responses::{
    response_contract, Conventional, ResponseBody, ResponseOrigin,
};
use overseerd_tooling::inference::{builder_status, infer_block, unwrap_transparent, Block, Expr, LocalBinding, Stmt};

fn path(parts: &[&str]) -> Expr {
    Expr::Path {
        segments: parts.iter().map(|p| p.to_string()).collect(),
        text: parts.join(" :: "),
    }
}

fn call(callee: &[&str], args: Vec<Expr>) -> Expr {
    Expr::Call(Box::new(path(callee)), args)
}

fn method(receiver: Expr, name: &str, args: Vec<Expr>) -> Expr {
    Expr::MethodCall(Box::new(receiver), name.to_string(), args)
}

fn text(s: &str) -> Expr {
    Expr::Str(s.to_string())
}

fn let_(name: &str, init: Expr) -> Stmt {
    Stmt::Local {
        binding: Some(LocalBinding { name: name.to_string(), by_ref: false, mutable: false, subpattern: false }),
        init: Some(init),
    }
}

fn stmt(expr: Expr) -> Stmt {
    Stmt::Expr { expr, semicolon: true }
}

fn tail(expr: Expr) -> Stmt {
    Stmt::Expr { expr, semicolon: false }
}

fn builder() -> Expr {
    call(&["Response", "builder"], Vec::new())
}

#[test]
fn detects_only_returned_leaves_and_ignores_unused_builders() {
    let body = Block {
        stmts: vec![
            tail(Expr::If(
                Block {
                    stmts: vec![stmt(Expr::Return(Some(Box::new(method(
                        Expr::Tuple(vec![path(&["StatusCode", "FORBIDDEN"]), text("denied")]),
                        "into_response",
                        Vec::new(),
                    )))))],
                },
                None,
            )),
            let_(
                "response",
                method(
                    method(builder(), "status", vec![path(&["StatusCode", "CREATED"])]),
                    "body",
                    vec![path(&["body"])],
                ),
            ),
            tail(call(&["Redirect", "to"], vec![text("/callback")])),
        ],
    };
    let contract = response_contract(Vec::new(), &body, Conventional::Opaque);
    let responses = &contract.alternatives;

    assert_eq!(contract.origin, ResponseOrigin::Inferred);
    assert!(responses.iter().any(|response| response.status == 403));
    assert!(!responses.iter().any(|response| response.status == 201));
    assert!(responses
        .iter()
        .any(|response| response.status == 303 && response.redirect.as_deref() == Some("/callback")));
    assert!(responses
        .iter()
        .any(|response| response.status == 403 && matches!(response.body, ResponseBody::Opaque)));
}

#[test]
fn traces_builder_body_through_local_json_encoding() {
    let body = Block {
        stmts: vec![
            let_("body", call(&["Json"], vec![Expr::Struct(String::from("WhoAmI"))])),
            let_("bytes", method(method(path(&["body"]), "encode", Vec::new()), "expect", vec![text("encode")])),
            let_(
                "json",
                method(call(&["String", "from_utf8"], vec![path(&["bytes"])]), "expect", vec![text("utf8")]),
            ),
            tail(method(
                method(
                    method(
                        method(builder(), "status", vec![path(&["StatusCode", "FORBIDDEN"])]),
                        "header",
                        vec![path(&["header", "CONTENT_TYPE"]), text("application/json")],
                    ),
                    "body",
                    vec![call(&["Body", "new"], vec![path(&["json"])])],
                ),
                "expect",
                vec![text("response")],
            )),
        ],
    };
    let contract = response_contract(Vec::new(), &body, Conventional::Opaque);

    assert_eq!(contract.alternatives.len(), 1);
    assert_eq!(contract.alternatives[0].status, 403);
    let ResponseBody::Typed(body) = &contract.alternatives[0].body else {
        panic!("body should be inferred")
    };
    assert_eq!(body, "WhoAmI");
}

#[test]
fn match_arms_and_else_branches_each_contribute() {
    let body = Block {
        stmts: vec![tail(Expr::Match(vec![
            path(&["StatusCode", "OK"]),
            Expr::If(
                Block { stmts: vec![tail(path(&["StatusCode", "NOT_FOUND"]))] },
                Some(Box::new(Expr::Paren(Box::new(path(&["StatusCode", "CONFLICT"]))))),
            ),
            call(&["Redirect", "permanent"], vec![text("/moved")]),
            Expr::Tuple(vec![path(&["StatusCode", "CREATED"]), call(&["Json"], vec![call(&["User"], Vec::new())])]),
        ]))],
    };
    let found = infer_block(&body);

    assert_eq!(found.iter().map(|a| a.status).collect::<Vec<_>>(), [200, 404, 409, 308, 201]);
    assert_eq!(found[3].redirect.as_deref(), Some("/moved"));
    assert!(found[4].body == ResponseBody::Typed(String::from("User")));
}

#[test]
fn mutable_or_by_reference_bindings_are_not_followed() {
    let body = Block {
        stmts: vec![
            Stmt::Local {
                binding: Some(LocalBinding {
                    name: String::from("status"),
                    by_ref: false,
                    mutable: true,
                    subpattern: false,
                }),
                init: Some(path(&["StatusCode", "OK"])),
            },
            tail(path(&["status"])),
        ],
    };

    assert!(infer_block(&body).is_empty());

    let followed = Block { stmts: vec![let_("status", path(&["StatusCode", "ACCEPTED"])), tail(path(&["status"]))] };

    assert_eq!(infer_block(&followed)[0].status, 202);
}

#[test]
fn a_trailing_expression_ended_by_a_semicolon_is_not_a_response() {
    let body = Block { stmts: vec![stmt(path(&["StatusCode", "OK"]))] };

    assert!(infer_block(&body).is_empty());
}

#[test]
fn self_referential_bindings_stop_at_the_depth_limit() {
    let body = Block { stmts: vec![let_("loop_", path(&["loop_"])), tail(path(&["loop_"]))] };

    assert!(infer_block(&body).is_empty());
}

#[test]
fn transparent_wrappers_are_looked_through() {
    let wrapped = method(Expr::Paren(Box::new(method(path(&["x"]), "unwrap", Vec::new()))), "into_response", Vec::new());

    assert!(matches!(unwrap_transparent(&wrapped), Expr::Path { segments, .. } if segments == &vec![String::from("x")]));
    assert_eq!(
        builder_status(&method(method(builder(), "status", vec![path(&["StatusCode", "BAD_GATEWAY"])]), "header", Vec::new())),
        Some(502)
    );
    assert_eq!(builder_status(&builder()), None);
}
