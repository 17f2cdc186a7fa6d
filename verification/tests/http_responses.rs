use overseerd_tooling::inference::{Block, Expr, Stmt};
use overseerd_tooling::http_responses::{
    common_shape, explicit_stream_shape, normalize, output_shape, redirect_expression,
    response_contract, response_enum_name, response_strategy, status_code, status_expression,
    status_variant_name, Conventional, ResponseAlternative, ResponseBody, ResponseOrigin,
    ResponseStrategy, ServerWrap,
};

fn alt(status: u16, body: ResponseBody, redirect: Option<&str>) -> ResponseAlternative {
    ResponseAlternative { status, body, redirect: redirect.map(String::from) }
}

fn typed(t: &str) -> ResponseBody {
    ResponseBody::Typed(String::from(t))
}

fn empty_block() -> Block {
    Block { stmts: Vec::new() }
}

fn tail(expr: Expr) -> Block {
    Block { stmts: vec![Stmt::Expr { expr, semicolon: false }] }
}

fn path(parts: &[&str]) -> Expr {
    Expr::Path { segments: segments(parts), text: parts.join(" :: ") }
}

fn segments(parts: &[&str]) -> Vec<String> {
    parts.iter().map(|p| p.to_string()).collect()
}

#[test]
fn normalization_sorts_by_status_and_merges_duplicates() {
    let out = normalize(vec![
        alt(403, ResponseBody::Empty, None),
        alt(201, typed("User"), None),
        alt(303, ResponseBody::Empty, Some("/callback")),
        alt(201, typed("User"), None),
    ]);

    assert_eq!(out.iter().map(|a| a.status).collect::<Vec<_>>(), [201, 303, 403]);
    assert!(out[0].body == typed("User"));
    assert_eq!(out[1].redirect.as_deref(), Some("/callback"));
    assert!(out[2].body == ResponseBody::Empty);
}

#[test]
fn disagreeing_alternatives_become_opaque() {
    let out = normalize(vec![
        alt(200, typed("A"), None),
        alt(200, typed("B"), None),
        alt(302, ResponseBody::Empty, Some("/a")),
        alt(302, ResponseBody::Empty, Some("/b")),
        alt(200, typed("A"), None),
    ]);

    assert_eq!(out.len(), 2);
    assert_eq!(out[0].status, 200);
    assert!(out[0].body == ResponseBody::Opaque);
    assert!(out[0].redirect.is_none());
    assert!(out[1].body == ResponseBody::Opaque);
    assert!(out[1].redirect.is_none());
}

#[test]
fn normalizing_nothing_gives_nothing() {
    assert!(normalize(Vec::new()).is_empty());
}

#[test]
fn explicit_responses_are_authoritative() {
    let body = tail(Expr::Call(
        Box::new(path(&["Redirect", "to"])),
        vec![Expr::Str(String::from("/inferred"))],
    ));
    let contract = response_contract(
        vec![alt(403, typed("ErrorBody"), None)],
        &body,
        Conventional::Typed(String::from("impl IntoResponse")),
    );

    assert_eq!(contract.origin, ResponseOrigin::Explicit);
    assert_eq!(contract.alternatives.len(), 1);
    assert_eq!(contract.alternatives[0].status, 403);
    assert!(matches!(contract.alternatives[0].body, ResponseBody::Typed(_)));
}

#[test]
fn inferred_then_conventional_then_opaque_contracts() {
    let body = Block {
        stmts: vec![
            Stmt::Expr {
                expr: Expr::If(
                    tail(Expr::Return(Some(Box::new(path(&["StatusCode", "NOT_FOUND"]))))),
                    None,
                ),
                semicolon: false,
            },
            Stmt::Expr { expr: path(&["StatusCode", "OK"]), semicolon: false },
        ],
    };
    let inferred = response_contract(Vec::new(), &body, Conventional::Opaque);
    assert_eq!(inferred.origin, ResponseOrigin::Inferred);
    assert_eq!(inferred.alternatives[0].status, 200);

    let conventional = response_contract(Vec::new(), &empty_block(), Conventional::Unit);
    assert_eq!(conventional.origin, ResponseOrigin::Conventional);
    assert_eq!(conventional.alternatives[0].status, 200);
    assert!(conventional.alternatives[0].body == ResponseBody::Empty);

    let typed_contract =
        response_contract(Vec::new(), &empty_block(), Conventional::Typed(String::from("User")));
    assert!(typed_contract.alternatives[0].body == typed("User"));

    let opaque = response_contract(Vec::new(), &empty_block(), Conventional::Opaque);
    assert_eq!(opaque.origin, ResponseOrigin::Opaque);
    assert!(opaque.alternatives.is_empty());
}

#[test]
fn status_constants_and_redirects_are_recognised() {
    assert_eq!(status_code("SEE_OTHER"), Some(303));
    assert_eq!(status_code("IM_A_TEAPOT"), None);
    assert_eq!(status_expression(&segments(&["http", "StatusCode", "FORBIDDEN"])), Some(403));
    assert_eq!(status_expression(&segments(&["FORBIDDEN"])), None);
    assert_eq!(status_expression(&segments(&["Status", "FORBIDDEN"])), None);
    assert_eq!(
        redirect_expression(&segments(&["Redirect", "to"]), Some(String::from("/next"))),
        Some((303, String::from("/next")))
    );
    assert_eq!(
        redirect_expression(&segments(&["axum", "Redirect", "permanent"]), Some(String::from("/p"))),
        Some((308, String::from("/p")))
    );
    assert_eq!(redirect_expression(&segments(&["Redirect", "to"]), None), None);
    assert_eq!(redirect_expression(&segments(&["Redirect", "other"]), Some(String::from("/x"))), None);
}

#[test]
fn output_shapes_follow_streaming_and_opacity() {
    assert_eq!(output_shape(Some(ServerWrap::Ndjson), false, "CustomStream", false, false, false), "NdjsonStream");
    assert_eq!(output_shape(Some(ServerWrap::RawU8), false, "CustomStream", false, false, false), "RawStream");
    assert_eq!(output_shape(None, true, explicit_stream_shape(Some("Ndjson")), false, false, false), "NdjsonStream");
    assert_eq!(output_shape(None, false, "CustomStream", true, false, false), "CustomStream");
    assert_eq!(output_shape(None, false, "CustomStream", false, false, true), "Opaque");
    assert_eq!(output_shape(None, false, "CustomStream", false, true, true), "Unary");
    assert_eq!(explicit_stream_shape(Some("RawStream")), "RawStream");
    assert_eq!(explicit_stream_shape(Some("Sse")), "CustomStream");
    assert_eq!(explicit_stream_shape(None), "CustomStream");
}

#[test]
fn response_strategies_prefer_user_types_then_common_shapes() {
    let alts = vec![alt(200, typed("User"), None), alt(201, typed("User"), None)];
    assert!(matches!(response_strategy(true, ResponseOrigin::Inferred, &alts), ResponseStrategy::UserResponse));
    match response_strategy(false, ResponseOrigin::Inferred, &alts) {
        ResponseStrategy::Common { body, redirecting } => {
            assert!(body == typed("User"));
            assert!(!redirecting);
        }
        _ => panic!("all alternatives share a body"),
    }
    let mixed = vec![alt(200, typed("User"), None), alt(404, ResponseBody::Empty, None)];
    assert!(common_shape(&mixed).is_none());
    assert!(matches!(response_strategy(false, ResponseOrigin::Inferred, &mixed), ResponseStrategy::PerStatus));
    assert!(matches!(response_strategy(false, ResponseOrigin::Conventional, &mixed), ResponseStrategy::Conventional));
    assert!(matches!(response_strategy(false, ResponseOrigin::Opaque, &Vec::new()), ResponseStrategy::Raw));
    assert_eq!(status_variant_name(404), "Status404");
    assert_eq!(response_enum_name("Users", "get_user_by_id"), "UsersGetUserByIdResponse");
}
