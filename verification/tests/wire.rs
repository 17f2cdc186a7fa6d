use overseerd_tooling::wire::{
    classify, collect_wire_types, input_source, is_opaque_response, peel_request_combinator,
    response_body_type, response_type, BodyKind, QueryInput, TypeShape,
};

fn path(name: &str, args: Vec<TypeShape>) -> TypeShape {
    TypeShape::Path { text: String::from(name), name: String::from(name), args }
}

fn plain(name: &str) -> TypeShape {
    path(name, Vec::new())
}

fn text(t: &TypeShape) -> String {
    match t {
        TypeShape::Path { text, .. }
        | TypeShape::Tuple { text, .. }
        | TypeShape::ImplTrait { text }
        | TypeShape::Other { text } => text.clone(),
    }
}

#[test]
fn response_type_peels_result_then_json() {
    let declared = path(
        "Result",
        vec![path("Json", vec![plain("User")]), plain("Error")],
    );

    assert_eq!(text(&response_type(Some(&declared))), "User");
}

#[test]
fn response_type_of_no_return_is_unit() {
    let unit = response_type(None);
    assert!(matches!(unit, TypeShape::Tuple { ref elems, .. } if elems.is_empty()));
}

#[test]
fn tuple_responses_use_their_last_element() {
    let declared = TypeShape::Tuple {
        text: String::from("(StatusCode , Json < User >)"),
        elems: vec![plain("StatusCode"), path("Json", vec![plain("User")])],
    };
    assert_eq!(text(&response_body_type(&declared).unwrap()), "User");
}

#[test]
fn opaque_responses_have_no_body_type() {
    assert!(is_opaque_response(&plain("Html")));
    assert!(is_opaque_response(&TypeShape::ImplTrait { text: String::from("impl IntoResponse") }));
    assert!(!is_opaque_response(&plain("User")));
    assert!(response_body_type(&plain("Redirect")).is_none());
    assert_eq!(text(&response_type(Some(&plain("Redirect")))), "Redirect");
}

#[test]
fn combinators_are_peeled() {
    let wrapped = path("Cached", vec![path("WithRejection", vec![path("Path", vec![plain("Id")])])]);
    assert_eq!(text(peel_request_combinator(&wrapped)), "Path");
}

#[test]
fn inputs_are_classified_and_server_context_dropped() {
    let args = vec![
        path("Path", vec![plain("Id")]),
        path("Inject", vec![plain("Db")]),
        path("Query", vec![plain("Filter")]),
        path("Json", vec![plain("NewUser")]),
    ];
    let inputs = classify(&args).expect("classifiable");

    assert_eq!(text(inputs.path_ty.as_ref().unwrap()), "Id");
    assert!(matches!(inputs.query, Some(QueryInput::Typed(ref t)) if text(t) == "Filter"));
    let body = inputs.body.as_ref().unwrap();
    assert_eq!(body.kind, BodyKind::Json);
    assert_eq!(text(body.inner.as_ref().unwrap()), "NewUser");
}

#[test]
fn duplicate_slots_and_unsupported_extractors_opt_out() {
    assert!(classify(&vec![plain("Bytes"), path("Json", vec![plain("T")])]).is_none());
    assert!(classify(&vec![plain("RawQuery"), path("Query", vec![plain("Q")])]).is_none());
    assert!(classify(&vec![plain("Request")]).is_none());
    let raw = classify(&vec![plain("RawQuery"), plain("Multipart")]).expect("classifiable");
    assert!(matches!(raw.query, Some(QueryInput::Raw)));
    assert_eq!(raw.body.as_ref().unwrap().kind, BodyKind::Multipart);
    assert!(raw.body.as_ref().unwrap().inner.is_none());
}

#[test]
fn wire_types_collect_path_query_body_and_response() {
    let args = vec![
        path("Path", vec![plain("Id")]),
        path("Query", vec![plain("Filter")]),
        path("Form", vec![plain("Login")]),
    ];
    let mut sink = Vec::new();
    collect_wire_types(true, &args, Some(&path("Json", vec![plain("User")])), &mut sink);
    assert_eq!(sink.iter().map(text).collect::<Vec<_>>(), ["Id", "Filter", "Login", "User"]);

    let mut none = Vec::new();
    collect_wire_types(false, &args, None, &mut none);
    assert!(none.is_empty());

    let mut opaque = Vec::new();
    collect_wire_types(true, &Vec::new(), Some(&plain("Html")), &mut opaque);
    assert!(opaque.is_empty());
}

#[test]
fn input_sources_name_the_wire_location() {
    assert_eq!(input_source(&path("TypedHeader", vec![plain("Auth")])).0, "Header");
    assert_eq!(input_source(&path("Inject", vec![plain("Db")])).0, "Injected");
    assert_eq!(input_source(&plain("HeaderMap")).0, "Header");
    assert_eq!(input_source(&plain("JsonLines")).0, "Stream");
    let (source, ty) = input_source(&path("Cached", vec![path("Json", vec![plain("Body")])]));
    assert_eq!(source, "JsonBody");
    assert_eq!(text(&ty), "Body");
    assert_eq!(input_source(&plain("Custom")).0, "Context");
}

fn named(name: &str, text: &str, args: Vec<TypeShape>) -> TypeShape {
    TypeShape::Path { text: text.to_string(), name: name.to_string(), args }
}

#[test]
fn axum_extra_wrappers_are_classified_without_resolving_the_crate() {
    let json = named(
        "JsonDeserializer",
        "axum_extra :: extract :: JsonDeserializer < Input >",
        vec![named("Input", "Input", Vec::new())],
    );
    let protobuf = named(
        "Protobuf",
        "axum_extra :: protobuf :: Protobuf < Message >",
        vec![named("Message", "Message", Vec::new())],
    );
    let cached = named(
        "Cached",
        "axum_extra :: extract :: Cached < TypedHeader < Auth > >",
        vec![named("TypedHeader", "TypedHeader < Auth >", vec![named("Auth", "Auth", Vec::new())])],
    );

    assert_eq!(input_source(&json).0, "JsonBody");
    assert_eq!(input_source(&protobuf).0, "BytesBody");
    assert_eq!(input_source(&cached).0, "Header");
}
