use overseerd_tooling::handlers::{
    descriptor_method, message_method_plan, method_kind, middleware_layers, path_parameters,
    plan_http_method, receiver_plan, route_groups, route_input, route_wire_types_of, stream_wrap,
    success_value, ws_arguments, ws_payload_type, ws_receiver_plan, ClientBuilder, HttpMethodPlan,
    MethodKind, Receiver, StreamWrap, WsArg, unary_method_plan, message_returns_value,
};
use overseerd_tooling::route::resolve_message_reply;
use overseerd_tooling::http_responses::ServerWrap;
use overseerd_tooling::wire::TypeShape;
use overseerd_tooling::http_responses::{ResponseAlternative, ResponseBody};
use overseerd_tooling::route::MessageMode;

fn names(list: &[Option<&str>]) -> Vec<Option<String>> {
    list.iter().map(|n| n.map(str::to_string)).collect()
}

#[test]
fn a_message_attribute_binds_before_any_route_attribute() {
    assert_eq!(method_kind(&names(&[Some("doc"), Some("get"), Some("message")])), MethodKind::Message(2));
    assert_eq!(method_kind(&names(&[None, Some("doc"), Some("post"), Some("get")])), MethodKind::Route(2));
    assert_eq!(method_kind(&names(&[Some("doc"), None])), MethodKind::Plain);
    assert_eq!(method_kind(&Vec::new()), MethodKind::Plain);
}

#[test]
fn a_message_method_needs_the_ws_protocol() {
    assert_eq!(
        message_method_plan(false, MessageMode::Request, true),
        Err(String::from("a #[handlers] block containing #[message] methods requires `ws = P`"))
    );
    assert_eq!(message_method_plan(true, MessageMode::Infer, true), Ok(true));
    assert_eq!(message_method_plan(true, MessageMode::Infer, false), Ok(false));
    assert_eq!(message_method_plan(true, MessageMode::Send, true), Ok(false));
}

#[test]
fn only_unary_routes_collect_wire_types_and_openapi_operations() {
    assert_eq!(
        plan_http_method(false, None),
        HttpMethodPlan { client: ClientBuilder::Unary, collects_wire_types: true, openapi: true }
    );
    assert_eq!(
        plan_http_method(true, None),
        HttpMethodPlan { client: ClientBuilder::ClientStream, collects_wire_types: false, openapi: false }
    );
    assert_eq!(plan_http_method(false, Some(true)).client, ClientBuilder::ServerStream);
    assert_eq!(plan_http_method(false, Some(false)).client, ClientBuilder::NoClient);
    assert!(!plan_http_method(false, Some(true)).openapi);
}

#[test]
fn route_wire_types_list_arguments_declared_types_then_typed_bodies() {
    let alternatives = vec![
        ResponseAlternative { status: 200, body: ResponseBody::Typed(String::from("User")), redirect: None },
        ResponseAlternative { status: 204, body: ResponseBody::Empty, redirect: None },
        ResponseAlternative { status: 404, body: ResponseBody::Typed(String::from("Missing")), redirect: None },
    ];
    let types = route_wire_types_of(
        vec![String::from("NewUser")],
        Some(String::from("Declared")),
        None,
        &alternatives,
    );
    assert_eq!(types, ["NewUser", "Declared", "User", "Missing"]);
}

fn strings(list: &[&str]) -> Vec<String> {
    list.iter().map(|s| s.to_string()).collect()
}

#[test]
fn routes_sharing_a_path_are_mounted_together_in_order() {
    let groups = route_groups(&strings(&["/users", "/users/{id}", "/users", "/health", "/users/{id}"]));
    assert_eq!(
        groups,
        [
            (String::from("/users"), vec![0, 2]),
            (String::from("/users/{id}"), vec![1, 4]),
            (String::from("/health"), vec![3]),
        ]
    );
    assert!(route_groups(&Vec::new()).is_empty());
}

#[test]
fn the_first_listed_middleware_is_the_outermost_layer() {
    assert_eq!(middleware_layers(&strings(&["Auth", "Log", "Trace"])), ["Trace", "Log", "Auth"]);
}

#[test]
fn route_methods_take_shared_self_or_nothing() {
    assert_eq!(receiver_plan(Receiver::Shared), Ok(true));
    assert_eq!(receiver_plan(Receiver::Absent), Ok(false));
    let message = "controller route methods may take `&self` only (the controller singleton is shared; `self` by value and `&mut self` are not allowed)";
    assert_eq!(receiver_plan(Receiver::Mutable), Err(String::from(message)));
    assert_eq!(receiver_plan(Receiver::Owned), Err(String::from(message)));
}

#[test]
fn stream_wrappers_map_over_results_and_apply_otherwise() {
    assert_eq!(stream_wrap(None, true), StreamWrap::Direct);
    assert_eq!(stream_wrap(Some(ServerWrap::Ndjson), true), StreamWrap::MapResult(ServerWrap::Ndjson));
    assert_eq!(stream_wrap(Some(ServerWrap::RawU8), false), StreamWrap::Apply(ServerWrap::RawU8));
}

#[test]
fn route_inputs_are_named_and_classified() {
    let json = TypeShape::Path {
        text: String::from("Json < NewUser >"),
        name: String::from("Json"),
        args: vec![TypeShape::Path { text: String::from("NewUser"), name: String::from("NewUser"), args: Vec::new() }],
    };
    let item = TypeShape::Path { text: String::from("Chunk"), name: String::from("Chunk"), args: Vec::new() };
    let (name, source, _) = route_input(Some(String::from("body")), 1, true, None, &json);
    assert_eq!((name.as_str(), source), ("body", "JsonBody"));
    let (name, source, ty) = route_input(None, 2, true, Some((1, &item)), &json);
    assert_eq!((name.as_str(), source), ("arg2", "Stream"));
    assert!(matches!(ty, TypeShape::Path { name, .. } if name == "Chunk"));
    let (_, source, _) = route_input(None, 1, true, Some((1, &item)), &json);
    assert_eq!(source, "JsonBody");
}

#[test]
fn path_parameters_mark_catch_all_holes() {
    assert_eq!(
        path_parameters(&strings(&["id", "*rest"])),
        [(String::from("id"), false), (String::from("rest"), true)]
    );
}

#[test]
fn descriptors_record_the_verb_in_uppercase() {
    assert_eq!(descriptor_method("get"), "GET");
    assert_eq!(descriptor_method("options"), "OPTIONS");
}

fn path(name: &str, args: Vec<TypeShape>) -> TypeShape {
    TypeShape::Path { text: name.to_string(), name: name.to_string(), args }
}

#[test]
fn ws_methods_take_shared_self_or_nothing() {
    assert_eq!(ws_receiver_plan(Receiver::Shared), Ok(true));
    assert_eq!(
        ws_receiver_plan(Receiver::Owned),
        Err(String::from("ws message methods may take `&self` only (the controller singleton is shared; `self` by value and `&mut self` are not allowed)"))
    );
}

#[test]
fn ws_arguments_are_injected_or_the_one_payload() {
    let args = vec![path("Inject", vec![path("Repo", Vec::new())]), path("Message", Vec::new())];
    let received = ws_arguments(&args).ok().unwrap();
    assert!(matches!(&received[0], WsArg::Inject(TypeShape::Path { name, .. }) if name == "Repo"));
    assert!(matches!(&received[1], WsArg::Payload(TypeShape::Path { name, .. }) if name == "Message"));
    assert!(matches!(ws_payload_type(&args), Ok(Some(TypeShape::Path { name, .. })) if name == "Message"));

    let two = vec![path("A", Vec::new()), path("B", Vec::new())];
    assert_eq!(
        ws_arguments(&two).err().unwrap(),
        "a ws message method takes at most one payload parameter (the frame carries one JSON payload); other parameters must be `Inject<T>`"
    );
    assert_eq!(
        ws_payload_type(&two).err().unwrap(),
        "a ws message method takes at most one payload parameter (the frame carries one payload); other parameters must be `Inject<T>`"
    );
    assert!(matches!(ws_payload_type(&vec![path("Inject", vec![path("Repo", Vec::new())])]), Ok(None)));
}

#[test]
fn success_values_peel_results_and_optionally_json() {
    let unit = success_value(None, true);
    assert!(matches!(&unit.ty, TypeShape::Tuple { text, elems } if text == "()" && elems.is_empty()));
    let output = path("Result", vec![path("Json", vec![path("Reply", Vec::new())]), path("Failure", Vec::new())]);
    let peeled = success_value(Some(&output), true);
    assert!(matches!(&peeled.ty, TypeShape::Path { name, .. } if name == "Reply"));
    assert!(peeled.maps_error && peeled.peels_json);
    let kept = success_value(Some(&output), false);
    assert!(matches!(&kept.ty, TypeShape::Path { name, .. } if name == "Json"));
    assert!(kept.maps_error && !kept.peels_json);
}

#[test]
fn unary_methods_forward_every_parameter_then_the_request() {
    let plan = unary_method_plan(
        "get_user",
        vec![(String::from("id"), String::from("u64"))],
        Some((String::from("query"), String::from("Filter"))),
        true,
    );
    assert_eq!(plan.with_headers, "get_user_with_headers");
    assert_eq!(
        plan.extra_args,
        [(String::from("id"), String::from("u64")), (String::from("query"), String::from("Filter"))]
    );
    assert_eq!(plan.forward_args, ["id", "query", "request"]);
    let bare = unary_method_plan("ping", Vec::new(), None, false);
    assert!(bare.extra_args.is_empty() && bare.forward_args.is_empty());
}

#[test]
fn inferred_modes_use_peeled_success_type() {
    let unit = path("Result", vec![TypeShape::Tuple { text: String::from("()"), elems: Vec::new() }, path("Failure", Vec::new())]);
    let value = path("Result", vec![path("Reply", Vec::new()), path("Failure", Vec::new())]);

    assert!(!resolve_message_reply(MessageMode::Infer, message_returns_value(Some(&unit))));
    assert!(resolve_message_reply(MessageMode::Infer, message_returns_value(Some(&value))));
    assert!(resolve_message_reply(MessageMode::Request, message_returns_value(Some(&unit))));
    assert!(!resolve_message_reply(MessageMode::Send, message_returns_value(Some(&value))));
    assert!(!message_returns_value(None));
}
