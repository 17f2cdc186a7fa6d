use overseerd_tooling::route::{
    is_message_attr, is_route_attr, message_mode, normalize_verb, parse_modifiers,
    resolve_message_reply, route_from_raw, route_from_shorthand, verb_names, DtoArgs,
    MessageMode, Modifier,
};

fn flag(name: &str) -> Modifier {
    Modifier { ident: String::from(name), list: None }
}

fn middleware(paths: &[&str]) -> Modifier {
    Modifier {
        ident: String::from("middleware"),
        list: Some(paths.iter().map(|p| p.to_string()).collect()),
    }
}

#[test]
fn route_attributes_are_the_verbs_and_route() {
    for name in ["get", "post", "put", "delete", "patch", "head", "options", "route"] {
        assert!(is_route_attr(Some(name)), "{name}");
    }
    assert!(!is_route_attr(Some("message")));
    assert!(!is_route_attr(Some("GET")));
    assert!(!is_route_attr(None));
    assert!(is_message_attr(Some("message")));
    assert!(!is_message_attr(Some("get")));
    assert_eq!(
        verb_names(),
        ["get", "post", "put", "delete", "patch", "head", "options"]
    );
}

#[test]
fn raw_verbs_are_lowercased_and_validated() {
    assert_eq!(normalize_verb("GET"), Ok(String::from("get")));
    assert_eq!(normalize_verb("Options"), Ok(String::from("options")));
    assert_eq!(
        normalize_verb("TRACE"),
        Err(String::from(
            "unsupported HTTP method `TRACE`; expected one of: get, post, put, delete, patch, head, options"
        ))
    );
}

#[test]
fn message_flags_select_the_mode() {
    assert_eq!(message_mode(None), Ok(MessageMode::Infer));
    assert_eq!(message_mode(Some("send")), Ok(MessageMode::Send));
    assert_eq!(message_mode(Some("request")), Ok(MessageMode::Request));
    assert_eq!(
        message_mode(Some("publish")),
        Err(String::from("unknown #[message] flag; expected `send` or `request`"))
    );
}

#[test]
fn explicit_modes_override_return_type_inference() {
    assert!(!resolve_message_reply(MessageMode::Send, true));
    assert!(resolve_message_reply(MessageMode::Request, false));
    assert!(resolve_message_reply(MessageMode::Infer, true));
    assert!(!resolve_message_reply(MessageMode::Infer, false));
}

#[test]
fn modifiers_set_streaming_and_the_last_middleware_list() {
    assert_eq!(
        parse_modifiers(&vec![flag("streamed"), middleware(&["Auth", "Log"])]),
        Ok((true, vec![String::from("Auth"), String::from("Log")]))
    );
    assert_eq!(
        parse_modifiers(&vec![middleware(&["A"]), middleware(&["B"])]),
        Ok((false, vec![String::from("B")]))
    );
    assert_eq!(parse_modifiers(&Vec::new()), Ok((false, Vec::new())));
    assert_eq!(
        parse_modifiers(&vec![flag("streamed"), flag("cached")]),
        Err(String::from(
            "unknown route flag; expected `streamed` or `middleware = [..]`"
        ))
    );
    assert_eq!(
        parse_modifiers(&vec![flag("middleware")]),
        Err(String::from("expected `=`"))
    );
}

#[test]
fn raw_routes_read_modifiers_before_the_verb() {
    let attr = route_from_raw("PATCH", String::from("/{id}"), &vec![flag("streamed")])
        .expect("valid raw route");
    assert_eq!(attr.verb, "patch");
    assert_eq!(attr.path, "/{id}");
    assert!(attr.streamed);
    assert!(attr.middleware.is_empty());

    assert_eq!(
        route_from_raw("TRACE", String::from("/"), &vec![flag("bogus")]).err(),
        Some(String::from(
            "unknown route flag; expected `streamed` or `middleware = [..]`"
        ))
    );
    assert!(route_from_raw("TRACE", String::from("/"), &Vec::new())
        .err()
        .unwrap()
        .starts_with("unsupported HTTP method `TRACE`"));
}

#[test]
fn shorthand_routes_mount_at_the_base_without_a_path() {
    let bare = route_from_shorthand("get", None, &Vec::new()).expect("bare shorthand");
    assert_eq!(bare.verb, "get");
    assert_eq!(bare.path, "");
    assert!(!bare.streamed);

    let with_path = route_from_shorthand(
        "post",
        Some(String::from("/items")),
        &vec![middleware(&["Audit"])],
    )
    .expect("shorthand with path");
    assert_eq!(with_path.path, "/items");
    assert_eq!(with_path.middleware, ["Audit"]);
}

#[test]
fn dto_options_accept_only_no_serde() {
    assert!(!DtoArgs::parse(&Vec::new()).unwrap().no_serde());
    assert!(DtoArgs::parse(&vec![String::from("no_serde")]).unwrap().no_serde());
    assert_eq!(
        DtoArgs::parse(&vec![String::from("no_serde"), String::from("tsify")]).err(),
        Some(String::from(
            "unknown `#[dto]` option `tsify` (expected `no_serde`)"
        ))
    );
    assert!(!DtoArgs::default().no_serde());
}

#[test]
fn a_streamed_flag_takes_no_list() {
    let listed = Modifier { ident: String::from("streamed"), list: Some(vec![String::from("Auth")]) };
    assert_eq!(parse_modifiers(&vec![listed]), Err(String::from("expected `,`")));
}
