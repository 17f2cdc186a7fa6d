use overseerd_tooling::client::{
    hole_ident, hole_ident_from, hole_param_types, is_pubsub_protocol, parse_template, plan_path, plan_path_from,
    request_reply_protocols, tuple_elems, upper_camel, PathType,
};

fn plain(text: &str) -> PathType {
    PathType { text: String::from(text), elems: None }
}

fn tuple(text: &str, elems: &[&str]) -> PathType {
    PathType {
        text: String::from(text),
        elems: Some(elems.iter().map(|e| e.to_string()).collect()),
    }
}

fn plan_args(holes: &[&str], path_ty: Option<PathType>) -> Vec<String> {
    let holes = holes
        .iter()
        .map(|hole| hole.to_string())
        .collect::<Vec<_>>();

    plan_path(&holes, path_ty)
        .args
        .iter()
        .map(|(name, ty)| format!("{}: {}", name, ty))
        .collect()
}

#[test]
fn single_hole_uses_path_type() {
    assert_eq!(plan_args(&["id"], Some(plain("u64"))), ["id: u64"]);
}

#[test]
fn guarded_hole_falls_back_to_string_param() {
    assert_eq!(plan_args(&["id"], None), ["id: :: std :: string :: String"]);
}

#[test]
fn multiple_guarded_holes_fall_back_to_string_params() {
    assert_eq!(
        plan_args(&["id", "child"], None),
        [
            "id: :: std :: string :: String",
            "child: :: std :: string :: String"
        ]
    );
}

#[test]
fn matching_tuple_refines_each_hole() {
    assert_eq!(
        plan_args(&["id", "slug"], Some(tuple("(u64 , String)", &["u64", "String"]))),
        ["id: u64", "slug: String"]
    );
}

#[test]
fn unmappable_path_type_falls_back_to_string_params() {
    assert_eq!(
        plan_args(&["id", "child"], Some(plain("SomeStruct"))),
        [
            "id: :: std :: string :: String",
            "child: :: std :: string :: String"
        ]
    );
}

#[test]
fn tuple_elems_recovers_elements() {
    assert_eq!(
        tuple_elems(&tuple("(u64 , String)", &["u64", "String"]))
            .unwrap()
            .len(),
        2
    );
    assert!(tuple_elems(&plain("u64")).is_none());
}

#[test]
fn tests_params_become_positional_placeholders() {
    let (fmt, holes) = parse_template("/users/{id}/posts/{slug}");
    assert_eq!(fmt, "{}/users/{}/posts/{}");
    assert_eq!(holes, ["id", "slug"]);
}

#[test]
fn tests_static_route_has_no_holes() {
    let (fmt, holes) = parse_template("/health");
    assert_eq!(fmt, "{}/health");
    assert!(holes.is_empty());
}

#[test]
fn tests_catch_all_is_one_hole() {
    let (fmt, holes) = parse_template("/files/{*path}");
    assert_eq!(fmt, "{}/files/{}");
    assert_eq!(holes, ["*path"]);
}

#[test]
fn tests_escaped_braces_are_literal() {
    let (fmt, holes) = parse_template("/lit/{{x}}/{id}");
    assert_eq!(fmt, "{}/lit/{{x}}/{}");
    assert_eq!(holes, ["id"]);
}

#[test]
fn tests_keyword_holes_fall_back_to_generated_param_name() {
    assert_eq!(hole_ident("type", 0), "path0");
    assert_eq!(hole_ident("self", 1), "path1");
}

#[test]
fn client_params_become_positional_placeholders() {
    let (fmt, holes) = parse_template("/users/{id}/posts/{slug}");
    assert_eq!(fmt, "{}/users/{}/posts/{}");
    assert_eq!(holes, ["id", "slug"]);
}

#[test]
fn client_static_route_has_no_holes() {
    let (fmt, holes) = parse_template("/health");
    assert_eq!(fmt, "{}/health");
    assert!(holes.is_empty());
}

#[test]
fn client_catch_all_is_one_hole() {
    let (fmt, holes) = parse_template("/files/{*path}");
    assert_eq!(fmt, "{}/files/{}");
    assert_eq!(holes, ["*path"]);
}

#[test]
fn client_escaped_braces_are_literal() {
    let (fmt, holes) = parse_template("/lit/{{x}}/{id}");
    assert_eq!(fmt, "{}/lit/{{x}}/{}");
    assert_eq!(holes, ["id"]);
}

#[test]
fn client_keyword_holes_fall_back_to_generated_param_name() {
    assert_eq!(hole_ident("type", 0), "path0");
    assert_eq!(hole_ident("self", 1), "path1");
}

#[test]
fn lone_closing_brace_is_escaped_and_unterminated_hole_runs_to_the_end() {
    let (fmt, holes) = parse_template("/a}b/{rest");
    assert_eq!(fmt, "{}/a}}b/{}");
    assert_eq!(holes, ["rest"]);
}

#[test]
fn empty_hole_is_kept_as_an_empty_name() {
    let (fmt, holes) = parse_template("/x/{}");
    assert_eq!(fmt, "{}/x/{}");
    assert_eq!(holes, [""]);
}

#[test]
fn hole_names_strip_catch_all_stars() {
    assert_eq!(hole_ident("*path", 0), "path");
    assert_eq!(hole_ident("**rest", 2), "rest");
    assert_eq!(hole_ident("user_id", 3), "user_id");
}

#[test]
fn unusable_hole_names_become_positional() {
    assert_eq!(hole_ident("", 4), "path4");
    assert_eq!(hole_ident("*", 5), "path5");
    assert_eq!(hole_ident("1st", 6), "path6");
    assert_eq!(hole_ident("a-b", 7), "path7");
    assert_eq!(hole_ident("name", 12), "name");
}

#[test]
fn hole_ident_from_uses_the_parse_verdict() {
    assert_eq!(hole_ident_from("type", 0, false), "path0");
    assert_eq!(hole_ident_from("id", 0, true), "id");
    assert_eq!(hole_ident_from("id", 9, false), "path9");
    assert_eq!(hole_ident_from("1d", 0, true), "path0");
}

#[test]
fn single_hole_keeps_a_tuple_path_type_whole() {
    let holes = vec![String::from("id")];
    assert_eq!(
        hole_param_types(&holes, Some(tuple("(u64 , String)", &["u64", "String"]))),
        ["(u64 , String)"]
    );
}

#[test]
fn many_holes_become_one_tuple_parameter() {
    let holes: Vec<String> = ["a", "b", "c", "d"].iter().map(|s| s.to_string()).collect();
    let plan = plan_path(&holes, None);

    assert_eq!(plan.args.len(), 1);
    assert_eq!(plan.args[0].0, "path");
    assert_eq!(
        plan.args[0].1,
        "(:: std :: string :: String , :: std :: string :: String , :: std :: string :: String , :: std :: string :: String ,)"
    );
    assert_eq!(plan.subst, ["path . 0", "path . 1", "path . 2", "path . 3"]);
}

#[test]
fn routes_without_holes_take_no_path_parameter() {
    let plan = plan_path(&Vec::new(), Some(plain("u64")));

    assert!(plan.args.is_empty());
    assert!(plan.subst.is_empty());
}

#[test]
fn named_holes_substitute_their_parameter_names() {
    let holes: Vec<String> = ["id", "type"].iter().map(|s| s.to_string()).collect();
    let plan = plan_path(&holes, None);

    assert_eq!(plan.subst, ["id", "path1"]);
}

#[test]
fn upper_camel_joins_capitalised_segments() {
    assert_eq!(upper_camel("get_user_by_id"), "GetUserById");
    assert_eq!(upper_camel("__list__all_"), "ListAll");
    assert_eq!(upper_camel("already"), "Already");
    assert_eq!(upper_camel(""), "");
    assert_eq!(upper_camel("ß_x"), "SSX");
}

#[test]
fn only_json_ws_is_request_reply() {
    assert_eq!(request_reply_protocols(), ["JsonWs"]);
    assert!(!is_pubsub_protocol(Some("JsonWs")));
    assert!(is_pubsub_protocol(Some("Stomp")));
    assert!(!is_pubsub_protocol(None));
}

#[test]
fn plan_path_from_takes_each_parse_verdict() {
    let holes = vec![String::from("id"), String::from("type")];
    let plan = plan_path_from(&holes, Some(tuple("(u64, String)", &["u64", "String"])), &vec![true, false]);
    assert_eq!(plan.args, [(String::from("id"), String::from("u64")), (String::from("path1"), String::from("String"))]);
    assert_eq!(plan.subst, ["id", "path1"]);
}

/// Formats `format` with positional arguments as `format!` would: `{}` takes the next
/// argument, `{{` and `}}` are literal braces.
fn format_positional(format: &str, args: &[String]) -> String {
    let mut out = String::new();
    let mut next = args.iter();
    let chars: Vec<char> = format.chars().collect();
    let mut i = 0;
    while i < chars.len() {
        match (chars[i], chars.get(i + 1)) {
            ('{', Some('}')) => {
                out.push_str(next.next().map(String::as_str).unwrap_or(""));
                i += 2;
            }
            ('{', Some('{')) | ('}', Some('}')) => {
                out.push(chars[i]);
                i += 2;
            }
            (c, _) => {
                out.push(c);
                i += 1;
            }
        }
    }
    out
}

#[test]
fn a_template_round_trips_through_its_format_string() {
    let template = "/users/{id}/posts/{slug}";
    let (format, holes) = parse_template(template);
    assert_eq!(format, "{}/users/{}/posts/{}");
    assert_eq!(holes, ["id", "slug"]);
    let mut args = vec![String::from("http://host")];
    args.extend(holes.iter().map(|h| format!("{{{h}}}")));
    assert_eq!(format_positional(&format, &args), format!("http://host{template}"));
}
