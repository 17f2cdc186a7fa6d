//! How `#[handlers]` treats each method of a controller: which attribute binds it, which
//! client method is generated for an HTTP route, which wire types the route contributes, and
//! whether an OpenAPI operation is emitted for it.
//!
//! The syntax is read and the code generated by the caller; these functions take what it
//! read and decide.
use vstd::prelude::*;

use crate::http_responses::{alt_views, opt_text, AltView, ResponseAlternative, ResponseBody};
use crate::client::{strip_leading_stars, strip_stars};
use crate::http_responses::ServerWrap;
use crate::route::{is_message_attr, is_route_attr, route_attr_names, MessageMode};
use crate::wire::{
    arg_of, copy_shape, first_type_arg, input_source, input_source_spec, peel_spec, response_type,
    response_type_spec, shape_view, ShapeView, TypeShape,
};
use crate::text::{concat, decimal, decimal_string, owned, push_char, text_views};

verus! {

/// How a method is bound.
#[derive(Clone, Copy, Debug, PartialEq, Eq, Structural)]
pub enum MethodKind {
    /// By the `#[message]` attribute at this position.
    Message(usize),
    /// By the route attribute at this position.
    Route(usize),
    /// By neither: the method is left as it is.
    Plain,
}

/// The views of a method's attribute names (`None` for a path that is not one identifier).
pub open spec fn names_view(names: Seq<Option<String>>) -> Seq<Option<Seq<char>>> {
    names.map_values(
        |n: Option<String>|
            match n {
                Some(t) => Some(t@),
                None => None,
            },
    )
}

/// Whether an attribute name is `message`.
pub open spec fn is_message_name(n: Option<Seq<char>>) -> bool {
    n matches Some(t) && t == "message"@
}

/// Whether an attribute name is a route attribute.
pub open spec fn is_route_name(n: Option<Seq<char>>) -> bool {
    n matches Some(t) && route_attr_names().contains(t)
}

/// How a method with these attribute names is bound: its first `#[message]` wins over any
/// route attribute; otherwise its first route attribute binds it.
pub open spec fn method_kind_spec(ns: Seq<Option<Seq<char>>>, r: MethodKind) -> bool {
    match r {
        MethodKind::Message(p) => p < ns.len() && is_message_name(ns[p as int]) && forall|i: int|
            0 <= i < p ==> !is_message_name(#[trigger] ns[i]),
        MethodKind::Route(p) => (forall|i: int| 0 <= i < ns.len() ==> !is_message_name(#[trigger] ns[i]))
            && p < ns.len() && is_route_name(ns[p as int]) && forall|i: int|
            0 <= i < p ==> !is_route_name(#[trigger] ns[i]),
        MethodKind::Plain => forall|i: int|
            0 <= i < ns.len() ==> !is_message_name(#[trigger] ns[i]) && !is_route_name(ns[i]),
    }
}

fn first_position(names: &Vec<Option<String>>, message: bool) -> (r: Option<usize>)
    ensures
        ({
            let ns = names_view(names@);
            match r {
                Some(p) => p < ns.len() && (if message {
                    is_message_name(ns[p as int])
                } else {
                    is_route_name(ns[p as int])
                }) && forall|i: int|
                    0 <= i < p ==> !(if message {
                        is_message_name(#[trigger] ns[i])
                    } else {
                        is_route_name(ns[i])
                    }),
                None => forall|i: int|
                    0 <= i < ns.len() ==> !(if message {
                        is_message_name(#[trigger] ns[i])
                    } else {
                        is_route_name(ns[i])
                    }),
            }
        }),
{
    let ghost ns = names_view(names@);
    let mut i: usize = 0;
    while i < names.len()
        invariant
            ns == names_view(names@),
            i <= names@.len(),
            forall|j: int|
                0 <= j < i ==> !(if message {
                    is_message_name(#[trigger] ns[j])
                } else {
                    is_route_name(ns[j])
                }),
        decreases names@.len() - i,
    {
        let name: Option<&str> = match &names[i] {
            Some(t) => Some(t.as_str()),
            None => None,
        };
        proof {
            assert(ns[i as int] == match names@[i as int] {
                Some(t) => Some(t@),
                None => None::<Seq<char>>,
            });
        }
        let hit = if message {
            is_message_attr(name)
        } else {
            is_route_attr(name)
        };
        if hit {
            return Some(i);
        }
        i = i + 1;
    }
    None
}

/// How `#[handlers]` binds a method, from the names of its attributes in order.
pub fn method_kind(names: &Vec<Option<String>>) -> (r: MethodKind)
    ensures
        method_kind_spec(names_view(names@), r),
{
    match first_position(names, true) {
        Some(p) => MethodKind::Message(p),
        None => match first_position(names, false) {
            Some(p) => MethodKind::Route(p),
            None => MethodKind::Plain,
        },
    }
}

/// The error of a `#[message]` method in a block without a WebSocket protocol.
pub open spec fn missing_ws_protocol() -> Seq<char> {
    "a #[handlers] block containing #[message] methods requires `ws = P`"@
}

/// Whether a message handler returns a value: its response type is anything but `()`.
pub fn message_returns_value(output: Option<&TypeShape>) -> (r: bool)
    ensures
        r == !(response_type_spec(
            match output {
                Some(t) => Some(shape_view(*t)),
                None => None,
            },
        ) matches ShapeView::Tuple { elems, .. } && elems.len() == 0),
{
    let ty = response_type(output);
    match &ty {
        TypeShape::Tuple { elems, .. } => elems.len() != 0,
        _ => true,
    }
}

/// Whether a `#[message]` method's client is a request (rather than a send): it needs the
/// block's WebSocket protocol, then follows the attribute's mode or, inferred, whether the
/// handler returns a value.
pub fn message_method_plan(has_protocol: bool, mode: MessageMode, returns_value: bool) -> (r: Result<
    bool,
    String,
>)
    ensures
        !has_protocol ==> (r matches Err(e) && e@ == missing_ws_protocol()),
        has_protocol ==> r == Ok::<bool, String>(
            match mode {
                MessageMode::Send => false,
                MessageMode::Request => true,
                MessageMode::Infer => returns_value,
            },
        ),
{
    if !has_protocol {
        return Err(owned("a #[handlers] block containing #[message] methods requires `ws = P`"));
    }
    Ok(crate::route::resolve_message_reply(mode, returns_value))
}

/// Which client method is generated for an HTTP route.
#[derive(Clone, Copy, Debug, PartialEq, Eq, Structural)]
pub enum ClientBuilder {
    /// A client-streaming method (the handler takes a stream).
    ClientStream,
    /// A server-streaming method (the handler returns a stream the client can read).
    ServerStream,
    /// No client method (a stream the client cannot read).
    NoClient,
    /// A unary method, with its per-header variant and response type.
    Unary,
}

/// What `#[handlers]` does for an HTTP route.
#[derive(Clone, Copy, Debug, PartialEq, Eq, Structural)]
pub struct HttpMethodPlan {
    pub client: ClientBuilder,
    /// Whether the route's wire types are collected.
    pub collects_wire_types: bool,
    /// Whether an OpenAPI operation is emitted.
    pub openapi: bool,
}

/// The plan of an HTTP route, from whether its handler takes a stream and, if not, whether it
/// returns one (`Some(readable)`, telling whether the client can read the stream).
pub open spec fn http_method_plan_spec(has_stream_param: bool, stream_return: Option<bool>) -> HttpMethodPlan {
    let unary = !has_stream_param && stream_return is None;
    HttpMethodPlan {
        client: if has_stream_param {
            ClientBuilder::ClientStream
        } else {
            match stream_return {
                Some(true) => ClientBuilder::ServerStream,
                Some(false) => ClientBuilder::NoClient,
                None => ClientBuilder::Unary,
            }
        },
        collects_wire_types: unary,
        openapi: unary,
    }
}

/// Plans an HTTP route: a client-streaming method when the handler takes a stream, a
/// server-streaming one (or none) when it returns one, a unary one otherwise; only a unary
/// route contributes wire types and an OpenAPI operation.
pub fn plan_http_method(has_stream_param: bool, stream_return: Option<bool>) -> (r: HttpMethodPlan)
    ensures
        r == http_method_plan_spec(has_stream_param, stream_return),
{
    let unary = !has_stream_param && stream_return.is_none();
    let client = if has_stream_param {
        ClientBuilder::ClientStream
    } else {
        match stream_return {
            Some(true) => ClientBuilder::ServerStream,
            Some(false) => ClientBuilder::NoClient,
            None => ClientBuilder::Unary,
        }
    };
    HttpMethodPlan { client, collects_wire_types: unary, openapi: unary }
}

/// Only a unary route (its handler neither takes nor returns a stream) contributes wire types
/// and an OpenAPI operation, and it is exactly such a route that gets the unary client method;
/// a handler taking a stream gets a client-streaming method, and one returning a stream gets
/// a server-streaming method when its client can read the stream and none otherwise.
pub proof fn law_only_unary_routes_collect_wire_types(has_stream_param: bool, stream_return: Option<bool>)
    ensures
        ({
            let plan = http_method_plan_spec(has_stream_param, stream_return);
            &&& plan.collects_wire_types <==> (!has_stream_param && stream_return is None)
            &&& plan.openapi <==> (!has_stream_param && stream_return is None)
            &&& plan.collects_wire_types == plan.openapi
            &&& (plan.client == ClientBuilder::Unary) <==> (!has_stream_param && stream_return is None)
            &&& (plan.client == ClientBuilder::ClientStream) <==> has_stream_param
            &&& (plan.client == ClientBuilder::ServerStream) <==> (!has_stream_param && stream_return
                == Some(true))
            &&& (plan.client == ClientBuilder::NoClient) <==> (!has_stream_param && stream_return
                == Some(false))
        }),
{
}

/// The typed bodies of a route's response alternatives, in order.
pub open spec fn typed_bodies(alts: Seq<AltView>) -> Seq<Seq<char>>
    decreases alts.len(),
{
    if alts.len() == 0 {
        Seq::empty()
    } else {
        let rest = typed_bodies(alts.drop_last());
        match alts.last().body {
            Some(Some(t)) => rest.push(t),
            _ => rest,
        }
    }
}

/// The optional type as a list.
pub open spec fn optional_list(t: Option<Seq<char>>) -> Seq<Seq<char>> {
    match t {
        Some(x) => seq![x],
        None => Seq::empty(),
    }
}

/// The wire types a unary route contributes: those of its arguments and return type, then
/// its declared `returns` and `response` types, then the typed bodies of its responses.
pub open spec fn route_wire_types(
    collected: Seq<Seq<char>>,
    declared: Option<Seq<char>>,
    response: Option<Seq<char>>,
    alts: Seq<AltView>,
) -> Seq<Seq<char>> {
    collected + optional_list(declared) + optional_list(response) + typed_bodies(alts)
}

/// Collects a unary route's wire types (as token text) in order.
pub fn route_wire_types_of(
    collected: Vec<String>,
    declared: Option<String>,
    response: Option<String>,
    alternatives: &Vec<ResponseAlternative>,
) -> (r: Vec<String>)
    ensures
        text_views(r@) == route_wire_types(
            text_views(collected@),
            opt_text(declared),
            opt_text(response),
            alt_views(alternatives@),
        ),
{
    let ghost rv = opt_text(declared);
    let ghost sv = opt_text(response);
    let ghost alts = alt_views(alternatives@);
    let mut r = collected;
    let ghost c = text_views(r@);
    match declared {
        Some(t) => r.push(t),
        None => {},
    }
    proof {
        assert(text_views(r@) =~= c + optional_list(rv));
    }
    match response {
        Some(t) => r.push(t),
        None => {},
    }
    proof {
        assert(text_views(r@) =~= c + optional_list(rv) + optional_list(sv));
    }
    let ghost head = text_views(r@);
    let mut i: usize = 0;
    while i < alternatives.len()
        invariant
            alts == alt_views(alternatives@),
            i <= alternatives@.len(),
            text_views(r@) == head + typed_bodies(alts.take(i as int)),
        decreases alternatives@.len() - i,
    {
        proof {
            assert(alts.take(i + 1).drop_last() =~= alts.take(i as int));
            assert(alts.take(i + 1).last() == alts[i as int]);
            assert(alts[i as int] == crate::http_responses::alt_view(alternatives@[i as int]));
        }
        let ghost before = r@;
        let ghost prefix = typed_bodies(alts.take(i as int));
        match &alternatives[i].body {
            ResponseBody::Typed(t) => {
                r.push(owned(t.as_str()));
                proof {
                    assert(alts[i as int].body == Some(Some(t@)));
                    assert(typed_bodies(alts.take(i + 1)) == prefix.push(t@));
                    assert(text_views(r@) =~= text_views(before).push(t@));
                }
            },
            _ => {
                proof {
                    assert(!(alts[i as int].body matches Some(Some(_))));
                    assert(typed_bodies(alts.take(i + 1)) == prefix);
                }
            },
        }
        proof {
            assert(text_views(r@) =~= head + typed_bodies(alts.take(i + 1)));
        }
        i = i + 1;
    }
    proof {
        assert(alts.take(alternatives@.len() as int) =~= alts);
    }
    r
}

// ---------------------------------------------------------------------------------------------
// Mounting the routes of a controller
// ---------------------------------------------------------------------------------------------

/// `gs` with route `i` (path `p`) added: to the first group with that path, else as a new
/// group at the end.
pub open spec fn group_insert(gs: Seq<(Seq<char>, Seq<int>)>, p: Seq<char>, i: int) -> Seq<
    (Seq<char>, Seq<int>),
>
    decreases gs.len(),
{
    if gs.len() == 0 {
        seq![(p, seq![i])]
    } else if gs[0].0 == p {
        seq![(gs[0].0, gs[0].1.push(i))] + gs.drop_first()
    } else {
        seq![gs[0]] + group_insert(gs.drop_first(), p, i)
    }
}

/// The routes mounted under each path: one group per distinct path, in order of first
/// appearance, each listing its routes (by index) in declaration order.
pub open spec fn route_groups_spec(ps: Seq<Seq<char>>) -> Seq<(Seq<char>, Seq<int>)>
    decreases ps.len(),
{
    if ps.len() == 0 {
        Seq::empty()
    } else {
        group_insert(route_groups_spec(ps.drop_last()), ps.last(), ps.len() - 1)
    }
}

/// Route indices as integers.
pub open spec fn index_view(v: Seq<usize>) -> Seq<int> {
    v.map_values(|i: usize| i as int)
}

/// The view of one computed group.
pub open spec fn group_view(g: (String, Vec<usize>)) -> (Seq<char>, Seq<int>) {
    (g.0@, index_view(g.1@))
}

/// The view of computed groups.
pub open spec fn groups_view(gs: Seq<(String, Vec<usize>)>) -> Seq<(Seq<char>, Seq<int>)> {
    gs.map_values(|g: (String, Vec<usize>)| group_view(g))
}

proof fn lemma_group_insert_at(gs: Seq<(Seq<char>, Seq<int>)>, p: Seq<char>, i: int, j: int)
    requires
        0 <= j < gs.len(),
        gs[j].0 == p,
        forall|k: int| 0 <= k < j ==> (#[trigger] gs[k]).0 != p,
    ensures
        group_insert(gs, p, i) == gs.update(j, (gs[j].0, gs[j].1.push(i))),
    decreases gs.len(),
{
    if j == 0 {
        assert(group_insert(gs, p, i) =~= gs.update(0, (gs[0].0, gs[0].1.push(i))));
    } else {
        let t = gs.drop_first();
        assert forall|k: int| 0 <= k < j - 1 implies (#[trigger] t[k]).0 != p by {
            assert(t[k] == gs[k + 1]);
        }
        lemma_group_insert_at(t, p, i, j - 1);
        assert(group_insert(gs, p, i) =~= gs.update(j, (gs[j].0, gs[j].1.push(i))));
    }
}

proof fn lemma_group_insert_new(gs: Seq<(Seq<char>, Seq<int>)>, p: Seq<char>, i: int)
    requires
        forall|k: int| 0 <= k < gs.len() ==> (#[trigger] gs[k]).0 != p,
    ensures
        group_insert(gs, p, i) == gs.push((p, seq![i])),
    decreases gs.len(),
{
    if gs.len() > 0 {
        let t = gs.drop_first();
        assert forall|k: int| 0 <= k < t.len() implies (#[trigger] t[k]).0 != p by {
            assert(t[k] == gs[k + 1]);
        }
        lemma_group_insert_new(t, p, i);
        assert(group_insert(gs, p, i) =~= gs.push((p, seq![i])));
    }
}

/// Groups a controller's routes by path: each distinct path is mounted once, in order of its
/// first route, with its routes merged in declaration order.
pub fn route_groups(paths: &Vec<String>) -> (r: Vec<(String, Vec<usize>)>)
    ensures
        groups_view(r@) == route_groups_spec(text_views(paths@)),
{
    let ghost ps = text_views(paths@);
    let mut groups: Vec<(String, Vec<usize>)> = Vec::new();
    let mut i: usize = 0;
    proof {
        assert(ps.take(0) =~= Seq::<Seq<char>>::empty());
        assert(groups_view(groups@) =~= route_groups_spec(ps.take(0)));
    }
    while i < paths.len()
        invariant
            ps == text_views(paths@),
            i <= paths@.len(),
            groups_view(groups@) == route_groups_spec(ps.take(i as int)),
        decreases paths@.len() - i,
    {
        let ghost gv = groups_view(groups@);
        let p = paths[i].as_str();
        let mut j: usize = 0;
        while j < groups.len() && !crate::text::text_eq(groups[j].0.as_str(), p)
            invariant
                gv == groups_view(groups@),
                j <= groups@.len(),
                forall|k: int| 0 <= k < j ==> (#[trigger] gv[k]).0 != p@,
            decreases groups@.len() - j,
        {
            j = j + 1;
        }
        proof {
            assert(ps.take(i + 1).drop_last() =~= ps.take(i as int));
            assert(ps.take(i + 1).last() == p@);
            assert(p@ == ps[i as int]);
        }
        if j < groups.len() {
            proof {
                lemma_group_insert_at(gv, p@, i as int, j as int);
            }
            let mut members: Vec<usize> = Vec::new();
            let mut k: usize = 0;
            let count = groups[j].1.len();
            while k < count
                invariant
                    j < groups@.len(),
                    count == groups@[j as int].1@.len(),
                    k <= count,
                    members@ == groups@[j as int].1@.take(k as int),
                decreases count - k,
            {
                members.push(groups[j].1[k]);
                proof {
                    assert(groups@[j as int].1@.take(k + 1) =~= groups@[j as int].1@.take(k as int).push(
                        groups@[j as int].1@[k as int],
                    ));
                }
                k = k + 1;
            }
            proof {
                assert(groups@[j as int].1@.take(count as int) =~= groups@[j as int].1@);
            }
            members.push(i);
            let name = crate::text::owned(groups[j].0.as_str());
            let ghost before = groups@;
            proof {
                assert(index_view(members@) =~= index_view(before[j as int].1@).push(i as int));
                assert(gv[j as int] == group_view(before[j as int]));
            }
            groups.set(j, (name, members));
            proof {
                assert(group_view(groups@[j as int]) == (gv[j as int].0, gv[j as int].1.push(i as int)));
                assert(groups_view(groups@) =~= gv.update(j as int, (gv[j as int].0, gv[j as int].1.push(i as int))));
            }
        } else {
            proof {
                lemma_group_insert_new(gv, p@, i as int);
            }
            let mut members: Vec<usize> = Vec::new();
            members.push(i);
            proof {
                assert(index_view(members@) =~= seq![i as int]);
            }
            groups.push((crate::text::owned(p), members));
            proof {
                assert(groups_view(groups@) =~= gv.push((p@, seq![i as int])));
            }
        }
        i = i + 1;
    }
    proof {
        assert(ps.take(paths@.len() as int) =~= ps);
    }
    groups
}

/// The layers a route's middleware adds, innermost first: the first-listed middleware ends
/// up outermost.
pub fn middleware_layers(middleware: &Vec<String>) -> (r: Vec<String>)
    ensures
        text_views(r@) == text_views(middleware@).reverse(),
{
    let ghost ms = text_views(middleware@);
    let mut r: Vec<String> = Vec::new();
    let mut k: usize = middleware.len();
    while k > 0
        invariant
            ms == text_views(middleware@),
            k <= middleware@.len(),
            text_views(r@) == ms.skip(k as int).reverse(),
        decreases k,
    {
        k = k - 1;
        r.push(owned(middleware[k].as_str()));
        proof {
            assert(ms.skip(k as int).reverse() =~= ms.skip(k + 1).reverse().push(ms[k as int]));
            assert(text_views(r@) =~= ms.skip(k as int).reverse());
        }
    }
    proof {
        assert(ms.skip(0) =~= ms);
    }
    r
}

// ---------------------------------------------------------------------------------------------
// The handler of one HTTP route
// ---------------------------------------------------------------------------------------------

/// How a route method takes its receiver.
#[derive(Clone, Copy, Debug, PartialEq, Eq, Structural)]
pub enum Receiver {
    /// No receiver: an associated function.
    Absent,
    /// `&self`.
    Shared,
    /// `&mut self`.
    Mutable,
    /// `self` by value.
    Owned,
}

/// The error of a route method that takes `self` by value or `&mut self`.
pub open spec fn receiver_error() -> Seq<char> {
    "controller route methods may take `&self` only (the controller singleton is shared; `self` by value and `&mut self` are not allowed)"@
}

/// Whether a route method is called on the shared controller: `&self` is, an associated
/// function is not, and any other receiver is refused.
pub fn receiver_plan(first: Receiver) -> (r: Result<bool, String>)
    ensures
        match first {
            Receiver::Absent => r == Ok::<bool, String>(false),
            Receiver::Shared => r == Ok::<bool, String>(true),
            _ => r matches Err(e) && e@ == receiver_error(),
        },
{
    match first {
        Receiver::Absent => Ok(false),
        Receiver::Shared => Ok(true),
        _ => Err(
            owned(
                "controller route methods may take `&self` only (the controller singleton is shared; `self` by value and `&mut self` are not allowed)",
            ),
        ),
    }
}

/// How a streamed response is wrapped around the handler's call.
#[derive(Clone, Copy, Debug, PartialEq, Eq, Structural)]
pub enum StreamWrap {
    /// The call's result is returned as it is.
    Direct,
    /// The wrapper is mapped over the call's `Result`.
    MapResult(ServerWrap),
    /// The wrapper is applied to the call's result.
    Apply(ServerWrap),
}

/// How a route's call is wrapped: not at all without a server wrapper; mapped over a `Result`
/// return, else applied.
pub fn stream_wrap(server_wrap: Option<ServerWrap>, in_result: bool) -> (r: StreamWrap)
    ensures
        r == match server_wrap {
            None => StreamWrap::Direct,
            Some(w) => if in_result {
                StreamWrap::MapResult(w)
            } else {
                StreamWrap::Apply(w)
            },
        },
{
    match server_wrap {
        None => StreamWrap::Direct,
        Some(w) => if in_result {
            StreamWrap::MapResult(w)
        } else {
            StreamWrap::Apply(w)
        },
    }
}

/// The name of a handler input: its binding's identifier, else `arg<index>`.
pub open spec fn input_name_spec(binding: Option<Seq<char>>, index: nat) -> Seq<char> {
    match binding {
        Some(n) => n,
        None => "arg"@ + decimal(index),
    }
}

/// Whether the typed argument at position `index` among a method's inputs (the receiver
/// counted) is the route's stream parameter, which is numbered among the typed arguments.
pub open spec fn is_stream_input(stream_index: Option<usize>, index: nat, takes_self: bool) -> bool {
    stream_index matches Some(s) && s == (if takes_self && index > 0 {
        index - 1
    } else {
        index as int
    })
}

/// One handler input of the route metadata: its name, its source and the type it carries.
/// The stream parameter is a `Stream` of its item type; any other input is classified by its
/// type.
pub fn route_input(
    binding: Option<String>,
    index: usize,
    takes_self: bool,
    stream_param: Option<(usize, &TypeShape)>,
    ty: &TypeShape,
) -> (r: (String, &'static str, TypeShape))
    ensures
        r.0@ == input_name_spec(
            match binding {
                Some(n) => Some(n@),
                None => None,
            },
            index as nat,
        ),
        ({
            let si = match stream_param {
                Some((s, _)) => Some(s),
                None => None,
            };
            if is_stream_input(si, index as nat, takes_self) {
                r.1@ == "Stream"@ && (stream_param matches Some((_, item)) && shape_view(r.2)
                    == shape_view(*item))
            } else {
                (r.1@, shape_view(r.2)) == input_source_spec(peel_spec(shape_view(*ty)))
            }
        }),
{
    let name = match binding {
        Some(n) => n,
        None => {
            let digits = decimal_string(index as u64);
            concat("arg", digits.as_str())
        },
    };
    let position = if takes_self && index > 0 {
        index - 1
    } else {
        index
    };
    match stream_param {
        Some((s, item)) => if s == position {
            proof {
                reveal_strlit("Stream");
            }
            return (name, "Stream", copy_shape(item));
        },
        None => {},
    }
    let (source, shape) = input_source(ty);
    (name, source, shape)
}

/// The path parameters of a route: each hole's name without leading `*`, and whether it is a
/// catch-all (written with a leading `*`).
pub fn path_parameters(holes: &Vec<String>) -> (r: Vec<(String, bool)>)
    ensures
        r@.len() == holes@.len(),
        forall|i: int|
            0 <= i < holes@.len() ==> (#[trigger] r@[i]).0@ == strip_stars(holes@[i]@) && r@[i].1
                == (holes@[i]@.len() > 0 && holes@[i]@[0] == '*'),
{
    let mut r: Vec<(String, bool)> = Vec::new();
    let mut i: usize = 0;
    while i < holes.len()
        invariant
            i <= holes@.len(),
            r@.len() == i,
            forall|j: int|
                0 <= j < i ==> (#[trigger] r@[j]).0@ == strip_stars(holes@[j]@) && r@[j].1 == (
                holes@[j]@.len() > 0 && holes@[j]@[0] == '*'),
        decreases holes@.len() - i,
    {
        let hole = holes[i].as_str();
        let catch_all = hole.unicode_len() > 0 && hole.get_char(0) == '*';
        let name = owned(strip_leading_stars(hole));
        r.push((name, catch_all));
        i = i + 1;
    }
    r
}

/// `c` with an ASCII lowercase letter turned uppercase.
pub open spec fn ascii_upper(c: char) -> char {
    if 'a' <= c && c <= 'z' {
        ((c as u8) - 32) as u8 as char
    } else {
        c
    }
}

/// The HTTP method a route descriptor records: its routing verb in ASCII uppercase.
pub fn descriptor_method(verb: &str) -> (r: String)
    ensures
        r@ == verb@.map_values(|c: char| ascii_upper(c)),
{
    let n = verb.unicode_len();
    let mut r = String::new();
    let mut i: usize = 0;
    while i < n
        invariant
            n == verb@.len(),
            i <= n,
            r@ == verb@.take(i as int).map_values(|c: char| ascii_upper(c)),
        decreases n - i,
    {
        let c = verb.get_char(i);
        let u = if 'a' <= c && c <= 'z' {
            ((c as u8) - 32) as char
        } else {
            c
        };
        push_char(&mut r, u);
        proof {
            assert(verb@.take(i + 1) =~= verb@.take(i as int).push(c));
            assert(r@ =~= verb@.take(i + 1).map_values(|c: char| ascii_upper(c)));
        }
        i = i + 1;
    }
    proof {
        assert(verb@.take(n as int) =~= verb@);
    }
    r
}

// ---------------------------------------------------------------------------------------------
// WebSocket message routes
// ---------------------------------------------------------------------------------------------

/// The error of a message method that takes `self` by value or `&mut self`.
pub open spec fn ws_receiver_error() -> Seq<char> {
    "ws message methods may take `&self` only (the controller singleton is shared; `self` by value and `&mut self` are not allowed)"@
}

/// Whether a message method is called on the shared controller: `&self` is, an associated
/// function is not, and any other receiver is refused.
pub fn ws_receiver_plan(first: Receiver) -> (r: Result<bool, String>)
    ensures
        match first {
            Receiver::Absent => r == Ok::<bool, String>(false),
            Receiver::Shared => r == Ok::<bool, String>(true),
            _ => r matches Err(e) && e@ == ws_receiver_error(),
        },
{
    match first {
        Receiver::Absent => Ok(false),
        Receiver::Shared => Ok(true),
        _ => Err(
            owned(
                "ws message methods may take `&self` only (the controller singleton is shared; `self` by value and `&mut self` are not allowed)",
            ),
        ),
    }
}

/// How a message handler receives one argument.
pub enum WsArg {
    /// Provided by dependency injection: an `Inject<T>` argument, by `T`.
    Inject(TypeShape),
    /// Decoded from the frame's payload, by the argument's type.
    Payload(TypeShape),
}

/// The view of a message argument: whether it is injected, and its type.
pub open spec fn ws_arg_view(a: WsArg) -> (bool, ShapeView) {
    match a {
        WsArg::Inject(t) => (true, shape_view(t)),
        WsArg::Payload(t) => (false, shape_view(t)),
    }
}

/// How an argument of this type is received.
pub open spec fn ws_arg_of(t: ShapeView) -> (bool, ShapeView) {
    match arg_of(t, "Inject"@) {
        Some(inner) => (true, inner),
        None => (false, t),
    }
}

/// Whether at most one argument is a payload.
pub open spec fn one_payload_at_most(ts: Seq<ShapeView>) -> bool {
    forall|i: int, j: int|
        0 <= i < j < ts.len() ==> !(!(#[trigger] ws_arg_of(ts[i])).0 && !(#[trigger] ws_arg_of(ts[j])).0)
}

/// The error of a message method with two payload arguments.
pub open spec fn two_payloads_error() -> Seq<char> {
    "a ws message method takes at most one payload parameter (the frame carries one JSON payload); other parameters must be `Inject<T>`"@
}

/// The error that reading a message method's payload type reports for two payloads.
pub open spec fn two_payload_types_error() -> Seq<char> {
    "a ws message method takes at most one payload parameter (the frame carries one payload); other parameters must be `Inject<T>`"@
}

/// The number of payload arguments among the first `k`.
pub open spec fn payloads_upto(ts: Seq<ShapeView>, k: int) -> nat
    decreases k,
{
    if k <= 0 {
        0
    } else {
        payloads_upto(ts, k - 1) + if ws_arg_of(ts[k - 1]).0 {
            0nat
        } else {
            1nat
        }
    }
}

proof fn lemma_payloads_upto(ts: Seq<ShapeView>, k: int)
    requires
        0 <= k <= ts.len(),
    ensures
        payloads_upto(ts, k) <= 1 <==> forall|i: int, j: int|
            0 <= i < j < k ==> !(!(#[trigger] ws_arg_of(ts[i])).0 && !(#[trigger] ws_arg_of(ts[j])).0),
        payloads_upto(ts, k) == 0 <==> forall|i: int| 0 <= i < k ==> (#[trigger] ws_arg_of(ts[i])).0,
    decreases k,
{
    if k > 0 {
        lemma_payloads_upto(ts, k - 1);
        if !ws_arg_of(ts[k - 1]).0 && payloads_upto(ts, k - 1) >= 1 {
            let i = choose|i: int| 0 <= i < k - 1 && !(#[trigger] ws_arg_of(ts[i])).0;
            assert(!(!ws_arg_of(ts[i]).0 && !ws_arg_of(ts[k - 1]).0) == false);
        }
    }
}

fn ws_arg(t: &TypeShape) -> (r: WsArg)
    ensures
        ws_arg_view(r) == ws_arg_of(shape_view(*t)),
{
    match first_type_arg(t, "Inject") {
        Some(inner) => WsArg::Inject(inner),
        None => WsArg::Payload(copy_shape(t)),
    }
}

/// How a message handler receives each of its typed arguments: `Inject<T>` arguments by
/// injection, the other one from the payload; a second payload argument is refused.
pub fn ws_arguments(args: &Vec<TypeShape>) -> (r: Result<Vec<WsArg>, String>)
    ensures
        ({
            let ts = crate::wire::shape_views(args@);
            &&& r is Ok <==> one_payload_at_most(ts)
            &&& r matches Ok(v) ==> v@.map_values(|a: WsArg| ws_arg_view(a)) == ts.map_values(
                |t: ShapeView| ws_arg_of(t),
            )
            &&& r matches Err(e) ==> e@ == two_payloads_error()
        }),
{
    let ghost ts = crate::wire::shape_views(args@);
    let mut out: Vec<WsArg> = Vec::new();
    let mut payload_seen = false;
    let mut i: usize = 0;
    proof {
        if args@.len() > 0 {
            crate::wire::lemma_views_index(args@, 0);
        }
    }
    while i < args.len()
        invariant
            ts == crate::wire::shape_views(args@),
            ts.len() == args@.len(),
            i <= args@.len(),
            payload_seen == (payloads_upto(ts, i as int) >= 1),
            out@.len() == i,
            payloads_upto(ts, i as int) <= 1,
            out@.map_values(|a: WsArg| ws_arg_view(a)) == ts.take(i as int).map_values(
                |t: ShapeView| ws_arg_of(t),
            ),
        decreases args@.len() - i,
    {
        proof {
            crate::wire::lemma_views_index(args@, i as int);
        }
        let a = ws_arg(&args[i]);
        let injected = match &a {
            WsArg::Inject(_) => true,
            WsArg::Payload(_) => false,
        };
        if !injected {
            if payload_seen {
                proof {
                    assert(payloads_upto(ts, i + 1) == 2);
                    lemma_payloads_upto(ts, i + 1);
                    if one_payload_at_most(ts) {
                        assert forall|x: int, y: int|
                            0 <= x < y < i + 1 implies !(!(#[trigger] ws_arg_of(ts[x])).0 && !(
                        #[trigger] ws_arg_of(ts[y])).0) by {}
                        assert(false);
                    }
                }
                return Err(
                    owned(
                        "a ws message method takes at most one payload parameter (the frame carries one JSON payload); other parameters must be `Inject<T>`",
                    ),
                );
            }
            payload_seen = true;
        }
        let ghost before = out@;
        out.push(a);
        proof {
            assert(ts.take(i + 1) =~= ts.take(i as int).push(ts[i as int]));
            assert(ws_arg_view(out@[i as int]) == ws_arg_of(ts[i as int]));
            assert forall|k: int| 0 <= k < i implies ws_arg_view(#[trigger] out@[k]) == ws_arg_of(ts[k]) by {
                assert(out@[k] == before[k]);
                assert(before.map_values(|a: WsArg| ws_arg_view(a))[k] == ws_arg_view(before[k]));
                assert(ts.take(i as int).map_values(|t: ShapeView| ws_arg_of(t))[k] == ws_arg_of(ts[k]));
            }
            assert(out@.map_values(|a: WsArg| ws_arg_view(a)) =~= ts.take(i + 1).map_values(
                |t: ShapeView| ws_arg_of(t),
            ));
        }
        i = i + 1;
    }
    proof {
        assert(ts.take(args@.len() as int) =~= ts);
        lemma_payloads_upto(ts, ts.len() as int);
    }
    Ok(out)
}

/// The payload type of a message method: the type of its one argument that is not
/// `Inject<T>`, if any; a second such argument is refused.
pub fn ws_payload_type(args: &Vec<TypeShape>) -> (r: Result<Option<TypeShape>, String>)
    ensures
        ({
            let ts = crate::wire::shape_views(args@);
            &&& r is Ok <==> one_payload_at_most(ts)
            &&& r matches Ok(None) ==> forall|i: int| 0 <= i < ts.len() ==> (#[trigger] ws_arg_of(ts[i])).0
            &&& r matches Ok(Some(t)) ==> exists|i: int|
                0 <= i < ts.len() && !(#[trigger] ws_arg_of(ts[i])).0 && ts[i] == shape_view(t)
            &&& r matches Err(e) ==> e@ == two_payload_types_error()
        }),
{
    let ghost ts = crate::wire::shape_views(args@);
    let mut payload: Option<TypeShape> = None;
    let mut i: usize = 0;
    proof {
        if args@.len() > 0 {
            crate::wire::lemma_views_index(args@, 0);
        }
    }
    while i < args.len()
        invariant
            ts == crate::wire::shape_views(args@),
            ts.len() == args@.len(),
            i <= args@.len(),
            payloads_upto(ts, i as int) <= 1,
            payload is None <==> payloads_upto(ts, i as int) == 0,
            payload matches Some(t) ==> exists|k: int|
                0 <= k < i && !(#[trigger] ws_arg_of(ts[k])).0 && ts[k] == shape_view(t),
        decreases args@.len() - i,
    {
        proof {
            crate::wire::lemma_views_index(args@, i as int);
        }
        let a = ws_arg(&args[i]);
        match a {
            WsArg::Inject(_) => {},
            WsArg::Payload(t) => {
                if payload.is_some() {
                    proof {
                        assert(payloads_upto(ts, i + 1) == 2);
                        lemma_payloads_upto(ts, i + 1);
                        if one_payload_at_most(ts) {
                            assert forall|x: int, y: int|
                                0 <= x < y < i + 1 implies !(!(#[trigger] ws_arg_of(ts[x])).0 && !(
                            #[trigger] ws_arg_of(ts[y])).0) by {}
                            assert(false);
                        }
                    }
                    return Err(
                        owned(
                            "a ws message method takes at most one payload parameter (the frame carries one payload); other parameters must be `Inject<T>`",
                        ),
                    );
                }
                proof {
                    assert(!ws_arg_of(ts[i as int]).0 && ts[i as int] == shape_view(t));
                }
                payload = Some(t);
            },
        }
        i = i + 1;
    }
    proof {
        lemma_payloads_upto(ts, ts.len() as int);
    }
    Ok(payload)
}

/// What a message handler's success is: the type that is sent, whether an error of the
/// handler's `Result` is mapped to an application error, and whether a `Json` wrapper is
/// peeled off.
pub struct SuccessValue {
    pub ty: TypeShape,
    pub maps_error: bool,
    pub peels_json: bool,
}

/// The unit type.
pub open spec fn unit_view() -> ShapeView {
    ShapeView::Tuple { text: "()"@, elems: Seq::empty() }
}

/// The success of a handler with this return type (`None` for none): `()` for none; inside a
/// `Result`, its `Ok` type, with errors mapped; with `peel_json`, the type inside a `Json`.
pub open spec fn success_spec(output: Option<ShapeView>, peel_json: bool) -> (ShapeView, bool, bool) {
    match output {
        None => (unit_view(), false, false),
        Some(t) => {
            let (inner, maps) = match arg_of(t, "Result"@) {
                Some(ok) => (ok, true),
                None => (t, false),
            };
            match arg_of(inner, "Json"@) {
                Some(json) => if peel_json {
                    (json, maps, true)
                } else {
                    (inner, maps, false)
                },
                None => (inner, maps, false),
            }
        },
    }
}

/// The success value of a message handler, from its return type.
pub fn success_value(output: Option<&TypeShape>, peel_json: bool) -> (r: SuccessValue)
    ensures
        (shape_view(r.ty), r.maps_error, r.peels_json) == success_spec(
            match output {
                Some(t) => Some(shape_view(*t)),
                None => None,
            },
            peel_json,
        ),
{
    let t = match output {
        None => {
            proof {
                reveal_strlit("()");
            }
            let unit = TypeShape::Tuple { text: owned("()"), elems: Vec::new() };
            proof {
                assert(shape_view(unit) == unit_view()) by {
                    assert(crate::wire::shape_views(Seq::<TypeShape>::empty()) =~= Seq::<ShapeView>::empty());
                }
            }
            return SuccessValue { ty: unit, maps_error: false, peels_json: false };
        },
        Some(t) => t,
    };
    let (inner, maps_error) = match first_type_arg(t, "Result") {
        Some(ok) => (ok, true),
        None => (copy_shape(t), false),
    };
    match first_type_arg(&inner, "Json") {
        Some(json) => if peel_json {
            SuccessValue { ty: json, maps_error, peels_json: true }
        } else {
            SuccessValue { ty: inner, maps_error, peels_json: false }
        },
        None => SuccessValue { ty: inner, maps_error, peels_json: false },
    }
}

// ---------------------------------------------------------------------------------------------
// Unary client methods
// ---------------------------------------------------------------------------------------------

/// The parameters shared by a route's two unary client methods, and how the plain method
/// calls its per-call-header sibling.
pub struct UnaryPlan {
    /// `<method>_with_headers`.
    pub with_headers: String,
    /// The parameters after the receiver: the path parameters, then the query parameter.
    pub extra_args: Vec<(String, String)>,
    /// The arguments the plain method forwards: every extra parameter by name, then the
    /// request body.
    pub forward_args: Vec<String>,
}

/// The extra parameters of a unary method.
pub open spec fn unary_extra_args(
    path_args: Seq<(Seq<char>, Seq<char>)>,
    query_arg: Option<(Seq<char>, Seq<char>)>,
) -> Seq<(Seq<char>, Seq<char>)> {
    match query_arg {
        Some(q) => path_args.push(q),
        None => path_args,
    }
}

/// The arguments a plain unary method forwards.
pub open spec fn unary_forward_args(extra: Seq<(Seq<char>, Seq<char>)>, has_body: bool) -> Seq<Seq<char>> {
    let names = extra.map_values(|a: (Seq<char>, Seq<char>)| a.0);
    if has_body {
        names.push("request"@)
    } else {
        names
    }
}

/// Plans a route's unary client methods from its path parameters, its query parameter and
/// whether it sends a body.
pub fn unary_method_plan(
    method: &str,
    path_args: Vec<(String, String)>,
    query_arg: Option<(String, String)>,
    has_body: bool,
) -> (r: UnaryPlan)
    ensures
        r.with_headers@ == method@ + "_with_headers"@,
        crate::client::arg_views(r.extra_args@) == unary_extra_args(
            crate::client::arg_views(path_args@),
            match query_arg {
                Some(q) => Some((q.0@, q.1@)),
                None => None,
            },
        ),
        text_views(r.forward_args@) == unary_forward_args(
            crate::client::arg_views(r.extra_args@),
            has_body,
        ),
{
    let ghost pv = crate::client::arg_views(path_args@);
    let mut extra = path_args;
    match query_arg {
        Some(q) => {
            extra.push(q);
        },
        None => {},
    }
    proof {
        assert(crate::client::arg_views(extra@) =~= unary_extra_args(
            pv,
            match query_arg {
                Some(q) => Some((q.0@, q.1@)),
                None => None,
            },
        ));
    }
    let ghost ev = crate::client::arg_views(extra@);
    let mut forward: Vec<String> = Vec::new();
    let mut i: usize = 0;
    while i < extra.len()
        invariant
            ev == crate::client::arg_views(extra@),
            i <= extra@.len(),
            text_views(forward@) == ev.take(i as int).map_values(|a: (Seq<char>, Seq<char>)| a.0),
        decreases extra@.len() - i,
    {
        let ghost before = forward@;
        forward.push(owned(extra[i].0.as_str()));
        proof {
            assert(ev[i as int] == (extra@[i as int].0@, extra@[i as int].1@));
            assert(text_views(forward@) =~= text_views(before).push(ev[i as int].0));
            assert(ev.take(i + 1) =~= ev.take(i as int).push(ev[i as int]));
            assert(text_views(forward@) =~= ev.take(i + 1).map_values(|a: (Seq<char>, Seq<char>)| a.0));
        }
        i = i + 1;
    }
    proof {
        assert(ev.take(extra@.len() as int) =~= ev);
    }
    if has_body {
        forward.push(owned("request"));
        proof {
            assert(text_views(forward@) =~= unary_forward_args(ev, has_body));
        }
    }
    let with_headers = concat(method, "_with_headers");
    UnaryPlan { with_headers, extra_args: extra, forward_args: forward }
}

} // verus!
