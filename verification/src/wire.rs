//! Wire inputs and response bodies of HTTP handlers, read from their argument and return types.
use vstd::prelude::*;

use crate::text::{owned, text_eq};

verus! {

/// The shape of a Rust type as the route analysis reads it.
pub enum TypeShape {
    /// A path type: its token text, its last segment's identifier, and that segment's generic
    /// type arguments.
    Path { text: String, name: String, args: Vec<TypeShape> },
    /// A tuple type and its element types.
    Tuple { text: String, elems: Vec<TypeShape> },
    /// An `impl Trait` type.
    ImplTrait { text: String },
    /// Any other type.
    Other { text: String },
}

/// What a type shape holds, as texts.
pub enum ShapeView {
    Path { text: Seq<char>, name: Seq<char>, args: Seq<ShapeView> },
    Tuple { text: Seq<char>, elems: Seq<ShapeView> },
    ImplTrait { text: Seq<char> },
    Other { text: Seq<char> },
}

/// The view of a type shape.
pub open spec fn shape_view(t: TypeShape) -> ShapeView
    decreases t, 1nat,
{
    match t {
        TypeShape::Path { text, name, args } => ShapeView::Path {
            text: text@,
            name: name@,
            args: shape_views(args@),
        },
        TypeShape::Tuple { text, elems } => ShapeView::Tuple { text: text@, elems: shape_views(elems@) },
        TypeShape::ImplTrait { text } => ShapeView::ImplTrait { text: text@ },
        TypeShape::Other { text } => ShapeView::Other { text: text@ },
    }
}

/// The views of a sequence of type shapes.
pub open spec fn shape_views(s: Seq<TypeShape>) -> Seq<ShapeView>
    decreases s, 0nat,
{
    if s.len() == 0 {
        Seq::empty()
    } else {
        shape_views(s.drop_last()).push(shape_view(s.last()))
    }
}

proof fn lemma_views_push(s: Seq<TypeShape>, x: TypeShape)
    ensures
        shape_views(s.push(x)) == shape_views(s).push(shape_view(x)),
{
    assert(s.push(x).drop_last() =~= s);
}

pub proof fn lemma_views_index(s: Seq<TypeShape>, i: int)
    requires
        0 <= i < s.len(),
    ensures
        shape_views(s).len() == s.len(),
        shape_views(s)[i] == shape_view(s[i]),
    decreases s.len(),
{
    lemma_views_len(s);
    if i < s.len() - 1 {
        lemma_views_index(s.drop_last(), i);
    }
}

proof fn lemma_views_len(s: Seq<TypeShape>)
    ensures
        shape_views(s).len() == s.len(),
    decreases s.len(),
{
    if s.len() > 0 {
        lemma_views_len(s.drop_last());
    }
}

/// A copy of a type shape.
pub fn copy_shape(t: &TypeShape) -> (r: TypeShape)
    ensures
        shape_view(r) == shape_view(*t),
    decreases t,
{
    match t {
        TypeShape::Path { text, name, args } => TypeShape::Path {
            text: owned(text.as_str()),
            name: owned(name.as_str()),
            args: copy_shapes(args),
        },
        TypeShape::Tuple { text, elems } => TypeShape::Tuple {
            text: owned(text.as_str()),
            elems: copy_shapes(elems),
        },
        TypeShape::ImplTrait { text } => TypeShape::ImplTrait { text: owned(text.as_str()) },
        TypeShape::Other { text } => TypeShape::Other { text: owned(text.as_str()) },
    }
}

/// A copy of a list of type shapes.
pub fn copy_shapes(v: &Vec<TypeShape>) -> (r: Vec<TypeShape>)
    ensures
        shape_views(r@) == shape_views(v@),
    decreases v,
{
    let mut r: Vec<TypeShape> = Vec::new();
    let mut i: usize = 0;
    proof {
        assert(v@.take(0) =~= Seq::<TypeShape>::empty());
    }
    while i < v.len()
        invariant
            i <= v@.len(),
            shape_views(r@) == shape_views(v@.take(i as int)),
        decreases v@.len() - i,
    {
        proof {
            assert(decreases_to!(v => v@));
            assert(decreases_to!(v@ => v@[i as int]));
        }
        let c = copy_shape(&v[i]);
        proof {
            lemma_views_push(r@, c);
            assert(v@.take(i + 1).drop_last() =~= v@.take(i as int));
            assert(v@.take(i + 1).last() == v@[i as int]);
        }
        r.push(c);
        i = i + 1;
    }
    proof {
        assert(v@.take(v@.len() as int) =~= v@);
    }
    r
}

/// The identifier of a path type's last segment.
pub open spec fn name_of(v: ShapeView) -> Option<Seq<char>> {
    match v {
        ShapeView::Path { name, .. } => Some(name),
        _ => None,
    }
}

/// The first type argument of a path type whose last segment is `wrapper`.
pub open spec fn arg_of(v: ShapeView, wrapper: Seq<char>) -> Option<ShapeView> {
    match v {
        ShapeView::Path { name, args, .. } => if name == wrapper && args.len() > 0 {
            Some(args[0])
        } else {
            None
        },
        _ => None,
    }
}

/// Whether a response type is opaque to clients: `impl Trait`, or a `Response`, `Html` or
/// `Redirect` path.
pub open spec fn opaque_spec(v: ShapeView) -> bool {
    match v {
        ShapeView::ImplTrait { .. } => true,
        ShapeView::Path { name, .. } => name == "Response"@ || name == "Html"@ || name == "Redirect"@,
        _ => false,
    }
}

/// The identifier of a path type's last segment.
pub fn shape_name(t: &TypeShape) -> (r: Option<&str>)
    ensures
        match r {
            Some(n) => name_of(shape_view(*t)) == Some(n@),
            None => name_of(shape_view(*t)) is None,
        },
{
    match t {
        TypeShape::Path { name, .. } => Some(name.as_str()),
        _ => None,
    }
}

/// The first type argument of `t` when `t` is a `wrapper<..>` path.
pub fn first_type_arg(t: &TypeShape, wrapper: &str) -> (r: Option<TypeShape>)
    ensures
        match r {
            Some(a) => arg_of(shape_view(*t), wrapper@) == Some(shape_view(a)),
            None => arg_of(shape_view(*t), wrapper@) is None,
        },
{
    match t {
        TypeShape::Path { name, args, .. } => {
            if text_eq(name.as_str(), wrapper) && args.len() > 0 {
                proof {
                    lemma_views_index(args@, 0);
                }
                Some(copy_shape(&args[0]))
            } else {
                proof {
                    lemma_views_len(args@);
                }
                None
            }
        },
        _ => None,
    }
}

/// Whether a response type is opaque to clients.
pub fn is_opaque_response(t: &TypeShape) -> (r: bool)
    ensures
        r == opaque_spec(shape_view(*t)),
{
    match t {
        TypeShape::ImplTrait { .. } => true,
        TypeShape::Path { name, .. } => text_eq(name.as_str(), "Response") || text_eq(
            name.as_str(),
            "Html",
        ) || text_eq(name.as_str(), "Redirect"),
        _ => false,
    }
}

/// The payload type a client decodes from a response type: inside any `Result`, the last
/// element of a tuple (recursively), the `T` of `Json<T>`, or the type itself unless it is an
/// opaque response; `()` for an empty tuple.
pub open spec fn body_type_spec(v: ShapeView) -> Option<ShapeView>
    decreases v,
{
    let inner = match arg_of(v, "Result"@) {
        Some(a) => a,
        None => v,
    };
    match inner {
        ShapeView::Tuple { elems, .. } => if elems.len() > 0 {
            body_type_spec(elems.last())
        } else {
            Some(inner)
        },
        _ => match arg_of(inner, "Json"@) {
            Some(j) => Some(j),
            None => if !opaque_spec(inner) && name_of(inner) != Some("Html"@) && name_of(inner)
                != Some("Redirect"@) {
                Some(inner)
            } else {
                None
            },
        },
    }
}

/// A reference to the first type argument of `t` when `t` is a `wrapper<..>` path.
fn first_type_arg_ref<'a>(t: &'a TypeShape, wrapper: &str) -> (r: Option<&'a TypeShape>)
    ensures
        match r {
            Some(a) => t matches TypeShape::Path { name, args, .. } && name@ == wrapper@
                && args@.len() > 0 && *a == args@[0],
            None => arg_of(shape_view(*t), wrapper@) is None,
        },
{
    match t {
        TypeShape::Path { name, args, .. } => {
            if text_eq(name.as_str(), wrapper) && args.len() > 0 {
                Some(&args[0])
            } else {
                proof {
                    lemma_views_len(args@);
                }
                None
            }
        },
        _ => None,
    }
}

/// The payload type a client decodes from a response type, if it has one.
pub fn response_body_type(t: &TypeShape) -> (r: Option<TypeShape>)
    ensures
        match r {
            Some(b) => body_type_spec(shape_view(*t)) == Some(shape_view(b)),
            None => body_type_spec(shape_view(*t)) is None,
        },
    decreases t,
{
    let unwrapped = first_type_arg_ref(t, "Result");
    proof {
        if unwrapped is Some {
            let args = t->Path_args;
            lemma_views_index(args@, 0);
            assert(decreases_to!(*t => args));
            assert(decreases_to!(args => args@));
            assert(decreases_to!(args@ => args@[0]));
        }
    }
    let inner: &TypeShape = match unwrapped {
        Some(a) => a,
        None => t,
    };
    match inner {
        TypeShape::Tuple { elems, .. } => {
            if elems.len() > 0 {
                let k = elems.len() - 1;
                proof {
                    lemma_views_index(elems@, k as int);
                    assert(decreases_to!(*inner => elems));
                    assert(decreases_to!(elems => elems@));
                    assert(decreases_to!(elems@ => elems@[k as int]));
                }
                return response_body_type(&elems[k]);
            }
            proof {
                lemma_views_len(elems@);
            }
            Some(copy_shape(inner))
        },
        _ => match first_type_arg(inner, "Json") {
            Some(j) => Some(j),
            None => {
                let keep = !is_opaque_response(inner) && match shape_name(inner) {
                    Some(n) => !text_eq(n, "Html") && !text_eq(n, "Redirect"),
                    None => true,
                };
                if keep {
                    Some(copy_shape(inner))
                } else {
                    None
                }
            },
        },
    }
}

/// The unit type `()`.
pub open spec fn unit_view() -> ShapeView {
    ShapeView::Tuple { text: "()"@, elems: Seq::empty() }
}

/// The response type of a handler with the given declared return type (`None` for no return
/// type): its payload type when it has one, else the declared type itself.
pub open spec fn response_type_spec(output: Option<ShapeView>) -> ShapeView {
    match output {
        None => unit_view(),
        Some(v) => match body_type_spec(v) {
            Some(b) => b,
            None => v,
        },
    }
}

/// The response type of a handler, from its declared return type.
pub fn response_type(output: Option<&TypeShape>) -> (r: TypeShape)
    ensures
        shape_view(r) == response_type_spec(
            match output {
                Some(t) => Some(shape_view(*t)),
                None => None,
            },
        ),
{
    match output {
        None => {
            let r = TypeShape::Tuple { text: owned("()"), elems: Vec::new() };
            proof {
                assert(shape_views(Seq::<TypeShape>::empty()) == Seq::<ShapeView>::empty());
                assert(shape_view(r) == unit_view());
            }
            r
        },
        Some(declared) => match response_body_type(declared) {
            Some(b) => b,
            None => copy_shape(declared),
        },
    }
}

/// A type with request-extractor combinators (`Cached<T>`, `WithRejection<T, R>`) peeled off.
pub open spec fn peel_spec(v: ShapeView) -> ShapeView
    decreases v,
{
    match v {
        ShapeView::Path { name, args, .. } => if (name == "Cached"@ || name == "WithRejection"@)
            && args.len() > 0 {
            peel_spec(args[0])
        } else {
            v
        },
        _ => v,
    }
}

/// Peels request-extractor combinators off a type.
pub fn peel_request_combinator(t: &TypeShape) -> (r: &TypeShape)
    ensures
        shape_view(*r) == peel_spec(shape_view(*t)),
    decreases t,
{
    match t {
        TypeShape::Path { name, args, .. } => {
            proof {
                lemma_views_len(args@);
            }
            if (text_eq(name.as_str(), "Cached") || text_eq(name.as_str(), "WithRejection"))
                && args.len() > 0 {
                proof {
                    lemma_views_index(args@, 0);
                    assert(decreases_to!(*t => args));
                    assert(decreases_to!(args => args@));
                    assert(decreases_to!(args@ => args@[0]));
                }
                peel_request_combinator(&args[0])
            } else {
                t
            }
        },
        _ => t,
    }
}

/// A route's query input: a typed `Query<T>` or the raw query string.
pub enum QueryInput {
    Typed(TypeShape),
    Raw,
}

/// Which client body wrapper a route body uses.
#[derive(Clone, Copy, Debug, PartialEq, Eq, Structural)]
pub enum BodyKind {
    Json,
    Form,
    Bytes,
    RawForm,
    Multipart,
}

/// A route's request body and, for serde bodies, its payload type.
pub struct Body {
    pub kind: BodyKind,
    pub inner: Option<TypeShape>,
}

/// The classified client inputs of a route.
pub struct Inputs {
    pub path_ty: Option<TypeShape>,
    pub query: Option<QueryInput>,
    pub body: Option<Body>,
}

/// What a query input holds.
pub enum QueryView {
    Typed(ShapeView),
    Raw,
}

/// What a route's classified inputs hold.
pub struct InputsView {
    pub path_ty: Option<ShapeView>,
    pub query: Option<QueryView>,
    pub body: Option<(BodyKind, Option<ShapeView>)>,
}

/// The view of an optional type shape.
pub open spec fn opt_shape(t: Option<TypeShape>) -> Option<ShapeView> {
    match t {
        Some(x) => Some(shape_view(x)),
        None => None,
    }
}

/// The view of classified inputs.
pub open spec fn inputs_view(i: Inputs) -> InputsView {
    InputsView {
        path_ty: opt_shape(i.path_ty),
        query: match i.query {
            Some(QueryInput::Typed(t)) => Some(QueryView::Typed(shape_view(t))),
            Some(QueryInput::Raw) => Some(QueryView::Raw),
            None => None,
        },
        body: match i.body {
            Some(b) => Some((b.kind, opt_shape(b.inner))),
            None => None,
        },
    }
}

/// Extractors whose wire data a generated client cannot encode; a route using one gets no
/// client method.
pub open spec fn unsupported_wire(name: Seq<char>) -> bool {
    name == "Request"@ || name == "RawRequest"@ || name == "Either"@ || name == "Either3"@ || name
        == "Either4"@ || name == "Either5"@ || name == "Either6"@ || name == "Either7"@ || name
        == "Either8"@ || name == "JsonLines"@ || name == "OptionalPath"@ || name
        == "OptionalQuery"@ || name == "Protobuf"@
}

/// Records a body, refusing a second one.
pub open spec fn with_body(s: InputsView, kind: BodyKind, inner: Option<ShapeView>) -> Option<
    InputsView,
> {
    if s.body is Some {
        None
    } else {
        Some(InputsView { body: Some((kind, inner)), ..s })
    }
}

/// Classifies one more handler argument, or gives up (`None`) when a wire slot is taken twice
/// or the argument's wire data cannot be encoded; server-only arguments change nothing.
pub open spec fn classify_step(st: Option<InputsView>, t: ShapeView) -> Option<InputsView> {
    match st {
        None => None,
        Some(s) => {
            let ty = peel_spec(t);
            if arg_of(ty, "Path"@) is Some {
                if s.path_ty is Some {
                    None
                } else {
                    Some(InputsView { path_ty: arg_of(ty, "Path"@), ..s })
                }
            } else if arg_of(ty, "Query"@) is Some {
                if s.query is Some {
                    None
                } else {
                    Some(InputsView { query: Some(QueryView::Typed(arg_of(ty, "Query"@).unwrap())), ..s })
                }
            } else if arg_of(ty, "Json"@) is Some {
                with_body(s, BodyKind::Json, arg_of(ty, "Json"@))
            } else if arg_of(ty, "JsonDeserializer"@) is Some {
                with_body(s, BodyKind::Json, arg_of(ty, "JsonDeserializer"@))
            } else if arg_of(ty, "Form"@) is Some {
                with_body(s, BodyKind::Form, arg_of(ty, "Form"@))
            } else {
                match name_of(ty) {
                    Some(n) => if n == "RawQuery"@ {
                        if s.query is Some {
                            None
                        } else {
                            Some(InputsView { query: Some(QueryView::Raw), ..s })
                        }
                    } else if n == "Bytes"@ {
                        with_body(s, BodyKind::Bytes, None)
                    } else if n == "RawForm"@ {
                        with_body(s, BodyKind::RawForm, None)
                    } else if n == "Multipart"@ {
                        with_body(s, BodyKind::Multipart, None)
                    } else if unsupported_wire(n) {
                        None
                    } else {
                        Some(s)
                    },
                    None => Some(s),
                }
            }
        },
    }
}

/// The classification of a handler's arguments, in order.
pub open spec fn classify_spec(args: Seq<ShapeView>) -> Option<InputsView>
    decreases args.len(),
{
    if args.len() == 0 {
        Some(InputsView { path_ty: None, query: None, body: None })
    } else {
        classify_step(classify_spec(args.drop_last()), args.last())
    }
}

proof fn lemma_classify_none(args: Seq<ShapeView>, i: int)
    requires
        0 <= i <= args.len(),
        classify_spec(args.take(i)) is None,
    ensures
        classify_spec(args) is None,
    decreases args.len() - i,
{
    if i < args.len() {
        assert(args.take(i + 1).drop_last() =~= args.take(i));
        lemma_classify_none(args, i + 1);
    } else {
        assert(args.take(i) =~= args);
    }
}

fn set_body(slot: &mut Option<Body>, kind: BodyKind, inner: Option<TypeShape>) -> (ok: bool)
    ensures
        ok == (*old(slot) is None),
        ok ==> (*final(slot) matches Some(b) && b.kind == kind && opt_shape(b.inner) == opt_shape(inner)),
        !ok ==> *final(slot) == *old(slot),
{
    if slot.is_some() {
        return false;
    }
    *slot = Some(Body { kind, inner });
    true
}

/// Classifies a route handler's arguments into client inputs: its `Path` type, a typed or raw
/// query, and a request body. Server-only arguments (injection, state, custom guards) are
/// dropped; `None` when two arguments take the same slot or one carries wire data the client
/// cannot encode.
pub fn classify(args: &Vec<TypeShape>) -> (r: Option<Inputs>)
    ensures
        match r {
            Some(i) => classify_spec(shape_views(args@)) == Some(inputs_view(i)),
            None => classify_spec(shape_views(args@)) is None,
        },
{
    let ghost all = shape_views(args@);
    let mut path_ty: Option<TypeShape> = None;
    let mut query: Option<QueryInput> = None;
    let mut body: Option<Body> = None;
    let mut i: usize = 0;
    proof {
        lemma_views_len(args@);
        assert(all.take(0) =~= Seq::<ShapeView>::empty());
    }
    while i < args.len()
        invariant
            all == shape_views(args@),
            all.len() == args@.len(),
            i <= args@.len(),
            classify_spec(all.take(i as int)) == Some(
                inputs_view(Inputs { path_ty, query, body }),
            ),
        decreases args@.len() - i,
    {
        let ghost before = inputs_view(Inputs { path_ty, query, body });
        let ghost t = all[i as int];
        proof {
            lemma_views_index(args@, i as int);
            assert(all.take(i + 1).drop_last() =~= all.take(i as int));
            assert(all.take(i + 1).last() == t);
        }
        let ty = peel_request_combinator(&args[i]);
        let ghost pv = peel_spec(t);
        if let Some(inner) = first_type_arg(ty, "Path") {
            if path_ty.is_some() {
                proof {
                    lemma_classify_none(all, i + 1);
                }
                return None;
            }
            path_ty = Some(inner);
        } else if let Some(inner) = first_type_arg(ty, "Query") {
            if query.is_some() {
                proof {
                    lemma_classify_none(all, i + 1);
                }
                return None;
            }
            query = Some(QueryInput::Typed(inner));
        } else if let Some(inner) = first_type_arg(ty, "Json") {
            if !set_body(&mut body, BodyKind::Json, Some(inner)) {
                proof {
                    lemma_classify_none(all, i + 1);
                }
                return None;
            }
        } else if let Some(inner) = first_type_arg(ty, "JsonDeserializer") {
            if !set_body(&mut body, BodyKind::Json, Some(inner)) {
                proof {
                    lemma_classify_none(all, i + 1);
                }
                return None;
            }
        } else if let Some(inner) = first_type_arg(ty, "Form") {
            if !set_body(&mut body, BodyKind::Form, Some(inner)) {
                proof {
                    lemma_classify_none(all, i + 1);
                }
                return None;
            }
        } else {
            match shape_name(ty) {
                Some(n) => {
                    if text_eq(n, "RawQuery") {
                        if query.is_some() {
                            proof {
                                lemma_classify_none(all, i + 1);
                            }
                            return None;
                        }
                        query = Some(QueryInput::Raw);
                    } else if text_eq(n, "Bytes") {
                        if !set_body(&mut body, BodyKind::Bytes, None) {
                            proof {
                                lemma_classify_none(all, i + 1);
                            }
                            return None;
                        }
                    } else if text_eq(n, "RawForm") {
                        if !set_body(&mut body, BodyKind::RawForm, None) {
                            proof {
                                lemma_classify_none(all, i + 1);
                            }
                            return None;
                        }
                    } else if text_eq(n, "Multipart") {
                        if !set_body(&mut body, BodyKind::Multipart, None) {
                            proof {
                                lemma_classify_none(all, i + 1);
                            }
                            return None;
                        }
                    } else if is_unsupported_wire(n) {
                        proof {
                            lemma_classify_none(all, i + 1);
                        }
                        return None;
                    }
                },
                None => {},
            }
        }
        proof {
            assert(classify_step(Some(before), t) == Some(inputs_view(Inputs { path_ty, query, body })));
        }
        i = i + 1;
    }
    proof {
        assert(all.take(args@.len() as int) =~= all);
    }
    Some(Inputs { path_ty, query, body })
}

/// Whether an extractor name carries wire data a generated client cannot encode.
pub fn is_unsupported_wire(name: &str) -> (r: bool)
    ensures
        r == unsupported_wire(name@),
{
    text_eq(name, "Request") || text_eq(name, "RawRequest") || text_eq(name, "Either") || text_eq(
        name,
        "Either3",
    ) || text_eq(name, "Either4") || text_eq(name, "Either5") || text_eq(name, "Either6")
        || text_eq(name, "Either7") || text_eq(name, "Either8") || text_eq(name, "JsonLines")
        || text_eq(name, "OptionalPath") || text_eq(name, "OptionalQuery") || text_eq(
        name,
        "Protobuf",
    )
}


/// The wire types a route contributes for its `Dto` assertions: its `Path` type, typed query
/// and serde body (when its inputs classify), then its response type unless opaque.
pub open spec fn wire_types_spec(args: Seq<ShapeView>, output: Option<ShapeView>) -> Seq<ShapeView> {
    match classify_spec(args) {
        None => Seq::empty(),
        Some(i) => {
            let p = match i.path_ty {
                Some(t) => seq![t],
                None => Seq::empty(),
            };
            let q = match i.query {
                Some(QueryView::Typed(t)) => seq![t],
                _ => Seq::empty(),
            };
            let b = match i.body {
                Some((_, Some(t))) => seq![t],
                _ => Seq::empty(),
            };
            let response = response_type_spec(output);
            let r = if opaque_spec(response) {
                Seq::empty()
            } else {
                seq![response]
            };
            p + q + b + r
        },
    }
}

/// The wire types a route's inputs contribute: its `Path` type, typed query and serde body,
/// when its inputs classify.
pub open spec fn input_wire_types(args: Seq<ShapeView>) -> Seq<ShapeView> {
    match classify_spec(args) {
        None => Seq::empty(),
        Some(i) => {
            let p = match i.path_ty {
                Some(t) => seq![t],
                None => Seq::empty(),
            };
            let q = match i.query {
                Some(QueryView::Typed(t)) => seq![t],
                _ => Seq::empty(),
            };
            let b = match i.body {
                Some((_, Some(t))) => seq![t],
                _ => Seq::empty(),
            };
            p + q + b
        },
    }
}

/// Whether a response type is one a client cannot decode: axum's `Response`, `Html` or
/// `Redirect`, or an `impl Trait`.
pub open spec fn undecodable_response(v: ShapeView) -> bool {
    ||| v is ImplTrait
    ||| v matches ShapeView::Path { name, .. } && (name == "Response"@ || name == "Html"@ || name
        == "Redirect"@)
}

/// A response type a client cannot decode (`Response`, `Html`, `Redirect` or an `impl Trait`)
/// is opaque to clients: it yields no response body type, it is the route's response type as
/// declared, and a route returning it contributes only its input wire types.
pub proof fn law_opaque_responses_stay_out_of_wire_types(v: ShapeView, args: Seq<ShapeView>)
    requires
        undecodable_response(v),
    ensures
        body_type_spec(v) is None,
        response_type_spec(Some(v)) == v,
        wire_types_spec(args, Some(v)) == input_wire_types(args),
{
    reveal_strlit("Response");
    reveal_strlit("Html");
    reveal_strlit("Redirect");
    reveal_strlit("Result");
    reveal_strlit("Json");
    assert("Response"@.len() == 8 && "Response"@[2] == 's');
    assert("Redirect"@.len() == 8 && "Redirect"@[2] == 'd');
    assert("Result"@.len() == 6);
    assert("Html"@.len() == 4 && "Html"@[0] == 'H');
    assert("Json"@.len() == 4 && "Json"@[0] == 'J');
    assert(arg_of(v, "Result"@) is None);
    assert(arg_of(v, "Json"@) is None);
    assert(body_type_spec(v) is None);
    match classify_spec(args) {
        None => {},
        Some(i) => {
            assert(wire_types_spec(args, Some(v)) =~= input_wire_types(args));
        },
    }
}

/// Appends a route's wire types to `sink` (only when client generation is enabled).
pub fn collect_wire_types(
    client_enabled: bool,
    args: &Vec<TypeShape>,
    output: Option<&TypeShape>,
    sink: &mut Vec<TypeShape>,
)
    ensures
        shape_views(final(sink)@) == shape_views(old(sink)@) + (if client_enabled {
            wire_types_spec(
                shape_views(args@),
                match output {
                    Some(t) => Some(shape_view(*t)),
                    None => None,
                },
            )
        } else {
            Seq::empty()
        }),
{
    let ghost start = shape_views(sink@);
    let ghost out = match output {
        Some(t) => Some(shape_view(*t)),
        None => None,
    };
    if !client_enabled {
        proof {
            assert(start + Seq::<ShapeView>::empty() =~= start);
        }
        return;
    }
    let inputs = match classify(args) {
        Some(i) => i,
        None => {
            proof {
                assert(start + Seq::<ShapeView>::empty() =~= start);
            }
            return;
        },
    };
    let ghost iv = inputs_view(inputs);
    let Inputs { path_ty, query, body } = inputs;
    let ghost s1 = shape_views(sink@);
    if let Some(p) = path_ty {
        proof {
            lemma_views_push(sink@, p);
        }
        sink.push(p);
    }
    let ghost s2 = shape_views(sink@);
    if let Some(QueryInput::Typed(q)) = query {
        proof {
            lemma_views_push(sink@, q);
        }
        sink.push(q);
    }
    let ghost s3 = shape_views(sink@);
    if let Some(Body { inner: Some(b), .. }) = body {
        proof {
            lemma_views_push(sink@, b);
        }
        sink.push(b);
    }
    let ghost s4 = shape_views(sink@);
    let response = response_type(output);
    if !is_opaque_response(&response) {
        proof {
            lemma_views_push(sink@, response);
        }
        sink.push(response);
    }
    proof {
        let want = wire_types_spec(shape_views(args@), out);
        let p = match iv.path_ty {
            Some(t) => seq![t],
            None => Seq::<ShapeView>::empty(),
        };
        let q = match iv.query {
            Some(QueryView::Typed(t)) => seq![t],
            _ => Seq::<ShapeView>::empty(),
        };
        let b = match iv.body {
            Some((_, Some(t))) => seq![t],
            _ => Seq::<ShapeView>::empty(),
        };
        assert(s2 =~= start + p);
        assert(s3 =~= start + p + q);
        assert(s4 =~= start + p + q + b);
        assert(shape_views(sink@) =~= start + want);
    }
}

/// Where a route input comes from, as the route analysis names it, given the (peeled) type.
pub open spec fn input_source_spec(ty: ShapeView) -> (Seq<char>, ShapeView) {
    if arg_of(ty, "Path"@) is Some {
        ("Path"@, arg_of(ty, "Path"@).unwrap())
    } else if arg_of(ty, "Query"@) is Some {
        ("Query"@, arg_of(ty, "Query"@).unwrap())
    } else if arg_of(ty, "TypedHeader"@) is Some {
        ("Header"@, arg_of(ty, "TypedHeader"@).unwrap())
    } else if arg_of(ty, "Json"@) is Some {
        ("JsonBody"@, arg_of(ty, "Json"@).unwrap())
    } else if arg_of(ty, "TypedJson"@) is Some {
        ("JsonBody"@, arg_of(ty, "TypedJson"@).unwrap())
    } else if arg_of(ty, "JsonDeserializer"@) is Some {
        ("JsonBody"@, arg_of(ty, "JsonDeserializer"@).unwrap())
    } else if arg_of(ty, "Protobuf"@) is Some {
        ("BytesBody"@, arg_of(ty, "Protobuf"@).unwrap())
    } else if arg_of(ty, "Form"@) is Some {
        ("FormBody"@, arg_of(ty, "Form"@).unwrap())
    } else if arg_of(ty, "Inject"@) is Some {
        ("Injected"@, arg_of(ty, "Inject"@).unwrap())
    } else if arg_of(ty, "Extension"@) is Some {
        ("Context"@, arg_of(ty, "Extension"@).unwrap())
    } else {
        let source = match name_of(ty) {
            Some(n) => if n == "HeaderMap"@ {
                "Header"@
            } else if n == "Bytes"@ {
                "BytesBody"@
            } else if n == "RawForm"@ {
                "RawFormBody"@
            } else if n == "Multipart"@ {
                "MultipartBody"@
            } else if n == "JsonLines"@ {
                "Stream"@
            } else {
                "Context"@
            },
            None => "Context"@,
        };
        (source, ty)
    }
}

/// Classifies one handler input for route metadata: its source (path, query, header, body
/// kinds, injected or context) and the type it carries, combinators peeled.
pub fn input_source(t: &TypeShape) -> (r: (&'static str, TypeShape))
    ensures
        (r.0@, shape_view(r.1)) == input_source_spec(peel_spec(shape_view(*t))),
{
    let ty = peel_request_combinator(t);
    if let Some(inner) = first_type_arg(ty, "Path") {
        return ("Path", inner);
    }
    if let Some(inner) = first_type_arg(ty, "Query") {
        return ("Query", inner);
    }
    if let Some(inner) = first_type_arg(ty, "TypedHeader") {
        return ("Header", inner);
    }
    if let Some(inner) = first_type_arg(ty, "Json") {
        return ("JsonBody", inner);
    }
    if let Some(inner) = first_type_arg(ty, "TypedJson") {
        return ("JsonBody", inner);
    }
    if let Some(inner) = first_type_arg(ty, "JsonDeserializer") {
        return ("JsonBody", inner);
    }
    if let Some(inner) = first_type_arg(ty, "Protobuf") {
        return ("BytesBody", inner);
    }
    if let Some(inner) = first_type_arg(ty, "Form") {
        return ("FormBody", inner);
    }
    if let Some(inner) = first_type_arg(ty, "Inject") {
        return ("Injected", inner);
    }
    if let Some(inner) = first_type_arg(ty, "Extension") {
        return ("Context", inner);
    }
    let source: &'static str = match shape_name(ty) {
        Some(n) => if text_eq(n, "HeaderMap") {
            "Header"
        } else if text_eq(n, "Bytes") {
            "BytesBody"
        } else if text_eq(n, "RawForm") {
            "RawFormBody"
        } else if text_eq(n, "Multipart") {
            "MultipartBody"
        } else if text_eq(n, "JsonLines") {
            "Stream"
        } else {
            "Context"
        },
        None => "Context",
    };
    (source, copy_shape(ty))
}

} // verus!
