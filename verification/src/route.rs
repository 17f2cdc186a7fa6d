//! Route, message and DTO attribute arguments of controller methods.
//!
//! A controller method is bound to a route by a verb shorthand (`#[get("/{id}")]`, `#[post]`,
//! ...) or the raw `#[route(METHOD, "/path")]`, optionally followed by the modifiers `streamed`
//! and `middleware = [..]`; a WebSocket handler by `#[message("dest"[, send|request])]`; a wire
//! type by `#[dto]` or `#[dto(no_serde)]`. The token-level reading of these attributes happens
//! before; this module interprets what was read.
use vstd::prelude::*;

use crate::text::{concat, concat3, owned, text_eq, text_views};

verus! {

/// The HTTP verbs with a routing constructor, in their documented order.
pub open spec fn verbs() -> Seq<Seq<char>> {
    seq!["get"@, "post"@, "put"@, "delete"@, "patch"@, "head"@, "options"@]
}

/// The attribute names a `#[handlers]` block claims as route bindings: the verbs and `route`.
pub open spec fn route_attr_names() -> Seq<Seq<char>> {
    verbs().push("route"@)
}

/// The verbs, as texts.
pub fn verb_names() -> (r: Vec<&'static str>)
    ensures
        r@.len() == verbs().len(),
        forall|i: int| 0 <= i < r@.len() ==> (#[trigger] r@[i])@ == verbs()[i],
{
    let mut r: Vec<&'static str> = Vec::new();
    r.push("get");
    r.push("post");
    r.push("put");
    r.push("delete");
    r.push("patch");
    r.push("head");
    r.push("options");
    r
}

fn contains_text(names: &Vec<&'static str>, s: &str) -> (r: bool)
    ensures
        r == exists|i: int| 0 <= i < names@.len() && (#[trigger] names@[i])@ == s@,
{
    let mut i: usize = 0;
    while i < names.len()
        invariant
            i <= names@.len(),
            forall|j: int| 0 <= j < i ==> (#[trigger] names@[j])@ != s@,
        decreases names@.len() - i,
    {
        let name: &str = names[i];
        if text_eq(name, s) {
            return true;
        }
        i = i + 1;
    }
    false
}

/// Whether an attribute with this (single-identifier) path is a route binding; `None` stands for
/// an attribute whose path is not a single identifier.
pub fn is_route_attr(name: Option<&str>) -> (r: bool)
    ensures
        r == (name matches Some(n) && route_attr_names().contains(n@)),
{
    match name {
        Some(n) => {
            let mut names = verb_names();
            names.push("route");
            let found = contains_text(&names, n);
            proof {
                assert(names@.len() == route_attr_names().len());
                assert forall|i: int| 0 <= i < names@.len() implies (#[trigger] names@[i])@
                    == route_attr_names()[i] by {}
                if found {
                    let i = choose|i: int| 0 <= i < names@.len() && (#[trigger] names@[i])@ == n@;
                    assert(route_attr_names()[i] == n@);
                } else {
                    assert forall|i: int| 0 <= i < route_attr_names().len() implies
                        route_attr_names()[i] != n@ by {
                        assert(names@[i]@ == route_attr_names()[i]);
                    }
                }
            }
            found
        },
        None => false,
    }
}

/// Whether an attribute with this path is the WebSocket `#[message]` binding.
pub fn is_message_attr(name: Option<&str>) -> (r: bool)
    ensures
        r == (name matches Some(n) && n@ == "message"@),
{
    match name {
        Some(n) => text_eq(n, "message"),
        None => false,
    }
}

/// The text of `str::to_lowercase` (Unicode lowercase mapping).
pub uninterp spec fn unicode_lowercase(s: Seq<char>) -> Seq<char>;

/// `str::to_lowercase`; the Unicode case mapping is named, not restated.
#[verifier::external_body]
fn lowercase(s: &str) -> (r: String)
    ensures
        r@ == unicode_lowercase(s@),
{
    s.to_lowercase()
}

/// `get, post, put, delete, patch, head, options`.
pub open spec fn verb_list_text() -> Seq<char> {
    "get, post, put, delete, patch, head, options"@
}

/// The message rejecting an unsupported raw `route` method.
pub open spec fn unsupported_method_message(method: Seq<char>) -> Seq<char> {
    "unsupported HTTP method `"@ + method + "`; expected one of: "@ + verb_list_text()
}

/// Lowercases a raw `#[route(METHOD, ..)]` method and accepts it if it names a verb.
pub fn normalize_verb(method: &str) -> (r: Result<String, String>)
    ensures
        verbs().contains(unicode_lowercase(method@)) ==> (r matches Ok(v) && v@ == unicode_lowercase(
            method@,
        )),
        !verbs().contains(unicode_lowercase(method@)) ==> (r matches Err(m) && m@
            == unsupported_method_message(method@)),
{
    let lowered = lowercase(method);
    let names = verb_names();
    let known = contains_text(&names, lowered.as_str());
    proof {
        if known {
            let i = choose|i: int| 0 <= i < names@.len() && (#[trigger] names@[i])@ == lowered@;
            assert(verbs()[i] == lowered@);
        } else {
            assert forall|i: int| 0 <= i < verbs().len() implies verbs()[i] != lowered@ by {
                assert(names@[i]@ == verbs()[i]);
            }
        }
    }
    if !known {
        let mut m = concat3("unsupported HTTP method `", method, "`; expected one of: ");
        m.append("get, post, put, delete, patch, head, options");
        return Err(m);
    }
    Ok(lowered)
}

/// How a `#[message]` handler's client method is shaped.
#[derive(Clone, Copy, Debug, PartialEq, Eq, Structural)]
pub enum MessageMode {
    /// Infer from the return type: `()` is a fire-and-forget send, anything else a request.
    Infer,
    /// Force a fire-and-forget send.
    Send,
    /// Force a request/response.
    Request,
}

/// The message rejecting an unknown `#[message]` flag.
pub open spec fn unknown_message_flag() -> Seq<char> {
    "unknown #[message] flag; expected `send` or `request`"@
}

/// The mode of `#[message("dest"[, flag])]`: inferred without a flag, `send` or `request` as
/// named, and an error for any other flag.
pub fn message_mode(flag: Option<&str>) -> (r: Result<MessageMode, String>)
    ensures
        match flag {
            None => r == Ok::<MessageMode, String>(MessageMode::Infer),
            Some(f) => if f@ == "send"@ {
                r == Ok::<MessageMode, String>(MessageMode::Send)
            } else if f@ == "request"@ {
                r == Ok::<MessageMode, String>(MessageMode::Request)
            } else {
                r matches Err(m) && m@ == unknown_message_flag()
            },
        },
{
    proof {
        reveal_strlit("send");
        reveal_strlit("request");
    }
    match flag {
        None => Ok(MessageMode::Infer),
        Some(f) => {
            if text_eq(f, "send") {
                Ok(MessageMode::Send)
            } else if text_eq(f, "request") {
                Ok(MessageMode::Request)
            } else {
                Err(owned("unknown #[message] flag; expected `send` or `request`"))
            }
        },
    }
}

/// Whether a message handler replies to its caller: forced by an explicit mode, else inferred
/// from whether it returns a value (anything but `()`).
pub fn resolve_message_reply(mode: MessageMode, returns_value: bool) -> (r: bool)
    ensures
        r == match mode {
            MessageMode::Send => false,
            MessageMode::Request => true,
            MessageMode::Infer => returns_value,
        },
{
    match mode {
        MessageMode::Send => false,
        MessageMode::Request => true,
        MessageMode::Infer => returns_value,
    }
}

/// One route modifier as read from the attribute: its identifier and, after `= [..]`, the
/// listed middleware paths (as token text).
pub struct Modifier {
    pub ident: String,
    pub list: Option<Vec<String>>,
}

/// The view of a modifier.
pub open spec fn modifier_view(m: Modifier) -> (Seq<char>, Option<Seq<Seq<char>>>) {
    (
        m.ident@,
        match m.list {
            Some(l) => Some(text_views(l@)),
            None => None,
        },
    )
}

/// The message rejecting an unknown route modifier.
pub open spec fn unknown_route_flag() -> Seq<char> {
    "unknown route flag; expected `streamed` or `middleware = [..]`"@
}

/// The message for a `middleware` modifier without its `= [..]` list.
pub open spec fn missing_middleware_list() -> Seq<char> {
    "expected `=`"@
}

/// The message for a `streamed` flag followed by anything but `,` or the end.
pub open spec fn expected_comma() -> Seq<char> {
    "expected `,`"@
}

/// Whether a modifier is accepted: a bare `streamed`, or `middleware` with its list.
pub open spec fn modifier_ok(m: (Seq<char>, Option<Seq<Seq<char>>>)) -> bool {
    (m.0 == "streamed"@ && m.1 is None) || (m.0 == "middleware"@ && m.1 is Some)
}

/// The error for the first rejected modifier.
pub open spec fn modifier_error(m: (Seq<char>, Option<Seq<Seq<char>>>)) -> Seq<char> {
    if m.0 == "middleware"@ {
        missing_middleware_list()
    } else if m.0 == "streamed"@ {
        expected_comma()
    } else {
        unknown_route_flag()
    }
}

/// The middleware list set by the last `middleware` modifier among the first `k`.
pub open spec fn last_middleware(ms: Seq<(Seq<char>, Option<Seq<Seq<char>>>)>, k: int) -> Seq<
    Seq<char>,
>
    decreases k,
{
    if k <= 0 {
        Seq::empty()
    } else if ms[k - 1].0 == "middleware"@ && ms[k - 1].1 is Some {
        ms[k - 1].1.unwrap()
    } else {
        last_middleware(ms, k - 1)
    }
}

/// Interprets route modifiers in order: `streamed` sets the streamed flag, `middleware = [..]`
/// sets the route's middleware; the first other modifier is rejected. Each modifier is meant
/// to appear at most once, but a repeat is not refused: a repeated `streamed` changes nothing
/// and a later `middleware` list replaces an earlier one.
pub fn parse_modifiers(mods: &Vec<Modifier>) -> (r: Result<(bool, Vec<String>), String>)
    ensures
        ({
            let ms = mods@.map_values(|m: Modifier| modifier_view(m));
            &&& (forall|i: int| 0 <= i < ms.len() ==> modifier_ok(#[trigger] ms[i])) ==> (r matches Ok(
                p) && p.0 == (exists|i: int| 0 <= i < ms.len() && (#[trigger] ms[i]).0 == "streamed"@)
                && text_views(p.1@) == last_middleware(ms, ms.len() as int))
            &&& (forall|k: int|
                0 <= k < ms.len() && !modifier_ok(#[trigger] ms[k]) && (forall|i: int|
                    0 <= i < k ==> modifier_ok(#[trigger] ms[i])) ==> (r matches Err(e) && e@
                    == modifier_error(ms[k])))
        }),
{
    let ghost ms = mods@.map_values(|m: Modifier| modifier_view(m));
    let mut streamed = false;
    let mut middleware: Vec<String> = Vec::new();
    let mut i: usize = 0;
    while i < mods.len()
        invariant
            ms == mods@.map_values(|m: Modifier| modifier_view(m)),
            i <= mods@.len(),
            forall|j: int| 0 <= j < i ==> modifier_ok(#[trigger] ms[j]),
            streamed == (exists|j: int| 0 <= j < i && (#[trigger] ms[j]).0 == "streamed"@),
            text_views(middleware@) == last_middleware(ms, i as int),
        decreases mods@.len() - i,
    {
        let m = &mods[i];
        proof {
            assert(ms[i as int] == modifier_view(*m));
        }
        if text_eq(m.ident.as_str(), "streamed") {
            if m.list.is_some() {
                proof {
                    reveal_strlit("streamed");
                    reveal_strlit("middleware");
                    assert("streamed"@.len() == 8);
                    assert("middleware"@.len() == 10);
                    assert(ms[i as int].0 != "middleware"@);
                }
                return Err(owned("expected `,`"));
            }
            streamed = true;
        } else if text_eq(m.ident.as_str(), "middleware") {
            match &m.list {
                Some(list) => {
                    let mut copy: Vec<String> = Vec::new();
                    let mut j: usize = 0;
                    while j < list.len()
                        invariant
                            j <= list@.len(),
                            copy@.len() == j,
                            forall|t: int| 0 <= t < j ==> (#[trigger] copy@[t])@ == list@[t]@,
                        decreases list@.len() - j,
                    {
                        copy.push(owned(list[j].as_str()));
                        j = j + 1;
                    }
                    proof {
                        assert(text_views(copy@) =~= text_views(list@));
                    }
                    middleware = copy;
                },
                None => {
                    return Err(owned("expected `=`"));
                },
            }
        } else {
            return Err(owned("unknown route flag; expected `streamed` or `middleware = [..]`"));
        }
        proof {
            assert(modifier_ok(ms[i as int]));
            reveal_strlit("streamed");
            reveal_strlit("middleware");
            assert("streamed"@.len() == 8);
            assert("middleware"@.len() == 10);
            if ms[i as int].0 == "streamed"@ {
                assert(ms[i as int].0 != "middleware"@);
            }
        }
        i = i + 1;
    }
    Ok((streamed, middleware))
}

/// A route binding: the routing verb, the path relative to the controller base, whether the
/// response is streamed, and the route's own middleware (token text), first-listed outermost.
pub struct RouteAttr {
    pub verb: String,
    pub path: String,
    pub streamed: bool,
    pub middleware: Vec<String>,
}

/// The views of a modifier list.
pub open spec fn modifier_views(mods: Seq<Modifier>) -> Seq<(Seq<char>, Option<Seq<Seq<char>>>)> {
    mods.map_values(|m: Modifier| modifier_view(m))
}

/// Whether every modifier is accepted.
pub open spec fn modifiers_ok(ms: Seq<(Seq<char>, Option<Seq<Seq<char>>>)>) -> bool {
    forall|i: int| 0 <= i < ms.len() ==> modifier_ok(#[trigger] ms[i])
}

/// Whether some modifier is `streamed`.
pub open spec fn has_streamed(ms: Seq<(Seq<char>, Option<Seq<Seq<char>>>)>) -> bool {
    exists|i: int| 0 <= i < ms.len() && (#[trigger] ms[i]).0 == "streamed"@
}

/// The error of the first rejected modifier, if any.
pub open spec fn first_modifier_error(ms: Seq<(Seq<char>, Option<Seq<Seq<char>>>)>, e: Seq<char>) -> bool {
    exists|k: int|
        0 <= k < ms.len() && !modifier_ok(#[trigger] ms[k]) && (forall|i: int|
            0 <= i < k ==> modifier_ok(#[trigger] ms[i])) && e == modifier_error(ms[k])
}

proof fn lemma_first_rejected(ms: Seq<(Seq<char>, Option<Seq<Seq<char>>>)>)
    requires
        !modifiers_ok(ms),
    ensures
        exists|k: int|
            0 <= k < ms.len() && !modifier_ok(#[trigger] ms[k]) && (forall|i: int|
                0 <= i < k ==> modifier_ok(#[trigger] ms[i])),
    decreases ms.len(),
{
    let k = choose|k: int| 0 <= k < ms.len() && !modifier_ok(#[trigger] ms[k]);
    if !modifiers_ok(ms.take(k)) {
        lemma_first_rejected(ms.take(k));
        let j = choose|j: int|
            0 <= j < ms.take(k).len() && !modifier_ok(#[trigger] ms.take(k)[j]) && (forall|i: int|
                0 <= i < j ==> modifier_ok(#[trigger] ms.take(k)[i]));
        assert(ms.take(k)[j] == ms[j]);
        assert forall|i: int| 0 <= i < j implies modifier_ok(#[trigger] ms[i]) by {
            assert(ms.take(k)[i] == ms[i]);
        }
    } else {
        assert forall|i: int| 0 <= i < k implies modifier_ok(#[trigger] ms[i]) by {
            assert(ms.take(k)[i] == ms[i]);
        }
    }
}

/// The binding of `#[route(METHOD, "path"[, modifiers])]`: the modifiers are read first, then
/// the method is lowercased and must name a verb.
pub fn route_from_raw(method: &str, path: String, modifiers: &Vec<Modifier>) -> (r: Result<
    RouteAttr,
    String,
>)
    ensures
        ({
            let ms = modifier_views(modifiers@);
            let lowered = unicode_lowercase(method@);
            &&& (modifiers_ok(ms) && verbs().contains(lowered)) ==> (r matches Ok(a) && a.verb@
                == lowered && a.path@ == path@ && a.streamed == has_streamed(ms) && text_views(
                a.middleware@,
            ) == last_middleware(ms, ms.len() as int))
            &&& (modifiers_ok(ms) && !verbs().contains(lowered)) ==> (r matches Err(e) && e@
                == unsupported_method_message(method@))
            &&& !modifiers_ok(ms) ==> (r matches Err(e) && first_modifier_error(ms, e@))
        }),
{
    let ghost ms = modifier_views(modifiers@);
    let parsed = parse_modifiers(modifiers);
    let (streamed, middleware) = match parsed {
        Ok(p) => p,
        Err(e) => {
            proof {
                if modifiers_ok(ms) {
                    assert(false);
                }
                lemma_first_rejected(ms);
            }
            return Err(e);
        },
    };
    proof {
        if !modifiers_ok(ms) {
            lemma_first_rejected(ms);
        }
    }
    let verb = normalize_verb(method)?;
    Ok(RouteAttr { verb, path, streamed, middleware })
}

/// The binding of a verb shorthand `#[<verb>]`, `#[<verb>("path"[, modifiers])]` or
/// `#[<verb>(modifiers)]`: the verb is the attribute's name, a missing path mounts at the
/// controller base (`""`).
pub fn route_from_shorthand(verb: &str, path: Option<String>, modifiers: &Vec<Modifier>) -> (r:
    Result<RouteAttr, String>)
    ensures
        ({
            let ms = modifier_views(modifiers@);
            &&& modifiers_ok(ms) ==> (r matches Ok(a) && a.verb@ == verb@ && a.path@ == (match path {
                Some(p) => p@,
                None => Seq::<char>::empty(),
            }) && a.streamed == has_streamed(ms) && text_views(a.middleware@) == last_middleware(
                ms,
                ms.len() as int,
            ))
            &&& !modifiers_ok(ms) ==> (r matches Err(e) && first_modifier_error(ms, e@))
        }),
{
    let ghost ms = modifier_views(modifiers@);
    let parsed = parse_modifiers(modifiers);
    let (streamed, middleware) = match parsed {
        Ok(p) => p,
        Err(e) => {
            proof {
                if modifiers_ok(ms) {
                    assert(false);
                }
                lemma_first_rejected(ms);
            }
            return Err(e);
        },
    };
    proof {
        if !modifiers_ok(ms) {
            lemma_first_rejected(ms);
        }
    }
    let path = match path {
        Some(p) => p,
        None => String::new(),
    };
    Ok(RouteAttr { verb: owned(verb), path, streamed, middleware })
}

/// Parsed `#[dto(..)]` arguments.
pub struct DtoArgs {
    /// `no_serde`: the type provides its own serde impls, so none are derived.
    no_serde: bool,
}

impl Default for DtoArgs {
    fn default() -> (r: DtoArgs)
        ensures
            !r.skips_serde(),
    {
        DtoArgs { no_serde: false }
    }
}

/// The message rejecting an unknown `#[dto]` option.
pub open spec fn unknown_dto_option(option: Seq<char>) -> Seq<char> {
    "unknown `#[dto]` option `"@ + option + "` (expected `no_serde`)"@
}

impl DtoArgs {
    /// Whether the options skip the serde derives.
    pub closed spec fn skips_serde(self) -> bool {
        self.no_serde
    }

    /// Whether serde derives are skipped.
    pub fn no_serde(&self) -> (r: bool)
        ensures
            r == self.skips_serde(),
    {
        self.no_serde
    }

    /// Interprets the `#[dto(..)]` options in order: `no_serde` skips the serde derives; the first
    /// other option is rejected.
    pub fn parse(options: &Vec<String>) -> (r: Result<DtoArgs, String>)
        ensures
            (forall|i: int| 0 <= i < options@.len() ==> (#[trigger] options@[i])@ == "no_serde"@)
                ==> (r matches Ok(a) && a.skips_serde() == (options@.len() > 0)),
            forall|k: int|
                0 <= k < options@.len() && (#[trigger] options@[k])@ != "no_serde"@ && (forall|i: int|
                    0 <= i < k ==> (#[trigger] options@[i])@ == "no_serde"@) ==> (r matches Err(e)
                    && e@ == unknown_dto_option(options@[k]@)),
    {
        let mut args = DtoArgs::default();
        let mut i: usize = 0;
        while i < options.len()
            invariant
                i <= options@.len(),
                forall|j: int| 0 <= j < i ==> (#[trigger] options@[j])@ == "no_serde"@,
                args.no_serde == (i > 0),
            decreases options@.len() - i,
        {
            if text_eq(options[i].as_str(), "no_serde") {
                args.no_serde = true;
            } else {
                let mut e = concat("unknown `#[dto]` option `", options[i].as_str());
                e.append("` (expected `no_serde`)");
                return Err(e);
            }
            i = i + 1;
        }
        Ok(args)
    }
}

} // verus!
