//! The response contract of an HTTP route, as read from its attributes and handler body.
//!
//! A route's responses are explicit (listed by its attribute), inferred (from the response
//! expressions its handler returns), conventional (one `200` of the declared return type), or
//! opaque. Inferred alternatives are normalised: one per status, in increasing status order,
//! and a status whose alternatives disagree on body or redirect becomes opaque.
use vstd::prelude::*;

use crate::inference::{Block, block_responses, infer_block};
use crate::text::{owned, text_eq};

verus! {

/// The body of one response alternative.
#[derive(PartialEq, Eq)]
pub enum ResponseBody {
    /// No body.
    Empty,
    /// A typed body, by the type's token text.
    Typed(String),
    /// A body whose type is not known.
    Opaque,
}

/// One possible response of a route: status, body and (for redirects) the target.
pub struct ResponseAlternative {
    pub status: u16,
    pub body: ResponseBody,
    pub redirect: Option<String>,
}

/// The view of a response body: `None` for empty, `Some(None)` for opaque, `Some(Some(t))` for
/// a typed body with token text `t`.
pub open spec fn body_view(b: ResponseBody) -> Option<Option<Seq<char>>> {
    match b {
        ResponseBody::Empty => None,
        ResponseBody::Opaque => Some(None),
        ResponseBody::Typed(t) => Some(Some(t@)),
    }
}

/// The view of an optional text.
pub open spec fn opt_text(s: Option<String>) -> Option<Seq<char>> {
    match s {
        Some(t) => Some(t@),
        None => None,
    }
}

/// What a response alternative says: its status, body and redirect target.
pub struct AltView {
    pub status: u16,
    pub body: Option<Option<Seq<char>>>,
    pub redirect: Option<Seq<char>>,
}

/// The view of an alternative.
pub open spec fn alt_view(a: ResponseAlternative) -> AltView {
    AltView { status: a.status, body: body_view(a.body), redirect: opt_text(a.redirect) }
}

/// The views of a list of alternatives.
pub open spec fn alt_views(s: Seq<ResponseAlternative>) -> Seq<AltView> {
    s.map_values(|a: ResponseAlternative| alt_view(a))
}

/// Whether some alternative has status `s`.
pub open spec fn has_status(alts: Seq<AltView>, s: u16) -> bool {
    exists|i: int| 0 <= i < alts.len() && (#[trigger] alts[i]).status == s
}

/// Whether all alternatives with status `s` agree on body and redirect.
pub open spec fn agree(alts: Seq<AltView>, s: u16) -> bool {
    forall|i: int, j: int|
        0 <= i < alts.len() && 0 <= j < alts.len() && (#[trigger] alts[i]).status == s
            && (#[trigger] alts[j]).status == s ==> alts[i].body == alts[j].body && alts[i].redirect
            == alts[j].redirect
}

/// The index of the first alternative with status `s`.
pub open spec fn first_with(alts: Seq<AltView>, s: u16) -> int
    recommends
        has_status(alts, s),
{
    choose|i: int|
        0 <= i < alts.len() && (#[trigger] alts[i]).status == s && forall|j: int|
            0 <= j < i ==> (#[trigger] alts[j]).status != s
}

/// The normalised alternative for status `s`: the common body and redirect when all
/// alternatives with that status agree, an opaque body without redirect otherwise.
pub open spec fn merged(alts: Seq<AltView>, s: u16) -> AltView {
    if agree(alts, s) {
        alts[first_with(alts, s)]
    } else {
        AltView { status: s, body: Some(None), redirect: None }
    }
}

/// Whether `out` is the normalisation of `alts`: strictly increasing statuses, exactly the
/// statuses of `alts`, each with its merged alternative.
#[verifier::opaque]
pub open spec fn normalized(alts: Seq<AltView>, out: Seq<AltView>) -> bool {
    &&& forall|i: int, j: int| 0 <= i < j < out.len() ==> (#[trigger] out[i]).status < (#[trigger] out[j]).status
    &&& forall|s: u16| has_status(alts, s) <==> has_status(out, s)
    &&& forall|k: int| 0 <= k < out.len() ==> #[trigger] out[k] == merged(alts, out[k].status)
}

proof fn lemma_first_with(alts: Seq<AltView>, s: u16)
    requires
        has_status(alts, s),
    ensures
        0 <= first_with(alts, s) < alts.len(),
        alts[first_with(alts, s)].status == s,
        forall|j: int| 0 <= j < first_with(alts, s) ==> (#[trigger] alts[j]).status != s,
{
    let w = choose|i: int| 0 <= i < alts.len() && (#[trigger] alts[i]).status == s;
    lemma_least_index(alts, s, w);
}

proof fn lemma_least_index(alts: Seq<AltView>, s: u16, w: int)
    requires
        0 <= w < alts.len(),
        alts[w].status == s,
    ensures
        exists|i: int|
            0 <= i < alts.len() && (#[trigger] alts[i]).status == s && forall|j: int|
                0 <= j < i ==> (#[trigger] alts[j]).status != s,
    decreases w,
{
    if exists|j: int| 0 <= j < w && (#[trigger] alts[j]).status == s {
        let j = choose|j: int| 0 <= j < w && (#[trigger] alts[j]).status == s;
        lemma_least_index(alts, s, j);
    } else {
        assert(forall|j: int| 0 <= j < w ==> (#[trigger] alts[j]).status != s);
    }
}

/// Appending `a` to `alts` and merging again: the merged value of `a`'s status is the old
/// merged value when `a` agrees with it, opaque otherwise; other statuses are unchanged.
proof fn lemma_merged_push(alts: Seq<AltView>, a: AltView, s: u16)
    requires
        has_status(alts, s),
    ensures
        merged(alts.push(a), s) == (if s != a.status {
            merged(alts, s)
        } else if merged(alts, s).body == a.body && merged(alts, s).redirect == a.redirect {
            merged(alts, s)
        } else {
            AltView { status: s, body: Some(None), redirect: None }
        }),
{
    let b = alts.push(a);
    lemma_first_with(alts, s);
    let f = first_with(alts, s);
    assert(b[f] == alts[f]);
    assert forall|j: int| 0 <= j < f implies (#[trigger] b[j]).status != s by {
        assert(b[j] == alts[j]);
    }
    assert(has_status(b, s)) by {
        assert(b[f].status == s);
    }
    lemma_first_with(b, s);
    let g = first_with(b, s);
    if g < f {
        assert(b[g] == alts[g]);
    }
    if f < g {
        assert(b[f].status == s);
    }
    assert(g == f);
    if s != a.status {
        if agree(alts, s) {
            assert forall|i: int, j: int|
                0 <= i < b.len() && 0 <= j < b.len() && (#[trigger] b[i]).status == s
                    && (#[trigger] b[j]).status == s implies b[i].body == b[j].body && b[i].redirect
                == b[j].redirect by {
                assert(i < alts.len() && j < alts.len());
                assert(b[i] == alts[i] && b[j] == alts[j]);
            }
        } else {
            let (i, j) = choose|i: int, j: int|
                !(0 <= i < alts.len() && 0 <= j < alts.len() && (#[trigger] alts[i]).status == s
                    && (#[trigger] alts[j]).status == s ==> alts[i].body == alts[j].body
                    && alts[i].redirect == alts[j].redirect);
            assert(b[i] == alts[i] && b[j] == alts[j]);
        }
    } else {
        let n = alts.len() as int;
        assert(b[n] == a);
        if agree(alts, s) {
            if alts[f].body == a.body && alts[f].redirect == a.redirect {
                assert forall|i: int, j: int|
                    0 <= i < b.len() && 0 <= j < b.len() && (#[trigger] b[i]).status == s
                        && (#[trigger] b[j]).status == s implies b[i].body == b[j].body
                    && b[i].redirect == b[j].redirect by {
                    if i < n {
                        assert(b[i] == alts[i]);
                    }
                    if j < n {
                        assert(b[j] == alts[j]);
                    }
                }
            } else {
                assert(!(b[f].body == b[n].body && b[f].redirect == b[n].redirect));
            }
        } else {
            let (i, j) = choose|i: int, j: int|
                !(0 <= i < alts.len() && 0 <= j < alts.len() && (#[trigger] alts[i]).status == s
                    && (#[trigger] alts[j]).status == s ==> alts[i].body == alts[j].body
                    && alts[i].redirect == alts[j].redirect);
            assert(b[i] == alts[i] && b[j] == alts[j]);
        }
    }
}

/// A status seen only in the appended alternative merges to that alternative.
proof fn lemma_merged_new(alts: Seq<AltView>, a: AltView)
    requires
        !has_status(alts, a.status),
    ensures
        merged(alts.push(a), a.status) == a,
{
    let b = alts.push(a);
    let n = alts.len() as int;
    assert(b[n] == a);
    assert forall|i: int| 0 <= i < n implies (#[trigger] b[i]).status != a.status by {
        assert(b[i] == alts[i]);
    }
    assert forall|i: int, j: int|
        0 <= i < b.len() && 0 <= j < b.len() && (#[trigger] b[i]).status == a.status
            && (#[trigger] b[j]).status == a.status implies b[i].body == b[j].body && b[i].redirect
        == b[j].redirect by {
        if i < n {
            assert(b[i] == alts[i]);
        }
        if j < n {
            assert(b[j] == alts[j]);
        }
    }
    lemma_first_with(b, a.status);
}

fn same_text(a: &Option<String>, b: &Option<String>) -> (r: bool)
    ensures
        r == (opt_text(*a) == opt_text(*b)),
{
    match (a, b) {
        (Some(x), Some(y)) => text_eq(x.as_str(), y.as_str()),
        (None, None) => true,
        _ => false,
    }
}

/// Whether two response bodies are the same: both empty, both opaque, or typed by the same
/// token text.
pub fn same_body(left: &ResponseBody, right: &ResponseBody) -> (r: bool)
    ensures
        r == (body_view(*left) == body_view(*right)),
{
    match (left, right) {
        (ResponseBody::Empty, ResponseBody::Empty) => true,
        (ResponseBody::Opaque, ResponseBody::Opaque) => true,
        (ResponseBody::Typed(l), ResponseBody::Typed(r)) => text_eq(l.as_str(), r.as_str()),
        _ => false,
    }
}

proof fn lemma_merge_step(consumed: Seq<AltView>, old_out: Seq<AltView>, a: AltView, p: int)
    requires
        normalized(consumed, old_out),
        0 <= p < old_out.len(),
        old_out[p].status == a.status,
    ensures
        normalized(
            consumed.push(a),
            old_out.update(
                p,
                if old_out[p].body == a.body && old_out[p].redirect == a.redirect {
                    old_out[p]
                } else {
                    AltView { status: a.status, body: Some(None), redirect: None }
                },
            ),
        ),
{
    reveal(normalized);
    let next = consumed.push(a);
    let nv = old_out.update(
        p,
        if old_out[p].body == a.body && old_out[p].redirect == a.redirect {
            old_out[p]
        } else {
            AltView { status: a.status, body: Some(None), redirect: None }
        },
    );
    assert(has_status(old_out, a.status));
    assert(has_status(consumed, a.status));
    lemma_merged_push(consumed, a, a.status);
    assert forall|s: u16| has_status(next, s) <==> has_status(nv, s) by {
        if has_status(next, s) {
            let i = choose|i: int| 0 <= i < next.len() && (#[trigger] next[i]).status == s;
            if i < consumed.len() {
                assert(next[i] == consumed[i]);
                assert(has_status(consumed, s));
                let q = choose|q: int| 0 <= q < old_out.len() && (#[trigger] old_out[q]).status == s;
                assert(nv[q].status == s);
            } else {
                assert(nv[p].status == s);
            }
        }
        if has_status(nv, s) {
            let q = choose|q: int| 0 <= q < nv.len() && (#[trigger] nv[q]).status == s;
            if q == p {
                assert(next[consumed.len() as int] == a);
            } else {
                assert(nv[q] == old_out[q]);
                assert(has_status(old_out, s));
                assert(has_status(consumed, s));
                let i = choose|i: int| 0 <= i < consumed.len() && (#[trigger] consumed[i]).status == s;
                assert(next[i] == consumed[i]);
            }
        }
    }
    assert forall|q: int| 0 <= q < nv.len() implies #[trigger] nv[q] == merged(next, nv[q].status) by {
        if q != p {
            assert(nv[q] == old_out[q]);
            assert(old_out[q] == merged(consumed, old_out[q].status));
            assert(has_status(old_out, old_out[q].status));
            lemma_merged_push(consumed, a, old_out[q].status);
        }
    }
    assert forall|i: int, j: int| 0 <= i < j < nv.len() implies (#[trigger] nv[i]).status < (
    #[trigger] nv[j]).status by {
        assert(old_out[i].status < old_out[j].status);
    }
}

proof fn lemma_insert_sorted(old_out: Seq<AltView>, a: AltView, p: int)
    requires
        forall|i: int, j: int| 0 <= i < j < old_out.len() ==> (#[trigger] old_out[i]).status < (
        #[trigger] old_out[j]).status,
        0 <= p <= old_out.len(),
        forall|q: int| 0 <= q < p ==> (#[trigger] old_out[q]).status < a.status,
        p == old_out.len() || old_out[p].status > a.status,
    ensures
        forall|i: int, j: int|
            0 <= i < j < old_out.insert(p, a).len() ==> (#[trigger] old_out.insert(p, a)[i]).status
                < (#[trigger] old_out.insert(p, a)[j]).status,
{
    let nv = old_out.insert(p, a);
    assert forall|i: int, j: int| 0 <= i < j < nv.len() implies (#[trigger] nv[i]).status < (
    #[trigger] nv[j]).status by {
        if j < p {
            assert(nv[i] == old_out[i] && nv[j] == old_out[j]);
        } else if j == p {
            assert(nv[i] == old_out[i]);
        } else if i < p {
            assert(nv[i] == old_out[i] && nv[j] == old_out[j - 1]);
            if j - 1 > p {
                assert(old_out[p].status < old_out[j - 1].status);
            }
        } else if i == p {
            assert(nv[j] == old_out[j - 1]);
            if j - 1 > p {
                assert(old_out[p].status < old_out[j - 1].status);
            }
        } else {
            assert(nv[i] == old_out[i - 1] && nv[j] == old_out[j - 1]);
        }
    }
}

proof fn lemma_insert_statuses(consumed: Seq<AltView>, old_out: Seq<AltView>, a: AltView, p: int)
    requires
        forall|s: u16| has_status(consumed, s) <==> has_status(old_out, s),
        0 <= p <= old_out.len(),
    ensures
        forall|s: u16| has_status(consumed.push(a), s) <==> has_status(old_out.insert(p, a), s),
{
    let next = consumed.push(a);
    let nv = old_out.insert(p, a);
    assert forall|s: u16| has_status(next, s) <==> has_status(nv, s) by {
        if has_status(next, s) {
            let i = choose|i: int| 0 <= i < next.len() && (#[trigger] next[i]).status == s;
            if i < consumed.len() {
                assert(next[i] == consumed[i]);
                assert(has_status(consumed, s));
                let q = choose|q: int| 0 <= q < old_out.len() && (#[trigger] old_out[q]).status == s;
                if q < p {
                    assert(nv[q] == old_out[q]);
                } else {
                    assert(nv[q + 1] == old_out[q]);
                }
            } else {
                assert(nv[p] == a);
            }
        }
        if has_status(nv, s) {
            let q = choose|q: int| 0 <= q < nv.len() && (#[trigger] nv[q]).status == s;
            if q == p {
                assert(next[consumed.len() as int] == a);
            } else {
                let oq = if q < p {
                    q
                } else {
                    q - 1
                };
                assert(nv[q] == old_out[oq]);
                assert(has_status(old_out, s));
                assert(has_status(consumed, s));
                let i = choose|i: int| 0 <= i < consumed.len() && (#[trigger] consumed[i]).status == s;
                assert(next[i] == consumed[i]);
            }
        }
    }
}

proof fn lemma_insert_merged(consumed: Seq<AltView>, old_out: Seq<AltView>, a: AltView, p: int)
    requires
        forall|s: u16| has_status(consumed, s) <==> has_status(old_out, s),
        forall|k: int| 0 <= k < old_out.len() ==> #[trigger] old_out[k] == merged(
            consumed,
            old_out[k].status,
        ),
        !has_status(old_out, a.status),
        0 <= p <= old_out.len(),
    ensures
        forall|k: int|
            0 <= k < old_out.insert(p, a).len() ==> #[trigger] old_out.insert(p, a)[k] == merged(
                consumed.push(a),
                old_out.insert(p, a)[k].status,
            ),
{
    let next = consumed.push(a);
    let nv = old_out.insert(p, a);
    assert(!has_status(consumed, a.status));
    lemma_merged_new(consumed, a);
    assert forall|q: int| 0 <= q < nv.len() implies #[trigger] nv[q] == merged(next, nv[q].status) by {
        if q != p {
            let oq = if q < p {
                q
            } else {
                q - 1
            };
            assert(nv[q] == old_out[oq]);
            assert(old_out[oq] == merged(consumed, old_out[oq].status));
            assert(has_status(old_out, old_out[oq].status));
            assert(has_status(consumed, old_out[oq].status));
            lemma_merged_push(consumed, a, old_out[oq].status);
        }
    }
}

proof fn lemma_insert_step(consumed: Seq<AltView>, old_out: Seq<AltView>, a: AltView, p: int)
    requires
        normalized(consumed, old_out),
        0 <= p <= old_out.len(),
        forall|q: int| 0 <= q < p ==> (#[trigger] old_out[q]).status < a.status,
        p == old_out.len() || old_out[p].status > a.status,
    ensures
        normalized(consumed.push(a), old_out.insert(p, a)),
{
    reveal(normalized);
    assert(!has_status(old_out, a.status)) by {
        if has_status(old_out, a.status) {
            let q = choose|q: int| 0 <= q < old_out.len() && (#[trigger] old_out[q]).status == a.status;
            if q > p {
                assert(old_out[p].status < old_out[q].status);
            }
        }
    }
    lemma_insert_sorted(old_out, a, p);
    lemma_insert_statuses(consumed, old_out, a, p);
    lemma_insert_merged(consumed, old_out, a, p);
}

/// Normalises inferred response alternatives: one per status, in increasing status order; a
/// status whose alternatives all agree keeps their body and redirect, any disagreement makes
/// it opaque without redirect.
pub fn normalize(alternatives: Vec<ResponseAlternative>) -> (r: Vec<ResponseAlternative>)
    ensures
        normalized(alt_views(alternatives@), alt_views(r@)),
{
    let ghost all = alt_views(alternatives@);
    let n = alternatives.len();
    let mut out: Vec<ResponseAlternative> = Vec::new();
    let mut rest = alternatives;
    let ghost consumed: Seq<AltView> = Seq::empty();
    let mut k: usize = 0;
    proof {
        assert(alt_views(rest@) =~= all.skip(0));
        assert(alt_views(out@) =~= Seq::<AltView>::empty());
        reveal(normalized);
        assert(normalized(consumed, alt_views(out@)));
    }
    while rest.len() > 0
        invariant
            all.len() == n,
            all.len() == k + rest@.len(),
            consumed == all.take(k as int),
            alt_views(rest@) == all.skip(k as int),
            normalized(consumed, alt_views(out@)),
        decreases rest@.len(),
    {
        let ghost before = rest@;
        let alt = rest.remove(0);
        let ghost a = alt_view(alt);
        proof {
            assert(before[0] == alt);
            assert(alt_views(before)[0] == a);
            assert(a == all[k as int]);
            assert(rest@ =~= before.skip(1));
            assert(alt_views(rest@) =~= alt_views(before).skip(1));
            assert(alt_views(rest@) =~= all.skip(k + 1));
        }
        let ghost old_out = alt_views(out@);
        let ghost next = consumed.push(a);
        proof {
            assert(next =~= all.take(k + 1));
        }
        let mut p: usize = 0;
        while p < out.len() && out[p].status < alt.status
            invariant
                p <= out@.len(),
                old_out == alt_views(out@),
                forall|q: int| 0 <= q < p ==> (#[trigger] old_out[q]).status < a.status,
                a == alt_view(alt),
            decreases out@.len() - p,
        {
            proof {
                assert(old_out[p as int].status == out@[p as int].status);
            }
            p = p + 1;
        }
        proof {
            if p < out.len() {
                assert(old_out[p as int].status == out@[p as int].status);
            }
        }
        if p < out.len() && out[p].status == alt.status {
            let keep = same_body(&out[p].body, &alt.body) && same_text(&out[p].redirect, &alt.redirect);
            if !keep {
                out.set(p, ResponseAlternative { status: alt.status, body: ResponseBody::Opaque, redirect: None });
            }
            proof {
                lemma_merge_step(consumed, old_out, a, p as int);
                assert(alt_views(out@) =~= old_out.update(
                    p as int,
                    if old_out[p as int].body == a.body && old_out[p as int].redirect == a.redirect {
                        old_out[p as int]
                    } else {
                        AltView { status: a.status, body: Some(None), redirect: None }
                    },
                ));
            }
        } else {
            out.insert(p, alt);
            proof {
                lemma_insert_step(consumed, old_out, a, p as int);
                assert(alt_views(out@) =~= old_out.insert(p as int, a));
            }
        }
        proof {
            consumed = next;
        }
        k = k + 1;
    }
    proof {
        assert(consumed =~= all);
    }
    out
}

/// Where a route's response contract came from.
#[derive(Clone, Copy, Debug, PartialEq, Eq, Structural)]
pub enum ResponseOrigin {
    Explicit,
    Inferred,
    Conventional,
    Opaque,
}

/// A route's response contract: its origin and its alternatives.
pub struct ResponseContract {
    pub origin: ResponseOrigin,
    pub alternatives: Vec<ResponseAlternative>,
}

/// What the conventional response of a route is: an opaque response, the unit type, or a
/// typed body (by its token text).
pub enum Conventional {
    Opaque,
    Unit,
    Typed(String),
}

/// Decides a route's response contract: explicit responses win; else the responses inferred
/// from the handler's body, normalised; else one conventional `200` unless the declared
/// response is opaque.
pub fn response_contract(
    explicit: Vec<ResponseAlternative>,
    body: &Block,
    conventional: Conventional,
) -> (r: ResponseContract)
    ensures
        explicit@.len() > 0 ==> r.origin == ResponseOrigin::Explicit && alt_views(r.alternatives@)
            == alt_views(explicit@),
        explicit@.len() == 0 && block_responses(*body).len() > 0 ==> r.origin == ResponseOrigin::Inferred
            && normalized(block_responses(*body), alt_views(r.alternatives@)),
        explicit@.len() == 0 && block_responses(*body).len() == 0 ==> match conventional {
            Conventional::Opaque => r.origin == ResponseOrigin::Opaque && r.alternatives@.len()
                == 0,
            Conventional::Unit => r.origin == ResponseOrigin::Conventional && alt_views(
                r.alternatives@,
            ) == seq![AltView { status: 200, body: None, redirect: None }],
            Conventional::Typed(t) => r.origin == ResponseOrigin::Conventional && alt_views(
                r.alternatives@,
            ) == seq![AltView { status: 200, body: Some(Some(t@)), redirect: None }],
        },
{
    if explicit.len() > 0 {
        return ResponseContract { origin: ResponseOrigin::Explicit, alternatives: explicit };
    }
    let inferred = infer_block(body);
    if inferred.len() > 0 {
        return ResponseContract {
            origin: ResponseOrigin::Inferred,
            alternatives: normalize(inferred),
        };
    }
    let ghost gc = conventional;
    let body = match conventional {
        Conventional::Opaque => {
            return ResponseContract { origin: ResponseOrigin::Opaque, alternatives: Vec::new() };
        },
        Conventional::Unit => ResponseBody::Empty,
        Conventional::Typed(t) => ResponseBody::Typed(t),
    };
    let mut alternatives: Vec<ResponseAlternative> = Vec::new();
    alternatives.push(ResponseAlternative { status: 200, body, redirect: None });
    let r = ResponseContract { origin: ResponseOrigin::Conventional, alternatives };
    proof {
        assert(alt_views(r.alternatives@) =~= seq![
            AltView { status: 200, body: body_view(r.alternatives@[0].body), redirect: None },
        ]);
    }
    r
}

/// The status code named by an `http::StatusCode` constant the analysis recognises.
pub open spec fn status_code_spec(name: Seq<char>) -> Option<u16> {
    if name == "OK"@ {
        Some(200)
    } else if name == "CREATED"@ {
        Some(201)
    } else if name == "ACCEPTED"@ {
        Some(202)
    } else if name == "NO_CONTENT"@ {
        Some(204)
    } else if name == "MOVED_PERMANENTLY"@ {
        Some(301)
    } else if name == "FOUND"@ {
        Some(302)
    } else if name == "SEE_OTHER"@ {
        Some(303)
    } else if name == "TEMPORARY_REDIRECT"@ {
        Some(307)
    } else if name == "PERMANENT_REDIRECT"@ {
        Some(308)
    } else if name == "BAD_REQUEST"@ {
        Some(400)
    } else if name == "UNAUTHORIZED"@ {
        Some(401)
    } else if name == "FORBIDDEN"@ {
        Some(403)
    } else if name == "NOT_FOUND"@ {
        Some(404)
    } else if name == "CONFLICT"@ {
        Some(409)
    } else if name == "UNPROCESSABLE_ENTITY"@ {
        Some(422)
    } else if name == "TOO_MANY_REQUESTS"@ {
        Some(429)
    } else if name == "INTERNAL_SERVER_ERROR"@ {
        Some(500)
    } else if name == "BAD_GATEWAY"@ {
        Some(502)
    } else if name == "SERVICE_UNAVAILABLE"@ {
        Some(503)
    } else if name == "GATEWAY_TIMEOUT"@ {
        Some(504)
    } else {
        None
    }
}

/// The status code of a recognised `StatusCode` constant name.
pub fn status_code(name: &str) -> (r: Option<u16>)
    ensures
        r == status_code_spec(name@),
{
    if text_eq(name, "OK") {
        Some(200)
    } else if text_eq(name, "CREATED") {
        Some(201)
    } else if text_eq(name, "ACCEPTED") {
        Some(202)
    } else if text_eq(name, "NO_CONTENT") {
        Some(204)
    } else if text_eq(name, "MOVED_PERMANENTLY") {
        Some(301)
    } else if text_eq(name, "FOUND") {
        Some(302)
    } else if text_eq(name, "SEE_OTHER") {
        Some(303)
    } else if text_eq(name, "TEMPORARY_REDIRECT") {
        Some(307)
    } else if text_eq(name, "PERMANENT_REDIRECT") {
        Some(308)
    } else if text_eq(name, "BAD_REQUEST") {
        Some(400)
    } else if text_eq(name, "UNAUTHORIZED") {
        Some(401)
    } else if text_eq(name, "FORBIDDEN") {
        Some(403)
    } else if text_eq(name, "NOT_FOUND") {
        Some(404)
    } else if text_eq(name, "CONFLICT") {
        Some(409)
    } else if text_eq(name, "UNPROCESSABLE_ENTITY") {
        Some(422)
    } else if text_eq(name, "TOO_MANY_REQUESTS") {
        Some(429)
    } else if text_eq(name, "INTERNAL_SERVER_ERROR") {
        Some(500)
    } else if text_eq(name, "BAD_GATEWAY") {
        Some(502)
    } else if text_eq(name, "SERVICE_UNAVAILABLE") {
        Some(503)
    } else if text_eq(name, "GATEWAY_TIMEOUT") {
        Some(504)
    } else {
        None
    }
}

/// The status of a path expression `..::StatusCode::<NAME>`, given the path's segments.
pub fn status_expression(segments: &Vec<String>) -> (r: Option<u16>)
    ensures
        r == (if segments@.len() >= 2 && segments@[segments@.len() - 2]@ == "StatusCode"@ {
            status_code_spec(segments@.last()@)
        } else {
            None
        }),
{
    let n = segments.len();
    if n < 2 || !text_eq(segments[n - 2].as_str(), "StatusCode") {
        return None;
    }
    status_code(segments[n - 1].as_str())
}

/// The status of a redirect constructor `Redirect::<method>`.
pub open spec fn redirect_status_spec(method: Seq<char>) -> Option<u16> {
    if method == "to"@ {
        Some(303)
    } else if method == "temporary"@ {
        Some(307)
    } else if method == "permanent"@ {
        Some(308)
    } else {
        None
    }
}

/// The status and target of a call `..::Redirect::<method>("<target>")`, given the callee
/// path's segments and the first argument when it is a string literal.
pub fn redirect_expression(segments: &Vec<String>, target: Option<String>) -> (r: Option<
    (u16, String),
>)
    ensures
        match r {
            Some((status, t)) => segments@.len() >= 2 && segments@[segments@.len() - 2]@
                == "Redirect"@ && target == Some(t) && redirect_status_spec(segments@.last()@)
                == Some(status),
            None => !(segments@.len() >= 2 && segments@[segments@.len() - 2]@ == "Redirect"@
                && target is Some && redirect_status_spec(segments@.last()@) is Some),
        },
{
    let n = segments.len();
    if n < 2 || !text_eq(segments[n - 2].as_str(), "Redirect") {
        return None;
    }
    let target = match target {
        Some(t) => t,
        None => {
            return None;
        },
    };
    let method = segments[n - 1].as_str();
    let status: u16 = if text_eq(method, "to") {
        303
    } else if text_eq(method, "temporary") {
        307
    } else if text_eq(method, "permanent") {
        308
    } else {
        return None;
    };
    Some((status, target))
}

/// How the server wraps a streamed response.
#[derive(Clone, Copy, Debug, PartialEq, Eq, Structural)]
pub enum ServerWrap {
    Ndjson,
    RawU8,
}

/// The stream shape named by a streamed return's type (inside any `Result`).
pub open spec fn stream_shape_spec(inner_type_name: Option<Seq<char>>) -> Seq<char> {
    match inner_type_name {
        Some(n) => if n == "Ndjson"@ {
            "NdjsonStream"@
        } else if n == "RawStream"@ {
            "RawStream"@
        } else {
            "CustomStream"@
        },
        None => "CustomStream"@,
    }
}

/// The stream shape of an explicitly streamed return type, by the name of its type.
pub fn explicit_stream_shape(inner_type_name: Option<&str>) -> (r: &'static str)
    ensures
        r@ == stream_shape_spec(
            match inner_type_name {
                Some(n) => Some(n@),
                None => None,
            },
        ),
{
    match inner_type_name {
        Some(n) => if text_eq(n, "Ndjson") {
            "NdjsonStream"
        } else if text_eq(n, "RawStream") {
            "RawStream"
        } else {
            "CustomStream"
        },
        None => "CustomStream",
    }
}

/// The response shape of a route: a server-wrapped stream, an explicit stream shape, a custom
/// stream, an opaque response, or a unary one.
pub fn output_shape(
    server_wrap: Option<ServerWrap>,
    is_streaming: bool,
    stream_shape: &'static str,
    streamed: bool,
    returns_declared: bool,
    response_opaque: bool,
) -> (r: &'static str)
    ensures
        r@ == (match server_wrap {
            Some(ServerWrap::Ndjson) => "NdjsonStream"@,
            Some(ServerWrap::RawU8) => "RawStream"@,
            None => if is_streaming {
                stream_shape@
            } else if streamed {
                "CustomStream"@
            } else if !returns_declared && response_opaque {
                "Opaque"@
            } else {
                "Unary"@
            },
        }),
{
    match server_wrap {
        Some(ServerWrap::Ndjson) => "NdjsonStream",
        Some(ServerWrap::RawU8) => "RawStream",
        None => if is_streaming {
            stream_shape
        } else if streamed {
            "CustomStream"
        } else if !returns_declared && response_opaque {
            "Opaque"
        } else {
            "Unary"
        },
    }
}

/// Normalised alternatives list each status once, in increasing order.
pub proof fn law_normalized_statuses_are_unique_and_sorted(
    alts: Seq<AltView>,
    out: Seq<AltView>,
    i: int,
    j: int,
)
    requires
        normalized(alts, out),
        0 <= i < j < out.len(),
    ensures
        out[i].status < out[j].status,
{
    reveal(normalized);
}

/// Normalising alternatives that already agree per status keeps each status's alternative.
pub proof fn law_agreeing_alternatives_are_kept(alts: Seq<AltView>, out: Seq<AltView>, k: int)
    requires
        normalized(alts, out),
        0 <= k < out.len(),
        agree(alts, out[k].status),
    ensures
        exists|i: int| 0 <= i < alts.len() && #[trigger] alts[i] == out[k],
{
    reveal(normalized);
    assert(has_status(out, out[k].status));
    lemma_first_with(alts, out[k].status);
}

/// The body and redirect flag shared by every alternative, if they all share one.
pub open spec fn common_shape_spec(alts: Seq<AltView>) -> Option<(Option<Option<Seq<char>>>, bool)> {
    if alts.len() > 0 && forall|i: int|
        0 <= i < alts.len() ==> (#[trigger] alts[i]).body == alts[0].body && (alts[i].redirect is Some)
            == (alts[0].redirect is Some) {
        Some((alts[0].body, alts[0].redirect is Some))
    } else {
        None
    }
}

fn copy_body(b: &ResponseBody) -> (r: ResponseBody)
    ensures
        body_view(r) == body_view(*b),
{
    match b {
        ResponseBody::Empty => ResponseBody::Empty,
        ResponseBody::Opaque => ResponseBody::Opaque,
        ResponseBody::Typed(t) => ResponseBody::Typed(owned(t.as_str())),
    }
}

/// The body and redirect flag shared by every alternative: when all alternatives have the
/// same body and all or none redirect, one client response type can represent them.
pub fn common_shape(alternatives: &Vec<ResponseAlternative>) -> (r: Option<(ResponseBody, bool)>)
    ensures
        match r {
            Some((b, redirecting)) => common_shape_spec(alt_views(alternatives@)) == Some(
                (body_view(b), redirecting),
            ),
            None => common_shape_spec(alt_views(alternatives@)) is None,
        },
{
    let ghost alts = alt_views(alternatives@);
    if alternatives.len() == 0 {
        return None;
    }
    let first = &alternatives[0];
    let redirecting = first.redirect.is_some();
    let mut i: usize = 0;
    while i < alternatives.len()
        invariant
            alts == alt_views(alternatives@),
            alternatives@.len() > 0,
            first == &alternatives@[0],
            redirecting == (first.redirect is Some),
            i <= alternatives@.len(),
            forall|j: int|
                0 <= j < i ==> (#[trigger] alts[j]).body == alts[0].body && (alts[j].redirect is Some)
                    == (alts[0].redirect is Some),
        decreases alternatives@.len() - i,
    {
        let alt = &alternatives[i];
        if !same_body(&first.body, &alt.body) || redirecting != alt.redirect.is_some() {
            proof {
                assert(alts[i as int] == alt_view(*alt));
                assert(alts[0] == alt_view(*first));
            }
            return None;
        }
        proof {
            assert(alts[i as int] == alt_view(*alt));
            assert(alts[0] == alt_view(*first));
        }
        i = i + 1;
    }
    proof {
        assert(alts[0] == alt_view(*first));
    }
    Some((copy_body(&first.body), redirecting))
}

/// How a generated client method types a route's response.
pub enum ResponseStrategy {
    /// The route names its own response type; each alternative converts into it.
    UserResponse,
    /// Every alternative shares this body (and redirect flag): one plain response type.
    Common { body: ResponseBody, redirecting: bool },
    /// The conventional return type of the handler.
    Conventional,
    /// No alternatives are known: the raw response bytes.
    Raw,
    /// A generated enum with one variant per alternative status.
    PerStatus,
}

/// Chooses the response strategy of a client method: the route's own response type first,
/// then a shape common to all alternatives, then the conventional type of a conventional
/// contract, raw bytes without alternatives, and a per-status enum otherwise.
pub fn response_strategy(
    has_user_response: bool,
    origin: ResponseOrigin,
    alternatives: &Vec<ResponseAlternative>,
) -> (r: ResponseStrategy)
    ensures
        ({
            let alts = alt_views(alternatives@);
            if has_user_response {
                r is UserResponse
            } else if common_shape_spec(alts) is Some {
                r matches ResponseStrategy::Common { body, redirecting } && common_shape_spec(alts)
                    == Some((body_view(body), redirecting))
            } else if origin == ResponseOrigin::Conventional {
                r is Conventional
            } else if alts.len() == 0 {
                r is Raw
            } else {
                r is PerStatus
            }
        }),
{
    if has_user_response {
        return ResponseStrategy::UserResponse;
    }
    match common_shape(alternatives) {
        Some((body, redirecting)) => ResponseStrategy::Common { body, redirecting },
        None => if origin == ResponseOrigin::Conventional {
            ResponseStrategy::Conventional
        } else if alternatives.len() == 0 {
            ResponseStrategy::Raw
        } else {
            ResponseStrategy::PerStatus
        },
    }
}

/// `Status<code>`, the variant of a per-status response enum.
pub fn status_variant_name(status: u16) -> (r: String)
    ensures
        r@ == "Status"@ + crate::text::decimal(status as nat),
{
    let digits = crate::text::decimal_string(status as u64);
    crate::text::concat("Status", digits.as_str())
}

/// `<Controller><Method>Response`, the per-status response enum of a method, with the
/// method's snake-case name in upper camel case.
pub fn response_enum_name(controller: &str, method: &str) -> (r: String)
    ensures
        r@ == controller@ + crate::client::upper_camel_spec(method@) + "Response"@,
{
    let camel = crate::client::upper_camel(method);
    crate::text::concat3(controller, camel.as_str(), "Response")
}

/// The `http::StatusCode` constants the analysis recognises each stand for their IANA code:
/// `OK` is 200, `CREATED` 201, `ACCEPTED` 202, `NO_CONTENT` 204, `MOVED_PERMANENTLY` 301,
/// `FOUND` 302, `SEE_OTHER` 303, `TEMPORARY_REDIRECT` 307, `PERMANENT_REDIRECT` 308,
/// `BAD_REQUEST` 400, `UNAUTHORIZED` 401, `FORBIDDEN` 403, `NOT_FOUND` 404, `CONFLICT` 409,
/// `UNPROCESSABLE_ENTITY` 422, `TOO_MANY_REQUESTS` 429, `INTERNAL_SERVER_ERROR` 500,
/// `BAD_GATEWAY` 502, `SERVICE_UNAVAILABLE` 503 and `GATEWAY_TIMEOUT` 504. Any other name is
/// not a recognised status.
pub proof fn law_status_constants_are_iana_codes(name: Seq<char>)
    ensures
        status_code_spec("OK"@) == Some(200u16),
        status_code_spec("CREATED"@) == Some(201u16),
        status_code_spec("ACCEPTED"@) == Some(202u16),
        status_code_spec("NO_CONTENT"@) == Some(204u16),
        status_code_spec("MOVED_PERMANENTLY"@) == Some(301u16),
        status_code_spec("FOUND"@) == Some(302u16),
        status_code_spec("SEE_OTHER"@) == Some(303u16),
        status_code_spec("TEMPORARY_REDIRECT"@) == Some(307u16),
        status_code_spec("PERMANENT_REDIRECT"@) == Some(308u16),
        status_code_spec("BAD_REQUEST"@) == Some(400u16),
        status_code_spec("UNAUTHORIZED"@) == Some(401u16),
        status_code_spec("FORBIDDEN"@) == Some(403u16),
        status_code_spec("NOT_FOUND"@) == Some(404u16),
        status_code_spec("CONFLICT"@) == Some(409u16),
        status_code_spec("UNPROCESSABLE_ENTITY"@) == Some(422u16),
        status_code_spec("TOO_MANY_REQUESTS"@) == Some(429u16),
        status_code_spec("INTERNAL_SERVER_ERROR"@) == Some(500u16),
        status_code_spec("BAD_GATEWAY"@) == Some(502u16),
        status_code_spec("SERVICE_UNAVAILABLE"@) == Some(503u16),
        status_code_spec("GATEWAY_TIMEOUT"@) == Some(504u16),
        (name != "OK"@ && name != "CREATED"@ && name != "ACCEPTED"@ && name != "NO_CONTENT"@ && name != "MOVED_PERMANENTLY"@ && name != "FOUND"@ && name != "SEE_OTHER"@ && name != "TEMPORARY_REDIRECT"@ && name != "PERMANENT_REDIRECT"@ && name != "BAD_REQUEST"@ && name != "UNAUTHORIZED"@ && name != "FORBIDDEN"@ && name != "NOT_FOUND"@ && name != "CONFLICT"@ && name != "UNPROCESSABLE_ENTITY"@ && name != "TOO_MANY_REQUESTS"@ && name != "INTERNAL_SERVER_ERROR"@ && name != "BAD_GATEWAY"@ && name != "SERVICE_UNAVAILABLE"@ && name != "GATEWAY_TIMEOUT"@) ==> status_code_spec(name) is None,
{
    reveal_strlit("OK");
    assert("OK"@.len() == 2 && "OK"@[0] == 'O' && "OK"@[1] == 'K');
    reveal_strlit("CREATED");
    assert("CREATED"@.len() == 7 && "CREATED"@[0] == 'C' && "CREATED"@[1] == 'R');
    assert("CREATED"@[4] == 'T');
    reveal_strlit("ACCEPTED");
    assert("ACCEPTED"@.len() == 8 && "ACCEPTED"@[0] == 'A' && "ACCEPTED"@[1] == 'C');
    assert("ACCEPTED"@[4] == 'P');
    reveal_strlit("NO_CONTENT");
    assert("NO_CONTENT"@.len() == 10 && "NO_CONTENT"@[0] == 'N' && "NO_CONTENT"@[1] == 'O');
    assert("NO_CONTENT"@[4] == 'O');
    reveal_strlit("MOVED_PERMANENTLY");
    assert("MOVED_PERMANENTLY"@.len() == 17 && "MOVED_PERMANENTLY"@[0] == 'M' && "MOVED_PERMANENTLY"@[1] == 'O');
    assert("MOVED_PERMANENTLY"@[4] == 'D');
    reveal_strlit("FOUND");
    assert("FOUND"@.len() == 5 && "FOUND"@[0] == 'F' && "FOUND"@[1] == 'O');
    assert("FOUND"@[4] == 'D');
    reveal_strlit("SEE_OTHER");
    assert("SEE_OTHER"@.len() == 9 && "SEE_OTHER"@[0] == 'S' && "SEE_OTHER"@[1] == 'E');
    assert("SEE_OTHER"@[4] == 'O');
    reveal_strlit("TEMPORARY_REDIRECT");
    assert("TEMPORARY_REDIRECT"@.len() == 18 && "TEMPORARY_REDIRECT"@[0] == 'T' && "TEMPORARY_REDIRECT"@[1] == 'E');
    assert("TEMPORARY_REDIRECT"@[4] == 'O');
    reveal_strlit("PERMANENT_REDIRECT");
    assert("PERMANENT_REDIRECT"@.len() == 18 && "PERMANENT_REDIRECT"@[0] == 'P' && "PERMANENT_REDIRECT"@[1] == 'E');
    assert("PERMANENT_REDIRECT"@[4] == 'A');
    reveal_strlit("BAD_REQUEST");
    assert("BAD_REQUEST"@.len() == 11 && "BAD_REQUEST"@[0] == 'B' && "BAD_REQUEST"@[1] == 'A');
    assert("BAD_REQUEST"@[4] == 'R');
    reveal_strlit("UNAUTHORIZED");
    assert("UNAUTHORIZED"@.len() == 12 && "UNAUTHORIZED"@[0] == 'U' && "UNAUTHORIZED"@[1] == 'N');
    assert("UNAUTHORIZED"@[4] == 'T');
    reveal_strlit("FORBIDDEN");
    assert("FORBIDDEN"@.len() == 9 && "FORBIDDEN"@[0] == 'F' && "FORBIDDEN"@[1] == 'O');
    assert("FORBIDDEN"@[4] == 'I');
    reveal_strlit("NOT_FOUND");
    assert("NOT_FOUND"@.len() == 9 && "NOT_FOUND"@[0] == 'N' && "NOT_FOUND"@[1] == 'O');
    assert("NOT_FOUND"@[4] == 'F');
    reveal_strlit("CONFLICT");
    assert("CONFLICT"@.len() == 8 && "CONFLICT"@[0] == 'C' && "CONFLICT"@[1] == 'O');
    assert("CONFLICT"@[4] == 'L');
    reveal_strlit("UNPROCESSABLE_ENTITY");
    assert("UNPROCESSABLE_ENTITY"@.len() == 20 && "UNPROCESSABLE_ENTITY"@[0] == 'U' && "UNPROCESSABLE_ENTITY"@[1] == 'N');
    assert("UNPROCESSABLE_ENTITY"@[4] == 'O');
    reveal_strlit("TOO_MANY_REQUESTS");
    assert("TOO_MANY_REQUESTS"@.len() == 17 && "TOO_MANY_REQUESTS"@[0] == 'T' && "TOO_MANY_REQUESTS"@[1] == 'O');
    assert("TOO_MANY_REQUESTS"@[4] == 'M');
    reveal_strlit("INTERNAL_SERVER_ERROR");
    assert("INTERNAL_SERVER_ERROR"@.len() == 21 && "INTERNAL_SERVER_ERROR"@[0] == 'I' && "INTERNAL_SERVER_ERROR"@[1] == 'N');
    assert("INTERNAL_SERVER_ERROR"@[4] == 'R');
    reveal_strlit("BAD_GATEWAY");
    assert("BAD_GATEWAY"@.len() == 11 && "BAD_GATEWAY"@[0] == 'B' && "BAD_GATEWAY"@[1] == 'A');
    assert("BAD_GATEWAY"@[4] == 'G');
    reveal_strlit("SERVICE_UNAVAILABLE");
    assert("SERVICE_UNAVAILABLE"@.len() == 19 && "SERVICE_UNAVAILABLE"@[0] == 'S' && "SERVICE_UNAVAILABLE"@[1] == 'E');
    assert("SERVICE_UNAVAILABLE"@[4] == 'I');
    reveal_strlit("GATEWAY_TIMEOUT");
    assert("GATEWAY_TIMEOUT"@.len() == 15 && "GATEWAY_TIMEOUT"@[0] == 'G' && "GATEWAY_TIMEOUT"@[1] == 'A');
    assert("GATEWAY_TIMEOUT"@[4] == 'W');
}

/// Every status the analysis reads from a `StatusCode` constant is a valid HTTP status: a
/// success, redirection or error code between 200 and 599.
pub proof fn law_status_constants_are_http_statuses(name: Seq<char>)
    ensures
        status_code_spec(name) matches Some(c) ==> 200 <= c < 600,
{
}

/// Each `Redirect` constructor answers with the status axum sends: `Redirect::to` with 303
/// See Other, `Redirect::temporary` with 307 Temporary Redirect and `Redirect::permanent` with
/// 308 Permanent Redirect; no other method is a redirect.
pub proof fn law_redirect_constructors_use_axum_statuses(method: Seq<char>)
    ensures
        redirect_status_spec("to"@) == Some(303u16),
        redirect_status_spec("temporary"@) == Some(307u16),
        redirect_status_spec("permanent"@) == Some(308u16),
        method != "to"@ && method != "temporary"@ && method != "permanent"@ ==> redirect_status_spec(
            method,
        ) is None,
{
    reveal_strlit("to");
    reveal_strlit("temporary");
    reveal_strlit("permanent");
    assert("to"@.len() == 2);
    assert("temporary"@.len() == 9 && "temporary"@[0] == 't');
    assert("permanent"@.len() == 9 && "permanent"@[0] == 'p');
}

} // verus!
