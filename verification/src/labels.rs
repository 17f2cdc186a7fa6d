//! Label maps of projected resources and relationships, and how duplicate relationships merge
//! their labels.
//!
//! A label map is ordered by key, like a `BTreeMap<String, String>`. Most values are text;
//! when duplicate relationships disagree, the projection records what they said instead: for
//! a scalar label `name`, the sorted distinct values under `name-values` (an absent label
//! counts as `null`); for dependency relationships, the sorted distinct label sets under
//! `dependency-decisions`, keeping as scalars only the labels all of them share. Both are
//! written as JSON arrays when the document is rendered.
use vstd::prelude::*;

use crate::json_ws::json_string_literal;
use crate::text::{lemma_text_lt_irreflexive, owned, text_eq, text_lt, text_order, text_views};

verus! {

/// A label value.
#[derive(Clone, Debug, PartialEq, Eq)]
pub enum LabelValue {
    /// A plain text value.
    Text(String),
    /// The distinct values a scalar label took on merged duplicates (`None`: absent).
    Values(Vec<Option<String>>),
    /// The distinct label sets of merged dependency relationships.
    Decisions(Vec<Vec<(String, String)>>),
}

/// What a label value holds.
pub enum LabelView {
    Text(Seq<char>),
    Values(Seq<Option<Seq<char>>>),
    Decisions(Seq<Seq<(Seq<char>, Seq<char>)>>),
}

/// The view of an optional text.
pub open spec fn opt_text(s: Option<String>) -> Option<Seq<char>> {
    match s {
        Some(t) => Some(t@),
        None => None,
    }
}

/// The views of a list of optional texts.
pub open spec fn opt_texts(s: Seq<Option<String>>) -> Seq<Option<Seq<char>>> {
    s.map_values(|o: Option<String>| opt_text(o))
}

/// The view of a text label map.
pub open spec fn pair_views(s: Seq<(String, String)>) -> Seq<(Seq<char>, Seq<char>)> {
    s.map_values(|p: (String, String)| (p.0@, p.1@))
}

/// The view of a label value.
pub open spec fn label_view(v: LabelValue) -> LabelView {
    match v {
        LabelValue::Text(t) => LabelView::Text(t@),
        LabelValue::Values(l) => LabelView::Values(opt_texts(l@)),
        LabelValue::Decisions(d) => LabelView::Decisions(
            d@.map_values(|m: Vec<(String, String)>| pair_views(m@)),
        ),
    }
}

/// A label map, ordered by key.
#[derive(Clone, Debug, PartialEq, Eq)]
pub struct Labels {
    pub entries: Vec<(String, LabelValue)>,
}

impl View for Labels {
    type V = Seq<(Seq<char>, LabelView)>;

    open spec fn view(&self) -> Seq<(Seq<char>, LabelView)> {
        self.entries@.map_values(|e: (String, LabelValue)| (e.0@, label_view(e.1)))
    }
}

/// The value under key `k`, if any.
pub open spec fn lookup<V>(s: Seq<(Seq<char>, V)>, k: Seq<char>) -> Option<V>
    decreases s.len(),
{
    if s.len() == 0 {
        None
    } else if s[0].0 == k {
        Some(s[0].1)
    } else {
        lookup(s.drop_first(), k)
    }
}

/// The map with `k` set to `v`: an existing entry is replaced in place, a new one is inserted
/// before the first greater key.
pub open spec fn put<V>(s: Seq<(Seq<char>, V)>, k: Seq<char>, v: V) -> Seq<(Seq<char>, V)>
    decreases s.len(),
{
    if s.len() == 0 {
        seq![(k, v)]
    } else if s[0].0 == k {
        seq![(k, v)] + s.drop_first()
    } else if text_lt(k, s[0].0) {
        seq![(k, v)] + s
    } else {
        seq![s[0]] + put(s.drop_first(), k, v)
    }
}

/// The map without key `k`.
pub open spec fn without<V>(s: Seq<(Seq<char>, V)>, k: Seq<char>) -> Seq<(Seq<char>, V)>
    decreases s.len(),
{
    if s.len() == 0 {
        s
    } else if s[0].0 == k {
        s.drop_first()
    } else {
        seq![s[0]] + without(s.drop_first(), k)
    }
}

/// Whether the keys are strictly increasing.
pub open spec fn keys_sorted<V>(s: Seq<(Seq<char>, V)>) -> bool {
    forall|i: int, j: int| 0 <= i < j < s.len() ==> text_lt(#[trigger] s[i].0, #[trigger] s[j].0)
}

proof fn lemma_put_unfold<V>(s: Seq<(Seq<char>, V)>, i: int, k: Seq<char>, v: V)
    requires
        0 <= i < s.len(),
        s[i].0 != k,
        !text_lt(k, s[i].0),
    ensures
        put(s.skip(i), k, v) == seq![s[i]] + put(s.skip(i + 1), k, v),
{
    assert(s.skip(i).drop_first() =~= s.skip(i + 1));
}

impl Labels {
    /// An empty label map.
    pub fn new() -> (r: Labels)
        ensures
            r@ == Seq::<(Seq<char>, LabelView)>::empty(),
    {
        let r = Labels { entries: Vec::new() };
        proof {
            assert(r@ =~= Seq::<(Seq<char>, LabelView)>::empty());
        }
        r
    }

    /// Sets `key` to `value`, replacing any previous value.
    pub fn insert(&mut self, key: String, value: LabelValue)
        ensures
            final(self)@ == put(old(self)@, key@, label_view(value)),
    {
        let ghost s = self@;
        let ghost kv = key@;
        let ghost vv = label_view(value);
        let n = self.entries.len();
        let mut i: usize = 0;
        proof {
            assert(s.skip(0) =~= s);
            assert(put(s, kv, vv) =~= s.take(0) + put(s.skip(0), kv, vv));
        }
        while i < n && text_order(key.as_str(), self.entries[i].0.as_str()) > 0
            invariant
                s == self@,
                n == self.entries@.len(),
                kv == key@,
                i <= n,
                put(s, kv, vv) == s.take(i as int) + put(s.skip(i as int), kv, vv),
            decreases n - i,
        {
            proof {
                assert(s[i as int].0 == self.entries@[i as int].0@);
                lemma_text_lt_irreflexive(kv);
                lemma_put_unfold(s, i as int, kv, vv);
                assert(s.take(i + 1) =~= s.take(i as int).push(s[i as int]));
                assert(s.take(i as int) + (seq![s[i as int]] + put(s.skip(i + 1), kv, vv))
                    =~= s.take(i + 1) + put(s.skip(i + 1), kv, vv));
            }
            i = i + 1;
        }
        let c: i8 = if i < n {
            text_order(key.as_str(), self.entries[i].0.as_str())
        } else {
            1
        };
        proof {
            if i < n {
                assert(s[i as int].0 == self.entries@[i as int].0@);
            }
        }
        if i < n && c == 0 {
            self.entries.set(i, (key, value));
            proof {
                assert(s.skip(i as int)[0] == s[i as int]);
                assert(s.skip(i as int).drop_first() =~= s.skip(i + 1));
                assert(self@ =~= s.take(i as int) + (seq![(kv, vv)] + s.skip(i + 1)));
            }
        } else {
            self.entries.insert(i, (key, value));
            proof {
                if i < n {
                    assert(s.skip(i as int)[0] == s[i as int]);
                    assert(text_lt(kv, s[i as int].0));
                }
                assert(self@ =~= s.take(i as int) + (seq![(kv, vv)] + s.skip(i as int)));
            }
        }
    }

    /// The value under `key`, if any.
    pub fn get(&self, key: &str) -> (r: Option<&LabelValue>)
        ensures
            match r {
                Some(v) => lookup(self@, key@) == Some(label_view(*v)),
                None => lookup(self@, key@) is None,
            },
    {
        let ghost s = self@;
        let mut i: usize = 0;
        proof {
            assert(s.skip(0) =~= s);
        }
        while i < self.entries.len()
            invariant
                s == self@,
                i <= self.entries@.len(),
                lookup(s, key@) == lookup(s.skip(i as int), key@),
            decreases self.entries@.len() - i,
        {
            proof {
                assert(s[i as int].0 == self.entries@[i as int].0@);
                assert(s.skip(i as int)[0] == s[i as int]);
                assert(s.skip(i as int).drop_first() =~= s.skip(i + 1));
            }
            if text_eq(self.entries[i].0.as_str(), key) {
                return Some(&self.entries[i].1);
            }
            i = i + 1;
        }
        None
    }

    /// Removes `key`, returning its value if it was present.
    pub fn remove(&mut self, key: &str) -> (r: Option<LabelValue>)
        ensures
            final(self)@ == without(old(self)@, key@),
            match r {
                Some(v) => lookup(old(self)@, key@) == Some(label_view(v)),
                None => lookup(old(self)@, key@) is None,
            },
    {
        let ghost s = self@;
        let mut i: usize = 0;
        proof {
            assert(s.skip(0) =~= s);
            assert(without(s, key@) =~= s.take(0) + without(s.skip(0), key@));
        }
        while i < self.entries.len()
            invariant
                s == self@,
                s == old(self)@,
                i <= self.entries@.len(),
                lookup(s, key@) == lookup(s.skip(i as int), key@),
                without(s, key@) == s.take(i as int) + without(s.skip(i as int), key@),
            decreases self.entries@.len() - i,
        {
            proof {
                assert(s[i as int].0 == self.entries@[i as int].0@);
                assert(s.skip(i as int)[0] == s[i as int]);
                assert(s.skip(i as int).drop_first() =~= s.skip(i + 1));
            }
            if text_eq(self.entries[i].0.as_str(), key) {
                let ghost before = self.entries@;
                let removed = self.entries.remove(i);
                proof {
                    assert(removed == before[i as int]);
                    assert(s[i as int] == (removed.0@, label_view(removed.1)));
                    assert(lookup(s.skip(i as int), key@) == Some(s[i as int].1));
                    assert(without(s.skip(i as int), key@) == s.skip(i as int).drop_first());
                    assert(self@ =~= s.take(i as int) + s.skip(i + 1));
                    assert(s == old(self)@);
                    assert(lookup(old(self)@, key@) == Some(label_view(removed.1)));
                    assert(self@ == without(old(self)@, key@));
                }
                return Some(removed.1);
            }
            proof {
                assert(s.take(i + 1) =~= s.take(i as int).push(s[i as int]));
                assert(s.take(i as int) + (seq![s[i as int]] + without(s.skip(i + 1), key@))
                    =~= s.take(i + 1) + without(s.skip(i + 1), key@));
            }
            i = i + 1;
        }
        proof {
            assert(s.skip(s.len() as int) =~= Seq::<(Seq<char>, LabelView)>::empty());
            assert(s.take(s.len() as int) =~= s);
        }
        None
    }
}

/// `put` keeps keys strictly increasing.
pub proof fn law_put_keeps_keys_sorted<V>(s: Seq<(Seq<char>, V)>, k: Seq<char>, v: V)
    requires
        keys_sorted(s),
    ensures
        keys_sorted(put(s, k, v)),
    decreases s.len(),
{
    if s.len() > 0 {
        if s[0].0 != k && !text_lt(k, s[0].0) {
            let t = s.drop_first();
            assert(keys_sorted(t)) by {
                assert forall|i: int, j: int| 0 <= i < j < t.len() implies text_lt(
                    #[trigger] t[i].0,
                    #[trigger] t[j].0,
                ) by {
                    assert(t[i] == s[i + 1] && t[j] == s[j + 1]);
                }
            }
            law_put_keeps_keys_sorted(t, k, v);
            crate::text::lemma_text_lt_total(k, s[0].0);
            lemma_put_keys_above(t, k, v, s[0].0);
            let r = seq![s[0]] + put(t, k, v);
            assert forall|i: int, j: int| 0 <= i < j < r.len() implies text_lt(
                #[trigger] r[i].0,
                #[trigger] r[j].0,
            ) by {
                if i > 0 {
                    assert(r[i] == put(t, k, v)[i - 1] && r[j] == put(t, k, v)[j - 1]);
                } else {
                    assert(r[j] == put(t, k, v)[j - 1]);
                }
            }
        } else if s[0].0 == k {
            let r = seq![(k, v)] + s.drop_first();
            assert forall|i: int, j: int| 0 <= i < j < r.len() implies text_lt(
                #[trigger] r[i].0,
                #[trigger] r[j].0,
            ) by {
                assert(r[j] == s[j]);
                if i > 0 {
                    assert(r[i] == s[i]);
                }
            }
        } else {
            let r = seq![(k, v)] + s;
            assert forall|i: int, j: int| 0 <= i < j < r.len() implies text_lt(
                #[trigger] r[i].0,
                #[trigger] r[j].0,
            ) by {
                assert(r[j] == s[j - 1]);
                if i > 0 {
                    assert(r[i] == s[i - 1]);
                } else if j > 1 {
                    crate::text::lemma_text_lt_transitive(k, s[0].0, s[j - 1].0);
                }
            }
        }
    }
}

proof fn lemma_put_keys_above<V>(s: Seq<(Seq<char>, V)>, k: Seq<char>, v: V, lo: Seq<char>)
    requires
        forall|i: int| 0 <= i < s.len() ==> text_lt(lo, #[trigger] s[i].0),
        text_lt(lo, k),
    ensures
        forall|i: int| 0 <= i < put(s, k, v).len() ==> text_lt(lo, #[trigger] put(s, k, v)[i].0),
    decreases s.len(),
{
    if s.len() > 0 && s[0].0 != k && !text_lt(k, s[0].0) {
        let t = s.drop_first();
        assert forall|i: int| 0 <= i < t.len() implies text_lt(lo, #[trigger] t[i].0) by {
            assert(t[i] == s[i + 1]);
        }
        lemma_put_keys_above(t, k, v, lo);
        let r = put(s, k, v);
        assert forall|i: int| 0 <= i < r.len() implies text_lt(lo, #[trigger] r[i].0) by {
            if i > 0 {
                assert(r[i] == put(t, k, v)[i - 1]);
            }
        }
    } else if s.len() > 0 && s[0].0 == k {
        let r = put(s, k, v);
        assert forall|i: int| 0 <= i < r.len() implies text_lt(lo, #[trigger] r[i].0) by {
            if i > 0 {
                assert(r[i] == s[i]);
            }
        }
    } else if s.len() > 0 {
        let r = put(s, k, v);
        assert forall|i: int| 0 <= i < r.len() implies text_lt(lo, #[trigger] r[i].0) by {
            if i > 0 {
                assert(r[i] == s[i - 1]);
            }
        }
    }
}

/// A value set under a key is what the key then looks up, and other keys keep their values.
pub proof fn law_put_then_lookup<V>(s: Seq<(Seq<char>, V)>, k: Seq<char>, v: V, other: Seq<char>)
    ensures
        lookup(put(s, k, v), k) == Some(v),
        other != k ==> lookup(put(s, k, v), other) == lookup(s, other),
    decreases s.len(),
{
    let r = put(s, k, v);
    if s.len() > 0 && s[0].0 != k && !text_lt(k, s[0].0) {
        law_put_then_lookup(s.drop_first(), k, v, other);
        assert(r == seq![s[0]] + put(s.drop_first(), k, v));
        assert(r.drop_first() =~= put(s.drop_first(), k, v));
        assert(r[0] == s[0]);
        if other != k {
            if s[0].0 == other {
                assert(lookup(r, other) == Some(s[0].1));
            } else {
                assert(lookup(r, other) == lookup(put(s.drop_first(), k, v), other));
                assert(lookup(s, other) == lookup(s.drop_first(), other));
            }
        }
    } else if s.len() > 0 && s[0].0 == k {
        assert(r == seq![(k, v)] + s.drop_first());
        assert(r.drop_first() =~= s.drop_first());
        assert(r[0] == (k, v));
        if other != k {
            assert(lookup(r, other) == lookup(s.drop_first(), other));
            assert(lookup(s, other) == lookup(s.drop_first(), other));
        }
    } else if s.len() > 0 {
        assert(r == seq![(k, v)] + s);
        assert(r.drop_first() =~= s);
        assert(r[0] == (k, v));
        if other != k {
            assert(lookup(r, other) == lookup(s, other));
        }
    } else {
        assert(r.drop_first() =~= Seq::<(Seq<char>, V)>::empty());
        assert(r[0] == (k, v));
    }
}


// ---------------------------------------------------------------------------------------------
// Ordered sets of texts and optional texts
// ---------------------------------------------------------------------------------------------

/// `s` with `x` added at its ordered place (nothing changes if `x` is present there).
pub open spec fn text_insert(s: Seq<Seq<char>>, x: Seq<char>) -> Seq<Seq<char>>
    decreases s.len(),
{
    if s.len() == 0 {
        seq![x]
    } else if s[0] == x {
        s
    } else if text_lt(x, s[0]) {
        seq![x] + s
    } else {
        seq![s[0]] + text_insert(s.drop_first(), x)
    }
}

/// The distinct texts of `l` in increasing order (what collecting into a `BTreeSet` gives).
pub open spec fn text_set(l: Seq<Seq<char>>) -> Seq<Seq<char>>
    decreases l.len(),
{
    if l.len() == 0 {
        Seq::empty()
    } else {
        text_insert(text_set(l.drop_last()), l.last())
    }
}

/// The order of optional texts: absent first, then texts in order.
pub open spec fn opt_lt(a: Option<Seq<char>>, b: Option<Seq<char>>) -> bool {
    match (a, b) {
        (None, Some(_)) => true,
        (Some(x), Some(y)) => text_lt(x, y),
        _ => false,
    }
}

/// `s` with `x` added at its ordered place.
pub open spec fn opt_insert(s: Seq<Option<Seq<char>>>, x: Option<Seq<char>>) -> Seq<
    Option<Seq<char>>,
>
    decreases s.len(),
{
    if s.len() == 0 {
        seq![x]
    } else if s[0] == x {
        s
    } else if opt_lt(x, s[0]) {
        seq![x] + s
    } else {
        seq![s[0]] + opt_insert(s.drop_first(), x)
    }
}

/// The distinct optional texts of `l` in increasing order (a sort followed by a dedup).
pub open spec fn opt_set(l: Seq<Option<Seq<char>>>) -> Seq<Option<Seq<char>>>
    decreases l.len(),
{
    if l.len() == 0 {
        Seq::empty()
    } else {
        opt_insert(opt_set(l.drop_last()), l.last())
    }
}

fn insert_text(v: &mut Vec<String>, x: String)
    ensures
        text_views(final(v)@) == text_insert(text_views(old(v)@), x@),
{
    let ghost s = text_views(v@);
    let n = v.len();
    let mut i: usize = 0;
    proof {
        assert(s.skip(0) =~= s);
        assert(text_insert(s, x@) =~= s.take(0) + text_insert(s.skip(0), x@));
    }
    while i < n && text_order(x.as_str(), v[i].as_str()) > 0
        invariant
            s == text_views(v@),
            n == v@.len(),
            i <= n,
            text_insert(s, x@) == s.take(i as int) + text_insert(s.skip(i as int), x@),
        decreases n - i,
    {
        proof {
            assert(s[i as int] == v@[i as int]@);
            lemma_text_lt_irreflexive(x@);
            assert(s.skip(i as int)[0] == s[i as int]);
            assert(s.skip(i as int).drop_first() =~= s.skip(i + 1));
            assert(s.take(i + 1) =~= s.take(i as int).push(s[i as int]));
            assert(s.take(i as int) + (seq![s[i as int]] + text_insert(s.skip(i + 1), x@))
                =~= s.take(i + 1) + text_insert(s.skip(i + 1), x@));
        }
        i = i + 1;
    }
    let c: i8 = if i < n {
        text_order(x.as_str(), v[i].as_str())
    } else {
        1
    };
    proof {
        if i < n {
            assert(s[i as int] == v@[i as int]@);
            assert(s.skip(i as int)[0] == s[i as int]);
        }
    }
    if i < n && c == 0 {
        proof {
            assert(s.take(i as int) + s.skip(i as int) =~= s);
        }
    } else {
        let ghost gx = x;
        v.insert(i, x);
        proof {
            assert(text_views(v@) =~= s.take(i as int) + (seq![gx@] + s.skip(i as int)));
        }
    }
}

/// The three-way order of optional texts.
fn opt_order(a: &Option<String>, b: &Option<String>) -> (r: i8)
    ensures
        r < 0 <==> opt_lt(opt_text(*a), opt_text(*b)),
        r == 0 <==> opt_text(*a) == opt_text(*b),
        r > 0 <==> opt_lt(opt_text(*b), opt_text(*a)),
{
    match (a, b) {
        (None, None) => 0,
        (None, Some(_)) => -1,
        (Some(_), None) => 1,
        (Some(x), Some(y)) => text_order(x.as_str(), y.as_str()),
    }
}

fn insert_opt(v: &mut Vec<Option<String>>, x: Option<String>)
    ensures
        opt_texts(final(v)@) == opt_insert(opt_texts(old(v)@), opt_text(x)),
{
    let ghost s = opt_texts(v@);
    let ghost xv = opt_text(x);
    let n = v.len();
    let mut i: usize = 0;
    proof {
        assert(s.skip(0) =~= s);
        assert(opt_insert(s, xv) =~= s.take(0) + opt_insert(s.skip(0), xv));
    }
    while i < n && opt_order(&x, &v[i]) > 0
        invariant
            s == opt_texts(v@),
            xv == opt_text(x),
            n == v@.len(),
            i <= n,
            opt_insert(s, xv) == s.take(i as int) + opt_insert(s.skip(i as int), xv),
        decreases n - i,
    {
        proof {
            assert(s[i as int] == opt_text(v@[i as int]));
            if let Some(t) = xv {
                lemma_text_lt_irreflexive(t);
            }
            assert(s.skip(i as int)[0] == s[i as int]);
            assert(s.skip(i as int).drop_first() =~= s.skip(i + 1));
            assert(s.take(i + 1) =~= s.take(i as int).push(s[i as int]));
            assert(s.take(i as int) + (seq![s[i as int]] + opt_insert(s.skip(i + 1), xv))
                =~= s.take(i + 1) + opt_insert(s.skip(i + 1), xv));
        }
        i = i + 1;
    }
    let c: i8 = if i < n {
        opt_order(&x, &v[i])
    } else {
        1
    };
    proof {
        if i < n {
            assert(s[i as int] == opt_text(v@[i as int]));
            assert(s.skip(i as int)[0] == s[i as int]);
        }
    }
    if i < n && c == 0 {
        proof {
            assert(s.take(i as int) + s.skip(i as int) =~= s);
        }
    } else {
        v.insert(i, x);
        proof {
            assert(opt_texts(v@) =~= s.take(i as int) + (seq![xv] + s.skip(i as int)));
        }
    }
}

/// The distinct optional texts of a list in increasing order (a sort followed by a dedup).
pub fn sorted_distinct_values(l: Vec<Option<String>>) -> (r: Vec<Option<String>>)
    ensures
        opt_texts(r@) == opt_set(opt_texts(l@)),
{
    let ghost all = opt_texts(l@);
    let mut r: Vec<Option<String>> = Vec::new();
    let mut rest = l;
    let ghost k: int = 0;
    proof {
        assert(opt_texts(r@) =~= opt_set(all.take(0)));
        assert(opt_texts(rest@) =~= all.skip(0));
    }
    while rest.len() > 0
        invariant
            0 <= k <= all.len(),
            all.len() == k + rest@.len(),
            opt_texts(rest@) == all.skip(k),
            opt_texts(r@) == opt_set(all.take(k)),
        decreases rest@.len(),
    {
        let ghost before = rest@;
        let x = rest.remove(0);
        proof {
            assert(before[0] == x);
            assert(opt_texts(before)[0] == opt_text(x));
            assert(all[k] == opt_text(x));
            assert(rest@ =~= before.skip(1));
            assert(opt_texts(rest@) =~= opt_texts(before).skip(1));
            assert(opt_texts(before).skip(1) =~= all.skip(k + 1));
            assert(all.take(k + 1).drop_last() =~= all.take(k));
            assert(all.take(k + 1).last() == all[k]);
        }
        insert_opt(&mut r, x);
        proof {
            k = k + 1;
        }
    }
    proof {
        assert(all.take(k) =~= all);
    }
    r
}

// ---------------------------------------------------------------------------------------------
// Scalar label merging
// ---------------------------------------------------------------------------------------------

/// The suffix of aggregate label names.
pub open spec fn values_suffix() -> Seq<char> {
    "-values"@
}

/// `name` without one trailing `-values`.
pub open spec fn strip_values(k: Seq<char>) -> Seq<char> {
    if k.len() >= 7 && k.skip(k.len() - 7) == values_suffix() {
        k.take(k.len() - 7)
    } else {
        k
    }
}

/// The keys of a label map.
pub open spec fn keys<V>(s: Seq<(Seq<char>, V)>) -> Seq<Seq<char>> {
    s.map_values(|e: (Seq<char>, V)| e.0)
}

/// The label names a scalar merge visits: every key of either map, `-values` stripped,
/// distinct and in increasing order.
pub open spec fn merge_names(e: Seq<(Seq<char>, LabelView)>, i: Seq<(Seq<char>, LabelView)>) -> Seq<
    Seq<char>,
> {
    text_set((keys(e) + keys(i)).map_values(|k: Seq<char>| strip_values(k)))
}

/// The text of a label value, if it is one.
pub open spec fn text_of(v: Option<LabelView>) -> Option<Seq<char>> {
    match v {
        Some(LabelView::Text(t)) => Some(t),
        _ => None,
    }
}

/// One scalar merge step for label `name`: an existing aggregate gains the incoming value
/// (absent counts as `null`); otherwise a differing value turns the label into an aggregate
/// of both values.
pub open spec fn scalar_step(
    state: Seq<(Seq<char>, LabelView)>,
    incoming: Seq<(Seq<char>, LabelView)>,
    name: Seq<char>,
) -> Seq<(Seq<char>, LabelView)> {
    let aggregate = name + values_suffix();
    match lookup(state, aggregate) {
        Some(LabelView::Values(l)) => put(
            without(state, name),
            aggregate,
            LabelView::Values(opt_set(l.push(text_of(lookup(incoming, name))))),
        ),
        Some(_) => state,
        None => if lookup(state, name) == lookup(incoming, name) {
            state
        } else {
            put(
                without(state, name),
                aggregate,
                LabelView::Values(
                    opt_set(seq![text_of(lookup(state, name)), text_of(lookup(incoming, name))]),
                ),
            )
        },
    }
}

/// The scalar merge over the first `n` names.
pub open spec fn scalar_merge_upto(
    state: Seq<(Seq<char>, LabelView)>,
    incoming: Seq<(Seq<char>, LabelView)>,
    names: Seq<Seq<char>>,
    n: int,
) -> Seq<(Seq<char>, LabelView)>
    decreases n,
{
    if n <= 0 {
        state
    } else {
        scalar_step(scalar_merge_upto(state, incoming, names, n - 1), incoming, names[n - 1])
    }
}

/// The labels after merging a duplicate relationship's scalar labels into `existing`.
pub open spec fn scalar_merge(
    existing: Seq<(Seq<char>, LabelView)>,
    incoming: Seq<(Seq<char>, LabelView)>,
) -> Seq<(Seq<char>, LabelView)> {
    let names = merge_names(existing, incoming);
    scalar_merge_upto(existing, incoming, names, names.len() as int)
}

/// Whether every label value is plain text.
pub open spec fn all_text(s: Seq<(Seq<char>, LabelView)>) -> bool {
    forall|i: int| 0 <= i < s.len() ==> (#[trigger] s[i]).1 is Text
}

fn strip_values_exec(k: &str) -> (r: String)
    ensures
        r@ == strip_values(k@),
{
    let n = k.unicode_len();
    if n >= 7 {
        let tail = k.substring_char(n - 7, n);
        if text_eq(tail, "-values") {
            proof {
                assert(k@.skip(n - 7) =~= k@.subrange(n - 7, n as int));
            }
            return owned(k.substring_char(0, n - 7));
        }
        proof {
            assert(k@.skip(n - 7) =~= k@.subrange(n - 7, n as int));
        }
    }
    owned(k)
}

fn add_stripped_keys(r: &mut Vec<String>, labels: &Labels, Ghost(before): Ghost<Seq<Seq<char>>>)
    requires
        text_views(old(r)@) == text_set(before.map_values(|k: Seq<char>| strip_values(k))),
    ensures
        text_views(final(r)@) == text_set(
            (before + keys(labels@)).map_values(|k: Seq<char>| strip_values(k)),
        ),
{
    let ghost ks = keys(labels@);
    let mut i: usize = 0;
    proof {
        assert(before + ks.take(0) =~= before);
    }
    while i < labels.entries.len()
        invariant
            ks == keys(labels@),
            i <= labels.entries@.len(),
            text_views(r@) == text_set(
                (before + ks.take(i as int)).map_values(|k: Seq<char>| strip_values(k)),
            ),
        decreases labels.entries@.len() - i,
    {
        let key: &str = labels.entries[i].0.as_str();
        proof {
            assert(ks[i as int] == labels@[i as int].0);
            let prev = (before + ks.take(i as int)).map_values(|k: Seq<char>| strip_values(k));
            let next = (before + ks.take(i + 1)).map_values(|k: Seq<char>| strip_values(k));
            assert(next.drop_last() =~= prev);
            assert(next.last() == strip_values(key@));
        }
        let name = strip_values_exec(key);
        insert_text(r, name);
        i = i + 1;
    }
    proof {
        assert(ks.take(labels@.len() as int) =~= ks);
    }
}

fn names_of(existing: &Labels, incoming: &Labels) -> (r: Vec<String>)
    ensures
        text_views(r@) == merge_names(existing@, incoming@),
{
    let mut r: Vec<String> = Vec::new();
    proof {
        assert(text_views(r@) =~= text_set(
            Seq::<Seq<char>>::empty().map_values(|k: Seq<char>| strip_values(k)),
        ));
    }
    add_stripped_keys(&mut r, existing, Ghost(Seq::<Seq<char>>::empty()));
    proof {
        assert(Seq::<Seq<char>>::empty() + keys(existing@) =~= keys(existing@));
    }
    add_stripped_keys(&mut r, incoming, Ghost(keys(existing@)));
    r
}

fn text_value(v: Option<&LabelValue>) -> (r: Option<String>)
    ensures
        opt_text(r) == text_of(
            match v {
                Some(x) => Some(label_view(*x)),
                None => None,
            },
        ),
{
    match v {
        Some(LabelValue::Text(t)) => Some(owned(t.as_str())),
        _ => None,
    }
}

fn same_value(a: Option<&LabelValue>, b: Option<&LabelValue>) -> (r: bool)
    requires
        a matches Some(x) ==> x is Text,
        b matches Some(x) ==> x is Text,
    ensures
        r == (match a {
            Some(x) => Some(label_view(*x)),
            None => None,
        } == match b {
            Some(x) => Some(label_view(*x)),
            None => None,
        }),
{
    match (a, b) {
        (Some(LabelValue::Text(x)), Some(LabelValue::Text(y))) => text_eq(x.as_str(), y.as_str()),
        (None, None) => true,
        _ => false,
    }
}

proof fn lemma_lookup_text(s: Seq<(Seq<char>, LabelView)>, k: Seq<char>)
    requires
        all_text(s),
    ensures
        lookup(s, k) matches Some(v) ==> v is Text,
    decreases s.len(),
{
    if s.len() > 0 && s[0].0 != k {
        let t = s.drop_first();
        assert forall|i: int| 0 <= i < t.len() implies (#[trigger] t[i]).1 is Text by {
            assert(t[i] == s[i + 1]);
        }
        lemma_lookup_text(t, k);
    }
}


/// Whether a key ends with `-values`.
pub open spec fn ends_with_values(k: Seq<char>) -> bool {
    k.len() >= 7 && k.skip(k.len() - 7) == values_suffix()
}

/// Whether a label map is ready for scalar merging: aggregates (and only they) sit under
/// `-values` keys, no key ends with `-values-values`, and there are no dependency decisions.
pub open spec fn scalar_ready(s: Seq<(Seq<char>, LabelView)>) -> bool {
    forall|i: int|
        0 <= i < s.len() ==> !ends_with_values(strip_values(#[trigger] s[i].0)) && (s[i].1 is Values
            <==> ends_with_values(s[i].0)) && !(s[i].1 is Decisions)
}

/// Whether incoming labels can be merged: plain text under keys not ending in
/// `-values-values`.
pub open spec fn incoming_ready(s: Seq<(Seq<char>, LabelView)>) -> bool {
    forall|i: int|
        0 <= i < s.len() ==> !ends_with_values(strip_values(#[trigger] s[i].0)) && s[i].1 is Text
}

proof fn lemma_lookup_entry<V>(s: Seq<(Seq<char>, V)>, k: Seq<char>)
    ensures
        lookup(s, k) matches Some(v) ==> exists|i: int| 0 <= i < s.len() && #[trigger] s[i] == (k, v),
    decreases s.len(),
{
    if s.len() > 0 && s[0].0 != k {
        lemma_lookup_entry(s.drop_first(), k);
        if let Some(v) = lookup(s, k) {
            let i = choose|i: int| 0 <= i < s.drop_first().len() && #[trigger] s.drop_first()[i] == (k, v);
            assert(s[i + 1] == (k, v));
        }
    } else if s.len() > 0 {
        assert(s[0] == (k, s[0].1));
    }
}

proof fn lemma_put_entries<V>(s: Seq<(Seq<char>, V)>, k: Seq<char>, v: V)
    ensures
        forall|i: int|
            0 <= i < put(s, k, v).len() ==> #[trigger] put(s, k, v)[i] == (k, v) || exists|j: int|
                0 <= j < s.len() && s[j] == put(s, k, v)[i],
    decreases s.len(),
{
    let r = put(s, k, v);
    if s.len() > 0 && s[0].0 != k && !text_lt(k, s[0].0) {
        let t = s.drop_first();
        lemma_put_entries(t, k, v);
        assert forall|i: int| 0 <= i < r.len() implies #[trigger] r[i] == (k, v) || exists|j: int|
            0 <= j < s.len() && s[j] == r[i] by {
            if i == 0 {
                assert(s[0] == r[0]);
            } else {
                assert(r[i] == put(t, k, v)[i - 1]);
                if put(t, k, v)[i - 1] != (k, v) {
                    let j = choose|j: int| 0 <= j < t.len() && t[j] == put(t, k, v)[i - 1];
                    assert(s[j + 1] == t[j]);
                }
            }
        }
    } else if s.len() > 0 && s[0].0 == k {
        assert forall|i: int| 0 <= i < r.len() implies #[trigger] r[i] == (k, v) || exists|j: int|
            0 <= j < s.len() && s[j] == r[i] by {
            if i > 0 {
                assert(s[i] == r[i]);
            }
        }
    } else if s.len() > 0 {
        assert forall|i: int| 0 <= i < r.len() implies #[trigger] r[i] == (k, v) || exists|j: int|
            0 <= j < s.len() && s[j] == r[i] by {
            if i > 0 {
                assert(s[i - 1] == r[i]);
            }
        }
    }
}

proof fn lemma_without_entries<V>(s: Seq<(Seq<char>, V)>, k: Seq<char>)
    ensures
        forall|i: int|
            0 <= i < without(s, k).len() ==> exists|j: int|
                0 <= j < s.len() && s[j] == #[trigger] without(s, k)[i],
    decreases s.len(),
{
    let r = without(s, k);
    if s.len() > 0 && s[0].0 != k {
        let t = s.drop_first();
        lemma_without_entries(t, k);
        assert forall|i: int| 0 <= i < r.len() implies exists|j: int|
            0 <= j < s.len() && s[j] == #[trigger] r[i] by {
            if i == 0 {
                assert(s[0] == r[0]);
            } else {
                assert(r[i] == without(t, k)[i - 1]);
                let j = choose|j: int| 0 <= j < t.len() && t[j] == without(t, k)[i - 1];
                assert(s[j + 1] == t[j]);
            }
        }
    } else if s.len() > 0 {
        assert forall|i: int| 0 <= i < r.len() implies exists|j: int|
            0 <= j < s.len() && s[j] == #[trigger] r[i] by {
            assert(s[i + 1] == r[i]);
        }
    }
}

proof fn lemma_text_insert_members(s: Seq<Seq<char>>, x: Seq<char>)
    ensures
        forall|i: int|
            0 <= i < text_insert(s, x).len() ==> #[trigger] text_insert(s, x)[i] == x || exists|j: int|
                0 <= j < s.len() && s[j] == text_insert(s, x)[i],
    decreases s.len(),
{
    let r = text_insert(s, x);
    if s.len() > 0 && s[0] != x && !text_lt(x, s[0]) {
        let t = s.drop_first();
        lemma_text_insert_members(t, x);
        assert forall|i: int| 0 <= i < r.len() implies #[trigger] r[i] == x || exists|j: int|
            0 <= j < s.len() && s[j] == r[i] by {
            if i == 0 {
                assert(s[0] == r[0]);
            } else {
                assert(r[i] == text_insert(t, x)[i - 1]);
                if text_insert(t, x)[i - 1] != x {
                    let j = choose|j: int| 0 <= j < t.len() && t[j] == text_insert(t, x)[i - 1];
                    assert(s[j + 1] == t[j]);
                }
            }
        }
    } else if s.len() > 0 && s[0] == x {
        assert forall|i: int| 0 <= i < r.len() implies #[trigger] r[i] == x || exists|j: int|
            0 <= j < s.len() && s[j] == r[i] by {
            assert(s[i] == r[i]);
        }
    } else if s.len() > 0 {
        assert forall|i: int| 0 <= i < r.len() implies #[trigger] r[i] == x || exists|j: int|
            0 <= j < s.len() && s[j] == r[i] by {
            if i > 0 {
                assert(s[i - 1] == r[i]);
            }
        }
    }
}

proof fn lemma_text_set_members(l: Seq<Seq<char>>)
    ensures
        forall|i: int|
            0 <= i < text_set(l).len() ==> exists|j: int| 0 <= j < l.len() && l[j] == #[trigger] text_set(l)[i],
    decreases l.len(),
{
    if l.len() > 0 {
        let p = l.drop_last();
        lemma_text_set_members(p);
        lemma_text_insert_members(text_set(p), l.last());
        let r = text_set(l);
        assert forall|i: int| 0 <= i < r.len() implies exists|j: int| 0 <= j < l.len() && l[j] == #[trigger] r[i] by {
            if r[i] == l.last() {
                assert(l[l.len() - 1] == r[i]);
            } else {
                let j = choose|j: int| 0 <= j < text_set(p).len() && text_set(p)[j] == r[i];
                let m = choose|m: int| 0 <= m < p.len() && p[m] == #[trigger] text_set(p)[j];
                assert(l[m] == p[m]);
            }
        }
    }
}

proof fn lemma_names_ok(e: Seq<(Seq<char>, LabelView)>, inc: Seq<(Seq<char>, LabelView)>)
    requires
        scalar_ready(e),
        incoming_ready(inc),
    ensures
        forall|i: int|
            0 <= i < merge_names(e, inc).len() ==> !ends_with_values(#[trigger] merge_names(e, inc)[i]),
{
    let ks = keys(e) + keys(inc);
    let st = ks.map_values(|k: Seq<char>| strip_values(k));
    lemma_text_set_members(st);
    assert forall|i: int| 0 <= i < merge_names(e, inc).len() implies !ends_with_values(
        #[trigger] merge_names(e, inc)[i],
    ) by {
        let j = choose|j: int| 0 <= j < st.len() && st[j] == #[trigger] text_set(st)[i];
        if j < e.len() {
            assert(ks[j] == e[j].0);
        } else {
            assert(ks[j] == inc[j - e.len()].0);
        }
    }
}

proof fn lemma_ready_lookup(s: Seq<(Seq<char>, LabelView)>, n: Seq<char>)
    requires
        scalar_ready(s),
        !ends_with_values(n),
    ensures
        lookup(s, n) matches Some(v) ==> v is Text,
{
    lemma_lookup_entry(s, n);
    if let Some(v) = lookup(s, n) {
        let i = choose|i: int| 0 <= i < s.len() && #[trigger] s[i] == (n, v);
        assert(s[i].0 == n);
    }
}

proof fn lemma_incoming_lookup(s: Seq<(Seq<char>, LabelView)>, n: Seq<char>)
    requires
        incoming_ready(s),
    ensures
        lookup(s, n) matches Some(v) ==> v is Text,
{
    lemma_lookup_entry(s, n);
    if let Some(v) = lookup(s, n) {
        let i = choose|i: int| 0 <= i < s.len() && #[trigger] s[i] == (n, v);
        assert(s[i].0 == n);
        assert(s[i].1 is Text);
    }
}

proof fn lemma_strip_aggregate(n: Seq<char>)
    requires
        !ends_with_values(n),
    ensures
        ends_with_values(n + values_suffix()),
        strip_values(n + values_suffix()) == n,
        !ends_with_values(strip_values(n + values_suffix())),
{
    let a = n + values_suffix();
    reveal_strlit("-values");
    assert(a.skip(a.len() - 7) =~= values_suffix());
    assert(a.take(a.len() - 7) =~= n);
}

proof fn lemma_step_ready(
    state: Seq<(Seq<char>, LabelView)>,
    name: Seq<char>,
    l: Seq<Option<Seq<char>>>,
)
    requires
        scalar_ready(state),
        !ends_with_values(name),
    ensures
        scalar_ready(put(without(state, name), name + values_suffix(), LabelView::Values(l))),
{
    let w = without(state, name);
    let agg = name + values_suffix();
    let v = LabelView::Values(l);
    lemma_without_entries(state, name);
    lemma_put_entries(w, agg, v);
    lemma_strip_aggregate(name);
    let r = put(w, agg, v);
    assert forall|i: int| 0 <= i < r.len() implies !ends_with_values(strip_values(#[trigger] r[i].0))
        && (r[i].1 is Values <==> ends_with_values(r[i].0)) && !(r[i].1 is Decisions) by {
        if r[i] != (agg, v) {
            let j = choose|j: int| 0 <= j < w.len() && w[j] == r[i];
            let m = choose|m: int| 0 <= m < state.len() && state[m] == #[trigger] w[j];
            assert(state[m] == r[i]);
        }
    }
}

fn copy_values(l: &Vec<Option<String>>) -> (r: Vec<Option<String>>)
    ensures
        opt_texts(r@) == opt_texts(l@),
{
    let mut r: Vec<Option<String>> = Vec::new();
    let mut i: usize = 0;
    while i < l.len()
        invariant
            i <= l@.len(),
            r@.len() == i,
            forall|j: int| 0 <= j < i ==> opt_text(#[trigger] r@[j]) == opt_text(l@[j]),
        decreases l@.len() - i,
    {
        let c = match &l[i] {
            Some(t) => Some(owned(t.as_str())),
            None => None,
        };
        r.push(c);
        i = i + 1;
    }
    proof {
        assert(opt_texts(r@) =~= opt_texts(l@));
    }
    r
}

/// Merges a duplicate relationship's scalar labels into `existing`, name by name in order: a
/// label already aggregated under `<name>-values` gains the incoming value, and a label whose
/// incoming value differs becomes such an aggregate; equal labels stay as they are.
pub fn merge_scalar_labels(existing: &mut Labels, incoming: &Labels)
    requires
        scalar_ready(old(existing)@),
        incoming_ready(incoming@),
    ensures
        final(existing)@ == scalar_merge(old(existing)@, incoming@),
        scalar_ready(final(existing)@),
{
    let ghost e0 = existing@;
    let names = names_of(existing, incoming);
    let ghost ns = text_views(names@);
    proof {
        lemma_names_ok(e0, incoming@);
    }
    let mut i: usize = 0;
    while i < names.len()
        invariant
            ns == text_views(names@),
            ns == merge_names(e0, incoming@),
            forall|q: int| 0 <= q < ns.len() ==> !ends_with_values(#[trigger] ns[q]),
            incoming_ready(incoming@),
            i <= names@.len(),
            existing@ == scalar_merge_upto(e0, incoming@, ns, i as int),
            scalar_ready(existing@),
        decreases names@.len() - i,
    {
        let ghost st = existing@;
        let name = names[i].as_str();
        proof {
            assert(ns[i as int] == name@);
            lemma_strip_aggregate(name@);
            lemma_ready_lookup(st, name@);
            lemma_incoming_lookup(incoming@, name@);
        }
        let aggregate = crate::text::concat(name, "-values");
        let current: Option<Vec<Option<String>>> = match existing.get(aggregate.as_str()) {
            Some(LabelValue::Values(l)) => Some(copy_values(l)),
            _ => None,
        };
        match current {
            Some(mut values) => {
                let ghost l0 = opt_texts(values@);
                let extra = text_value(incoming.get(name));
                let ghost ev = opt_text(extra);
                values.push(extra);
                proof {
                    assert(opt_texts(values@) =~= l0.push(ev));
                }
                let merged = sorted_distinct_values(values);
                existing.remove(name);
                proof {
                    lemma_step_ready(st, name@, opt_texts(merged@));
                }
                existing.insert(aggregate, LabelValue::Values(merged));
                proof {
                    assert(existing@ == scalar_step(st, incoming@, name@));
                }
            },
            None => {
                proof {
                    lemma_lookup_entry(st, aggregate@);
                    if let Some(v) = lookup(st, aggregate@) {
                        let q = choose|q: int| 0 <= q < st.len() && #[trigger] st[q] == (aggregate@, v);
                        assert(ends_with_values(st[q].0));
                    }
                }
                let left = existing.get(name);
                let right = incoming.get(name);
                if !same_value(left, right) {
                    let mut values: Vec<Option<String>> = Vec::new();
                    let a = text_value(left);
                    let b = text_value(right);
                    let ghost av = opt_text(a);
                    let ghost bv = opt_text(b);
                    values.push(a);
                    values.push(b);
                    proof {
                        assert(opt_texts(values@) =~= seq![av, bv]);
                    }
                    let merged = sorted_distinct_values(values);
                    existing.remove(name);
                    proof {
                        lemma_step_ready(st, name@, opt_texts(merged@));
                    }
                    existing.insert(aggregate, LabelValue::Values(merged));
                }
                proof {
                    assert(existing@ == scalar_step(st, incoming@, name@));
                }
            },
        }
        i = i + 1;
    }
}


// ---------------------------------------------------------------------------------------------
// Dependency decision merging
// ---------------------------------------------------------------------------------------------

/// The label under which merged dependency decisions are kept.
pub open spec fn decisions_key() -> Seq<char> {
    "dependency-decisions"@
}

/// The texts of a label map whose values are all text.
pub open spec fn text_pairs(s: Seq<(Seq<char>, LabelView)>) -> Seq<(Seq<char>, Seq<char>)> {
    s.map_values(
        |e: (Seq<char>, LabelView)|
            (
                e.0,
                match e.1 {
                    LabelView::Text(t) => t,
                    _ => Seq::empty(),
                },
            ),
    )
}

/// The order of label pairs: by key, then by value.
pub open spec fn pair_lt(a: (Seq<char>, Seq<char>), b: (Seq<char>, Seq<char>)) -> bool {
    text_lt(a.0, b.0) || (a.0 == b.0 && text_lt(a.1, b.1))
}

/// The order of label maps: lexicographic over their entries (as `BTreeMap`s compare).
pub open spec fn map_lt(a: Seq<(Seq<char>, Seq<char>)>, b: Seq<(Seq<char>, Seq<char>)>) -> bool
    decreases a.len(),
{
    if a.len() == 0 {
        b.len() > 0
    } else if b.len() == 0 {
        false
    } else if a[0] == b[0] {
        map_lt(a.drop_first(), b.drop_first())
    } else {
        pair_lt(a[0], b[0])
    }
}

/// `s` with map `x` added at its ordered place.
pub open spec fn map_insert(
    s: Seq<Seq<(Seq<char>, Seq<char>)>>,
    x: Seq<(Seq<char>, Seq<char>)>,
) -> Seq<Seq<(Seq<char>, Seq<char>)>>
    decreases s.len(),
{
    if s.len() == 0 {
        seq![x]
    } else if s[0] == x {
        s
    } else if map_lt(x, s[0]) {
        seq![x] + s
    } else {
        seq![s[0]] + map_insert(s.drop_first(), x)
    }
}

/// The distinct maps of `l` in increasing order (a sort followed by a dedup).
pub open spec fn map_set(l: Seq<Seq<(Seq<char>, Seq<char>)>>) -> Seq<Seq<(Seq<char>, Seq<char>)>>
    decreases l.len(),
{
    if l.len() == 0 {
        Seq::empty()
    } else {
        map_insert(map_set(l.drop_last()), l.last())
    }
}

/// Whether every decision maps `k` to `v`.
pub open spec fn shared_by_all(ds: Seq<Seq<(Seq<char>, Seq<char>)>>, k: Seq<char>, v: Seq<char>) -> bool {
    forall|i: int| 0 <= i < ds.len() ==> lookup(#[trigger] ds[i], k) == Some(v)
}

/// The entries of `first` that every decision shares.
pub open spec fn shared_pairs(
    first: Seq<(Seq<char>, Seq<char>)>,
    ds: Seq<Seq<(Seq<char>, Seq<char>)>>,
) -> Seq<(Seq<char>, Seq<char>)>
    decreases first.len(),
{
    if first.len() == 0 {
        Seq::empty()
    } else {
        let rest = shared_pairs(first.drop_last(), ds);
        if shared_by_all(ds, first.last().0, first.last().1) {
            rest.push(first.last())
        } else {
            rest
        }
    }
}

/// A text label map collected from pairs (later pairs win).
pub open spec fn labels_from(p: Seq<(Seq<char>, Seq<char>)>) -> Seq<(Seq<char>, LabelView)>
    decreases p.len(),
{
    if p.len() == 0 {
        Seq::empty()
    } else {
        put(labels_from(p.drop_last()), p.last().0, LabelView::Text(p.last().1))
    }
}

/// The labels after merging a duplicate dependency relationship: an incoming label set
/// already recorded changes nothing; otherwise it joins the sorted distinct decisions, and only
/// the labels all decisions share stay as scalars.
pub open spec fn dependency_merge(
    existing: Seq<(Seq<char>, LabelView)>,
    incoming: Seq<(Seq<char>, LabelView)>,
) -> Seq<(Seq<char>, LabelView)> {
    let recorded = lookup(existing, decisions_key());
    let rest = without(existing, decisions_key());
    let decisions = match recorded {
        Some(LabelView::Decisions(d)) => d,
        _ => seq![text_pairs(rest)],
    };
    let inc = text_pairs(incoming);
    if decisions.contains(inc) {
        match recorded {
            Some(v) => put(rest, decisions_key(), v),
            None => rest,
        }
    } else {
        let ds = map_set(decisions.push(inc));
        put(
            labels_from(shared_pairs(ds[0], ds)),
            decisions_key(),
            LabelView::Decisions(ds),
        )
    }
}

/// Whether a label map is ready for dependency merging: plain text everywhere except the
/// recorded decisions.
pub open spec fn dependency_ready(s: Seq<(Seq<char>, LabelView)>) -> bool {
    &&& keys_sorted(s)
    &&& forall|i: int|
        0 <= i < s.len() ==> if (#[trigger] s[i]).0 == decisions_key() {
            s[i].1 is Decisions
        } else {
            s[i].1 is Text
        }
}

proof fn lemma_map_set_nonempty(l: Seq<Seq<(Seq<char>, Seq<char>)>>)
    requires
        l.len() > 0,
    ensures
        map_set(l).len() > 0,
{
    let p = map_set(l.drop_last());
    if p.len() > 0 {
        if p[0] != l.last() && !map_lt(l.last(), p[0]) {
            assert(map_insert(p, l.last())[0] == p[0]);
        }
    }
}

fn text_pairs_exec(labels: &Labels) -> (r: Vec<(String, String)>)
    requires
        all_text(labels@),
    ensures
        pair_views(r@) == text_pairs(labels@),
{
    let mut r: Vec<(String, String)> = Vec::new();
    let mut i: usize = 0;
    while i < labels.entries.len()
        invariant
            all_text(labels@),
            i <= labels.entries@.len(),
            r@.len() == i,
            forall|j: int| 0 <= j < i ==> (#[trigger] pair_views(r@)[j]) == text_pairs(labels@)[j],
        decreases labels.entries@.len() - i,
    {
        let e = &labels.entries[i];
        proof {
            assert(labels@[i as int] == (e.0@, label_view(e.1)));
            assert(labels@[i as int].1 is Text);
        }
        let v = match &e.1 {
            LabelValue::Text(t) => owned(t.as_str()),
            _ => String::new(),
        };
        let ghost before = r@;
        r.push((owned(e.0.as_str()), v));
        proof {
            assert forall|j: int| 0 <= j < i + 1 implies (#[trigger] pair_views(r@)[j])
                == text_pairs(labels@)[j] by {
                if j < i {
                    assert(r@[j] == before[j]);
                    assert(pair_views(before)[j] == text_pairs(labels@)[j]);
                }
            }
        }
        i = i + 1;
    }
    proof {
        assert(pair_views(r@) =~= text_pairs(labels@));
    }
    r
}

/// Whether two text label maps are equal.
fn pairs_equal(a: &Vec<(String, String)>, b: &Vec<(String, String)>) -> (r: bool)
    ensures
        r == (pair_views(a@) == pair_views(b@)),
{
    if a.len() != b.len() {
        proof {
            assert(pair_views(a@).len() != pair_views(b@).len());
        }
        return false;
    }
    let mut i: usize = 0;
    while i < a.len()
        invariant
            a@.len() == b@.len(),
            i <= a@.len(),
            forall|j: int| 0 <= j < i ==> pair_views(a@)[j] == pair_views(b@)[j],
        decreases a@.len() - i,
    {
        if !text_eq(a[i].0.as_str(), b[i].0.as_str()) || !text_eq(a[i].1.as_str(), b[i].1.as_str()) {
            proof {
                assert(pair_views(a@)[i as int] != pair_views(b@)[i as int]);
            }
            return false;
        }
        i = i + 1;
    }
    proof {
        assert(pair_views(a@) =~= pair_views(b@));
    }
    true
}

/// The three-way order of two text label maps.
fn map_order(a: &Vec<(String, String)>, b: &Vec<(String, String)>) -> (r: i8)
    ensures
        r < 0 <==> map_lt(pair_views(a@), pair_views(b@)),
        r == 0 <==> pair_views(a@) == pair_views(b@),
        r > 0 <==> map_lt(pair_views(b@), pair_views(a@)),
{
    let ghost x = pair_views(a@);
    let ghost y = pair_views(b@);
    let mut i: usize = 0;
    proof {
        assert(x.skip(0) =~= x);
        assert(y.skip(0) =~= y);
    }
    while i < a.len() && i < b.len()
        invariant
            x == pair_views(a@),
            y == pair_views(b@),
            i <= a@.len(),
            i <= b@.len(),
            x.take(i as int) == y.take(i as int),
            map_lt(x, y) == map_lt(x.skip(i as int), y.skip(i as int)),
            map_lt(y, x) == map_lt(y.skip(i as int), x.skip(i as int)),
        decreases a@.len() - i,
    {
        let kc = text_order(a[i].0.as_str(), b[i].0.as_str());
        let vc = text_order(a[i].1.as_str(), b[i].1.as_str());
        proof {
            assert(x[i as int] == (a@[i as int].0@, a@[i as int].1@));
            assert(y[i as int] == (b@[i as int].0@, b@[i as int].1@));
            assert(x.skip(i as int)[0] == x[i as int]);
            assert(y.skip(i as int)[0] == y[i as int]);
            crate::text::lemma_text_lt_total(x[i as int].0, y[i as int].0);
            crate::text::lemma_text_lt_total(x[i as int].1, y[i as int].1);
        }
        if kc != 0 {
            proof {
                if x == y {
                    assert(x[i as int] == y[i as int]);
                }
            }
            return kc;
        }
        if vc != 0 {
            proof {
                if x == y {
                    assert(x[i as int] == y[i as int]);
                }
            }
            return vc;
        }
        proof {
            assert(x.skip(i as int).drop_first() =~= x.skip(i + 1));
            assert(y.skip(i as int).drop_first() =~= y.skip(i + 1));
            assert(x.take(i + 1) =~= x.take(i as int).push(x[i as int]));
            assert(y.take(i + 1) =~= y.take(i as int).push(y[i as int]));
        }
        i = i + 1;
    }
    proof {
        if i == a.len() {
            assert(x.skip(i as int).len() == 0);
            assert(x.take(i as int) =~= x);
        }
        if i == b.len() {
            assert(y.skip(i as int).len() == 0);
            assert(y.take(i as int) =~= y);
        }
        if x == y {
            assert(a@.len() == b@.len());
        }
        if a@.len() == b@.len() {
            assert(x =~= y);
        }
    }
    if a.len() < b.len() {
        -1
    } else if a.len() > b.len() {
        1
    } else {
        0
    }
}

/// The views of a list of text label maps.
pub open spec fn map_views(s: Seq<Vec<(String, String)>>) -> Seq<Seq<(Seq<char>, Seq<char>)>> {
    s.map_values(|m: Vec<(String, String)>| pair_views(m@))
}

fn insert_map(v: &mut Vec<Vec<(String, String)>>, x: Vec<(String, String)>)
    ensures
        map_views(final(v)@) == map_insert(map_views(old(v)@), pair_views(x@)),
{
    let ghost s = map_views(v@);
    let ghost xv = pair_views(x@);
    let n = v.len();
    let mut i: usize = 0;
    proof {
        assert(s.skip(0) =~= s);
        assert(map_insert(s, xv) =~= s.take(0) + map_insert(s.skip(0), xv));
    }
    while i < n && map_order(&x, &v[i]) > 0
        invariant
            s == map_views(v@),
            xv == pair_views(x@),
            n == v@.len(),
            i <= n,
            map_insert(s, xv) == s.take(i as int) + map_insert(s.skip(i as int), xv),
        decreases n - i,
    {
        proof {
            assert(s[i as int] == pair_views(v@[i as int]@));
            lemma_map_lt_asym(xv, s[i as int]);
            assert(s.skip(i as int)[0] == s[i as int]);
            assert(s.skip(i as int).drop_first() =~= s.skip(i + 1));
            assert(s.take(i + 1) =~= s.take(i as int).push(s[i as int]));
            assert(s.take(i as int) + (seq![s[i as int]] + map_insert(s.skip(i + 1), xv))
                =~= s.take(i + 1) + map_insert(s.skip(i + 1), xv));
        }
        i = i + 1;
    }
    let c: i8 = if i < n {
        map_order(&x, &v[i])
    } else {
        1
    };
    proof {
        if i < n {
            assert(s[i as int] == pair_views(v@[i as int]@));
            assert(s.skip(i as int)[0] == s[i as int]);
        }
    }
    if i < n && c == 0 {
        proof {
            assert(s.take(i as int) + s.skip(i as int) =~= s);
        }
    } else {
        v.insert(i, x);
        proof {
            assert(map_views(v@) =~= s.take(i as int) + (seq![xv] + s.skip(i as int)));
        }
    }
}

proof fn lemma_map_lt_asym(a: Seq<(Seq<char>, Seq<char>)>, b: Seq<(Seq<char>, Seq<char>)>)
    ensures
        map_lt(b, a) ==> a != b,
    decreases a.len(),
{
    if a == b && a.len() > 0 {
        lemma_map_lt_asym(a.drop_first(), b.drop_first());
    }
}


proof fn lemma_without_sorted<V>(s: Seq<(Seq<char>, V)>, k: Seq<char>)
    requires
        keys_sorted(s),
    ensures
        keys_sorted(without(s, k)),
        forall|i: int| 0 <= i < without(s, k).len() ==> (#[trigger] without(s, k)[i]).0 != k,
    decreases s.len(),
{
    let r = without(s, k);
    if s.len() > 0 {
        let t = s.drop_first();
        assert(keys_sorted(t)) by {
            assert forall|i: int, j: int| 0 <= i < j < t.len() implies text_lt(
                #[trigger] t[i].0,
                #[trigger] t[j].0,
            ) by {
                assert(t[i] == s[i + 1] && t[j] == s[j + 1]);
            }
        }
        if s[0].0 == k {
            assert forall|i: int| 0 <= i < r.len() implies (#[trigger] r[i]).0 != k by {
                assert(r[i] == s[i + 1]);
                assert(text_lt(s[0].0, s[i + 1].0));
                lemma_text_lt_irreflexive(k);
            }
        } else {
            lemma_without_sorted(t, k);
            lemma_without_entries(t, k);
            let w = without(t, k);
            assert forall|i: int, j: int| 0 <= i < j < r.len() implies text_lt(
                #[trigger] r[i].0,
                #[trigger] r[j].0,
            ) by {
                assert(r[j] == w[j - 1]);
                let m = choose|m: int| 0 <= m < t.len() && t[m] == #[trigger] w[j - 1];
                assert(t[m] == s[m + 1]);
                if i == 0 {
                    assert(r[0] == s[0]);
                } else {
                    assert(r[i] == w[i - 1]);
                }
            }
            assert forall|i: int| 0 <= i < r.len() implies (#[trigger] r[i]).0 != k by {
                if i > 0 {
                    assert(r[i] == w[i - 1]);
                }
            }
        }
    }
}

proof fn lemma_put_has_entry<V>(s: Seq<(Seq<char>, V)>, k: Seq<char>, v: V)
    ensures
        exists|j: int| 0 <= j < put(s, k, v).len() && #[trigger] put(s, k, v)[j] == (k, v),
    decreases s.len(),
{
    let r = put(s, k, v);
    if s.len() > 0 && s[0].0 != k && !text_lt(k, s[0].0) {
        lemma_put_has_entry(s.drop_first(), k, v);
        let j = choose|j: int| 0 <= j < put(s.drop_first(), k, v).len() && #[trigger] put(
            s.drop_first(),
            k,
            v,
        )[j] == (k, v);
        assert(r[j + 1] == (k, v));
    } else {
        assert(r[0] == (k, v));
    }
}

proof fn lemma_labels_from_text(p: Seq<(Seq<char>, Seq<char>)>)
    ensures
        keys_sorted(labels_from(p)),
        all_text(labels_from(p)),
    decreases p.len(),
{
    if p.len() > 0 {
        let b = labels_from(p.drop_last());
        lemma_labels_from_text(p.drop_last());
        law_put_keeps_keys_sorted(b, p.last().0, LabelView::Text(p.last().1));
        lemma_put_entries(b, p.last().0, LabelView::Text(p.last().1));
        let r = labels_from(p);
        assert forall|i: int| 0 <= i < r.len() implies (#[trigger] r[i]).1 is Text by {
            if r[i] != (p.last().0, LabelView::Text(p.last().1)) {
                let j = choose|j: int| 0 <= j < b.len() && b[j] == r[i];
                assert(b[j].1 is Text);
            }
        }
    }
}

proof fn lemma_put_decisions_ready(
    base: Seq<(Seq<char>, LabelView)>,
    d: Seq<Seq<(Seq<char>, Seq<char>)>>,
)
    requires
        keys_sorted(base),
        forall|i: int| 0 <= i < base.len() ==> ((#[trigger] base[i]).0 != decisions_key() ==> base[i].1 is Text),
    ensures
        dependency_ready(put(base, decisions_key(), LabelView::Decisions(d))),
{
    let v = LabelView::Decisions(d);
    let r = put(base, decisions_key(), v);
    law_put_keeps_keys_sorted(base, decisions_key(), v);
    lemma_put_entries(base, decisions_key(), v);
    lemma_put_has_entry(base, decisions_key(), v);
    let j = choose|j: int| 0 <= j < r.len() && #[trigger] r[j] == (decisions_key(), v);
    assert forall|i: int| 0 <= i < r.len() implies if (#[trigger] r[i]).0 == decisions_key() {
        r[i].1 is Decisions
    } else {
        r[i].1 is Text
    } by {
        if r[i].0 == decisions_key() {
            if i < j {
                assert(text_lt(r[i].0, r[j].0));
                lemma_text_lt_irreflexive(decisions_key());
            } else if j < i {
                assert(text_lt(r[j].0, r[i].0));
                lemma_text_lt_irreflexive(decisions_key());
            }
        } else {
            let m = choose|m: int| 0 <= m < base.len() && base[m] == r[i];
            assert(base[m].0 != decisions_key());
        }
    }
}

fn lookup_pair<'a>(m: &'a Vec<(String, String)>, k: &str) -> (r: Option<&'a String>)
    ensures
        match r {
            Some(v) => lookup(pair_views(m@), k@) == Some(v@),
            None => lookup(pair_views(m@), k@) is None,
        },
{
    let ghost s = pair_views(m@);
    let mut i: usize = 0;
    proof {
        assert(s.skip(0) =~= s);
    }
    while i < m.len()
        invariant
            s == pair_views(m@),
            i <= m@.len(),
            lookup(s, k@) == lookup(s.skip(i as int), k@),
        decreases m@.len() - i,
    {
        proof {
            assert(s[i as int] == (m@[i as int].0@, m@[i as int].1@));
            assert(s.skip(i as int)[0] == s[i as int]);
            assert(s.skip(i as int).drop_first() =~= s.skip(i + 1));
        }
        if text_eq(m[i].0.as_str(), k) {
            return Some(&m[i].1);
        }
        i = i + 1;
    }
    None
}

fn shared_everywhere(ds: &Vec<Vec<(String, String)>>, k: &str, v: &str) -> (r: bool)
    ensures
        r == shared_by_all(map_views(ds@), k@, v@),
{
    let ghost vs = map_views(ds@);
    let mut j: usize = 0;
    while j < ds.len()
        invariant
            vs == map_views(ds@),
            j <= ds@.len(),
            forall|q: int| 0 <= q < j ==> lookup(#[trigger] vs[q], k@) == Some(v@),
        decreases ds@.len() - j,
    {
        proof {
            assert(vs[j as int] == pair_views(ds@[j as int]@));
        }
        match lookup_pair(&ds[j], k) {
            Some(found) => {
                if !text_eq(found.as_str(), v) {
                    return false;
                }
            },
            None => {
                return false;
            },
        }
        j = j + 1;
    }
    true
}

fn shared_labels(ds: &Vec<Vec<(String, String)>>) -> (r: Labels)
    requires
        ds@.len() > 0,
    ensures
        r@ == labels_from(shared_pairs(map_views(ds@)[0], map_views(ds@))),
{
    let ghost vs = map_views(ds@);
    let first = &ds[0];
    let ghost f = pair_views(first@);
    proof {
        assert(vs[0] == f);
    }
    let mut out = Labels::new();
    let mut i: usize = 0;
    proof {
        assert(f.take(0) =~= Seq::<(Seq<char>, Seq<char>)>::empty());
    }
    while i < first.len()
        invariant
            vs == map_views(ds@),
            f == pair_views(first@),
            first == &ds@[0],
            i <= first@.len(),
            out@ == labels_from(shared_pairs(f.take(i as int), vs)),
        decreases first@.len() - i,
    {
        let k = first[i].0.as_str();
        let v = first[i].1.as_str();
        proof {
            assert(f[i as int] == (k@, v@));
            assert(f.take(i + 1).drop_last() =~= f.take(i as int));
            assert(f.take(i + 1).last() == f[i as int]);
        }
        if shared_everywhere(ds, k, v) {
            let ghost before = shared_pairs(f.take(i as int), vs);
            out.insert(owned(k), LabelValue::Text(owned(v)));
            proof {
                assert(before.push((k@, v@)).drop_last() =~= before);
            }
        }
        i = i + 1;
    }
    proof {
        assert(f.take(first@.len() as int) =~= f);
    }
    out
}

fn contains_map(ds: &Vec<Vec<(String, String)>>, m: &Vec<(String, String)>) -> (r: bool)
    ensures
        r == map_views(ds@).contains(pair_views(m@)),
{
    let ghost vs = map_views(ds@);
    let mut j: usize = 0;
    while j < ds.len()
        invariant
            vs == map_views(ds@),
            j <= ds@.len(),
            forall|q: int| 0 <= q < j ==> vs[q] != pair_views(m@),
        decreases ds@.len() - j,
    {
        proof {
            assert(vs[j as int] == pair_views(ds@[j as int]@));
        }
        if pairs_equal(&ds[j], m) {
            return true;
        }
        j = j + 1;
    }
    false
}

fn sorted_distinct_maps(l: Vec<Vec<(String, String)>>) -> (r: Vec<Vec<(String, String)>>)
    ensures
        map_views(r@) == map_set(map_views(l@)),
{
    let ghost all = map_views(l@);
    let mut r: Vec<Vec<(String, String)>> = Vec::new();
    let mut rest = l;
    let ghost k: int = 0;
    proof {
        assert(map_views(r@) =~= map_set(all.take(0)));
        assert(map_views(rest@) =~= all.skip(0));
    }
    while rest.len() > 0
        invariant
            0 <= k <= all.len(),
            all.len() == k + rest@.len(),
            map_views(rest@) == all.skip(k),
            map_views(r@) == map_set(all.take(k)),
        decreases rest@.len(),
    {
        let ghost before = rest@;
        let x = rest.remove(0);
        proof {
            assert(before[0] == x);
            assert(map_views(before)[0] == pair_views(x@));
            assert(rest@ =~= before.skip(1));
            assert(map_views(rest@) =~= map_views(before).skip(1));
            assert(map_views(before).skip(1) =~= all.skip(k + 1));
            assert(all.take(k + 1).drop_last() =~= all.take(k));
            assert(all.take(k + 1).last() == all[k]);
        }
        insert_map(&mut r, x);
        proof {
            k = k + 1;
        }
    }
    proof {
        assert(all.take(k) =~= all);
    }
    r
}

/// Merges a duplicate dependency relationship's labels into `existing`: an incoming label set
/// already recorded changes nothing; otherwise the distinct label sets are kept, sorted, under
/// `dependency-decisions`, and only labels all of them share stay as scalars.
pub fn merge_dependency_labels(existing: &mut Labels, incoming: &Labels)
    requires
        dependency_ready(old(existing)@),
        all_text(incoming@),
    ensures
        final(existing)@ == dependency_merge(old(existing)@, incoming@),
        dependency_ready(final(existing)@),
{
    let ghost e0 = existing@;
    let recorded = existing.remove("dependency-decisions");
    let ghost rest = existing@;
    proof {
        lemma_without_sorted(e0, decisions_key());
        lemma_without_entries(e0, decisions_key());
        assert forall|i: int| 0 <= i < rest.len() implies (#[trigger] rest[i]).1 is Text by {
            let m = choose|m: int| 0 <= m < e0.len() && e0[m] == #[trigger] rest[i];
            assert(e0[m].0 != decisions_key());
        }
        lemma_lookup_entry(e0, decisions_key());
        if let Some(v) = lookup(e0, decisions_key()) {
            let m = choose|m: int| 0 <= m < e0.len() && #[trigger] e0[m] == (decisions_key(), v);
            assert(e0[m].0 == decisions_key());
        }
    }
    let had_recorded = recorded.is_some();
    let mut decisions: Vec<Vec<(String, String)>> = match recorded {
        Some(LabelValue::Decisions(d)) => d,
        _ => {
            let mut v: Vec<Vec<(String, String)>> = Vec::new();
            v.push(text_pairs_exec(existing));
            proof {
                assert(map_views(v@) =~= seq![text_pairs(rest)]);
            }
            v
        },
    };
    let ghost dv = map_views(decisions@);
    let incoming_pairs = text_pairs_exec(incoming);
    if contains_map(&decisions, &incoming_pairs) {
        if had_recorded {
            existing.insert(owned("dependency-decisions"), LabelValue::Decisions(decisions));
            proof {
                lemma_put_decisions_ready(rest, dv);
            }
        } else {
            proof {
                assert forall|i: int| 0 <= i < rest.len() implies if (#[trigger] rest[i]).0
                    == decisions_key() {
                    rest[i].1 is Decisions
                } else {
                    rest[i].1 is Text
                } by {}
            }
        }
        return;
    }
    let ghost ip = pair_views(incoming_pairs@);
    decisions.push(incoming_pairs);
    proof {
        assert(map_views(decisions@) =~= dv.push(ip));
    }
    let ds = sorted_distinct_maps(decisions);
    proof {
        lemma_map_set_nonempty(dv.push(ip));
    }
    let shared = shared_labels(&ds);
    proof {
        lemma_labels_from_text(shared_pairs(map_views(ds@)[0], map_views(ds@)));
        assert forall|i: int| 0 <= i < shared@.len() implies ((#[trigger] shared@[i]).0
            != decisions_key() ==> shared@[i].1 is Text) by {}
        lemma_put_decisions_ready(shared@, map_views(ds@));
    }
    *existing = shared;
    let ghost dsv = map_views(ds@);
    existing.insert(owned("dependency-decisions"), LabelValue::Decisions(ds));
    proof {
        assert(label_view(LabelValue::Decisions(ds)) == LabelView::Decisions(dsv));
    }
}


// ---------------------------------------------------------------------------------------------
// Fresh labels, merging a label map with itself, and rendering
// ---------------------------------------------------------------------------------------------

/// Whether labels can start a relationship: keys strictly increasing, every value plain text,
/// and no key that the merges reserve (`-values` aggregates or `dependency-decisions`).
pub open spec fn label_input_ok(s: Seq<(Seq<char>, LabelView)>) -> bool {
    &&& keys_sorted(s)
    &&& all_text(s)
    &&& forall|i: int|
        0 <= i < s.len() ==> !ends_with_values(#[trigger] s[i].0) && s[i].0 != decisions_key()
}

/// Fresh labels are ready for both kinds of merge, on either side.
pub proof fn lemma_input_ready(s: Seq<(Seq<char>, LabelView)>)
    requires
        label_input_ok(s),
    ensures
        scalar_ready(s),
        incoming_ready(s),
        dependency_ready(s),
        all_text(s),
{
}

proof fn lemma_absent_without<V>(s: Seq<(Seq<char>, V)>, k: Seq<char>)
    requires
        forall|i: int| 0 <= i < s.len() ==> (#[trigger] s[i]).0 != k,
    ensures
        without(s, k) == s,
        lookup(s, k) is None,
    decreases s.len(),
{
    if s.len() > 0 {
        let t = s.drop_first();
        assert forall|i: int| 0 <= i < t.len() implies (#[trigger] t[i]).0 != k by {
            assert(t[i] == s[i + 1]);
        }
        lemma_absent_without(t, k);
        assert(seq![s[0]] + t =~= s);
    }
}

proof fn lemma_scalar_self_upto(
    l: Seq<(Seq<char>, LabelView)>,
    names: Seq<Seq<char>>,
    n: int,
)
    requires
        label_input_ok(l),
        0 <= n <= names.len(),
    ensures
        scalar_merge_upto(l, l, names, n) == l,
    decreases n,
{
    if n > 0 {
        lemma_scalar_self_upto(l, names, n - 1);
        let name = names[n - 1];
        let aggregate = name + values_suffix();
        reveal_strlit("-values");
        assert(aggregate.skip(aggregate.len() - 7) =~= values_suffix());
        lemma_lookup_entry(l, aggregate);
        if let Some(v) = lookup(l, aggregate) {
            let q = choose|q: int| 0 <= q < l.len() && #[trigger] l[q] == (aggregate, v);
            assert(ends_with_values(l[q].0));
        }
    }
}

/// Merging a fresh label map's scalar labels with an exact copy of itself changes nothing.
pub proof fn law_scalar_merge_of_itself(l: Seq<(Seq<char>, LabelView)>)
    requires
        label_input_ok(l),
    ensures
        scalar_merge(l, l) == l,
{
    let names = merge_names(l, l);
    lemma_scalar_self_upto(l, names, names.len() as int);
}

/// Merging a fresh dependency label map with an exact copy of itself changes nothing: the
/// labels stay scalar and no decisions are recorded.
pub proof fn law_dependency_merge_of_itself(l: Seq<(Seq<char>, LabelView)>)
    requires
        label_input_ok(l),
    ensures
        dependency_merge(l, l) == l,
{
    lemma_absent_without(l, decisions_key());
    let x = text_pairs(l);
    assert(seq![x][0] == x);
    assert(seq![x].contains(x));
}


/// The decisions a dependency label map has recorded: its `dependency-decisions`, or its own
/// labels as the single decision so far.
pub open spec fn prior_decisions(existing: Seq<(Seq<char>, LabelView)>) -> Seq<Seq<(Seq<char>, Seq<char>)>> {
    match lookup(existing, decisions_key()) {
        Some(LabelView::Decisions(d)) => d,
        _ => seq![text_pairs(without(existing, decisions_key()))],
    }
}

proof fn lemma_map_insert_contains(s: Seq<Seq<(Seq<char>, Seq<char>)>>, x: Seq<(Seq<char>, Seq<char>)>)
    ensures
        map_insert(s, x).contains(x),
        forall|i: int| 0 <= i < s.len() ==> map_insert(s, x).contains(#[trigger] s[i]),
    decreases s.len(),
{
    let r = map_insert(s, x);
    if s.len() == 0 {
        assert(r[0] == x);
    } else if s[0] == x {
        assert(r[0] == x);
        assert forall|i: int| 0 <= i < s.len() implies r.contains(#[trigger] s[i]) by {
            assert(r[i] == s[i]);
        }
    } else if map_lt(x, s[0]) {
        assert(r[0] == x);
        assert forall|i: int| 0 <= i < s.len() implies r.contains(#[trigger] s[i]) by {
            assert(r[i + 1] == s[i]);
        }
    } else {
        let t = map_insert(s.drop_first(), x);
        lemma_map_insert_contains(s.drop_first(), x);
        assert(r == seq![s[0]] + t);
        let j = choose|j: int| 0 <= j < t.len() && t[j] == x;
        assert(r[j + 1] == x);
        assert forall|i: int| 0 <= i < s.len() implies r.contains(#[trigger] s[i]) by {
            if i == 0 {
                assert(r[0] == s[0]);
            } else {
                assert(s[i] == s.drop_first()[i - 1]);
                assert(t.contains(s.drop_first()[i - 1]));
                let k = choose|k: int| 0 <= k < t.len() && t[k] == s.drop_first()[i - 1];
                assert(r[k + 1] == s[i]);
            }
        }
    }
}

proof fn lemma_map_set_contains(l: Seq<Seq<(Seq<char>, Seq<char>)>>)
    ensures
        forall|i: int| 0 <= i < l.len() ==> map_set(l).contains(#[trigger] l[i]),
    decreases l.len(),
{
    if l.len() > 0 {
        let p = map_set(l.drop_last());
        lemma_map_set_contains(l.drop_last());
        lemma_map_insert_contains(p, l.last());
        assert forall|i: int| 0 <= i < l.len() implies map_set(l).contains(#[trigger] l[i]) by {
            if i < l.len() - 1 {
                assert(l[i] == l.drop_last()[i]);
                assert(p.contains(l.drop_last()[i]));
                let j = choose|j: int| 0 <= j < p.len() && p[j] == l.drop_last()[i];
                assert(map_insert(p, l.last()).contains(p[j]));
            }
        }
    }
}

proof fn lemma_shared_pairs_shared(
    first: Seq<(Seq<char>, Seq<char>)>,
    ds: Seq<Seq<(Seq<char>, Seq<char>)>>,
)
    ensures
        forall|i: int|
            0 <= i < shared_pairs(first, ds).len() ==> shared_by_all(
                ds,
                (#[trigger] shared_pairs(first, ds)[i]).0,
                shared_pairs(first, ds)[i].1,
            ),
    decreases first.len(),
{
    if first.len() > 0 {
        lemma_shared_pairs_shared(first.drop_last(), ds);
        let rest = shared_pairs(first.drop_last(), ds);
        let r = shared_pairs(first, ds);
        assert forall|i: int| 0 <= i < r.len() implies shared_by_all(ds, (#[trigger] r[i]).0, r[i].1) by {
            if i < rest.len() {
                assert(r[i] == rest[i]);
            }
        }
    }
}

proof fn lemma_labels_from_lookup(p: Seq<(Seq<char>, Seq<char>)>, k: Seq<char>)
    ensures
        lookup(labels_from(p), k) matches Some(LabelView::Text(v)) ==> exists|i: int|
            0 <= i < p.len() && #[trigger] p[i] == (k, v),
    decreases p.len(),
{
    if p.len() > 0 {
        let b = labels_from(p.drop_last());
        law_put_then_lookup(b, p.last().0, LabelView::Text(p.last().1), k);
        if k == p.last().0 {
            assert(p[p.len() - 1] == (k, p.last().1));
        } else {
            lemma_labels_from_lookup(p.drop_last(), k);
            match lookup(b, k) {
                Some(LabelView::Text(v)) => {
                    let i = choose|i: int|
                        0 <= i < p.drop_last().len() && #[trigger] p.drop_last()[i] == (k, v);
                    assert(p[i] == (k, v));
                },
                _ => {},
            }
        }
    }
}

/// Recording a new dependency decision keeps every decision recorded before and the new one,
/// and the only scalar labels left are those that every recorded decision shares.
pub proof fn law_dependency_decisions_are_kept(
    existing: Seq<(Seq<char>, LabelView)>,
    incoming: Seq<(Seq<char>, LabelView)>,
)
    requires
        !prior_decisions(existing).contains(text_pairs(incoming)),
    ensures
        ({
            let merged = dependency_merge(existing, incoming);
            &&& lookup(merged, decisions_key()) matches Some(LabelView::Decisions(ds))
            &&& ds.contains(text_pairs(incoming))
            &&& forall|i: int|
                0 <= i < prior_decisions(existing).len() ==> ds.contains(
                    #[trigger] prior_decisions(existing)[i],
                )
            &&& forall|kk: Seq<char>|
                #![trigger lookup(merged, kk)]
                kk != decisions_key() ==> (lookup(merged, kk) matches Some(LabelView::Text(v))
                    ==> shared_by_all(ds, kk, v))
        }),
{
    let d = prior_decisions(existing);
    let inc = text_pairs(incoming);
    let l = d.push(inc);
    let ds = map_set(l);
    let base = labels_from(shared_pairs(ds[0], ds));
    let merged = dependency_merge(existing, incoming);
    assert(merged == put(base, decisions_key(), LabelView::Decisions(ds)));
    law_put_then_lookup(base, decisions_key(), LabelView::Decisions(ds), decisions_key());
    lemma_map_set_contains(l);
    assert(l[l.len() - 1] == inc);
    assert forall|i: int| 0 <= i < d.len() implies ds.contains(#[trigger] d[i]) by {
        assert(l[i] == d[i]);
    }
    lemma_shared_pairs_shared(ds[0], ds);
    assert forall|kk: Seq<char>|
        #![trigger lookup(merged, kk)]
        kk != decisions_key() implies (lookup(merged, kk) matches Some(LabelView::Text(v))
            ==> shared_by_all(ds, kk, v)) by {
        law_put_then_lookup(base, decisions_key(), LabelView::Decisions(ds), kk);
        lemma_labels_from_lookup(shared_pairs(ds[0], ds), kk);
        match lookup(base, kk) {
            Some(LabelView::Text(v)) => {
                let sp = shared_pairs(ds[0], ds);
                let i = choose|i: int| 0 <= i < sp.len() && #[trigger] sp[i] == (kk, v);
                assert(shared_by_all(ds, sp[i].0, sp[i].1));
            },
            _ => {},
        }
    }
}

/// Whether a label name is free for fresh labels: neither an aggregate (`-values`) nor
/// `dependency-decisions`.
pub open spec fn free_key(k: Seq<char>) -> bool {
    !ends_with_values(k) && k != decisions_key()
}

/// A name whose character at `len - 7 + j` differs from `-values` does not end with it.
pub proof fn lemma_not_values_at(k: Seq<char>, j: int)
    requires
        k.len() >= 7 ==> 0 <= j < 7 && k[k.len() - 7 + j] != "-values"@[j],
    ensures
        !ends_with_values(k),
{
    if k.len() >= 7 {
        assert(k.skip(k.len() - 7)[j] == k[k.len() - 7 + j]);
    }
}

/// Labels collected from pairs whose names are all free are fresh labels.
pub proof fn lemma_labels_from_input_ok(p: Seq<(Seq<char>, Seq<char>)>)
    requires
        forall|i: int| 0 <= i < p.len() ==> free_key(#[trigger] p[i].0),
    ensures
        label_input_ok(labels_from(p)),
    decreases p.len(),
{
    if p.len() > 0 {
        let q = p.drop_last();
        assert forall|i: int| 0 <= i < q.len() implies free_key(#[trigger] q[i].0) by {
            assert(q[i] == p[i]);
        }
        lemma_labels_from_input_ok(q);
        lemma_labels_from_text(p);
        let b = labels_from(q);
        let last = p.last();
        assert(free_key(p[p.len() - 1].0));
        lemma_put_entries(b, last.0, LabelView::Text(last.1));
        let r = labels_from(p);
        assert forall|i: int| 0 <= i < r.len() implies !ends_with_values(#[trigger] r[i].0) && r[i].0
            != decisions_key() by {
            if r[i] != (last.0, LabelView::Text(last.1)) {
                let j = choose|j: int| 0 <= j < b.len() && b[j] == r[i];
                assert(free_key(b[j].0));
            }
        }
    }
}

impl Labels {
    /// A text label map from `(name, value)` pairs; a later pair replaces an earlier one with
    /// the same name.
    pub fn from_pairs(pairs: Vec<(String, String)>) -> (r: Labels)
        ensures
            r@ == labels_from(pair_views(pairs@)),
            keys_sorted(r@),
            all_text(r@),
    {
        let ghost pv = pair_views(pairs@);
        let mut out = Labels::new();
        let mut i: usize = 0;
        proof {
            assert(pv.take(0) =~= Seq::<(Seq<char>, Seq<char>)>::empty());
        }
        while i < pairs.len()
            invariant
                pv == pair_views(pairs@),
                i <= pairs@.len(),
                out@ == labels_from(pv.take(i as int)),
            decreases pairs@.len() - i,
        {
            let k = owned(pairs[i].0.as_str());
            let v = owned(pairs[i].1.as_str());
            proof {
                assert(pv.take(i + 1).drop_last() =~= pv.take(i as int));
                assert(pv.take(i + 1).last() == pv[i as int]);
                assert(pv[i as int] == (k@, v@));
            }
            out.insert(k, LabelValue::Text(v));
            i = i + 1;
        }
        proof {
            assert(pv.take(pairs@.len() as int) =~= pv);
            lemma_labels_from_text(pv);
        }
        out
    }
}


/// Items separated by commas.
pub open spec fn comma_joined(items: Seq<Seq<char>>) -> Seq<char>
    decreases items.len(),
{
    if items.len() == 0 {
        Seq::empty()
    } else if items.len() == 1 {
        items[0]
    } else {
        comma_joined(items.drop_last()) + ","@ + items.last()
    }
}

/// An optional text as JSON: a JSON string, or `null`.
pub open spec fn json_optional(o: Option<Seq<char>>) -> Seq<char> {
    match o {
        Some(t) => json_string_literal(t),
        None => "null"@,
    }
}

/// One label as a JSON object member.
pub open spec fn json_member(p: (Seq<char>, Seq<char>)) -> Seq<char> {
    json_string_literal(p.0) + ":"@ + json_string_literal(p.1)
}

/// A text label map as a compact JSON object, in key order.
pub open spec fn json_object(m: Seq<(Seq<char>, Seq<char>)>) -> Seq<char> {
    "{"@ + comma_joined(m.map_values(|p: (Seq<char>, Seq<char>)| json_member(p))) + "}"@
}

/// The text a label value takes in the rendered document: plain text as it is; aggregated
/// values and recorded decisions as compact JSON arrays.
pub open spec fn rendered(v: LabelView) -> Seq<char> {
    match v {
        LabelView::Text(t) => t,
        LabelView::Values(l) => "["@ + comma_joined(l.map_values(|o: Option<Seq<char>>| json_optional(o)))
            + "]"@,
        LabelView::Decisions(d) => "["@ + comma_joined(
            d.map_values(|m: Seq<(Seq<char>, Seq<char>)>| json_object(m)),
        ) + "]"@,
    }
}

/// `serde_json::to_string` on a list of optional texts: a compact JSON array of strings and
/// `null`s, each string escaped as `json_string_literal` states. Writing into memory cannot
/// fail, so the error arm is unreachable.
#[verifier::external_body]
fn json_values(l: &Vec<Option<String>>) -> (r: String)
    ensures
        r@ == "["@ + comma_joined(opt_texts(l@).map_values(|o: Option<Seq<char>>| json_optional(o)))
            + "]"@,
{
    match serde_json::to_string(l) {
        Ok(text) => text,
        Err(_) => String::new(),
    }
}

/// `serde_json::to_string` on a list of label maps, each turned into the `BTreeMap` it
/// stands for: a compact JSON array of objects whose members come in key order. Each map's
/// keys must be strictly increasing, so the conversion keeps every pair.
#[verifier::external_body]
fn json_decisions(d: &Vec<Vec<(String, String)>>) -> (r: String)
    requires
        forall|i: int| 0 <= i < d@.len() ==> keys_sorted(#[trigger] pair_views(d@[i]@)),
    ensures
        r@ == "["@ + comma_joined(
            d@.map_values(|m: Vec<(String, String)>| json_object(pair_views(m@))),
        ) + "]"@,
{
    let maps: Vec<std::collections::BTreeMap<&str, &str>> = d
        .iter()
        .map(|m| m.iter().map(|(k, v)| (k.as_str(), v.as_str())).collect())
        .collect();
    match serde_json::to_string(&maps) {
        Ok(text) => text,
        Err(_) => String::new(),
    }
}

/// Whether every label map of a list has strictly increasing keys.
pub open spec fn maps_sorted(d: Seq<Seq<(Seq<char>, Seq<char>)>>) -> bool {
    forall|i: int| 0 <= i < d.len() ==> keys_sorted(#[trigger] d[i])
}

/// Whether every recorded decision of a label value has strictly increasing keys.
pub open spec fn decisions_sorted(v: LabelView) -> bool {
    match v {
        LabelView::Decisions(d) => maps_sorted(d),
        _ => true,
    }
}

proof fn lemma_decision_sorted_at(dv: Seq<Seq<(Seq<char>, Seq<char>)>>, i: int)
    requires
        decisions_sorted(LabelView::Decisions(dv)),
        0 <= i < dv.len(),
    ensures
        keys_sorted(dv[i]),
{
    assert(maps_sorted(dv));
    let m = dv[i];
    assert(keys_sorted(m));
}

impl LabelValue {
    /// The text this value takes in the rendered document: plain text as it is; aggregated
    /// values and recorded decisions as compact JSON arrays (`["a",null]`,
    /// `[{"name":"value"}]`). Recorded decisions are label maps, so their keys are strictly
    /// increasing.
    pub fn render(&self) -> (r: String)
        requires
            decisions_sorted(label_view(*self)),
        ensures
            r@ == rendered(label_view(*self)),
    {
        match self {
            LabelValue::Text(t) => owned(t.as_str()),
            LabelValue::Values(l) => json_values(l),
            LabelValue::Decisions(d) => {
                let ghost dv = d@.map_values(|m: Vec<(String, String)>| pair_views(m@));
                proof {
                    assert forall|i: int| 0 <= i < d@.len() implies keys_sorted(
                        #[trigger] pair_views(d@[i]@),
                    ) by {
                        assert(label_view(*self) == LabelView::Decisions(dv));
                        assert(decisions_sorted(LabelView::Decisions(dv)));
                        assert(dv.len() == d@.len());
                        assert(dv[i] == pair_views(d@[i]@));
                        lemma_decision_sorted_at(dv, i);
                    }
                }
                let r = json_decisions(d);
                proof {
                    assert(d@.map_values(|m: Vec<(String, String)>| json_object(pair_views(m@)))
                        =~= dv.map_values(|m: Seq<(Seq<char>, Seq<char>)>| json_object(m)));
                }
                r
            },
        }
    }
}

} // verus!
