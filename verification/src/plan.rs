//! How resolved components are partitioned by scope before each scope's construction order is
//! computed, and which components a scope finds already built.
//!
//! A transient component is kept by its type (a later one of the same type replaces an earlier
//! one), a singleton joins the root, and any other component must belong to a declared scope:
//! there it is built by its factory, or, without one, seeded when the scope opens. A scope
//! finds prebuilt the root's components, every component of its ancestors, and its own seeds.
use vstd::prelude::*;

use crate::failure::{AppError, DiError};
use crate::providers::key_insert;
use crate::scope::{PreparedScopeTopology, ScopeId, ancestor_chain, has_id, root_id, transient_id};
use crate::text::owned;

verus! {

/// One resolved component as the partition reads it.
pub struct PlannedComponent {
    pub type_key: u64,
    pub rust_name: String,
    pub scope: ScopeId,
    /// Whether the component has an effective factory, or why that could not be decided.
    pub factory: Result<bool, DiError>,
}

/// Resolved components partitioned by scope, by index into `components`.
pub struct DescriptorPartitions {
    pub components: Vec<PlannedComponent>,
    /// The root's components, in order.
    pub singletons: Vec<usize>,
    /// The transient components by type: each type with its last component.
    pub transient: Vec<(u64, usize)>,
    /// The components of declared scopes, in order.
    pub scoped: Vec<usize>,
    /// Those of them built by a factory.
    pub factories: Vec<usize>,
    /// Those of them seeded when their scope opens.
    pub seeds: Vec<usize>,
}

// ---------------------------------------------------------------------------------------------
// What the partition holds
// ---------------------------------------------------------------------------------------------

/// Whether a component is transient.
pub open spec fn is_transient(c: PlannedComponent) -> bool {
    c.scope@ == transient_id()
}

/// Whether a component belongs to the root.
pub open spec fn is_root(c: PlannedComponent) -> bool {
    !is_transient(c) && c.scope@ == root_id()
}

/// Whether a component belongs to a scope the protocol declares.
pub open spec fn is_scoped(c: PlannedComponent) -> bool {
    !is_transient(c) && !is_root(c)
}

/// Whether a component can be partitioned: transient, root, or in a declared scope with a
/// decided factory.
pub open spec fn placeable(c: PlannedComponent, topo: Seq<crate::scope::BoundaryView>) -> bool {
    is_transient(c) || is_root(c) || (has_id(topo, c.scope@) && c.factory is Ok)
}

/// The index of the first component that cannot be partitioned among the first `n`, or -1.
pub open spec fn first_unplaced(cs: Seq<PlannedComponent>, topo: Seq<crate::scope::BoundaryView>, n: int) -> int
    decreases n,
{
    if n <= 0 {
        -1
    } else {
        let k = first_unplaced(cs, topo, n - 1);
        if k >= 0 {
            k
        } else if !placeable(cs[n - 1], topo) {
            n - 1
        } else {
            -1
        }
    }
}

/// The indices among the first `n` components that satisfy `p`, in order.
pub open spec fn indices_where(cs: Seq<PlannedComponent>, n: int, p: spec_fn(PlannedComponent) -> bool) -> Seq<usize>
    decreases n,
{
    if n <= 0 {
        Seq::empty()
    } else {
        let prev = indices_where(cs, n - 1, p);
        if p(cs[n - 1]) {
            prev.push((n - 1) as usize)
        } else {
            prev
        }
    }
}

/// Whether a component is built by a factory in its declared scope.
pub open spec fn is_factory(c: PlannedComponent) -> bool {
    is_scoped(c) && c.factory == Ok::<bool, DiError>(true)
}

/// Whether a component is seeded when its declared scope opens.
pub open spec fn is_seed(c: PlannedComponent) -> bool {
    is_scoped(c) && c.factory == Ok::<bool, DiError>(false)
}

/// Sets `key` to `index`: an existing entry for the key is replaced in place, a new key is
/// appended.
pub open spec fn keyed_put(s: Seq<(u64, usize)>, key: u64, index: usize) -> Seq<(u64, usize)>
    decreases s.len(),
{
    if s.len() == 0 {
        seq![(key, index)]
    } else if s.last().0 == key {
        s.drop_last().push((key, index))
    } else if keyed_has(s.drop_last(), key) {
        keyed_put(s.drop_last(), key, index).push(s.last())
    } else {
        s.push((key, index))
    }
}

/// Whether some entry has `key`.
pub open spec fn keyed_has(s: Seq<(u64, usize)>, key: u64) -> bool {
    exists|i: int| 0 <= i < s.len() && (#[trigger] s[i]).0 == key
}

/// The transient components among the first `n`, by type.
pub open spec fn transient_upto(cs: Seq<PlannedComponent>, n: int) -> Seq<(u64, usize)>
    decreases n,
{
    if n <= 0 {
        Seq::empty()
    } else {
        let prev = transient_upto(cs, n - 1);
        if is_transient(cs[n - 1]) {
            keyed_put(prev, cs[n - 1].type_key, (n - 1) as usize)
        } else {
            prev
        }
    }
}

/// Whether a partition describes exactly the given components.
pub open spec fn partitioned(p: DescriptorPartitions, cs: Seq<PlannedComponent>) -> bool {
    let n = cs.len() as int;
    &&& p.components@ == cs
    &&& p.singletons@ == indices_where(cs, n, |c: PlannedComponent| is_root(c))
    &&& p.transient@ == transient_upto(cs, n)
    &&& p.scoped@ == indices_where(cs, n, |c: PlannedComponent| is_scoped(c))
    &&& p.factories@ == indices_where(cs, n, |c: PlannedComponent| is_factory(c))
    &&& p.seeds@ == indices_where(cs, n, |c: PlannedComponent| is_seed(c))
}

/// Whether every index of a partition names one of its components.
pub open spec fn indices_valid(p: DescriptorPartitions) -> bool {
    let n = p.components@.len();
    &&& forall|i: int| 0 <= i < p.singletons@.len() ==> (#[trigger] p.singletons@[i]) < n
    &&& forall|i: int| 0 <= i < p.scoped@.len() ==> (#[trigger] p.scoped@[i]) < n
    &&& forall|i: int| 0 <= i < p.seeds@.len() ==> (#[trigger] p.seeds@[i]) < n
}

/// Whether `key` is prebuilt for `scope`: the type of a root component, of a component of one of
/// the scope's ancestors, or of one of the scope's own seeds.
pub open spec fn prebuilt_has(
    p: DescriptorPartitions,
    topo: Seq<crate::scope::BoundaryView>,
    scope: Seq<char>,
    key: u64,
) -> bool {
    let cs = p.components@;
    ||| exists|i: int| 0 <= i < p.singletons@.len() && cs[#[trigger] p.singletons@[i] as int].type_key == key
    ||| exists|i: int|
        0 <= i < p.scoped@.len() && cs[#[trigger] p.scoped@[i] as int].type_key == key
            && cs[p.scoped@[i] as int].scope@ != root_id() && ancestor_chain(topo, scope).contains(
            cs[p.scoped@[i] as int].scope@,
        )
    ||| exists|i: int|
        0 <= i < p.seeds@.len() && cs[#[trigger] p.seeds@[i] as int].type_key == key
            && cs[p.seeds@[i] as int].scope@ == scope
}

/// Whether a sequence of keys strictly increases.
pub open spec fn strictly_increasing(s: Seq<u64>) -> bool {
    forall|i: int, j: int| 0 <= i < j < s.len() ==> #[trigger] s[i] < #[trigger] s[j]
}

// ---------------------------------------------------------------------------------------------
// Proofs
// ---------------------------------------------------------------------------------------------

proof fn lemma_key_insert(s: Seq<u64>, x: u64)
    requires
        strictly_increasing(s),
    ensures
        strictly_increasing(key_insert(s, x)),
        forall|y: u64|
            #![trigger key_insert(s, x).contains(y)]
            #![trigger s.contains(y)]
            key_insert(s, x).contains(y) <==> (s.contains(y) || y == x),
    decreases s.len(),
{
    let r = key_insert(s, x);
    if s.len() == 0 {
        assert(r =~= seq![x]);
        assert forall|y: u64| r.contains(y) <==> (s.contains(y) || y == x) by {
            if r.contains(y) {
                let i = choose|i: int| 0 <= i < r.len() && r[i] == y;
                assert(i == 0);
            }
            if y == x {
                assert(r[0] == x);
            }
        }
    } else if x == s[0] {
        assert forall|y: u64| r.contains(y) <==> (s.contains(y) || y == x) by {
            if y == x {
                assert(s[0] == x);
            }
        }
    } else if x < s[0] {
        assert forall|i: int, j: int| 0 <= i < j < r.len() implies #[trigger] r[i] < #[trigger] r[j] by {
            if i == 0 {
                assert(r[j] == s[j - 1]);
                if j - 1 > 0 {
                    assert(s[0] < s[j - 1]);
                }
            } else {
                assert(r[i] == s[i - 1] && r[j] == s[j - 1]);
            }
        }
        assert forall|y: u64| r.contains(y) <==> (s.contains(y) || y == x) by {
            if r.contains(y) {
                let i = choose|i: int| 0 <= i < r.len() && r[i] == y;
                if i > 0 {
                    assert(s[i - 1] == y);
                }
            }
            if s.contains(y) {
                let i = choose|i: int| 0 <= i < s.len() && s[i] == y;
                assert(r[i + 1] == y);
            }
            if y == x {
                assert(r[0] == x);
            }
        }
    } else {
        let t = s.drop_first();
        assert forall|i: int, j: int| 0 <= i < j < t.len() implies #[trigger] t[i] < #[trigger] t[j] by {
            assert(t[i] == s[i + 1] && t[j] == s[j + 1]);
        }
        lemma_key_insert(t, x);
        let q = key_insert(t, x);
        assert(r == seq![s[0]] + q);
        assert(q.contains(x));
        assert forall|i: int, j: int| 0 <= i < j < r.len() implies #[trigger] r[i] < #[trigger] r[j] by {
            if i == 0 {
                assert(r[j] == q[j - 1]);
                let y = q[j - 1];
                assert(q.contains(y));
                assert(key_insert(t, x).contains(y) <==> (t.contains(y) || y == x));
                if y != x {
                    assert(t.contains(y));
                    let m = choose|m: int| 0 <= m < t.len() && t[m] == y;
                    assert(t[m] == s[m + 1]);
                    assert(s[0] < s[m + 1]);
                }
            } else {
                assert(r[i] == q[i - 1] && r[j] == q[j - 1]);
            }
        }
        assert forall|y: u64| r.contains(y) <==> (s.contains(y) || y == x) by {
            if r.contains(y) {
                let i = choose|i: int| 0 <= i < r.len() && r[i] == y;
                if i > 0 {
                    assert(q[i - 1] == y);
                    assert(q.contains(y));
                    assert(key_insert(t, x).contains(y) <==> (t.contains(y) || y == x));
                    if y != x {
                        assert(t.contains(y));
                        let m = choose|m: int| 0 <= m < t.len() && t[m] == y;
                        assert(t[m] == s[m + 1]);
                        assert(s.contains(y));
                    }
                } else {
                    assert(s[0] == y);
                }
            }
            if s.contains(y) {
                let i = choose|i: int| 0 <= i < s.len() && s[i] == y;
                if i == 0 {
                    assert(r[0] == y);
                } else {
                    assert(t[i - 1] == y);
                    assert(t.contains(y));
                    assert(key_insert(t, x).contains(y) <==> (t.contains(y) || y == x));
                    assert(q.contains(y));
                    let m = choose|m: int| 0 <= m < q.len() && q[m] == y;
                    assert(r[m + 1] == y);
                }
            }
            if y == x {
                assert(q.contains(x));
                let m = choose|m: int| 0 <= m < q.len() && q[m] == x;
                assert(r[m + 1] == x);
            }
        }
    }
}

fn insert_sorted_key(v: &mut Vec<u64>, x: u64)
    requires
        strictly_increasing(old(v)@),
    ensures
        final(v)@ == key_insert(old(v)@, x),
        strictly_increasing(final(v)@),
        forall|y: u64| final(v)@.contains(y) <==> (old(v)@.contains(y) || y == x),
{
    proof {
        lemma_key_insert(v@, x);
    }
    crate::providers::insert_key(v, x);
}

fn keyed_find(s: &Vec<(u64, usize)>, key: u64) -> (r: Option<usize>)
    ensures
        match r {
            Some(i) => i < s@.len() && s@[i as int].0 == key,
            None => !keyed_has(s@, key),
        },
{
    let mut i: usize = 0;
    while i < s.len()
        invariant
            i <= s@.len(),
            forall|j: int| 0 <= j < i ==> (#[trigger] s@[j]).0 != key,
        decreases s@.len() - i,
    {
        if s[i].0 == key {
            return Some(i);
        }
        i = i + 1;
    }
    None
}

proof fn lemma_keyed_put(s: Seq<(u64, usize)>, key: u64, index: usize, i: int)
    requires
        0 <= i < s.len(),
        s[i].0 == key,
        forall|a: int, b: int| 0 <= a < b < s.len() ==> (#[trigger] s[a]).0 != (#[trigger] s[b]).0,
    ensures
        keyed_put(s, key, index) == s.update(i, (key, index)),
    decreases s.len(),
{
    if s.last().0 != key {
        let p = s.drop_last();
        assert(p[i] == s[i]);
        assert(keyed_has(p, key));
        assert forall|a: int, b: int| 0 <= a < b < p.len() implies (#[trigger] p[a]).0 != (#[trigger] p[b]).0 by {
            assert(p[a] == s[a] && p[b] == s[b]);
        }
        lemma_keyed_put(p, key, index, i);
        assert(keyed_put(s, key, index) =~= s.update(i, (key, index)));
    } else {
        if i != s.len() - 1 {
            assert(s[i].0 != s[s.len() - 1].0);
        }
        assert(keyed_put(s, key, index) =~= s.update(i, (key, index)));
    }
}

proof fn lemma_keyed_push(s: Seq<(u64, usize)>, key: u64, index: usize)
    requires
        !keyed_has(s, key),
    ensures
        keyed_put(s, key, index) == s.push((key, index)),
    decreases s.len(),
{
    if s.len() > 0 {
        assert(s.last().0 != key) by {
            assert(s[s.len() - 1] == s.last());
        }
        assert(!keyed_has(s.drop_last(), key)) by {
            if keyed_has(s.drop_last(), key) {
                let i = choose|i: int| 0 <= i < s.drop_last().len() && (#[trigger] s.drop_last()[i]).0 == key;
                assert(s[i] == s.drop_last()[i]);
            }
        }
    }
}

proof fn lemma_keyed_unique(s: Seq<(u64, usize)>, key: u64, index: usize)
    requires
        forall|a: int, b: int| 0 <= a < b < s.len() ==> (#[trigger] s[a]).0 != (#[trigger] s[b]).0,
    ensures
        forall|a: int, b: int|
            0 <= a < b < keyed_put(s, key, index).len() ==> (#[trigger] keyed_put(s, key, index)[a]).0
                != (#[trigger] keyed_put(s, key, index)[b]).0,
{
    if keyed_has(s, key) {
        let i = choose|i: int| 0 <= i < s.len() && (#[trigger] s[i]).0 == key;
        lemma_keyed_put(s, key, index, i);
    } else {
        lemma_keyed_push(s, key, index);
        let r = keyed_put(s, key, index);
        assert forall|a: int, b: int| 0 <= a < b < r.len() implies (#[trigger] r[a]).0 != (#[trigger] r[b]).0 by {
            if b == s.len() {
                assert(r[a] == s[a]);
            } else {
                assert(r[a] == s[a] && r[b] == s[b]);
            }
        }
    }
}

// ---------------------------------------------------------------------------------------------
// Partitioning
// ---------------------------------------------------------------------------------------------

proof fn lemma_indices_below(cs: Seq<PlannedComponent>, n: int, p: spec_fn(PlannedComponent) -> bool)
    requires
        0 <= n,
    ensures
        forall|i: int| 0 <= i < indices_where(cs, n, p).len() ==> (#[trigger] indices_where(cs, n, p)[i]) < n,
    decreases n,
{
    if n > 0 {
        lemma_indices_below(cs, n - 1, p);
        let prev = indices_where(cs, n - 1, p);
        let r = indices_where(cs, n, p);
        assert forall|i: int| 0 <= i < r.len() implies (#[trigger] r[i]) < n by {
            if i < prev.len() {
                assert(r[i] == prev[i]);
            }
        }
    }
}

proof fn lemma_first_unplaced_is_unplaced(cs: Seq<PlannedComponent>, topo: Seq<crate::scope::BoundaryView>, n: int)
    ensures
        first_unplaced(cs, topo, n) >= 0 ==> first_unplaced(cs, topo, n) < n && !placeable(
            cs[first_unplaced(cs, topo, n)],
            topo,
        ),
    decreases n,
{
    if n > 0 {
        lemma_first_unplaced_is_unplaced(cs, topo, n - 1);
    }
}

/// Partitions resolved components by scope. The first component that belongs to an undeclared
/// scope, or whose factory could not be decided, is refused with that failure.
pub fn classify(components: Vec<PlannedComponent>, topology: &PreparedScopeTopology) -> (r: Result<
    DescriptorPartitions,
    AppError,
>)
    ensures
        r is Ok <==> first_unplaced(components@, topology@, components@.len() as int) < 0,
        r matches Ok(p) ==> partitioned(p, components@) && indices_valid(p),
        r matches Err(e) ==> {
            let k = first_unplaced(components@, topology@, components@.len() as int);
            let c = components@[k];
            if !has_id(topology@, c.scope@) {
                e matches AppError::UndeclaredScope { component, scope } && component@ == c.rust_name@
                    && scope@ == c.scope@
            } else {
                c.factory matches Err(d) && e == AppError::Di(d)
            }
        },
{
    let ghost cs = components@;
    let n = components.len();
    let mut singletons: Vec<usize> = Vec::new();
    let mut transient: Vec<(u64, usize)> = Vec::new();
    let mut scoped: Vec<usize> = Vec::new();
    let mut factories: Vec<usize> = Vec::new();
    let mut seeds: Vec<usize> = Vec::new();
    let root = ScopeId::root();
    let transient_scope = ScopeId::transient();
    let mut i: usize = 0;
    let mut fault: Option<usize> = None;
    while i < n && fault.is_none()
        invariant
            cs == components@,
            n == cs.len(),
            i <= n,
            root@ == root_id(),
            transient_scope@ == transient_id(),
            fault matches Some(k) ==> k < n && first_unplaced(cs, topology@, n as int) == k,
            fault is None ==> first_unplaced(cs, topology@, i as int) < 0,
            fault is None ==> singletons@ == indices_where(cs, i as int, |c: PlannedComponent| is_root(c)),
            fault is None ==> transient@ == transient_upto(cs, i as int),
            fault is None ==> scoped@ == indices_where(cs, i as int, |c: PlannedComponent| is_scoped(c)),
            fault is None ==> factories@ == indices_where(cs, i as int, |c: PlannedComponent| is_factory(c)),
            fault is None ==> seeds@ == indices_where(cs, i as int, |c: PlannedComponent| is_seed(c)),
            forall|a: int, b: int| 0 <= a < b < transient@.len() ==> (#[trigger] transient@[a]).0 != (#[trigger] transient@[b]).0,
        decreases n - i + if fault is None { 1int } else { 0int },
    {
        let c = &components[i];
        if c.scope.same(&transient_scope) {
            match keyed_find(&transient, c.type_key) {
                Some(j) => {
                    proof {
                        lemma_keyed_put(transient@, c.type_key, i, j as int);
                    }
                    transient.set(j, (c.type_key, i));
                },
                None => {
                    proof {
                        lemma_keyed_push(transient@, c.type_key, i);
                    }
                    transient.push((c.type_key, i));
                },
            }
            proof {
                lemma_keyed_unique(transient_upto(cs, i as int), c.type_key, i);
            }
            i = i + 1;
        } else if c.scope.same(&root) {
            singletons.push(i);
            i = i + 1;
        } else if !topology.contains(&c.scope) {
            proof {
                lemma_first_unplaced_stays(cs, topology@, i as int, n as int);
            }
            fault = Some(i);
        } else {
            match &c.factory {
                Ok(true) => {
                    scoped.push(i);
                    factories.push(i);
                    i = i + 1;
                },
                Ok(false) => {
                    scoped.push(i);
                    seeds.push(i);
                    i = i + 1;
                },
                Err(_) => {
                    proof {
                        lemma_first_unplaced_stays(cs, topology@, i as int, n as int);
                    }
                    fault = Some(i);
                },
            }
        }
    }
    let mut components = components;
    match fault {
        Some(k) => {
            let c = components.remove(k);
            proof {
                assert(c == cs[k as int]);
            }
            if !topology.contains(&c.scope) {
                return Err(AppError::UndeclaredScope { component: owned(c.rust_name.as_str()), scope: owned(c.scope.text.as_str()) });
            }
            match c.factory {
                Err(d) => Err(AppError::Di(d)),
                Ok(_) => {
                    proof {
                        lemma_first_unplaced_is_unplaced(cs, topology@, n as int);
                        assert(!placeable(cs[k as int], topology@));
                    }
                    vstd::pervasive::unreached()
                },
            }
        },
        None => {
            proof {
                lemma_indices_below(cs, n as int, |c: PlannedComponent| is_root(c));
                lemma_indices_below(cs, n as int, |c: PlannedComponent| is_scoped(c));
                lemma_indices_below(cs, n as int, |c: PlannedComponent| is_seed(c));
            }
            Ok(DescriptorPartitions { components, singletons, transient, scoped, factories, seeds })
        },
    }
}

proof fn lemma_first_unplaced_stays(cs: Seq<PlannedComponent>, topo: Seq<crate::scope::BoundaryView>, k: int, n: int)
    requires
        0 <= k < n,
        first_unplaced(cs, topo, k) < 0,
        !placeable(cs[k], topo),
    ensures
        first_unplaced(cs, topo, n) == k,
    decreases n,
{
    if n > k + 1 {
        lemma_first_unplaced_stays(cs, topo, k, n - 1);
    }
}

/// The types a scope finds already built: the root's components, every component of the
/// scope's ancestors, and the scope's own seeds; distinct and increasing.
pub fn prebuilt(partitions: &DescriptorPartitions, scope: &ScopeId, topology: &PreparedScopeTopology) -> (r: Vec<u64>)
    requires
        indices_valid(*partitions),
    ensures
        strictly_increasing(r@),
        forall|key: u64| r@.contains(key) <==> prebuilt_has(*partitions, topology@, scope@, key),
{
    let p = partitions;
    let ghost cs = p.components@;
    let mut out: Vec<u64> = Vec::new();
    let mut i: usize = 0;
    while i < p.singletons.len()
        invariant
            cs == p.components@,
            indices_valid(*p),
            i <= p.singletons@.len(),
            strictly_increasing(out@),
            forall|key: u64| out@.contains(key) <==> exists|j: int| 0 <= j < i && cs[#[trigger] p.singletons@[j] as int].type_key == key,
        decreases p.singletons@.len() - i,
    {
        let key = p.components[p.singletons[i]].type_key;
        insert_sorted_key(&mut out, key);
        proof {
            assert forall|k: u64| out@.contains(k) <==> exists|j: int| 0 <= j < i + 1 && cs[#[trigger] p.singletons@[j] as int].type_key == k by {
                if k == key {
                    assert(cs[p.singletons@[i as int] as int].type_key == k);
                }
            }
        }
        i = i + 1;
    }
    let mut m: usize = 0;
    while m < p.scoped.len()
        invariant
            cs == p.components@,
            indices_valid(*p),
            m <= p.scoped@.len(),
            strictly_increasing(out@),
            forall|key: u64| out@.contains(key) <==> (
                (exists|j: int| 0 <= j < p.singletons@.len() && cs[#[trigger] p.singletons@[j] as int].type_key == key)
                || exists|j: int| 0 <= j < m && cs[#[trigger] p.scoped@[j] as int].type_key == key
                    && cs[p.scoped@[j] as int].scope@ != root_id() && ancestor_chain(topology@, scope@).contains(
                    cs[p.scoped@[j] as int].scope@,
                )),
        decreases p.scoped@.len() - m,
    {
        let c = &p.components[p.scoped[m]];
        let root = ScopeId::root();
        if !c.scope.same(&root) && topology.is_ancestor(&c.scope, scope) {
            let key = c.type_key;
            insert_sorted_key(&mut out, key);
        }
        proof {
            assert forall|k: u64| out@.contains(k) <==> (
                (exists|j: int| 0 <= j < p.singletons@.len() && cs[#[trigger] p.singletons@[j] as int].type_key == k)
                || exists|j: int| 0 <= j < m + 1 && cs[#[trigger] p.scoped@[j] as int].type_key == k
                    && cs[p.scoped@[j] as int].scope@ != root_id() && ancestor_chain(topology@, scope@).contains(
                    cs[p.scoped@[j] as int].scope@,
                )) by {
                if cs[p.scoped@[m as int] as int].type_key == k && cs[p.scoped@[m as int] as int].scope@ != root_id()
                    && ancestor_chain(topology@, scope@).contains(cs[p.scoped@[m as int] as int].scope@) {
                    assert(out@.contains(k));
                }
            }
        }
        m = m + 1;
    }
    let mut q: usize = 0;
    while q < p.seeds.len()
        invariant
            cs == p.components@,
            indices_valid(*p),
            q <= p.seeds@.len(),
            strictly_increasing(out@),
            forall|key: u64| out@.contains(key) <==> (
                (exists|j: int| 0 <= j < p.singletons@.len() && cs[#[trigger] p.singletons@[j] as int].type_key == key)
                || (exists|j: int| 0 <= j < p.scoped@.len() && cs[#[trigger] p.scoped@[j] as int].type_key == key
                    && cs[p.scoped@[j] as int].scope@ != root_id() && ancestor_chain(topology@, scope@).contains(
                    cs[p.scoped@[j] as int].scope@,
                ))
                || exists|j: int| 0 <= j < q && cs[#[trigger] p.seeds@[j] as int].type_key == key
                    && cs[p.seeds@[j] as int].scope@ == scope@),
        decreases p.seeds@.len() - q,
    {
        let c = &p.components[p.seeds[q]];
        if c.scope.same(scope) {
            let key = c.type_key;
            insert_sorted_key(&mut out, key);
        }
        proof {
            assert forall|k: u64| out@.contains(k) <==> (
                (exists|j: int| 0 <= j < p.singletons@.len() && cs[#[trigger] p.singletons@[j] as int].type_key == k)
                || (exists|j: int| 0 <= j < p.scoped@.len() && cs[#[trigger] p.scoped@[j] as int].type_key == k
                    && cs[p.scoped@[j] as int].scope@ != root_id() && ancestor_chain(topology@, scope@).contains(
                    cs[p.scoped@[j] as int].scope@,
                ))
                || exists|j: int| 0 <= j < q + 1 && cs[#[trigger] p.seeds@[j] as int].type_key == k
                    && cs[p.seeds@[j] as int].scope@ == scope@) by {
                if cs[p.seeds@[q as int] as int].type_key == k && cs[p.seeds@[q as int] as int].scope@ == scope@ {
                    assert(out@.contains(k));
                }
            }
        }
        q = q + 1;
    }
    out
}

} // verus!
