//! How trait providers are projected: each provider with its trait and component, and, per
//! trait, the processing order of its ordered providers as a chain of relationships.
use vstd::prelude::*;

use crate::composition::{add_relation, add_resource};
use crate::dependencies::{TypeRef, bool_text, contribution_provenance_view, type_projected};
use crate::labels::{Labels, free_key, labels_from, lemma_labels_from_input_ok, lemma_not_values_at, pair_views};
use crate::projection::{DocumentView, Projection, RelationshipKind, ResourceKind, relationships_ready};
use crate::resource_ids::{ContributionProvenance, contribution_provenance, provider_resource};
use crate::text::{concat, decimal, decimal_string, owned};

verus! {

/// One registered trait provider with the facts the projection reads.
pub struct ProviderSnapshot {
    pub trait_ty: TypeRef,
    pub concrete_ty: TypeRef,
    pub qualifier: String,
    pub primary: bool,
    pub priority: i32,
    /// The projected component resource that provides it, if any.
    pub component: Option<String>,
    /// Its position in its trait's processing order, if it has one.
    pub order: Option<u32>,
    /// The plugin contribution that installed it, if any.
    pub contribution: Option<ContributionProvenance>,
}

// ---------------------------------------------------------------------------------------------
// What the projection records
// ---------------------------------------------------------------------------------------------

/// The label text of a signed integer.
pub open spec fn signed_text(i: int) -> Seq<char> {
    if i < 0 {
        "-"@ + decimal((-i) as nat)
    } else {
        decimal(i as nat)
    }
}

/// The identity of a provider resource.
pub open spec fn provider_text(p: ProviderSnapshot) -> Seq<char> {
    "provider:"@ + p.trait_ty.rust_name@ + ":"@ + p.concrete_ty.rust_name@ + ":"@ + p.qualifier@
}

/// The labels of a provider resource.
pub open spec fn provider_pairs(p: ProviderSnapshot) -> Seq<(Seq<char>, Seq<char>)> {
    let base = seq![
        ("primary"@, bool_text(p.primary)),
        ("priority"@, signed_text(p.priority as int)),
        ("qualifier"@, p.qualifier@),
        ("rust-trait"@, p.trait_ty.rust_name@),
        ("trait-target"@, "type:"@ + p.trait_ty.rust_name@),
    ];
    match p.order {
        Some(o) => base.push(("processing-ordinal"@, decimal(o as nat))),
        None => base,
    }
}

/// One provider: its trait's type, its resource, the trait it provides, and the component that
/// provides it.
pub open spec fn provider_projected(d: DocumentView, p: ProviderSnapshot) -> DocumentView {
    let id = provider_text(p);
    let trait_id = "type:"@ + p.trait_ty.rust_name@;
    let d1 = type_projected(d, p.trait_ty.rust_name@, p.trait_ty.name@);
    let d2 = add_resource(
        d1,
        id,
        ResourceKind::Provider,
        p.trait_ty.name@,
        match p.contribution {
            Some(c) => Some(contribution_provenance_view(c)),
            None => None,
        },
        provider_pairs(p),
    );
    let d3 = add_relation(d2, RelationshipKind::Provides, id, trait_id, Seq::empty());
    match p.component {
        Some(c) => add_relation(d3, RelationshipKind::Provides, c@, id, Seq::empty()),
        None => d3,
    }
}

/// Every provider, in registry order.
pub open spec fn providers_listed(d: DocumentView, ps: Seq<ProviderSnapshot>) -> DocumentView
    decreases ps.len(),
{
    if ps.len() == 0 {
        d
    } else {
        provider_projected(providers_listed(d, ps.drop_last()), ps.last())
    }
}

/// A key inserted into increasing distinct keys.
pub open spec fn key_insert(s: Seq<u64>, x: u64) -> Seq<u64>
    decreases s.len(),
{
    if s.len() == 0 {
        seq![x]
    } else if x == s[0] {
        s
    } else if x < s[0] {
        seq![x] + s
    } else {
        seq![s[0]] + key_insert(s.drop_first(), x)
    }
}

/// The distinct trait keys of the first `n` providers, increasing.
pub open spec fn trait_keys(ps: Seq<ProviderSnapshot>, n: int) -> Seq<u64>
    decreases n,
{
    if n <= 0 {
        Seq::empty()
    } else {
        key_insert(trait_keys(ps, n - 1), ps[n - 1].trait_ty.key)
    }
}

/// The processing position of a provider (0 when it has none).
pub open spec fn order_of(p: ProviderSnapshot) -> u32 {
    match p.order {
        Some(o) => o,
        None => 0,
    }
}

/// A provider's index inserted after every index whose provider comes no later.
pub open spec fn index_insert(ps: Seq<ProviderSnapshot>, s: Seq<usize>, x: usize) -> Seq<usize>
    decreases s.len(),
{
    if s.len() == 0 {
        seq![x]
    } else if order_of(ps[x as int]) < order_of(ps[s[0] as int]) {
        seq![x] + s
    } else {
        seq![s[0]] + index_insert(ps, s.drop_first(), x)
    }
}

/// The indices of the first `n` providers of trait `key` that have a processing position,
/// by position (providers with equal positions in registry order).
pub open spec fn ordered_upto(ps: Seq<ProviderSnapshot>, key: u64, n: int) -> Seq<usize>
    decreases n,
{
    if n <= 0 {
        Seq::empty()
    } else {
        let prev = ordered_upto(ps, key, n - 1);
        let p = ps[n - 1];
        if p.trait_ty.key == key && p.order is Some {
            index_insert(ps, prev, (n - 1) as usize)
        } else {
            prev
        }
    }
}

/// The labels of an ordering relationship between two providers of a trait.
pub open spec fn ordering_pairs(before: ProviderSnapshot) -> Seq<(Seq<char>, Seq<char>)> {
    seq![
        ("trait-target"@, "type:"@ + before.trait_ty.rust_name@),
        ("rust-trait"@, before.trait_ty.rust_name@),
    ]
}

/// The first `n` links of an ordered chain of providers: each provider is ordered before the
/// next.
pub open spec fn chain_projected(d: DocumentView, ps: Seq<ProviderSnapshot>, ord: Seq<usize>, n: int) -> DocumentView
    decreases n,
{
    if n <= 0 {
        d
    } else {
        let before = ps[ord[n - 1] as int];
        let after = ps[ord[n] as int];
        let d1 = type_projected(chain_projected(d, ps, ord, n - 1), before.trait_ty.rust_name@, before.trait_ty.name@);
        add_relation(
            d1,
            RelationshipKind::OrdersBefore,
            provider_text(before),
            provider_text(after),
            ordering_pairs(before),
        )
    }
}

/// The number of links in a chain.
pub open spec fn links(ord: Seq<usize>) -> int {
    if ord.len() > 0 {
        ord.len() - 1
    } else {
        0
    }
}

/// The ordering chains of the traits with the given keys, in turn.
pub open spec fn traits_ordered(d: DocumentView, ps: Seq<ProviderSnapshot>, keys: Seq<u64>) -> DocumentView
    decreases keys.len(),
{
    if keys.len() == 0 {
        d
    } else {
        let ord = ordered_upto(ps, keys.last(), ps.len() as int);
        chain_projected(traits_ordered(d, ps, keys.drop_last()), ps, ord, links(ord))
    }
}

/// Every provider, then each trait's ordering chain, traits by increasing key.
pub open spec fn providers_projected(d: DocumentView, ps: Seq<ProviderSnapshot>) -> DocumentView {
    traits_ordered(providers_listed(d, ps), ps, trait_keys(ps, ps.len() as int))
}

// ---------------------------------------------------------------------------------------------
// Proof helpers
// ---------------------------------------------------------------------------------------------

proof fn lemma_index_insert_valid(ps: Seq<ProviderSnapshot>, s: Seq<usize>, x: usize)
    requires
        x < ps.len(),
        forall|j: int| 0 <= j < s.len() ==> (#[trigger] s[j]) < ps.len(),
    ensures
        forall|j: int| 0 <= j < index_insert(ps, s, x).len() ==> (#[trigger] index_insert(ps, s, x)[j]) < ps.len(),
        index_insert(ps, s, x).len() == s.len() + 1,
    decreases s.len(),
{
    if s.len() > 0 && !(order_of(ps[x as int]) < order_of(ps[s[0] as int])) {
        let t = s.drop_first();
        assert forall|j: int| 0 <= j < t.len() implies (#[trigger] t[j]) < ps.len() by {
            assert(t[j] == s[j + 1]);
        }
        lemma_index_insert_valid(ps, t, x);
        let r = index_insert(ps, s, x);
        assert forall|j: int| 0 <= j < r.len() implies (#[trigger] r[j]) < ps.len() by {
            if j > 0 {
                assert(r[j] == index_insert(ps, t, x)[j - 1]);
            }
        }
    } else if s.len() > 0 {
        let r = index_insert(ps, s, x);
        assert forall|j: int| 0 <= j < r.len() implies (#[trigger] r[j]) < ps.len() by {
            if j > 0 {
                assert(r[j] == s[j - 1]);
            }
        }
    }
}

proof fn lemma_ordered_valid(ps: Seq<ProviderSnapshot>, key: u64, n: int)
    requires
        0 <= n <= ps.len(),
    ensures
        forall|j: int| 0 <= j < ordered_upto(ps, key, n).len() ==> (#[trigger] ordered_upto(ps, key, n)[j]) < ps.len(),
        ordered_upto(ps, key, n).len() <= n,
    decreases n,
{
    if n > 0 {
        lemma_ordered_valid(ps, key, n - 1);
        let p = ps[n - 1];
        if p.trait_ty.key == key && p.order is Some {
            lemma_index_insert_valid(ps, ordered_upto(ps, key, n - 1), (n - 1) as usize);
        }
    }
}

proof fn lemma_index_insert_unfold(ps: Seq<ProviderSnapshot>, s: Seq<usize>, x: usize, i: int)
    requires
        0 <= i < s.len(),
        !(order_of(ps[x as int]) < order_of(ps[s[i] as int])),
    ensures
        index_insert(ps, s.skip(i), x) == seq![s[i]] + index_insert(ps, s.skip(i + 1), x),
{
    assert(s.skip(i).drop_first() =~= s.skip(i + 1));
}

proof fn lemma_key_insert_unfold(s: Seq<u64>, x: u64, i: int)
    requires
        0 <= i < s.len(),
        x != s[i],
        !(x < s[i]),
    ensures
        key_insert(s.skip(i), x) == seq![s[i]] + key_insert(s.skip(i + 1), x),
{
    assert(s.skip(i).drop_first() =~= s.skip(i + 1));
}

proof fn lemma_ordering_pairs_ok(before: ProviderSnapshot)
    ensures
        crate::labels::label_input_ok(labels_from(ordering_pairs(before))),
{
    reveal_strlit("-values");
    reveal_strlit("dependency-decisions");
    reveal_strlit("trait-target");
    reveal_strlit("rust-trait");
    lemma_not_values_at("trait-target"@, 1);
    lemma_not_values_at("rust-trait"@, 0);
    assert(free_key("trait-target"@));
    assert(free_key("rust-trait"@));
    lemma_labels_from_input_ok(ordering_pairs(before));
}

// ---------------------------------------------------------------------------------------------
// Executable parts
// ---------------------------------------------------------------------------------------------

fn signed_string(i: i32) -> (r: String)
    ensures
        r@ == signed_text(i as int),
{
    if i < 0 {
        let magnitude: i64 = -(i as i64);
        let digits = decimal_string(magnitude as u64);
        concat("-", digits.as_str())
    } else {
        decimal_string(i as u64)
    }
}

pub(crate) fn insert_key(v: &mut Vec<u64>, x: u64)
    ensures
        final(v)@ == key_insert(old(v)@, x),
{
    let ghost s = v@;
    let n = v.len();
    let mut i: usize = 0;
    proof {
        assert(s.skip(0) =~= s);
        assert(key_insert(s, x) == s.take(0) + key_insert(s.skip(0), x));
    }
    while i < n && x != v[i] && !(x < v[i])
        invariant
            s == v@,
            n == s.len(),
            i <= n,
            key_insert(s, x) == s.take(i as int) + key_insert(s.skip(i as int), x),
        decreases n - i,
    {
        proof {
            lemma_key_insert_unfold(s, x, i as int);
            assert(s.take(i as int) + (seq![s[i as int]] + key_insert(s.skip(i + 1), x)) =~= s.take(i + 1)
                + key_insert(s.skip(i + 1), x));
        }
        i = i + 1;
    }
    if i < n && x == v[i] {
        proof {
            assert(s.skip(i as int)[0] == s[i as int]);
            assert(s.take(i as int) + s.skip(i as int) =~= s);
        }
        return;
    }
    v.insert(i, x);
    proof {
        if i < n {
            assert(s.skip(i as int)[0] == s[i as int]);
        } else {
            assert(s.skip(i as int) =~= Seq::<u64>::empty());
        }
        assert(v@ =~= s.take(i as int) + (seq![x] + s.skip(i as int)));
    }
}

fn order_value(p: &ProviderSnapshot) -> (r: u32)
    ensures
        r == order_of(*p),
{
    match p.order {
        Some(o) => o,
        None => 0,
    }
}

fn insert_index(ps: &Vec<ProviderSnapshot>, v: &mut Vec<usize>, x: usize)
    requires
        x < ps@.len(),
        forall|j: int| 0 <= j < old(v)@.len() ==> (#[trigger] old(v)@[j]) < ps@.len(),
    ensures
        final(v)@ == index_insert(ps@, old(v)@, x),
{
    let ghost s = v@;
    let n = v.len();
    let mut i: usize = 0;
    proof {
        assert(s.skip(0) =~= s);
        assert(index_insert(ps@, s, x) == s.take(0) + index_insert(ps@, s.skip(0), x));
    }
    let ox = order_value(&ps[x]);
    while i < n && !(ox < order_value(&ps[v[i]]))
        invariant
            s == v@,
            n == s.len(),
            i <= n,
            x < ps@.len(),
            ox == order_of(ps@[x as int]),
            forall|j: int| 0 <= j < s.len() ==> (#[trigger] s[j]) < ps@.len(),
            index_insert(ps@, s, x) == s.take(i as int) + index_insert(ps@, s.skip(i as int), x),
        decreases n - i,
    {
        proof {
            lemma_index_insert_unfold(ps@, s, x, i as int);
            assert(s.take(i as int) + (seq![s[i as int]] + index_insert(ps@, s.skip(i + 1), x))
                =~= s.take(i + 1) + index_insert(ps@, s.skip(i + 1), x));
        }
        i = i + 1;
    }
    v.insert(i, x);
    proof {
        if i < n {
            assert(s.skip(i as int)[0] == s[i as int]);
        } else {
            assert(s.skip(i as int) =~= Seq::<usize>::empty());
        }
        assert(v@ =~= s.take(i as int) + (seq![x] + s.skip(i as int)));
    }
}

impl Projection {
    /// Projects one provider: its trait's type, its resource with how it is selected, the
    /// trait it provides, and the component that provides it.
    pub fn project_provider(&mut self, provider: &ProviderSnapshot)
        requires
            relationships_ready(old(self)@.relationships),
        ensures
            final(self)@ == provider_projected(old(self)@, *provider),
            relationships_ready(final(self)@.relationships),
    {
        let id = provider_resource(
            provider.trait_ty.rust_name.as_str(),
            provider.concrete_ty.rust_name.as_str(),
            provider.qualifier.as_str(),
        );
        let trait_resource = self.type_resource(
            provider.trait_ty.rust_name.as_str(),
            provider.trait_ty.name.as_str(),
        );
        let mut pairs: Vec<(String, String)> = Vec::new();
        pairs.push((owned("primary"), owned(if provider.primary { "true" } else { "false" })));
        pairs.push((owned("priority"), signed_string(provider.priority)));
        pairs.push((owned("qualifier"), owned(provider.qualifier.as_str())));
        pairs.push((owned("rust-trait"), owned(provider.trait_ty.rust_name.as_str())));
        pairs.push((owned("trait-target"), owned(trait_resource.as_str())));
        if let Some(o) = provider.order {
            pairs.push((owned("processing-ordinal"), decimal_string(o as u64)));
        }
        proof {
            assert(pair_views(pairs@) =~= provider_pairs(*provider));
        }
        let provenance = match &provider.contribution {
            Some(c) => Some(contribution_provenance(c)),
            None => None,
        };
        self.resource(
            id.as_str(),
            ResourceKind::Provider,
            provider.trait_ty.name.as_str(),
            provenance,
            Labels::from_pairs(pairs),
        );
        self.relationship(RelationshipKind::Provides, id.as_str(), trait_resource.as_str(), Labels::new());
        if let Some(component) = &provider.component {
            self.relationship(RelationshipKind::Provides, component.as_str(), id.as_str(), Labels::new());
        }
    }

    fn project_chain(&mut self, providers: &Vec<ProviderSnapshot>, ord: &Vec<usize>)
        requires
            relationships_ready(old(self)@.relationships),
            forall|j: int| 0 <= j < ord@.len() ==> (#[trigger] ord@[j]) < providers@.len(),
        ensures
            final(self)@ == chain_projected(old(self)@, providers@, ord@, links(ord@)),
            relationships_ready(final(self)@.relationships),
    {
        let ghost d0 = self@;
        let mut k: usize = 1;
        if ord.len() == 0 {
            return;
        }
        while k < ord.len()
            invariant
                1 <= k <= ord@.len(),
                forall|j: int| 0 <= j < ord@.len() ==> (#[trigger] ord@[j]) < providers@.len(),
                self@ == chain_projected(d0, providers@, ord@, k - 1),
                relationships_ready(self@.relationships),
            decreases ord@.len() - k,
        {
            let before = &providers[ord[k - 1]];
            let after = &providers[ord[k]];
            let trait_resource = self.type_resource(
                before.trait_ty.rust_name.as_str(),
                before.trait_ty.name.as_str(),
            );
            let from = provider_resource(
                before.trait_ty.rust_name.as_str(),
                before.concrete_ty.rust_name.as_str(),
                before.qualifier.as_str(),
            );
            let to = provider_resource(
                after.trait_ty.rust_name.as_str(),
                after.concrete_ty.rust_name.as_str(),
                after.qualifier.as_str(),
            );
            let mut pairs: Vec<(String, String)> = Vec::new();
            pairs.push((owned("trait-target"), trait_resource));
            pairs.push((owned("rust-trait"), owned(before.trait_ty.rust_name.as_str())));
            proof {
                assert(pair_views(pairs@) =~= ordering_pairs(*before));
                lemma_ordering_pairs_ok(*before);
            }
            self.relationship(RelationshipKind::OrdersBefore, from.as_str(), to.as_str(), Labels::from_pairs(pairs));
            k = k + 1;
        }
    }

    /// Projects every provider, then, for each trait (by increasing key), orders its providers
    /// that have a processing position, each before the next.
    pub fn project_providers(&mut self, providers: &Vec<ProviderSnapshot>)
        requires
            relationships_ready(old(self)@.relationships),
        ensures
            final(self)@ == providers_projected(old(self)@, providers@),
            relationships_ready(final(self)@.relationships),
    {
        let ghost d0 = self@;
        let ghost ps = providers@;
        let mut i: usize = 0;
        proof {
            assert(ps.take(0) =~= Seq::<ProviderSnapshot>::empty());
        }
        while i < providers.len()
            invariant
                ps == providers@,
                i <= ps.len(),
                self@ == providers_listed(d0, ps.take(i as int)),
                relationships_ready(self@.relationships),
            decreases ps.len() - i,
        {
            proof {
                assert(ps.take(i + 1).drop_last() =~= ps.take(i as int));
                assert(ps.take(i + 1).last() == ps[i as int]);
            }
            self.project_provider(&providers[i]);
            i = i + 1;
        }
        proof {
            assert(ps.take(ps.len() as int) =~= ps);
        }
        let ghost d1 = self@;
        let mut keys: Vec<u64> = Vec::new();
        let mut j: usize = 0;
        while j < providers.len()
            invariant
                ps == providers@,
                j <= ps.len(),
                keys@ == trait_keys(ps, j as int),
            decreases ps.len() - j,
        {
            insert_key(&mut keys, providers[j].trait_ty.key);
            j = j + 1;
        }
        let mut t: usize = 0;
        proof {
            assert(keys@.take(0) =~= Seq::<u64>::empty());
        }
        while t < keys.len()
            invariant
                ps == providers@,
                keys@ == trait_keys(ps, ps.len() as int),
                t <= keys@.len(),
                self@ == traits_ordered(d1, ps, keys@.take(t as int)),
                relationships_ready(self@.relationships),
            decreases keys@.len() - t,
        {
            proof {
                assert(keys@.take(t + 1).drop_last() =~= keys@.take(t as int));
                assert(keys@.take(t + 1).last() == keys@[t as int]);
            }
            let key = keys[t];
            let mut ord: Vec<usize> = Vec::new();
            let mut m: usize = 0;
            while m < providers.len()
                invariant
                    ps == providers@,
                    m <= ps.len(),
                    ord@ == ordered_upto(ps, key, m as int),
                    forall|q: int| 0 <= q < ord@.len() ==> (#[trigger] ord@[q]) < ps.len(),
                decreases ps.len() - m,
            {
                let p = &providers[m];
                if p.trait_ty.key == key && p.order.is_some() {
                    proof {
                        lemma_index_insert_valid(ps, ord@, m);
                    }
                    insert_index(providers, &mut ord, m);
                }
                m = m + 1;
            }
            self.project_chain(providers, &ord);
            t = t + 1;
        }
        proof {
            assert(keys@.take(keys@.len() as int) =~= keys@);
        }
    }
}

} // verus!
