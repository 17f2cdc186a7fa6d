//! The tooling document a prepared application projects: resources, and relationships between
//! them that are kept one per `(kind, from, to)`.
//!
//! Relating two resources again merges the new labels into the existing relationship instead of
//! adding a second one: dependency relationships record the distinct label sets they were
//! given, the others aggregate each disagreeing label (see the `labels` module).
use vstd::prelude::*;

use crate::contribution::{
    ContributedFacet, ContributedRelationship, ContributedResource, ResourceDisplay,
    ToolingContributionError, ToolingContributionSet, ToolingRelationshipKind, copy_labels,
    label_views,
};
use crate::labels::{
    LabelValue, LabelView, Labels, all_text, decisions_key, dependency_merge, dependency_ready,
    ends_with_values, keys_sorted, label_input_ok, labels_from, law_dependency_merge_of_itself,
    law_scalar_merge_of_itself, lemma_input_ready, merge_dependency_labels, merge_scalar_labels,
    pair_views, put, scalar_merge, scalar_ready,
};
use crate::resource_ids::{Provenance, ProvenanceView};
use crate::text::{owned, starts_with, text_eq};

verus! {

/// The kind of a projected relationship.
#[derive(Clone, Copy, Debug, PartialEq, Eq, Structural)]
pub enum RelationshipKind {
    Contains,
    DependsOn,
    Provides,
    Hooks,
    Binds,
    Contributes,
    Validates,
    OpensScope,
    OrdersBefore,
    OrdersAfter,
    Conflicts,
    Replaces,
    Suppresses,
}

/// The kind of a projected resource.
#[derive(Clone, Copy, Debug, PartialEq, Eq, Structural)]
pub enum ResourceKind {
    Application,
    Scope,
    Component,
    Type,
    Provider,
    ConfigBinding,
    Hook,
    Lifecycle,
    Plugin,
    PluginSlot,
    Contribution,
    Contributor,
    Protocol,
}

/// A projected resource.
pub struct Resource {
    pub id: String,
    pub kind: ResourceKind,
    pub name: String,
    pub display: Option<ResourceDisplay>,
    pub provenance: Option<Provenance>,
    pub labels: Labels,
    /// Facets by fully qualified identity: schema version and JSON text.
    pub facets: Vec<(String, u16, String)>,
}

/// What a projected resource holds.
pub struct ResourceView {
    pub id: Seq<char>,
    pub kind: ResourceKind,
    pub name: Seq<char>,
    pub display: Option<(Option<Seq<char>>, Option<Seq<char>>)>,
    pub provenance: Option<ProvenanceView>,
    pub labels: Seq<(Seq<char>, LabelView)>,
    pub facets: Seq<(Seq<char>, u16, Seq<char>)>,
}

/// The texts of a list of facets.
pub open spec fn facet_list(f: Seq<(String, u16, String)>) -> Seq<(Seq<char>, u16, Seq<char>)> {
    f.map_values(|e: (String, u16, String)| (e.0@, e.1, e.2@))
}

impl View for Resource {
    type V = ResourceView;

    open spec fn view(&self) -> ResourceView {
        ResourceView {
            id: self.id@,
            kind: self.kind,
            name: self.name@,
            display: match self.display {
                Some(d) => Some(d@),
                None => None,
            },
            provenance: match self.provenance {
                Some(p) => Some(p@),
                None => None,
            },
            labels: self.labels@,
            facets: facet_list(self.facets@),
        }
    }
}

/// A projected relationship.
pub struct Relationship {
    pub kind: RelationshipKind,
    pub from: String,
    pub to: String,
    pub labels: Labels,
}

/// What a projected relationship holds.
pub struct RelationshipView {
    pub kind: RelationshipKind,
    pub from: Seq<char>,
    pub to: Seq<char>,
    pub labels: Seq<(Seq<char>, LabelView)>,
}

impl View for Relationship {
    type V = RelationshipView;

    open spec fn view(&self) -> RelationshipView {
        RelationshipView { kind: self.kind, from: self.from@, to: self.to@, labels: self.labels@ }
    }
}

/// What a projected document holds.
pub struct DocumentView {
    pub resources: Seq<ResourceView>,
    pub relationships: Seq<RelationshipView>,
}

/// The document under projection.
pub struct Projection {
    resources: Vec<Resource>,
    relationships: Vec<Relationship>,
}

impl View for Projection {
    type V = DocumentView;

    closed spec fn view(&self) -> DocumentView {
        DocumentView {
            resources: self.resources@.map_values(|r: Resource| r@),
            relationships: self.relationships@.map_values(|r: Relationship| r@),
        }
    }
}

// ---------------------------------------------------------------------------------------------
// Relationship labels
// ---------------------------------------------------------------------------------------------

/// The labels of a relationship after merging a duplicate's labels into them: dependency
/// relationships record decisions, the others aggregate scalar labels.
pub open spec fn merge_labels(
    kind: RelationshipKind,
    existing: Seq<(Seq<char>, LabelView)>,
    incoming: Seq<(Seq<char>, LabelView)>,
) -> Seq<(Seq<char>, LabelView)> {
    if kind == RelationshipKind::DependsOn {
        dependency_merge(existing, incoming)
    } else {
        scalar_merge(existing, incoming)
    }
}

/// Whether a relationship's labels are in the shape its kind's merge keeps.
pub open spec fn labels_ready(kind: RelationshipKind, s: Seq<(Seq<char>, LabelView)>) -> bool {
    if kind == RelationshipKind::DependsOn {
        dependency_ready(s)
    } else {
        scalar_ready(s)
    }
}

/// Merges a duplicate relationship's labels into the existing relationship's labels, as its
/// kind requires.
pub fn merge_relationship_labels(kind: &RelationshipKind, existing: &mut Labels, incoming: Labels)
    requires
        labels_ready(*kind, old(existing)@),
        label_input_ok(incoming@),
    ensures
        final(existing)@ == merge_labels(*kind, old(existing)@, incoming@),
        labels_ready(*kind, final(existing)@),
{
    proof {
        lemma_input_ready(incoming@);
    }
    match kind {
        RelationshipKind::DependsOn => merge_dependency_labels(existing, &incoming),
        _ => merge_scalar_labels(existing, &incoming),
    }
}

/// Merging a relationship's fresh labels with an exact copy of themselves leaves them as they
/// are, whatever the relationship's kind.
pub proof fn law_exact_duplicate_labels_are_idempotent(
    kind: RelationshipKind,
    labels: Seq<(Seq<char>, LabelView)>,
)
    requires
        label_input_ok(labels),
    ensures
        merge_labels(kind, labels, labels) == labels,
{
    law_scalar_merge_of_itself(labels);
    law_dependency_merge_of_itself(labels);
}

// ---------------------------------------------------------------------------------------------
// The document
// ---------------------------------------------------------------------------------------------

/// Whether a relationship joins `from` to `to` with `kind`.
pub open spec fn same_edge(
    r: RelationshipView,
    kind: RelationshipKind,
    from: Seq<char>,
    to: Seq<char>,
) -> bool {
    r.kind == kind && r.from == from && r.to == to
}

/// The index of the first relationship joining `from` to `to` with `kind`, or -1.
pub open spec fn edge_index(
    rels: Seq<RelationshipView>,
    kind: RelationshipKind,
    from: Seq<char>,
    to: Seq<char>,
) -> int
    decreases rels.len(),
{
    if rels.len() == 0 {
        -1
    } else {
        let i = edge_index(rels.drop_last(), kind, from, to);
        if i >= 0 {
            i
        } else if same_edge(rels.last(), kind, from, to) {
            rels.len() - 1
        } else {
            -1
        }
    }
}

/// The relationships after relating `from` to `to` with `kind` and `labels`: an existing
/// relationship with the same kind and endpoints takes the labels in by merging; otherwise a
/// new relationship is appended.
pub open spec fn relate(
    rels: Seq<RelationshipView>,
    kind: RelationshipKind,
    from: Seq<char>,
    to: Seq<char>,
    labels: Seq<(Seq<char>, LabelView)>,
) -> Seq<RelationshipView> {
    let i = edge_index(rels, kind, from, to);
    if i >= 0 {
        rels.update(
            i,
            RelationshipView {
                kind: rels[i].kind,
                from: rels[i].from,
                to: rels[i].to,
                labels: merge_labels(kind, rels[i].labels, labels),
            },
        )
    } else {
        rels.push(RelationshipView { kind, from, to, labels })
    }
}

/// Whether every relationship's labels are in the shape its kind's merge keeps.
pub open spec fn relationships_ready(rels: Seq<RelationshipView>) -> bool {
    forall|i: int| 0 <= i < rels.len() ==> labels_ready((#[trigger] rels[i]).kind, rels[i].labels)
}

/// Whether no two relationships share kind and endpoints.
pub open spec fn edges_unique(rels: Seq<RelationshipView>) -> bool {
    forall|i: int, j: int|
        0 <= i < j < rels.len() ==> !same_edge(#[trigger] rels[i], rels[j].kind, rels[j].from, #[trigger] rels[j].to)
}

/// Whether a resource with identity `id` has been projected.
pub open spec fn has_resource_id(resources: Seq<ResourceView>, id: Seq<char>) -> bool {
    exists|i: int| 0 <= i < resources.len() && (#[trigger] resources[i]).id == id
}

/// A resource as the projection first records it: no display and no facets.
pub open spec fn new_resource(
    id: Seq<char>,
    kind: ResourceKind,
    name: Seq<char>,
    provenance: Option<ProvenanceView>,
    labels: Seq<(Seq<char>, LabelView)>,
) -> ResourceView {
    ResourceView {
        id,
        kind,
        name,
        display: None,
        provenance,
        labels,
        facets: Seq::empty(),
    }
}

proof fn lemma_edge_index_bounds(
    rels: Seq<RelationshipView>,
    kind: RelationshipKind,
    from: Seq<char>,
    to: Seq<char>,
)
    ensures
        -1 <= edge_index(rels, kind, from, to) < rels.len(),
        edge_index(rels, kind, from, to) >= 0 ==> same_edge(
            rels[edge_index(rels, kind, from, to)],
            kind,
            from,
            to,
        ),
        edge_index(rels, kind, from, to) < 0 ==> forall|j: int|
            0 <= j < rels.len() ==> !same_edge(#[trigger] rels[j], kind, from, to),
    decreases rels.len(),
{
    if rels.len() > 0 {
        let p = rels.drop_last();
        lemma_edge_index_bounds(p, kind, from, to);
        assert forall|j: int| 0 <= j < p.len() implies p[j] == rels[j] by {}
        if edge_index(p, kind, from, to) < 0 && !same_edge(rels.last(), kind, from, to) {
            assert forall|j: int| 0 <= j < rels.len() implies !same_edge(
                #[trigger] rels[j],
                kind,
                from,
                to,
            ) by {
                if j < p.len() {
                    assert(p[j] == rels[j]);
                }
            }
        }
    }
}

proof fn lemma_edge_index_prefix(
    rels: Seq<RelationshipView>,
    kind: RelationshipKind,
    from: Seq<char>,
    to: Seq<char>,
    n: int,
)
    requires
        0 <= n <= rels.len(),
        forall|j: int| 0 <= j < n ==> !same_edge(#[trigger] rels[j], kind, from, to),
        n < rels.len() ==> same_edge(rels[n], kind, from, to),
    ensures
        edge_index(rels, kind, from, to) == if n < rels.len() {
            n
        } else {
            -1
        },
    decreases rels.len(),
{
    if rels.len() > 0 {
        let p = rels.drop_last();
        if n < rels.len() - 1 {
            lemma_edge_index_prefix(p, kind, from, to, n);
        } else {
            assert forall|j: int| 0 <= j < p.len() implies !same_edge(#[trigger] p[j], kind, from, to) by {
                assert(p[j] == rels[j]);
            }
            lemma_edge_index_prefix(p, kind, from, to, p.len() as int);
        }
    }
}

/// Relating keeps at most one relationship per kind and endpoints, and afterwards exactly one
/// relationship joins `from` to `to` with `kind`.
pub proof fn law_relate_keeps_one_edge_per_endpoints(
    rels: Seq<RelationshipView>,
    kind: RelationshipKind,
    from: Seq<char>,
    to: Seq<char>,
    labels: Seq<(Seq<char>, LabelView)>,
)
    requires
        edges_unique(rels),
    ensures
        edges_unique(relate(rels, kind, from, to, labels)),
        exists|i: int|
            0 <= i < relate(rels, kind, from, to, labels).len() && same_edge(
                #[trigger] relate(rels, kind, from, to, labels)[i],
                kind,
                from,
                to,
            ),
        relate(rels, kind, from, to, labels).len() == rels.len() + if edge_index(
            rels,
            kind,
            from,
            to,
        ) >= 0 {
            0int
        } else {
            1int
        },
{
    lemma_edge_index_bounds(rels, kind, from, to);
    let r = relate(rels, kind, from, to, labels);
    let i = edge_index(rels, kind, from, to);
    if i >= 0 {
        assert forall|a: int, b: int| 0 <= a < b < r.len() implies !same_edge(
            #[trigger] r[a],
            r[b].kind,
            r[b].from,
            #[trigger] r[b].to,
        ) by {
            assert(!same_edge(rels[a], rels[b].kind, rels[b].from, rels[b].to));
        }
        assert(same_edge(r[i], kind, from, to));
    } else {
        assert forall|a: int, b: int| 0 <= a < b < r.len() implies !same_edge(
            #[trigger] r[a],
            r[b].kind,
            r[b].from,
            #[trigger] r[b].to,
        ) by {
            if b < rels.len() {
                assert(!same_edge(rels[a], rels[b].kind, rels[b].from, rels[b].to));
            } else {
                assert(!same_edge(rels[a], kind, from, to));
            }
        }
        assert(same_edge(r[rels.len() as int], kind, from, to));
    }
}

/// Relating the same endpoints twice with the same fresh labels leaves the relationships as
/// relating them once did.
pub proof fn law_relating_an_exact_duplicate_changes_nothing(
    rels: Seq<RelationshipView>,
    kind: RelationshipKind,
    from: Seq<char>,
    to: Seq<char>,
    labels: Seq<(Seq<char>, LabelView)>,
)
    requires
        label_input_ok(labels),
        edge_index(rels, kind, from, to) < 0,
    ensures
        relate(relate(rels, kind, from, to, labels), kind, from, to, labels) == relate(
            rels,
            kind,
            from,
            to,
            labels,
        ),
{
    let once = relate(rels, kind, from, to, labels);
    lemma_edge_index_bounds(rels, kind, from, to);
    lemma_edge_index_prefix(once, kind, from, to, rels.len() as int);
    law_exact_duplicate_labels_are_idempotent(kind, labels);
    assert(relate(once, kind, from, to, labels) =~= once);
}

/// Whether some relationship joins `from` to `to` with `kind`.
pub open spec fn has_edge(
    rels: Seq<RelationshipView>,
    kind: RelationshipKind,
    from: Seq<char>,
    to: Seq<char>,
) -> bool {
    exists|i: int| 0 <= i < rels.len() && same_edge(#[trigger] rels[i], kind, from, to)
}

/// Whether `b` keeps every relationship of `a` in its place, with its kind and endpoints.
pub open spec fn edges_kept(a: Seq<RelationshipView>, b: Seq<RelationshipView>) -> bool {
    &&& a.len() <= b.len()
    &&& forall|i: int| 0 <= i < a.len() ==> same_edge(#[trigger] b[i], a[i].kind, a[i].from, a[i].to)
}

/// Relating never drops or rewires a relationship, and afterwards some relationship joins the
/// related endpoints.
pub proof fn law_relate_keeps_relationships(
    rels: Seq<RelationshipView>,
    kind: RelationshipKind,
    from: Seq<char>,
    to: Seq<char>,
    labels: Seq<(Seq<char>, LabelView)>,
)
    ensures
        edges_kept(rels, relate(rels, kind, from, to, labels)),
        has_edge(relate(rels, kind, from, to, labels), kind, from, to),
{
    lemma_edge_index_bounds(rels, kind, from, to);
    let r = relate(rels, kind, from, to, labels);
    let i = edge_index(rels, kind, from, to);
    if i >= 0 {
        assert(same_edge(r[i], kind, from, to));
    } else {
        assert(same_edge(r[rels.len() as int], kind, from, to));
    }
}

impl Projection {
    /// An empty document.
    pub fn new() -> (r: Projection)
        ensures
            r@.resources.len() == 0,
            r@.relationships.len() == 0,
    {
        let r = Projection { resources: Vec::new(), relationships: Vec::new() };
        proof {
            assert(r@.resources =~= Seq::<ResourceView>::empty());
            assert(r@.relationships =~= Seq::<RelationshipView>::empty());
        }
        r
    }

    /// The projected resources, in projection order.
    pub fn resources(&self) -> (r: &Vec<Resource>)
        ensures
            r@.map_values(|x: Resource| x@) == self@.resources,
    {
        &self.resources
    }

    /// The projected relationships, in projection order.
    pub fn relationships(&self) -> (r: &Vec<Relationship>)
        ensures
            r@.map_values(|x: Relationship| x@) == self@.relationships,
    {
        &self.relationships
    }

    /// Whether a resource with identity `id` has been projected.
    pub fn has_resource(&self, id: &str) -> (r: bool)
        ensures
            r == has_resource_id(self@.resources, id@),
    {
        let ghost rs = self@.resources;
        let mut i: usize = 0;
        while i < self.resources.len()
            invariant
                rs == self@.resources,
                rs.len() == self.resources@.len(),
                i <= self.resources@.len(),
                forall|j: int| 0 <= j < i ==> (#[trigger] rs[j]).id != id@,
            decreases self.resources@.len() - i,
        {
            proof {
                assert(rs[i as int] == self.resources@[i as int]@);
            }
            if text_eq(self.resources[i].id.as_str(), id) {
                proof {
                    assert(rs[i as int].id == id@);
                }
                return true;
            }
            i = i + 1;
        }
        false
    }

    /// Records a resource with no display and no facets.
    pub fn resource(
        &mut self,
        id: &str,
        kind: ResourceKind,
        name: &str,
        provenance: Option<Provenance>,
        labels: Labels,
    )
        ensures
            final(self)@.resources == old(self)@.resources.push(
                new_resource(
                    id@,
                    kind,
                    name@,
                    match provenance {
                        Some(p) => Some(p@),
                        None => None,
                    },
                    labels@,
                ),
            ),
            final(self)@.relationships == old(self)@.relationships,
    {
        let ghost before = self@;
        let r = Resource {
            id: owned(id),
            kind,
            name: owned(name),
            display: None,
            provenance,
            labels,
            facets: Vec::new(),
        };
        proof {
            assert(facet_list(r.facets@) =~= Seq::<(Seq<char>, u16, Seq<char>)>::empty());
        }
        self.resources.push(r);
        proof {
            assert(self@.resources =~= before.resources.push(r@));
            assert(self@.relationships =~= before.relationships);
        }
    }

    /// Relates `from` to `to` with `kind` and `labels`: an existing relationship with the same
    /// kind and endpoints merges the labels in, otherwise a new relationship is appended.
    pub fn relationship(&mut self, kind: RelationshipKind, from: &str, to: &str, labels: Labels)
        requires
            relationships_ready(old(self)@.relationships),
            label_input_ok(labels@),
        ensures
            final(self)@.relationships == relate(
                old(self)@.relationships,
                kind,
                from@,
                to@,
                labels@,
            ),
            final(self)@.resources == old(self)@.resources,
            relationships_ready(final(self)@.relationships),
    {
        let ghost before = self@;
        let ghost rels = before.relationships;
        let n = self.relationships.len();
        let mut i: usize = 0;
        while i < n && !(self.relationships[i].kind == kind && text_eq(
            self.relationships[i].from.as_str(),
            from,
        ) && text_eq(self.relationships[i].to.as_str(), to))
            invariant
                rels == self@.relationships,
                n == rels.len(),
                i <= n,
                forall|j: int| 0 <= j < i ==> !same_edge(#[trigger] rels[j], kind, from@, to@),
            decreases n - i,
        {
            proof {
                assert(rels[i as int] == self.relationships@[i as int]@);
            }
            i = i + 1;
        }
        proof {
            if i < n {
                assert(rels[i as int] == self.relationships@[i as int]@);
            }
            lemma_edge_index_prefix(rels, kind, from@, to@, i as int);
            lemma_input_ready(labels@);
        }
        if i < n {
            let ghost old_rel = rels[i as int];
            let mut rel = self.relationships.remove(i);
            proof {
                assert(rel@ == old_rel);
                assert(labels_ready(old_rel.kind, old_rel.labels));
            }
            merge_relationship_labels(&kind, &mut rel.labels, labels);
            self.relationships.insert(i, rel);
            proof {
                assert(self@.relationships =~= relate(rels, kind, from@, to@, labels@));
                assert forall|j: int| 0 <= j < self@.relationships.len() implies labels_ready(
                    (#[trigger] self@.relationships[j]).kind,
                    self@.relationships[j].labels,
                ) by {
                    if j != i {
                        assert(self@.relationships[j] == rels[j]);
                    }
                }
            }
        } else {
            let rel = Relationship { kind, from: owned(from), to: owned(to), labels };
            self.relationships.push(rel);
            proof {
                assert(self@.relationships =~= relate(rels, kind, from@, to@, labels@));
                assert forall|j: int| 0 <= j < self@.relationships.len() implies labels_ready(
                    (#[trigger] self@.relationships[j]).kind,
                    self@.relationships[j].labels,
                ) by {
                    if j < n {
                        assert(self@.relationships[j] == rels[j]);
                    }
                }
            }
        }
        proof {
            assert(self@.resources =~= before.resources);
        }
    }
}

// ---------------------------------------------------------------------------------------------
// Merging owner-scoped tooling contributions
// ---------------------------------------------------------------------------------------------

/// The index of the first resource with identity `id`, or -1.
pub open spec fn resource_position(rs: Seq<ResourceView>, id: Seq<char>) -> int
    decreases rs.len(),
{
    if rs.len() == 0 {
        -1
    } else {
        let i = resource_position(rs.drop_last(), id);
        if i >= 0 {
            i
        } else if rs.last().id == id {
            rs.len() - 1
        } else {
            -1
        }
    }
}

/// The relationship kind a tooling contribution's relationship projects to.
pub open spec fn tooling_kind(k: ToolingRelationshipKind) -> RelationshipKind {
    match k {
        ToolingRelationshipKind::Contains => RelationshipKind::Contains,
        ToolingRelationshipKind::DependsOn => RelationshipKind::DependsOn,
        ToolingRelationshipKind::OrdersBefore => RelationshipKind::OrdersBefore,
        ToolingRelationshipKind::OrdersAfter => RelationshipKind::OrdersAfter,
    }
}

/// The facets contributed to `target`, in declaration order.
pub open spec fn facets_for(fs: Seq<ContributedFacet>, target: Seq<char>) -> Seq<(Seq<char>, u16, Seq<char>)>
    decreases fs.len(),
{
    if fs.len() == 0 {
        Seq::empty()
    } else {
        let prev = facets_for(fs.drop_last(), target);
        let f = fs.last();
        if f.target@ == target {
            prev.push((f.id@, f.facet.schema_version, f.facet.value@))
        } else {
            prev
        }
    }
}

/// The display contributed for resource `id`: the last one declared for it.
pub open spec fn display_for(ds: Seq<(String, ResourceDisplay)>, id: Seq<char>) -> Option<(Option<Seq<char>>, Option<Seq<char>>)>
    decreases ds.len(),
{
    if ds.len() == 0 {
        None
    } else if ds.last().0@ == id {
        Some(ds.last().1@)
    } else {
        display_for(ds.drop_last(), id)
    }
}

/// A contributed resource as the document records it.
pub open spec fn contributed_resource(c: ToolingContributionSet, r: ContributedResource) -> ResourceView {
    ResourceView {
        id: r.id@,
        kind: ResourceKind::Contribution,
        name: r.name@,
        display: display_for(c.resource_displays@, r.id@),
        provenance: Some(ProvenanceView { owner: Some(r.owner@), origin: Some(r.origin@), ordinal: None }),
        labels: labels_from(label_views(r.labels@)),
        facets: facets_for(c.facets@, r.id@),
    }
}

/// A contributed relationship as the document records it.
pub open spec fn contributed_relationship(r: ContributedRelationship) -> RelationshipView {
    RelationshipView {
        kind: tooling_kind(r.kind),
        from: r.from@,
        to: r.to@,
        labels: labels_from(label_views(r.labels@)),
    }
}

/// Whether a contribution set's owner must carry display metadata and does not.
pub open spec fn display_missing(c: ToolingContributionSet) -> bool {
    &&& "protocol:"@.len() <= c.owner@.len()
    &&& c.owner@.take("protocol:"@.len() as int) == "protocol:"@
    &&& c.owner_display is None
}

/// The document after merging a contribution set whose owner is projected: the owner gains
/// its facets and its display, the contributed resources and relationships are appended.
pub open spec fn contributions_merged(d: DocumentView, c: ToolingContributionSet) -> DocumentView {
    let i = resource_position(d.resources, c.owner@);
    let o = d.resources[i];
    let owner = ResourceView {
        id: o.id,
        kind: o.kind,
        name: o.name,
        display: match c.owner_display {
            Some(x) => Some(x@),
            None => None,
        },
        provenance: o.provenance,
        labels: o.labels,
        facets: o.facets + facets_for(c.facets@, c.owner@),
    };
    DocumentView {
        resources: d.resources.update(i, owner) + c.resources@.map_values(
            |r: ContributedResource| contributed_resource(c, r),
        ),
        relationships: d.relationships + c.relationships@.map_values(
            |r: ContributedRelationship| contributed_relationship(r),
        ),
    }
}

/// The document with label `key` set to `value` on the first resource with identity `id`.
pub open spec fn relabeled(d: DocumentView, id: Seq<char>, key: Seq<char>, value: Seq<char>) -> DocumentView {
    let i = resource_position(d.resources, id);
    let r = d.resources[i];
    DocumentView {
        resources: d.resources.update(
            i,
            ResourceView {
                id: r.id,
                kind: r.kind,
                name: r.name,
                display: r.display,
                provenance: r.provenance,
                labels: put(r.labels, key, LabelView::Text(value)),
                facets: r.facets,
            },
        ),
        relationships: d.relationships,
    }
}

proof fn lemma_position_same_ids(a: Seq<ResourceView>, b: Seq<ResourceView>, id: Seq<char>)
    requires
        a.len() == b.len(),
        forall|j: int| 0 <= j < a.len() ==> (#[trigger] b[j]).id == a[j].id,
    ensures
        resource_position(a, id) == resource_position(b, id),
    decreases a.len(),
{
    if a.len() > 0 {
        assert forall|j: int| 0 <= j < a.len() - 1 implies (#[trigger] b.drop_last()[j]).id
            == a.drop_last()[j].id by {
            assert(b.drop_last()[j] == b[j]);
            assert(a.drop_last()[j] == a[j]);
        }
        lemma_position_same_ids(a.drop_last(), b.drop_last(), id);
        assert(b.last().id == a.last().id);
    }
}

/// Relabeling keeps every resource's identity in place, so every position is unchanged.
pub proof fn lemma_relabeled_keeps_positions(d: DocumentView, id: Seq<char>, key: Seq<char>, value: Seq<char>, other: Seq<char>)
    requires
        resource_position(d.resources, id) >= 0,
    ensures
        resource_position(relabeled(d, id, key, value).resources, other) == resource_position(d.resources, other),
        relabeled(d, id, key, value).relationships == d.relationships,
{
    lemma_resource_position_bounds(d.resources, id);
    let r = relabeled(d, id, key, value).resources;
    assert forall|j: int| 0 <= j < d.resources.len() implies (#[trigger] r[j]).id == d.resources[j].id by {}
    lemma_position_same_ids(d.resources, r, other);
}

/// A projected identity has a position.
pub proof fn lemma_resource_position_bounds(rs: Seq<ResourceView>, id: Seq<char>)
    ensures
        -1 <= resource_position(rs, id) < rs.len(),
        resource_position(rs, id) >= 0 ==> rs[resource_position(rs, id)].id == id,
        has_resource_id(rs, id) <==> resource_position(rs, id) >= 0,
    decreases rs.len(),
{
    if rs.len() > 0 {
        let p = rs.drop_last();
        lemma_resource_position_bounds(p, id);
        if has_resource_id(rs, id) && resource_position(p, id) < 0 {
            let i = choose|i: int| 0 <= i < rs.len() && (#[trigger] rs[i]).id == id;
            if i < p.len() {
                assert(p[i] == rs[i]);
                assert(has_resource_id(p, id));
            }
        }
        if resource_position(rs, id) >= 0 {
            let i = resource_position(rs, id);
            assert(rs[i].id == id);
        }
    }
}

proof fn lemma_resource_position(rs: Seq<ResourceView>, id: Seq<char>, n: int)
    requires
        0 <= n <= rs.len(),
        forall|j: int| 0 <= j < n ==> (#[trigger] rs[j]).id != id,
        n < rs.len() ==> rs[n].id == id,
    ensures
        resource_position(rs, id) == if n < rs.len() {
            n
        } else {
            -1
        },
    decreases rs.len(),
{
    if rs.len() > 0 {
        let p = rs.drop_last();
        if n < rs.len() - 1 {
            lemma_resource_position(p, id, n);
        } else {
            assert forall|j: int| 0 <= j < p.len() implies (#[trigger] p[j]).id != id by {
                assert(p[j] == rs[j]);
            }
            lemma_resource_position(p, id, p.len() as int);
        }
    }
}

fn facets_for_exec(fs: &Vec<ContributedFacet>, target: &str) -> (r: Vec<(String, u16, String)>)
    ensures
        facet_list(r@) == facets_for(fs@, target@),
{
    let mut out: Vec<(String, u16, String)> = Vec::new();
    let mut j: usize = 0;
    proof {
        assert(fs@.take(0) =~= Seq::<ContributedFacet>::empty());
        assert(facet_list(out@) =~= Seq::<(Seq<char>, u16, Seq<char>)>::empty());
    }
    while j < fs.len()
        invariant
            j <= fs@.len(),
            facet_list(out@) == facets_for(fs@.take(j as int), target@),
        decreases fs@.len() - j,
    {
        proof {
            assert(fs@.take(j + 1).drop_last() =~= fs@.take(j as int));
            assert(fs@.take(j + 1).last() == fs@[j as int]);
        }
        let f = &fs[j];
        if text_eq(f.target.as_str(), target) {
            let ghost before = out@;
            out.push((owned(f.id.as_str()), f.facet.schema_version, owned(f.facet.value.as_str())));
            proof {
                assert(facet_list(out@) =~= facet_list(before).push(
                    (f.id@, f.facet.schema_version, f.facet.value@),
                ));
            }
        }
        j = j + 1;
    }
    proof {
        assert(fs@.take(fs@.len() as int) =~= fs@);
    }
    out
}

fn display_for_exec(ds: &Vec<(String, ResourceDisplay)>, id: &str) -> (r: Option<ResourceDisplay>)
    ensures
        match r {
            Some(x) => display_for(ds@, id@) == Some(x@),
            None => display_for(ds@, id@) is None,
        },
{
    let mut found: Option<ResourceDisplay> = None;
    let mut j: usize = 0;
    proof {
        assert(ds@.take(0) =~= Seq::<(String, ResourceDisplay)>::empty());
    }
    while j < ds.len()
        invariant
            j <= ds@.len(),
            match found {
                Some(x) => display_for(ds@.take(j as int), id@) == Some(x@),
                None => display_for(ds@.take(j as int), id@) is None,
            },
        decreases ds@.len() - j,
    {
        proof {
            assert(ds@.take(j + 1).drop_last() =~= ds@.take(j as int));
            assert(ds@.take(j + 1).last() == ds@[j as int]);
        }
        if text_eq(ds[j].0.as_str(), id) {
            found = Some(ds[j].1.copied());
        }
        j = j + 1;
    }
    proof {
        assert(ds@.take(ds@.len() as int) =~= ds@);
    }
    found
}

fn tooling_relationship_kind(k: ToolingRelationshipKind) -> (r: RelationshipKind)
    ensures
        r == tooling_kind(k),
{
    match k {
        ToolingRelationshipKind::Contains => RelationshipKind::Contains,
        ToolingRelationshipKind::DependsOn => RelationshipKind::DependsOn,
        ToolingRelationshipKind::OrdersBefore => RelationshipKind::OrdersBefore,
        ToolingRelationshipKind::OrdersAfter => RelationshipKind::OrdersAfter,
    }
}

fn text_labels(l: &Vec<(String, String)>) -> (r: Labels)
    ensures
        r@ == labels_from(label_views(l@)),
{
    let copy = copy_labels(l);
    proof {
        assert(pair_views(copy@) =~= label_views(copy@));
    }
    Labels::from_pairs(copy)
}

impl Projection {
    /// Merges one owner-scoped tooling contribution set into the document: the owner (a
    /// projected protocol or plugin) gains the facets contributed to it and its display
    /// metadata, and the contributed resources and relationships are appended. An owner that
    /// was not projected, or a protocol owner without display metadata, is refused and the
    /// document is left as it was.
    pub fn merge_tooling_contributions(&mut self, contributions: &ToolingContributionSet) -> (r:
        Result<(), ToolingContributionError>)
        ensures
            r is Ok ==> final(self)@ == contributions_merged(old(self)@, *contributions),
            r is Err ==> final(self)@ == old(self)@,
            resource_position(old(self)@.resources, contributions.owner@) < 0 <==> (r matches Err(
                ToolingContributionError::UnknownOwner { id },
            ) && id@ == contributions.owner@),
            resource_position(old(self)@.resources, contributions.owner@) >= 0 && display_missing(
                *contributions,
            ) <==> (r matches Err(ToolingContributionError::MissingProtocolDisplay { id })
                && id@ == contributions.owner@),
            r is Ok <==> resource_position(old(self)@.resources, contributions.owner@) >= 0
                && !display_missing(*contributions),
    {
        let ghost d0 = self@;
        let owner = contributions.owner.as_str();
        let n = self.resources.len();
        let mut i: usize = 0;
        while i < n && !text_eq(self.resources[i].id.as_str(), owner)
            invariant
                d0 == self@,
                n == d0.resources.len(),
                i <= n,
                forall|j: int| 0 <= j < i ==> (#[trigger] d0.resources[j]).id != owner@,
            decreases n - i,
        {
            proof {
                assert(d0.resources[i as int] == self.resources@[i as int]@);
            }
            i = i + 1;
        }
        proof {
            if i < n {
                assert(d0.resources[i as int] == self.resources@[i as int]@);
            }
            lemma_resource_position(d0.resources, owner@, i as int);
        }
        if i == n {
            return Err(ToolingContributionError::UnknownOwner { id: owned(owner) });
        }
        if starts_with(owner, "protocol:") && contributions.owner_display.is_none() {
            return Err(ToolingContributionError::MissingProtocolDisplay { id: owned(owner) });
        }
        let mut owner_resource = self.resources.remove(i);
        let ghost o = owner_resource@;
        proof {
            assert(o == d0.resources[i as int]);
        }
        let extra = facets_for_exec(&contributions.facets, owner);
        let mut k: usize = 0;
        let ghost f0 = owner_resource.facets@;
        while k < extra.len()
            invariant
                k <= extra@.len(),
                facet_list(owner_resource.facets@) == facet_list(f0) + facet_list(extra@).take(k as int),
                owner_resource@.id == o.id,
                owner_resource@.kind == o.kind,
                owner_resource@.name == o.name,
                owner_resource@.provenance == o.provenance,
                owner_resource@.labels == o.labels,
            decreases extra@.len() - k,
        {
            let ghost before = owner_resource.facets@;
            let e = &extra[k];
            owner_resource.facets.push((owned(e.0.as_str()), e.1, owned(e.2.as_str())));
            proof {
                assert(facet_list(extra@).take(k + 1) =~= facet_list(extra@).take(k as int).push(
                    facet_list(extra@)[k as int],
                ));
                assert(facet_list(owner_resource.facets@) =~= facet_list(before).push(
                    facet_list(extra@)[k as int],
                ));
            }
            k = k + 1;
        }
        proof {
            assert(facet_list(extra@).take(extra@.len() as int) =~= facet_list(extra@));
        }
        owner_resource.display = match &contributions.owner_display {
            Some(x) => Some(x.copied()),
            None => None,
        };
        let ghost merged = contributions_merged(d0, *contributions);
        let ghost added = contributions.resources@.map_values(
            |r: ContributedResource| contributed_resource(*contributions, r),
        );
        let ghost related = contributions.relationships@.map_values(
            |r: ContributedRelationship| contributed_relationship(r),
        );
        let ghost upd = d0.resources.update(i as int, owner_resource@);
        proof {
            assert(facet_list(owner_resource.facets@) == o.facets + facets_for(
                contributions.facets@,
                owner@,
            ));
            assert(resource_position(d0.resources, owner@) == i);
            assert(owner_resource@.id == o.id);
            assert(owner_resource@.labels == o.labels);
            assert(owner_resource@.facets == o.facets + facets_for(contributions.facets@, owner@));
            assert(owner_resource@.display == match contributions.owner_display {
                Some(x) => Some(x@),
                None => None,
            });
            assert(merged.resources == upd + added);
            assert(merged.relationships == d0.relationships + related);
        }
        self.resources.insert(i, owner_resource);
        proof {
            assert(self@.resources =~= upd + added.take(0));
        }
        let mut m: usize = 0;
        let ghost cr = contributions.resources@;
        while m < contributions.resources.len()
            invariant
                cr == contributions.resources@,
                added == cr.map_values(|r: ContributedResource| contributed_resource(*contributions, r)),
                m <= cr.len(),
                self@.relationships == d0.relationships,
                self@.resources == upd + added.take(m as int),
            decreases cr.len() - m,
        {
            let r = &contributions.resources[m];
            let facets = facets_for_exec(&contributions.facets, r.id.as_str());
            let display = display_for_exec(&contributions.resource_displays, r.id.as_str());
            let res = Resource {
                id: owned(r.id.as_str()),
                kind: ResourceKind::Contribution,
                name: owned(r.name.as_str()),
                display,
                provenance: Some(
                    Provenance {
                        owner: Some(owned(r.owner.as_str())),
                        origin: Some(owned(r.origin.as_str())),
                        ordinal: None,
                    },
                ),
                labels: text_labels(&r.labels),
                facets,
            };
            let ghost before = self@.resources;
            self.resources.push(res);
            proof {
                assert(self@.resources =~= before.push(res@));
                assert(res@ == added[m as int]);
                assert(added.take(m + 1) =~= added.take(m as int).push(added[m as int]));
                assert(self@.resources =~= upd + added.take(m + 1));
            }
            m = m + 1;
        }
        proof {
            assert(added.take(cr.len() as int) =~= added);
            assert(self@.resources == merged.resources);
            assert(self@.relationships =~= d0.relationships + related.take(0));
        }
        let mut q: usize = 0;
        let ghost rels = contributions.relationships@;
        while q < contributions.relationships.len()
            invariant
                rels == contributions.relationships@,
                related == rels.map_values(|r: ContributedRelationship| contributed_relationship(r)),
                q <= rels.len(),
                self@.resources == merged.resources,
                self@.relationships == d0.relationships + related.take(q as int),
            decreases rels.len() - q,
        {
            let r = &contributions.relationships[q];
            let rel = Relationship {
                kind: tooling_relationship_kind(r.kind),
                from: owned(r.from.as_str()),
                to: owned(r.to.as_str()),
                labels: text_labels(&r.labels),
            };
            let ghost before = self@.relationships;
            self.relationships.push(rel);
            proof {
                assert(self@.relationships =~= before.push(rel@));
                assert(rel@ == related[q as int]);
                assert(related.take(q + 1) =~= related.take(q as int).push(related[q as int]));
                assert(self@.relationships =~= d0.relationships + related.take(q + 1));
            }
            q = q + 1;
        }
        proof {
            assert(related.take(rels.len() as int) =~= related);
            assert(self@.relationships == merged.relationships);
            reveal_strlit("protocol:");
        }
        Ok(())
    }
}



impl Projection {
    /// Sets label `key` to `value` on the first resource with identity `id`.
    pub fn label_resource(&mut self, id: &str, key: String, value: String)
        requires
            resource_position(old(self)@.resources, id@) >= 0,
        ensures
            final(self)@ == relabeled(old(self)@, id@, key@, value@),
    {
        let ghost d0 = self@;
        let n = self.resources.len();
        let mut i: usize = 0;
        proof {
            lemma_resource_position_bounds(d0.resources, id@);
        }
        while i < n && !text_eq(self.resources[i].id.as_str(), id)
            invariant
                d0 == self@,
                n == d0.resources.len(),
                i <= n,
                resource_position(d0.resources, id@) >= 0,
                forall|j: int| 0 <= j < i ==> (#[trigger] d0.resources[j]).id != id@,
            decreases n - i,
        {
            proof {
                assert(d0.resources[i as int] == self.resources@[i as int]@);
            }
            i = i + 1;
        }
        proof {
            if i < n {
                assert(d0.resources[i as int] == self.resources@[i as int]@);
            }
            lemma_resource_position(d0.resources, id@, i as int);
        }
        let mut r = self.resources.remove(i);
        proof {
            assert(r@ == d0.resources[i as int]);
        }
        r.labels.insert(key, LabelValue::Text(value));
        self.resources.insert(i, r);
        proof {
            assert(self@.resources =~= relabeled(d0, id@, key@, value@).resources);
            assert(self@.relationships =~= d0.relationships);
        }
    }
}

} // verus!
