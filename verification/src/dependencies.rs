//! How components, their hooks and dependencies, and the construction plans are projected.
//!
//! A dependency relates its owner (a component or a hook) to the requested type, or, for a
//! configuration dependency that exactly one binding satisfies, to that binding; every target
//! the dependency was resolved to gets a relationship of its own. Dependencies of one owner on
//! the same target merge their labels into the decisions of a single relationship.
use vstd::prelude::*;

use crate::composition::{
    add_relation, add_resource, extends, lemma_add_relation_extends, lemma_add_resource_extends,
    lemma_extends_trans, lemma_kept_facts,
};
use crate::labels::{
    LabelView, Labels, free_key, label_input_ok, labels_from, lemma_labels_from_input_ok,
    lemma_not_values_at, pair_views,
};
use crate::projection::{
    DocumentView, Projection, RelationshipKind, ResourceKind, has_resource_id,
    lemma_relabeled_keeps_positions, lemma_resource_position_bounds, relabeled,
    relationships_ready, resource_position,
};
use crate::resource_ids::{
    ContributionProvenance, FactorySelection, ProvenanceView, component_id,
    config_binding_id, contribution_provenance, contributor_text, lifecycle_resource,
    lifecycle_resource_spec, provider_resource, scope_id, type_id,
};
use crate::text::{concat, concat3, decimal, decimal_string, owned};

verus! {

/// How many providers a dependency takes.
#[derive(Clone, Copy, Debug, PartialEq, Eq, Structural)]
pub enum Cardinality {
    One,
    Collection,
    Keyed,
}

/// When a dependency is resolved.
#[derive(Clone, Copy, Debug, PartialEq, Eq, Structural)]
pub enum ResolutionMode {
    Eager,
    Deferred,
    Lazy,
    Fresh,
}

/// A Rust type as the registry names it: a key standing for its type identity, its full type
/// name and its short display name.
pub struct TypeRef {
    pub key: u64,
    pub rust_name: String,
    pub name: String,
}

/// One declared dependency.
pub struct DependencyDescriptor {
    pub name: String,
    pub ty: TypeRef,
    pub cardinality: Cardinality,
    pub optional: bool,
    pub dynamic: bool,
    pub qualifier: Option<String>,
    /// Whether the dependency is on typed configuration.
    pub config: bool,
    pub resolution: ResolutionMode,
}

/// What a dependency was resolved to.
pub enum DependencyTarget {
    /// A component, by its id.
    Component(String),
    /// A provider: its trait's type name, its component's type name and its qualifier.
    Provider { trait_type: String, component_type: String, qualifier: String },
}

/// One target a dependency was resolved to, and why.
pub struct SelectedDependency {
    pub target: DependencyTarget,
    pub reason: String,
    /// The scope the target was selected from, if scoped.
    pub scope: Option<String>,
    /// The selection stage, if staged.
    pub stage: Option<String>,
}

/// One declared dependency with the targets it was resolved to.
pub struct DependencySnapshot {
    pub descriptor: DependencyDescriptor,
    pub selected: Vec<SelectedDependency>,
}

/// A typed configuration binding of the registry.
pub struct ConfigBinding {
    pub ty: TypeRef,
    pub path: String,
    /// The plugin contribution that installed the binding, if any.
    pub contribution: Option<ContributionProvenance>,
}

/// One hook of a component.
pub struct HookSnapshot {
    pub ordinal: u32,
    pub kind: String,
    pub dependencies: Vec<DependencySnapshot>,
}

/// One effective component with the facts the projection reads.
pub struct ComponentSnapshot {
    pub id: String,
    pub name: String,
    pub ty: TypeRef,
    /// The id of the component's scope.
    pub scope: String,
    /// Whether the component's scope is the transient scope.
    pub transient: bool,
    pub has_factory: bool,
    pub factory_selection: FactorySelection,
    pub factory_candidate_count: usize,
    pub factory_explicit_count: usize,
    pub dependencies: Vec<DependencySnapshot>,
    pub hooks: Vec<HookSnapshot>,
    /// Whether an instance of the component was seeded.
    pub seeded: bool,
    /// Whether the component seeds a child scope.
    pub seeds_scope: bool,
    /// The plugin contribution that installed the component, if any.
    pub contribution: Option<ContributionProvenance>,
}

/// One entry of a construction plan.
pub struct ConstructionPlanEntry {
    pub component: String,
    pub has_factory: bool,
}

// ---------------------------------------------------------------------------------------------
// What the projection records
// ---------------------------------------------------------------------------------------------

/// The label text of a boolean.
pub open spec fn bool_text(b: bool) -> Seq<char> {
    if b {
        "true"@
    } else {
        "false"@
    }
}

/// The label text of a cardinality.
pub open spec fn cardinality_text(c: Cardinality) -> Seq<char> {
    match c {
        Cardinality::One => "one"@,
        Cardinality::Collection => "collection"@,
        Cardinality::Keyed => "keyed"@,
    }
}

/// The label text of a resolution mode.
pub open spec fn resolution_text(r: ResolutionMode) -> Seq<char> {
    match r {
        ResolutionMode::Eager => "eager"@,
        ResolutionMode::Deferred => "deferred"@,
        ResolutionMode::Lazy => "lazy"@,
        ResolutionMode::Fresh => "fresh"@,
    }
}

/// The labels describing a dependency.
pub open spec fn dependency_pairs(d: DependencyDescriptor) -> Seq<(Seq<char>, Seq<char>)> {
    let base = seq![
        ("cardinality"@, cardinality_text(d.cardinality)),
        ("dynamic"@, bool_text(d.dynamic)),
        ("name"@, d.name@),
        ("optional"@, bool_text(d.optional)),
        ("resolution"@, resolution_text(d.resolution)),
    ];
    match d.qualifier {
        Some(q) => base.push(("qualifier"@, q@)),
        None => base,
    }
}

/// The document with a type resource, unless one with that identity is there.
pub open spec fn type_projected(d: DocumentView, rust_type: Seq<char>, name: Seq<char>) -> DocumentView {
    let id = "type:"@ + rust_type;
    if has_resource_id(d.resources, id) {
        d
    } else {
        add_resource(d, id, ResourceKind::Type, name, None, seq![("rust-type"@, rust_type)])
    }
}

/// Whether a configuration binding satisfies a configuration dependency: same type, and the
/// dependency's qualifier, if any, is the binding's path.
pub open spec fn binding_matches(b: ConfigBinding, d: DependencyDescriptor) -> bool {
    b.ty.key == d.ty.key && match d.qualifier {
        Some(q) => b.path@ == q@,
        None => true,
    }
}

/// The bindings that satisfy a dependency, in registry order.
pub open spec fn matching_bindings(bs: Seq<ConfigBinding>, d: DependencyDescriptor) -> Seq<ConfigBinding>
    decreases bs.len(),
{
    if bs.len() == 0 {
        Seq::empty()
    } else {
        let prev = matching_bindings(bs.drop_last(), d);
        if binding_matches(bs.last(), d) {
            prev.push(bs.last())
        } else {
            prev
        }
    }
}

/// The identity of a configuration binding resource.
pub open spec fn binding_text(b: ConfigBinding) -> Seq<char> {
    "config-binding:"@ + b.ty.rust_name@ + ":"@ + b.path@
}

/// The resource a dependency was resolved to.
pub open spec fn selected_target_text(t: DependencyTarget) -> Seq<char> {
    match t {
        DependencyTarget::Component(c) => "component:"@ + c@,
        DependencyTarget::Provider { trait_type, component_type, qualifier } => "provider:"@
            + trait_type@ + ":"@ + component_type@ + ":"@ + qualifier@,
    }
}

/// The role of a resolved target.
pub open spec fn role_text(t: DependencyTarget) -> Seq<char> {
    match t {
        DependencyTarget::Component(_) => "resolved-component"@,
        DependencyTarget::Provider { .. } => "resolved-provider"@,
    }
}

/// The labels of the relationship to one resolved target.
pub open spec fn selected_pairs(d: DependencyDescriptor, s: SelectedDependency) -> Seq<(Seq<char>, Seq<char>)> {
    let p1 = dependency_pairs(d) + seq![
        ("role"@, role_text(s.target)),
        ("requested-type"@, d.ty.rust_name@),
        ("selection-reason"@, s.reason@),
    ];
    let p2 = match s.scope {
        Some(x) => p1.push(("selected-scope"@, x@)),
        None => p1,
    };
    match s.stage {
        Some(x) => p2.push(("selection-stage"@, x@)),
        None => p2,
    }
}

/// The relationships to every resolved target, in turn.
pub open spec fn selections_projected(
    d: DocumentView,
    owner: Seq<char>,
    desc: DependencyDescriptor,
    sel: Seq<SelectedDependency>,
) -> DocumentView
    decreases sel.len(),
{
    if sel.len() == 0 {
        d
    } else {
        add_relation(
            selections_projected(d, owner, desc, sel.drop_last()),
            RelationshipKind::DependsOn,
            owner,
            selected_target_text(sel.last().target),
            selected_pairs(desc, sel.last()),
        )
    }
}

/// The labels of a configuration dependency that no single binding satisfies.
pub open spec fn unresolved_binding_pairs(desc: DependencyDescriptor, n: nat) -> Seq<(Seq<char>, Seq<char>)> {
    dependency_pairs(desc) + seq![
        ("binding-resolution"@, if n == 0 { "missing"@ } else { "ambiguous"@ }),
        ("binding-cardinality"@, decimal(n)),
    ]
}

/// One dependency of `owner`: its type resource, then either the relationship to the one
/// binding that satisfies it (configuration dependencies) or the relationship to its type
/// followed by the relationships to every resolved target.
pub open spec fn dependency_projected(
    d: DocumentView,
    owner: Seq<char>,
    dep: DependencySnapshot,
    bindings: Seq<ConfigBinding>,
) -> DocumentView {
    let desc = dep.descriptor;
    let d1 = type_projected(d, desc.ty.rust_name@, desc.ty.name@);
    let ms = matching_bindings(bindings, desc);
    if desc.config && ms.len() == 1 {
        add_relation(d1, RelationshipKind::DependsOn, owner, binding_text(ms[0]), dependency_pairs(desc))
    } else {
        let pairs = if desc.config {
            unresolved_binding_pairs(desc, ms.len())
        } else {
            dependency_pairs(desc)
        };
        selections_projected(
            add_relation(d1, RelationshipKind::DependsOn, owner, "type:"@ + desc.ty.rust_name@, pairs),
            owner,
            desc,
            dep.selected@,
        )
    }
}

/// Every dependency of `owner`, in declaration order.
pub open spec fn dependencies_projected(
    d: DocumentView,
    owner: Seq<char>,
    deps: Seq<DependencySnapshot>,
    bindings: Seq<ConfigBinding>,
) -> DocumentView
    decreases deps.len(),
{
    if deps.len() == 0 {
        d
    } else {
        dependency_projected(
            dependencies_projected(d, owner, deps.drop_last(), bindings),
            owner,
            deps.last(),
            bindings,
        )
    }
}

/// How a component comes to exist.
pub open spec fn construction_text(c: ComponentSnapshot) -> Seq<char> {
    if c.transient {
        if c.has_factory {
            "transient-on-demand"@
        } else {
            "manual-transient"@
        }
    } else if c.seeds_scope {
        "scope-seed"@
    } else if c.has_factory {
        "planned-factory"@
    } else if c.seeded {
        "seeded"@
    } else {
        "manual-unseeded"@
    }
}

/// The label text of a factory selection.
pub open spec fn factory_selection_text(f: FactorySelection) -> Seq<char> {
    match f {
        FactorySelection::Manual => "manual"@,
        FactorySelection::Default => "default"@,
        FactorySelection::Explicit => "explicit"@,
    }
}

/// The labels of a component resource.
pub open spec fn component_pairs(c: ComponentSnapshot) -> Seq<(Seq<char>, Seq<char>)> {
    seq![
        ("component-id"@, c.id@),
        ("rust-type"@, c.ty.rust_name@),
        ("scope-id"@, c.scope@),
        ("construction"@, construction_text(c)),
        ("factory-selection"@, factory_selection_text(c.factory_selection)),
        ("factory-candidate-count"@, decimal(c.factory_candidate_count as nat)),
        ("factory-explicit-count"@, decimal(c.factory_explicit_count as nat)),
    ]
}

/// The provenance of a resource a plugin contribution installed.
pub open spec fn contribution_provenance_view(p: ContributionProvenance) -> ProvenanceView {
    ProvenanceView {
        owner: Some(contributor_text(p.contributor)),
        origin: Some("contribution"@),
        ordinal: None,
    }
}

/// One component: its type, its resource, what it provides, its scope, and its dependencies.
pub open spec fn component_projected(
    d: DocumentView,
    c: ComponentSnapshot,
    bindings: Seq<ConfigBinding>,
) -> DocumentView {
    let id = "component:"@ + c.id@;
    let d1 = type_projected(d, c.ty.rust_name@, c.ty.name@);
    let d2 = add_resource(
        d1,
        id,
        ResourceKind::Component,
        c.name@,
        match c.contribution {
            Some(p) => Some(contribution_provenance_view(p)),
            None => None,
        },
        component_pairs(c),
    );
    let d3 = add_relation(d2, RelationshipKind::Provides, id, "type:"@ + c.ty.rust_name@, Seq::empty());
    let d4 = add_relation(
        d3,
        RelationshipKind::DependsOn,
        id,
        "scope:"@ + c.scope@,
        seq![("role"@, "scope"@)],
    );
    dependencies_projected(d4, id, c.dependencies@, bindings)
}

/// The identity of a hook resource.
pub open spec fn hook_text(component: Seq<char>, kind: Seq<char>, ordinal: u32) -> Seq<char> {
    "hook:"@ + component + ":"@ + kind + ":"@ + decimal(ordinal as nat)
}

/// One hook of a component: its resource, the component's relationship to it, its lifecycle
/// event, and its dependencies.
pub open spec fn hook_projected(
    d: DocumentView,
    component: Seq<char>,
    h: HookSnapshot,
    bindings: Seq<ConfigBinding>,
) -> DocumentView {
    let id = hook_text(component, h.kind@, h.ordinal);
    let d1 = add_resource(d, id, ResourceKind::Hook, h.kind@, None, seq![("ordinal"@, decimal(h.ordinal as nat))]);
    let d2 = add_relation(d1, RelationshipKind::Hooks, "component:"@ + component, id, Seq::empty());
    let d3 = match lifecycle_resource_spec(h.kind@) {
        Some(l) => add_relation(d2, RelationshipKind::Hooks, id, l, Seq::empty()),
        None => d2,
    };
    dependencies_projected(d3, id, h.dependencies@, bindings)
}

/// The hooks of one component, in turn.
pub open spec fn hooks_of(
    d: DocumentView,
    component: Seq<char>,
    hs: Seq<HookSnapshot>,
    bindings: Seq<ConfigBinding>,
) -> DocumentView
    decreases hs.len(),
{
    if hs.len() == 0 {
        d
    } else {
        hook_projected(hooks_of(d, component, hs.drop_last(), bindings), component, hs.last(), bindings)
    }
}

/// The hooks of every component.
pub open spec fn hooks_projected(d: DocumentView, cs: Seq<ComponentSnapshot>, bindings: Seq<ConfigBinding>) -> DocumentView
    decreases cs.len(),
{
    if cs.len() == 0 {
        d
    } else {
        hooks_of(hooks_projected(d, cs.drop_last(), bindings), cs.last().id@, cs.last().hooks@, bindings)
    }
}

/// Every component, in turn.
pub open spec fn components_projected(
    d: DocumentView,
    cs: Seq<ComponentSnapshot>,
    bindings: Seq<ConfigBinding>,
) -> DocumentView
    decreases cs.len(),
{
    if cs.len() == 0 {
        d
    } else {
        component_projected(components_projected(d, cs.drop_last(), bindings), cs.last(), bindings)
    }
}

/// The kind of a construction plan entry.
pub open spec fn plan_entry_kind(e: ConstructionPlanEntry) -> Seq<char> {
    if e.has_factory {
        "factory-construction"@
    } else {
        "seeded-verification"@
    }
}

/// One entry of a construction plan at position `ordinal`: its component gains the plan's
/// labels, and the previous entry is ordered before it.
pub open spec fn plan_step(
    d: DocumentView,
    scope: Seq<char>,
    entries: Seq<ConstructionPlanEntry>,
    ordinal: int,
) -> DocumentView {
    let e = entries[ordinal];
    let id = "component:"@ + e.component@;
    let d1 = relabeled(d, id, "construction-plan"@, scope);
    let d2 = relabeled(d1, id, "plan-ordinal"@, decimal(ordinal as nat));
    let d3 = relabeled(d2, id, "plan-entry-kind"@, plan_entry_kind(e));
    if ordinal > 0 {
        add_relation(
            d3,
            RelationshipKind::OrdersBefore,
            "component:"@ + entries[ordinal - 1].component@,
            id,
            seq![("scope"@, scope)],
        )
    } else {
        d3
    }
}

/// The first `n` entries of a construction plan.
pub open spec fn plan_projected(
    d: DocumentView,
    scope: Seq<char>,
    entries: Seq<ConstructionPlanEntry>,
    n: int,
) -> DocumentView
    decreases n,
{
    if n <= 0 {
        d
    } else {
        plan_step(plan_projected(d, scope, entries, n - 1), scope, entries, n - 1)
    }
}

/// Whether every entry of a plan names a projected component.
pub open spec fn plan_components_present(d: DocumentView, entries: Seq<ConstructionPlanEntry>) -> bool {
    forall|k: int|
        0 <= k < entries.len() ==> resource_position(
            d.resources,
            "component:"@ + (#[trigger] entries[k]).component@,
        ) >= 0
}


/// The construction plans of every scope, in turn.
pub open spec fn plans_projected(d: DocumentView, plans: Seq<(String, Vec<ConstructionPlanEntry>)>) -> DocumentView
    decreases plans.len(),
{
    if plans.len() == 0 {
        d
    } else {
        let p = plans.last();
        plan_projected(plans_projected(d, plans.drop_last()), p.0@, p.1@, p.1@.len() as int)
    }
}

/// Every component, then the root construction plan, then the plans of the scopes.
pub open spec fn all_components_projected(
    d: DocumentView,
    cs: Seq<ComponentSnapshot>,
    root_scope: Seq<char>,
    root: Seq<ConstructionPlanEntry>,
    plans: Seq<(String, Vec<ConstructionPlanEntry>)>,
    bindings: Seq<ConfigBinding>,
) -> DocumentView {
    plans_projected(
        plan_projected(components_projected(d, cs, bindings), root_scope, root, root.len() as int),
        plans,
    )
}

/// Whether every entry of a plan names one of the components.
pub open spec fn plan_entries_known(cs: Seq<ComponentSnapshot>, entries: Seq<ConstructionPlanEntry>) -> bool {
    forall|k: int|
        0 <= k < entries.len() ==> exists|m: int| 0 <= m < cs.len() && (#[trigger] cs[m]).id@ == (#[trigger] entries[k]).component@
}

/// Whether every entry of every scope plan names one of the components.
pub open spec fn plans_known(cs: Seq<ComponentSnapshot>, plans: Seq<(String, Vec<ConstructionPlanEntry>)>) -> bool {
    forall|p: int| 0 <= p < plans.len() ==> plan_entries_known(cs, (#[trigger] plans[p]).1@)
}

// ---------------------------------------------------------------------------------------------
// What projecting components keeps
// ---------------------------------------------------------------------------------------------

proof fn lemma_type_projected(d: DocumentView, t: Seq<char>, n: Seq<char>)
    ensures
        extends(d, type_projected(d, t, n)),
{
    if !has_resource_id(d.resources, "type:"@ + t) {
        lemma_add_resource_extends(d, "type:"@ + t, ResourceKind::Type, n, None, seq![("rust-type"@, t)]);
    }
}

proof fn lemma_selections_extends(d: DocumentView, owner: Seq<char>, desc: DependencyDescriptor, sel: Seq<SelectedDependency>)
    ensures
        extends(d, selections_projected(d, owner, desc, sel)),
    decreases sel.len(),
{
    if sel.len() > 0 {
        let prev = selections_projected(d, owner, desc, sel.drop_last());
        lemma_selections_extends(d, owner, desc, sel.drop_last());
        lemma_add_relation_extends(
            prev,
            RelationshipKind::DependsOn,
            owner,
            selected_target_text(sel.last().target),
            selected_pairs(desc, sel.last()),
        );
        lemma_extends_trans(d, prev, selections_projected(d, owner, desc, sel));
    }
}

proof fn lemma_dependency_extends(d: DocumentView, owner: Seq<char>, dep: DependencySnapshot, bindings: Seq<ConfigBinding>)
    ensures
        extends(d, dependency_projected(d, owner, dep, bindings)),
{
    let desc = dep.descriptor;
    let d1 = type_projected(d, desc.ty.rust_name@, desc.ty.name@);
    lemma_type_projected(d, desc.ty.rust_name@, desc.ty.name@);
    let ms = matching_bindings(bindings, desc);
    if desc.config && ms.len() == 1 {
        lemma_add_relation_extends(d1, RelationshipKind::DependsOn, owner, binding_text(ms[0]), dependency_pairs(desc));
        lemma_extends_trans(d, d1, dependency_projected(d, owner, dep, bindings));
    } else {
        let pairs = if desc.config {
            unresolved_binding_pairs(desc, ms.len())
        } else {
            dependency_pairs(desc)
        };
        let d2 = add_relation(d1, RelationshipKind::DependsOn, owner, "type:"@ + desc.ty.rust_name@, pairs);
        lemma_add_relation_extends(d1, RelationshipKind::DependsOn, owner, "type:"@ + desc.ty.rust_name@, pairs);
        lemma_selections_extends(d2, owner, desc, dep.selected@);
        lemma_extends_trans(d, d1, d2);
        lemma_extends_trans(d, d2, dependency_projected(d, owner, dep, bindings));
    }
}

proof fn lemma_dependencies_extends(d: DocumentView, owner: Seq<char>, deps: Seq<DependencySnapshot>, bindings: Seq<ConfigBinding>)
    ensures
        extends(d, dependencies_projected(d, owner, deps, bindings)),
    decreases deps.len(),
{
    if deps.len() > 0 {
        let prev = dependencies_projected(d, owner, deps.drop_last(), bindings);
        lemma_dependencies_extends(d, owner, deps.drop_last(), bindings);
        lemma_dependency_extends(prev, owner, deps.last(), bindings);
        lemma_extends_trans(d, prev, dependencies_projected(d, owner, deps, bindings));
    }
}

proof fn lemma_component_extends(d: DocumentView, c: ComponentSnapshot, bindings: Seq<ConfigBinding>)
    ensures
        extends(d, component_projected(d, c, bindings)),
        has_resource_id(component_projected(d, c, bindings).resources, "component:"@ + c.id@),
{
    let id = "component:"@ + c.id@;
    let d1 = type_projected(d, c.ty.rust_name@, c.ty.name@);
    lemma_type_projected(d, c.ty.rust_name@, c.ty.name@);
    let prov = match c.contribution {
        Some(p) => Some(contribution_provenance_view(p)),
        None => None,
    };
    let d2 = add_resource(d1, id, ResourceKind::Component, c.name@, prov, component_pairs(c));
    lemma_add_resource_extends(d1, id, ResourceKind::Component, c.name@, prov, component_pairs(c));
    let d3 = add_relation(d2, RelationshipKind::Provides, id, "type:"@ + c.ty.rust_name@, Seq::empty());
    lemma_add_relation_extends(d2, RelationshipKind::Provides, id, "type:"@ + c.ty.rust_name@, Seq::empty());
    let d4 = add_relation(d3, RelationshipKind::DependsOn, id, "scope:"@ + c.scope@, seq![("role"@, "scope"@)]);
    lemma_add_relation_extends(d3, RelationshipKind::DependsOn, id, "scope:"@ + c.scope@, seq![("role"@, "scope"@)]);
    lemma_dependencies_extends(d4, id, c.dependencies@, bindings);
    let d5 = component_projected(d, c, bindings);
    lemma_extends_trans(d, d1, d2);
    lemma_extends_trans(d2, d3, d4);
    lemma_extends_trans(d2, d4, d5);
    lemma_extends_trans(d, d2, d5);
    lemma_kept_facts(d2, d5, id, RelationshipKind::Contains, id, id);
}

proof fn lemma_components_stage(d: DocumentView, cs: Seq<ComponentSnapshot>, bindings: Seq<ConfigBinding>)
    ensures
        extends(d, components_projected(d, cs, bindings)),
        forall|k: int|
            0 <= k < cs.len() ==> has_resource_id(
                components_projected(d, cs, bindings).resources,
                "component:"@ + (#[trigger] cs[k]).id@,
            ),
    decreases cs.len(),
{
    if cs.len() > 0 {
        let prev = components_projected(d, cs.drop_last(), bindings);
        let cur = components_projected(d, cs, bindings);
        lemma_components_stage(d, cs.drop_last(), bindings);
        lemma_component_extends(prev, cs.last(), bindings);
        lemma_extends_trans(d, prev, cur);
        assert forall|k: int| 0 <= k < cs.len() implies has_resource_id(
            cur.resources,
            "component:"@ + (#[trigger] cs[k]).id@,
        ) by {
            if k < cs.len() - 1 {
                assert(cs.drop_last()[k] == cs[k]);
                let id = "component:"@ + cs[k].id@;
                lemma_kept_facts(prev, cur, id, RelationshipKind::Contains, id, id);
            }
        }
    }
}

proof fn lemma_known_entries_present(
    d: DocumentView,
    cs: Seq<ComponentSnapshot>,
    bindings: Seq<ConfigBinding>,
    entries: Seq<ConstructionPlanEntry>,
)
    requires
        plan_entries_known(cs, entries),
    ensures
        plan_components_present(components_projected(d, cs, bindings), entries),
{
    lemma_components_stage(d, cs, bindings);
    let r = components_projected(d, cs, bindings).resources;
    assert forall|k: int| 0 <= k < entries.len() implies resource_position(
        r,
        "component:"@ + (#[trigger] entries[k]).component@,
    ) >= 0 by {
        let m = choose|m: int| 0 <= m < cs.len() && (#[trigger] cs[m]).id@ == entries[k].component@;
        assert(has_resource_id(r, "component:"@ + cs[m].id@));
        lemma_resource_position_bounds(r, "component:"@ + entries[k].component@);
    }
}

/// A plan step leaves every resource's position as it was.
proof fn lemma_plan_step_positions(
    d: DocumentView,
    scope: Seq<char>,
    entries: Seq<ConstructionPlanEntry>,
    ordinal: int,
)
    requires
        0 <= ordinal < entries.len(),
        plan_components_present(d, entries),
    ensures
        forall|other: Seq<char>|
            #[trigger] resource_position(plan_step(d, scope, entries, ordinal).resources, other)
                == resource_position(d.resources, other),
{
    let e = entries[ordinal];
    let id = "component:"@ + e.component@;
    let d1 = relabeled(d, id, "construction-plan"@, scope);
    let d2 = relabeled(d1, id, "plan-ordinal"@, decimal(ordinal as nat));
    let d3 = relabeled(d2, id, "plan-entry-kind"@, plan_entry_kind(e));
    assert(resource_position(d.resources, id) >= 0);
    assert forall|other: Seq<char>| #[trigger] resource_position(plan_step(d, scope, entries, ordinal).resources, other)
        == resource_position(d.resources, other) by {
        lemma_relabeled_keeps_positions(d, id, "construction-plan"@, scope, other);
        lemma_relabeled_keeps_positions(d, id, "construction-plan"@, scope, id);
        lemma_relabeled_keeps_positions(d1, id, "plan-ordinal"@, decimal(ordinal as nat), other);
        lemma_relabeled_keeps_positions(d1, id, "plan-ordinal"@, decimal(ordinal as nat), id);
        lemma_relabeled_keeps_positions(d2, id, "plan-entry-kind"@, plan_entry_kind(e), other);
    }
}

proof fn lemma_plan_positions(d: DocumentView, scope: Seq<char>, entries: Seq<ConstructionPlanEntry>, n: int)
    requires
        0 <= n <= entries.len(),
        plan_components_present(d, entries),
    ensures
        forall|other: Seq<char>|
            #[trigger] resource_position(plan_projected(d, scope, entries, n).resources, other)
                == resource_position(d.resources, other),
    decreases n,
{
    if n > 0 {
        lemma_plan_positions(d, scope, entries, n - 1);
        let prev = plan_projected(d, scope, entries, n - 1);
        assert forall|k: int| 0 <= k < entries.len() implies resource_position(
            prev.resources,
            "component:"@ + (#[trigger] entries[k]).component@,
        ) >= 0 by {
            assert(resource_position(d.resources, "component:"@ + entries[k].component@) >= 0);
        }
        lemma_plan_step_positions(prev, scope, entries, n - 1);
    }
}

proof fn lemma_present_kept(a: DocumentView, b: DocumentView, entries: Seq<ConstructionPlanEntry>)
    requires
        plan_components_present(a, entries),
        forall|other: Seq<char>| #[trigger] resource_position(b.resources, other) == resource_position(a.resources, other),
    ensures
        plan_components_present(b, entries),
{
    assert forall|k: int| 0 <= k < entries.len() implies resource_position(
        b.resources,
        "component:"@ + (#[trigger] entries[k]).component@,
    ) >= 0 by {
        assert(resource_position(a.resources, "component:"@ + entries[k].component@) >= 0);
    }
}

// ---------------------------------------------------------------------------------------------
// Label names and helpers
// ---------------------------------------------------------------------------------------------

proof fn lemma_dependency_keys()
    ensures
        free_key("cardinality"@),
        free_key("dynamic"@),
        free_key("name"@),
        free_key("optional"@),
        free_key("resolution"@),
        free_key("qualifier"@),
        free_key("binding-resolution"@),
        free_key("binding-cardinality"@),
        free_key("role"@),
        free_key("requested-type"@),
        free_key("selection-reason"@),
        free_key("selected-scope"@),
        free_key("selection-stage"@),
        free_key("scope"@),
{
    reveal_strlit("-values");
    reveal_strlit("dependency-decisions");
    reveal_strlit("cardinality");
    reveal_strlit("dynamic");
    reveal_strlit("name");
    reveal_strlit("optional");
    reveal_strlit("resolution");
    reveal_strlit("qualifier");
    reveal_strlit("binding-resolution");
    reveal_strlit("binding-cardinality");
    reveal_strlit("role");
    reveal_strlit("requested-type");
    reveal_strlit("selection-reason");
    reveal_strlit("selected-scope");
    reveal_strlit("selection-stage");
    reveal_strlit("scope");
    lemma_not_values_at("cardinality"@, 0);
    lemma_not_values_at("dynamic"@, 0);
    lemma_not_values_at("name"@, 0);
    lemma_not_values_at("optional"@, 0);
    lemma_not_values_at("resolution"@, 0);
    lemma_not_values_at("qualifier"@, 0);
    lemma_not_values_at("binding-resolution"@, 0);
    lemma_not_values_at("binding-cardinality"@, 0);
    lemma_not_values_at("role"@, 0);
    lemma_not_values_at("requested-type"@, 0);
    lemma_not_values_at("selection-reason"@, 1);
    lemma_not_values_at("selected-scope"@, 0);
    lemma_not_values_at("selection-stage"@, 0);
    lemma_not_values_at("scope"@, 0);
}

proof fn lemma_dependency_pairs_free(d: DependencyDescriptor)
    ensures
        forall|i: int| 0 <= i < dependency_pairs(d).len() ==> free_key(#[trigger] dependency_pairs(d)[i].0),
{
    lemma_dependency_keys();
}

proof fn lemma_selected_pairs_free(d: DependencyDescriptor, s: SelectedDependency)
    ensures
        label_input_ok(labels_from(selected_pairs(d, s))),
{
    lemma_dependency_keys();
    lemma_dependency_pairs_free(d);
    let p = selected_pairs(d, s);
    let b = dependency_pairs(d);
    assert forall|i: int| 0 <= i < p.len() implies free_key(#[trigger] p[i].0) by {
        if i < b.len() {
            assert(p[i] == b[i]);
        }
    }
    lemma_labels_from_input_ok(p);
}

proof fn lemma_unresolved_pairs_free(d: DependencyDescriptor, n: nat)
    ensures
        label_input_ok(labels_from(unresolved_binding_pairs(d, n))),
        label_input_ok(labels_from(dependency_pairs(d))),
{
    lemma_dependency_keys();
    lemma_dependency_pairs_free(d);
    let p = unresolved_binding_pairs(d, n);
    let b = dependency_pairs(d);
    assert forall|i: int| 0 <= i < p.len() implies free_key(#[trigger] p[i].0) by {
        if i < b.len() {
            assert(p[i] == b[i]);
        }
    }
    lemma_labels_from_input_ok(p);
    lemma_labels_from_input_ok(b);
}

fn bool_label(b: bool) -> (r: &'static str)
    ensures
        r@ == bool_text(b),
{
    if b {
        "true"
    } else {
        "false"
    }
}

fn dependency_pair_list(d: &DependencyDescriptor) -> (r: Vec<(String, String)>)
    ensures
        pair_views(r@) == dependency_pairs(*d),
{
    let cardinality = match d.cardinality {
        Cardinality::One => "one",
        Cardinality::Collection => "collection",
        Cardinality::Keyed => "keyed",
    };
    let resolution = match d.resolution {
        ResolutionMode::Eager => "eager",
        ResolutionMode::Deferred => "deferred",
        ResolutionMode::Lazy => "lazy",
        ResolutionMode::Fresh => "fresh",
    };
    let mut r: Vec<(String, String)> = Vec::new();
    r.push((owned("cardinality"), owned(cardinality)));
    r.push((owned("dynamic"), owned(bool_label(d.dynamic))));
    r.push((owned("name"), owned(d.name.as_str())));
    r.push((owned("optional"), owned(bool_label(d.optional))));
    r.push((owned("resolution"), owned(resolution)));
    if let Some(q) = &d.qualifier {
        r.push((owned("qualifier"), owned(q.as_str())));
    }
    proof {
        assert(pair_views(r@) =~= dependency_pairs(*d));
    }
    r
}

/// The labels describing a dependency: cardinality, whether it is dynamic, its name, whether
/// it is optional, its resolution mode, and its qualifier when it has one.
pub fn dependency_labels(d: &DependencyDescriptor) -> (r: Labels)
    ensures
        r@ == labels_from(dependency_pairs(*d)),
{
    Labels::from_pairs(dependency_pair_list(d))
}

fn binding_count(bindings: &Vec<ConfigBinding>, d: &DependencyDescriptor) -> (r: (usize, Option<usize>))
    ensures
        r.0 == matching_bindings(bindings@, *d).len(),
        r.0 > 0 ==> (r.1 matches Some(j) && j < bindings@.len() && matching_bindings(bindings@, *d)[0]
            == bindings@[j as int]),
{
    let mut count: usize = 0;
    let mut first: Option<usize> = None;
    let mut i: usize = 0;
    proof {
        assert(bindings@.take(0) =~= Seq::<ConfigBinding>::empty());
    }
    while i < bindings.len()
        invariant
            i <= bindings@.len(),
            count == matching_bindings(bindings@.take(i as int), *d).len(),
            count <= i,
            count > 0 ==> (first matches Some(j) && j < i && matching_bindings(bindings@.take(i as int), *d)[0]
                == bindings@[j as int]),
        decreases bindings@.len() - i,
    {
        proof {
            assert(bindings@.take(i + 1).drop_last() =~= bindings@.take(i as int));
            assert(bindings@.take(i + 1).last() == bindings@[i as int]);
        }
        let b = &bindings[i];
        let same_path = match &d.qualifier {
            Some(q) => crate::text::text_eq(b.path.as_str(), q.as_str()),
            None => true,
        };
        if b.ty.key == d.ty.key && same_path {
            if count == 0 {
                first = Some(i);
            }
            count = count + 1;
        }
        i = i + 1;
    }
    proof {
        assert(bindings@.take(bindings@.len() as int) =~= bindings@);
    }
    (count, first)
}

fn selected_target(t: &DependencyTarget) -> (r: (String, &'static str))
    ensures
        r.0@ == selected_target_text(*t),
        r.1@ == role_text(*t),
{
    match t {
        DependencyTarget::Component(c) => (component_id(c.as_str()), "resolved-component"),
        DependencyTarget::Provider { trait_type, component_type, qualifier } => (
            provider_resource(trait_type.as_str(), component_type.as_str(), qualifier.as_str()),
            "resolved-provider",
        ),
    }
}

impl Projection {
    /// Records the resource of a Rust type the first time the type is named, and returns its
    /// identity.
    pub fn type_resource(&mut self, rust_type: &str, name: &str) -> (r: String)
        ensures
            r@ == "type:"@ + rust_type@,
            final(self)@ == type_projected(old(self)@, rust_type@, name@),
    {
        let id = type_id(rust_type);
        if !self.has_resource(id.as_str()) {
            let mut pairs: Vec<(String, String)> = Vec::new();
            pairs.push((owned("rust-type"), owned(rust_type)));
            proof {
                assert(pair_views(pairs@) =~= seq![("rust-type"@, rust_type@)]);
            }
            self.resource(id.as_str(), ResourceKind::Type, name, None, Labels::from_pairs(pairs));
        }
        id
    }

    fn project_selections(&mut self, owner: &str, dep: &DependencySnapshot)
        requires
            relationships_ready(old(self)@.relationships),
        ensures
            final(self)@ == selections_projected(old(self)@, owner@, dep.descriptor, dep.selected@),
            relationships_ready(final(self)@.relationships),
    {
        let ghost d0 = self@;
        let sel = &dep.selected;
        let mut i: usize = 0;
        proof {
            assert(sel@.take(0) =~= Seq::<SelectedDependency>::empty());
        }
        while i < sel.len()
            invariant
                i <= sel@.len(),
                sel == &dep.selected,
                self@ == selections_projected(d0, owner@, dep.descriptor, sel@.take(i as int)),
                relationships_ready(self@.relationships),
            decreases sel@.len() - i,
        {
            proof {
                assert(sel@.take(i + 1).drop_last() =~= sel@.take(i as int));
                assert(sel@.take(i + 1).last() == sel@[i as int]);
            }
            let s = &sel[i];
            let (target, role) = selected_target(&s.target);
            let mut pairs = dependency_pair_list(&dep.descriptor);
            pairs.push((owned("role"), owned(role)));
            pairs.push((owned("requested-type"), owned(dep.descriptor.ty.rust_name.as_str())));
            pairs.push((owned("selection-reason"), owned(s.reason.as_str())));
            if let Some(x) = &s.scope {
                pairs.push((owned("selected-scope"), owned(x.as_str())));
            }
            if let Some(x) = &s.stage {
                pairs.push((owned("selection-stage"), owned(x.as_str())));
            }
            proof {
                assert(pair_views(pairs@) =~= selected_pairs(dep.descriptor, *s));
                lemma_selected_pairs_free(dep.descriptor, *s);
            }
            let labels = Labels::from_pairs(pairs);
            self.relationship(RelationshipKind::DependsOn, owner, target.as_str(), labels);
            i = i + 1;
        }
        proof {
            assert(sel@.take(sel@.len() as int) =~= sel@);
        }
    }

    /// Projects one dependency of `owner` (a component or hook resource): the requested type,
    /// then either the relationship to the one configuration binding that satisfies it, or the
    /// relationship to the type (telling, for configuration, whether bindings were missing or
    /// ambiguous) and the relationships to every target it was resolved to.
    pub fn project_dependency(
        &mut self,
        owner: &str,
        dependency: &DependencySnapshot,
        bindings: &Vec<ConfigBinding>,
    )
        requires
            relationships_ready(old(self)@.relationships),
        ensures
            final(self)@ == dependency_projected(old(self)@, owner@, *dependency, bindings@),
            relationships_ready(final(self)@.relationships),
    {
        let desc = &dependency.descriptor;
        let target = self.type_resource(desc.ty.rust_name.as_str(), desc.ty.name.as_str());
        proof {
            lemma_unresolved_pairs_free(*desc, matching_bindings(bindings@, *desc).len());
        }
        let mut pairs = dependency_pair_list(desc);
        if desc.config {
            let (count, first) = binding_count(bindings, desc);
            if count == 1 {
                let j = match first {
                    Some(j) => j,
                    None => 0,
                };
                let b = &bindings[j];
                let binding = config_binding_id(b.ty.rust_name.as_str(), b.path.as_str());
                self.relationship(
                    RelationshipKind::DependsOn,
                    owner,
                    binding.as_str(),
                    Labels::from_pairs(pairs),
                );
                return;
            }
            let resolution = if count == 0 {
                "missing"
            } else {
                "ambiguous"
            };
            pairs.push((owned("binding-resolution"), owned(resolution)));
            pairs.push((owned("binding-cardinality"), decimal_string(count as u64)));
            proof {
                assert(pair_views(pairs@) =~= unresolved_binding_pairs(*desc, count as nat));
            }
        }
        self.relationship(RelationshipKind::DependsOn, owner, target.as_str(), Labels::from_pairs(pairs));
        self.project_selections(owner, dependency);
    }

    fn project_dependencies(&mut self, owner: &str, deps: &Vec<DependencySnapshot>, bindings: &Vec<ConfigBinding>)
        requires
            relationships_ready(old(self)@.relationships),
        ensures
            final(self)@ == dependencies_projected(old(self)@, owner@, deps@, bindings@),
            relationships_ready(final(self)@.relationships),
    {
        let ghost d0 = self@;
        let mut i: usize = 0;
        proof {
            assert(deps@.take(0) =~= Seq::<DependencySnapshot>::empty());
        }
        while i < deps.len()
            invariant
                i <= deps@.len(),
                self@ == dependencies_projected(d0, owner@, deps@.take(i as int), bindings@),
                relationships_ready(self@.relationships),
            decreases deps@.len() - i,
        {
            proof {
                assert(deps@.take(i + 1).drop_last() =~= deps@.take(i as int));
                assert(deps@.take(i + 1).last() == deps@[i as int]);
            }
            self.project_dependency(owner, &deps[i], bindings);
            i = i + 1;
        }
        proof {
            assert(deps@.take(deps@.len() as int) =~= deps@);
        }
    }

    /// Projects one component: its type, its resource with how it is constructed and how its
    /// factory was selected, what it provides, its scope, and its dependencies.
    pub fn project_component(&mut self, component: &ComponentSnapshot, bindings: &Vec<ConfigBinding>)
        requires
            relationships_ready(old(self)@.relationships),
        ensures
            final(self)@ == component_projected(old(self)@, *component, bindings@),
            relationships_ready(final(self)@.relationships),
    {
        let id = component_id(component.id.as_str());
        let ty = self.type_resource(component.ty.rust_name.as_str(), component.ty.name.as_str());
        let scope = scope_id(component.scope.as_str());
        let construction = if component.transient {
            if component.has_factory {
                "transient-on-demand"
            } else {
                "manual-transient"
            }
        } else if component.seeds_scope {
            "scope-seed"
        } else if component.has_factory {
            "planned-factory"
        } else if component.seeded {
            "seeded"
        } else {
            "manual-unseeded"
        };
        let mut pairs: Vec<(String, String)> = Vec::new();
        pairs.push((owned("component-id"), owned(component.id.as_str())));
        pairs.push((owned("rust-type"), owned(component.ty.rust_name.as_str())));
        pairs.push((owned("scope-id"), owned(component.scope.as_str())));
        pairs.push((owned("construction"), owned(construction)));
        pairs.push((owned("factory-selection"), owned(component.factory_selection.name())));
        pairs.push(
            (owned("factory-candidate-count"), decimal_string(component.factory_candidate_count as u64)),
        );
        pairs.push(
            (owned("factory-explicit-count"), decimal_string(component.factory_explicit_count as u64)),
        );
        proof {
            assert(pair_views(pairs@) =~= component_pairs(*component));
        }
        let provenance = match &component.contribution {
            Some(p) => Some(contribution_provenance(p)),
            None => None,
        };
        self.resource(
            id.as_str(),
            ResourceKind::Component,
            component.name.as_str(),
            provenance,
            Labels::from_pairs(pairs),
        );
        self.relationship(RelationshipKind::Provides, id.as_str(), ty.as_str(), Labels::new());
        let mut role: Vec<(String, String)> = Vec::new();
        role.push((owned("role"), owned("scope")));
        proof {
            assert(pair_views(role@) =~= seq![("role"@, "scope"@)]);
            lemma_dependency_keys();
            lemma_labels_from_input_ok(seq![("role"@, "scope"@)]);
        }
        self.relationship(RelationshipKind::DependsOn, id.as_str(), scope.as_str(), Labels::from_pairs(role));
        self.project_dependencies(id.as_str(), &component.dependencies, bindings);
    }

    fn project_hook(&mut self, component: &str, h: &HookSnapshot, bindings: &Vec<ConfigBinding>)
        requires
            relationships_ready(old(self)@.relationships),
        ensures
            final(self)@ == hook_projected(old(self)@, component@, *h, bindings@),
            relationships_ready(final(self)@.relationships),
    {
        let ordinal = decimal_string(h.ordinal as u64);
        let mut id = concat3("hook:", component, ":");
        id.append(h.kind.as_str());
        id.append(":");
        id.append(ordinal.as_str());
        proof {
            assert(id@ =~= hook_text(component@, h.kind@, h.ordinal));
        }
        let mut pairs: Vec<(String, String)> = Vec::new();
        pairs.push((owned("ordinal"), ordinal));
        proof {
            assert(pair_views(pairs@) =~= seq![("ordinal"@, decimal(h.ordinal as nat))]);
        }
        self.resource(id.as_str(), ResourceKind::Hook, h.kind.as_str(), None, Labels::from_pairs(pairs));
        let owner = component_id(component);
        self.relationship(RelationshipKind::Hooks, owner.as_str(), id.as_str(), Labels::new());
        if let Some(lifecycle) = lifecycle_resource(h.kind.as_str()) {
            self.relationship(RelationshipKind::Hooks, id.as_str(), lifecycle, Labels::new());
        }
        self.project_dependencies(id.as_str(), &h.dependencies, bindings);
    }

    /// Projects the hooks of every component: each hook's resource, the component's
    /// relationship to it, its lifecycle event when it has one, and its dependencies.
    pub fn project_hooks(&mut self, components: &Vec<ComponentSnapshot>, bindings: &Vec<ConfigBinding>)
        requires
            relationships_ready(old(self)@.relationships),
        ensures
            final(self)@ == hooks_projected(old(self)@, components@, bindings@),
            relationships_ready(final(self)@.relationships),
    {
        let ghost d0 = self@;
        let mut i: usize = 0;
        proof {
            assert(components@.take(0) =~= Seq::<ComponentSnapshot>::empty());
        }
        while i < components.len()
            invariant
                i <= components@.len(),
                self@ == hooks_projected(d0, components@.take(i as int), bindings@),
                relationships_ready(self@.relationships),
            decreases components@.len() - i,
        {
            proof {
                assert(components@.take(i + 1).drop_last() =~= components@.take(i as int));
                assert(components@.take(i + 1).last() == components@[i as int]);
            }
            let c = &components[i];
            let ghost d1 = self@;
            let mut j: usize = 0;
            proof {
                assert(c.hooks@.take(0) =~= Seq::<HookSnapshot>::empty());
            }
            while j < c.hooks.len()
                invariant
                    j <= c.hooks@.len(),
                    self@ == hooks_of(d1, c.id@, c.hooks@.take(j as int), bindings@),
                    relationships_ready(self@.relationships),
                decreases c.hooks@.len() - j,
            {
                proof {
                    assert(c.hooks@.take(j + 1).drop_last() =~= c.hooks@.take(j as int));
                    assert(c.hooks@.take(j + 1).last() == c.hooks@[j as int]);
                }
                self.project_hook(c.id.as_str(), &c.hooks[j], bindings);
                j = j + 1;
            }
            proof {
                assert(c.hooks@.take(c.hooks@.len() as int) =~= c.hooks@);
            }
            i = i + 1;
        }
        proof {
            assert(components@.take(components@.len() as int) =~= components@);
        }
    }

    fn project_component_list(&mut self, components: &Vec<ComponentSnapshot>, bindings: &Vec<ConfigBinding>)
        requires
            relationships_ready(old(self)@.relationships),
        ensures
            final(self)@ == components_projected(old(self)@, components@, bindings@),
            relationships_ready(final(self)@.relationships),
    {
        let ghost d0 = self@;
        let mut i: usize = 0;
        proof {
            assert(components@.take(0) =~= Seq::<ComponentSnapshot>::empty());
        }
        while i < components.len()
            invariant
                i <= components@.len(),
                self@ == components_projected(d0, components@.take(i as int), bindings@),
                relationships_ready(self@.relationships),
            decreases components@.len() - i,
        {
            proof {
                assert(components@.take(i + 1).drop_last() =~= components@.take(i as int));
                assert(components@.take(i + 1).last() == components@[i as int]);
            }
            self.project_component(&components[i], bindings);
            i = i + 1;
        }
        proof {
            assert(components@.take(components@.len() as int) =~= components@);
        }
    }
}


impl Projection {
    /// Projects one construction plan of `scope`: each entry's component is labelled with the
    /// plan, its position and its kind of entry, and each entry is ordered before the next.
    pub fn project_construction_plan(&mut self, scope: &str, entries: &Vec<ConstructionPlanEntry>)
        requires
            relationships_ready(old(self)@.relationships),
            plan_components_present(old(self)@, entries@),
        ensures
            final(self)@ == plan_projected(old(self)@, scope@, entries@, entries@.len() as int),
            relationships_ready(final(self)@.relationships),
    {
        let ghost d0 = self@;
        let mut previous: Option<String> = None;
        let mut i: usize = 0;
        proof {
            lemma_dependency_keys();
            lemma_labels_from_input_ok(seq![("scope"@, scope@)]);
        }
        while i < entries.len()
            invariant
                i <= entries@.len(),
                self@ == plan_projected(d0, scope@, entries@, i as int),
                relationships_ready(self@.relationships),
                plan_components_present(d0, entries@),
                plan_components_present(self@, entries@),
                label_input_ok(labels_from(seq![("scope"@, scope@)])),
                match previous {
                    Some(p) => i > 0 && p@ == "component:"@ + entries@[i - 1].component@,
                    None => i == 0,
                },
            decreases entries@.len() - i,
        {
            let ghost before = self@;
            let e = &entries[i];
            let id = component_id(e.component.as_str());
            proof {
                assert(resource_position(before.resources, "component:"@ + entries@[i as int].component@) >= 0);
                lemma_plan_step_positions(before, scope@, entries@, i as int);
                lemma_relabeled_keeps_positions(before, id@, "construction-plan"@, scope@, id@);
            }
            self.label_resource(id.as_str(), owned("construction-plan"), owned(scope));
            proof {
                let d1 = relabeled(before, id@, "construction-plan"@, scope@);
                lemma_relabeled_keeps_positions(d1, id@, "plan-ordinal"@, decimal(i as nat), id@);
            }
            self.label_resource(id.as_str(), owned("plan-ordinal"), decimal_string(i as u64));
            let kind = if e.has_factory {
                "factory-construction"
            } else {
                "seeded-verification"
            };
            self.label_resource(id.as_str(), owned("plan-entry-kind"), owned(kind));
            if let Some(p) = &previous {
                let mut pairs: Vec<(String, String)> = Vec::new();
                pairs.push((owned("scope"), owned(scope)));
                proof {
                    assert(pair_views(pairs@) =~= seq![("scope"@, scope@)]);
                }
                self.relationship(RelationshipKind::OrdersBefore, p.as_str(), id.as_str(), Labels::from_pairs(pairs));
            }
            proof {
                assert(self@ == plan_step(before, scope@, entries@, i as int));
                lemma_present_kept(before, self@, entries@);
            }
            previous = Some(id);
            i = i + 1;
        }
    }

    /// Projects every component, then the root construction plan, then the construction plan
    /// of each scope that has one.
    pub fn project_components(
        &mut self,
        components: &Vec<ComponentSnapshot>,
        root_scope: &str,
        root_plan: &Vec<ConstructionPlanEntry>,
        scope_plans: &Vec<(String, Vec<ConstructionPlanEntry>)>,
        bindings: &Vec<ConfigBinding>,
    )
        requires
            relationships_ready(old(self)@.relationships),
            plan_entries_known(components@, root_plan@),
            plans_known(components@, scope_plans@),
        ensures
            final(self)@ == all_components_projected(
                old(self)@,
                components@,
                root_scope@,
                root_plan@,
                scope_plans@,
                bindings@,
            ),
            relationships_ready(final(self)@.relationships),
    {
        let ghost d0 = self@;
        self.project_component_list(components, bindings);
        let ghost d1 = self@;
        proof {
            lemma_known_entries_present(d0, components@, bindings@, root_plan@);
            assert forall|p: int| 0 <= p < scope_plans@.len() implies plan_components_present(
                d1,
                (#[trigger] scope_plans@[p]).1@,
            ) by {
                lemma_known_entries_present(d0, components@, bindings@, scope_plans@[p].1@);
            }
        }
        self.project_construction_plan(root_scope, root_plan);
        proof {
            lemma_plan_positions(d1, root_scope@, root_plan@, root_plan@.len() as int);
            assert forall|p: int| 0 <= p < scope_plans@.len() implies plan_components_present(
                self@,
                (#[trigger] scope_plans@[p]).1@,
            ) by {
                lemma_present_kept(d1, self@, scope_plans@[p].1@);
            }
        }
        let ghost d2 = self@;
        let mut i: usize = 0;
        proof {
            assert(scope_plans@.take(0) =~= Seq::<(String, Vec<ConstructionPlanEntry>)>::empty());
        }
        while i < scope_plans.len()
            invariant
                i <= scope_plans@.len(),
                self@ == plans_projected(d2, scope_plans@.take(i as int)),
                relationships_ready(self@.relationships),
                forall|p: int| 0 <= p < scope_plans@.len() ==> plan_components_present(
                    self@,
                    (#[trigger] scope_plans@[p]).1@,
                ),
            decreases scope_plans@.len() - i,
        {
            proof {
                assert(scope_plans@.take(i + 1).drop_last() =~= scope_plans@.take(i as int));
                assert(scope_plans@.take(i + 1).last() == scope_plans@[i as int]);
            }
            let ghost before = self@;
            let plan = &scope_plans[i];
            self.project_construction_plan(plan.0.as_str(), &plan.1);
            proof {
                lemma_plan_positions(before, plan.0@, plan.1@, plan.1@.len() as int);
                assert forall|p: int| 0 <= p < scope_plans@.len() implies plan_components_present(
                    self@,
                    (#[trigger] scope_plans@[p]).1@,
                ) by {
                    lemma_present_kept(before, self@, scope_plans@[p].1@);
                }
            }
            i = i + 1;
        }
        proof {
            assert(scope_plans@.take(scope_plans@.len() as int) =~= scope_plans@);
        }
    }
}

} // verus!
