//! How the plugin plan is projected: plugins with their resolution order and slots, the
//! plugins that replacements and suppressions left inactive, every relation endpoint, and the
//! reconciled contributions with the decisions taken on them.
use vstd::prelude::*;

use crate::labels::{
    LabelView, Labels, decisions_key, ends_with_values, label_input_ok, labels_from, pair_views, put,
};
use crate::projection::{
    DocumentView, Projection, RelationshipKind, ResourceKind, edges_kept, has_edge,
    has_resource_id, law_relate_keeps_relationships, new_resource, relate, relationships_ready,
};
use crate::resource_ids::{
    CliProviderKind, cli_provider_kind_name, CompositionPhase, ContributionProvenance, InstallationProvenance, PluginContributionKind,
    ProvenanceView, RelationTarget, SlotPolicy, contribution_id, contribution_kind_name,
    contribution_provenance, contribution_text, contributor_id, contributor_text,
    installation_provenance, installation_provenance_view, phase_name, plugin_id,
    plugin_slot_id, relation_target_resource, relation_target_text, slot_policy_name,
};
use crate::projection::same_edge;
use crate::text::{concat, decimal, decimal_string, owned, text_eq};

verus! {

/// How a plugin relates to another plugin or a slot.
#[derive(Clone, Copy, Debug, PartialEq, Eq, Structural)]
pub enum RelationKind {
    Requires,
    Before,
    After,
    Conflicts,
}

/// One declared plugin relation.
pub struct PluginRelation {
    pub kind: RelationKind,
    pub target: RelationTarget,
}

/// One plugin as the plan resolved it, in resolution order.
pub struct ResolvedPlugin {
    pub id: String,
    pub phase: CompositionPhase,
    pub provenance: InstallationProvenance,
    /// The slot the plugin fills, with the slot's policy.
    pub slot: Option<(String, SlotPolicy)>,
    pub relations: Vec<PluginRelation>,
}

/// A slot whose default plugin was replaced.
pub struct SlotReplacement {
    pub slot: String,
    pub replaced: String,
    pub replacement: String,
    pub replaced_provenance: InstallationProvenance,
}

/// A slot whose plugin was suppressed.
pub struct SlotSuppression {
    pub slot: String,
    pub suppressed: String,
    pub suppressed_provenance: InstallationProvenance,
    /// The installation that asked for the suppression.
    pub provenance: InstallationProvenance,
}

/// A plugin contribution and the decision the plan took on it.
pub struct ReconciledContribution {
    pub provenance: ContributionProvenance,
    pub kind: PluginContributionKind,
    /// The decision's name (`applied` when the contribution took effect).
    pub decision: String,
    /// The resource the contribution asked for.
    pub requested: String,
    /// The resource that took effect, if any.
    pub applied: Option<String>,
}

/// What the plugin plan resolved.
pub struct PluginResolution {
    pub plugins: Vec<ResolvedPlugin>,
    pub replacements: Vec<SlotReplacement>,
    pub suppressions: Vec<SlotSuppression>,
    /// Reconciled contributions in emission order.
    pub contributions: Vec<ReconciledContribution>,
}

// ---------------------------------------------------------------------------------------------
// What the projection records
// ---------------------------------------------------------------------------------------------

/// The label text of a composition phase.
pub open spec fn phase_text(p: CompositionPhase) -> Seq<char> {
    match p {
        CompositionPhase::Early => "early"@,
        CompositionPhase::Late => "late"@,
    }
}

/// The label text of a slot policy.
pub open spec fn slot_policy_text(p: SlotPolicy) -> Seq<char> {
    match p {
        SlotPolicy::Fixed => "fixed"@,
        SlotPolicy::Replaceable => "replaceable"@,
        SlotPolicy::Optional => "optional"@,
    }
}

/// The label text of a contribution kind.
pub open spec fn contribution_kind_text(k: PluginContributionKind) -> Seq<char> {
    match k {
        PluginContributionKind::Component => "component"@,
        PluginContributionKind::Provider => "provider"@,
        PluginContributionKind::ConfigBinding => "config-binding"@,
    }
}

/// The relationship a plugin relation projects to.
pub open spec fn relationship_kind_of(k: RelationKind) -> RelationshipKind {
    match k {
        RelationKind::Requires => RelationshipKind::DependsOn,
        RelationKind::Before => RelationshipKind::OrdersBefore,
        RelationKind::After => RelationshipKind::OrdersAfter,
        RelationKind::Conflicts => RelationshipKind::Conflicts,
    }
}

/// The document with one more resource.
pub open spec fn add_resource(
    d: DocumentView,
    id: Seq<char>,
    kind: ResourceKind,
    name: Seq<char>,
    provenance: Option<ProvenanceView>,
    labels: Seq<(Seq<char>, Seq<char>)>,
) -> DocumentView {
    DocumentView {
        resources: d.resources.push(new_resource(id, kind, name, provenance, labels_from(labels))),
        relationships: d.relationships,
    }
}

/// The document after relating `from` to `to`.
pub open spec fn add_relation(
    d: DocumentView,
    kind: RelationshipKind,
    from: Seq<char>,
    to: Seq<char>,
    labels: Seq<(Seq<char>, Seq<char>)>,
) -> DocumentView {
    DocumentView {
        resources: d.resources,
        relationships: relate(d.relationships, kind, from, to, labels_from(labels)),
    }
}

/// The document with a plugin slot resource, unless it is already there.
pub open spec fn slot_projected(d: DocumentView, slot: Seq<char>) -> DocumentView {
    let id = "plugin-slot:"@ + slot;
    if has_resource_id(d.resources, id) {
        d
    } else {
        add_resource(d, id, ResourceKind::PluginSlot, slot, None, seq![("slot-id"@, slot)])
    }
}

/// The document with an inactive plugin resource, unless one with that identity is there.
pub open spec fn inactive_plugin(
    d: DocumentView,
    id: Seq<char>,
    name: Seq<char>,
    provenance: ProvenanceView,
    decision: Seq<char>,
) -> DocumentView {
    if has_resource_id(d.resources, id) {
        d
    } else {
        add_resource(
            d,
            id,
            ResourceKind::Plugin,
            name,
            Some(provenance),
            seq![("effective"@, "false"@), ("decision"@, decision)],
        )
    }
}

/// Replaced plugins, each recorded as an inactive plugin.
pub open spec fn replaced_stage(d: DocumentView, reps: Seq<SlotReplacement>) -> DocumentView
    decreases reps.len(),
{
    if reps.len() == 0 {
        d
    } else {
        let r = reps.last();
        inactive_plugin(
            replaced_stage(d, reps.drop_last()),
            "plugin:"@ + r.replaced@,
            r.replaced@,
            installation_provenance_view(r.replaced_provenance),
            "replaced"@,
        )
    }
}

/// The identity of the decision resource of a suppression.
pub open spec fn suppression_text(slot: Seq<char>) -> Seq<char> {
    "suppression:"@ + slot
}

/// One suppression: its slot, the suppressed plugin (inactive), a decision resource, and the
/// decision's dependency on the slot.
pub open spec fn suppression_step(d: DocumentView, s: SlotSuppression) -> DocumentView {
    let decision = suppression_text(s.slot@);
    let d1 = slot_projected(d, s.slot@);
    let d2 = inactive_plugin(
        d1,
        "plugin:"@ + s.suppressed@,
        s.suppressed@,
        installation_provenance_view(s.suppressed_provenance),
        "suppressed"@,
    );
    let d3 = add_resource(
        d2,
        decision,
        ResourceKind::Contribution,
        s.slot@,
        Some(installation_provenance_view(s.provenance)),
        seq![("slot"@, s.slot@)],
    );
    add_relation(
        d3,
        RelationshipKind::DependsOn,
        decision,
        "plugin-slot:"@ + s.slot@,
        seq![("role"@, "suppressed-slot"@)],
    )
}

/// Every suppression in turn.
pub open spec fn suppressed_stage(d: DocumentView, sups: Seq<SlotSuppression>) -> DocumentView
    decreases sups.len(),
{
    if sups.len() == 0 {
        d
    } else {
        suppression_step(suppressed_stage(d, sups.drop_last()), sups.last())
    }
}

/// The labels of an effective plugin at position `order` of the resolution.
pub open spec fn plugin_labels(p: ResolvedPlugin, order: nat) -> Seq<(Seq<char>, Seq<char>)> {
    let base = seq![
        ("phase"@, phase_text(p.phase)),
        ("plugin-id"@, p.id@),
        ("resolution-order"@, decimal(order)),
        ("effective"@, "true"@),
    ];
    match p.slot {
        Some((slot, policy)) => base + seq![("slot"@, slot@), ("slot-policy"@, slot_policy_text(policy))],
        None => base,
    }
}

/// One effective plugin: its slot, the plugin itself, and the slot it provides.
pub open spec fn plugin_step(d: DocumentView, p: ResolvedPlugin, order: nat) -> DocumentView {
    let id = "plugin:"@ + p.id@;
    let d1 = match p.slot {
        Some((slot, _)) => slot_projected(d, slot@),
        None => d,
    };
    let d2 = add_resource(
        d1,
        id,
        ResourceKind::Plugin,
        p.id@,
        Some(installation_provenance_view(p.provenance)),
        plugin_labels(p, order),
    );
    match p.slot {
        Some((slot, _)) => add_relation(
            d2,
            RelationshipKind::Provides,
            id,
            "plugin-slot:"@ + slot@,
            Seq::empty(),
        ),
        None => d2,
    }
}

/// Every effective plugin, in resolution order.
pub open spec fn plugins_stage(d: DocumentView, ps: Seq<ResolvedPlugin>) -> DocumentView
    decreases ps.len(),
{
    if ps.len() == 0 {
        d
    } else {
        plugin_step(plugins_stage(d, ps.drop_last()), ps.last(), (ps.len() - 1) as nat)
    }
}

/// A relation's target as a resource: a plugin nobody installed becomes an inactive relation
/// endpoint, a slot becomes a slot resource.
pub open spec fn endpoint_step(d: DocumentView, t: RelationTarget) -> DocumentView {
    match t {
        RelationTarget::Plugin(p) => {
            let id = "plugin:"@ + p@;
            if has_resource_id(d.resources, id) {
                d
            } else {
                add_resource(
                    d,
                    id,
                    ResourceKind::Plugin,
                    p@,
                    None,
                    seq![("effective"@, "false"@), ("decision"@, "relation-endpoint"@)],
                )
            }
        },
        RelationTarget::Slot(s) => slot_projected(d, s@),
    }
}

/// The targets of some relations, in turn.
pub open spec fn endpoints_of(d: DocumentView, rels: Seq<PluginRelation>) -> DocumentView
    decreases rels.len(),
{
    if rels.len() == 0 {
        d
    } else {
        endpoint_step(endpoints_of(d, rels.drop_last()), rels.last().target)
    }
}

/// The relation targets of every plugin.
pub open spec fn endpoints_stage(d: DocumentView, ps: Seq<ResolvedPlugin>) -> DocumentView
    decreases ps.len(),
{
    if ps.len() == 0 {
        d
    } else {
        endpoints_of(endpoints_stage(d, ps.drop_last()), ps.last().relations@)
    }
}

/// The relationships of one plugin's relations.
pub open spec fn relations_of(d: DocumentView, id: Seq<char>, rels: Seq<PluginRelation>) -> DocumentView
    decreases rels.len(),
{
    if rels.len() == 0 {
        d
    } else {
        let r = rels.last();
        add_relation(
            relations_of(d, id, rels.drop_last()),
            relationship_kind_of(r.kind),
            id,
            relation_target_text(r.target),
            Seq::empty(),
        )
    }
}

/// The relationships of every plugin's relations.
pub open spec fn relations_stage(d: DocumentView, ps: Seq<ResolvedPlugin>) -> DocumentView
    decreases ps.len(),
{
    if ps.len() == 0 {
        d
    } else {
        let p = ps.last();
        relations_of(relations_stage(d, ps.drop_last()), "plugin:"@ + p.id@, p.relations@)
    }
}

/// Each replacement's plugin replaces the plugin it displaced, in its slot.
pub open spec fn replacements_stage(d: DocumentView, reps: Seq<SlotReplacement>) -> DocumentView
    decreases reps.len(),
{
    if reps.len() == 0 {
        d
    } else {
        let r = reps.last();
        add_relation(
            replacements_stage(d, reps.drop_last()),
            RelationshipKind::Replaces,
            "plugin:"@ + r.replacement@,
            "plugin:"@ + r.replaced@,
            seq![("slot"@, r.slot@)],
        )
    }
}

/// Each suppression's decision suppresses its plugin.
pub open spec fn suppressions_stage(d: DocumentView, sups: Seq<SlotSuppression>) -> DocumentView
    decreases sups.len(),
{
    if sups.len() == 0 {
        d
    } else {
        let s = sups.last();
        add_relation(
            suppressions_stage(d, sups.drop_last()),
            RelationshipKind::Suppresses,
            suppression_text(s.slot@),
            "plugin:"@ + s.suppressed@,
            Seq::empty(),
        )
    }
}

/// The labels of a reconciled contribution emitted at position `index`: the target that took
/// effect is `applied-target` when the decision is `applied`, `effective-target` otherwise.
pub open spec fn contribution_labels(c: ReconciledContribution, index: nat) -> Seq<
    (Seq<char>, Seq<char>),
> {
    let base = seq![
        ("contribution-kind"@, contribution_kind_text(c.kind)),
        ("decision"@, c.decision@),
        ("emission-index"@, decimal(index)),
        ("requested-target"@, c.requested@),
    ];
    match c.applied {
        Some(t) => base.push(
            (
                if c.decision@ == "applied"@ {
                    "applied-target"@
                } else {
                    "effective-target"@
                },
                t@,
            ),
        ),
        None => base,
    }
}

/// One reconciled contribution: its resource, its contributor's relationship to it, and, when
/// applied, its relationship to the resource it applied to.
pub open spec fn contribution_step(d: DocumentView, c: ReconciledContribution, index: nat) -> DocumentView {
    let id = contribution_text(c.provenance);
    let d1 = add_resource(
        d,
        id,
        ResourceKind::Contribution,
        c.provenance.contribution@,
        Some(
            ProvenanceView {
                owner: Some(contributor_text(c.provenance.contributor)),
                origin: Some("contribution"@),
                ordinal: None,
            },
        ),
        contribution_labels(c, index),
    );
    let d2 = add_relation(
        d1,
        RelationshipKind::Contributes,
        contributor_text(c.provenance.contributor),
        id,
        Seq::empty(),
    );
    match c.applied {
        Some(t) => if c.decision@ == "applied"@ {
            add_relation(d2, RelationshipKind::Contributes, id, t@, seq![("decision"@, c.decision@)])
        } else {
            d2
        },
        None => d2,
    }
}

/// Every reconciled contribution, in emission order.
pub open spec fn contributions_stage(d: DocumentView, cs: Seq<ReconciledContribution>) -> DocumentView
    decreases cs.len(),
{
    if cs.len() == 0 {
        d
    } else {
        contribution_step(contributions_stage(d, cs.drop_last()), cs.last(), (cs.len() - 1) as nat)
    }
}

/// The document after projecting the plugin plan, stage by stage.
pub open spec fn plugins_projected(d: DocumentView, plan: PluginResolution) -> DocumentView {
    let d1 = replaced_stage(d, plan.replacements@);
    let d2 = suppressed_stage(d1, plan.suppressions@);
    let d3 = plugins_stage(d2, plan.plugins@);
    let d4 = endpoints_stage(d3, plan.plugins@);
    let d5 = relations_stage(d4, plan.plugins@);
    let d6 = replacements_stage(d5, plan.replacements@);
    let d7 = suppressions_stage(d6, plan.suppressions@);
    contributions_stage(d7, plan.contributions@)
}

// ---------------------------------------------------------------------------------------------
// What every stage keeps
// ---------------------------------------------------------------------------------------------

/// Whether `b` keeps every resource of `a` (by identity, in place) and every relationship of
/// `a` (in place, with its kind and endpoints).
pub open spec fn extends(a: DocumentView, b: DocumentView) -> bool {
    &&& a.resources.len() <= b.resources.len()
    &&& forall|i: int| 0 <= i < a.resources.len() ==> (#[trigger] b.resources[i]).id == a.resources[i].id
    &&& edges_kept(a.relationships, b.relationships)
}

pub proof fn lemma_extends_trans(a: DocumentView, b: DocumentView, c: DocumentView)
    requires
        extends(a, b),
        extends(b, c),
    ensures
        extends(a, c),
{
    assert forall|i: int| 0 <= i < a.relationships.len() implies same_edge_kept(a, c, i) by {
        assert(same_edge_kept(a, b, i));
        assert(same_edge_kept(b, c, i));
    }
    assert forall|i: int| 0 <= i < a.resources.len() implies (#[trigger] c.resources[i]).id
        == a.resources[i].id by {
        assert(b.resources[i].id == a.resources[i].id);
    }
}

spec fn same_edge_kept(a: DocumentView, b: DocumentView, i: int) -> bool {
    same_edge(
        b.relationships[i],
        a.relationships[i].kind,
        a.relationships[i].from,
        a.relationships[i].to,
    )
}

pub proof fn lemma_kept_facts(a: DocumentView, b: DocumentView, id: Seq<char>, kind: RelationshipKind, from: Seq<char>, to: Seq<char>)
    requires
        extends(a, b),
    ensures
        has_resource_id(a.resources, id) ==> has_resource_id(b.resources, id),
        has_edge(a.relationships, kind, from, to) ==> has_edge(b.relationships, kind, from, to),
{
    if has_resource_id(a.resources, id) {
        let i = choose|i: int| 0 <= i < a.resources.len() && (#[trigger] a.resources[i]).id == id;
        assert(b.resources[i].id == id);
    }
    if has_edge(a.relationships, kind, from, to) {
        let i = choose|i: int|
            0 <= i < a.relationships.len() && same_edge(
                #[trigger] a.relationships[i],
                kind,
                from,
                to,
            );
        assert(same_edge(b.relationships[i], kind, from, to));
    }
}

pub proof fn lemma_add_resource_extends(
    d: DocumentView,
    id: Seq<char>,
    kind: ResourceKind,
    name: Seq<char>,
    provenance: Option<ProvenanceView>,
    labels: Seq<(Seq<char>, Seq<char>)>,
)
    ensures
        extends(d, add_resource(d, id, kind, name, provenance, labels)),
        has_resource_id(add_resource(d, id, kind, name, provenance, labels).resources, id),
{
    let e = add_resource(d, id, kind, name, provenance, labels);
    assert(e.resources[d.resources.len() as int].id == id);
}

pub proof fn lemma_add_relation_extends(
    d: DocumentView,
    kind: RelationshipKind,
    from: Seq<char>,
    to: Seq<char>,
    labels: Seq<(Seq<char>, Seq<char>)>,
)
    ensures
        extends(d, add_relation(d, kind, from, to, labels)),
        has_edge(add_relation(d, kind, from, to, labels).relationships, kind, from, to),
{
    law_relate_keeps_relationships(d.relationships, kind, from, to, labels_from(labels));
}

proof fn lemma_slot_extends(d: DocumentView, slot: Seq<char>)
    ensures
        extends(d, slot_projected(d, slot)),
        has_resource_id(slot_projected(d, slot).resources, "plugin-slot:"@ + slot),
{
    if !has_resource_id(d.resources, "plugin-slot:"@ + slot) {
        lemma_add_resource_extends(
            d,
            "plugin-slot:"@ + slot,
            ResourceKind::PluginSlot,
            slot,
            None,
            seq![("slot-id"@, slot)],
        );
    }
}

proof fn lemma_inactive_extends(
    d: DocumentView,
    id: Seq<char>,
    name: Seq<char>,
    provenance: ProvenanceView,
    decision: Seq<char>,
)
    ensures
        extends(d, inactive_plugin(d, id, name, provenance, decision)),
{
    if !has_resource_id(d.resources, id) {
        lemma_add_resource_extends(
            d,
            id,
            ResourceKind::Plugin,
            name,
            Some(provenance),
            seq![("effective"@, "false"@), ("decision"@, decision)],
        );
    }
}

proof fn lemma_replaced_stage_extends(d: DocumentView, reps: Seq<SlotReplacement>)
    ensures
        extends(d, replaced_stage(d, reps)),
    decreases reps.len(),
{
    if reps.len() > 0 {
        let r = reps.last();
        let prev = replaced_stage(d, reps.drop_last());
        lemma_replaced_stage_extends(d, reps.drop_last());
        lemma_inactive_extends(
            prev,
            "plugin:"@ + r.replaced@,
            r.replaced@,
            installation_provenance_view(r.replaced_provenance),
            "replaced"@,
        );
        lemma_extends_trans(d, prev, replaced_stage(d, reps));
    }
}

proof fn lemma_suppressed_stage_extends(d: DocumentView, sups: Seq<SlotSuppression>)
    ensures
        extends(d, suppressed_stage(d, sups)),
    decreases sups.len(),
{
    if sups.len() > 0 {
        let s = sups.last();
        let prev = suppressed_stage(d, sups.drop_last());
        lemma_suppressed_stage_extends(d, sups.drop_last());
        let decision = suppression_text(s.slot@);
        let d1 = slot_projected(prev, s.slot@);
        lemma_slot_extends(prev, s.slot@);
        let d2 = inactive_plugin(
            d1,
            "plugin:"@ + s.suppressed@,
            s.suppressed@,
            installation_provenance_view(s.suppressed_provenance),
            "suppressed"@,
        );
        lemma_inactive_extends(
            d1,
            "plugin:"@ + s.suppressed@,
            s.suppressed@,
            installation_provenance_view(s.suppressed_provenance),
            "suppressed"@,
        );
        let d3 = add_resource(
            d2,
            decision,
            ResourceKind::Contribution,
            s.slot@,
            Some(installation_provenance_view(s.provenance)),
            seq![("slot"@, s.slot@)],
        );
        lemma_add_resource_extends(
            d2,
            decision,
            ResourceKind::Contribution,
            s.slot@,
            Some(installation_provenance_view(s.provenance)),
            seq![("slot"@, s.slot@)],
        );
        lemma_add_relation_extends(
            d3,
            RelationshipKind::DependsOn,
            decision,
            "plugin-slot:"@ + s.slot@,
            seq![("role"@, "suppressed-slot"@)],
        );
        lemma_extends_trans(d, prev, d1);
        lemma_extends_trans(d, d1, d2);
        lemma_extends_trans(d, d2, d3);
        lemma_extends_trans(d, d3, suppressed_stage(d, sups));
    }
}

proof fn lemma_plugin_step_extends(d: DocumentView, p: ResolvedPlugin, order: nat)
    ensures
        extends(d, plugin_step(d, p, order)),
        has_resource_id(plugin_step(d, p, order).resources, "plugin:"@ + p.id@),
{
    let id = "plugin:"@ + p.id@;
    let d1 = match p.slot {
        Some((slot, _)) => slot_projected(d, slot@),
        None => d,
    };
    if let Some((slot, _)) = p.slot {
        lemma_slot_extends(d, slot@);
    }
    let d2 = add_resource(
        d1,
        id,
        ResourceKind::Plugin,
        p.id@,
        Some(installation_provenance_view(p.provenance)),
        plugin_labels(p, order),
    );
    lemma_add_resource_extends(
        d1,
        id,
        ResourceKind::Plugin,
        p.id@,
        Some(installation_provenance_view(p.provenance)),
        plugin_labels(p, order),
    );
    lemma_extends_trans(d, d1, d2);
    if let Some((slot, _)) = p.slot {
        lemma_add_relation_extends(
            d2,
            RelationshipKind::Provides,
            id,
            "plugin-slot:"@ + slot@,
            Seq::empty(),
        );
        lemma_extends_trans(d, d2, plugin_step(d, p, order));
        lemma_kept_facts(d2, plugin_step(d, p, order), id, RelationshipKind::Provides, id, id);
    }
}

proof fn lemma_plugins_stage(d: DocumentView, ps: Seq<ResolvedPlugin>)
    ensures
        extends(d, plugins_stage(d, ps)),
        forall|k: int|
            0 <= k < ps.len() ==> has_resource_id(
                plugins_stage(d, ps).resources,
                "plugin:"@ + (#[trigger] ps[k]).id@,
            ),
    decreases ps.len(),
{
    if ps.len() > 0 {
        let prev = plugins_stage(d, ps.drop_last());
        let cur = plugins_stage(d, ps);
        lemma_plugins_stage(d, ps.drop_last());
        lemma_plugin_step_extends(prev, ps.last(), (ps.len() - 1) as nat);
        lemma_extends_trans(d, prev, cur);
        assert forall|k: int| 0 <= k < ps.len() implies has_resource_id(
            cur.resources,
            "plugin:"@ + (#[trigger] ps[k]).id@,
        ) by {
            if k < ps.len() - 1 {
                assert(ps.drop_last()[k] == ps[k]);
                lemma_kept_facts(prev, cur, "plugin:"@ + ps[k].id@, RelationshipKind::Contains, ps[k].id@, ps[k].id@);
            }
        }
    }
}

proof fn lemma_endpoint_step(d: DocumentView, t: RelationTarget)
    ensures
        extends(d, endpoint_step(d, t)),
        has_resource_id(endpoint_step(d, t).resources, relation_target_text(t)),
{
    match t {
        RelationTarget::Plugin(p) => {
            let id = "plugin:"@ + p@;
            if !has_resource_id(d.resources, id) {
                lemma_add_resource_extends(
                    d,
                    id,
                    ResourceKind::Plugin,
                    p@,
                    None,
                    seq![("effective"@, "false"@), ("decision"@, "relation-endpoint"@)],
                );
            }
        },
        RelationTarget::Slot(s) => lemma_slot_extends(d, s@),
    }
}

proof fn lemma_endpoints_of(d: DocumentView, rels: Seq<PluginRelation>)
    ensures
        extends(d, endpoints_of(d, rels)),
        forall|k: int|
            0 <= k < rels.len() ==> has_resource_id(
                endpoints_of(d, rels).resources,
                relation_target_text((#[trigger] rels[k]).target),
            ),
    decreases rels.len(),
{
    if rels.len() > 0 {
        let prev = endpoints_of(d, rels.drop_last());
        let cur = endpoints_of(d, rels);
        lemma_endpoints_of(d, rels.drop_last());
        lemma_endpoint_step(prev, rels.last().target);
        lemma_extends_trans(d, prev, cur);
        assert forall|k: int| 0 <= k < rels.len() implies has_resource_id(
            cur.resources,
            relation_target_text((#[trigger] rels[k]).target),
        ) by {
            if k < rels.len() - 1 {
                assert(rels.drop_last()[k] == rels[k]);
                let id = relation_target_text(rels[k].target);
                lemma_kept_facts(prev, cur, id, RelationshipKind::Contains, id, id);
            }
        }
    }
}

proof fn lemma_endpoints_stage(d: DocumentView, ps: Seq<ResolvedPlugin>)
    ensures
        extends(d, endpoints_stage(d, ps)),
        forall|k: int, j: int|
            0 <= k < ps.len() && 0 <= j < (#[trigger] ps[k]).relations@.len() ==> has_resource_id(
                endpoints_stage(d, ps).resources,
                relation_target_text((#[trigger] ps[k].relations@[j]).target),
            ),
    decreases ps.len(),
{
    if ps.len() > 0 {
        let prev = endpoints_stage(d, ps.drop_last());
        let cur = endpoints_stage(d, ps);
        lemma_endpoints_stage(d, ps.drop_last());
        lemma_endpoints_of(prev, ps.last().relations@);
        lemma_extends_trans(d, prev, cur);
        assert forall|k: int, j: int|
            0 <= k < ps.len() && 0 <= j < (#[trigger] ps[k]).relations@.len() implies has_resource_id(
            cur.resources,
            relation_target_text((#[trigger] ps[k].relations@[j]).target),
        ) by {
            let id = relation_target_text(ps[k].relations@[j].target);
            if k < ps.len() - 1 {
                assert(ps.drop_last()[k] == ps[k]);
                lemma_kept_facts(prev, cur, id, RelationshipKind::Contains, id, id);
            } else {
                assert(ps.last().relations@[j] == ps[k].relations@[j]);
            }
        }
    }
}

proof fn lemma_relations_of(d: DocumentView, id: Seq<char>, rels: Seq<PluginRelation>)
    ensures
        extends(d, relations_of(d, id, rels)),
        forall|k: int|
            0 <= k < rels.len() ==> has_edge(
                relations_of(d, id, rels).relationships,
                relationship_kind_of((#[trigger] rels[k]).kind),
                id,
                relation_target_text(rels[k].target),
            ),
    decreases rels.len(),
{
    if rels.len() > 0 {
        let r = rels.last();
        let prev = relations_of(d, id, rels.drop_last());
        let cur = relations_of(d, id, rels);
        lemma_relations_of(d, id, rels.drop_last());
        lemma_add_relation_extends(
            prev,
            relationship_kind_of(r.kind),
            id,
            relation_target_text(r.target),
            Seq::empty(),
        );
        lemma_extends_trans(d, prev, cur);
        assert forall|k: int| 0 <= k < rels.len() implies has_edge(
            cur.relationships,
            relationship_kind_of((#[trigger] rels[k]).kind),
            id,
            relation_target_text(rels[k].target),
        ) by {
            if k < rels.len() - 1 {
                assert(rels.drop_last()[k] == rels[k]);
                lemma_kept_facts(
                    prev,
                    cur,
                    id,
                    relationship_kind_of(rels[k].kind),
                    id,
                    relation_target_text(rels[k].target),
                );
            }
        }
    }
}

proof fn lemma_relations_stage(d: DocumentView, ps: Seq<ResolvedPlugin>)
    ensures
        extends(d, relations_stage(d, ps)),
        forall|k: int, j: int|
            0 <= k < ps.len() && 0 <= j < (#[trigger] ps[k]).relations@.len() ==> has_edge(
                relations_stage(d, ps).relationships,
                relationship_kind_of((#[trigger] ps[k].relations@[j]).kind),
                "plugin:"@ + ps[k].id@,
                relation_target_text(ps[k].relations@[j].target),
            ),
    decreases ps.len(),
{
    if ps.len() > 0 {
        let p = ps.last();
        let prev = relations_stage(d, ps.drop_last());
        let cur = relations_stage(d, ps);
        lemma_relations_stage(d, ps.drop_last());
        lemma_relations_of(prev, "plugin:"@ + p.id@, p.relations@);
        lemma_extends_trans(d, prev, cur);
        assert forall|k: int, j: int|
            0 <= k < ps.len() && 0 <= j < (#[trigger] ps[k]).relations@.len() implies has_edge(
            cur.relationships,
            relationship_kind_of((#[trigger] ps[k].relations@[j]).kind),
            "plugin:"@ + ps[k].id@,
            relation_target_text(ps[k].relations@[j].target),
        ) by {
            let rel = ps[k].relations@[j];
            if k < ps.len() - 1 {
                assert(ps.drop_last()[k] == ps[k]);
                lemma_kept_facts(
                    prev,
                    cur,
                    relation_target_text(rel.target),
                    relationship_kind_of(rel.kind),
                    "plugin:"@ + ps[k].id@,
                    relation_target_text(rel.target),
                );
            } else {
                assert(p.relations@[j] == rel);
            }
        }
    }
}

proof fn lemma_replacements_stage_extends(d: DocumentView, reps: Seq<SlotReplacement>)
    ensures
        extends(d, replacements_stage(d, reps)),
    decreases reps.len(),
{
    if reps.len() > 0 {
        let r = reps.last();
        let prev = replacements_stage(d, reps.drop_last());
        lemma_replacements_stage_extends(d, reps.drop_last());
        lemma_add_relation_extends(
            prev,
            RelationshipKind::Replaces,
            "plugin:"@ + r.replacement@,
            "plugin:"@ + r.replaced@,
            seq![("slot"@, r.slot@)],
        );
        lemma_extends_trans(d, prev, replacements_stage(d, reps));
    }
}

proof fn lemma_suppressions_stage_extends(d: DocumentView, sups: Seq<SlotSuppression>)
    ensures
        extends(d, suppressions_stage(d, sups)),
    decreases sups.len(),
{
    if sups.len() > 0 {
        let s = sups.last();
        let prev = suppressions_stage(d, sups.drop_last());
        lemma_suppressions_stage_extends(d, sups.drop_last());
        lemma_add_relation_extends(
            prev,
            RelationshipKind::Suppresses,
            suppression_text(s.slot@),
            "plugin:"@ + s.suppressed@,
            Seq::empty(),
        );
        lemma_extends_trans(d, prev, suppressions_stage(d, sups));
    }
}

proof fn lemma_contribution_step_extends(d: DocumentView, c: ReconciledContribution, index: nat)
    ensures
        extends(d, contribution_step(d, c, index)),
{
    let id = contribution_text(c.provenance);
    let prov = ProvenanceView {
        owner: Some(contributor_text(c.provenance.contributor)),
        origin: Some("contribution"@),
        ordinal: None,
    };
    let d1 = add_resource(
        d,
        id,
        ResourceKind::Contribution,
        c.provenance.contribution@,
        Some(prov),
        contribution_labels(c, index),
    );
    lemma_add_resource_extends(
        d,
        id,
        ResourceKind::Contribution,
        c.provenance.contribution@,
        Some(prov),
        contribution_labels(c, index),
    );
    let d2 = add_relation(
        d1,
        RelationshipKind::Contributes,
        contributor_text(c.provenance.contributor),
        id,
        Seq::empty(),
    );
    lemma_add_relation_extends(
        d1,
        RelationshipKind::Contributes,
        contributor_text(c.provenance.contributor),
        id,
        Seq::empty(),
    );
    lemma_extends_trans(d, d1, d2);
    if let Some(t) = c.applied {
        if c.decision@ == "applied"@ {
            lemma_add_relation_extends(
                d2,
                RelationshipKind::Contributes,
                id,
                t@,
                seq![("decision"@, c.decision@)],
            );
            lemma_extends_trans(d, d2, contribution_step(d, c, index));
        }
    }
}

proof fn lemma_contributions_stage_extends(d: DocumentView, cs: Seq<ReconciledContribution>)
    ensures
        extends(d, contributions_stage(d, cs)),
    decreases cs.len(),
{
    if cs.len() > 0 {
        let prev = contributions_stage(d, cs.drop_last());
        lemma_contributions_stage_extends(d, cs.drop_last());
        lemma_contribution_step_extends(prev, cs.last(), (cs.len() - 1) as nat);
        lemma_extends_trans(d, prev, contributions_stage(d, cs));
    }
}

/// Projecting the plugin plan drops no relation endpoint: after it, every effective plugin has
/// its resource, and for every relation of every effective plugin the target (another plugin
/// or a slot) has a resource and a relationship of the relation's kind joins the plugin to it.
/// Nothing that was in the document before is dropped or rewired.
pub proof fn law_plugin_relations_keep_their_endpoints(
    d: DocumentView,
    plan: PluginResolution,
    p: int,
    r: int,
)
    requires
        0 <= p < plan.plugins@.len(),
        0 <= r < plan.plugins@[p].relations@.len(),
    ensures
        extends(d, plugins_projected(d, plan)),
        has_resource_id(plugins_projected(d, plan).resources, "plugin:"@ + plan.plugins@[p].id@),
        has_resource_id(
            plugins_projected(d, plan).resources,
            relation_target_text(plan.plugins@[p].relations@[r].target),
        ),
        has_edge(
            plugins_projected(d, plan).relationships,
            relationship_kind_of(plan.plugins@[p].relations@[r].kind),
            "plugin:"@ + plan.plugins@[p].id@,
            relation_target_text(plan.plugins@[p].relations@[r].target),
        ),
{
    let ps = plan.plugins@;
    let rel = ps[p].relations@[r];
    let id = "plugin:"@ + ps[p].id@;
    let target = relation_target_text(rel.target);
    let kind = relationship_kind_of(rel.kind);
    let d1 = replaced_stage(d, plan.replacements@);
    let d2 = suppressed_stage(d1, plan.suppressions@);
    let d3 = plugins_stage(d2, ps);
    let d4 = endpoints_stage(d3, ps);
    let d5 = relations_stage(d4, ps);
    let d6 = replacements_stage(d5, plan.replacements@);
    let d7 = suppressions_stage(d6, plan.suppressions@);
    let d8 = contributions_stage(d7, plan.contributions@);
    lemma_replaced_stage_extends(d, plan.replacements@);
    lemma_suppressed_stage_extends(d1, plan.suppressions@);
    lemma_plugins_stage(d2, ps);
    lemma_endpoints_stage(d3, ps);
    lemma_relations_stage(d4, ps);
    lemma_replacements_stage_extends(d5, plan.replacements@);
    lemma_suppressions_stage_extends(d6, plan.suppressions@);
    lemma_contributions_stage_extends(d7, plan.contributions@);
    lemma_extends_trans(d5, d6, d7);
    lemma_extends_trans(d5, d7, d8);
    lemma_extends_trans(d4, d5, d8);
    lemma_extends_trans(d3, d4, d8);
    lemma_extends_trans(d2, d3, d8);
    lemma_extends_trans(d1, d2, d8);
    lemma_extends_trans(d, d1, d8);
    assert(has_resource_id(d4.resources, target));
    assert(has_resource_id(d3.resources, id));
    assert(has_edge(d5.relationships, kind, id, target));
    lemma_kept_facts(d3, d8, id, kind, id, target);
    lemma_kept_facts(d4, d8, target, kind, id, target);
    lemma_kept_facts(d5, d8, target, kind, id, target);
}

// ---------------------------------------------------------------------------------------------
// Label helpers
// ---------------------------------------------------------------------------------------------

proof fn lemma_relation_label_keys()
    ensures
        !ends_with_values("role"@) && "role"@ != decisions_key(),
        !ends_with_values("slot"@) && "slot"@ != decisions_key(),
        !ends_with_values("decision"@) && "decision"@ != decisions_key(),
{
    reveal_strlit("role");
    reveal_strlit("slot");
    reveal_strlit("decision");
    reveal_strlit("-values");
    reveal_strlit("dependency-decisions");
    assert("decision"@.skip(1)[0] != "-values"@[0]);
}

proof fn lemma_one_label_ok(k: Seq<char>, v: Seq<char>)
    requires
        !ends_with_values(k),
        k != decisions_key(),
    ensures
        label_input_ok(labels_from(seq![(k, v)])),
{
    let p = seq![(k, v)];
    assert(p.drop_last() =~= Seq::<(Seq<char>, Seq<char>)>::empty());
    assert(labels_from(p.drop_last()) == Seq::<(Seq<char>, LabelView)>::empty());
    assert(put(Seq::<(Seq<char>, LabelView)>::empty(), k, LabelView::Text(v)) == seq![(k, LabelView::Text(v))]);
    assert(labels_from(p) =~= seq![(k, LabelView::Text(v))]);
}

proof fn lemma_no_labels_ok()
    ensures
        label_input_ok(labels_from(Seq::<(Seq<char>, Seq<char>)>::empty())),
{
}

fn one_label(k: &str, v: &str) -> (r: Labels)
    ensures
        r@ == labels_from(seq![(k@, v@)]),
{
    let mut pairs: Vec<(String, String)> = Vec::new();
    pairs.push((owned(k), owned(v)));
    proof {
        assert(pair_views(pairs@) =~= seq![(k@, v@)]);
    }
    Labels::from_pairs(pairs)
}

fn two_labels(k1: &str, v1: &str, k2: &str, v2: &str) -> (r: Labels)
    ensures
        r@ == labels_from(seq![(k1@, v1@), (k2@, v2@)]),
{
    let mut pairs: Vec<(String, String)> = Vec::new();
    pairs.push((owned(k1), owned(v1)));
    pairs.push((owned(k2), owned(v2)));
    proof {
        assert(pair_views(pairs@) =~= seq![(k1@, v1@), (k2@, v2@)]);
    }
    Labels::from_pairs(pairs)
}

fn no_labels() -> (r: Labels)
    ensures
        r@ == labels_from(Seq::<(Seq<char>, Seq<char>)>::empty()),
{
    Labels::new()
}

// ---------------------------------------------------------------------------------------------
// Projecting the plan
// ---------------------------------------------------------------------------------------------

impl Projection {
    /// Records a plugin slot resource, unless one is already there.
    pub fn plugin_slot_resource(&mut self, slot: &str)
        ensures
            final(self)@ == slot_projected(old(self)@, slot@),
    {
        let id = plugin_slot_id(slot);
        if self.has_resource(id.as_str()) {
            return;
        }
        let labels = one_label("slot-id", slot);
        self.resource(id.as_str(), ResourceKind::PluginSlot, slot, None, labels);
    }

    /// Records a plugin that is installed but not in effect, unless a resource with its
    /// identity is already there.
    pub fn inactive_plugin_resource(
        &mut self,
        id: &str,
        name: &str,
        provenance: &InstallationProvenance,
        decision: &str,
    )
        ensures
            final(self)@ == inactive_plugin(
                old(self)@,
                id@,
                name@,
                installation_provenance_view(*provenance),
                decision@,
            ),
    {
        if self.has_resource(id) {
            return;
        }
        let labels = two_labels("effective", "false", "decision", decision);
        self.resource(
            id,
            ResourceKind::Plugin,
            name,
            Some(installation_provenance(provenance)),
            labels,
        );
    }

    fn relate_plain(&mut self, kind: RelationshipKind, from: &str, to: &str)
        requires
            relationships_ready(old(self)@.relationships),
        ensures
            final(self)@ == add_relation(old(self)@, kind, from@, to@, Seq::empty()),
            relationships_ready(final(self)@.relationships),
    {
        proof {
            lemma_no_labels_ok();
        }
        self.relationship(kind, from, to, no_labels());
    }

    fn project_replaced(&mut self, reps: &Vec<SlotReplacement>)
        requires
            relationships_ready(old(self)@.relationships),
        ensures
            final(self)@ == replaced_stage(old(self)@, reps@),
            relationships_ready(final(self)@.relationships),
    {
        let ghost d0 = self@;
        let mut i: usize = 0;
        proof {
            assert(reps@.take(0) =~= Seq::<SlotReplacement>::empty());
        }
        while i < reps.len()
            invariant
                i <= reps@.len(),
                self@ == replaced_stage(d0, reps@.take(i as int)),
                relationships_ready(self@.relationships),
            decreases reps@.len() - i,
        {
            let r = &reps[i];
            proof {
                assert(reps@.take(i + 1).drop_last() =~= reps@.take(i as int));
                assert(reps@.take(i + 1).last() == reps@[i as int]);
            }
            let id = plugin_id(r.replaced.as_str());
            self.inactive_plugin_resource(
                id.as_str(),
                r.replaced.as_str(),
                &r.replaced_provenance,
                "replaced",
            );
            i = i + 1;
        }
        proof {
            assert(reps@.take(reps@.len() as int) =~= reps@);
        }
    }

    fn project_suppression(&mut self, s: &SlotSuppression)
        requires
            relationships_ready(old(self)@.relationships),
        ensures
            final(self)@ == suppression_step(old(self)@, *s),
            relationships_ready(final(self)@.relationships),
    {
        let decision = concat("suppression:", s.slot.as_str());
        self.plugin_slot_resource(s.slot.as_str());
        let suppressed = plugin_id(s.suppressed.as_str());
        self.inactive_plugin_resource(
            suppressed.as_str(),
            s.suppressed.as_str(),
            &s.suppressed_provenance,
            "suppressed",
        );
        let labels = one_label("slot", s.slot.as_str());
        self.resource(
            decision.as_str(),
            ResourceKind::Contribution,
            s.slot.as_str(),
            Some(installation_provenance(&s.provenance)),
            labels,
        );
        let slot = plugin_slot_id(s.slot.as_str());
        let role = one_label("role", "suppressed-slot");
        proof {
            lemma_relation_label_keys();
            lemma_one_label_ok("role"@, "suppressed-slot"@);
        }
        self.relationship(RelationshipKind::DependsOn, decision.as_str(), slot.as_str(), role);
    }

    fn project_suppressed(&mut self, sups: &Vec<SlotSuppression>)
        requires
            relationships_ready(old(self)@.relationships),
        ensures
            final(self)@ == suppressed_stage(old(self)@, sups@),
            relationships_ready(final(self)@.relationships),
    {
        let ghost d0 = self@;
        let mut i: usize = 0;
        proof {
            assert(sups@.take(0) =~= Seq::<SlotSuppression>::empty());
        }
        while i < sups.len()
            invariant
                i <= sups@.len(),
                self@ == suppressed_stage(d0, sups@.take(i as int)),
                relationships_ready(self@.relationships),
            decreases sups@.len() - i,
        {
            proof {
                assert(sups@.take(i + 1).drop_last() =~= sups@.take(i as int));
                assert(sups@.take(i + 1).last() == sups@[i as int]);
            }
            self.project_suppression(&sups[i]);
            i = i + 1;
        }
        proof {
            assert(sups@.take(sups@.len() as int) =~= sups@);
        }
    }

    fn project_plugin(&mut self, p: &ResolvedPlugin, order: usize)
        requires
            relationships_ready(old(self)@.relationships),
        ensures
            final(self)@ == plugin_step(old(self)@, *p, order as nat),
            relationships_ready(final(self)@.relationships),
    {
        let id = plugin_id(p.id.as_str());
        let mut pairs: Vec<(String, String)> = Vec::new();
        pairs.push((owned("phase"), owned(phase_name(p.phase))));
        pairs.push((owned("plugin-id"), owned(p.id.as_str())));
        pairs.push((owned("resolution-order"), decimal_string(order as u64)));
        pairs.push((owned("effective"), owned("true")));
        let ghost base = pair_views(pairs@);
        match &p.slot {
            Some((slot, policy)) => {
                self.plugin_slot_resource(slot.as_str());
                pairs.push((owned("slot"), owned(slot.as_str())));
                pairs.push((owned("slot-policy"), owned(slot_policy_name(*policy))));
                proof {
                    assert(pair_views(pairs@) =~= plugin_labels(*p, order as nat));
                }
            },
            None => {
                proof {
                    assert(pair_views(pairs@) =~= plugin_labels(*p, order as nat));
                }
            },
        }
        let labels = Labels::from_pairs(pairs);
        self.resource(
            id.as_str(),
            ResourceKind::Plugin,
            p.id.as_str(),
            Some(installation_provenance(&p.provenance)),
            labels,
        );
        if let Some((slot, _)) = &p.slot {
            let target = plugin_slot_id(slot.as_str());
            self.relate_plain(RelationshipKind::Provides, id.as_str(), target.as_str());
        }
    }

    fn project_effective_plugins(&mut self, ps: &Vec<ResolvedPlugin>)
        requires
            relationships_ready(old(self)@.relationships),
        ensures
            final(self)@ == plugins_stage(old(self)@, ps@),
            relationships_ready(final(self)@.relationships),
    {
        let ghost d0 = self@;
        let mut i: usize = 0;
        proof {
            assert(ps@.take(0) =~= Seq::<ResolvedPlugin>::empty());
        }
        while i < ps.len()
            invariant
                i <= ps@.len(),
                self@ == plugins_stage(d0, ps@.take(i as int)),
                relationships_ready(self@.relationships),
            decreases ps@.len() - i,
        {
            proof {
                assert(ps@.take(i + 1).drop_last() =~= ps@.take(i as int));
                assert(ps@.take(i + 1).last() == ps@[i as int]);
            }
            self.project_plugin(&ps[i], i);
            i = i + 1;
        }
        proof {
            assert(ps@.take(ps@.len() as int) =~= ps@);
        }
    }

    fn project_endpoint(&mut self, t: &RelationTarget)
        requires
            relationships_ready(old(self)@.relationships),
        ensures
            final(self)@ == endpoint_step(old(self)@, *t),
            relationships_ready(final(self)@.relationships),
    {
        match t {
            RelationTarget::Plugin(p) => {
                let id = plugin_id(p.as_str());
                if !self.has_resource(id.as_str()) {
                    let labels = two_labels("effective", "false", "decision", "relation-endpoint");
                    self.resource(id.as_str(), ResourceKind::Plugin, p.as_str(), None, labels);
                }
            },
            RelationTarget::Slot(s) => self.plugin_slot_resource(s.as_str()),
        }
    }

    fn project_endpoints(&mut self, ps: &Vec<ResolvedPlugin>)
        requires
            relationships_ready(old(self)@.relationships),
        ensures
            final(self)@ == endpoints_stage(old(self)@, ps@),
            relationships_ready(final(self)@.relationships),
    {
        let ghost d0 = self@;
        let mut i: usize = 0;
        proof {
            assert(ps@.take(0) =~= Seq::<ResolvedPlugin>::empty());
        }
        while i < ps.len()
            invariant
                i <= ps@.len(),
                self@ == endpoints_stage(d0, ps@.take(i as int)),
                relationships_ready(self@.relationships),
            decreases ps@.len() - i,
        {
            proof {
                assert(ps@.take(i + 1).drop_last() =~= ps@.take(i as int));
                assert(ps@.take(i + 1).last() == ps@[i as int]);
            }
            let rels = &ps[i].relations;
            let ghost d1 = self@;
            let mut j: usize = 0;
            proof {
                assert(rels@.take(0) =~= Seq::<PluginRelation>::empty());
            }
            while j < rels.len()
                invariant
                    j <= rels@.len(),
                    self@ == endpoints_of(d1, rels@.take(j as int)),
                    relationships_ready(self@.relationships),
                decreases rels@.len() - j,
            {
                proof {
                    assert(rels@.take(j + 1).drop_last() =~= rels@.take(j as int));
                    assert(rels@.take(j + 1).last() == rels@[j as int]);
                }
                self.project_endpoint(&rels[j].target);
                j = j + 1;
            }
            proof {
                assert(rels@.take(rels@.len() as int) =~= rels@);
            }
            i = i + 1;
        }
        proof {
            assert(ps@.take(ps@.len() as int) =~= ps@);
        }
    }

    fn project_relations(&mut self, ps: &Vec<ResolvedPlugin>)
        requires
            relationships_ready(old(self)@.relationships),
        ensures
            final(self)@ == relations_stage(old(self)@, ps@),
            relationships_ready(final(self)@.relationships),
    {
        let ghost d0 = self@;
        let mut i: usize = 0;
        proof {
            assert(ps@.take(0) =~= Seq::<ResolvedPlugin>::empty());
        }
        while i < ps.len()
            invariant
                i <= ps@.len(),
                self@ == relations_stage(d0, ps@.take(i as int)),
                relationships_ready(self@.relationships),
            decreases ps@.len() - i,
        {
            proof {
                assert(ps@.take(i + 1).drop_last() =~= ps@.take(i as int));
                assert(ps@.take(i + 1).last() == ps@[i as int]);
            }
            let id = plugin_id(ps[i].id.as_str());
            let rels = &ps[i].relations;
            let ghost d1 = self@;
            let mut j: usize = 0;
            proof {
                assert(rels@.take(0) =~= Seq::<PluginRelation>::empty());
            }
            while j < rels.len()
                invariant
                    j <= rels@.len(),
                    self@ == relations_of(d1, id@, rels@.take(j as int)),
                    relationships_ready(self@.relationships),
                decreases rels@.len() - j,
            {
                proof {
                    assert(rels@.take(j + 1).drop_last() =~= rels@.take(j as int));
                    assert(rels@.take(j + 1).last() == rels@[j as int]);
                }
                let target = relation_target_resource(&rels[j].target);
                let kind = match rels[j].kind {
                    RelationKind::Requires => RelationshipKind::DependsOn,
                    RelationKind::Before => RelationshipKind::OrdersBefore,
                    RelationKind::After => RelationshipKind::OrdersAfter,
                    RelationKind::Conflicts => RelationshipKind::Conflicts,
                };
                self.relate_plain(kind, id.as_str(), target.as_str());
                j = j + 1;
            }
            proof {
                assert(rels@.take(rels@.len() as int) =~= rels@);
            }
            i = i + 1;
        }
        proof {
            assert(ps@.take(ps@.len() as int) =~= ps@);
        }
    }

    fn project_replacements(&mut self, reps: &Vec<SlotReplacement>)
        requires
            relationships_ready(old(self)@.relationships),
        ensures
            final(self)@ == replacements_stage(old(self)@, reps@),
            relationships_ready(final(self)@.relationships),
    {
        let ghost d0 = self@;
        let mut i: usize = 0;
        proof {
            assert(reps@.take(0) =~= Seq::<SlotReplacement>::empty());
            lemma_relation_label_keys();
        }
        while i < reps.len()
            invariant
                i <= reps@.len(),
                self@ == replacements_stage(d0, reps@.take(i as int)),
                relationships_ready(self@.relationships),
                !ends_with_values("slot"@) && "slot"@ != decisions_key(),
            decreases reps@.len() - i,
        {
            let r = &reps[i];
            proof {
                assert(reps@.take(i + 1).drop_last() =~= reps@.take(i as int));
                assert(reps@.take(i + 1).last() == reps@[i as int]);
                lemma_one_label_ok("slot"@, r.slot@);
            }
            let from = plugin_id(r.replacement.as_str());
            let to = plugin_id(r.replaced.as_str());
            let labels = one_label("slot", r.slot.as_str());
            self.relationship(RelationshipKind::Replaces, from.as_str(), to.as_str(), labels);
            i = i + 1;
        }
        proof {
            assert(reps@.take(reps@.len() as int) =~= reps@);
        }
    }

    fn project_suppressions(&mut self, sups: &Vec<SlotSuppression>)
        requires
            relationships_ready(old(self)@.relationships),
        ensures
            final(self)@ == suppressions_stage(old(self)@, sups@),
            relationships_ready(final(self)@.relationships),
    {
        let ghost d0 = self@;
        let mut i: usize = 0;
        proof {
            assert(sups@.take(0) =~= Seq::<SlotSuppression>::empty());
        }
        while i < sups.len()
            invariant
                i <= sups@.len(),
                self@ == suppressions_stage(d0, sups@.take(i as int)),
                relationships_ready(self@.relationships),
            decreases sups@.len() - i,
        {
            proof {
                assert(sups@.take(i + 1).drop_last() =~= sups@.take(i as int));
                assert(sups@.take(i + 1).last() == sups@[i as int]);
            }
            let decision = concat("suppression:", sups[i].slot.as_str());
            let suppressed = plugin_id(sups[i].suppressed.as_str());
            self.relate_plain(RelationshipKind::Suppresses, decision.as_str(), suppressed.as_str());
            i = i + 1;
        }
        proof {
            assert(sups@.take(sups@.len() as int) =~= sups@);
        }
    }

    fn project_contribution(&mut self, c: &ReconciledContribution, index: usize)
        requires
            relationships_ready(old(self)@.relationships),
        ensures
            final(self)@ == contribution_step(old(self)@, *c, index as nat),
            relationships_ready(final(self)@.relationships),
    {
        let id = contribution_id(&c.provenance);
        let contributor = contributor_id(&c.provenance.contributor);
        let applied_decision = text_eq(c.decision.as_str(), "applied");
        let mut pairs: Vec<(String, String)> = Vec::new();
        pairs.push((owned("contribution-kind"), owned(contribution_kind_name(c.kind))));
        pairs.push((owned("decision"), owned(c.decision.as_str())));
        pairs.push((owned("emission-index"), decimal_string(index as u64)));
        pairs.push((owned("requested-target"), owned(c.requested.as_str())));
        if let Some(target) = &c.applied {
            let label = if applied_decision {
                "applied-target"
            } else {
                "effective-target"
            };
            pairs.push((owned(label), owned(target.as_str())));
        }
        proof {
            assert(pair_views(pairs@) =~= contribution_labels(*c, index as nat));
        }
        let labels = Labels::from_pairs(pairs);
        self.resource(
            id.as_str(),
            ResourceKind::Contribution,
            c.provenance.contribution.as_str(),
            Some(contribution_provenance(&c.provenance)),
            labels,
        );
        self.relate_plain(RelationshipKind::Contributes, contributor.as_str(), id.as_str());
        if applied_decision {
            if let Some(target) = &c.applied {
                let labels = one_label("decision", c.decision.as_str());
                proof {
                    lemma_relation_label_keys();
                    lemma_one_label_ok("decision"@, c.decision@);
                }
                self.relationship(RelationshipKind::Contributes, id.as_str(), target.as_str(), labels);
            }
        }
    }

    fn project_contributions(&mut self, cs: &Vec<ReconciledContribution>)
        requires
            relationships_ready(old(self)@.relationships),
        ensures
            final(self)@ == contributions_stage(old(self)@, cs@),
            relationships_ready(final(self)@.relationships),
    {
        let ghost d0 = self@;
        let mut i: usize = 0;
        proof {
            assert(cs@.take(0) =~= Seq::<ReconciledContribution>::empty());
        }
        while i < cs.len()
            invariant
                i <= cs@.len(),
                self@ == contributions_stage(d0, cs@.take(i as int)),
                relationships_ready(self@.relationships),
            decreases cs@.len() - i,
        {
            proof {
                assert(cs@.take(i + 1).drop_last() =~= cs@.take(i as int));
                assert(cs@.take(i + 1).last() == cs@[i as int]);
            }
            self.project_contribution(&cs[i], i);
            i = i + 1;
        }
        proof {
            assert(cs@.take(cs@.len() as int) =~= cs@);
        }
    }

    /// Projects the plugin plan: replaced and suppressed plugins as inactive plugins, each
    /// suppression's decision and slot, every effective plugin with its resolution order and
    /// slot, every relation endpoint and relation, each replacement and suppression, and each
    /// reconciled contribution with its decision.
    pub fn project_plugins(&mut self, plan: &PluginResolution)
        requires
            relationships_ready(old(self)@.relationships),
        ensures
            final(self)@ == plugins_projected(old(self)@, *plan),
            relationships_ready(final(self)@.relationships),
    {
        self.project_replaced(&plan.replacements);
        self.project_suppressed(&plan.suppressions);
        self.project_effective_plugins(&plan.plugins);
        self.project_endpoints(&plan.plugins);
        self.project_relations(&plan.plugins);
        self.project_replacements(&plan.replacements);
        self.project_suppressions(&plan.suppressions);
        self.project_contributions(&plan.contributions);
    }
}



// ---------------------------------------------------------------------------------------------
// Command-line providers
// ---------------------------------------------------------------------------------------------

/// One command-line provider of the parser metadata.
pub struct CliProvider {
    pub id: String,
    pub kind: CliProviderKind,
    /// The contributor's resource identity.
    pub contributor: String,
    pub contribution: String,
}

/// The label text of a command-line provider kind.
pub open spec fn cli_kind_text(k: CliProviderKind) -> Seq<char> {
    match k {
        CliProviderKind::Args => "args"@,
        CliProviderKind::Command => "command"@,
        CliProviderKind::CommandSet => "command-set"@,
        CliProviderKind::Other => "unknown"@,
    }
}

/// The identity of a command-line provider's contribution resource.
pub open spec fn cli_contribution_text(p: CliProvider) -> Seq<char> {
    "contribution:"@ + p.contributor@ + ":"@ + p.contribution@
}

/// One command-line provider: its contribution resource (unless already there) and its
/// contributor's relationship to it.
pub open spec fn cli_provider_projected(d: DocumentView, p: CliProvider) -> DocumentView {
    let id = cli_contribution_text(p);
    let d1 = if has_resource_id(d.resources, id) {
        d
    } else {
        add_resource(
            d,
            id,
            ResourceKind::Contribution,
            p.contribution@,
            Some(ProvenanceView { owner: Some(p.contributor@), origin: Some("cli-provider"@), ordinal: None }),
            seq![("provider-id"@, p.id@), ("provider-kind"@, cli_kind_text(p.kind))],
        )
    };
    add_relation(d1, RelationshipKind::Contributes, p.contributor@, id, Seq::empty())
}

/// Every command-line provider, in turn.
pub open spec fn cli_projected(d: DocumentView, ps: Seq<CliProvider>) -> DocumentView
    decreases ps.len(),
{
    if ps.len() == 0 {
        d
    } else {
        cli_provider_projected(cli_projected(d, ps.drop_last()), ps.last())
    }
}

impl Projection {
    /// Projects the command-line providers of the parser metadata: each provider's
    /// contribution resource, unless already projected, and its contributor's relationship
    /// to it.
    pub fn project_cli(&mut self, providers: &Vec<CliProvider>)
        requires
            relationships_ready(old(self)@.relationships),
        ensures
            final(self)@ == cli_projected(old(self)@, providers@),
            relationships_ready(final(self)@.relationships),
    {
        let ghost d0 = self@;
        let mut i: usize = 0;
        proof {
            assert(providers@.take(0) =~= Seq::<CliProvider>::empty());
        }
        while i < providers.len()
            invariant
                i <= providers@.len(),
                self@ == cli_projected(d0, providers@.take(i as int)),
                relationships_ready(self@.relationships),
            decreases providers@.len() - i,
        {
            proof {
                assert(providers@.take(i + 1).drop_last() =~= providers@.take(i as int));
                assert(providers@.take(i + 1).last() == providers@[i as int]);
            }
            let p = &providers[i];
            let mut id = crate::text::concat3("contribution:", p.contributor.as_str(), ":");
            id.append(p.contribution.as_str());
            if !self.has_resource(id.as_str()) {
                let mut pairs: Vec<(String, String)> = Vec::new();
                pairs.push((owned("provider-id"), owned(p.id.as_str())));
                pairs.push((owned("provider-kind"), owned(cli_provider_kind_name(p.kind))));
                proof {
                    assert(pair_views(pairs@) =~= seq![("provider-id"@, p.id@), ("provider-kind"@, cli_kind_text(p.kind))]);
                }
                self.resource(
                    id.as_str(),
                    ResourceKind::Contribution,
                    p.contribution.as_str(),
                    Some(crate::resource_ids::Provenance {
                        owner: Some(owned(p.contributor.as_str())),
                        origin: Some(owned("cli-provider")),
                        ordinal: None,
                    }),
                    Labels::from_pairs(pairs),
                );
            }
            self.relate_plain(RelationshipKind::Contributes, p.contributor.as_str(), id.as_str());
            i = i + 1;
        }
        proof {
            assert(providers@.take(providers@.len() as int) =~= providers@);
        }
    }
}

} // verus!
