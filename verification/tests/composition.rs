use overseerd_tooling::composition::{
    PluginRelation, PluginResolution, ReconciledContribution, RelationKind, ResolvedPlugin,
    SlotReplacement, SlotSuppression,
};
use overseerd_tooling::contribution::{
    ContributedFacet, ContributedRelationship, ContributedResource, Facet, ResourceDisplay,
    ToolingContributionError, ToolingContributionSet, ToolingRelationshipKind,
};
use overseerd_tooling::labels::{LabelValue, Labels};
use overseerd_tooling::projection::{
    Projection, Relationship, RelationshipKind, Resource, ResourceKind,
};
use overseerd_tooling::resource_ids::{
    CompositionPhase, ContributionProvenance, Contributor, InstallationOrigin,
    InstallationProvenance, PluginContributionKind, Provenance, RelationTarget, SlotPolicy,
};

fn declared(ordinal: u32) -> InstallationProvenance {
    InstallationProvenance { origin: InstallationOrigin::ApplicationDeclaration, ordinal }
}

fn label(resource: &Resource, key: &str) -> Option<String> {
    match resource.labels.get(key) {
        Some(LabelValue::Text(t)) => Some(t.clone()),
        Some(other) => panic!("label {key} is not text: {other:?}"),
        None => None,
    }
}

fn find<'a>(document: &'a Projection, id: &str) -> &'a Resource {
    document
        .resources()
        .iter()
        .find(|resource| resource.id == id)
        .unwrap_or_else(|| panic!("resource {id} exists"))
}

fn related(document: &Projection, kind: RelationshipKind, from: &str, to: &str) -> Option<Relationship> {
    document
        .relationships()
        .iter()
        .find(|r| r.kind == kind && r.from == from && r.to == to)
        .map(|r| Relationship {
            kind: r.kind,
            from: r.from.clone(),
            to: r.to.clone(),
            labels: r.labels.clone(),
        })
}

fn plugin(id: &str, relations: Vec<PluginRelation>) -> ResolvedPlugin {
    ResolvedPlugin {
        id: id.to_string(),
        phase: CompositionPhase::Late,
        provenance: declared(0),
        slot: None,
        relations,
    }
}

fn empty_plan() -> PluginResolution {
    PluginResolution {
        plugins: Vec::new(),
        replacements: Vec::new(),
        suppressions: Vec::new(),
        contributions: Vec::new(),
    }
}

#[test]
fn plugin_relations_and_owner_qualified_facets_project_without_dropped_endpoints() {
    let mut plan = empty_plan();

    plan.plugins.push(plugin(
        "test/relation-plugin",
        vec![
            PluginRelation {
                kind: RelationKind::Before,
                target: RelationTarget::Plugin(String::from("test/absent-plugin")),
            },
            PluginRelation {
                kind: RelationKind::Conflicts,
                target: RelationTarget::Slot(String::from("test/absent-slot")),
            },
        ],
    ));
    plan.plugins.push(plugin("test/alternate-facet", Vec::new()));

    let mut document = Projection::new();

    document.project_plugins(&plan);

    for (owner, route) in [
        ("plugin:test/relation-plugin", "/health"),
        ("plugin:test/alternate-facet", "/alternate"),
    ] {
        let contributions = ToolingContributionSet {
            owner: owner.to_string(),
            owner_display: None,
            resources: if owner == "plugin:test/relation-plugin" {
                vec![ContributedResource {
                    id: format!("{owner}/tooling/router"),
                    name: String::from("Router"),
                    owner: owner.to_string(),
                    origin: String::from("tooling-contribution"),
                    labels: Vec::new(),
                }]
            } else {
                Vec::new()
            },
            relationships: if owner == "plugin:test/relation-plugin" {
                vec![ContributedRelationship {
                    kind: ToolingRelationshipKind::Contains,
                    from: owner.to_string(),
                    to: format!("{owner}/tooling/router"),
                    labels: Vec::new(),
                }]
            } else {
                Vec::new()
            },
            facets: vec![ContributedFacet {
                target: owner.to_string(),
                id: format!("{owner}/tooling/routes"),
                facet: Facet { schema_version: 1, value: format!("\"{route}\"") },
            }],
            resource_displays: Vec::new(),
        };

        document
            .merge_tooling_contributions(&contributions)
            .expect("contributions merge");
    }

    let relation_plugin = find(&document, "plugin:test/relation-plugin");

    assert!(relation_plugin
        .facets
        .iter()
        .any(|facet| facet.0 == "plugin:test/relation-plugin/tooling/routes"));
    assert!(find(&document, "plugin:test/alternate-facet")
        .facets
        .iter()
        .any(|facet| facet.0 == "plugin:test/alternate-facet/tooling/routes"));
    assert_eq!(
        label(find(&document, "plugin:test/absent-plugin"), "decision").as_deref(),
        Some("relation-endpoint")
    );
    find(&document, "plugin-slot:test/absent-slot");
    assert!(related(
        &document,
        RelationshipKind::OrdersBefore,
        "plugin:test/relation-plugin",
        "plugin:test/absent-plugin"
    )
    .is_some());
    assert!(related(
        &document,
        RelationshipKind::Conflicts,
        "plugin:test/relation-plugin",
        "plugin-slot:test/absent-slot"
    )
    .is_some());
    assert!(related(
        &document,
        RelationshipKind::Contains,
        "plugin:test/relation-plugin",
        "plugin:test/relation-plugin/tooling/router"
    )
    .is_some());
}

#[test]
fn replacement_and_suppression_decisions_project_explicitly() {
    let mut replacement_plan = empty_plan();

    replacement_plan.plugins.push(ResolvedPlugin {
        id: String::from("test/projection-replacement"),
        phase: CompositionPhase::Early,
        provenance: declared(0),
        slot: Some((String::from("test/projection-slot"), SlotPolicy::Replaceable)),
        relations: Vec::new(),
    });
    replacement_plan.replacements.push(SlotReplacement {
        slot: String::from("test/projection-slot"),
        replaced: String::from("test/projection-default"),
        replacement: String::from("test/projection-replacement"),
        replaced_provenance: InstallationProvenance {
            origin: InstallationOrigin::ProtocolDefault(String::from("test/protocol")),
            ordinal: 0,
        },
    });

    let mut replacement = Projection::new();

    replacement.project_plugins(&replacement_plan);

    let mut suppression_plan = empty_plan();

    suppression_plan.suppressions.push(SlotSuppression {
        slot: String::from("test/projection-slot"),
        suppressed: String::from("test/projection-default"),
        suppressed_provenance: InstallationProvenance {
            origin: InstallationOrigin::ProtocolDefault(String::from("test/protocol")),
            ordinal: 0,
        },
        provenance: declared(1),
    });

    let mut suppression = Projection::new();

    suppression.project_plugins(&suppression_plan);

    let replaces = related(
        &replacement,
        RelationshipKind::Replaces,
        "plugin:test/projection-replacement",
        "plugin:test/projection-default",
    )
    .expect("replacement relationship exists");

    assert_eq!(replaces.labels.get("slot"), Some(&LabelValue::Text(String::from("test/projection-slot"))));
    assert!(related(
        &suppression,
        RelationshipKind::Suppresses,
        "suppression:test/projection-slot",
        "plugin:test/projection-default"
    )
    .is_some());
    assert_eq!(
        label(find(&suppression, "plugin:test/projection-default"), "decision").as_deref(),
        Some("suppressed")
    );
    assert_eq!(
        label(find(&replacement, "plugin:test/projection-default"), "decision").as_deref(),
        Some("replaced")
    );

    let effective = find(&replacement, "plugin:test/projection-replacement");

    assert_eq!(label(effective, "effective").as_deref(), Some("true"));
    assert_eq!(label(effective, "phase").as_deref(), Some("early"));
    assert_eq!(label(effective, "resolution-order").as_deref(), Some("0"));
    assert_eq!(label(effective, "slot-policy").as_deref(), Some("replaceable"));
    assert_eq!(
        effective.provenance,
        Some(Provenance {
            owner: Some(String::from("application")),
            origin: Some(String::from("application-declaration")),
            ordinal: Some(0),
        })
    );
    assert!(related(
        &replacement,
        RelationshipKind::Provides,
        "plugin:test/projection-replacement",
        "plugin-slot:test/projection-slot"
    )
    .is_some());
    find(&suppression, "plugin-slot:test/projection-slot");

    let slot_dependency = related(
        &suppression,
        RelationshipKind::DependsOn,
        "suppression:test/projection-slot",
        "plugin-slot:test/projection-slot",
    )
    .expect("suppression depends on its slot");

    assert_eq!(
        slot_dependency.labels.get("role"),
        Some(&LabelValue::Text(String::from("suppressed-slot")))
    );

    let decision = find(&suppression, "suppression:test/projection-slot");

    assert_eq!(decision.kind, ResourceKind::Contribution);
    assert_eq!(label(decision, "slot").as_deref(), Some("test/projection-slot"));
}

#[test]
fn displaced_plugin_contribution_points_to_the_final_registry_resource() {
    let mut plan = empty_plan();
    let provenance = ContributionProvenance {
        contributor: Contributor::Plugin(String::from("test/displaced-component")),
        contribution: String::from("test/projected-component"),
    };

    plan.contributions.push(ReconciledContribution {
        provenance,
        kind: PluginContributionKind::Component,
        decision: String::from("displaced"),
        requested: String::from("component:projected-component"),
        applied: Some(String::from("component:protocol-projected-component")),
    });

    let mut document = Projection::new();

    document.project_plugins(&plan);

    let contribution = find(
        &document,
        "contribution:plugin:test/displaced-component:test/projected-component",
    );

    assert_eq!(label(contribution, "decision").as_deref(), Some("displaced"));
    assert_eq!(
        label(contribution, "requested-target").as_deref(),
        Some("component:projected-component")
    );
    assert_eq!(
        label(contribution, "effective-target").as_deref(),
        Some("component:protocol-projected-component")
    );
    assert_eq!(label(contribution, "applied-target"), None);
    assert_eq!(label(contribution, "emission-index").as_deref(), Some("0"));
    assert!(related(
        &document,
        RelationshipKind::Contributes,
        &contribution.id,
        "component:protocol-projected-component"
    )
    .is_none());
    assert!(related(
        &document,
        RelationshipKind::Contributes,
        "plugin:test/displaced-component",
        &contribution.id
    )
    .is_some());
}

#[test]
fn applied_contributions_relate_to_their_target() {
    let mut plan = empty_plan();

    for (index, contribution) in ["first-config", "second-config"].iter().enumerate() {
        plan.contributions.push(ReconciledContribution {
            provenance: ContributionProvenance {
                contributor: Contributor::Plugin(String::from("test")),
                contribution: contribution.to_string(),
            },
            kind: PluginContributionKind::ConfigBinding,
            decision: String::from(if index == 0 { "applied" } else { "duplicate" }),
            requested: String::from("config-binding:Duplicate:duplicate"),
            applied: Some(String::from("config-binding:Duplicate:duplicate")),
        });
    }

    let mut document = Projection::new();

    document.project_plugins(&plan);

    let first = find(&document, "contribution:plugin:test:first-config");
    let second = find(&document, "contribution:plugin:test:second-config");

    assert_eq!(label(first, "contribution-kind").as_deref(), Some("config-binding"));
    assert_eq!(
        label(first, "applied-target").as_deref(),
        Some("config-binding:Duplicate:duplicate")
    );
    assert_eq!(label(second, "emission-index").as_deref(), Some("1"));
    assert_eq!(label(second, "decision").as_deref(), Some("duplicate"));

    let applied = related(
        &document,
        RelationshipKind::Contributes,
        "contribution:plugin:test:first-config",
        "config-binding:Duplicate:duplicate",
    )
    .expect("applied contribution relates to its target");

    assert_eq!(applied.labels.get("decision"), Some(&LabelValue::Text(String::from("applied"))));
    assert!(related(
        &document,
        RelationshipKind::Contributes,
        "contribution:plugin:test:second-config",
        "config-binding:Duplicate:duplicate"
    )
    .is_none());
    assert_eq!(
        document
            .relationships()
            .iter()
            .filter(|r| r.kind == RelationshipKind::Contributes && r.from == "plugin:test")
            .count(),
        2
    );
}

#[test]
fn merging_contributions_for_an_unknown_owner_changes_nothing() {
    let mut document = Projection::new();

    document.resource("plugin:known", ResourceKind::Plugin, "known", None, Labels::new());

    let contributions = ToolingContributionSet {
        owner: String::from("plugin:unknown"),
        owner_display: None,
        resources: Vec::new(),
        relationships: Vec::new(),
        facets: Vec::new(),
        resource_displays: Vec::new(),
    };

    assert_eq!(
        document.merge_tooling_contributions(&contributions),
        Err(ToolingContributionError::UnknownOwner { id: String::from("plugin:unknown") })
    );
    assert_eq!(document.resources().len(), 1);
}

#[test]
fn protocol_contributions_without_display_are_refused() {
    let mut document = Projection::new();

    document.resource("protocol:web", ResourceKind::Protocol, "web", None, Labels::new());

    let mut contributions = ToolingContributionSet {
        owner: String::from("protocol:web"),
        owner_display: None,
        resources: vec![ContributedResource {
            id: String::from("protocol:web/tooling/route"),
            name: String::from("Route"),
            owner: String::from("protocol:web"),
            origin: String::from("tooling-contribution"),
            labels: vec![(String::from("method"), String::from("GET"))],
        }],
        relationships: Vec::new(),
        facets: Vec::new(),
        resource_displays: vec![(
            String::from("protocol:web/tooling/route"),
            ResourceDisplay { label: Some(String::from("Route")), summary: None },
        )],
    };

    assert_eq!(
        document.merge_tooling_contributions(&contributions),
        Err(ToolingContributionError::MissingProtocolDisplay { id: String::from("protocol:web") })
    );
    assert_eq!(document.resources().len(), 1);

    contributions.owner_display = Some(ResourceDisplay {
        label: Some(String::from("Web")),
        summary: Some(String::from("HTTP routes")),
    });

    assert_eq!(document.merge_tooling_contributions(&contributions), Ok(()));
    assert_eq!(document.resources().len(), 2);
    assert_eq!(
        document.resources()[0].display,
        Some(ResourceDisplay {
            label: Some(String::from("Web")),
            summary: Some(String::from("HTTP routes")),
        })
    );

    let route = find(&document, "protocol:web/tooling/route");

    assert_eq!(route.kind, ResourceKind::Contribution);
    assert_eq!(label(route, "method").as_deref(), Some("GET"));
    assert_eq!(
        route.display,
        Some(ResourceDisplay { label: Some(String::from("Route")), summary: None })
    );
    assert_eq!(
        route.provenance,
        Some(Provenance {
            owner: Some(String::from("protocol:web")),
            origin: Some(String::from("tooling-contribution")),
            ordinal: None,
        })
    );
}
