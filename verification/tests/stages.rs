use overseerd_tooling::application::{ConfigSource, HostLifecycle};
use overseerd_tooling::composition::{CliProvider, PluginResolution};
use overseerd_tooling::contribution::{
    ResourceDisplay, ToolingContributionError, ToolingContributionSet, ToolingContributions,
    ToolingEndpoint, ToolingRelationshipKind,
};
use overseerd_tooling::dependencies::{
    Cardinality, ComponentSnapshot, ConfigBinding, ConstructionPlanEntry, DependencyDescriptor,
    DependencySnapshot, DependencyTarget, HookSnapshot, ResolutionMode, SelectedDependency, TypeRef,
};
use overseerd_tooling::document::{project, PreparedSnapshot};
use overseerd_tooling::labels::LabelValue;
use overseerd_tooling::projection::{Projection, Relationship, RelationshipKind, Resource, ResourceKind};
use overseerd_tooling::providers::ProviderSnapshot;
use overseerd_tooling::resource_ids::{
    CliProviderKind, ContributionProvenance, Contributor, FactorySelection, Provenance,
};
use overseerd_tooling::scope::{ScopeBoundary, ScopeDecl, ScopeParent, ScopeTopology};

fn ty(key: u64, rust: &str, name: &str) -> TypeRef {
    TypeRef { key, rust_name: rust.to_string(), name: name.to_string() }
}

fn find<'a>(document: &'a Projection, id: &str) -> &'a Resource {
    document
        .resources()
        .iter()
        .find(|resource| resource.id == id)
        .unwrap_or_else(|| panic!("resource {id} exists"))
}

fn label(resource: &Resource, key: &str) -> Option<String> {
    match resource.labels.get(key) {
        Some(LabelValue::Text(t)) => Some(t.clone()),
        Some(other) => panic!("label {key} is not text: {other:?}"),
        None => None,
    }
}

fn edges<'a>(document: &'a Projection, kind: RelationshipKind, from: &str) -> Vec<&'a Relationship> {
    document
        .relationships()
        .iter()
        .filter(|r| r.kind == kind && r.from == from)
        .collect()
}

fn text_of(relationship: &Relationship, key: &str) -> Option<String> {
    match relationship.labels.get(key) {
        Some(LabelValue::Text(t)) => Some(t.clone()),
        _ => None,
    }
}

fn component(id: &str, key: u64, dependencies: Vec<DependencySnapshot>) -> ComponentSnapshot {
    ComponentSnapshot {
        id: id.to_string(),
        name: id.to_string(),
        ty: ty(key, &format!("app::{id}"), id),
        scope: String::from("overseerd/singleton"),
        transient: false,
        has_factory: true,
        factory_selection: FactorySelection::Default,
        factory_candidate_count: 1,
        factory_explicit_count: 0,
        dependencies,
        hooks: Vec::new(),
        seeded: false,
        seeds_scope: false,
        contribution: None,
    }
}

fn descriptor(name: &str, cardinality: Cardinality, resolution: ResolutionMode, qualifier: Option<&str>) -> DependencyDescriptor {
    DependencyDescriptor {
        name: name.to_string(),
        ty: ty(7, "dyn app::AggregateTrait", "AggregateTrait"),
        cardinality,
        optional: false,
        dynamic: false,
        qualifier: qualifier.map(str::to_string),
        config: false,
        resolution,
    }
}

fn config_descriptor(qualifier: Option<&str>) -> DependencyDescriptor {
    DependencyDescriptor {
        name: String::from("DuplicateConfig"),
        ty: ty(9, "app::DuplicateConfig", "DuplicateConfig"),
        cardinality: Cardinality::One,
        optional: false,
        dynamic: false,
        qualifier: qualifier.map(str::to_string),
        config: true,
        resolution: ResolutionMode::Eager,
    }
}

fn binding(path: &str) -> ConfigBinding {
    ConfigBinding { ty: ty(9, "app::DuplicateConfig", "DuplicateConfig"), path: path.to_string(), contribution: None }
}

fn provider_target() -> DependencyTarget {
    DependencyTarget::Provider {
        trait_type: String::from("dyn app::AggregateTrait"),
        component_type: String::from("app::AggregateProvider"),
        qualifier: String::from("shared"),
    }
}

#[test]
fn projection_aggregates_dependencies_to_the_same_type_and_provider() {
    let consumer = component(
        "aggregate-consumer",
        1,
        vec![
            DependencySnapshot {
                descriptor: descriptor("QualifiedAggregateTrait", Cardinality::One, ResolutionMode::Eager, Some("shared")),
                selected: vec![SelectedDependency {
                    target: provider_target(),
                    reason: String::from("qualified"),
                    scope: None,
                    stage: None,
                }],
            },
            DependencySnapshot {
                descriptor: descriptor("FreshAggregateTraits", Cardinality::Collection, ResolutionMode::Fresh, None),
                selected: vec![SelectedDependency {
                    target: provider_target(),
                    reason: String::from("collection"),
                    scope: None,
                    stage: None,
                }],
            },
        ],
    );
    let mut document = Projection::new();

    document.project_component(&consumer, &Vec::new());

    let provider = "provider:dyn app::AggregateTrait:app::AggregateProvider:shared";
    let to_provider: Vec<_> = edges(&document, RelationshipKind::DependsOn, "component:aggregate-consumer")
        .into_iter()
        .filter(|r| r.to == provider)
        .collect();

    assert_eq!(to_provider.len(), 1);
    assert_eq!(text_of(to_provider[0], "role").as_deref(), Some("resolved-provider"));

    let decisions = match to_provider[0].labels.get("dependency-decisions") {
        Some(LabelValue::Decisions(d)) => d.clone(),
        other => panic!("decisions are recorded: {other:?}"),
    };
    let reasons: Vec<_> = decisions
        .iter()
        .map(|d| d.iter().find(|(k, _)| k == "selection-reason").map(|(_, v)| v.clone()))
        .collect();

    assert_eq!(reasons, vec![Some(String::from("collection")), Some(String::from("qualified"))]);

    let to_type: Vec<_> = edges(&document, RelationshipKind::DependsOn, "component:aggregate-consumer")
        .into_iter()
        .filter(|r| r.to == "type:dyn app::AggregateTrait")
        .collect();

    assert_eq!(to_type.len(), 1);
    match to_type[0].labels.get("dependency-decisions") {
        Some(LabelValue::Decisions(d)) => {
            assert_eq!(d.len(), 2);
            assert!(d.iter().all(|m| m.iter().all(|(k, _)| k != "role")));
        },
        other => panic!("type decisions are recorded: {other:?}"),
    }
    assert_eq!(
        document.resources().iter().filter(|r| r.id == "type:dyn app::AggregateTrait").count(),
        1
    );
}

#[test]
fn config_dependencies_target_exact_bindings_or_mark_type_ambiguity() {
    let bindings = vec![binding("duplicate"), binding("alternate")];
    let exact = DependencySnapshot { descriptor: config_descriptor(Some("duplicate")), selected: Vec::new() };
    let ambiguous = DependencySnapshot { descriptor: config_descriptor(None), selected: Vec::new() };
    let mut document = Projection::new();

    document.project_dependency("component:config-consumer", &exact, &bindings);
    document.project_dependency("hook:reload-hook-component:config_reload:0", &ambiguous, &bindings);

    let exact_edges = edges(&document, RelationshipKind::DependsOn, "component:config-consumer");

    assert_eq!(exact_edges.len(), 1);
    assert_eq!(exact_edges[0].to, "config-binding:app::DuplicateConfig:duplicate");

    let ambiguous_edges = edges(&document, RelationshipKind::DependsOn, "hook:reload-hook-component:config_reload:0");

    assert_eq!(ambiguous_edges.len(), 1);
    assert_eq!(ambiguous_edges[0].to, "type:app::DuplicateConfig");
    assert_eq!(text_of(ambiguous_edges[0], "binding-resolution").as_deref(), Some("ambiguous"));
    assert_eq!(text_of(ambiguous_edges[0], "binding-cardinality").as_deref(), Some("2"));
}

#[test]
fn config_dependencies_distinguish_missing_bindings() {
    let missing = DependencySnapshot { descriptor: config_descriptor(None), selected: Vec::new() };
    let mut document = Projection::new();

    document.project_dependency("hook:reload-hook-component:config_reload:0", &missing, &Vec::new());

    let missing_edges = edges(&document, RelationshipKind::DependsOn, "hook:reload-hook-component:config_reload:0");

    assert_eq!(text_of(missing_edges[0], "binding-resolution").as_deref(), Some("missing"));
    assert_eq!(text_of(missing_edges[0], "binding-cardinality").as_deref(), Some("0"));
}

#[test]
fn construction_ordinals_preserve_exact_independent_declaration_order() {
    for (order, first, second) in [
        (["projected-component", "alternate-component"], "projected-component", "alternate-component"),
        (["alternate-component", "projected-component"], "alternate-component", "projected-component"),
    ] {
        let components = vec![component(order[0], 1, Vec::new()), component(order[1], 2, Vec::new())];
        let plan = vec![
            ConstructionPlanEntry { component: order[0].to_string(), has_factory: true },
            ConstructionPlanEntry { component: order[1].to_string(), has_factory: false },
        ];
        let mut document = Projection::new();

        document.project_components(&components, "overseerd/singleton", &plan, &Vec::new(), &Vec::new());

        let a = find(&document, &format!("component:{first}"));
        let b = find(&document, &format!("component:{second}"));

        assert_eq!(label(a, "plan-ordinal").as_deref(), Some("0"));
        assert_eq!(label(b, "plan-ordinal").as_deref(), Some("1"));
        assert_eq!(label(a, "plan-entry-kind").as_deref(), Some("factory-construction"));
        assert_eq!(label(b, "plan-entry-kind").as_deref(), Some("seeded-verification"));
        assert_eq!(label(a, "construction-plan").as_deref(), Some("overseerd/singleton"));

        let ordering = edges(&document, RelationshipKind::OrdersBefore, &format!("component:{first}"));

        assert_eq!(ordering.len(), 1);
        assert_eq!(ordering[0].to, format!("component:{second}"));
        assert_eq!(text_of(ordering[0], "scope").as_deref(), Some("overseerd/singleton"));
    }
}

#[test]
fn lifecycle_projection_classifies_phases_and_links_config_reload_hooks() {
    let mut reload = component("reload-hook-component", 3, Vec::new());

    reload.hooks.push(HookSnapshot { ordinal: 3, kind: String::from("config_reload"), dependencies: Vec::new() });

    let mut document = Projection::new();

    document.project_application(
        "lifecycle-projection",
        "test/protocol",
        Some(HostLifecycle { setup: true, configure: false, before_build: true, after_build: false, serve: true }),
    );
    document.project_component(&reload, &Vec::new());
    document.project_hooks(&vec![reload], &Vec::new());

    assert_eq!(label(find(&document, "lifecycle:prepare"), "category").as_deref(), Some("construction-phase"));

    let config_reload = find(&document, "lifecycle:config_reload");

    assert_eq!(label(config_reload, "category").as_deref(), Some("runtime-event"));
    assert_eq!(label(config_reload, "repeatable").as_deref(), Some("true"));

    let setup = find(&document, "lifecycle:setup");

    assert_eq!(label(setup, "category").as_deref(), Some("host-phase"));
    assert_eq!(label(setup, "callback").as_deref(), Some("true"));
    assert_eq!(label(find(&document, "lifecycle:configure"), "callback").as_deref(), Some("false"));
    assert!(document
        .relationships()
        .iter()
        .any(|r| r.kind == RelationshipKind::Hooks && r.to == "lifecycle:config_reload"));
    assert!(document
        .relationships()
        .iter()
        .any(|r| r.kind == RelationshipKind::Hooks
            && r.from == "component:reload-hook-component"
            && r.to == "hook:reload-hook-component:config_reload:3"));
    assert!(!document.relationships().iter().any(|r| r.kind == RelationshipKind::OrdersBefore
        && r.from == "lifecycle:startup"
        && r.to == "lifecycle:shutdown"));
    for (before, after) in [
        ("setup", "configure"),
        ("configure", "before_build"),
        ("before_build", "prepare"),
        ("prepare", "build"),
        ("build", "after_build"),
        ("after_build", "serve"),
    ] {
        assert!(document.relationships().iter().any(|r| r.kind == RelationshipKind::OrdersBefore
            && r.from == format!("lifecycle:{before}")
            && r.to == format!("lifecycle:{after}")));
    }
}

#[test]
fn lifecycle_without_host_orders_only_construction() {
    let mut document = Projection::new();

    document.project_application("headless", "test/protocol", None);

    assert!(!document.resources().iter().any(|r| r.id == "lifecycle:setup"));
    assert_eq!(
        document.relationships().iter().filter(|r| r.kind == RelationshipKind::OrdersBefore).count(),
        1
    );
    assert!(document.relationships().iter().any(|r| r.kind == RelationshipKind::Validates
        && r.from == "protocol:test/protocol"
        && r.to == "application"));
    assert_eq!(label(find(&document, "protocol:test/protocol"), "protocol-id").as_deref(), Some("test/protocol"));
}

fn ordered_provider(concrete: &str, order: Option<u32>) -> ProviderSnapshot {
    ProviderSnapshot {
        trait_ty: ty(11, "dyn app::OrderedProvider", "OrderedProvider"),
        concrete_ty: ty(12, concrete, concrete),
        qualifier: String::from("default"),
        primary: false,
        priority: -3,
        component: Some(format!("component:{concrete}")),
        order,
        contribution: None,
    }
}

#[test]
fn provider_ordering_connects_matching_provider_resources() {
    let providers = vec![
        ordered_provider("app::SecondProvider", Some(1)),
        ordered_provider("app::FirstProvider", Some(0)),
        ordered_provider("app::UnorderedProvider", None),
    ];
    let mut document = Projection::new();

    document.project_providers(&providers);

    let ordering: Vec<_> = document
        .relationships()
        .iter()
        .filter(|r| r.kind == RelationshipKind::OrdersBefore)
        .collect();

    assert_eq!(ordering.len(), 1);
    assert!(ordering[0].from.contains("FirstProvider"));
    assert!(ordering[0].to.contains("SecondProvider"));
    assert!(text_of(ordering[0], "rust-trait").unwrap().contains("OrderedProvider"));
    assert_eq!(text_of(ordering[0], "trait-target").as_deref(), Some("type:dyn app::OrderedProvider"));

    let first = find(&document, "provider:dyn app::OrderedProvider:app::FirstProvider:default");

    assert_eq!(label(first, "priority").as_deref(), Some("-3"));
    assert_eq!(label(first, "processing-ordinal").as_deref(), Some("0"));
    assert_eq!(
        label(find(&document, "provider:dyn app::OrderedProvider:app::UnorderedProvider:default"), "processing-ordinal"),
        None
    );
    assert!(document.relationships().iter().any(|r| r.kind == RelationshipKind::Provides
        && r.from == "component:app::FirstProvider"
        && r.to == "provider:dyn app::OrderedProvider:app::FirstProvider:default"));
}

#[test]
fn duplicate_plugin_config_bindings_select_one_owner() {
    let mut selected = binding("duplicate");

    selected.contribution = Some(ContributionProvenance {
        contributor: Contributor::Plugin(String::from("test/first-config")),
        contribution: String::from("duplicate-config"),
    });

    let mut document = Projection::new();

    document.project_config_bindings(
        &vec![selected],
        &vec![
            ConfigSource { display: String::from("<in-memory>"), file_name: None },
            ConfigSource { display: String::from("/etc/app/base.toml"), file_name: Some(String::from("base.toml")) },
            ConfigSource { display: String::new(), file_name: None },
            ConfigSource { display: String::from("/etc/app/local.toml"), file_name: None },
        ],
    );

    let config = find(&document, "config-binding:app::DuplicateConfig:duplicate");

    assert_eq!(config.kind, ResourceKind::ConfigBinding);
    assert_eq!(
        config.provenance.as_ref().and_then(|p| p.owner.as_deref()),
        Some("plugin:test/first-config")
    );
    assert_eq!(label(config, "value-exported").as_deref(), Some("false"));

    let base = find(&document, "config-source:1");

    assert_eq!(base.name, "base.toml");
    assert_eq!(find(&document, "config-source:3").name, "config source");
    assert!(!document.resources().iter().any(|r| r.id == "config-source:0" || r.id == "config-source:2"));

    let merge = edges(&document, RelationshipKind::OrdersBefore, "config-source:1");

    assert_eq!(merge.len(), 1);
    assert_eq!(merge[0].to, "config-source:3");
    assert_eq!(text_of(merge[0], "order").as_deref(), Some("config-merge"));
    assert_eq!(
        base.provenance,
        Some(Provenance {
            owner: Some(String::from("framework")),
            origin: Some(String::from("config-source")),
            ordinal: Some(1),
        })
    );
}

#[test]
fn cli_providers_project_as_owned_contribution_resources() {
    let providers = vec![
        CliProvider {
            id: String::from("serve-args"),
            kind: CliProviderKind::Args,
            contributor: String::from("plugin:test/cli"),
            contribution: String::from("serve"),
        },
        CliProvider {
            id: String::from("serve-args-again"),
            kind: CliProviderKind::Command,
            contributor: String::from("plugin:test/cli"),
            contribution: String::from("serve"),
        },
    ];
    let mut document = Projection::new();

    document.project_cli(&providers);

    let resource = find(&document, "contribution:plugin:test/cli:serve");

    assert_eq!(label(resource, "provider-kind").as_deref(), Some("args"));
    assert_eq!(document.resources().len(), 1);
    assert_eq!(edges(&document, RelationshipKind::Contributes, "plugin:test/cli").len(), 1);
}

#[test]
fn scopes_project_framework_scopes_and_opened_boundaries() {
    let topology = ScopeTopology::new(vec![ScopeBoundary::new(
        ScopeDecl::new("test/request", "Request", 10),
        ScopeParent::Root,
    )])
    .prepare()
    .expect("topology prepares");
    let mut document = Projection::new();

    document.project_scopes("test/protocol", &topology);

    let singleton = find(&document, "scope:overseerd/singleton");

    assert_eq!(label(singleton, "rank").as_deref(), Some("255"));
    assert_eq!(label(singleton, "transient").as_deref(), Some("false"));
    assert_eq!(label(find(&document, "scope:overseerd/transient"), "transient").as_deref(), Some("true"));

    let request = find(&document, "scope:test/request");

    assert_eq!(label(request, "rank").as_deref(), Some("10"));
    assert_eq!(
        request.provenance.as_ref().and_then(|p| p.owner.as_deref()),
        Some("protocol:test/protocol")
    );
    assert!(document.relationships().iter().any(|r| r.kind == RelationshipKind::OpensScope
        && r.from == "scope:overseerd/singleton"
        && r.to == "scope:test/request"));
}

fn empty_snapshot() -> PreparedSnapshot {
    PreparedSnapshot {
        name: String::from("app"),
        protocol: String::from("test/protocol"),
        host: None,
        topology: ScopeTopology::new(Vec::new()).prepare().expect("empty topology prepares"),
        components: vec![component("only", 1, Vec::new())],
        root_plan: vec![ConstructionPlanEntry { component: String::from("only"), has_factory: true }],
        scope_plans: Vec::new(),
        providers: Vec::new(),
        config_bindings: Vec::new(),
        config_sources: Vec::new(),
        plugins: PluginResolution {
            plugins: Vec::new(),
            replacements: Vec::new(),
            suppressions: Vec::new(),
            contributions: Vec::new(),
        },
        cli_providers: Vec::new(),
        tooling: Vec::new(),
    }
}

fn tooling_for(owner: &str, display: bool) -> ToolingContributionSet {
    ToolingContributionSet {
        owner: owner.to_string(),
        owner_display: if display {
            Some(ResourceDisplay { label: Some(String::from("Protocol")), summary: None })
        } else {
            None
        },
        resources: Vec::new(),
        relationships: Vec::new(),
        facets: Vec::new(),
        resource_displays: Vec::new(),
    }
}

#[test]
fn whole_projection_merges_protocol_tooling_and_refuses_unknown_owners() {
    let mut snapshot = empty_snapshot();

    snapshot.tooling.push(tooling_for("protocol:test/protocol", true));

    let document = project(&snapshot).expect("projection succeeds");
    let protocol = find(&document, "protocol:test/protocol");

    assert_eq!(protocol.display.as_ref().and_then(|d| d.label.as_deref()), Some("Protocol"));
    assert_eq!(label(find(&document, "component:only"), "plan-ordinal").as_deref(), Some("0"));

    snapshot.tooling.push(tooling_for("plugin:missing", false));

    assert!(matches!(
        project(&snapshot),
        Err(ToolingContributionError::UnknownOwner { id }) if id == "plugin:missing"
    ));

    snapshot.tooling = vec![tooling_for("protocol:test/protocol", false)];

    assert!(matches!(
        project(&snapshot),
        Err(ToolingContributionError::MissingProtocolDisplay { id }) if id == "protocol:test/protocol"
    ));
}

/// What a document says, in a form two projections can be compared by.
fn outline(document: &Projection) -> (Vec<(String, String, String)>, Vec<(RelationshipKind, String, String, String)>) {
    (
        document
            .resources()
            .iter()
            .map(|r| (r.id.clone(), r.name.clone(), format!("{:?}", r.labels)))
            .collect(),
        document
            .relationships()
            .iter()
            .map(|r| (r.kind, r.from.clone(), r.to.clone(), format!("{:?}", r.labels)))
            .collect(),
    )
}

#[test]
fn prepared_projection_is_read_only_stable_and_redacted() {
    let mut projected = component(
        "projected-component",
        11,
        vec![DependencySnapshot {
            descriptor: descriptor("SnapshotDependencyA", Cardinality::One, ResolutionMode::Eager, None),
            selected: Vec::new(),
        }],
    );
    projected.ty = ty(11, "app::ProjectedComponent", "ProjectedComponent");
    projected.hooks.push(HookSnapshot { ordinal: 0, kind: String::from("config_reload"), dependencies: Vec::new() });
    let mut snapshot = empty_snapshot();
    snapshot.name = String::from("tooling-projection");
    snapshot.components = vec![projected];
    snapshot.root_plan = vec![ConstructionPlanEntry { component: String::from("projected-component"), has_factory: true }];

    let first = project(&snapshot).expect("prepared state projects");
    let second = project(&snapshot).expect("projection can be read repeatedly");

    assert_eq!(outline(&first), outline(&second));
    let resource = find(&first, "component:projected-component");
    assert!(label(resource, "rust-type").unwrap().ends_with("ProjectedComponent"));
    assert_eq!(label(resource, "construction").as_deref(), Some("planned-factory"));
    assert_eq!(label(resource, "factory-selection").as_deref(), Some("default"));
    assert_eq!(label(resource, "factory-candidate-count").as_deref(), Some("1"));
    assert_eq!(label(resource, "factory-explicit-count").as_deref(), Some("0"));
    assert!(first.resources().iter().any(|r| r.id.starts_with("hook:projected-component:config_reload:")));
    assert!(first
        .relationships()
        .iter()
        .any(|r| r.from == "component:projected-component" && text_of(r, "name").as_deref() == Some("SnapshotDependencyA")));
    assert!(!format!("{:?}", outline(&first)).contains("TypeId"));
}

#[test]
fn third_party_protocol_projects_owner_scoped_generic_metadata() {
    let mut contributions = ToolingContributions::new(String::from("protocol:third-party/protocol"));
    contributions.display(ResourceDisplay {
        label: Some(String::from("Third-party protocol")),
        summary: Some(String::from("Third-party tooling contract")),
    });
    contributions.resource("transport", "Third-party transport");
    contributions.resource_display(
        "transport",
        ResourceDisplay { label: Some(String::from("Third-party transport")), summary: None },
    );
    contributions.relationship(
        ToolingRelationshipKind::Contains,
        ToolingEndpoint::Owner,
        ToolingEndpoint::Resource("transport"),
    );
    let mut snapshot = empty_snapshot();
    snapshot.name = String::from("third-party-protocol");
    snapshot.protocol = String::from("third-party/protocol");
    snapshot.tooling.push(contributions.finish().expect("third-party protocol prepares"));

    let document = project(&snapshot).expect("third-party metadata projects");
    let again = project(&snapshot).expect("third-party metadata reprojects");

    assert_eq!(outline(&document), outline(&again));
    assert!(document.resources().iter().any(|resource| {
        resource.id == "protocol:third-party/protocol/tooling/transport"
            && resource.provenance.as_ref().and_then(|value| value.owner.as_deref())
                == Some("protocol:third-party/protocol")
    }));
}

#[test]
fn invalid_protocol_tooling_is_a_typed_prepare_error() {
    let mut contributions = ToolingContributions::new(String::from("protocol:invalid/protocol"));
    contributions.display(ResourceDisplay {
        label: Some(String::from("Invalid tooling protocol")),
        summary: None,
    });
    contributions.resource("duplicate", "First");
    contributions.resource("duplicate", "Second");

    let Err(error) = contributions.finish() else {
        panic!("invalid protocol tooling must fail during preparation");
    };

    assert!(matches!(error, ToolingContributionError::DuplicateResource { .. }));
}
