use overseerd_tooling::resource_ids::{
    cli_definition_source_resources, cli_provider_kind_name, component_id, config_binding_id,
    contribution_id, contribution_kind_name, contribution_provenance, contributor_id,
    installation_provenance, installation_resource, lifecycle_resource, phase_name, plugin_id,
    plugin_slot_id, provider_resource, relation_target_resource, scope_id, slot_policy_name,
    type_id, CliDefinitionSource, CliProviderKind, CompositionPhase, ContributionProvenance,
    Contributor, FactorySelection, InstallationOrigin, InstallationProvenance,
    PluginContributionKind, RelationTarget, SlotPolicy,
};

#[test]
fn identities_are_prefixed_stable_ids() {
    assert_eq!(component_id("worker"), "component:worker");
    assert_eq!(type_id("app::Service"), "type:app::Service");
    assert_eq!(scope_id("app/request"), "scope:app/request");
    assert_eq!(plugin_id("acme/db"), "plugin:acme/db");
    assert_eq!(plugin_slot_id("acme/pool"), "plugin-slot:acme/pool");
    assert_eq!(
        config_binding_id("app::Db", "db"),
        "config-binding:app::Db:db"
    );
    assert_eq!(
        provider_resource("app::Trait", "app::Impl", "primary"),
        "provider:app::Trait:app::Impl:primary"
    );
}

#[test]
fn contributions_are_named_by_contributor() {
    let provenance = ContributionProvenance {
        contributor: Contributor::Protocol(String::from("web/http")),
        contribution: String::from("router"),
    };
    assert_eq!(contributor_id(&Contributor::Framework), "framework");
    assert_eq!(contributor_id(&Contributor::Application), "application");
    assert_eq!(contribution_id(&provenance), "contribution:protocol:web/http:router");
    let record = contribution_provenance(&provenance);
    assert_eq!(record.owner.as_deref(), Some("protocol:web/http"));
    assert_eq!(record.origin.as_deref(), Some("contribution"));
    assert_eq!(record.ordinal, None);
    assert_eq!(
        cli_definition_source_resources(&CliDefinitionSource::Plugin(provenance)),
        ["protocol:web/http", "contribution:protocol:web/http:router"]
    );
    assert_eq!(
        cli_definition_source_resources(&CliDefinitionSource::Application),
        ["application"]
    );
}

#[test]
fn installations_are_named_by_origin_and_ordinal() {
    let mandatory = InstallationProvenance {
        origin: InstallationOrigin::ProtocolMandatory(String::from("web/http")),
        ordinal: 12,
    };
    assert_eq!(
        installation_resource(&mandatory),
        "plugin-installation:protocol-mandatory:web/http:12"
    );
    let record = installation_provenance(&mandatory);
    assert_eq!(record.owner.as_deref(), Some("protocol:web/http"));
    assert_eq!(record.origin.as_deref(), Some("protocol-mandatory"));
    assert_eq!(record.ordinal, Some(12));

    let configured = InstallationProvenance {
        origin: InstallationOrigin::ApplicationConfiguration,
        ordinal: 0,
    };
    let record = installation_provenance(&configured);
    assert_eq!(record.owner.as_deref(), Some("application"));
    assert_eq!(record.origin.as_deref(), Some("application-configuration"));
}

#[test]
fn relation_targets_and_lifecycles_map_to_resources() {
    assert_eq!(
        relation_target_resource(&RelationTarget::Plugin(String::from("a/b"))),
        "plugin:a/b"
    );
    assert_eq!(
        relation_target_resource(&RelationTarget::Slot(String::from("a/s"))),
        "plugin-slot:a/s"
    );
    assert_eq!(lifecycle_resource("startup"), Some("lifecycle:startup"));
    assert_eq!(lifecycle_resource("config_reload"), Some("lifecycle:config_reload"));
    assert_eq!(lifecycle_resource("shutdown"), Some("lifecycle:shutdown"));
    assert_eq!(lifecycle_resource("custom"), None);
}

#[test]
fn label_names_are_fixed() {
    assert_eq!(phase_name(CompositionPhase::Early), "early");
    assert_eq!(phase_name(CompositionPhase::Late), "late");
    assert_eq!(slot_policy_name(SlotPolicy::Replaceable), "replaceable");
    assert_eq!(contribution_kind_name(PluginContributionKind::ConfigBinding), "config-binding");
    assert_eq!(cli_provider_kind_name(CliProviderKind::CommandSet), "command-set");
    assert_eq!(cli_provider_kind_name(CliProviderKind::Other), "unknown");
    assert_eq!(FactorySelection::Explicit.name(), "explicit");
}
