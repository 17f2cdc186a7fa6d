use overseerd_tooling::failure::{
    app_diagnostics, app_failure, bootstrap_failure, composition_resources, config_failure,
    di_failure, lifecycle_failure_code, lifecycle_failure_message, optional_component_and_type,
    provider_order_failure, scope_topology_resources, AppError, BootstrapError,
    CompositionDiagnostic, CompositionReport, ConfigError, CycleMember, DiError, DiagnosticSeverity,
    LifecyclePhase,
    LifecycleSource, PluginPlanError, ToolingProbeError, UnreachableProvider,
};
use overseerd_tooling::resource_ids::{
    ContributionProvenance, Contributor, InstallationOrigin, InstallationProvenance,
    RelationTarget,
};
use overseerd_tooling::scope::{ScopeId, ScopeTopologyError};

fn lifecycle(phase: LifecyclePhase, text: &str, error: AppError) -> ToolingProbeError {
    ToolingProbeError::Lifecycle {
        phase,
        phase_text: String::from(text),
        source: LifecycleSource::Framework(error),
    }
}

#[test]
fn typed_config_failures_emit_safe_diagnostics_without_source_display() {
    let error = AppError::Config(ConfigError::Substitution {
        path: String::from("service.token"),
        detail: String::from("resolved secret=probe-secret"),
    });
    let failure = lifecycle(LifecyclePhase::Configure, "configure", error).failure();
    let diagnostic = &failure.diagnostics[0];

    assert_eq!(diagnostic.code, "upwell/tooling-config-substitution");
    assert_eq!(diagnostic.resources, ["config:service.token"]);
    assert!(!diagnostic.message.contains("probe-secret"));
    assert!(!diagnostic.fix.as_deref().unwrap_or("").contains("probe-secret"));
}

#[test]
fn arbitrary_setup_and_plugin_error_displays_never_enter_failure_envelopes() {
    let secret = "secret bearer-token=probe-secret";
    let setup = ToolingProbeError::Lifecycle {
        phase: LifecyclePhase::Setup,
        phase_text: String::from("setup"),
        source: LifecycleSource::Foreign(String::from(secret)),
    }
    .failure();
    let plugin = ToolingProbeError::PluginCatalog(AppError::Other {
        detail: String::from(secret),
    })
    .failure();

    for failure in [setup, plugin] {
        for diagnostic in &failure.diagnostics {
            let text = format!(
                "{} {} {:?} {:?}",
                diagnostic.code, diagnostic.message, diagnostic.resources, diagnostic.fix
            );
            assert!(!text.contains("probe-secret"));
            assert!(!text.contains("bearer-token"));
        }
    }
}

#[test]
fn plugin_composition_failures_preserve_stable_plugin_and_installation_identities() {
    let provenance = InstallationProvenance {
        origin: InstallationOrigin::ApplicationDeclaration,
        ordinal: 2,
    };
    let error = AppError::Composition(vec![CompositionReport {
        diagnostic: CompositionDiagnostic::MissingDependency {
            plugin: String::from("fixture/plugin"),
            provenance,
            target: RelationTarget::Slot(String::from("fixture/database")),
        },
        text: String::from("plugin fixture/plugin requires a missing slot"),
    }]);
    let failure = lifecycle(LifecyclePhase::Configure, "configure", error).failure();

    assert_eq!(failure.diagnostics.len(), 1);
    assert_eq!(
        failure.diagnostics[0].resources,
        [
            "plugin:fixture/plugin",
            "plugin-installation:application-declaration:2",
            "plugin-slot:fixture/database",
        ]
    );
}

#[test]
fn di_failures_use_stable_component_and_underlying_type_identities() {
    let error = AppError::Di(DiError::MissingDependency {
        component_id: String::from("worker-component"),
        dependency_type: String::from("fixture::Service"),
    });
    let failure = lifecycle(LifecyclePhase::Prepare, "prepare", error).failure();

    assert_eq!(
        failure.diagnostics[0].resources,
        ["component:worker-component", "type:fixture::Service"]
    );
    assert!(!failure.diagnostics[0]
        .resources
        .iter()
        .any(|resource| resource.contains("qualifier")));
}

#[test]
fn orphan_provider_failures_emit_provider_component_and_type_identities() {
    let error = AppError::Di(DiError::ProviderComponentMissing {
        trait_type: String::from("fixture::Service"),
        component_type: String::from("fixture::Provider"),
        qualifier: String::from("primary"),
    });
    let failure = lifecycle(LifecyclePhase::Prepare, "prepare", error).failure();
    let diagnostic = &failure.diagnostics[0];

    assert_eq!(diagnostic.code, "upwell/tooling-provider-component-missing");
    assert_eq!(
        diagnostic.resources,
        [
            "provider:fixture::Service:fixture::Provider:primary",
            "component:fixture::Provider",
            "type:fixture::Service",
            "type:fixture::Provider",
        ]
    );
    assert_eq!(
        diagnostic.fix.as_deref(),
        Some("Register the provider's concrete component or remove the orphan provider descriptor.")
    );
}

#[test]
fn scope_violation_diagnostics_include_component_type_and_scope_identities() {
    let error = AppError::Di(DiError::ScopeViolation {
        component_id: String::from("consumer-component"),
        dependency_type: String::from("fixture::Dependency"),
        component_scope_id: String::from("fixture/request"),
        dependency_scope_id: String::from("fixture/connection"),
    });
    let failure = lifecycle(LifecyclePhase::Prepare, "prepare", error).failure();

    assert_eq!(
        failure.diagnostics[0].resources,
        [
            "component:consumer-component",
            "type:fixture::Dependency",
            "scope:fixture/request",
            "scope:fixture/connection",
        ]
    );
}

#[test]
fn scope_unreachable_diagnostics_include_consumer_and_candidate_provider_identities() {
    let error = AppError::Di(DiError::ScopeUnreachableDependency {
        component_id: String::from("consumer-component"),
        dependency_type: String::from("fixture::Service"),
        component_scope_id: String::from("fixture/request"),
        providers: vec![UnreachableProvider {
            component_id: String::from("provider-component"),
            component_type: String::from("fixture::Provider"),
            scope_id: String::from("fixture/sibling"),
            qualifier: String::from("primary"),
        }],
    });
    let failure = lifecycle(LifecyclePhase::Prepare, "prepare", error).failure();
    let diagnostic = &failure.diagnostics[0];

    assert_eq!(diagnostic.code, "upwell/tooling-scope-unreachable");
    assert_eq!(
        diagnostic.resources,
        [
            "component:consumer-component",
            "type:fixture::Service",
            "scope:fixture/request",
            "provider:fixture::Service:fixture::Provider:primary",
            "component:provider-component",
            "type:fixture::Provider",
            "scope:fixture/sibling",
        ]
    );
    assert_eq!(
        diagnostic.fix.as_deref(),
        Some("Move a provider into the consumer's scope chain or move the consumer beneath a provider scope.")
    );
}

#[test]
fn optional_components_precede_the_type() {
    assert_eq!(
        optional_component_and_type(Some("c"), "T"),
        ["component:c", "type:T"]
    );
    assert_eq!(optional_component_and_type(None, "T"), ["type:T"]);
}

#[test]
fn provider_order_cycles_list_trait_components_then_types() {
    let details = di_failure(
        &DiError::ProviderOrderCycle {
            trait_type: String::from("T"),
            component_ids: vec![String::from("a"), String::from("b")],
            component_types: vec![String::from("A"), String::from("B")],
        },
        Some(String::from("prepare")),
    );

    assert_eq!(details.code, "upwell/tooling-provider-order");
    assert_eq!(
        details.resources,
        ["type:T", "component:a", "component:b", "type:A", "type:B"]
    );
    assert_eq!(details.phase.as_deref(), Some("prepare"));

    let direct = provider_order_failure(None, vec![String::from("x")]);
    assert_eq!(
        direct.message,
        "Provider precedence declarations are structurally invalid."
    );
    assert_eq!(direct.resources, ["x"]);
}

#[test]
fn unknown_dependency_failures_are_reported_generically() {
    let details = di_failure(&DiError::Other, None);

    assert_eq!(details.code, "upwell/tooling-dependency-graph");
    assert!(details.resources.is_empty());
    assert_eq!(
        details.hint.as_deref(),
        Some("Run the selected target normally to investigate the dependency failure.")
    );
}

#[test]
fn config_failures_report_paths_only() {
    let missing = config_failure(
        &ConfigError::MissingPath { path: String::from("db.url") },
        None,
    );
    assert_eq!(missing.code, "overseerd/tooling-config-value-missing");
    assert_eq!(missing.resources, ["config:db.url"]);

    let io = config_failure(
        &ConfigError::Io { detail: String::from("permission denied: /secret") },
        Some(String::from("configure")),
    );
    assert_eq!(io.code, "overseerd/tooling-config-read");
    assert!(io.resources.is_empty());
    assert!(!io.message.contains("secret"));
}

#[test]
fn app_failures_map_each_framework_error() {
    let missing = app_failure(
        &AppError::MissingConfig {
            component: String::from("svc"),
            path: String::from("svc.port"),
        },
        None,
    );
    assert_eq!(missing.code, "overseerd/tooling-config-binding-missing");
    assert_eq!(missing.resources, ["component:svc", "config:svc.port"]);

    let undeclared = app_failure(
        &AppError::UndeclaredScope {
            component: String::from("svc"),
            scope: String::from("app/request"),
        },
        None,
    );
    assert_eq!(undeclared.code, "overseerd/tooling-scope-undeclared");
    assert_eq!(undeclared.resources, ["component:svc", "scope:app/request"]);

    let other = app_failure(&AppError::Other { detail: String::from("x") }, None);
    assert_eq!(other.code, "overseerd/tooling-framework");
}

#[test]
fn foreign_lifecycle_failures_use_the_phase_code() {
    let failure = ToolingProbeError::Lifecycle {
        phase: LifecyclePhase::Build,
        phase_text: String::from("build"),
        source: LifecycleSource::Foreign(String::from("boom")),
    }
    .failure();

    assert_eq!(failure.phase.as_deref(), Some("build"));
    assert_eq!(failure.diagnostics[0].code, "overseerd/tooling-build");
    assert_eq!(
        failure.diagnostics[0].message,
        "Application construction failed during the tooling probe."
    );
    assert_eq!(lifecycle_failure_code(LifecyclePhase::Setup), "overseerd/tooling-setup");
    assert_eq!(
        lifecycle_failure_message(LifecyclePhase::AfterBuild),
        "Application post-build processing failed during the tooling probe."
    );
}

#[test]
fn structured_failures_keep_one_diagnostic_per_report() {
    let provenance = || InstallationProvenance {
        origin: InstallationOrigin::ProtocolDefault(String::from("web")),
        ordinal: 0,
    };
    let error = AppError::Composition(vec![
        CompositionReport {
            diagnostic: CompositionDiagnostic::UnexpectedPhase { provenance: provenance() },
            text: String::from("first"),
        },
        CompositionReport {
            diagnostic: CompositionDiagnostic::Cycle {
                members: vec![
                    CycleMember { plugin: String::from("a/x"), provenance: provenance() },
                    CycleMember { plugin: String::from("b/y"), provenance: provenance() },
                ],
            },
            text: String::from("second"),
        },
    ]);
    let failure = app_diagnostics(&error, Some(String::from("configure"))).expect("structured");

    assert_eq!(failure.diagnostics.len(), 2);
    assert_eq!(failure.diagnostics[0].message, "first");
    assert_eq!(
        failure.diagnostics[0].resources,
        ["plugin-installation:protocol-default:web:0"]
    );
    assert_eq!(
        failure.diagnostics[1].resources,
        [
            "plugin:a/x",
            "plugin-installation:protocol-default:web:0",
            "plugin:b/y",
            "plugin-installation:protocol-default:web:0",
        ]
    );
    assert!(app_diagnostics(&AppError::Hook, None).is_none());
}

#[test]
fn plugin_plan_failures_name_contributions() {
    let error = AppError::PluginPlan(PluginPlanError::DuplicateContribution {
        provenance: ContributionProvenance {
            contributor: Contributor::Plugin(String::from("acme/db")),
            contribution: String::from("pool"),
        },
    });
    let failure = ToolingProbeError::PluginCatalog(error).failure();

    assert_eq!(failure.phase, None);
    assert_eq!(failure.diagnostics[0].code, "overseerd/tooling-plugin-plan");
    assert_eq!(
        failure.diagnostics[0].resources,
        ["plugin:acme/db", "contribution:plugin:acme/db:pool"]
    );
}

#[test]
fn scope_topology_failures_name_scopes() {
    let cycle = ScopeTopologyError::Cycle {
        members: vec![ScopeId::new("t/a"), ScopeId::new("t/b")],
    };
    assert_eq!(scope_topology_resources(&cycle), ["scope:t/a", "scope:t/b"]);

    let failure = lifecycle(
        LifecyclePhase::Prepare,
        "prepare",
        AppError::ScopeTopology {
            error: ScopeTopologyError::MissingParent {
                id: ScopeId::new("t/a"),
                parent: ScopeId::new("t/missing"),
            },
            text: String::from("scope boundary 't/a' refers to missing parent 't/missing'"),
        },
    )
    .failure();
    assert_eq!(failure.diagnostics[0].code, "overseerd/tooling-scope-topology");
    assert_eq!(failure.diagnostics[0].resources, ["scope:t/a", "scope:t/missing"]);
}

#[test]
fn bootstrap_and_fixed_failures_have_stable_codes() {
    assert_eq!(
        bootstrap_failure(&BootstrapError::LogFormat).hint.as_deref(),
        Some("Use one of: full, compact, pretty, or json.")
    );
    assert_eq!(
        ToolingProbeError::Bootstrap(BootstrapError::Directories).failure().diagnostics[0].code,
        "overseerd/tooling-directories"
    );
    assert_eq!(
        ToolingProbeError::Panic.failure().diagnostics[0].code,
        "overseerd/tooling-panic"
    );
    assert_eq!(
        ToolingProbeError::Projection.failure().diagnostics[0].code,
        "overseerd/tooling-projection"
    );
    assert_eq!(
        ToolingProbeError::CliParse.failure().diagnostics[0].code,
        "overseerd/tooling-cli-bootstrap"
    );
}

#[test]
fn composition_resources_follow_the_diagnostic_fields() {
    let p = |n: u32| InstallationProvenance {
        origin: InstallationOrigin::ApplicationConfiguration,
        ordinal: n,
    };
    assert_eq!(
        composition_resources(&CompositionDiagnostic::DuplicateSlot {
            slot: String::from("s/db"),
            first_plugin: String::from("a/one"),
            first: p(1),
            second_plugin: String::from("b/two"),
            second: p(2),
        }),
        [
            "plugin-slot:s/db",
            "plugin:a/one",
            "plugin-installation:application-configuration:1",
            "plugin:b/two",
            "plugin-installation:application-configuration:2",
        ]
    );
    assert_eq!(
        composition_resources(&CompositionDiagnostic::ProtocolOriginMismatch {
            selected: String::from("x/web"),
            declared: String::from("y/rpc"),
            provenance: InstallationProvenance {
                origin: InstallationOrigin::ProtocolMandatory(String::from("x/web")),
                ordinal: 7,
            },
        }),
        [
            "protocol:x/web",
            "protocol:y/rpc",
            "plugin-installation:protocol-mandatory:x/web:7",
        ]
    );
}

#[test]
fn probe_diagnostics_are_errors_without_source_locations() {
    let failure = ToolingProbeError::Panic.failure();
    assert_eq!(failure.diagnostics.len(), 1);
    assert_eq!(failure.diagnostics[0].severity, DiagnosticSeverity::Error);
    assert!(failure.diagnostics[0].sources.is_empty());
    assert_eq!(failure.diagnostics[0].code, "overseerd/tooling-panic");
}
