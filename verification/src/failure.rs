//! Safe, structured failure reports for the tooling probe.
//!
//! A failed probe reports stable codes, fixed messages and hints, and the identities of the
//! resources involved (components by id, types by Rust path, scopes by id, ...). The text of an
//! underlying error is never copied into a report unless the error is a framework diagnostic
//! written for display, so secrets carried by configuration or setup errors cannot leak.
use vstd::prelude::*;

use crate::resource_ids::{
    component_resource, config_resource, contribution_resources, contribution_text,
    contributor_text, installation_resource, installation_text, plugin_resource,
    plugin_slot_resource, protocol_resource, provider_resource, relation_target_resource,
    relation_target_text, scope_resource, type_resource, CliDefinitionSource,
    ContributionProvenance, InstallationProvenance, RelationTarget,
};
use crate::scope::ScopeTopologyError;
use crate::text::{owned, text_views};

verus! {

/// One failure's report: code, message, the lifecycle phase it happened in, the resources
/// involved, and a hint for fixing it.
pub struct FailureDetails {
    pub code: String,
    pub message: String,
    pub phase: Option<String>,
    pub resources: Vec<String>,
    pub hint: Option<String>,
}

/// The texts of a failure report.
pub struct FailureView {
    pub code: Seq<char>,
    pub message: Seq<char>,
    pub phase: Option<Seq<char>>,
    pub resources: Seq<Seq<char>>,
    pub hint: Option<Seq<char>>,
}

/// The view of an optional text.
pub open spec fn opt_text(s: Option<String>) -> Option<Seq<char>> {
    match s {
        Some(t) => Some(t@),
        None => None,
    }
}

impl View for FailureDetails {
    type V = FailureView;

    open spec fn view(&self) -> FailureView {
        FailureView {
            code: self.code@,
            message: self.message@,
            phase: opt_text(self.phase),
            resources: text_views(self.resources@),
            hint: opt_text(self.hint),
        }
    }
}

/// A report with the given parts and a hint.
pub open spec fn report(
    code: Seq<char>,
    message: Seq<char>,
    phase: Option<Seq<char>>,
    resources: Seq<Seq<char>>,
    hint: Seq<char>,
) -> FailureView {
    FailureView { code, message, phase, resources, hint: Some(hint) }
}

fn details(
    code: &str,
    message: &str,
    phase: Option<String>,
    resources: Vec<String>,
    hint: &str,
) -> (r: FailureDetails)
    ensures
        r@ == report(code@, message@, opt_text(phase), text_views(resources@), hint@),
{
    FailureDetails {
        code: owned(code),
        message: owned(message),
        phase,
        resources,
        hint: Some(owned(hint)),
    }
}

/// No resources.
pub fn list0() -> (r: Vec<String>)
    ensures
        text_views(r@) == Seq::<Seq<char>>::empty(),
{
    let r: Vec<String> = Vec::new();
    proof {
        assert(text_views(r@) =~= Seq::<Seq<char>>::empty());
    }
    r
}

/// `[a]`.
pub fn list1(a: String) -> (r: Vec<String>)
    ensures
        text_views(r@) == seq![a@],
{
    let mut r: Vec<String> = Vec::new();
    r.push(a);
    proof {
        assert(text_views(r@) =~= seq![a@]);
    }
    r
}

/// `[a, b]`.
pub fn list2(a: String, b: String) -> (r: Vec<String>)
    ensures
        text_views(r@) == seq![a@, b@],
{
    let mut r: Vec<String> = Vec::new();
    r.push(a);
    r.push(b);
    proof {
        assert(text_views(r@) =~= seq![a@, b@]);
    }
    r
}

/// `[a, b, c]`.
pub fn list3(a: String, b: String, c: String) -> (r: Vec<String>)
    ensures
        text_views(r@) == seq![a@, b@, c@],
{
    let mut r: Vec<String> = Vec::new();
    r.push(a);
    r.push(b);
    r.push(c);
    proof {
        assert(text_views(r@) =~= seq![a@, b@, c@]);
    }
    r
}

/// `[a, b, c, d]`.
pub fn list4(a: String, b: String, c: String, d: String) -> (r: Vec<String>)
    ensures
        text_views(r@) == seq![a@, b@, c@, d@],
{
    let mut r: Vec<String> = Vec::new();
    r.push(a);
    r.push(b);
    r.push(c);
    r.push(d);
    proof {
        assert(text_views(r@) =~= seq![a@, b@, c@, d@]);
    }
    r
}

/// `[a, b, c, d, e]`.
pub fn list5(a: String, b: String, c: String, d: String, e: String) -> (r: Vec<String>)
    ensures
        text_views(r@) == seq![a@, b@, c@, d@, e@],
{
    let mut r: Vec<String> = Vec::new();
    r.push(a);
    r.push(b);
    r.push(c);
    r.push(d);
    r.push(e);
    proof {
        assert(text_views(r@) =~= seq![a@, b@, c@, d@, e@]);
    }
    r
}

// ---------------------------------------------------------------------------------------------
// Dependency injection failures
// ---------------------------------------------------------------------------------------------

/// A provider that exists but cannot be reached from a consumer's scope.
pub struct UnreachableProvider {
    pub component_id: String,
    pub component_type: String,
    pub scope_id: String,
    pub qualifier: String,
}

/// A failure of the dependency-injection graph, with the identities the report needs.
pub enum DiError {
    /// A component dependency has no registered provider.
    MissingDependency { component_id: String, dependency_type: String },
    /// Component dependencies contain a construction cycle.
    DependencyCycle,
    /// A dependency has more than one eligible provider.
    AmbiguousProvider { component_id: Option<String>, dependency_type: String },
    /// A provider names a concrete component that is not registered.
    ProviderComponentMissing { trait_type: String, component_type: String, qualifier: String },
    /// A dependency crosses an inaccessible or shorter-lived scope boundary.
    ScopeViolation {
        component_id: String,
        dependency_type: String,
        component_scope_id: String,
        dependency_scope_id: String,
    },
    /// Providers exist, but none is reachable from the consumer's scope.
    ScopeUnreachableDependency {
        component_id: String,
        dependency_type: String,
        component_scope_id: String,
        providers: Vec<UnreachableProvider>,
    },
    /// A fresh dependency cannot be constructed from the consumer's scope.
    InvalidFreshDependency {
        component_id: String,
        dependency_type: String,
        component_scope: String,
        dependency_scope: String,
    },
    /// A deferred dependency selected a transient target.
    DeferredTransientDependency {
        component_id: String,
        dependency_type: String,
        component_scope: String,
        dependency_scope: String,
    },
    /// Fresh construction selected a component without a usable factory.
    UnsupportedFreshFactory { component_id: Option<String>, dependency_type: String },
    /// Provider qualifiers are ambiguous within one scope.
    DuplicateProviderQualifier { trait_type: String, scope: String },
    /// A provider ordering names a target that does not exist.
    MissingProviderOrderTarget { component_id: String, target_type: String },
    /// A provider orders itself.
    SelfProviderOrder { component_id: String, component_type: String },
    /// A provider ordering's source does not provide the ordered trait.
    ProviderOrderSourceTraitMismatch {
        component_id: String,
        component_type: String,
        trait_type: String,
    },
    /// A provider ordering's target does not provide the ordered trait.
    ProviderOrderTargetTraitMismatch {
        component_id: String,
        component_type: String,
        target_id: String,
        target_type: String,
        trait_type: String,
    },
    /// Provider orderings form a cycle.
    ProviderOrderCycle { trait_type: String, component_ids: Vec<String>, component_types: Vec<String> },
    /// Any other structural failure of the dependency graph.
    Other,
}

/// `component:<id>`.
pub open spec fn component_text(id: Seq<char>) -> Seq<char> {
    "component:"@ + id
}

/// `type:<rust type>`.
pub open spec fn type_text(t: Seq<char>) -> Seq<char> {
    "type:"@ + t
}

/// `scope:<id>`.
pub open spec fn scope_text(id: Seq<char>) -> Seq<char> {
    "scope:"@ + id
}

/// `provider:<trait>:<component type>:<qualifier>`.
pub open spec fn provider_text(t: Seq<char>, c: Seq<char>, q: Seq<char>) -> Seq<char> {
    "provider:"@ + t + ":"@ + c + ":"@ + q
}

/// The consumer component (when known), then the dependency type.
pub open spec fn optional_component_and_type_spec(component: Option<Seq<char>>, t: Seq<char>) -> Seq<
    Seq<char>,
> {
    match component {
        Some(c) => seq![component_text(c), type_text(t)],
        None => seq![type_text(t)],
    }
}

/// The resources of the unreachable candidate providers, four per provider in order.
pub open spec fn candidate_resources(dependency_type: Seq<char>, ps: Seq<UnreachableProvider>) -> Seq<
    Seq<char>,
>
    decreases ps.len(),
{
    if ps.len() == 0 {
        Seq::empty()
    } else {
        let p = ps.last();
        candidate_resources(dependency_type, ps.drop_last()) + seq![
            provider_text(dependency_type, p.component_type@, p.qualifier@),
            component_text(p.component_id@),
            type_text(p.component_type@),
            scope_text(p.scope_id@),
        ]
    }
}

/// The report of an invalid provider ordering.
pub open spec fn provider_order_report(phase: Option<Seq<char>>, resources: Seq<Seq<char>>) -> FailureView {
    report(
        "upwell/tooling-provider-order"@,
        "Provider precedence declarations are structurally invalid."@,
        phase,
        resources,
        "Correct the provider before/after targets, trait restrictions, or ordering cycle."@,
    )
}

/// The report of a dependency-injection failure.
pub open spec fn di_report(e: DiError, phase: Option<Seq<char>>) -> FailureView {
    match e {
        DiError::MissingDependency { component_id, dependency_type } => report(
            "upwell/tooling-dependency-missing"@,
            "A component dependency has no registered provider."@,
            phase,
            seq![component_text(component_id@), type_text(dependency_type@)],
            "Register one provider for the missing dependency type."@,
        ),
        DiError::DependencyCycle => report(
            "upwell/tooling-dependency-cycle"@,
            "Component dependencies contain a construction cycle."@,
            phase,
            Seq::empty(),
            "Break the component dependency cycle."@,
        ),
        DiError::AmbiguousProvider { component_id, dependency_type } => report(
            "upwell/tooling-provider-ambiguous"@,
            "A dependency has more than one eligible provider."@,
            phase,
            optional_component_and_type_spec(opt_text(component_id), dependency_type@),
            "Mark one provider primary or request a provider collection."@,
        ),
        DiError::ProviderComponentMissing { trait_type, component_type, qualifier } => report(
            "upwell/tooling-provider-component-missing"@,
            "A provider descriptor references a concrete component that is not in the effective component set."@,
            phase,
            seq![
                provider_text(trait_type@, component_type@, qualifier@),
                component_text(component_type@),
                type_text(trait_type@),
                type_text(component_type@),
            ],
            "Register the provider's concrete component or remove the orphan provider descriptor."@,
        ),
        DiError::ScopeViolation {
            component_id,
            dependency_type,
            component_scope_id,
            dependency_scope_id,
        } => report(
            "upwell/tooling-scope-violation"@,
            "A component dependency crosses an inaccessible or shorter-lived scope boundary."@,
            phase,
            seq![
                component_text(component_id@),
                type_text(dependency_type@),
                scope_text(component_scope_id@),
                scope_text(dependency_scope_id@),
            ],
            "Move the dependency to a reachable scope or shorten the consumer lifetime."@,
        ),
        DiError::ScopeUnreachableDependency {
            component_id,
            dependency_type,
            component_scope_id,
            providers,
        } => report(
            "upwell/tooling-scope-unreachable"@,
            "Registered providers exist, but none is reachable from the consumer scope."@,
            phase,
            seq![
                component_text(component_id@),
                type_text(dependency_type@),
                scope_text(component_scope_id@),
            ] + candidate_resources(dependency_type@, providers@),
            "Move a provider into the consumer's scope chain or move the consumer beneath a provider scope."@,
        ),
        DiError::InvalidFreshDependency {
            component_id,
            dependency_type,
            component_scope,
            dependency_scope,
        } => report(
            "upwell/tooling-fresh-dependency-invalid"@,
            "A fresh dependency cannot be constructed from the consumer scope."@,
            phase,
            seq![
                component_text(component_id@),
                type_text(dependency_type@),
                scope_text(component_scope@),
                scope_text(dependency_scope@),
            ],
            "Use a reachable factory-backed target or change the dependency resolution mode."@,
        ),
        DiError::DeferredTransientDependency {
            component_id,
            dependency_type,
            component_scope,
            dependency_scope,
        } => report(
            "upwell/tooling-deferred-transient"@,
            "A deferred dependency selected a transient target that cannot be hydrated."@,
            phase,
            seq![
                component_text(component_id@),
                type_text(dependency_type@),
                scope_text(component_scope@),
                scope_text(dependency_scope@),
            ],
            "Store the target in a scope or use eager, lazy, or fresh resolution."@,
        ),
        DiError::UnsupportedFreshFactory { component_id, dependency_type } => report(
            "upwell/tooling-fresh-factory-unsupported"@,
            "Fresh construction selected a component without a usable factory."@,
            phase,
            optional_component_and_type_spec(opt_text(component_id), dependency_type@),
            "Register a component factory or use stored resolution."@,
        ),
        DiError::DuplicateProviderQualifier { trait_type, scope } => report(
            "upwell/tooling-provider-qualifier-duplicate"@,
            "Provider qualifier selection is ambiguous within one scope."@,
            phase,
            seq![type_text(trait_type@), scope_text(scope@)],
            "Give same-scope providers unique qualifiers."@,
        ),
        DiError::MissingProviderOrderTarget { component_id, target_type } => provider_order_report(
            phase,
            seq![component_text(component_id@), type_text(target_type@)],
        ),
        DiError::SelfProviderOrder { component_id, component_type } => provider_order_report(
            phase,
            seq![component_text(component_id@), type_text(component_type@)],
        ),
        DiError::ProviderOrderSourceTraitMismatch { component_id, component_type, trait_type } =>
            provider_order_report(
            phase,
            seq![
                component_text(component_id@),
                type_text(component_type@),
                type_text(trait_type@),
            ],
        ),
        DiError::ProviderOrderTargetTraitMismatch {
            component_id,
            component_type,
            target_id,
            target_type,
            trait_type,
        } => provider_order_report(
            phase,
            seq![
                component_text(component_id@),
                type_text(component_type@),
                component_text(target_id@),
                type_text(target_type@),
                type_text(trait_type@),
            ],
        ),
        DiError::ProviderOrderCycle { trait_type, component_ids, component_types } =>
            provider_order_report(
            phase,
            seq![type_text(trait_type@)] + text_views(component_ids@).map_values(
                |c: Seq<char>| component_text(c),
            ) + text_views(component_types@).map_values(|t: Seq<char>| type_text(t)),
        ),
        DiError::Other => report(
            "upwell/tooling-dependency-graph"@,
            "The dependency graph is structurally invalid."@,
            phase,
            Seq::empty(),
            "Run the selected target normally to investigate the dependency failure."@,
        ),
    }
}

/// The consumer component (when known), then the dependency type.
pub fn optional_component_and_type(component: Option<&str>, dependency_type: &str) -> (r: Vec<
    String,
>)
    ensures
        text_views(r@) == optional_component_and_type_spec(
            match component {
                Some(c) => Some(c@),
                None => None,
            },
            dependency_type@,
        ),
{
    let mut resources: Vec<String> = Vec::new();
    if let Some(component) = component {
        resources.push(component_resource(component));
    }
    resources.push(type_resource(dependency_type));
    proof {
        assert(text_views(resources@) =~= optional_component_and_type_spec(
            match component {
                Some(c) => Some(c@),
                None => None,
            },
            dependency_type@,
        ));
    }
    resources
}

/// The report of an invalid provider ordering.
pub fn provider_order_failure(phase: Option<String>, resources: Vec<String>) -> (r: FailureDetails)
    ensures
        r@ == provider_order_report(opt_text(phase), text_views(resources@)),
{
    details(
        "upwell/tooling-provider-order",
        "Provider precedence declarations are structurally invalid.",
        phase,
        resources,
        "Correct the provider before/after targets, trait restrictions, or ordering cycle.",
    )
}

fn opt_str(s: &Option<String>) -> (r: Option<&str>)
    ensures
        match r {
            Some(t) => opt_text(*s) == Some(t@),
            None => s is None,
        },
{
    match s {
        Some(t) => Some(t.as_str()),
        None => None,
    }
}

fn candidates(dependency_type: &str, providers: &Vec<UnreachableProvider>, resources: &mut Vec<
    String,
>)
    ensures
        text_views(final(resources)@) == text_views(old(resources)@) + candidate_resources(
            dependency_type@,
            providers@,
        ),
{
    let ghost start = text_views(resources@);
    let mut i: usize = 0;
    proof {
        assert(providers@.take(0) =~= Seq::<UnreachableProvider>::empty());
        assert(text_views(resources@) =~= start + candidate_resources(
            dependency_type@,
            providers@.take(0),
        ));
    }
    while i < providers.len()
        invariant
            i <= providers@.len(),
            text_views(resources@) == start + candidate_resources(
                dependency_type@,
                providers@.take(i as int),
            ),
        decreases providers@.len() - i,
    {
        let p = &providers[i];
        let ghost before = text_views(resources@);
        resources.push(provider_resource(dependency_type, p.component_type.as_str(), p.qualifier.as_str()));
        resources.push(component_resource(p.component_id.as_str()));
        resources.push(type_resource(p.component_type.as_str()));
        resources.push(scope_resource(p.scope_id.as_str()));
        proof {
            let taken = providers@.take(i + 1);
            assert(taken.drop_last() =~= providers@.take(i as int));
            assert(taken.last() == *p);
            assert(text_views(resources@) =~= before + seq![
                provider_text(dependency_type@, p.component_type@, p.qualifier@),
                component_text(p.component_id@),
                type_text(p.component_type@),
                scope_text(p.scope_id@),
            ]);
        }
        i = i + 1;
    }
    proof {
        assert(providers@.take(providers@.len() as int) =~= providers@);
    }
}

fn prefixed_all(prefix: &str, items: &Vec<String>, resources: &mut Vec<String>)
    ensures
        text_views(final(resources)@) == text_views(old(resources)@) + text_views(items@).map_values(
            |t: Seq<char>| prefix@ + t,
        ),
{
    let ghost start = text_views(resources@);
    let mut i: usize = 0;
    while i < items.len()
        invariant
            i <= items@.len(),
            text_views(resources@) == start + text_views(items@.take(i as int)).map_values(
                |t: Seq<char>| prefix@ + t,
            ),
        decreases items@.len() - i,
    {
        let ghost before = text_views(resources@);
        resources.push(crate::text::concat(prefix, items[i].as_str()));
        proof {
            assert(text_views(items@.take(i + 1)).map_values(|t: Seq<char>| prefix@ + t) =~= text_views(
                items@.take(i as int),
            ).map_values(|t: Seq<char>| prefix@ + t).push(prefix@ + items@[i as int]@));
            assert(text_views(resources@) =~= before.push(prefix@ + items@[i as int]@));
        }
        i = i + 1;
    }
    proof {
        assert(items@.take(items@.len() as int) =~= items@);
    }
}

/// The report of a dependency-injection failure: a stable `upwell/tooling-*` code, a fixed
/// message and hint, and the identities (never display names) of the components, types, scopes
/// and providers involved.
pub fn di_failure(error: &DiError, phase: Option<String>) -> (r: FailureDetails)
    ensures
        r@ == di_report(*error, opt_text(phase)),
{
    match error {
        DiError::MissingDependency { component_id, dependency_type } => details(
            "upwell/tooling-dependency-missing",
            "A component dependency has no registered provider.",
            phase,
            list2(
                component_resource(component_id.as_str()),
                type_resource(dependency_type.as_str()),
            ),
            "Register one provider for the missing dependency type.",
        ),
        DiError::DependencyCycle => details(
            "upwell/tooling-dependency-cycle",
            "Component dependencies contain a construction cycle.",
            phase,
            list0(),
            "Break the component dependency cycle.",
        ),
        DiError::AmbiguousProvider { component_id, dependency_type } => details(
            "upwell/tooling-provider-ambiguous",
            "A dependency has more than one eligible provider.",
            phase,
            optional_component_and_type(opt_str(component_id), dependency_type.as_str()),
            "Mark one provider primary or request a provider collection.",
        ),
        DiError::ProviderComponentMissing { trait_type, component_type, qualifier } => details(
            "upwell/tooling-provider-component-missing",
            "A provider descriptor references a concrete component that is not in the effective component set.",
            phase,
            list4(
                provider_resource(trait_type.as_str(), component_type.as_str(), qualifier.as_str()),
                component_resource(component_type.as_str()),
                type_resource(trait_type.as_str()),
                type_resource(component_type.as_str()),
            ),
            "Register the provider's concrete component or remove the orphan provider descriptor.",
        ),
        DiError::ScopeViolation {
            component_id,
            dependency_type,
            component_scope_id,
            dependency_scope_id,
        } => details(
            "upwell/tooling-scope-violation",
            "A component dependency crosses an inaccessible or shorter-lived scope boundary.",
            phase,
            list4(
                component_resource(component_id.as_str()),
                type_resource(dependency_type.as_str()),
                scope_resource(component_scope_id.as_str()),
                scope_resource(dependency_scope_id.as_str()),
            ),
            "Move the dependency to a reachable scope or shorten the consumer lifetime.",
        ),
        DiError::ScopeUnreachableDependency {
            component_id,
            dependency_type,
            component_scope_id,
            providers,
        } => {
            let mut resources = list3(
                component_resource(component_id.as_str()),
                type_resource(dependency_type.as_str()),
                scope_resource(component_scope_id.as_str()),
            );
            candidates(dependency_type.as_str(), providers, &mut resources);
            details(
                "upwell/tooling-scope-unreachable",
                "Registered providers exist, but none is reachable from the consumer scope.",
                phase,
                resources,
                "Move a provider into the consumer's scope chain or move the consumer beneath a provider scope.",
            )
        },
        DiError::InvalidFreshDependency {
            component_id,
            dependency_type,
            component_scope,
            dependency_scope,
        } => details(
            "upwell/tooling-fresh-dependency-invalid",
            "A fresh dependency cannot be constructed from the consumer scope.",
            phase,
            list4(
                component_resource(component_id.as_str()),
                type_resource(dependency_type.as_str()),
                scope_resource(component_scope.as_str()),
                scope_resource(dependency_scope.as_str()),
            ),
            "Use a reachable factory-backed target or change the dependency resolution mode.",
        ),
        DiError::DeferredTransientDependency {
            component_id,
            dependency_type,
            component_scope,
            dependency_scope,
        } => details(
            "upwell/tooling-deferred-transient",
            "A deferred dependency selected a transient target that cannot be hydrated.",
            phase,
            list4(
                component_resource(component_id.as_str()),
                type_resource(dependency_type.as_str()),
                scope_resource(component_scope.as_str()),
                scope_resource(dependency_scope.as_str()),
            ),
            "Store the target in a scope or use eager, lazy, or fresh resolution.",
        ),
        DiError::UnsupportedFreshFactory { component_id, dependency_type } => details(
            "upwell/tooling-fresh-factory-unsupported",
            "Fresh construction selected a component without a usable factory.",
            phase,
            optional_component_and_type(opt_str(component_id), dependency_type.as_str()),
            "Register a component factory or use stored resolution.",
        ),
        DiError::DuplicateProviderQualifier { trait_type, scope } => details(
            "upwell/tooling-provider-qualifier-duplicate",
            "Provider qualifier selection is ambiguous within one scope.",
            phase,
            list2(type_resource(trait_type.as_str()), scope_resource(scope.as_str())),
            "Give same-scope providers unique qualifiers.",
        ),
        DiError::MissingProviderOrderTarget { component_id, target_type } => provider_order_failure(
            phase,
            list2(
                component_resource(component_id.as_str()),
                type_resource(target_type.as_str()),
            ),
        ),
        DiError::SelfProviderOrder { component_id, component_type } => provider_order_failure(
            phase,
            list2(
                component_resource(component_id.as_str()),
                type_resource(component_type.as_str()),
            ),
        ),
        DiError::ProviderOrderSourceTraitMismatch { component_id, component_type, trait_type } =>
            provider_order_failure(
            phase,
            list3(
                component_resource(component_id.as_str()),
                type_resource(component_type.as_str()),
                type_resource(trait_type.as_str()),
            ),
        ),
        DiError::ProviderOrderTargetTraitMismatch {
            component_id,
            component_type,
            target_id,
            target_type,
            trait_type,
        } => provider_order_failure(
            phase,
            list5(
                component_resource(component_id.as_str()),
                type_resource(component_type.as_str()),
                component_resource(target_id.as_str()),
                type_resource(target_type.as_str()),
                type_resource(trait_type.as_str()),
            ),
        ),
        DiError::ProviderOrderCycle { trait_type, component_ids, component_types } => {
            let mut resources = list1(type_resource(trait_type.as_str()));
            prefixed_all("component:", component_ids, &mut resources);
            prefixed_all("type:", component_types, &mut resources);
            proof {
                let ids = text_views(component_ids@);
                let tys = text_views(component_types@);
                assert(ids.map_values(|t: Seq<char>| "component:"@ + t) =~= ids.map_values(
                    |c: Seq<char>| component_text(c),
                ));
                assert(tys.map_values(|t: Seq<char>| "type:"@ + t) =~= tys.map_values(
                    |t: Seq<char>| type_text(t),
                ));
            }
            provider_order_failure(phase, resources)
        },
        DiError::Other => details(
            "upwell/tooling-dependency-graph",
            "The dependency graph is structurally invalid.",
            phase,
            list0(),
            "Run the selected target normally to investigate the dependency failure.",
        ),
    }
}

// ---------------------------------------------------------------------------------------------
// Configuration and application failures
// ---------------------------------------------------------------------------------------------

/// A configuration failure, with the identities the report needs.
pub enum ConfigError {
    /// A configuration source could not be read; `detail` is the underlying error's text.
    Io { detail: String },
    /// A configuration source could not be parsed; `detail` is the parser's text.
    Parse { detail: String },
    /// A configuration source uses an unsupported format.
    UnsupportedFormat,
    /// A required value is absent at `path`.
    MissingPath { path: String },
    /// A placeholder at `path` could not be resolved; `detail` may hold resolved values.
    Substitution { path: String, detail: String },
    /// Any other configuration failure, with its text.
    Other { detail: String },
}

/// `config:<path>`.
pub open spec fn config_text(path: Seq<char>) -> Seq<char> {
    "config:"@ + path
}

/// The report of a configuration failure. Only the path of the value involved is reported,
/// never the value or the underlying error's text.
pub open spec fn config_report(e: ConfigError, phase: Option<Seq<char>>) -> FailureView {
    match e {
        ConfigError::Io { .. } => report(
            "overseerd/tooling-config-read"@,
            "A configuration source could not be read."@,
            phase,
            Seq::empty(),
            "Verify that the configuration source exists and is readable."@,
        ),
        ConfigError::Parse { .. } => report(
            "overseerd/tooling-config-parse"@,
            "A configuration source could not be parsed."@,
            phase,
            Seq::empty(),
            "Correct the configuration syntax or unresolved placeholders."@,
        ),
        ConfigError::UnsupportedFormat => report(
            "overseerd/tooling-config-format"@,
            "A configuration source uses an unsupported format."@,
            phase,
            Seq::empty(),
            "Use a configuration format enabled for the selected target."@,
        ),
        ConfigError::MissingPath { path } => report(
            "overseerd/tooling-config-value-missing"@,
            "A required configuration value is absent."@,
            phase,
            seq![config_text(path@)],
            "Define the required configuration path in an active source."@,
        ),
        ConfigError::Substitution { path, .. } => report(
            "upwell/tooling-config-substitution"@,
            "A configuration placeholder could not be resolved."@,
            phase,
            seq![config_text(path@)],
            "Define the referenced value without exposing it through probe output."@,
        ),
        ConfigError::Other { .. } => report(
            "overseerd/tooling-config"@,
            "Configuration could not be prepared for tooling."@,
            phase,
            Seq::empty(),
            "Run the selected target normally to investigate the configuration failure."@,
        ),
    }
}

/// The report of a configuration failure.
pub fn config_failure(error: &ConfigError, phase: Option<String>) -> (r: FailureDetails)
    ensures
        r@ == config_report(*error, opt_text(phase)),
{
    match error {
        ConfigError::Io { .. } => details(
            "overseerd/tooling-config-read",
            "A configuration source could not be read.",
            phase,
            list0(),
            "Verify that the configuration source exists and is readable.",
        ),
        ConfigError::Parse { .. } => details(
            "overseerd/tooling-config-parse",
            "A configuration source could not be parsed.",
            phase,
            list0(),
            "Correct the configuration syntax or unresolved placeholders.",
        ),
        ConfigError::UnsupportedFormat => details(
            "overseerd/tooling-config-format",
            "A configuration source uses an unsupported format.",
            phase,
            list0(),
            "Use a configuration format enabled for the selected target.",
        ),
        ConfigError::MissingPath { path } => details(
            "overseerd/tooling-config-value-missing",
            "A required configuration value is absent.",
            phase,
            list1(config_resource(path.as_str())),
            "Define the required configuration path in an active source.",
        ),
        ConfigError::Substitution { path, .. } => details(
            "upwell/tooling-config-substitution",
            "A configuration placeholder could not be resolved.",
            phase,
            list1(config_resource(path.as_str())),
            "Define the referenced value without exposing it through probe output.",
        ),
        ConfigError::Other { .. } => details(
            "overseerd/tooling-config",
            "Configuration could not be prepared for tooling.",
            phase,
            list0(),
            "Run the selected target normally to investigate the configuration failure.",
        ),
    }
}

/// The resources of a scope topology failure: the scopes involved, in the error's order.
pub open spec fn scope_topology_texts(e: ScopeTopologyError) -> Seq<Seq<char>> {
    match e {
        ScopeTopologyError::DuplicateId { id } => seq![scope_text(id@)],
        ScopeTopologyError::ReservedId { id } => seq![scope_text(id@)],
        ScopeTopologyError::SelfParent { id } => seq![scope_text(id@)],
        ScopeTopologyError::MissingParent { id, parent } => seq![
            scope_text(id@),
            scope_text(parent@),
        ],
        ScopeTopologyError::Cycle { members } => members@.map_values(
            |m: crate::scope::ScopeId| scope_text(m@),
        ),
        ScopeTopologyError::InvalidParentRank { child, parent, .. } => seq![
            scope_text(child@),
            scope_text(parent@),
        ],
    }
}

/// The scopes named by a scope topology failure.
pub fn scope_topology_resources(error: &ScopeTopologyError) -> (r: Vec<String>)
    ensures
        text_views(r@) == scope_topology_texts(*error),
{
    match error {
        ScopeTopologyError::DuplicateId { id } => list1(scope_resource(id.text.as_str())),
        ScopeTopologyError::ReservedId { id } => list1(scope_resource(id.text.as_str())),
        ScopeTopologyError::SelfParent { id } => list1(scope_resource(id.text.as_str())),
        ScopeTopologyError::MissingParent { id, parent } => list2(
            scope_resource(id.text.as_str()),
            scope_resource(parent.text.as_str()),
        ),
        ScopeTopologyError::Cycle { members } => {
            let mut r: Vec<String> = Vec::new();
            let mut i: usize = 0;
            while i < members.len()
                invariant
                    i <= members@.len(),
                    r@.len() == i,
                    forall|j: int| 0 <= j < i ==> (#[trigger] r@[j])@ == scope_text(members@[j]@),
                decreases members@.len() - i,
            {
                r.push(scope_resource(members[i].text.as_str()));
                i = i + 1;
            }
            proof {
                assert(text_views(r@) =~= members@.map_values(
                    |m: crate::scope::ScopeId| scope_text(m@),
                ));
            }
            r
        },
        ScopeTopologyError::InvalidParentRank { child, parent, .. } => list2(
            scope_resource(child.text.as_str()),
            scope_resource(parent.text.as_str()),
        ),
    }
}

/// A plugin-plan failure, with the identities the report needs.
pub enum PluginPlanError {
    DuplicateCliProvider { provenance: ContributionProvenance },
    ReservedCliProviderNamespace { provenance: ContributionProvenance },
    DuplicateContribution { provenance: ContributionProvenance },
    ReservedContributionNamespace { provenance: ContributionProvenance },
    /// Invalid tooling metadata from a plugin.
    Tooling,
    MissingInstallation { plugin: String, provenance: InstallationProvenance },
}

/// The resources of a plugin-plan failure.
pub open spec fn plugin_plan_texts(e: PluginPlanError) -> Seq<Seq<char>> {
    match e {
        PluginPlanError::DuplicateCliProvider { provenance } => seq![
            contributor_text(provenance.contributor),
            contribution_text(provenance),
        ],
        PluginPlanError::ReservedCliProviderNamespace { provenance } => seq![
            contributor_text(provenance.contributor),
            contribution_text(provenance),
        ],
        PluginPlanError::DuplicateContribution { provenance } => seq![
            contributor_text(provenance.contributor),
            contribution_text(provenance),
        ],
        PluginPlanError::ReservedContributionNamespace { provenance } => seq![
            contributor_text(provenance.contributor),
            contribution_text(provenance),
        ],
        PluginPlanError::Tooling => Seq::empty(),
        PluginPlanError::MissingInstallation { plugin, provenance } => seq![
            "plugin:"@ + plugin@,
            installation_text(provenance),
        ],
    }
}

/// The severity of a diagnostic.
#[derive(Clone, Copy, Debug, PartialEq, Eq, Structural)]
pub enum DiagnosticSeverity {
    Error,
}

/// One structured diagnostic of a failed probe: its code, severity, message, the resources
/// it names, its source locations (as text) and a fix.
pub struct Diagnostic {
    pub code: String,
    pub severity: DiagnosticSeverity,
    pub message: String,
    pub resources: Vec<String>,
    pub sources: Vec<String>,
    pub fix: Option<String>,
}

/// The texts of a diagnostic.
pub struct DiagnosticView {
    pub code: Seq<char>,
    pub severity: DiagnosticSeverity,
    pub message: Seq<char>,
    pub resources: Seq<Seq<char>>,
    pub sources: Seq<Seq<char>>,
    pub fix: Option<Seq<char>>,
}

impl View for Diagnostic {
    type V = DiagnosticView;

    open spec fn view(&self) -> DiagnosticView {
        DiagnosticView {
            code: self.code@,
            severity: self.severity,
            message: self.message@,
            resources: text_views(self.resources@),
            sources: text_views(self.sources@),
            fix: opt_text(self.fix),
        }
    }
}

/// A framework diagnostic with the given parts and fix.
pub open spec fn diagnostic_view(
    code: Seq<char>,
    message: Seq<char>,
    resources: Seq<Seq<char>>,
    fix: Seq<char>,
) -> DiagnosticView {
    DiagnosticView {
        code,
        severity: DiagnosticSeverity::Error,
        message,
        resources,
        sources: Seq::empty(),
        fix: Some(fix),
    }
}

/// A framework diagnostic with the given parts and fix.
pub fn framework_diagnostic(code: &str, message: String, resources: Vec<String>, fix: &str) -> (r:
    Diagnostic)
    ensures
        r@ == diagnostic_view(code@, message@, text_views(resources@), fix@),
{
    let r = Diagnostic {
        code: owned(code),
        severity: DiagnosticSeverity::Error,
        message,
        resources,
        sources: Vec::new(),
        fix: Some(owned(fix)),
    };
    proof {
        assert(text_views(r.sources@) =~= Seq::<Seq<char>>::empty());
    }
    r
}

/// The diagnostic of a plugin-plan failure.
pub fn plugin_plan_diagnostic(error: &PluginPlanError) -> (r: Diagnostic)
    ensures
        r@ == diagnostic_view(
            "overseerd/tooling-plugin-plan"@,
            "Plugin contributions could not be lowered into the application plan."@,
            plugin_plan_texts(*error),
            "Correct duplicate or reserved plugin contribution identities."@,
        ),
{
    let resources = match error {
        PluginPlanError::DuplicateCliProvider { provenance } => contribution_resources(provenance),
        PluginPlanError::ReservedCliProviderNamespace { provenance } => contribution_resources(
            provenance,
        ),
        PluginPlanError::DuplicateContribution { provenance } => contribution_resources(provenance),
        PluginPlanError::ReservedContributionNamespace { provenance } => contribution_resources(
            provenance,
        ),
        PluginPlanError::Tooling => list0(),
        PluginPlanError::MissingInstallation { plugin, provenance } => list2(
            plugin_resource(plugin.as_str()),
            installation_resource(provenance),
        ),
    };
    proof {
        assert(text_views(resources@) =~= plugin_plan_texts(*error));
    }
    framework_diagnostic(
        "overseerd/tooling-plugin-plan",
        owned("Plugin contributions could not be lowered into the application plan."),
        resources,
        "Correct duplicate or reserved plugin contribution identities.",
    )
}

/// The diagnostic of a scope topology failure, with the failure's own text as message.
pub fn scope_topology_diagnostic(error: &ScopeTopologyError, text: &str) -> (r: Diagnostic)
    ensures
        r@ == diagnostic_view(
            "overseerd/tooling-scope-topology"@,
            text@,
            scope_topology_texts(*error),
            "Correct duplicate, missing, cyclic, or invalid scope parent declarations."@,
        ),
{
    framework_diagnostic(
        "overseerd/tooling-scope-topology",
        owned(text),
        scope_topology_resources(error),
        "Correct duplicate, missing, cyclic, or invalid scope parent declarations.",
    )
}

/// A command-line definition conflict.
pub struct CliDefinitionError {
    pub command: String,
    /// The kind of the conflicting definition, as displayed.
    pub kind: String,
    pub value: String,
    pub first: CliDefinitionSource,
    pub second: CliDefinitionSource,
}

/// The resources of a command-line definition conflict: the command, the definition, then
/// both sources.
pub open spec fn cli_definition_texts(e: CliDefinitionError) -> Seq<Seq<char>> {
    seq!["cli-command:"@ + e.command@, "cli-definition:"@ + e.kind@ + ":"@ + e.value@]
        + crate::resource_ids::cli_source_texts(e.first) + crate::resource_ids::cli_source_texts(
        e.second,
    )
}

/// The diagnostic of a command-line definition conflict.
pub fn cli_definition_diagnostic(error: &CliDefinitionError) -> (r: Diagnostic)
    ensures
        r@ == diagnostic_view(
            "overseerd/tooling-cli-definition"@,
            "The generated command-line definition is structurally invalid."@,
            cli_definition_texts(*error),
            "Rename or remove the conflicting command-line declaration."@,
        ),
{
    let command = crate::text::concat("cli-command:", error.command.as_str());
    let mut definition = crate::text::concat3("cli-definition:", error.kind.as_str(), ":");
    definition.append(error.value.as_str());
    let mut resources = list2(command, definition);
    let mut first = crate::resource_ids::cli_definition_source_resources(&error.first);
    let mut second = crate::resource_ids::cli_definition_source_resources(&error.second);
    resources.append(&mut first);
    resources.append(&mut second);
    proof {
        assert(text_views(resources@) =~= cli_definition_texts(*error));
    }
    framework_diagnostic(
        "overseerd/tooling-cli-definition",
        owned("The generated command-line definition is structurally invalid."),
        resources,
        "Rename or remove the conflicting command-line declaration.",
    )
}

// ---------------------------------------------------------------------------------------------
// Plugin composition diagnostics
// ---------------------------------------------------------------------------------------------

/// One member of a plugin ordering cycle.
pub struct CycleMember {
    pub plugin: String,
    pub provenance: InstallationProvenance,
}

/// A plugin composition failure, with the identities its report names (plugins and slots by
/// id, installations by provenance).
pub enum CompositionDiagnostic {
    ReservedNamespace { plugin: String, provenance: InstallationProvenance },
    ReservedSlotNamespace { slot: String, provenance: InstallationProvenance },
    ReplacementTargetMissing { slot: String, provenance: InstallationProvenance },
    ReplacementForbidden { slot: String, provenance: InstallationProvenance },
    SuppressionTargetMissing { slot: String, provenance: InstallationProvenance },
    SuppressionForbidden { slot: String, provenance: InstallationProvenance },
    LateSlotMutation { slot: String, provenance: InstallationProvenance },
    ProtocolOriginMismatch {
        selected: String,
        declared: String,
        provenance: InstallationProvenance,
    },
    DuplicatePlugin { id: String, first: InstallationProvenance, second: InstallationProvenance },
    DuplicateSlot {
        slot: String,
        first_plugin: String,
        first: InstallationProvenance,
        second_plugin: String,
        second: InstallationProvenance,
    },
    MissingDependency { plugin: String, provenance: InstallationProvenance, target: RelationTarget },
    SelfDependency { plugin: String, provenance: InstallationProvenance, target: RelationTarget },
    SelfConflict { plugin: String, provenance: InstallationProvenance, target: RelationTarget },
    SelfOrdering { plugin: String, provenance: InstallationProvenance, target: RelationTarget },
    Conflict {
        left: String,
        left_provenance: InstallationProvenance,
        right: String,
        right_provenance: InstallationProvenance,
    },
    MultipleReplacements {
        slot: String,
        first: InstallationProvenance,
        second: InstallationProvenance,
    },
    MultipleSuppressions {
        slot: String,
        first: InstallationProvenance,
        second: InstallationProvenance,
    },
    ConflictingSlotDirectives {
        slot: String,
        first: InstallationProvenance,
        second: InstallationProvenance,
    },
    ReplacementDeclaresSlot {
        target: String,
        declared: String,
        plugin: String,
        provenance: InstallationProvenance,
    },
    UnexpectedPhase { provenance: InstallationProvenance },
    LateOrderingBeforeEarly { plugin: String, target: String, provenance: InstallationProvenance },
    EarlyOrderingAfterLate { plugin: String, target: String, provenance: InstallationProvenance },
    Cycle { members: Vec<CycleMember> },
}

/// `plugin:<id>`.
pub open spec fn plugin_text(id: Seq<char>) -> Seq<char> {
    "plugin:"@ + id
}

/// `plugin-slot:<id>`.
pub open spec fn slot_text(id: Seq<char>) -> Seq<char> {
    "plugin-slot:"@ + id
}

/// `protocol:<id>`.
pub open spec fn protocol_text(id: Seq<char>) -> Seq<char> {
    "protocol:"@ + id
}

/// The resources of a cycle's members: each member's plugin, then its installation.
pub open spec fn cycle_texts(ms: Seq<CycleMember>) -> Seq<Seq<char>>
    decreases ms.len(),
{
    if ms.len() == 0 {
        Seq::empty()
    } else {
        cycle_texts(ms.drop_last()) + seq![
            plugin_text(ms.last().plugin@),
            installation_text(ms.last().provenance),
        ]
    }
}

/// The resources a composition diagnostic names, in order.
pub open spec fn composition_texts(d: CompositionDiagnostic) -> Seq<Seq<char>> {
    match d {
        CompositionDiagnostic::ReservedNamespace { plugin, provenance } => seq![
            plugin_text(plugin@),
            installation_text(provenance),
        ],
        CompositionDiagnostic::ReservedSlotNamespace { slot, provenance } => seq![
            slot_text(slot@),
            installation_text(provenance),
        ],
        CompositionDiagnostic::ReplacementTargetMissing { slot, provenance } => seq![
            slot_text(slot@),
            installation_text(provenance),
        ],
        CompositionDiagnostic::ReplacementForbidden { slot, provenance } => seq![
            slot_text(slot@),
            installation_text(provenance),
        ],
        CompositionDiagnostic::SuppressionTargetMissing { slot, provenance } => seq![
            slot_text(slot@),
            installation_text(provenance),
        ],
        CompositionDiagnostic::SuppressionForbidden { slot, provenance } => seq![
            slot_text(slot@),
            installation_text(provenance),
        ],
        CompositionDiagnostic::LateSlotMutation { slot, provenance } => seq![
            slot_text(slot@),
            installation_text(provenance),
        ],
        CompositionDiagnostic::ProtocolOriginMismatch { selected, declared, provenance } => seq![
            protocol_text(selected@),
            protocol_text(declared@),
            installation_text(provenance),
        ],
        CompositionDiagnostic::DuplicatePlugin { id, first, second } => seq![
            plugin_text(id@),
            installation_text(first),
            installation_text(second),
        ],
        CompositionDiagnostic::DuplicateSlot { slot, first_plugin, first, second_plugin, second } =>
            seq![
            slot_text(slot@),
            plugin_text(first_plugin@),
            installation_text(first),
            plugin_text(second_plugin@),
            installation_text(second),
        ],
        CompositionDiagnostic::MissingDependency { plugin, provenance, target } => seq![
            plugin_text(plugin@),
            installation_text(provenance),
            relation_target_text(target),
        ],
        CompositionDiagnostic::SelfDependency { plugin, provenance, target } => seq![
            plugin_text(plugin@),
            installation_text(provenance),
            relation_target_text(target),
        ],
        CompositionDiagnostic::SelfConflict { plugin, provenance, target } => seq![
            plugin_text(plugin@),
            installation_text(provenance),
            relation_target_text(target),
        ],
        CompositionDiagnostic::SelfOrdering { plugin, provenance, target } => seq![
            plugin_text(plugin@),
            installation_text(provenance),
            relation_target_text(target),
        ],
        CompositionDiagnostic::Conflict { left, left_provenance, right, right_provenance } => seq![
            plugin_text(left@),
            installation_text(left_provenance),
            plugin_text(right@),
            installation_text(right_provenance),
        ],
        CompositionDiagnostic::MultipleReplacements { slot, first, second } => seq![
            slot_text(slot@),
            installation_text(first),
            installation_text(second),
        ],
        CompositionDiagnostic::MultipleSuppressions { slot, first, second } => seq![
            slot_text(slot@),
            installation_text(first),
            installation_text(second),
        ],
        CompositionDiagnostic::ConflictingSlotDirectives { slot, first, second } => seq![
            slot_text(slot@),
            installation_text(first),
            installation_text(second),
        ],
        CompositionDiagnostic::ReplacementDeclaresSlot { target, declared, plugin, provenance } =>
            seq![
            slot_text(target@),
            slot_text(declared@),
            plugin_text(plugin@),
            installation_text(provenance),
        ],
        CompositionDiagnostic::UnexpectedPhase { provenance } => seq![installation_text(provenance)],
        CompositionDiagnostic::LateOrderingBeforeEarly { plugin, target, provenance } => seq![
            plugin_text(plugin@),
            plugin_text(target@),
            installation_text(provenance),
        ],
        CompositionDiagnostic::EarlyOrderingAfterLate { plugin, target, provenance } => seq![
            plugin_text(plugin@),
            plugin_text(target@),
            installation_text(provenance),
        ],
        CompositionDiagnostic::Cycle { members } => cycle_texts(members@),
    }
}

fn slot_and_installation(slot: &str, provenance: &InstallationProvenance) -> (r: Vec<String>)
    ensures
        text_views(r@) == seq![slot_text(slot@), installation_text(*provenance)],
{
    list2(plugin_slot_resource(slot), installation_resource(provenance))
}

fn plugin_installation_target(
    plugin: &str,
    provenance: &InstallationProvenance,
    target: &RelationTarget,
) -> (r: Vec<String>)
    ensures
        text_views(r@) == seq![
            plugin_text(plugin@),
            installation_text(*provenance),
            relation_target_text(*target),
        ],
{
    list3(
        plugin_resource(plugin),
        installation_resource(provenance),
        relation_target_resource(target),
    )
}

fn slot_and_two_installations(
    slot: &str,
    first: &InstallationProvenance,
    second: &InstallationProvenance,
) -> (r: Vec<String>)
    ensures
        text_views(r@) == seq![
            slot_text(slot@),
            installation_text(*first),
            installation_text(*second),
        ],
{
    list3(plugin_slot_resource(slot), installation_resource(first), installation_resource(second))
}

/// The resources a composition diagnostic names: plugins and slots by id, installations by
/// origin and ordinal, in the order the diagnostic lists them.
pub fn composition_resources(error: &CompositionDiagnostic) -> (r: Vec<String>)
    ensures
        text_views(r@) == composition_texts(*error),
{
    match error {
        CompositionDiagnostic::ReservedNamespace { plugin, provenance } => list2(
            plugin_resource(plugin.as_str()),
            installation_resource(provenance),
        ),
        CompositionDiagnostic::ReservedSlotNamespace { slot, provenance } => slot_and_installation(
            slot.as_str(),
            provenance,
        ),
        CompositionDiagnostic::ReplacementTargetMissing { slot, provenance } =>
            slot_and_installation(slot.as_str(), provenance),
        CompositionDiagnostic::ReplacementForbidden { slot, provenance } => slot_and_installation(
            slot.as_str(),
            provenance,
        ),
        CompositionDiagnostic::SuppressionTargetMissing { slot, provenance } =>
            slot_and_installation(slot.as_str(), provenance),
        CompositionDiagnostic::SuppressionForbidden { slot, provenance } => slot_and_installation(
            slot.as_str(),
            provenance,
        ),
        CompositionDiagnostic::LateSlotMutation { slot, provenance } => slot_and_installation(
            slot.as_str(),
            provenance,
        ),
        CompositionDiagnostic::ProtocolOriginMismatch { selected, declared, provenance } => list3(
            protocol_resource(selected.as_str()),
            protocol_resource(declared.as_str()),
            installation_resource(provenance),
        ),
        CompositionDiagnostic::DuplicatePlugin { id, first, second } => list3(
            plugin_resource(id.as_str()),
            installation_resource(first),
            installation_resource(second),
        ),
        CompositionDiagnostic::DuplicateSlot { slot, first_plugin, first, second_plugin, second } =>
            list5(
            plugin_slot_resource(slot.as_str()),
            plugin_resource(first_plugin.as_str()),
            installation_resource(first),
            plugin_resource(second_plugin.as_str()),
            installation_resource(second),
        ),
        CompositionDiagnostic::MissingDependency { plugin, provenance, target } =>
            plugin_installation_target(plugin.as_str(), provenance, target),
        CompositionDiagnostic::SelfDependency { plugin, provenance, target } =>
            plugin_installation_target(plugin.as_str(), provenance, target),
        CompositionDiagnostic::SelfConflict { plugin, provenance, target } =>
            plugin_installation_target(plugin.as_str(), provenance, target),
        CompositionDiagnostic::SelfOrdering { plugin, provenance, target } =>
            plugin_installation_target(plugin.as_str(), provenance, target),
        CompositionDiagnostic::Conflict { left, left_provenance, right, right_provenance } => list4(
            plugin_resource(left.as_str()),
            installation_resource(left_provenance),
            plugin_resource(right.as_str()),
            installation_resource(right_provenance),
        ),
        CompositionDiagnostic::MultipleReplacements { slot, first, second } =>
            slot_and_two_installations(slot.as_str(), first, second),
        CompositionDiagnostic::MultipleSuppressions { slot, first, second } =>
            slot_and_two_installations(slot.as_str(), first, second),
        CompositionDiagnostic::ConflictingSlotDirectives { slot, first, second } =>
            slot_and_two_installations(slot.as_str(), first, second),
        CompositionDiagnostic::ReplacementDeclaresSlot { target, declared, plugin, provenance } =>
            list4(
            plugin_slot_resource(target.as_str()),
            plugin_slot_resource(declared.as_str()),
            plugin_resource(plugin.as_str()),
            installation_resource(provenance),
        ),
        CompositionDiagnostic::UnexpectedPhase { provenance } => list1(
            installation_resource(provenance),
        ),
        CompositionDiagnostic::LateOrderingBeforeEarly { plugin, target, provenance } => list3(
            plugin_resource(plugin.as_str()),
            plugin_resource(target.as_str()),
            installation_resource(provenance),
        ),
        CompositionDiagnostic::EarlyOrderingAfterLate { plugin, target, provenance } => list3(
            plugin_resource(plugin.as_str()),
            plugin_resource(target.as_str()),
            installation_resource(provenance),
        ),
        CompositionDiagnostic::Cycle { members } => {
            let mut r: Vec<String> = Vec::new();
            let mut i: usize = 0;
            proof {
                assert(members@.take(0) =~= Seq::<CycleMember>::empty());
                assert(text_views(r@) =~= cycle_texts(members@.take(0)));
            }
            while i < members.len()
                invariant
                    i <= members@.len(),
                    text_views(r@) == cycle_texts(members@.take(i as int)),
                decreases members@.len() - i,
            {
                let ghost before = text_views(r@);
                let m = &members[i];
                r.push(plugin_resource(m.plugin.as_str()));
                r.push(installation_resource(&m.provenance));
                proof {
                    let taken = members@.take(i + 1);
                    assert(taken.drop_last() =~= members@.take(i as int));
                    assert(taken.last() == *m);
                    assert(text_views(r@) =~= before + seq![
                        plugin_text(m.plugin@),
                        installation_text(m.provenance),
                    ]);
                }
                i = i + 1;
            }
            proof {
                assert(members@.take(members@.len() as int) =~= members@);
            }
            r
        },
    }
}

/// The diagnostic of a plugin composition failure, with the failure's own text as message.
pub fn composition_diagnostic(error: &CompositionDiagnostic, text: &str) -> (r: Diagnostic)
    ensures
        r@ == diagnostic_view(
            "overseerd/tooling-plugin-composition"@,
            text@,
            composition_texts(*error),
            "Correct the conflicting plugin declarations or dependencies."@,
        ),
{
    framework_diagnostic(
        "overseerd/tooling-plugin-composition",
        owned(text),
        composition_resources(error),
        "Correct the conflicting plugin declarations or dependencies.",
    )
}

// ---------------------------------------------------------------------------------------------
// Application and probe failures
// ---------------------------------------------------------------------------------------------

/// A composition diagnostic with its displayed text.
pub struct CompositionReport {
    pub diagnostic: CompositionDiagnostic,
    pub text: String,
}

/// A framework failure while preparing an application, with what its report needs.
pub enum AppError {
    /// A component requires a configuration binding that is not registered.
    MissingConfig { component: String, path: String },
    /// A component's configuration binding is ambiguous.
    AmbiguousConfig { component: String },
    Config(ConfigError),
    Di(DiError),
    /// A lifecycle hook could not be prepared.
    Hook,
    /// Plugin declarations could not be composed.
    Composition(Vec<CompositionReport>),
    PluginPlan(PluginPlanError),
    /// The protocol's scope topology is invalid; `text` is the failure's displayed text.
    ScopeTopology { error: ScopeTopologyError, text: String },
    /// A component refers to a scope the protocol does not declare.
    UndeclaredScope { component: String, scope: String },
    /// Any other framework failure, with its text.
    Other { detail: String },
}

/// The report of a framework failure.
pub open spec fn app_report(e: AppError, phase: Option<Seq<char>>) -> FailureView {
    match e {
        AppError::MissingConfig { component, path } => report(
            "overseerd/tooling-config-binding-missing"@,
            "A component requires a configuration binding that is not registered."@,
            phase,
            seq![component_text(component@), config_text(path@)],
            "Register the missing configuration binding or name an existing binding."@,
        ),
        AppError::AmbiguousConfig { component } => report(
            "overseerd/tooling-config-binding-ambiguous"@,
            "A component configuration binding is ambiguous."@,
            phase,
            seq![component_text(component@)],
            "Name the intended configuration path explicitly."@,
        ),
        AppError::Config(c) => config_report(c, phase),
        AppError::Di(d) => di_report(d, phase),
        AppError::Hook => report(
            "overseerd/tooling-hook"@,
            "A framework lifecycle hook could not be prepared."@,
            phase,
            Seq::empty(),
            "Run the selected target normally to investigate the hook failure."@,
        ),
        AppError::Composition(_) => report(
            "overseerd/tooling-plugin-composition"@,
            "Plugin declarations could not be composed into a deterministic plan."@,
            phase,
            Seq::empty(),
            "Correct the conflicting plugin declarations or dependencies."@,
        ),
        AppError::PluginPlan(_) => report(
            "overseerd/tooling-plugin-plan"@,
            "Plugin contributions could not be lowered into the application plan."@,
            phase,
            Seq::empty(),
            "Correct duplicate or reserved plugin contribution identities."@,
        ),
        AppError::ScopeTopology { error, .. } => report(
            "overseerd/tooling-scope-topology"@,
            "The protocol scope topology is structurally invalid."@,
            phase,
            scope_topology_texts(error),
            "Correct duplicate, missing, cyclic, or invalid scope parent declarations."@,
        ),
        AppError::UndeclaredScope { component, scope } => report(
            "overseerd/tooling-scope-undeclared"@,
            "A component refers to a scope absent from the selected protocol."@,
            phase,
            seq![component_text(component@), scope_text(scope@)],
            "Declare the scope in the protocol topology or change the component scope."@,
        ),
        AppError::Other { .. } => report(
            "overseerd/tooling-framework"@,
            "The framework could not prepare the application tooling plan."@,
            phase,
            Seq::empty(),
            "Run the selected target normally to investigate the framework failure."@,
        ),
    }
}

/// The report of a framework failure.
pub fn app_failure(error: &AppError, phase: Option<String>) -> (r: FailureDetails)
    ensures
        r@ == app_report(*error, opt_text(phase)),
{
    match error {
        AppError::MissingConfig { component, path } => details(
            "overseerd/tooling-config-binding-missing",
            "A component requires a configuration binding that is not registered.",
            phase,
            list2(component_resource(component.as_str()), config_resource(path.as_str())),
            "Register the missing configuration binding or name an existing binding.",
        ),
        AppError::AmbiguousConfig { component } => details(
            "overseerd/tooling-config-binding-ambiguous",
            "A component configuration binding is ambiguous.",
            phase,
            list1(component_resource(component.as_str())),
            "Name the intended configuration path explicitly.",
        ),
        AppError::Config(c) => config_failure(c, phase),
        AppError::Di(d) => di_failure(d, phase),
        AppError::Hook => details(
            "overseerd/tooling-hook",
            "A framework lifecycle hook could not be prepared.",
            phase,
            list0(),
            "Run the selected target normally to investigate the hook failure.",
        ),
        AppError::Composition(_) => details(
            "overseerd/tooling-plugin-composition",
            "Plugin declarations could not be composed into a deterministic plan.",
            phase,
            list0(),
            "Correct the conflicting plugin declarations or dependencies.",
        ),
        AppError::PluginPlan(_) => details(
            "overseerd/tooling-plugin-plan",
            "Plugin contributions could not be lowered into the application plan.",
            phase,
            list0(),
            "Correct duplicate or reserved plugin contribution identities.",
        ),
        AppError::ScopeTopology { error, .. } => details(
            "overseerd/tooling-scope-topology",
            "The protocol scope topology is structurally invalid.",
            phase,
            scope_topology_resources(error),
            "Correct duplicate, missing, cyclic, or invalid scope parent declarations.",
        ),
        AppError::UndeclaredScope { component, scope } => details(
            "overseerd/tooling-scope-undeclared",
            "A component refers to a scope absent from the selected protocol.",
            phase,
            list2(component_resource(component.as_str()), scope_resource(scope.as_str())),
            "Declare the scope in the protocol topology or change the component scope.",
        ),
        AppError::Other { .. } => details(
            "overseerd/tooling-framework",
            "The framework could not prepare the application tooling plan.",
            phase,
            list0(),
            "Run the selected target normally to investigate the framework failure.",
        ),
    }
}

/// The diagnostics of a failed probe, and the lifecycle phase it failed in.
pub struct ProbeFailure {
    pub phase: Option<String>,
    pub diagnostics: Vec<Diagnostic>,
}

/// The texts of a probe failure.
pub struct ProbeFailureView {
    pub phase: Option<Seq<char>>,
    pub diagnostics: Seq<DiagnosticView>,
}

impl View for ProbeFailure {
    type V = ProbeFailureView;

    open spec fn view(&self) -> ProbeFailureView {
        ProbeFailureView {
            phase: opt_text(self.phase),
            diagnostics: self.diagnostics@.map_values(|d: Diagnostic| d@),
        }
    }
}

/// The diagnostic of one composition report.
pub open spec fn composition_report_view(r: CompositionReport) -> DiagnosticView {
    diagnostic_view(
        "overseerd/tooling-plugin-composition"@,
        r.text@,
        composition_texts(r.diagnostic),
        "Correct the conflicting plugin declarations or dependencies."@,
    )
}

/// The structured diagnostics of a framework failure that has them: one per composition
/// report, or one for a plugin-plan or scope topology failure.
pub open spec fn app_diagnostics_view(e: AppError, phase: Option<Seq<char>>) -> Option<
    ProbeFailureView,
> {
    match e {
        AppError::Composition(reports) => Some(
            ProbeFailureView {
                phase,
                diagnostics: reports@.map_values(|r: CompositionReport| composition_report_view(r)),
            },
        ),
        AppError::PluginPlan(p) => Some(
            ProbeFailureView {
                phase,
                diagnostics: seq![
                    diagnostic_view(
                        "overseerd/tooling-plugin-plan"@,
                        "Plugin contributions could not be lowered into the application plan."@,
                        plugin_plan_texts(p),
                        "Correct duplicate or reserved plugin contribution identities."@,
                    ),
                ],
            },
        ),
        AppError::ScopeTopology { error, text } => Some(
            ProbeFailureView {
                phase,
                diagnostics: seq![
                    diagnostic_view(
                        "overseerd/tooling-scope-topology"@,
                        text@,
                        scope_topology_texts(error),
                        "Correct duplicate, missing, cyclic, or invalid scope parent declarations."@,
                    ),
                ],
            },
        ),
        _ => None,
    }
}

/// The structured diagnostics of a framework failure, if it has them.
pub fn app_diagnostics(error: &AppError, phase: Option<String>) -> (r: Option<ProbeFailure>)
    ensures
        match r {
            Some(f) => app_diagnostics_view(*error, opt_text(phase)) == Some(f@),
            None => app_diagnostics_view(*error, opt_text(phase)) is None,
        },
{
    match error {
        AppError::Composition(reports) => {
            let mut diagnostics: Vec<Diagnostic> = Vec::new();
            let mut i: usize = 0;
            while i < reports.len()
                invariant
                    i <= reports@.len(),
                    diagnostics@.len() == i,
                    forall|j: int|
                        0 <= j < i ==> (#[trigger] diagnostics@[j])@ == composition_report_view(
                            reports@[j],
                        ),
                decreases reports@.len() - i,
            {
                diagnostics.push(composition_diagnostic(&reports[i].diagnostic, reports[i].text.as_str()));
                i = i + 1;
            }
            let f = ProbeFailure { phase, diagnostics };
            proof {
                assert(f@.diagnostics =~= reports@.map_values(
                    |r: CompositionReport| composition_report_view(r),
                ));
            }
            Some(f)
        },
        AppError::PluginPlan(p) => {
            let mut diagnostics: Vec<Diagnostic> = Vec::new();
            diagnostics.push(plugin_plan_diagnostic(p));
            let f = ProbeFailure { phase, diagnostics };
            proof {
                assert(f@.diagnostics =~= app_diagnostics_view(*error, opt_text(phase)).unwrap().diagnostics);
            }
            Some(f)
        },
        AppError::ScopeTopology { error: e, text } => {
            let mut diagnostics: Vec<Diagnostic> = Vec::new();
            diagnostics.push(scope_topology_diagnostic(e, text.as_str()));
            let f = ProbeFailure { phase, diagnostics };
            proof {
                assert(f@.diagnostics =~= app_diagnostics_view(*error, opt_text(phase)).unwrap().diagnostics);
            }
            Some(f)
        },
        _ => None,
    }
}

/// An application lifecycle phase.
#[derive(Clone, Copy, Debug, PartialEq, Eq, Structural)]
pub enum LifecyclePhase {
    Setup,
    Configure,
    BeforeBuild,
    Prepare,
    Build,
    AfterBuild,
    Serve,
}

/// The failure code of a lifecycle phase whose failure is not a framework diagnostic.
pub open spec fn lifecycle_code(phase: LifecyclePhase) -> Seq<char> {
    match phase {
        LifecyclePhase::Setup => "overseerd/tooling-setup"@,
        LifecyclePhase::Configure => "overseerd/tooling-configure"@,
        LifecyclePhase::BeforeBuild => "overseerd/tooling-before-build"@,
        LifecyclePhase::Prepare => "overseerd/tooling-prepare"@,
        LifecyclePhase::Build => "overseerd/tooling-build"@,
        LifecyclePhase::AfterBuild => "overseerd/tooling-after-build"@,
        LifecyclePhase::Serve => "overseerd/tooling-serve"@,
    }
}

/// The failure message of a lifecycle phase whose failure is not a framework diagnostic.
pub open spec fn lifecycle_message(phase: LifecyclePhase) -> Seq<char> {
    match phase {
        LifecyclePhase::Setup => "Application setup failed during the tooling probe."@,
        LifecyclePhase::Configure => "Application configuration failed during the tooling probe."@,
        LifecyclePhase::BeforeBuild =>
            "Application pre-build preparation failed during the tooling probe."@,
        LifecyclePhase::Prepare => "Application planning failed during the tooling probe."@,
        LifecyclePhase::Build => "Application construction failed during the tooling probe."@,
        LifecyclePhase::AfterBuild =>
            "Application post-build processing failed during the tooling probe."@,
        LifecyclePhase::Serve => "Application serving failed during the tooling probe."@,
    }
}

/// Each lifecycle phase reports its own failure code: a failure in one phase is never reported
/// under another phase's code.
pub proof fn law_lifecycle_codes_are_distinct(p: LifecyclePhase, q: LifecyclePhase)
    requires
        p != q,
    ensures
        lifecycle_code(p) != lifecycle_code(q),
{
    reveal_strlit("overseerd/tooling-setup");
    assert("overseerd/tooling-setup"@.len() == 23 && "overseerd/tooling-setup"@[18] == 's' && "overseerd/tooling-setup"@[20] == 't');
    reveal_strlit("overseerd/tooling-configure");
    assert("overseerd/tooling-configure"@.len() == 27 && "overseerd/tooling-configure"@[18] == 'c' && "overseerd/tooling-configure"@[20] == 'n');
    reveal_strlit("overseerd/tooling-before-build");
    assert("overseerd/tooling-before-build"@.len() == 30 && "overseerd/tooling-before-build"@[18] == 'b' && "overseerd/tooling-before-build"@[20] == 'f');
    reveal_strlit("overseerd/tooling-prepare");
    assert("overseerd/tooling-prepare"@.len() == 25 && "overseerd/tooling-prepare"@[18] == 'p' && "overseerd/tooling-prepare"@[20] == 'e');
    reveal_strlit("overseerd/tooling-build");
    assert("overseerd/tooling-build"@.len() == 23 && "overseerd/tooling-build"@[18] == 'b' && "overseerd/tooling-build"@[20] == 'i');
    reveal_strlit("overseerd/tooling-after-build");
    assert("overseerd/tooling-after-build"@.len() == 29 && "overseerd/tooling-after-build"@[18] == 'a' && "overseerd/tooling-after-build"@[20] == 't');
    reveal_strlit("overseerd/tooling-serve");
    assert("overseerd/tooling-serve"@.len() == 23 && "overseerd/tooling-serve"@[18] == 's' && "overseerd/tooling-serve"@[20] == 'r');
}

/// The failure code of a lifecycle phase.
pub fn lifecycle_failure_code(phase: LifecyclePhase) -> (r: &'static str)
    ensures
        r@ == lifecycle_code(phase),
{
    match phase {
        LifecyclePhase::Setup => "overseerd/tooling-setup",
        LifecyclePhase::Configure => "overseerd/tooling-configure",
        LifecyclePhase::BeforeBuild => "overseerd/tooling-before-build",
        LifecyclePhase::Prepare => "overseerd/tooling-prepare",
        LifecyclePhase::Build => "overseerd/tooling-build",
        LifecyclePhase::AfterBuild => "overseerd/tooling-after-build",
        LifecyclePhase::Serve => "overseerd/tooling-serve",
    }
}

/// The failure message of a lifecycle phase.
pub fn lifecycle_failure_message(phase: LifecyclePhase) -> (r: &'static str)
    ensures
        r@ == lifecycle_message(phase),
{
    match phase {
        LifecyclePhase::Setup => "Application setup failed during the tooling probe.",
        LifecyclePhase::Configure => "Application configuration failed during the tooling probe.",
        LifecyclePhase::BeforeBuild =>
            "Application pre-build preparation failed during the tooling probe.",
        LifecyclePhase::Prepare => "Application planning failed during the tooling probe.",
        LifecyclePhase::Build => "Application construction failed during the tooling probe.",
        LifecyclePhase::AfterBuild =>
            "Application post-build processing failed during the tooling probe.",
        LifecyclePhase::Serve => "Application serving failed during the tooling probe.",
    }
}

/// A failure while bootstrapping the probe's environment.
pub enum BootstrapError {
    /// Application directories could not be resolved.
    Directories,
    Config(ConfigError),
    /// The configured log format is not supported.
    LogFormat,
    /// The selected configuration path does not exist.
    MissingConfigPath,
    /// Tracing could not be initialised.
    Tracing,
}

/// The report of a bootstrap failure.
pub open spec fn bootstrap_report(e: BootstrapError) -> FailureView {
    match e {
        BootstrapError::Directories => report(
            "overseerd/tooling-directories"@,
            "Application directories could not be resolved for the tooling probe."@,
            None,
            Seq::empty(),
            "Verify the process environment permits resolving application directories."@,
        ),
        BootstrapError::Config(c) => config_report(c, None),
        BootstrapError::LogFormat => report(
            "overseerd/tooling-log-format"@,
            "The configured tooling log format is not supported."@,
            None,
            Seq::empty(),
            "Use one of: full, compact, pretty, or json."@,
        ),
        BootstrapError::MissingConfigPath => report(
            "overseerd/tooling-config-path-missing"@,
            "The selected configuration path does not exist."@,
            None,
            Seq::empty(),
            "Supply an existing configuration file or directory."@,
        ),
        BootstrapError::Tracing => report(
            "overseerd/tooling-tracing"@,
            "Tracing could not be initialized for the tooling probe."@,
            None,
            Seq::empty(),
            "Remove the conflicting global tracing subscriber or disable probe logging."@,
        ),
    }
}

/// The report of a bootstrap failure.
pub fn bootstrap_failure(error: &BootstrapError) -> (r: FailureDetails)
    ensures
        r@ == bootstrap_report(*error),
{
    match error {
        BootstrapError::Directories => details(
            "overseerd/tooling-directories",
            "Application directories could not be resolved for the tooling probe.",
            None,
            list0(),
            "Verify the process environment permits resolving application directories.",
        ),
        BootstrapError::Config(c) => config_failure(c, None),
        BootstrapError::LogFormat => details(
            "overseerd/tooling-log-format",
            "The configured tooling log format is not supported.",
            None,
            list0(),
            "Use one of: full, compact, pretty, or json.",
        ),
        BootstrapError::MissingConfigPath => details(
            "overseerd/tooling-config-path-missing",
            "The selected configuration path does not exist.",
            None,
            list0(),
            "Supply an existing configuration file or directory.",
        ),
        BootstrapError::Tracing => details(
            "overseerd/tooling-tracing",
            "Tracing could not be initialized for the tooling probe.",
            None,
            list0(),
            "Remove the conflicting global tracing subscriber or disable probe logging.",
        ),
    }
}

/// What failed inside a lifecycle phase: a framework failure, or any other error (by its text).
pub enum LifecycleSource {
    Framework(AppError),
    Foreign(String),
}

/// A failure of the tooling probe as a whole.
pub enum ToolingProbeError {
    Bootstrap(BootstrapError),
    /// The plugin catalog could not be resolved.
    PluginCatalog(AppError),
    CliDefinition(CliDefinitionError),
    /// The generated parser rejected its own defaults.
    CliParse,
    /// A lifecycle phase failed; `phase_text` is the phase as displayed.
    Lifecycle { phase: LifecyclePhase, phase_text: String, source: LifecycleSource },
    /// The prepared application could not be projected.
    Projection,
    /// The probe panicked.
    Panic,
}

/// The single-diagnostic probe failure made from a report.
pub open spec fn single(d: FailureView) -> ProbeFailureView {
    ProbeFailureView {
        phase: d.phase,
        diagnostics: seq![
            DiagnosticView {
                code: d.code,
                severity: DiagnosticSeverity::Error,
                message: d.message,
                resources: d.resources,
                sources: Seq::empty(),
                fix: d.hint,
            },
        ],
    }
}

/// The probe failure reported for a probe error: structured framework diagnostics where the
/// failure has them, else one diagnostic from the failure's report.
pub open spec fn probe_failure_view(e: ToolingProbeError) -> ProbeFailureView {
    match e {
        ToolingProbeError::Bootstrap(b) => single(bootstrap_report(b)),
        ToolingProbeError::PluginCatalog(a) => match app_diagnostics_view(a, None) {
            Some(f) => f,
            None => single(app_report(a, None)),
        },
        ToolingProbeError::CliDefinition(c) => ProbeFailureView {
            phase: None,
            diagnostics: seq![
                diagnostic_view(
                    "overseerd/tooling-cli-definition"@,
                    "The generated command-line definition is structurally invalid."@,
                    cli_definition_texts(c),
                    "Rename or remove the conflicting command-line declaration."@,
                ),
            ],
        },
        ToolingProbeError::CliParse => single(
            report(
                "overseerd/tooling-cli-bootstrap"@,
                "The generated framework parser rejected its own bootstrap defaults."@,
                None,
                Seq::empty(),
                "Correct the generated application CLI defaults and retry the probe."@,
            ),
        ),
        ToolingProbeError::Lifecycle { phase, phase_text, source } => match source {
            LifecycleSource::Framework(a) => match app_diagnostics_view(a, Some(phase_text@)) {
                Some(f) => f,
                None => single(app_report(a, Some(phase_text@))),
            },
            LifecycleSource::Foreign(_) => single(
                report(
                    lifecycle_code(phase),
                    lifecycle_message(phase),
                    Some(phase_text@),
                    Seq::empty(),
                    "Run the selected target normally to investigate the application failure."@,
                ),
            ),
        },
        ToolingProbeError::Projection => single(
            report(
                "overseerd/tooling-projection"@,
                "The prepared application could not be projected into a valid tooling document."@,
                None,
                Seq::empty(),
                "Correct the reported application metadata and retry the probe."@,
            ),
        ),
        ToolingProbeError::Panic => single(
            report(
                "overseerd/tooling-panic"@,
                "The tooling probe panicked while preparing the application."@,
                None,
                Seq::empty(),
                "Run the selected target normally to investigate the application failure."@,
            ),
        ),
    }
}

fn single_failure(d: FailureDetails) -> (r: ProbeFailure)
    ensures
        r@ == single(d@),
{
    let ghost dv = d@;
    let FailureDetails { code, message, phase, resources, hint } = d;
    let mut diagnostics: Vec<Diagnostic> = Vec::new();
    diagnostics.push(
        Diagnostic {
            code,
            severity: DiagnosticSeverity::Error,
            message,
            resources,
            sources: Vec::new(),
            fix: hint,
        },
    );
    let r = ProbeFailure { phase, diagnostics };
    proof {
        assert(text_views(r.diagnostics@[0].sources@) =~= Seq::<Seq<char>>::empty());
        assert(r@.diagnostics =~= single(dv).diagnostics);
    }
    r
}

impl ToolingProbeError {
    /// The probe failure reported for this error. Framework diagnostics keep their structure
    /// and the identities they name; any other failure is reported by a fixed code, message
    /// and hint, and its own text is never reported.
    pub fn failure(&self) -> (r: ProbeFailure)
        ensures
            r@ == probe_failure_view(*self),
    {
        match self {
            ToolingProbeError::Bootstrap(b) => single_failure(bootstrap_failure(b)),
            ToolingProbeError::PluginCatalog(a) => match app_diagnostics(a, None) {
                Some(f) => f,
                None => single_failure(app_failure(a, None)),
            },
            ToolingProbeError::CliDefinition(c) => {
                let mut diagnostics: Vec<Diagnostic> = Vec::new();
                diagnostics.push(cli_definition_diagnostic(c));
                let r = ProbeFailure { phase: None, diagnostics };
                proof {
                    assert(r@.diagnostics =~= probe_failure_view(*self).diagnostics);
                }
                r
            },
            ToolingProbeError::CliParse => single_failure(
                details(
                    "overseerd/tooling-cli-bootstrap",
                    "The generated framework parser rejected its own bootstrap defaults.",
                    None,
                    list0(),
                    "Correct the generated application CLI defaults and retry the probe.",
                ),
            ),
            ToolingProbeError::Lifecycle { phase, phase_text, source } => match source {
                LifecycleSource::Framework(a) => match app_diagnostics(a, Some(owned(phase_text.as_str()))) {
                    Some(f) => f,
                    None => single_failure(app_failure(a, Some(owned(phase_text.as_str())))),
                },
                LifecycleSource::Foreign(_) => single_failure(
                    details(
                        lifecycle_failure_code(*phase),
                        lifecycle_failure_message(*phase),
                        Some(owned(phase_text.as_str())),
                        list0(),
                        "Run the selected target normally to investigate the application failure.",
                    ),
                ),
            },
            ToolingProbeError::Projection => single_failure(
                details(
                    "overseerd/tooling-projection",
                    "The prepared application could not be projected into a valid tooling document.",
                    None,
                    list0(),
                    "Correct the reported application metadata and retry the probe.",
                ),
            ),
            ToolingProbeError::Panic => single_failure(
                details(
                    "overseerd/tooling-panic",
                    "The tooling probe panicked while preparing the application.",
                    None,
                    list0(),
                    "Run the selected target normally to investigate the application failure.",
                ),
            ),
        }
    }
}

/// The text of a failure outside the framework never reaches the probe failure: two such
/// failures in the same phase are reported identically.
pub proof fn law_foreign_failure_text_is_never_reported(
    phase: LifecyclePhase,
    phase_text: String,
    a: String,
    b: String,
)
    ensures
        probe_failure_view(
            ToolingProbeError::Lifecycle {
                phase,
                phase_text,
                source: LifecycleSource::Foreign(a),
            },
        ) == probe_failure_view(
            ToolingProbeError::Lifecycle {
                phase,
                phase_text,
                source: LifecycleSource::Foreign(b),
            },
        ),
{
}

/// Configuration failures report at most the path of the value involved: the underlying text
/// (which may hold resolved secrets) does not change the report.
pub proof fn law_config_failure_text_is_never_reported(
    path: String,
    a: String,
    b: String,
    phase: Option<Seq<char>>,
)
    ensures
        config_report(ConfigError::Substitution { path, detail: a }, phase) == config_report(
            ConfigError::Substitution { path, detail: b },
            phase,
        ),
        config_report(ConfigError::Io { detail: a }, phase) == config_report(
            ConfigError::Io { detail: b },
            phase,
        ),
        config_report(ConfigError::Parse { detail: a }, phase) == config_report(
            ConfigError::Parse { detail: b },
            phase,
        ),
        config_report(ConfigError::Other { detail: a }, phase) == config_report(
            ConfigError::Other { detail: b },
            phase,
        ),
        app_report(AppError::Other { detail: a }, phase) == app_report(
            AppError::Other { detail: b },
            phase,
        ),
{
}

} // verus!
