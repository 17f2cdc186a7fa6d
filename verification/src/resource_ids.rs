//! Stable tooling resource identities and the provenance records attached to resources.
//!
//! Every projected resource is named `<kind>:<identity>`, built from the stable identity of the
//! thing it describes (a component's id, a type's Rust path, a scope's id, ...), never from a
//! display name.
use vstd::prelude::*;

use crate::text::{concat, concat3, decimal, decimal_string, owned};

verus! {

/// `component:<id>`.
pub fn component_id(id: &str) -> (r: String)
    ensures
        r@ == "component:"@ + id@,
{
    concat("component:", id)
}

/// `component:<id>`, the resource of a component named in a failure.
pub fn component_resource(component: &str) -> (r: String)
    ensures
        r@ == "component:"@ + component@,
{
    concat("component:", component)
}

/// `type:<rust type>`.
pub fn type_id(rust_type: &str) -> (r: String)
    ensures
        r@ == "type:"@ + rust_type@,
{
    concat("type:", rust_type)
}

/// `type:<rust type>`, the resource of a type named in a failure.
pub fn type_resource(rust_type: &str) -> (r: String)
    ensures
        r@ == "type:"@ + rust_type@,
{
    concat("type:", rust_type)
}

/// `scope:<id>`.
pub fn scope_id(id: &str) -> (r: String)
    ensures
        r@ == "scope:"@ + id@,
{
    concat("scope:", id)
}

/// `scope:<id>`, the resource of a scope named in a failure.
pub fn scope_resource(scope: &str) -> (r: String)
    ensures
        r@ == "scope:"@ + scope@,
{
    concat("scope:", scope)
}

/// `plugin:<id>`.
pub fn plugin_id(id: &str) -> (r: String)
    ensures
        r@ == "plugin:"@ + id@,
{
    concat("plugin:", id)
}

/// `plugin:<id>`, the resource of a plugin named in a failure.
pub fn plugin_resource(plugin: &str) -> (r: String)
    ensures
        r@ == "plugin:"@ + plugin@,
{
    concat("plugin:", plugin)
}

/// `plugin-slot:<id>`.
pub fn plugin_slot_id(id: &str) -> (r: String)
    ensures
        r@ == "plugin-slot:"@ + id@,
{
    concat("plugin-slot:", id)
}

/// `plugin-slot:<id>`, the resource of a plugin slot named in a failure.
pub fn plugin_slot_resource(slot: &str) -> (r: String)
    ensures
        r@ == "plugin-slot:"@ + slot@,
{
    concat("plugin-slot:", slot)
}

/// `protocol:<id>`.
pub fn protocol_resource(protocol: &str) -> (r: String)
    ensures
        r@ == "protocol:"@ + protocol@,
{
    concat("protocol:", protocol)
}

/// `config:<path>`, a configuration value.
pub fn config_resource(path: &str) -> (r: String)
    ensures
        r@ == "config:"@ + path@,
{
    concat("config:", path)
}

/// `config-binding:<rust type>:<path>`.
pub fn config_binding_id(rust_type: &str, path: &str) -> (r: String)
    ensures
        r@ == "config-binding:"@ + rust_type@ + ":"@ + path@,
{
    let mut r = concat3("config-binding:", rust_type, ":");
    r.append(path);
    r
}

/// `provider:<trait type>:<component type>:<qualifier>`.
pub fn provider_resource(trait_type: &str, component_type: &str, qualifier: &str) -> (r: String)
    ensures
        r@ == "provider:"@ + trait_type@ + ":"@ + component_type@ + ":"@ + qualifier@,
{
    let mut r = concat3("provider:", trait_type, ":");
    r.append(component_type);
    r.append(":");
    r.append(qualifier);
    r
}

/// Who contributed a component, provider or configuration binding.
pub enum Contributor {
    Framework,
    Application,
    /// A protocol, by its id.
    Protocol(String),
    /// A plugin, by its id.
    Plugin(String),
}

/// The resource identity of a contributor.
pub open spec fn contributor_text(c: Contributor) -> Seq<char> {
    match c {
        Contributor::Framework => "framework"@,
        Contributor::Application => "application"@,
        Contributor::Protocol(p) => "protocol:"@ + p@,
        Contributor::Plugin(p) => "plugin:"@ + p@,
    }
}

/// `framework`, `application`, `protocol:<id>` or `plugin:<id>`.
pub fn contributor_id(contributor: &Contributor) -> (r: String)
    ensures
        r@ == contributor_text(*contributor),
{
    match contributor {
        Contributor::Framework => owned("framework"),
        Contributor::Application => owned("application"),
        Contributor::Protocol(p) => concat("protocol:", p.as_str()),
        Contributor::Plugin(p) => plugin_id(p.as_str()),
    }
}

/// One contribution and who made it.
pub struct ContributionProvenance {
    pub contributor: Contributor,
    /// The contribution's id within its contributor.
    pub contribution: String,
}

/// The resource identity of a contribution.
pub open spec fn contribution_text(p: ContributionProvenance) -> Seq<char> {
    "contribution:"@ + contributor_text(p.contributor) + ":"@ + p.contribution@
}

/// `contribution:<contributor>:<contribution>`.
pub fn contribution_id(provenance: &ContributionProvenance) -> (r: String)
    ensures
        r@ == contribution_text(*provenance),
{
    let who = contributor_id(&provenance.contributor);
    let mut r = concat3("contribution:", who.as_str(), ":");
    r.append(provenance.contribution.as_str());
    r
}

/// The resources of a contribution named in a failure: its contributor, then itself.
pub fn contribution_resources(provenance: &ContributionProvenance) -> (r: Vec<String>)
    ensures
        r@.len() == 2,
        r@[0]@ == contributor_text(provenance.contributor),
        r@[1]@ == contribution_text(*provenance),
{
    let mut r: Vec<String> = Vec::new();
    r.push(contributor_id(&provenance.contributor));
    r.push(contribution_id(provenance));
    r
}

/// Where a plugin installation came from.
pub enum InstallationOrigin {
    /// Installed because the protocol (by id) requires it.
    ProtocolMandatory(String),
    /// Installed as one of the protocol's (by id) defaults.
    ProtocolDefault(String),
    /// Declared by the application.
    ApplicationDeclaration,
    /// Selected by the application's configuration.
    ApplicationConfiguration,
}

/// One plugin installation: its origin and its position among installations.
pub struct InstallationProvenance {
    pub origin: InstallationOrigin,
    pub ordinal: u32,
}

/// The origin segment of an installation's identity.
pub open spec fn origin_text(o: InstallationOrigin) -> Seq<char> {
    match o {
        InstallationOrigin::ProtocolMandatory(p) => "protocol-mandatory:"@ + p@,
        InstallationOrigin::ProtocolDefault(p) => "protocol-default:"@ + p@,
        InstallationOrigin::ApplicationDeclaration => "application-declaration"@,
        InstallationOrigin::ApplicationConfiguration => "application-configuration"@,
    }
}

/// The resource identity of an installation.
pub open spec fn installation_text(p: InstallationProvenance) -> Seq<char> {
    "plugin-installation:"@ + origin_text(p.origin) + ":"@ + decimal(p.ordinal as nat)
}

/// `plugin-installation:<origin>:<ordinal>`.
pub fn installation_resource(provenance: &InstallationProvenance) -> (r: String)
    ensures
        r@ == installation_text(*provenance),
{
    let origin = match &provenance.origin {
        InstallationOrigin::ProtocolMandatory(p) => concat("protocol-mandatory:", p.as_str()),
        InstallationOrigin::ProtocolDefault(p) => concat("protocol-default:", p.as_str()),
        InstallationOrigin::ApplicationDeclaration => owned("application-declaration"),
        InstallationOrigin::ApplicationConfiguration => owned("application-configuration"),
    };
    let ordinal = decimal_string(provenance.ordinal as u64);
    let mut r = concat3("plugin-installation:", origin.as_str(), ":");
    r.append(ordinal.as_str());
    r
}

/// The provenance attached to a projected resource.
#[derive(Clone, Debug, PartialEq, Eq)]
pub struct Provenance {
    pub owner: Option<String>,
    pub origin: Option<String>,
    pub ordinal: Option<u32>,
}

/// The texts of a provenance record.
pub struct ProvenanceView {
    pub owner: Option<Seq<char>>,
    pub origin: Option<Seq<char>>,
    pub ordinal: Option<u32>,
}

/// The view of an optional text.
pub open spec fn opt_view(s: Option<String>) -> Option<Seq<char>> {
    match s {
        Some(t) => Some(t@),
        None => None,
    }
}

impl View for Provenance {
    type V = ProvenanceView;

    open spec fn view(&self) -> ProvenanceView {
        ProvenanceView {
            owner: opt_view(self.owner),
            origin: opt_view(self.origin),
            ordinal: self.ordinal,
        }
    }
}

/// The provenance of a resource installed as a plugin.
pub open spec fn installation_provenance_view(p: InstallationProvenance) -> ProvenanceView {
    match p.origin {
        InstallationOrigin::ProtocolMandatory(id) => ProvenanceView {
            owner: Some("protocol:"@ + id@),
            origin: Some("protocol-mandatory"@),
            ordinal: Some(p.ordinal),
        },
        InstallationOrigin::ProtocolDefault(id) => ProvenanceView {
            owner: Some("protocol:"@ + id@),
            origin: Some("protocol-default"@),
            ordinal: Some(p.ordinal),
        },
        InstallationOrigin::ApplicationDeclaration => ProvenanceView {
            owner: Some("application"@),
            origin: Some("application-declaration"@),
            ordinal: Some(p.ordinal),
        },
        InstallationOrigin::ApplicationConfiguration => ProvenanceView {
            owner: Some("application"@),
            origin: Some("application-configuration"@),
            ordinal: Some(p.ordinal),
        },
    }
}

/// The provenance record of a plugin installation: the protocol or the application owns it,
/// the origin names how it was installed, and the ordinal is kept.
pub fn installation_provenance(provenance: &InstallationProvenance) -> (r: Provenance)
    ensures
        r@ == installation_provenance_view(*provenance),
{
    let (owner, origin) = match &provenance.origin {
        InstallationOrigin::ProtocolMandatory(p) => (
            concat("protocol:", p.as_str()),
            owned("protocol-mandatory"),
        ),
        InstallationOrigin::ProtocolDefault(p) => (
            concat("protocol:", p.as_str()),
            owned("protocol-default"),
        ),
        InstallationOrigin::ApplicationDeclaration => (
            owned("application"),
            owned("application-declaration"),
        ),
        InstallationOrigin::ApplicationConfiguration => (
            owned("application"),
            owned("application-configuration"),
        ),
    };
    Provenance { owner: Some(owner), origin: Some(origin), ordinal: Some(provenance.ordinal) }
}

/// Whether two installation origins are of the same kind (whatever protocol they name).
pub open spec fn same_origin_kind(a: InstallationOrigin, b: InstallationOrigin) -> bool {
    ||| a is ProtocolMandatory && b is ProtocolMandatory
    ||| a is ProtocolDefault && b is ProtocolDefault
    ||| a is ApplicationDeclaration && b is ApplicationDeclaration
    ||| a is ApplicationConfiguration && b is ApplicationConfiguration
}

/// An installation's provenance names the same origin as its resource identity: the origin
/// segment of `plugin-installation:<origin>:<ordinal>` is the provenance origin, followed for a
/// protocol installation by `:` and the protocol's id, which the provenance names as its owner
/// `protocol:<id>`; an application installation is owned by `application`. The ordinal is kept.
pub proof fn law_installation_provenance_matches_its_identity(p: InstallationProvenance)
    ensures
        ({
            let v = installation_provenance_view(p);
            &&& v.ordinal == Some(p.ordinal)
            &&& v.origin matches Some(o) && match p.origin {
                InstallationOrigin::ProtocolMandatory(id) => origin_text(p.origin) == o + ":"@ + id@
                    && v.owner == Some("protocol:"@ + id@),
                InstallationOrigin::ProtocolDefault(id) => origin_text(p.origin) == o + ":"@ + id@
                    && v.owner == Some("protocol:"@ + id@),
                _ => origin_text(p.origin) == o && v.owner == Some("application"@),
            }
        }),
{
    reveal_strlit("protocol-mandatory:");
    reveal_strlit("protocol-mandatory");
    reveal_strlit("protocol-default:");
    reveal_strlit("protocol-default");
    reveal_strlit(":");
    match p.origin {
        InstallationOrigin::ProtocolMandatory(id) => {
            assert("protocol-mandatory:"@ + id@ =~= "protocol-mandatory"@ + ":"@ + id@);
        },
        InstallationOrigin::ProtocolDefault(id) => {
            assert("protocol-default:"@ + id@ =~= "protocol-default"@ + ":"@ + id@);
        },
        _ => {},
    }
}

/// Installations of different origins get different provenance origins, so the provenance
/// alone tells a protocol's mandatory plugin from its default one and a declared plugin from a
/// configured one.
pub proof fn law_installation_origins_are_distinguished(p: InstallationProvenance, q: InstallationProvenance)
    requires
        !same_origin_kind(p.origin, q.origin),
    ensures
        installation_provenance_view(p).origin != installation_provenance_view(q).origin,
{
    reveal_strlit("protocol-mandatory");
    reveal_strlit("protocol-default");
    reveal_strlit("application-declaration");
    reveal_strlit("application-configuration");
    assert("protocol-mandatory"@.len() == 18);
    assert("protocol-default"@.len() == 16);
    assert("application-declaration"@.len() == 23);
    assert("application-configuration"@.len() == 25);
}

/// The provenance record of a contributed resource: owned by its contributor.
pub fn contribution_provenance(provenance: &ContributionProvenance) -> (r: Provenance)
    ensures
        r@ == (ProvenanceView {
            owner: Some(contributor_text(provenance.contributor)),
            origin: Some("contribution"@),
            ordinal: None,
        }),
{
    Provenance {
        owner: Some(contributor_id(&provenance.contributor)),
        origin: Some(owned("contribution")),
        ordinal: None,
    }
}

/// The target of a plugin relation: another plugin or a plugin slot, by id.
pub enum RelationTarget {
    Plugin(String),
    Slot(String),
}

/// The resource identity of a relation target.
pub open spec fn relation_target_text(t: RelationTarget) -> Seq<char> {
    match t {
        RelationTarget::Plugin(p) => "plugin:"@ + p@,
        RelationTarget::Slot(s) => "plugin-slot:"@ + s@,
    }
}

/// `plugin:<id>` or `plugin-slot:<id>`.
pub fn relation_target_resource(target: &RelationTarget) -> (r: String)
    ensures
        r@ == relation_target_text(*target),
{
    match target {
        RelationTarget::Plugin(p) => plugin_resource(p.as_str()),
        RelationTarget::Slot(s) => plugin_slot_resource(s.as_str()),
    }
}

/// The lifecycle event resource a component hook of this kind attaches to, if any.
pub open spec fn lifecycle_resource_spec(kind: Seq<char>) -> Option<Seq<char>> {
    if kind == "startup"@ {
        Some("lifecycle:startup"@)
    } else if kind == "shutdown"@ {
        Some("lifecycle:shutdown"@)
    } else if kind == "config_reload"@ {
        Some("lifecycle:config_reload"@)
    } else {
        None
    }
}

/// The lifecycle event resource a component hook of this kind attaches to: startup, shutdown
/// and configuration reload hooks have one, other hooks none.
pub fn lifecycle_resource(kind: &str) -> (r: Option<&'static str>)
    ensures
        match r {
            Some(t) => lifecycle_resource_spec(kind@) == Some(t@),
            None => lifecycle_resource_spec(kind@) is None,
        },
{
    if crate::text::text_eq(kind, "startup") {
        Some("lifecycle:startup")
    } else if crate::text::text_eq(kind, "shutdown") {
        Some("lifecycle:shutdown")
    } else if crate::text::text_eq(kind, "config_reload") {
        Some("lifecycle:config_reload")
    } else {
        None
    }
}

/// When a plugin is resolved relative to the protocol's own setup.
#[derive(Clone, Copy, Debug, PartialEq, Eq, Structural)]
pub enum CompositionPhase {
    Early,
    Late,
}

/// The label text of a composition phase.
pub fn phase_name(phase: CompositionPhase) -> (r: &'static str)
    ensures
        r@ == match phase {
            CompositionPhase::Early => "early"@,
            CompositionPhase::Late => "late"@,
        },
{
    match phase {
        CompositionPhase::Early => "early",
        CompositionPhase::Late => "late",
    }
}

/// How a plugin slot may be filled.
#[derive(Clone, Copy, Debug, PartialEq, Eq, Structural)]
pub enum SlotPolicy {
    Fixed,
    Replaceable,
    Optional,
}

/// The label text of a slot policy.
pub fn slot_policy_name(policy: SlotPolicy) -> (r: &'static str)
    ensures
        r@ == match policy {
            SlotPolicy::Fixed => "fixed"@,
            SlotPolicy::Replaceable => "replaceable"@,
            SlotPolicy::Optional => "optional"@,
        },
{
    match policy {
        SlotPolicy::Fixed => "fixed",
        SlotPolicy::Replaceable => "replaceable",
        SlotPolicy::Optional => "optional",
    }
}

/// What a plugin contribution adds to the application.
#[derive(Clone, Copy, Debug, PartialEq, Eq, Structural)]
pub enum PluginContributionKind {
    Component,
    Provider,
    ConfigBinding,
}

/// The label text of a contribution kind.
pub fn contribution_kind_name(kind: PluginContributionKind) -> (r: &'static str)
    ensures
        r@ == match kind {
            PluginContributionKind::Component => "component"@,
            PluginContributionKind::Provider => "provider"@,
            PluginContributionKind::ConfigBinding => "config-binding"@,
        },
{
    match kind {
        PluginContributionKind::Component => "component",
        PluginContributionKind::Provider => "provider",
        PluginContributionKind::ConfigBinding => "config-binding",
    }
}

/// What kind of command-line contribution a provider makes.
#[derive(Clone, Copy, Debug, PartialEq, Eq, Structural)]
pub enum CliProviderKind {
    Args,
    Command,
    CommandSet,
    /// A kind this projection does not know by name.
    Other,
}

/// The label text of a command-line provider kind.
pub fn cli_provider_kind_name(kind: CliProviderKind) -> (r: &'static str)
    ensures
        r@ == match kind {
            CliProviderKind::Args => "args"@,
            CliProviderKind::Command => "command"@,
            CliProviderKind::CommandSet => "command-set"@,
            CliProviderKind::Other => "unknown"@,
        },
{
    match kind {
        CliProviderKind::Args => "args",
        CliProviderKind::Command => "command",
        CliProviderKind::CommandSet => "command-set",
        CliProviderKind::Other => "unknown",
    }
}

/// How a component's factory was selected.
#[derive(Clone, Copy, Debug, PartialEq, Eq, Structural)]
pub enum FactorySelection {
    Manual,
    Default,
    Explicit,
}

impl FactorySelection {
    /// The label text of a factory selection.
    pub fn name(self) -> (r: &'static str)
        ensures
            r@ == match self {
                FactorySelection::Manual => "manual"@,
                FactorySelection::Default => "default"@,
                FactorySelection::Explicit => "explicit"@,
            },
    {
        match self {
            FactorySelection::Manual => "manual",
            FactorySelection::Default => "default",
            FactorySelection::Explicit => "explicit",
        }
    }
}

/// Where a command-line definition came from.
pub enum CliDefinitionSource {
    Framework,
    Application,
    Plugin(ContributionProvenance),
}

/// The resources naming a command-line definition's source.
pub open spec fn cli_source_texts(s: CliDefinitionSource) -> Seq<Seq<char>> {
    match s {
        CliDefinitionSource::Framework => seq!["framework"@],
        CliDefinitionSource::Application => seq!["application"@],
        CliDefinitionSource::Plugin(p) => seq![contributor_text(p.contributor), contribution_text(p)],
    }
}

/// `framework`, `application`, or a plugin contribution's contributor and contribution.
pub fn cli_definition_source_resources(source: &CliDefinitionSource) -> (r: Vec<String>)
    ensures
        crate::text::text_views(r@) == cli_source_texts(*source),
{
    let r = match source {
        CliDefinitionSource::Framework => {
            let mut r: Vec<String> = Vec::new();
            r.push(owned("framework"));
            r
        },
        CliDefinitionSource::Application => {
            let mut r: Vec<String> = Vec::new();
            r.push(owned("application"));
            r
        },
        CliDefinitionSource::Plugin(p) => contribution_resources(p),
    };
    proof {
        assert(crate::text::text_views(r@) =~= cli_source_texts(*source));
    }
    r
}

} // verus!
