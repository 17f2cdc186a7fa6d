//! The whole projection of a prepared application: every stage in order, then the owner-scoped
//! tooling contributions of the protocol and of the plugins.
use vstd::prelude::*;

use crate::application::{ConfigSource, HostLifecycle, application_projected, config_projected, scopes_projected};
use crate::composition::{CliProvider, PluginResolution, cli_projected, plugins_projected};
use crate::contribution::{ToolingContributionError, ToolingContributionSet};
use crate::dependencies::{
    ComponentSnapshot, ConfigBinding, ConstructionPlanEntry, all_components_projected, hooks_projected,
    plan_entries_known, plans_known,
};
use crate::projection::{DocumentView, Projection, contributions_merged, display_missing, resource_position};
use crate::providers::{ProviderSnapshot, providers_projected};
use crate::scope::{PreparedScopeTopology, ScopeId, root_id};

verus! {

/// Everything the projection reads from a prepared application.
pub struct PreparedSnapshot {
    pub name: String,
    pub protocol: String,
    pub host: Option<HostLifecycle>,
    pub topology: PreparedScopeTopology,
    pub components: Vec<ComponentSnapshot>,
    /// The construction plan of the application root.
    pub root_plan: Vec<ConstructionPlanEntry>,
    /// The construction plans of the scopes that have one, in boundary order.
    pub scope_plans: Vec<(String, Vec<ConstructionPlanEntry>)>,
    pub providers: Vec<ProviderSnapshot>,
    pub config_bindings: Vec<ConfigBinding>,
    pub config_sources: Vec<ConfigSource>,
    pub plugins: PluginResolution,
    pub cli_providers: Vec<CliProvider>,
    /// The protocol's tooling contributions, then each plugin's.
    pub tooling: Vec<ToolingContributionSet>,
}

/// Whether the construction plans name only projected components.
pub open spec fn snapshot_ok(s: PreparedSnapshot) -> bool {
    plan_entries_known(s.components@, s.root_plan@) && plans_known(s.components@, s.scope_plans@)
}

/// The document after every projection stage, before the tooling contributions.
#[verifier::opaque]
pub open spec fn stages_projected(d: DocumentView, s: PreparedSnapshot) -> DocumentView {
    let d1 = application_projected(d, s.name@, s.protocol@, s.host);
    let d2 = scopes_projected(d1, s.protocol@, s.topology@);
    let d3 = all_components_projected(d2, s.components@, root_id(), s.root_plan@, s.scope_plans@, s.config_bindings@);
    let d4 = providers_projected(d3, s.providers@);
    let d5 = config_projected(d4, s.config_bindings@, s.config_sources@);
    let d6 = hooks_projected(d5, s.components@, s.config_bindings@);
    let d7 = plugins_projected(d6, s.plugins);
    cli_projected(d7, s.cli_providers@)
}

/// The document after merging the first `n` contribution sets.
pub open spec fn merged_upto(d: DocumentView, sets: Seq<ToolingContributionSet>, n: int) -> DocumentView
    decreases n,
{
    if n <= 0 {
        d
    } else {
        contributions_merged(merged_upto(d, sets, n - 1), sets[n - 1])
    }
}

/// Whether merging a contribution set into `d` is refused.
pub open spec fn merge_refused(d: DocumentView, c: ToolingContributionSet) -> bool {
    resource_position(d.resources, c.owner@) < 0 || display_missing(c)
}

/// Whether the first `n` contribution sets all merge.
pub open spec fn merges_upto(d: DocumentView, sets: Seq<ToolingContributionSet>, n: int) -> bool {
    forall|k: int| 0 <= k < n ==> !merge_refused(merged_upto(d, sets, k), #[trigger] sets[k])
}

/// The error a refused merge of `c` into `d` gives.
pub open spec fn refusal(d: DocumentView, c: ToolingContributionSet, e: ToolingContributionError) -> bool {
    if resource_position(d.resources, c.owner@) < 0 {
        e matches ToolingContributionError::UnknownOwner { id } && id@ == c.owner@
    } else {
        e matches ToolingContributionError::MissingProtocolDisplay { id } && id@ == c.owner@
    }
}

/// Projects a prepared application into a tooling document: the application and its
/// lifecycle, the scopes, the components with their construction plans, the providers, the
/// configuration, the hooks, the plugin plan and the command-line providers, then the tooling
/// contributions of the protocol and of each plugin. The first contribution set whose owner
/// was not projected, or whose protocol owner has no display metadata, is refused with its
/// error.
pub fn project(snapshot: &PreparedSnapshot) -> (r: Result<Projection, ToolingContributionError>)
    requires
        snapshot_ok(*snapshot),
    ensures
        r is Ok <==> merges_upto(
            stages_projected(DocumentView { resources: Seq::empty(), relationships: Seq::empty() }, *snapshot),
            snapshot.tooling@,
            snapshot.tooling@.len() as int,
        ),
        r matches Ok(p) ==> p@ == merged_upto(
            stages_projected(DocumentView { resources: Seq::empty(), relationships: Seq::empty() }, *snapshot),
            snapshot.tooling@,
            snapshot.tooling@.len() as int,
        ),
        r matches Err(e) ==> exists|k: int|
            0 <= k < snapshot.tooling@.len() && merges_upto(
                stages_projected(DocumentView { resources: Seq::empty(), relationships: Seq::empty() }, *snapshot),
                snapshot.tooling@,
                k,
            ) && refusal(
                merged_upto(
                    stages_projected(DocumentView { resources: Seq::empty(), relationships: Seq::empty() }, *snapshot),
                    snapshot.tooling@,
                    k,
                ),
                #[trigger] snapshot.tooling@[k],
                e,
            ),
{
    let p0 = Projection::new();
    proof {
        assert(p0@.resources =~= Seq::<crate::projection::ResourceView>::empty());
        assert(p0@.relationships =~= Seq::<crate::projection::RelationshipView>::empty());
        assert(p0@ == DocumentView { resources: Seq::empty(), relationships: Seq::empty() });
    }
    let mut p = project_stages(p0, snapshot);
    let ghost base = p@;
    let sets = &snapshot.tooling;
    let mut i: usize = 0;
    while i < sets.len()
        invariant
            i <= sets@.len(),
            sets@ == snapshot.tooling@,
            base == stages_projected(DocumentView { resources: Seq::empty(), relationships: Seq::empty() }, *snapshot),
            p@ == merged_upto(base, sets@, i as int),
            merges_upto(base, sets@, i as int),
        decreases sets@.len() - i,
    {
        let ghost before = p@;
        match p.merge_tooling_contributions(&sets[i]) {
            Ok(()) => {
                proof {
                    assert forall|k: int| 0 <= k < i + 1 implies !merge_refused(
                        merged_upto(base, sets@, k),
                        #[trigger] sets@[k],
                    ) by {
                        if k < i {
                            assert(!merge_refused(merged_upto(base, sets@, k), sets@[k]));
                        }
                    }
                }
            },
            Err(e) => {
                proof {
                    assert(refusal(merged_upto(base, sets@, i as int), sets@[i as int], e));
                    assert(0 <= i < sets@.len() && merges_upto(base, sets@, i as int) && refusal(
                        merged_upto(base, sets@, i as int),
                        sets@[i as int],
                        e,
                    ));
                    assert(!merges_upto(base, sets@, sets@.len() as int)) by {
                        assert(merge_refused(merged_upto(base, sets@, i as int), sets@[i as int]));
                    }
                }
                return Err(e);
            },
        }
        i = i + 1;
    }
    Ok(p)
}


fn project_stages(p0: Projection, snapshot: &PreparedSnapshot) -> (p: Projection)
    requires
        snapshot_ok(*snapshot),
        p0@.resources.len() == 0,
        p0@.relationships.len() == 0,
    ensures
        p@ == stages_projected(p0@, *snapshot),
{
    let mut p = p0;
    let ghost d0 = p@;
    let root = ScopeId::root();
    p.project_application(snapshot.name.as_str(), snapshot.protocol.as_str(), copy_host(&snapshot.host));
    let ghost d1 = p@;
    p.project_scopes(snapshot.protocol.as_str(), &snapshot.topology);
    let ghost d2 = p@;
    p.project_components(
        &snapshot.components,
        root.text.as_str(),
        &snapshot.root_plan,
        &snapshot.scope_plans,
        &snapshot.config_bindings,
    );
    let ghost d3 = p@;
    p.project_providers(&snapshot.providers);
    let ghost d4 = p@;
    p.project_config_bindings(&snapshot.config_bindings, &snapshot.config_sources);
    let ghost d5 = p@;
    p.project_hooks(&snapshot.components, &snapshot.config_bindings);
    let ghost d6 = p@;
    p.project_plugins(&snapshot.plugins);
    let ghost d7 = p@;
    p.project_cli(&snapshot.cli_providers);
    proof {
        reveal(stages_projected);
    }
    p
}

fn copy_host(h: &Option<HostLifecycle>) -> (r: Option<HostLifecycle>)
    ensures
        r == *h,
{
    match h {
        Some(x) => Some(
            HostLifecycle {
                setup: x.setup,
                configure: x.configure,
                before_build: x.before_build,
                after_build: x.after_build,
                serve: x.serve,
            },
        ),
        None => None,
    }
}

} // verus!
