//! How the application itself is projected: the framework and the application, the protocol
//! that validates it, the lifecycle phases and events in their order, the scopes, the typed
//! configuration bindings and the configuration sources in merge order.
use vstd::prelude::*;

use crate::composition::{add_relation, add_resource};
use crate::dependencies::{ConfigBinding, binding_text, bool_text, contribution_provenance_view, type_projected};
use crate::labels::{Labels, free_key, labels_from, lemma_labels_from_input_ok, pair_views};
use crate::projection::{DocumentView, Projection, RelationshipKind, ResourceKind, relationships_ready};
use crate::resource_ids::{Provenance, ProvenanceView, config_binding_id, contribution_provenance, scope_id};
use crate::scope::{PreparedScopeTopology, ScopeBoundary, ScopeDecl, parent_identity, root_id, transient_id, views, BoundaryView};
use crate::text::{concat, decimal, decimal_string, owned, text_eq};

verus! {

/// Which host lifecycle callbacks the application's host registered.
pub struct HostLifecycle {
    pub setup: bool,
    pub configure: bool,
    pub before_build: bool,
    pub after_build: bool,
    pub serve: bool,
}

/// One configuration source, in merge order: its path as displayed, and its file name when it
/// has one that is text.
pub struct ConfigSource {
    pub display: String,
    pub file_name: Option<String>,
}

// ---------------------------------------------------------------------------------------------
// What the projection records
// ---------------------------------------------------------------------------------------------

/// The provenance of what the framework itself contributes.
pub open spec fn framework_provenance() -> ProvenanceView {
    ProvenanceView { owner: Some("framework"@), origin: Some("framework"@), ordinal: None }
}

/// The labels of a lifecycle resource.
pub open spec fn lifecycle_pairs(category: Seq<char>, callback: Option<bool>, repeatable: bool) -> Seq<(Seq<char>, Seq<char>)> {
    let base = seq![("category"@, category), ("repeatable"@, bool_text(repeatable))];
    match callback {
        Some(c) => base.push(("callback"@, bool_text(c))),
        None => base,
    }
}

/// The document with a lifecycle resource.
pub open spec fn lifecycle_added(
    d: DocumentView,
    name: Seq<char>,
    category: Seq<char>,
    callback: Option<bool>,
    repeatable: bool,
) -> DocumentView {
    add_resource(
        d,
        "lifecycle:"@ + name,
        ResourceKind::Lifecycle,
        name,
        None,
        lifecycle_pairs(category, callback, repeatable),
    )
}

/// The document with lifecycle `before` ordered before lifecycle `after`.
pub open spec fn lifecycle_ordered(d: DocumentView, before: Seq<char>, after: Seq<char>) -> DocumentView {
    add_relation(d, RelationshipKind::OrdersBefore, "lifecycle:"@ + before, "lifecycle:"@ + after, Seq::empty())
}

/// The host phases, each with whether the host registered its callback.
pub open spec fn host_phases(d: DocumentView, h: HostLifecycle) -> DocumentView {
    let d1 = lifecycle_added(d, "setup"@, "host-phase"@, Some(h.setup), false);
    let d2 = lifecycle_added(d1, "configure"@, "host-phase"@, Some(h.configure), false);
    let d3 = lifecycle_added(d2, "before_build"@, "host-phase"@, Some(h.before_build), false);
    let d4 = lifecycle_added(d3, "after_build"@, "host-phase"@, Some(h.after_build), false);
    lifecycle_added(d4, "serve"@, "host-phase"@, Some(h.serve), false)
}

/// The framework, the application, the protocol that validates it, and the lifecycle: host
/// phases (with a host), construction phases and runtime events, ordered
/// `setup → configure → before_build → prepare → build → after_build → serve` (the host
/// phases only with a host).
pub open spec fn application_projected(
    d: DocumentView,
    app: Seq<char>,
    protocol: Seq<char>,
    host: Option<HostLifecycle>,
) -> DocumentView {
    let p = "protocol:"@ + protocol;
    let d1 = add_resource(d, "framework"@, ResourceKind::Contributor, "overseerd"@, Some(framework_provenance()), Seq::empty());
    let d2 = add_resource(d1, "application"@, ResourceKind::Application, app, None, Seq::empty());
    let d3 = add_resource(
        d2,
        p,
        ResourceKind::Protocol,
        protocol,
        Some(ProvenanceView { owner: Some(p), origin: Some("protocol"@), ordinal: None }),
        seq![("protocol-id"@, protocol)],
    );
    let d4 = add_relation(d3, RelationshipKind::Validates, p, "application"@, Seq::empty());
    let d5 = match host {
        Some(h) => host_phases(d4, h),
        None => d4,
    };
    let d6 = lifecycle_added(d5, "prepare"@, "construction-phase"@, None, false);
    let d7 = lifecycle_added(d6, "build"@, "construction-phase"@, None, false);
    let d8 = lifecycle_added(d7, "startup"@, "runtime-event"@, None, false);
    let d9 = lifecycle_added(d8, "shutdown"@, "runtime-event"@, None, false);
    let d10 = lifecycle_added(d9, "config_reload"@, "runtime-event"@, None, true);
    let d11 = if host is Some {
        lifecycle_ordered(
            lifecycle_ordered(lifecycle_ordered(d10, "setup"@, "configure"@), "configure"@, "before_build"@),
            "before_build"@,
            "prepare"@,
        )
    } else {
        d10
    };
    let d12 = lifecycle_ordered(d11, "prepare"@, "build"@);
    if host is Some {
        lifecycle_ordered(lifecycle_ordered(d12, "build"@, "after_build"@), "after_build"@, "serve"@)
    } else {
        d12
    }
}

/// A framework scope.
pub open spec fn framework_scope_projected(d: DocumentView, s: ScopeDecl, transient: bool) -> DocumentView {
    add_resource(
        d,
        "scope:"@ + s.id@,
        ResourceKind::Scope,
        s.name@,
        Some(framework_provenance()),
        seq![("rank"@, decimal(s.rank as nat)), ("scope-id"@, s.id@), ("transient"@, bool_text(transient))],
    )
}

/// The protocol's scope boundaries, in turn, each opened by its parent.
pub open spec fn boundaries_projected(d: DocumentView, protocol: Seq<char>, bs: Seq<BoundaryView>) -> DocumentView
    decreases bs.len(),
{
    if bs.len() == 0 {
        d
    } else {
        let b = bs.last();
        let id = "scope:"@ + b.id;
        let d1 = add_resource(
            boundaries_projected(d, protocol, bs.drop_last()),
            id,
            ResourceKind::Scope,
            b.name,
            Some(ProvenanceView { owner: Some("protocol:"@ + protocol), origin: Some("protocol"@), ordinal: None }),
            seq![("rank"@, decimal(b.rank as nat)), ("scope-id"@, b.id)],
        );
        add_relation(d1, RelationshipKind::OpensScope, "scope:"@ + parent_identity(b.parent), id, Seq::empty())
    }
}

/// The framework scopes (singleton, then transient), then the protocol's boundaries.
pub open spec fn scopes_projected(d: DocumentView, protocol: Seq<char>, bs: Seq<BoundaryView>) -> DocumentView {
    let d1 = add_resource(
        d,
        "scope:"@ + root_id(),
        ResourceKind::Scope,
        "Singleton"@,
        Some(framework_provenance()),
        seq![("rank"@, decimal(255)), ("scope-id"@, root_id()), ("transient"@, "false"@)],
    );
    let d2 = add_resource(
        d1,
        "scope:"@ + transient_id(),
        ResourceKind::Scope,
        "Transient"@,
        Some(framework_provenance()),
        seq![("rank"@, decimal(0)), ("scope-id"@, transient_id()), ("transient"@, "true"@)],
    );
    boundaries_projected(d2, protocol, bs)
}

/// One configuration binding: its type, its resource (its value is never exported) and the
/// type it binds.
pub open spec fn binding_projected(d: DocumentView, b: ConfigBinding) -> DocumentView {
    let id = binding_text(b);
    let d1 = type_projected(d, b.ty.rust_name@, b.ty.name@);
    let d2 = add_resource(
        d1,
        id,
        ResourceKind::ConfigBinding,
        b.ty.name@,
        match b.contribution {
            Some(c) => Some(contribution_provenance_view(c)),
            None => None,
        },
        seq![("path"@, b.path@), ("redacted"@, "true"@), ("value-exported"@, "false"@)],
    );
    add_relation(d2, RelationshipKind::Binds, id, "type:"@ + b.ty.rust_name@, Seq::empty())
}

/// Every configuration binding, in registry order.
pub open spec fn bindings_projected(d: DocumentView, bs: Seq<ConfigBinding>) -> DocumentView
    decreases bs.len(),
{
    if bs.len() == 0 {
        d
    } else {
        binding_projected(bindings_projected(d, bs.drop_last()), bs.last())
    }
}

/// Whether a configuration source is skipped: it has no path, or lives in memory.
pub open spec fn source_skipped(s: ConfigSource) -> bool {
    s.display@.len() == 0 || s.display@ == "<in-memory>"@
}

/// The identity of the configuration source at position `ordinal`.
pub open spec fn source_text(ordinal: nat) -> Seq<char> {
    "config-source:"@ + decimal(ordinal)
}

/// The first `n` configuration sources with the position of the last one projected: each
/// source with a path gets a resource and is ordered after the previous such source.
pub open spec fn sources_upto(d: DocumentView, srcs: Seq<ConfigSource>, n: int) -> (DocumentView, Option<nat>)
    decreases n,
{
    if n <= 0 {
        (d, None)
    } else {
        let (prev_doc, prev) = sources_upto(d, srcs, n - 1);
        let s = srcs[n - 1];
        if source_skipped(s) {
            (prev_doc, prev)
        } else {
            let ordinal = (n - 1) as nat;
            let id = source_text(ordinal);
            let d1 = add_resource(
                prev_doc,
                id,
                ResourceKind::Contribution,
                match s.file_name {
                    Some(f) => f@,
                    None => "config source"@,
                },
                Some(ProvenanceView {
                    owner: Some("framework"@),
                    origin: Some("config-source"@),
                    ordinal: Some(ordinal as u32),
                }),
                seq![("path"@, s.display@), ("merge-ordinal"@, decimal(ordinal)), ("values-exported"@, "false"@)],
            );
            let d2 = match prev {
                Some(p) => add_relation(
                    d1,
                    RelationshipKind::OrdersBefore,
                    source_text(p),
                    id,
                    seq![("order"@, "config-merge"@)],
                ),
                None => d1,
            };
            (d2, Some(ordinal))
        }
    }
}

/// Every configuration binding, then the configuration sources in merge order.
pub open spec fn config_projected(d: DocumentView, bs: Seq<ConfigBinding>, srcs: Seq<ConfigSource>) -> DocumentView {
    sources_upto(bindings_projected(d, bs), srcs, srcs.len() as int).0
}

proof fn lemma_order_key()
    ensures
        crate::labels::label_input_ok(labels_from(seq![("order"@, "config-merge"@)])),
{
    reveal_strlit("order");
    reveal_strlit("-values");
    reveal_strlit("dependency-decisions");
    assert(free_key("order"@));
    lemma_labels_from_input_ok(seq![("order"@, "config-merge"@)]);
}

fn bool_label(b: bool) -> (r: &'static str)
    ensures
        r@ == bool_text(b),
{
    if b {
        "true"
    } else {
        "false"
    }
}

fn no_labels() -> (r: Labels)
    ensures
        r@ == labels_from(Seq::<(Seq<char>, Seq<char>)>::empty()),
{
    Labels::new()
}

impl Projection {
    fn lifecycle(&mut self, name: &str, category: &str, callback: Option<bool>, repeatable: bool)
        ensures
            final(self)@ == lifecycle_added(old(self)@, name@, category@, callback, repeatable),
    {
        let mut pairs: Vec<(String, String)> = Vec::new();
        pairs.push((owned("category"), owned(category)));
        pairs.push((owned("repeatable"), owned(bool_label(repeatable))));
        if let Some(c) = callback {
            pairs.push((owned("callback"), owned(bool_label(c))));
        }
        proof {
            assert(pair_views(pairs@) =~= lifecycle_pairs(category@, callback, repeatable));
        }
        let id = concat("lifecycle:", name);
        self.resource(id.as_str(), ResourceKind::Lifecycle, name, None, Labels::from_pairs(pairs));
    }

    fn lifecycle_order(&mut self, before: &str, after: &str)
        requires
            relationships_ready(old(self)@.relationships),
        ensures
            final(self)@ == lifecycle_ordered(old(self)@, before@, after@),
            relationships_ready(final(self)@.relationships),
    {
        let from = concat("lifecycle:", before);
        let to = concat("lifecycle:", after);
        self.relationship(RelationshipKind::OrdersBefore, from.as_str(), to.as_str(), no_labels());
    }

    /// Projects the framework, the application, the protocol that validates it, and the
    /// lifecycle: the host phases when there is a host, the construction phases and the
    /// runtime events, in their order.
    pub fn project_application(&mut self, app: &str, protocol: &str, host: Option<HostLifecycle>)
        requires
            relationships_ready(old(self)@.relationships),
        ensures
            final(self)@ == application_projected(old(self)@, app@, protocol@, host),
            relationships_ready(final(self)@.relationships),
    {
        let ghost d0 = self@;
        self.resource(
            "framework",
            ResourceKind::Contributor,
            "overseerd",
            Some(Provenance { owner: Some(owned("framework")), origin: Some(owned("framework")), ordinal: None }),
            no_labels(),
        );
        self.resource("application", ResourceKind::Application, app, None, no_labels());
        let p = concat("protocol:", protocol);
        let mut pairs: Vec<(String, String)> = Vec::new();
        pairs.push((owned("protocol-id"), owned(protocol)));
        proof {
            assert(pair_views(pairs@) =~= seq![("protocol-id"@, protocol@)]);
        }
        self.resource(
            p.as_str(),
            ResourceKind::Protocol,
            protocol,
            Some(Provenance { owner: Some(owned(p.as_str())), origin: Some(owned("protocol")), ordinal: None }),
            Labels::from_pairs(pairs),
        );
        self.relationship(RelationshipKind::Validates, p.as_str(), "application", no_labels());
        let has_host = host.is_some();
        if let Some(h) = &host {
            self.lifecycle("setup", "host-phase", Some(h.setup), false);
            self.lifecycle("configure", "host-phase", Some(h.configure), false);
            self.lifecycle("before_build", "host-phase", Some(h.before_build), false);
            self.lifecycle("after_build", "host-phase", Some(h.after_build), false);
            self.lifecycle("serve", "host-phase", Some(h.serve), false);
        }
        self.lifecycle("prepare", "construction-phase", None, false);
        self.lifecycle("build", "construction-phase", None, false);
        self.lifecycle("startup", "runtime-event", None, false);
        self.lifecycle("shutdown", "runtime-event", None, false);
        self.lifecycle("config_reload", "runtime-event", None, true);
        if has_host {
            self.lifecycle_order("setup", "configure");
            self.lifecycle_order("configure", "before_build");
            self.lifecycle_order("before_build", "prepare");
        }
        self.lifecycle_order("prepare", "build");
        if has_host {
            self.lifecycle_order("build", "after_build");
            self.lifecycle_order("after_build", "serve");
        }
    }

    fn framework_scope(&mut self, scope: &ScopeDecl, transient: bool)
        ensures
            final(self)@ == framework_scope_projected(old(self)@, *scope, transient),
    {
        let mut pairs: Vec<(String, String)> = Vec::new();
        pairs.push((owned("rank"), decimal_string(scope.rank as u64)));
        pairs.push((owned("scope-id"), owned(scope.id.text.as_str())));
        pairs.push((owned("transient"), owned(bool_label(transient))));
        proof {
            assert(pair_views(pairs@) =~= seq![
                ("rank"@, decimal(scope.rank as nat)),
                ("scope-id"@, scope.id@),
                ("transient"@, bool_text(transient)),
            ]);
        }
        let id = scope_id(scope.id.text.as_str());
        self.resource(
            id.as_str(),
            ResourceKind::Scope,
            scope.name.as_str(),
            Some(Provenance { owner: Some(owned("framework")), origin: Some(owned("framework")), ordinal: None }),
            Labels::from_pairs(pairs),
        );
    }

    /// Projects the framework scopes (singleton, then transient) and each boundary of the
    /// protocol's scope topology, opened by its parent.
    pub fn project_scopes(&mut self, protocol: &str, topology: &PreparedScopeTopology)
        requires
            relationships_ready(old(self)@.relationships),
        ensures
            final(self)@ == scopes_projected(old(self)@, protocol@, topology@),
            relationships_ready(final(self)@.relationships),
    {
        let ghost d0 = self@;
        let singleton = ScopeDecl::singleton();
        let transient = ScopeDecl::transient();
        self.framework_scope(&singleton, false);
        self.framework_scope(&transient, true);
        proof {
            reveal_strlit("false");
            reveal_strlit("true");
        }
        let ghost d2 = self@;
        let boundaries = topology.boundaries();
        let ghost bs = views(boundaries@);
        let mut i: usize = 0;
        proof {
            assert(bs.take(0) =~= Seq::<BoundaryView>::empty());
        }
        while i < boundaries.len()
            invariant
                bs == views(boundaries@),
                bs == topology@,
                i <= bs.len(),
                self@ == boundaries_projected(d2, protocol@, bs.take(i as int)),
                relationships_ready(self@.relationships),
            decreases bs.len() - i,
        {
            proof {
                assert(bs.take(i + 1).drop_last() =~= bs.take(i as int));
                assert(bs.take(i + 1).last() == bs[i as int]);
            }
            let b: &ScopeBoundary = &boundaries[i];
            let id = scope_id(b.id().text.as_str());
            let parent = match b.parent() {
                crate::scope::ScopeParent::Root => concat("scope:", "overseerd/singleton"),
                crate::scope::ScopeParent::Boundary(p) => scope_id(p.text.as_str()),
            };
            proof {
                reveal_strlit("overseerd/singleton");
                assert(parent@ == "scope:"@ + parent_identity(bs[i as int].parent));
            }
            let mut pairs: Vec<(String, String)> = Vec::new();
            pairs.push((owned("rank"), decimal_string(b.rank() as u64)));
            pairs.push((owned("scope-id"), owned(b.id().text.as_str())));
            proof {
                assert(pair_views(pairs@) =~= seq![("rank"@, decimal(bs[i as int].rank as nat)), ("scope-id"@, bs[i as int].id)]);
            }
            let owner = concat("protocol:", protocol);
            self.resource(
                id.as_str(),
                ResourceKind::Scope,
                b.name(),
                Some(Provenance { owner: Some(owner), origin: Some(owned("protocol")), ordinal: None }),
                Labels::from_pairs(pairs),
            );
            self.relationship(RelationshipKind::OpensScope, parent.as_str(), id.as_str(), no_labels());
            i = i + 1;
        }
        proof {
            assert(bs.take(bs.len() as int) =~= bs);
        }
    }

    fn project_config_binding(&mut self, b: &ConfigBinding)
        requires
            relationships_ready(old(self)@.relationships),
        ensures
            final(self)@ == binding_projected(old(self)@, *b),
            relationships_ready(final(self)@.relationships),
    {
        let id = config_binding_id(b.ty.rust_name.as_str(), b.path.as_str());
        let ty = self.type_resource(b.ty.rust_name.as_str(), b.ty.name.as_str());
        let provenance = match &b.contribution {
            Some(c) => Some(contribution_provenance(c)),
            None => None,
        };
        let mut pairs: Vec<(String, String)> = Vec::new();
        pairs.push((owned("path"), owned(b.path.as_str())));
        pairs.push((owned("redacted"), owned("true")));
        pairs.push((owned("value-exported"), owned("false")));
        proof {
            assert(pair_views(pairs@) =~= seq![("path"@, b.path@), ("redacted"@, "true"@), ("value-exported"@, "false"@)]);
        }
        self.resource(id.as_str(), ResourceKind::ConfigBinding, b.ty.name.as_str(), provenance, Labels::from_pairs(pairs));
        self.relationship(RelationshipKind::Binds, id.as_str(), ty.as_str(), no_labels());
    }

    /// Projects every typed configuration binding (its value is never exported), then the
    /// configuration sources in merge order, each ordered after the previous one; sources
    /// without a path or held in memory are left out.
    pub fn project_config_bindings(&mut self, bindings: &Vec<ConfigBinding>, sources: &Vec<ConfigSource>)
        requires
            relationships_ready(old(self)@.relationships),
        ensures
            final(self)@ == config_projected(old(self)@, bindings@, sources@),
            relationships_ready(final(self)@.relationships),
    {
        let ghost d0 = self@;
        let mut i: usize = 0;
        proof {
            assert(bindings@.take(0) =~= Seq::<ConfigBinding>::empty());
        }
        while i < bindings.len()
            invariant
                i <= bindings@.len(),
                self@ == bindings_projected(d0, bindings@.take(i as int)),
                relationships_ready(self@.relationships),
            decreases bindings@.len() - i,
        {
            proof {
                assert(bindings@.take(i + 1).drop_last() =~= bindings@.take(i as int));
                assert(bindings@.take(i + 1).last() == bindings@[i as int]);
            }
            self.project_config_binding(&bindings[i]);
            i = i + 1;
        }
        proof {
            assert(bindings@.take(bindings@.len() as int) =~= bindings@);
            lemma_order_key();
        }
        let ghost d1 = self@;
        let mut previous: Option<String> = None;
        let ghost mut prev_ordinal: Option<nat> = None;
        let mut k: usize = 0;
        while k < sources.len()
            invariant
                k <= sources@.len(),
                sources_upto(d1, sources@, k as int) == (self@, prev_ordinal),
                match previous {
                    Some(p) => prev_ordinal matches Some(o) && p@ == source_text(o),
                    None => prev_ordinal is None,
                },
                relationships_ready(self@.relationships),
                crate::labels::label_input_ok(labels_from(seq![("order"@, "config-merge"@)])),
            decreases sources@.len() - k,
        {
            let s = &sources[k];
            let empty = s.display.as_str().unicode_len() == 0;
            let in_memory = text_eq(s.display.as_str(), "<in-memory>");
            if !empty && !in_memory {
                let ordinal = decimal_string(k as u64);
                let id = concat("config-source:", ordinal.as_str());
                let name = match &s.file_name {
                    Some(f) => owned(f.as_str()),
                    None => owned("config source"),
                };
                let mut pairs: Vec<(String, String)> = Vec::new();
                pairs.push((owned("path"), owned(s.display.as_str())));
                pairs.push((owned("merge-ordinal"), ordinal));
                pairs.push((owned("values-exported"), owned("false")));
                proof {
                    assert(pair_views(pairs@) =~= seq![
                        ("path"@, s.display@),
                        ("merge-ordinal"@, decimal(k as nat)),
                        ("values-exported"@, "false"@),
                    ]);
                }
                self.resource(
                    id.as_str(),
                    ResourceKind::Contribution,
                    name.as_str(),
                    Some(Provenance {
                        owner: Some(owned("framework")),
                        origin: Some(owned("config-source")),
                        ordinal: Some(k as u32),
                    }),
                    Labels::from_pairs(pairs),
                );
                if let Some(p) = &previous {
                    let mut order: Vec<(String, String)> = Vec::new();
                    order.push((owned("order"), owned("config-merge")));
                    proof {
                        assert(pair_views(order@) =~= seq![("order"@, "config-merge"@)]);
                    }
                    self.relationship(RelationshipKind::OrdersBefore, p.as_str(), id.as_str(), Labels::from_pairs(order));
                }
                previous = Some(id);
                proof {
                    prev_ordinal = Some(k as nat);
                }
            }
            k = k + 1;
        }
    }
}

} // verus!
