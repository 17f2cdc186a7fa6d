use overseerd_tooling::scope::{
    PreparedScopeTopology, ScopeBoundary, ScopeDecl, ScopeId, ScopeParent, ScopeTopology,
    ScopeTopologyError,
};

const HTTP_ID: &str = "test/http-request";
const CONNECTION_ID: &str = "test/websocket-connection";
const MESSAGE_ID: &str = "test/websocket-message";
const SIBLING_ID: &str = "test/sibling";
const MISSING_ID: &str = "test/missing";
const CYCLE_A_ID: &str = "test/cycle-a";
const CYCLE_B_ID: &str = "test/cycle-b";
const LONG_ID: &str = "test/long";

fn id(text: &str) -> ScopeId {
    ScopeId::new(text)
}

fn http() -> ScopeDecl {
    ScopeDecl::new(HTTP_ID, "Request", 100)
}

fn connection() -> ScopeDecl {
    ScopeDecl::new(CONNECTION_ID, "Connection", 150)
}

fn message() -> ScopeDecl {
    ScopeDecl::new(MESSAGE_ID, "Request", 50)
}

fn sibling() -> ScopeDecl {
    ScopeDecl::new(SIBLING_ID, "Request", 50)
}

fn cycle_a() -> ScopeDecl {
    ScopeDecl::new(CYCLE_A_ID, "Cycle A", 120)
}

fn cycle_b() -> ScopeDecl {
    ScopeDecl::new(CYCLE_B_ID, "Cycle B", 110)
}

fn long() -> ScopeDecl {
    ScopeDecl::new(LONG_ID, "Too Long", u8::MAX)
}

fn under(parent: &str) -> ScopeParent {
    ScopeParent::boundary(id(parent))
}

fn axum_boundaries() -> Vec<ScopeBoundary> {
    vec![
        ScopeBoundary::new(message(), under(CONNECTION_ID)),
        ScopeBoundary::new(http(), ScopeParent::Root),
        ScopeBoundary::new(connection(), ScopeParent::Root),
    ]
}

fn prepare(boundaries: Vec<ScopeBoundary>) -> PreparedScopeTopology {
    ScopeTopology::new(boundaries)
        .prepare()
        .expect("valid test topology")
}

#[test]
fn declaration_is_const_and_preparation_canonicalizes_boundaries() {
    let declaration = ScopeTopology::new(axum_boundaries());
    let topology = declaration.prepare().expect("valid topology");
    let declared_ids: Vec<ScopeId> = declaration
        .boundaries()
        .iter()
        .map(|boundary| boundary.id().clone())
        .collect();
    let ids: Vec<ScopeId> = topology
        .boundaries()
        .iter()
        .map(|boundary| boundary.id().clone())
        .collect();
    let mut expected = vec![id(HTTP_ID), id(CONNECTION_ID), id(MESSAGE_ID)];

    expected.sort();

    assert_eq!(declared_ids, [id(MESSAGE_ID), id(HTTP_ID), id(CONNECTION_ID)]);
    assert_eq!(ids, expected);
}

#[test]
fn empty_topology_is_const_constructible_and_default() {
    let empty = ScopeTopology::empty();

    assert!(empty.boundaries().is_empty());
    assert!(ScopeTopology::default().boundaries().is_empty());
}

#[test]
fn duplicate_display_names_do_not_alias_stable_ids() {
    let topology = prepare(vec![
        ScopeBoundary::new(http(), ScopeParent::Root),
        ScopeBoundary::new(message(), ScopeParent::Root),
    ]);

    assert_eq!(http().name, message().name);
    assert_ne!(id(HTTP_ID), id(MESSAGE_ID));
    assert_eq!(
        topology.boundary(&id(HTTP_ID)).map(|boundary| boundary.id().clone()),
        Some(id(HTTP_ID))
    );
    assert_eq!(
        topology.boundary(&id(MESSAGE_ID)).map(|boundary| boundary.id().clone()),
        Some(id(MESSAGE_ID))
    );
}

#[test]
fn boundary_lookup_and_parent_queries_include_implicit_root() {
    let topology = prepare(axum_boundaries());

    assert!(topology.contains(&id(HTTP_ID)));
    assert!(!topology.contains(&ScopeId::root()));
    assert_eq!(topology.parent_of(&id(HTTP_ID)), Some(ScopeParent::Root));
    assert_eq!(topology.parent_of(&id(MESSAGE_ID)), Some(under(CONNECTION_ID)));
    assert_eq!(topology.parent_of(&id(MISSING_ID)), None);
    assert_eq!(
        topology.ancestors(&id(MESSAGE_ID)),
        [id(CONNECTION_ID), ScopeId::root()]
    );
}

#[test]
fn reachability_follows_ancestry_instead_of_rank() {
    let topology = prepare(vec![
        ScopeBoundary::new(http(), ScopeParent::Root),
        ScopeBoundary::new(connection(), ScopeParent::Root),
        ScopeBoundary::new(message(), under(CONNECTION_ID)),
        ScopeBoundary::new(sibling(), ScopeParent::Root),
    ]);
    let root = ScopeId::root();

    assert!(topology.is_ancestor(&id(CONNECTION_ID), &id(MESSAGE_ID)));
    assert!(topology.is_ancestor(&root, &id(MESSAGE_ID)));
    assert!(!topology.is_ancestor(&id(MESSAGE_ID), &id(MESSAGE_ID)));
    assert!(topology.is_reachable(&id(MESSAGE_ID), &id(MESSAGE_ID)));
    assert!(topology.is_reachable(&id(MESSAGE_ID), &id(CONNECTION_ID)));
    assert!(topology.is_reachable(&id(MESSAGE_ID), &root));
    assert!(!topology.is_reachable(&id(HTTP_ID), &id(CONNECTION_ID)));
    assert!(!topology.is_reachable(&id(MESSAGE_ID), &id(SIBLING_ID)));
    assert!(!topology.is_reachable(&id(MISSING_ID), &root));
    assert!(!topology.is_reachable(&id(MESSAGE_ID), &id(MISSING_ID)));
}

#[test]
fn duplicate_ids_are_rejected() {
    let error = ScopeTopology::new(vec![
        ScopeBoundary::new(http(), ScopeParent::Root),
        ScopeBoundary::new(http(), ScopeParent::Root),
    ])
    .prepare()
    .expect_err("duplicate ids are invalid");

    assert_eq!(error, ScopeTopologyError::DuplicateId { id: id(HTTP_ID) });
}

#[test]
fn root_and_transient_ids_are_reserved() {
    let root = ScopeTopology::new(vec![ScopeBoundary::new(
        ScopeDecl::singleton(),
        ScopeParent::Root,
    )])
    .prepare()
    .expect_err("root cannot be declared");
    let transient = ScopeTopology::new(vec![ScopeBoundary::new(
        ScopeDecl::transient(),
        ScopeParent::Root,
    )])
    .prepare()
    .expect_err("transient cannot be declared");

    assert_eq!(root, ScopeTopologyError::ReservedId { id: ScopeId::root() });
    assert_eq!(
        transient,
        ScopeTopologyError::ReservedId { id: ScopeId::transient() }
    );
}

#[test]
fn missing_and_self_parents_are_rejected() {
    let missing = ScopeTopology::new(vec![ScopeBoundary::new(http(), under(MISSING_ID))])
        .prepare()
        .expect_err("missing parent is invalid");
    let self_parent = ScopeTopology::new(vec![ScopeBoundary::new(http(), under(HTTP_ID))])
        .prepare()
        .expect_err("self-parent is invalid");

    assert_eq!(
        missing,
        ScopeTopologyError::MissingParent {
            id: id(HTTP_ID),
            parent: id(MISSING_ID),
        }
    );
    assert_eq!(self_parent, ScopeTopologyError::SelfParent { id: id(HTTP_ID) });
}

#[test]
fn cycles_are_reported_before_impossible_rank_ordering() {
    let error = ScopeTopology::new(vec![
        ScopeBoundary::new(cycle_b(), under(CYCLE_A_ID)),
        ScopeBoundary::new(cycle_a(), under(CYCLE_B_ID)),
    ])
    .prepare()
    .expect_err("parent cycle is invalid");

    assert_eq!(
        error,
        ScopeTopologyError::Cycle {
            members: vec![id(CYCLE_A_ID), id(CYCLE_B_ID)],
        }
    );
}

#[test]
fn parent_must_have_strictly_greater_lifetime_rank() {
    let equal = ScopeTopology::new(vec![
        ScopeBoundary::new(message(), under(SIBLING_ID)),
        ScopeBoundary::new(sibling(), ScopeParent::Root),
    ])
    .prepare()
    .expect_err("equal parent rank is invalid");
    let root = ScopeTopology::new(vec![ScopeBoundary::new(long(), ScopeParent::Root)])
        .prepare()
        .expect_err("root rank must be greater than child rank");

    assert_eq!(
        equal,
        ScopeTopologyError::InvalidParentRank {
            child: id(MESSAGE_ID),
            child_rank: 50,
            parent: id(SIBLING_ID),
            parent_rank: 50,
        }
    );
    assert_eq!(
        root,
        ScopeTopologyError::InvalidParentRank {
            child: id(LONG_ID),
            child_rank: u8::MAX,
            parent: ScopeId::root(),
            parent_rank: u8::MAX,
        }
    );
}

#[test]
fn ancestors_of_a_root_child_end_at_the_root() {
    let topology = prepare(axum_boundaries());

    assert_eq!(topology.ancestors(&id(HTTP_ID)), [ScopeId::root()]);
    assert!(topology.ancestors(&id(MISSING_ID)).is_empty());
}

#[test]
fn reachability_is_transitive_along_declared_chains() {
    let topology = prepare(vec![
        ScopeBoundary::new(connection(), ScopeParent::Root),
        ScopeBoundary::new(message(), under(CONNECTION_ID)),
    ]);

    assert!(topology.is_reachable(&id(MESSAGE_ID), &id(CONNECTION_ID)));
    assert!(topology.is_reachable(&id(CONNECTION_ID), &ScopeId::root()));
    assert!(topology.is_reachable(&id(MESSAGE_ID), &ScopeId::root()));
    assert!(!topology.is_reachable(&id(CONNECTION_ID), &id(MESSAGE_ID)));
}
