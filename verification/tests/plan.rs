use overseerd_tooling::failure::{AppError, DiError};
use overseerd_tooling::plan::{classify, prebuilt, PlannedComponent};
use overseerd_tooling::scope::{PreparedScopeTopology, ScopeBoundary, ScopeDecl, ScopeId, ScopeParent, ScopeTopology};

fn component(key: u64, name: &str, scope: &str, factory: Result<bool, DiError>) -> PlannedComponent {
    PlannedComponent { type_key: key, rust_name: name.to_string(), scope: ScopeId::new(scope), factory }
}

fn topology() -> PreparedScopeTopology {
    ScopeTopology::new(vec![
        ScopeBoundary::new(ScopeDecl::new("test/connection", "Connection", 20), ScopeParent::Root),
        ScopeBoundary::new(
            ScopeDecl::new("test/request", "Request", 10),
            ScopeParent::Boundary(ScopeId::new("test/connection")),
        ),
    ])
    .prepare()
    .expect("topology prepares")
}

#[test]
fn components_partition_by_scope_and_transients_by_type() {
    let partitions = classify(
        vec![
            component(1, "app::Config", "overseerd/singleton", Ok(true)),
            component(2, "app::Clock", "overseerd/transient", Ok(true)),
            component(3, "app::Session", "test/connection", Ok(true)),
            component(4, "app::Peer", "test/connection", Ok(false)),
            component(5, "app::Handler", "test/request", Ok(true)),
            component(2, "app::ClockOverride", "overseerd/transient", Ok(false)),
        ],
        &topology(),
    )
    .unwrap_or_else(|_| panic!("components partition"));

    assert_eq!(partitions.singletons, vec![0]);
    assert_eq!(partitions.transient, vec![(2, 5)]);
    assert_eq!(partitions.scoped, vec![2, 3, 4]);
    assert_eq!(partitions.factories, vec![2, 4]);
    assert_eq!(partitions.seeds, vec![3]);

    let request = prebuilt(&partitions, &ScopeId::new("test/request"), &topology());
    let connection = prebuilt(&partitions, &ScopeId::new("test/connection"), &topology());

    assert_eq!(request, vec![1, 3, 4]);
    assert_eq!(connection, vec![1, 4]);
}

#[test]
fn undeclared_scopes_and_undecided_factories_are_refused() {
    let undeclared = classify(
        vec![
            component(1, "app::Config", "overseerd/singleton", Ok(true)),
            component(7, "app::Orphan", "test/nowhere", Ok(true)),
            component(8, "app::Broken", "test/request", Err(DiError::DependencyCycle)),
        ],
        &topology(),
    );

    assert!(matches!(
        undeclared,
        Err(AppError::UndeclaredScope { component, scope })
            if component == "app::Orphan" && scope == "test/nowhere"
    ));

    let undecided = classify(
        vec![component(8, "app::Broken", "test/request", Err(DiError::DependencyCycle))],
        &topology(),
    );

    assert!(matches!(undecided, Err(AppError::Di(DiError::DependencyCycle))));
}

fn family() -> PreparedScopeTopology {
    ScopeTopology::new(vec![
        ScopeBoundary::new(ScopeDecl::new("test/parent", "Parent", 100), ScopeParent::Root),
        ScopeBoundary::new(
            ScopeDecl::new("test/child", "Child", 50),
            ScopeParent::Boundary(ScopeId::new("test/parent")),
        ),
        ScopeBoundary::new(ScopeDecl::new("test/sibling", "Sibling", 50), ScopeParent::Root),
    ])
    .prepare()
    .expect("test topology prepares")
}

#[test]
fn factoryless_descriptor_in_undeclared_scope_is_rejected() {
    let error = classify(vec![component(1, "tests::MissingSeed", "test/missing", Ok(false))], &family());

    assert!(matches!(
        error,
        Err(AppError::UndeclaredScope { component, scope })
            if component.ends_with("MissingSeed") && scope == "test/missing"
    ));
}

#[test]
fn partition_preserves_independent_singleton_declaration_order() {
    let partitions = classify(
        vec![
            component(2, "z-second", "overseerd/singleton", Ok(true)),
            component(1, "a-first", "overseerd/singleton", Ok(true)),
        ],
        &family(),
    )
    .unwrap_or_else(|_| panic!("plan succeeds"));

    assert_eq!(partitions.singletons, vec![0, 1]);
    assert_eq!(partitions.components[partitions.singletons[0]].rust_name, "z-second");
}

#[test]
fn partition_preserves_independent_scoped_declaration_order() {
    let partitions = classify(
        vec![
            component(2, "z-second", "test/child", Ok(true)),
            component(1, "a-first", "test/child", Ok(true)),
        ],
        &family(),
    )
    .unwrap_or_else(|_| panic!("plan succeeds"));

    assert_eq!(partitions.scoped, vec![0, 1]);
    assert_eq!(partitions.factories, vec![0, 1]);
    assert_eq!(partitions.components[partitions.factories[0]].rust_name, "z-second");
}

#[test]
fn child_order_accepts_root_ancestor_and_local_factoryless_descriptors() {
    let partitions = classify(
        vec![
            component(1, "Root", "overseerd/singleton", Ok(true)),
            component(2, "ParentSeed", "test/parent", Ok(false)),
            component(3, "ChildFactory", "test/child", Ok(true)),
        ],
        &family(),
    )
    .unwrap_or_else(|_| panic!("plan succeeds"));

    let child_factories: Vec<usize> = partitions
        .factories
        .iter()
        .copied()
        .filter(|i| partitions.components[*i].scope.as_str() == "test/child")
        .collect();
    assert_eq!(child_factories.len(), 1);
    assert_eq!(partitions.components[child_factories[0]].type_key, 3);
    assert_eq!(partitions.seeds, vec![1]);
    assert_eq!(prebuilt(&partitions, &ScopeId::new("test/child"), &family()), vec![1, 2]);
}

#[test]
fn child_order_does_not_treat_sibling_factoryless_descriptors_as_prebuilt() {
    let partitions = classify(
        vec![
            component(4, "SiblingSeed", "test/sibling", Ok(false)),
            component(3, "ChildFactory", "test/child", Ok(true)),
        ],
        &family(),
    )
    .unwrap_or_else(|_| panic!("plan succeeds"));

    assert!(!prebuilt(&partitions, &ScopeId::new("test/child"), &family()).contains(&4));
}
