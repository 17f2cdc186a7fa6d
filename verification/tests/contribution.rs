use overseerd_tooling::contribution::{
    qualify, validate_local_id, validate_owner, ResourceDisplay, ToolingContributionError,
    ToolingContributions, ToolingEndpoint, ToolingRelationshipKind,
};

#[test]
fn rejects_reserved_duplicate_and_unknown_owner_local_resources() {
    let mut reserved = ToolingContributions::new(String::from("plugin:third-party/test"));

    reserved.resource("component:spoof", "Spoof");

    assert!(matches!(
        reserved.finish(),
        Err(ToolingContributionError::ReservedId { .. })
    ));

    let mut duplicate = ToolingContributions::new(String::from("plugin:third-party/test"));

    duplicate.resource("route", "Route");
    duplicate.resource("route", "Route");

    assert!(matches!(
        duplicate.finish(),
        Err(ToolingContributionError::DuplicateResource { .. })
    ));

    let mut unknown = ToolingContributions::new(String::from("plugin:third-party/test"));

    unknown.relationship(
        ToolingRelationshipKind::Contains,
        ToolingEndpoint::Owner,
        ToolingEndpoint::Resource("missing"),
    );

    assert!(matches!(
        unknown.finish(),
        Err(ToolingContributionError::UnknownEndpoint { .. })
    ));
}

#[test]
fn owner_qualification_is_automatic_for_all_generic_endpoints() {
    let mut contributions = ToolingContributions::new(String::from("protocol:third-party/test"));

    contributions.display(ResourceDisplay {
        label: Some(String::from("Third-party protocol")),
        ..ResourceDisplay::default()
    });
    contributions.resource("transport", "Transport");
    contributions.relationship(
        ToolingRelationshipKind::Contains,
        ToolingEndpoint::Owner,
        ToolingEndpoint::Resource("transport"),
    );
    let contributions = contributions.finish().expect("metadata validates");

    assert_eq!(
        contributions.resources[0].id,
        "protocol:third-party/test/tooling/transport"
    );
    assert_eq!(
        contributions.relationships[0].from,
        "protocol:third-party/test"
    );
    assert_eq!(
        contributions.relationships[0].to,
        "protocol:third-party/test/tooling/transport"
    );
}

#[test]
fn protocol_display_is_required_and_resource_display_is_owner_local() {
    let missing = ToolingContributions::new(String::from("protocol:third-party/missing"));

    assert!(matches!(
        missing.finish(),
        Err(ToolingContributionError::MissingProtocolDisplay { .. })
    ));

    let mut contributions = ToolingContributions::new(String::from("protocol:third-party/test"));

    contributions.display(ResourceDisplay {
        label: Some(String::from("Third-party protocol")),
        ..ResourceDisplay::default()
    });
    contributions.resource("transport", "Transport");
    contributions.resource_display(
        "transport",
        ResourceDisplay {
            label: Some(String::from("HTTP transport")),
            summary: Some(String::from("Serves HTTP requests")),
        },
    );

    let contributions = contributions.finish().expect("metadata validates");

    assert_eq!(
        contributions
            .owner_display
            .as_ref()
            .and_then(|display| display.label.as_deref()),
        Some("Third-party protocol")
    );
    assert_eq!(contributions.resource_displays[0].0, contributions.resources[0].id);
    assert_eq!(
        contributions.resource_displays[0].1.label.as_deref(),
        Some("HTTP transport")
    );
}

#[test]
fn plugins_may_omit_display_but_invalid_declarations_fail() {
    ToolingContributions::new(String::from("plugin:third-party/test"))
        .finish()
        .expect("plugin display is optional");

    let mut unknown = ToolingContributions::new(String::from("plugin:third-party/test"));

    unknown.resource_display(
        "missing",
        ResourceDisplay {
            label: Some(String::from("Missing")),
            ..ResourceDisplay::default()
        },
    );

    assert!(matches!(
        unknown.finish(),
        Err(ToolingContributionError::UnknownEndpoint { .. })
    ));
}

#[test]
fn owner_qualification_is_injective_and_stable() {
    let owner = "plugin:third-party/a";

    assert_eq!(
        qualify(owner, "route/nested%id"),
        "plugin:third-party/a/tooling/route%2Fnested%25id"
    );
    assert_ne!(
        qualify("plugin:third-party/a", "b/route"),
        qualify("plugin:third-party/a/b", "route")
    );
    assert_ne!(
        qualify(owner, "route/nested"),
        qualify(owner, "route%2Fnested")
    );
}

#[test]
fn contribution_structure_is_validated_before_projection() {
    let mut invalid_owner = ToolingContributions::new(String::from("component:foreign"));
    let mut empty_name = ToolingContributions::new(String::from("plugin:third-party/test"));
    let mut invalid_facet = ToolingContributions::new(String::from("plugin:third-party/test"));

    invalid_owner.resource("local", "Local");
    empty_name.resource("local", " ");
    invalid_facet.facet("summary", 0, "null");

    assert!(matches!(
        invalid_owner.finish(),
        Err(ToolingContributionError::InvalidOwner { .. })
    ));
    assert!(matches!(
        empty_name.finish(),
        Err(ToolingContributionError::EmptyResourceName { .. })
    ));
    assert!(matches!(
        invalid_facet.finish(),
        Err(ToolingContributionError::InvalidFacetVersion { .. })
    ));
}

#[test]
fn extension_relationships_reject_core_or_reversed_endpoint_shapes() {
    let mut reversed = ToolingContributions::new(String::from("plugin:third-party/test"));
    let mut dependency = ToolingContributions::new(String::from("plugin:third-party/test"));

    reversed.resource("local", "Local");
    reversed.relationship(
        ToolingRelationshipKind::Contains,
        ToolingEndpoint::Resource("local"),
        ToolingEndpoint::Owner,
    );
    dependency.resource("local", "Local");
    dependency.relationship(
        ToolingRelationshipKind::DependsOn,
        ToolingEndpoint::Owner,
        ToolingEndpoint::Resource("local"),
    );

    assert!(matches!(
        reversed.finish(),
        Err(ToolingContributionError::InvalidRelationshipEndpoints)
    ));
    assert!(matches!(
        dependency.finish(),
        Err(ToolingContributionError::InvalidRelationshipEndpoints)
    ));
}

#[test]
fn qualification_escapes_percent_before_slash() {
    assert_eq!(qualify("plugin:x", "a%2Fb"), "plugin:x/tooling/a%252Fb");
    assert_eq!(qualify("plugin:x", "a/b"), "plugin:x/tooling/a%2Fb");
}

#[test]
fn local_ids_must_be_non_empty_and_not_reserved() {
    assert_eq!(validate_local_id(""), Err(ToolingContributionError::EmptyId));
    assert!(matches!(
        validate_local_id("type:spoof"),
        Err(ToolingContributionError::ReservedId { .. })
    ));
    assert_eq!(validate_local_id("route"), Ok(()));
}

#[test]
fn owners_must_be_protocols_or_plugins() {
    assert_eq!(validate_owner("plugin:third-party/test"), Ok(()));
    assert_eq!(validate_owner("protocol:third-party/test"), Ok(()));
    assert!(matches!(
        validate_owner("component:foreign"),
        Err(ToolingContributionError::InvalidOwner { .. })
    ));
    assert!(matches!(
        validate_owner("plugin:"),
        Err(ToolingContributionError::InvalidOwner { .. })
    ));
}

#[test]
fn duplicate_relationships_and_facets_are_rejected() {
    let mut relationships = ToolingContributions::new(String::from("plugin:third-party/test"));

    relationships.resource("local", "Local");
    relationships.relationship(
        ToolingRelationshipKind::Contains,
        ToolingEndpoint::Owner,
        ToolingEndpoint::Resource("local"),
    );
    relationships.relationship(
        ToolingRelationshipKind::Contains,
        ToolingEndpoint::Owner,
        ToolingEndpoint::Resource("local"),
    );

    assert_eq!(
        relationships.finish().err(),
        Some(ToolingContributionError::DuplicateRelationship {
            from: String::from("plugin:third-party/test"),
            to: String::from("plugin:third-party/test/tooling/local"),
        })
    );

    let mut facets = ToolingContributions::new(String::from("plugin:third-party/test"));

    facets.facet("summary", 1, "{}");
    facets.facet("summary", 2, "[]");

    assert_eq!(
        facets.finish().err(),
        Some(ToolingContributionError::DuplicateFacet {
            id: String::from("plugin:third-party/test/tooling/summary"),
        })
    );
}

#[test]
fn resource_facets_attach_to_qualified_resources() {
    let mut contributions = ToolingContributions::new(String::from("plugin:third-party/test"));

    contributions.resource("local", "Local");
    contributions.resource_facet("local", "summary", 3, "{\"a\":1}");

    let set = contributions.finish().expect("metadata validates");

    assert_eq!(set.facets[0].target, "plugin:third-party/test/tooling/local");
    assert_eq!(
        set.facets[0].id,
        "plugin:third-party/test/tooling/local/tooling/summary"
    );
    assert_eq!(set.facets[0].facet.schema_version, 3);
    assert_eq!(set.resources[0].owner, "plugin:third-party/test");
    assert_eq!(set.resources[0].origin, "tooling-contribution");
}

#[test]
fn contribution_errors_display_their_texts() {
    assert_eq!(
        ToolingContributionError::ReservedId { id: String::from("component:x") }.message(),
        "tooling contribution identity 'component:x' is reserved by the framework"
    );
    assert_eq!(
        ToolingContributionError::DuplicateRelationship { from: String::from("a"), to: String::from("b") }.message(),
        "tooling relationship from 'a' to 'b' is declared more than once"
    );
    assert_eq!(
        ToolingContributionError::MissingProtocolDisplay { id: String::from("protocol:p") }.message(),
        "tooling protocol 'protocol:p' declares no display metadata"
    );
    assert_eq!(
        ToolingContributionError::EmptyId.message(),
        "tooling contribution contains an empty owner-local identity"
    );
}
