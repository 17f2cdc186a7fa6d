use std::collections::BTreeMap;

use overseerd_tooling::labels::{LabelValue, Labels};
use overseerd_tooling::projection::{merge_relationship_labels, Projection, RelationshipKind, ResourceKind};

fn text_labels(pairs: &[(&str, &str)]) -> Labels {
    Labels::from_pairs(
        pairs
            .iter()
            .map(|(k, v)| (k.to_string(), v.to_string()))
            .collect(),
    )
}

fn text(labels: &Labels, key: &str) -> String {
    match labels.get(key) {
        Some(LabelValue::Text(t)) => t.clone(),
        other => panic!("label {key} is not text: {other:?}"),
    }
}

fn decision(pairs: &[(&str, &str)]) -> Vec<(String, String)> {
    pairs.iter().map(|(k, v)| (k.to_string(), v.to_string())).collect()
}

#[test]
fn exact_duplicates_are_idempotent_and_shared_labels_remain_scalar() {
    let mut labels = text_labels(&[("role", "resolved-provider"), ("cardinality", "one")]);
    let duplicate = labels.clone();

    merge_relationship_labels(&RelationshipKind::DependsOn, &mut labels, duplicate);

    assert_eq!(labels.entries.len(), 2);
    assert_eq!(text(&labels, "role"), "resolved-provider");
    assert_eq!(text(&labels, "cardinality"), "one");
}

#[test]
fn conflicting_dependency_facts_are_sorted_and_schema_unique() {
    let mut labels = text_labels(&[
        ("role", "resolved-provider"),
        ("cardinality", "one"),
        ("resolution", "eager"),
        ("qualifier", "primary"),
    ]);

    merge_relationship_labels(
        &RelationshipKind::DependsOn,
        &mut labels,
        text_labels(&[
            ("role", "resolved-provider"),
            ("cardinality", "collection"),
            ("resolution", "fresh"),
            ("qualifier", "secondary"),
        ]),
    );
    merge_relationship_labels(
        &RelationshipKind::DependsOn,
        &mut labels,
        text_labels(&[
            ("role", "resolved-provider"),
            ("cardinality", "keyed"),
            ("resolution", "deferred"),
        ]),
    );

    assert_eq!(text(&labels, "role"), "resolved-provider");

    let expected = vec![
        decision(&[
            ("cardinality", "collection"),
            ("qualifier", "secondary"),
            ("resolution", "fresh"),
            ("role", "resolved-provider"),
        ]),
        decision(&[
            ("cardinality", "keyed"),
            ("resolution", "deferred"),
            ("role", "resolved-provider"),
        ]),
        decision(&[
            ("cardinality", "one"),
            ("qualifier", "primary"),
            ("resolution", "eager"),
            ("role", "resolved-provider"),
        ]),
    ];
    let recorded = labels
        .get("dependency-decisions")
        .expect("dependency decisions are recorded");

    assert_eq!(recorded, &LabelValue::Decisions(expected.clone()));

    let as_maps: Vec<BTreeMap<String, String>> = expected
        .into_iter()
        .map(|d| d.into_iter().collect())
        .collect();

    assert_eq!(
        recorded.render(),
        serde_json::to_string(&as_maps).expect("decisions serialize")
    );

    let decoded: Vec<BTreeMap<String, String>> =
        serde_json::from_str(&recorded.render()).expect("dependency decisions deserialize");

    assert_eq!(decoded, as_maps);

    let mut document = Projection::new();

    document.resource(
        "component:consumer",
        ResourceKind::Component,
        "Consumer",
        None,
        Labels::new(),
    );
    document.resource("provider:test", ResourceKind::Provider, "Provider", None, Labels::new());
    document.relationship(
        RelationshipKind::DependsOn,
        "component:consumer",
        "provider:test",
        text_labels(&[("role", "resolved-provider")]),
    );

    assert_eq!(document.relationships().len(), 1);
    assert_eq!(document.resources().len(), 2);
}

#[test]
fn differing_scalar_labels_aggregate_with_null_for_absent_values() {
    let mut labels = text_labels(&[("slot", "a")]);

    merge_relationship_labels(&RelationshipKind::Replaces, &mut labels, text_labels(&[("slot", "b")]));

    assert_eq!(labels.entries.len(), 1);
    assert_eq!(
        labels.get("slot-values"),
        Some(&LabelValue::Values(vec![Some(String::from("a")), Some(String::from("b"))]))
    );
    assert!(labels.get("slot").is_none());

    merge_relationship_labels(&RelationshipKind::Replaces, &mut labels, Labels::new());

    let aggregate = labels.get("slot-values").expect("aggregate stays");

    assert_eq!(
        aggregate,
        &LabelValue::Values(vec![None, Some(String::from("a")), Some(String::from("b"))])
    );
    assert_eq!(aggregate.render(), r#"[null,"a","b"]"#);
    assert_eq!(
        aggregate.render(),
        serde_json::to_string(&vec![None, Some("a"), Some("b")]).expect("values serialize")
    );
}

#[test]
fn equal_scalar_labels_stay_scalar() {
    let mut labels = text_labels(&[("decision", "applied"), ("slot", "x")]);

    merge_relationship_labels(
        &RelationshipKind::Contributes,
        &mut labels,
        text_labels(&[("decision", "applied"), ("slot", "x")]),
    );

    assert_eq!(labels, text_labels(&[("decision", "applied"), ("slot", "x")]));
}

#[test]
fn relating_the_same_endpoints_again_keeps_one_relationship() {
    let mut document = Projection::new();

    document.relationship(RelationshipKind::Provides, "plugin:a", "plugin-slot:s", Labels::new());
    document.relationship(RelationshipKind::Provides, "plugin:a", "plugin-slot:s", Labels::new());
    document.relationship(RelationshipKind::Contains, "plugin:a", "plugin-slot:s", Labels::new());

    assert_eq!(document.relationships().len(), 2);
    assert_eq!(document.relationships()[0].kind, RelationshipKind::Provides);
    assert_eq!(document.relationships()[1].kind, RelationshipKind::Contains);
}

#[test]
fn rendered_text_labels_stay_plain_and_json_escapes_values() {
    assert_eq!(LabelValue::Text(String::from("plain \"text\"")).render(), "plain \"text\"");
    assert_eq!(
        LabelValue::Values(vec![Some(String::from("quote \" here"))]).render(),
        r#"["quote \" here"]"#
    );
    assert_eq!(LabelValue::Decisions(Vec::new()).render(), "[]");
    assert_eq!(LabelValue::Decisions(vec![Vec::new()]).render(), "[{}]");
}
