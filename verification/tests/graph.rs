use ds_sql_dps::config::Config;
use ds_sql_dps::graph::{dataset_iri, ConfigGraph, ConfigGraphError};
use ds_sql_dps::offer::{ConstraintSpec, FileOffer, PermissionSpec};
use ds_sql_dps::policy::ODRL_CONTEXT;
use ds_sql_dps::vocab::{dcat, dcterms, ds, odrl, rdf, xsd};

fn constraint(l: &str, o: &str, r: &str) -> ConstraintSpec {
    ConstraintSpec { left_operand: l.to_string(), operator: o.to_string(), right_operand: r.to_string() }
}

fn two_permission_offer(dataset_id: &str) -> FileOffer {
    FileOffer {
        dataset_id: dataset_id.to_string(),
        title: "Sample".to_string(),
        file_path: "data/sample.csv".to_string(),
        media_type: "text/csv".to_string(),
        assigner: "provider-a".to_string(),
        permissions: vec![
            PermissionSpec {
                action: "use".to_string(),
                constraints: vec![
                    constraint("dateTime", "lteq", "2026-12-31T23:59:59Z"),
                    constraint("purpose", "eq", "research"),
                    constraint("spatial", "eq", "EU"),
                ],
            },
            PermissionSpec { action: "read".to_string(), constraints: vec![] },
            PermissionSpec {
                action: "distribute".to_string(),
                constraints: vec![constraint("count", "lteq", "10")],
            },
        ],
    }
}

#[test]
fn dataset_iri_prefixes_the_dataset_id() {
    assert_eq!(dataset_iri("primary"), "urn:ds-sql-dps-rs:dataset:primary");
    assert_eq!(dataset_iri(""), "urn:ds-sql-dps-rs:dataset:");
}

#[test]
fn vocabulary_terms_expand_to_full_iris() {
    assert_eq!(odrl("permission"), "http://www.w3.org/ns/odrl/2/permission");
    assert_eq!(dcat("Dataset"), "http://www.w3.org/ns/dcat#Dataset");
    assert_eq!(dcterms("title"), "http://purl.org/dc/terms/title");
    assert_eq!(ds("order"), "https://ds42.org/ontologies/ds-sql-dps-rs#order");
    assert_eq!(rdf("type"), "http://www.w3.org/1999/02/22-rdf-syntax-ns#type");
    assert_eq!(xsd("integer"), "http://www.w3.org/2001/XMLSchema#integer");
}

#[test]
fn seeded_offer_reads_back_in_order() {
    let mut graph = ConfigGraph::open_in_memory().expect("open store");
    graph.seed_offer(&two_permission_offer("ds1")).expect("seed");
    assert_eq!(graph.file_path("ds1").expect("file path"), "data/sample.csv");
    assert_eq!(graph.media_type("ds1").expect("media type"), "text/csv");
    let doc = graph.policy_jsonld("ds1").expect("policy");
    assert_eq!(doc.context, ODRL_CONTEXT);
    assert_eq!(doc.id, "urn:ds-sql-dps-rs:dataset:ds1#policy");
    assert_eq!(doc.policy_type, "Offer");
    assert_eq!(doc.target, "urn:ds-sql-dps-rs:dataset:ds1");
    assert_eq!(doc.assigner, "provider-a");
    let actions: Vec<&str> = doc.permissions.iter().map(|p| p.action.as_str()).collect();
    assert_eq!(actions, vec!["use", "read", "distribute"]);
    let lefts: Vec<&str> = doc.permissions[0].constraints.iter().map(|c| c.left_operand.as_str()).collect();
    assert_eq!(lefts, vec!["dateTime", "purpose", "spatial"]);
    assert_eq!(doc.permissions[0].constraints[0].operator, "lteq");
    assert_eq!(doc.permissions[0].constraints[0].right_operand, "2026-12-31T23:59:59Z");
    assert!(doc.permissions[1].constraints.is_empty());
    assert_eq!(doc.permissions[2].constraints.len(), 1);
    assert_eq!(doc.permissions[2].constraints[0].right_operand, "10");
}

#[test]
fn many_permissions_keep_their_order_past_nine() {
    let mut offer = two_permission_offer("many");
    offer.permissions = (0..12)
        .map(|i| PermissionSpec { action: format!("action-{i}"), constraints: vec![] })
        .collect();
    let mut graph = ConfigGraph::open_in_memory().expect("open store");
    graph.seed_offer(&offer).expect("seed");
    let doc = graph.policy_jsonld("many").expect("policy");
    let actions: Vec<String> = doc.permissions.iter().map(|p| p.action.clone()).collect();
    let expected: Vec<String> = (0..12).map(|i| format!("action-{i}")).collect();
    assert_eq!(actions, expected);
}

#[test]
fn two_offers_in_one_graph_stay_apart() {
    let mut graph = ConfigGraph::open_in_memory().expect("open store");
    graph.seed_offer(&two_permission_offer("a")).expect("seed a");
    let mut b = two_permission_offer("b");
    b.file_path = "data/other.json".to_string();
    b.media_type = "application/json".to_string();
    b.permissions.truncate(1);
    graph.seed_offer(&b).expect("seed b");
    assert_eq!(graph.file_path("a").expect("a"), "data/sample.csv");
    assert_eq!(graph.file_path("b").expect("b"), "data/other.json");
    assert_eq!(graph.media_type("b").expect("b"), "application/json");
    assert_eq!(graph.policy_jsonld("a").expect("a").permissions.len(), 3);
    assert_eq!(graph.policy_jsonld("b").expect("b").permissions.len(), 1);
}

#[test]
fn unknown_dataset_is_not_found() {
    let graph = ConfigGraph::open_in_memory().expect("open store");
    match graph.file_path("nope") {
        Err(ConfigGraphError::NotFound(d)) => assert_eq!(d, "nope"),
        other => panic!("expected NotFound, got {other:?}"),
    }
    match graph.media_type("nope") {
        Err(e) => assert_eq!(e.message(), "no offer found for dataset id 'nope'"),
        other => panic!("expected an error, got {other:?}"),
    }
    match graph.policy_jsonld("nope") {
        Err(ConfigGraphError::NotFound(d)) => assert_eq!(d, "nope"),
        other => panic!("expected NotFound, got {other:?}"),
    }
}

#[test]
fn invalid_dataset_iri_is_refused_and_adds_nothing() {
    let mut graph = ConfigGraph::open_in_memory().expect("open store");
    let err = graph.seed_offer(&two_permission_offer("has space")).expect_err("a space is not valid in an IRI");
    assert!(matches!(err, ConfigGraphError::Iri(_)));
    assert!(err.message().starts_with("invalid IRI: "));
    assert!(matches!(graph.file_path("has space"), Err(ConfigGraphError::NotFound(_))));
}

#[test]
fn config_offer_seeds_use_permission_with_deadline() {
    let config = Config::for_test("sample.csv".to_string()).with_policy_not_after("2000-01-01T00:00:00Z");
    let offer = config.file_offer();
    assert_eq!(offer.title, "sample.csv (ds-sql-dps-rs data offer)");
    let mut graph = ConfigGraph::open_in_memory().expect("open store");
    graph.seed_offer(&offer).expect("seed");
    let doc = graph.policy_jsonld("primary").expect("policy");
    assert_eq!(doc.assigner, "ds-sql-dps-rs-test");
    assert_eq!(doc.permissions.len(), 1);
    assert_eq!(doc.permissions[0].action, "use");
    assert_eq!(doc.permissions[0].constraints.len(), 1);
    assert_eq!(doc.permissions[0].constraints[0].left_operand, "dateTime");
    assert_eq!(doc.permissions[0].constraints[0].operator, "lteq");
    assert_eq!(doc.permissions[0].constraints[0].right_operand, "2000-01-01T00:00:00Z");
}

#[test]
fn config_offer_without_deadline_has_unconstrained_use() {
    let offer = Config::for_test("x.csv".to_string()).file_offer();
    assert_eq!(offer.permissions.len(), 1);
    assert_eq!(offer.permissions[0].action, "use");
    assert!(offer.permissions[0].constraints.is_empty());
}

#[test]
fn seeding_another_dataset_keeps_reads() {
    let mut graph = ConfigGraph::open_in_memory().expect("open store");
    graph.seed_offer(&two_permission_offer("a")).expect("seed a");
    let path = graph.file_path("a").expect("a");
    let media = graph.media_type("a").expect("a");
    let policy = graph.policy_jsonld("a").expect("a");
    assert!(matches!(graph.file_path("b"), Err(ConfigGraphError::NotFound(_))));
    graph.seed_offer(&two_permission_offer("b")).expect("seed b");
    assert_eq!(graph.file_path("a").expect("a"), path);
    assert_eq!(graph.media_type("a").expect("a"), media);
    let again = graph.policy_jsonld("a").expect("a");
    assert_eq!(again.target, policy.target);
    assert_eq!(again.assigner, policy.assigner);
    assert_eq!(format!("{:?}", again.permissions), format!("{:?}", policy.permissions));
    assert!(graph.file_path("b").is_ok());
}
