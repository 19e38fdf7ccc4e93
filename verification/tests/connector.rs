use std::sync::Arc;

use ds_sql_dps::config::Config;
use ds_sql_dps::connector::{ConnectorError, FileOfferConnector, DATA_OFFER_KIND};
use ds_sql_dps::graph::ConfigGraph;
use ds_sql_dps::registration::{registration_outcome, registration_url, RegistrationError};

#[test]
fn unsupported_kind_errors_naming_kind_and_connector() {
    let graph = Arc::new(ConfigGraph::open_in_memory().expect("open store"));
    let connector = FileOfferConnector::new(graph);

    let err = connector.pull("customer").expect_err("a kind this connector does not handle must error");

    match err {
        ConnectorError::UnsupportedKind { connector, kind } => {
            assert_eq!(connector, "ds-sql-dps-rs");
            assert_eq!(kind, "customer");
        }
        other => panic!("expected UnsupportedKind, got {other:?}"),
    }
}

#[test]
fn get_reads_back_the_seeded_offer() {
    let config = Config::for_test("sample.csv".to_string()).with_policy_not_after("2030-01-01T00:00:00Z");
    let mut graph = ConfigGraph::open_in_memory().expect("open store");
    graph.seed_offer(&config.file_offer()).expect("seed");
    let connector = FileOfferConnector::new(Arc::new(graph));
    assert_eq!(connector.source_name(), "ds-sql-dps-rs");
    let doc = connector.get(DATA_OFFER_KIND, "primary").expect("round trip");
    assert_eq!(doc.name, "primary");
    assert_eq!(doc.remote_id, "primary");
    assert_eq!(doc.kind, DATA_OFFER_KIND);
    assert_eq!(doc.source, "ds-sql-dps-rs");
    assert_eq!(doc.fields.file_path, "sample.csv");
    assert_eq!(doc.fields.media_type, "text/csv");
    assert_eq!(doc.fields.policy.permissions[0].constraints[0].right_operand, "2030-01-01T00:00:00Z");
    let pulled = connector.pull(DATA_OFFER_KIND).expect("pull");
    assert_eq!(pulled.len(), 1);
    assert_eq!(pulled[0].remote_id, "primary");
    match connector.push(&pulled[0]) {
        Err(ConnectorError::Unsupported { connector, operation }) => {
            assert_eq!(connector, "ds-sql-dps-rs");
            assert_eq!(operation, "push");
        }
        other => panic!("expected Unsupported, got {other:?}"),
    }
}

#[test]
fn get_of_unknown_offer_is_an_api_error() {
    let graph = Arc::new(ConfigGraph::open_in_memory().expect("open store"));
    let connector = FileOfferConnector::new(graph);
    match connector.get(DATA_OFFER_KIND, "primary") {
        Err(ConnectorError::Api { message }) => assert_eq!(message, "no offer found for dataset id 'primary'"),
        other => panic!("expected Api, got {other:?}"),
    }
}

#[test]
fn registration_targets_the_v5beta_dataplanes_endpoint() {
    assert_eq!(
        registration_url("http://127.0.0.1:18080", "test-participant-context"),
        "http://127.0.0.1:18080/v5beta/participants/test-participant-context/dataplanes"
    );
    let config = Config::from_values(None, None, None, None, None, None, None, None, None,
        Some("ds-sql-dps-rs-test-dataplane".to_string()), None, None);
    let registration = config.registration();
    assert_eq!(registration.dataplane_id, "ds-sql-dps-rs-test-dataplane");
    assert_eq!(registration.endpoint, "http://localhost:9191");
    assert_eq!(registration.transfer_types, vec!["HttpData-PULL".to_string()]);
    assert!(registration.labels.is_none());
    assert!(registration.authorization.is_none());
    assert_eq!(config.control_plane_callback_url(), "http://localhost:9191/callback");
}

#[test]
fn registration_outcome_follows_the_status() {
    assert!(registration_outcome(200).is_ok());
    assert!(registration_outcome(204).is_ok());
    match registration_outcome(404) {
        Err(RegistrationError::Rejected(s)) => assert_eq!(s, 404),
        other => panic!("expected Rejected, got {other:?}"),
    }
    assert!(registration_outcome(302).is_err());
    assert_eq!(registration_outcome(500).unwrap_err().message(),
        "control plane rejected the registration with status 500");
    assert_eq!(RegistrationError::Unreachable("connection refused".to_string()).message(),
        "control plane unreachable: connection refused");
}
