use std::sync::Arc;

use ds_sql_dps::config::Config;
use ds_sql_dps::graph::ConfigGraph;
use ds_sql_dps::handler::{FileOfferHandler, HandlerError};
use ds_sql_dps::public::{authorize, read_failure, serve_decision, PolicyOutcome};
use ds_sql_dps::tokens::TokenStore;

const DATASET_ID: &str = "primary";
const PUBLIC_BASE: &str = "http://localhost:40123";

fn seeded(config: &Config) -> Arc<ConfigGraph> {
    let mut graph = ConfigGraph::open_in_memory().expect("open store");
    graph.seed_offer(&config.file_offer()).expect("seed");
    Arc::new(graph)
}

fn app(config: Config) -> (Arc<ConfigGraph>, FileOfferHandler, TokenStore) {
    let graph = seeded(&config);
    let handler = FileOfferHandler::new(graph.clone(), PUBLIC_BASE.to_string(), config.tck_mode);
    (graph, handler, TokenStore::new())
}

#[test]
fn start_returns_data_address_with_token_and_public_endpoint() {
    let (_graph, handler, mut tokens) = app(Config::for_test("sample.csv".to_string()));
    let status = handler.on_start(&mut tokens, "flow-1", DATASET_ID).expect("START with a known dataset succeeds");
    assert_eq!(status.data_flow_id, "flow-1");
    let address = status.data_address;
    assert_eq!(address.endpoint, format!("{PUBLIC_BASE}/public/{DATASET_ID}"));
    assert_eq!(address.endpoint_type, "HTTP");
    let token = address.get_property("authorization").expect("authorization property");
    assert!(!token.is_empty(), "the authorization token must not be empty");
    assert_eq!(address.get_property("authType").as_deref(), Some("bearer"));
    assert_eq!(address.get_property("endpoint").as_deref(), Some(address.endpoint.as_str()));
    assert_eq!(address.get_property("missing"), None);
    assert_eq!(tokens.lookup(&token).expect("token issued").flow_id, "flow-1");
}

#[test]
fn get_public_file_with_valid_token_returns_configured_bytes() {
    let (graph, handler, mut tokens) = app(Config::for_test("sample.csv".to_string()));
    let status = handler.on_start(&mut tokens, "flow-1", DATASET_ID).expect("START");
    let token = status.data_address.get_property("authorization").expect("token");
    let policy = authorize(&tokens, &graph, &token, DATASET_ID).expect("authorized");
    assert_eq!(policy.permissions[0].action, "use");
    let serve = serve_decision(&graph, DATASET_ID, PolicyOutcome::Allowed).expect("served");
    assert_eq!(serve.file_path, "sample.csv");
    assert_eq!(serve.media_type, "text/csv");
}

#[test]
fn get_public_file_with_unknown_token_is_rejected() {
    let (graph, _handler, tokens) = app(Config::for_test("sample.csv".to_string()));
    let reply = authorize(&tokens, &graph, "garbage-unknown-token", DATASET_ID).expect_err("unknown token");
    assert_eq!(reply.status, 401);
    assert_eq!(reply.body, "invalid or expired token");
}

#[test]
fn get_public_file_with_wrong_dataset_id_is_rejected() {
    let (graph, handler, mut tokens) = app(Config::for_test("sample.csv".to_string()));
    let status = handler.on_start(&mut tokens, "flow-1", DATASET_ID).expect("START");
    let token = status.data_address.get_property("authorization").expect("token");
    let reply = authorize(&tokens, &graph, &token, "not-the-seeded-dataset").expect_err("wrong dataset");
    assert_eq!(reply.status, 403);
    assert_eq!(reply.body, "token not valid for this dataset");
}

#[test]
fn start_with_unknown_dataset_id_fails() {
    let (_graph, handler, mut tokens) = app(Config::for_test("sample.csv".to_string()));
    match handler.on_start(&mut tokens, "flow-1", "no-such-dataset") {
        Err(HandlerError::NotSupported(m)) => {
            assert_eq!(m, "unknown dataset 'no-such-dataset': no offer found for dataset id 'no-such-dataset'");
        }
        Ok(_) => panic!("START for an unknown dataset must fail"),
    }
}

#[test]
fn start_with_unknown_dataset_id_succeeds_in_tck_mode() {
    let mut config = Config::for_test("sample.csv".to_string());
    config.tck_mode = true;
    let (_graph, handler, mut tokens) = app(config);
    let status = handler.on_start(&mut tokens, "flow-1", "random-uuid-dataset").expect("accepted in TCK mode");
    assert_eq!(status.data_address.endpoint, format!("{PUBLIC_BASE}/public/random-uuid-dataset"));
}

#[test]
fn terminate_revokes_the_token() {
    let (graph, handler, mut tokens) = app(Config::for_test("sample.csv".to_string()));
    let status = handler.on_start(&mut tokens, "flow-1", DATASET_ID).expect("START");
    let token = status.data_address.get_property("authorization").expect("token");
    assert!(authorize(&tokens, &graph, &token, DATASET_ID).is_ok(), "token should work pre-terminate");
    handler.on_terminate(&mut tokens, "flow-1").expect("TERMINATE");
    let reply = authorize(&tokens, &graph, &token, DATASET_ID).expect_err("revoked");
    assert_eq!(reply.status, 401, "the same token must be rejected once its flow is terminated");
}

#[test]
fn expired_policy_denies_get_but_not_start() {
    let config = Config::for_test("sample.csv".to_string()).with_policy_not_after("2000-01-01T00:00:00Z");
    let (graph, handler, mut tokens) = app(config);
    let status = handler.on_start(&mut tokens, "flow-1", DATASET_ID).expect("START must still succeed");
    let token = status.data_address.get_property("authorization").expect("token");
    let policy = authorize(&tokens, &graph, &token, DATASET_ID).expect("token accepted");
    let constraint = &policy.permissions[0].constraints[0];
    assert_eq!((constraint.left_operand.as_str(), constraint.operator.as_str(), constraint.right_operand.as_str()),
        ("dateTime", "lteq", "2000-01-01T00:00:00Z"));
    let reply = serve_decision(&graph, DATASET_ID, PolicyOutcome::Denied("dateTime constraint failed".to_string()))
        .expect_err("denied");
    assert_eq!(reply.status, 403);
    assert!(reply.body.to_lowercase().contains("policy"), "denial reason should mention the policy, got: {}", reply.body);
    assert_eq!(reply.body, "policy denied this request: dateTime constraint failed");
}

#[test]
fn prepare_and_suspend_return_error_responses() {
    let (_graph, handler, _tokens) = app(Config::for_test("sample.csv".to_string()));
    assert!(handler.can_handle());
    match handler.on_prepare() {
        Err(e) => assert_eq!(e.message(), "this data plane only implements the provider role (START/TERMINATE)"),
        Ok(_) => panic!("PREPARE must fail"),
    }
    match handler.on_suspend() {
        Err(e) => assert_eq!(e.message(), "SUSPEND is not implemented by this MVP data plane"),
        Ok(_) => panic!("SUSPEND must fail"),
    }
    assert!(handler.on_started().is_ok());
}

#[test]
fn ingestion_failure_and_read_failure_answer_500() {
    let (graph, _handler, _tokens) = app(Config::for_test("sample.csv".to_string()));
    let reply = serve_decision(&graph, DATASET_ID, PolicyOutcome::IngestFailed("bad doc".to_string())).expect_err("500");
    assert_eq!(reply.status, 500);
    assert_eq!(reply.body, "policy ingestion failed: bad doc");
    let reply = read_failure("sample.csv", "No such file");
    assert_eq!(reply.status, 500);
    assert_eq!(reply.body, "failed to read sample.csv: No such file");
}

#[test]
fn allowed_request_for_dataset_without_file_is_404() {
    let (graph, _handler, _tokens) = app(Config::for_test("sample.csv".to_string()));
    let reply = serve_decision(&graph, "elsewhere", PolicyOutcome::Allowed).expect_err("404");
    assert_eq!(reply.status, 404);
    assert_eq!(reply.body, "no offer found for dataset id 'elsewhere'");
}

#[test]
fn policy_read_failure_for_token_of_unseeded_dataset_is_500() {
    let mut config = Config::for_test("sample.csv".to_string());
    config.tck_mode = true;
    let (graph, handler, mut tokens) = app(config);
    let status = handler.on_start(&mut tokens, "flow-1", "tck-dataset").expect("START in TCK mode");
    let token = status.data_address.get_property("authorization").expect("token");
    let reply = authorize(&tokens, &graph, &token, "tck-dataset").expect_err("no policy");
    assert_eq!(reply.status, 500);
    assert_eq!(reply.body, "no offer found for dataset id 'tck-dataset'");
}
