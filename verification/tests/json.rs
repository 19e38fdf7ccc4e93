use ds_sql_dps::connector::DocumentFields;
use ds_sql_dps::graph::ConfigGraph;
use ds_sql_dps::json::{fields_json_bytes, policy_json_bytes};
use ds_sql_dps::offer::{ConstraintSpec, FileOffer, PermissionSpec};

fn p(action: &str, constraints: Vec<ConstraintSpec>) -> PermissionSpec {
    PermissionSpec { action: action.to_string(), constraints }
}

fn c(l: &str, o: &str, r: &str) -> ConstraintSpec {
    ConstraintSpec { left_operand: l.to_string(), operator: o.to_string(), right_operand: r.to_string() }
}

fn offer(permissions: Vec<PermissionSpec>) -> FileOffer {
    FileOffer {
        dataset_id: "d".to_string(),
        title: "t".to_string(),
        file_path: "f".to_string(),
        media_type: "m".to_string(),
        assigner: "A".to_string(),
        permissions,
    }
}

#[test]
fn policy_json_of_seeded_offer_is_exact() {
    let mut g = ConfigGraph::open_in_memory().unwrap();
    g.seed_offer(&offer(vec![p("use", vec![c("x", "eq", "1"), c("y", "eq", "2")]), p("read", vec![])])).unwrap();
    let doc = g.policy_jsonld("d").unwrap();
    let text = String::from_utf8(policy_json_bytes(&doc)).unwrap();
    assert_eq!(
        text,
        "{\"@context\":\"http://www.w3.org/ns/odrl.jsonld\",\"@id\":\"urn:ds-sql-dps-rs:dataset:d#policy\",\
         \"@type\":\"Offer\",\"target\":\"urn:ds-sql-dps-rs:dataset:d\",\"assigner\":\"A\",\"permission\":[\
         {\"action\":\"use\",\"constraint\":[{\"leftOperand\":\"x\",\"operator\":\"eq\",\"rightOperand\":\"1\"},\
         {\"leftOperand\":\"y\",\"operator\":\"eq\",\"rightOperand\":\"2\"}]},{\"action\":\"read\"}]}"
    );
}

#[test]
fn eleven_permissions_read_back_in_order() {
    let permissions = (0..11)
        .map(|i| p(&i.to_string(), if i == 0 { vec![c("x", "eq", "1")] } else { vec![] }))
        .collect();
    let mut g = ConfigGraph::open_in_memory().unwrap();
    g.seed_offer(&offer(permissions)).unwrap();
    let v: serde_json::Value = serde_json::from_slice(&policy_json_bytes(&g.policy_jsonld("d").unwrap())).unwrap();
    assert_eq!(v["target"], "urn:ds-sql-dps-rs:dataset:d");
    let ps = v["permission"].as_array().unwrap();
    assert_eq!(ps.len(), 11);
    assert_eq!(ps[0]["action"], "0");
    assert_eq!(ps[0]["constraint"][0]["leftOperand"], "x");
    assert_eq!(ps[0]["constraint"][0]["operator"], "eq");
    assert_eq!(ps[0]["constraint"][0]["rightOperand"], "1");
    for k in 1..=10 {
        assert_eq!(ps[k]["action"], k.to_string());
        assert!(ps[k].get("constraint").is_none());
        assert_eq!(ps[k].as_object().unwrap().len(), 1);
    }
}

#[test]
fn json_strings_escape_quotes_backslashes_and_control_characters() {
    let tricky = "a\"b\\c\nd\u{1}é✓";
    let mut g = ConfigGraph::open_in_memory().unwrap();
    let mut o = offer(vec![p(tricky, vec![c(tricky, "eq", tricky)])]);
    o.assigner = tricky.to_string();
    g.seed_offer(&o).unwrap();
    let doc = g.policy_jsonld("d").unwrap();
    let bytes = fields_json_bytes(&DocumentFields {
        file_path: tricky.to_string(),
        media_type: "text/csv".to_string(),
        policy: doc,
    });
    let v: serde_json::Value = serde_json::from_slice(&bytes).unwrap();
    assert_eq!(v["filePath"], tricky);
    assert_eq!(v["mediaType"], "text/csv");
    assert_eq!(v["policy"]["assigner"], tricky);
    assert_eq!(v["policy"]["permission"][0]["action"], tricky);
    assert_eq!(v["policy"]["permission"][0]["constraint"][0]["rightOperand"], tricky);
    let text = String::from_utf8(bytes).unwrap();
    assert!(text.contains("a\\\"b\\\\c\\nd".replace("\\n", "\\u000a").as_str()));
    assert!(text.contains("\\u0001"));
}
