use ds_sql_dps::tokens::TokenStore;

#[test]
fn issued_token_resolves_to_its_flow_and_dataset() {
    let mut store = TokenStore::new();
    let token = store.issue("flow-1", "primary");
    assert!(!token.is_empty());
    let record = store.lookup(&token).expect("token is live");
    assert_eq!(record.flow_id, "flow-1");
    assert_eq!(record.dataset_id, "primary");
}

#[test]
fn unknown_token_is_not_found() {
    let mut store = TokenStore::default();
    store.issue("flow-1", "primary");
    assert!(store.lookup("garbage-unknown-token").is_none());
}

#[test]
fn each_issue_mints_a_distinct_token() {
    let mut store = TokenStore::new();
    let a = store.issue("flow-1", "primary");
    let b = store.issue("flow-1", "primary");
    assert_ne!(a, b);
    assert!(store.lookup(&a).is_some());
    assert!(store.lookup(&b).is_some());
}

#[test]
fn revoking_a_flow_removes_only_its_tokens() {
    let mut store = TokenStore::new();
    let a1 = store.issue("flow-a", "primary");
    let b = store.issue("flow-b", "primary");
    let a2 = store.issue("flow-a", "other");
    store.revoke_flow("flow-a");
    assert!(store.lookup(&a1).is_none());
    assert!(store.lookup(&a2).is_none());
    let kept = store.lookup(&b).expect("flow-b's token survives");
    assert_eq!(kept.flow_id, "flow-b");
    store.revoke_flow("flow-unknown");
    assert!(store.lookup(&b).is_some());
}

#[test]
fn issued_token_is_a_hyphenated_v4_uuid() {
    let mut store = TokenStore::new();
    let token = store.issue("flow-1", "primary");
    let chars: Vec<char> = token.chars().collect();
    assert_eq!(chars.len(), 36);
    for (i, c) in chars.iter().enumerate() {
        if i == 8 || i == 13 || i == 18 || i == 23 {
            assert_eq!(*c, '-');
        } else {
            assert!(c.is_ascii_hexdigit() && !c.is_ascii_uppercase());
        }
    }
    assert_eq!(chars[14], '4');
    assert!(matches!(chars[19], '8' | '9' | 'a' | 'b'));
}
