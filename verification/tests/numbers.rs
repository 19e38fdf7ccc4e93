use ds_sql_dps::config::{local_url, parse_port, Config};
use ds_sql_dps::decimal::{decimal_string, parse_decimal};

#[test]
fn decimal_text_round_trips() {
    for n in [0u64, 7, 10, 99, 100, 12345, u64::MAX] {
        let s = decimal_string(n);
        assert_eq!(s, n.to_string());
        assert_eq!(parse_decimal(&s), Some(n));
    }
}

#[test]
fn non_canonical_decimal_is_rejected() {
    assert_eq!(parse_decimal(""), None);
    assert_eq!(parse_decimal("007"), None);
    assert_eq!(parse_decimal("-1"), None);
    assert_eq!(parse_decimal("+1"), None);
    assert_eq!(parse_decimal("1a"), None);
    assert_eq!(parse_decimal("18446744073709551616"), None);
    assert_eq!(parse_decimal("0"), Some(0));
}

#[test]
fn ports_read_like_u16_from_str() {
    for s in ["0", "80", "+80", "0080", "65535", "9191"] {
        assert_eq!(parse_port(s), s.parse::<u16>().ok(), "{s}");
    }
    for s in ["", "+", "65536", "-1", "80a", " 80", "99999999999"] {
        assert_eq!(parse_port(s), None, "{s}");
        assert!(s.parse::<u16>().is_err());
    }
}

#[test]
fn local_url_names_the_port() {
    assert_eq!(local_url(9192), "http://localhost:9192");
}

#[test]
fn config_defaults_match_the_documented_ones() {
    let c = Config::from_values(None, None, None, None, None, None, None, None, None, None, None, None);
    assert_eq!(c.dataset_id, "primary");
    assert_eq!(c.file_path, "sample-data/sample.csv");
    assert_eq!(c.media_type, "text/csv");
    assert_eq!(c.assigner, "ds-sql-dps-rs");
    assert_eq!(c.policy_not_after, None);
    assert_eq!(c.signaling_port, 9191);
    assert_eq!(c.public_port, 9192);
    assert_eq!(c.public_base_url, "http://localhost:9192");
    assert_eq!(c.participant_context_id, "ds-sql-dps-rs");
    assert_eq!(c.dataplane_id, "ds-sql-dps-rs-dataplane");
    assert_eq!(c.control_plane_url, None);
    assert!(!c.tck_mode);
}

#[test]
fn config_public_base_url_follows_public_port() {
    let c = Config::from_values(None, None, None, None, None, None, Some(8000), None, None, None, None, None);
    assert_eq!(c.public_base_url, "http://localhost:8000");
    let c = Config::from_values(Some("d".into()), None, None, None, Some("2030-01-01T00:00:00Z".into()), Some(1), Some(2),
        Some("https://files.example".into()), None, None, Some("http://cp".into()), Some("true".into()));
    assert_eq!(c.dataset_id, "d");
    assert_eq!(c.public_base_url, "https://files.example");
    assert_eq!(c.signaling_port, 1);
    assert_eq!(c.policy_not_after.as_deref(), Some("2030-01-01T00:00:00Z"));
    assert_eq!(c.control_plane_url.as_deref(), Some("http://cp"));
    assert!(c.tck_mode);
    let c = Config::from_values(None, None, None, None, None, None, None, None, None, None, None, Some("yes".into()));
    assert!(!c.tck_mode);
}

#[test]
fn bound_public_base_url_follows_the_bound_port_only_for_port_zero() {
    let c = Config::for_test("f.csv".to_string());
    assert_eq!(c.bound_public_base_url(43127), "http://localhost:43127");
    let c = Config::from_values(None, None, None, None, None, None, Some(8000), Some("https://files.example".into()),
        None, None, None, None);
    assert_eq!(c.bound_public_base_url(8000), "https://files.example");
}

#[test]
fn for_test_binds_ephemeral_ports() {
    let c = Config::for_test("f.csv".to_string());
    assert_eq!(c.signaling_port, 0);
    assert_eq!(c.public_port, 0);
    assert_eq!(c.public_base_url, "");
    assert_eq!(c.dataset_id, "primary");
    assert_eq!(c.assigner, "ds-sql-dps-rs-test");
    assert_eq!(c.file_path, "f.csv");
}
