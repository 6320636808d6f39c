use server_monitor::Registry;
use server_monitor::ServerStatus;
use server_monitor::ValidationError;

#[test]
fn add_valid_input_appends_unchecked_endpoint() {
    let mut reg = Registry::new();
    assert_eq!(reg.len(), 0);
    let r = reg.add("web", "10.0.0.1", "8080");
    assert!(r.is_ok());
    assert_eq!(reg.len(), 1);
    let snap = reg.snapshot();
    assert_eq!(snap[0].name, "web");
    assert_eq!(snap[0].host, "10.0.0.1");
    assert_eq!(snap[0].port, 8080);
    assert_eq!(snap[0].url, "http://10.0.0.1:8080");
    assert!(matches!(snap[0].status, ServerStatus::Unchecked));
}

#[test]
fn add_accepts_plus_sign_and_leading_zeros() {
    let mut reg = Registry::new();
    assert!(reg.add("a", "h", "+0080").is_ok());
    let snap = reg.snapshot();
    assert_eq!(snap[0].port, 80);
    assert_eq!(snap[0].url, "http://h:80");
}

#[test]
fn add_rejects_empty_name() {
    let mut reg = Registry::new();
    let r = reg.add("", "10.0.0.1", "80");
    assert_eq!(r, Err(ValidationError::EmptyName));
    assert_eq!(reg.len(), 0);
}

#[test]
fn add_rejects_empty_host() {
    let mut reg = Registry::new();
    let r = reg.add("web", "", "80");
    assert_eq!(r, Err(ValidationError::EmptyHost));
    assert_eq!(reg.len(), 0);
}

#[test]
fn add_rejects_bad_ports() {
    let mut reg = Registry::new();
    for bad in ["", "abc", "0", "+0", "65536", "99999999999999999999", "12a", " 80", "-1", "8 0"] {
        let r = reg.add("web", "10.0.0.1", bad);
        assert_eq!(r, Err(ValidationError::InvalidPort), "port string {:?}", bad);
        assert_eq!(reg.len(), 0);
    }
}

#[test]
fn add_accepts_boundary_ports() {
    let mut reg = Registry::new();
    assert!(reg.add("a", "h", "1").is_ok());
    assert!(reg.add("b", "h", "65535").is_ok());
    let snap = reg.snapshot();
    assert_eq!(snap[0].port, 1);
    assert_eq!(snap[1].port, 65535);
}

#[test]
fn remove_valid_index_drops_exactly_that_endpoint() {
    let mut reg = Registry::new();
    reg.add("a", "h", "1000").unwrap();
    reg.add("b", "h", "2000").unwrap();
    reg.add("c", "h", "3000").unwrap();
    reg.remove(1);
    assert_eq!(reg.len(), 2);
    let snap = reg.snapshot();
    assert_eq!(snap[0].name, "a");
    assert_eq!(snap[1].name, "c");
}

#[test]
fn remove_out_of_bounds_is_a_no_op() {
    let mut reg = Registry::new();
    reg.add("a", "h", "1000").unwrap();
    reg.remove(1);
    reg.remove(100);
    assert_eq!(reg.len(), 1);
    let snap = reg.snapshot();
    assert_eq!(snap[0].name, "a");
}

#[test]
fn stats_of_empty_registry_is_all_zero() {
    let reg = Registry::new();
    assert_eq!(reg.stats(), (0, 0, 0));
}

#[test]
fn stats_counts_every_non_online_status_as_offline() {
    let mut reg = Registry::new();
    reg.add("a", "h", "1000").unwrap();
    reg.add("b", "h", "2000").unwrap();
    reg.add("c", "h", "3000").unwrap();
    reg.add("d", "h", "4000").unwrap();
    let results = vec![
        ServerStatus::Online,
        ServerStatus::Offline,
        ServerStatus::Error(500),
        ServerStatus::Unchecked,
    ];
    reg.reconcile(&results);
    let (total, online, offline) = reg.stats();
    assert_eq!((total, online, offline), (4, 1, 3));
    assert_eq!(total, online + offline);
    assert_eq!(offline, total - online);
}

#[test]
fn default_servers_are_nine_unchecked_on_one_host() {
    let mut reg = Registry::new();
    reg.load_default_servers();
    assert_eq!(reg.len(), 9);
    let snap = reg.snapshot();
    let ports = [8025, 8081, 8000, 3000, 8061, 8080, 8086, 8082, 11434];
    for (i, s) in snap.iter().enumerate() {
        assert_eq!(s.host, "143.86.170.164");
        assert_eq!(s.port, ports[i]);
        assert!(matches!(s.status, ServerStatus::Unchecked));
        assert_eq!(s.name, format!("服务器-{}", ports[i]));
        assert_eq!(s.url, format!("http://143.86.170.164:{}", ports[i]));
    }
    let (total, online, offline) = reg.stats();
    assert_eq!((total, online, offline), (9, 0, 9));
}

#[test]
fn corrupt_config_text_is_rejected_and_fallback_has_nine_endpoints() {
    let mut reg = Registry::new();
    reg.add("keep", "h", "80").unwrap();
    let r = reg.load_from_text("{ this is no configuration }");
    assert!(r.is_err());
    // the registry is untouched by the failed load
    assert_eq!(reg.len(), 1);
    assert_eq!(reg.snapshot()[0].name, "keep");
    // the caller then falls back to the default set
    reg.load_default_servers();
    assert_eq!(reg.len(), 9);
    for s in reg.snapshot() {
        assert!(matches!(s.status, ServerStatus::Unchecked));
        assert_eq!(s.host, "143.86.170.164");
    }
}

#[test]
fn reconcile_applies_results_by_position_and_drops_the_excess() {
    // the documented race: a removal between snapshot and reconciliation
    // shifts results onto the wrong endpoints and drops the last one.
    let mut reg = Registry::new();
    reg.add("a", "h", "1000").unwrap();
    reg.add("b", "h", "2000").unwrap();
    reg.add("c", "h", "3000").unwrap();
    let snapshot = reg.snapshot();
    assert_eq!(snapshot.len(), 3);
    // probe results for a, b, c in snapshot order
    let results = vec![
        ServerStatus::Online,
        ServerStatus::Offline,
        ServerStatus::Error(503),
    ];
    // endpoint "a" is removed while the probes are in flight
    reg.remove(0);
    reg.reconcile(&results);
    let snap = reg.snapshot();
    assert_eq!(snap.len(), 2);
    // "b" now sits at position 0 and takes "a"'s result
    assert_eq!(snap[0].name, "b");
    assert!(matches!(snap[0].status, ServerStatus::Online));
    // "c" takes "b"'s result; "c"'s own result is dropped silently
    assert_eq!(snap[1].name, "c");
    assert!(matches!(snap[1].status, ServerStatus::Offline));
}

#[test]
fn reconcile_with_fewer_results_leaves_the_rest_untouched() {
    let mut reg = Registry::new();
    reg.add("a", "h", "1000").unwrap();
    reg.add("b", "h", "2000").unwrap();
    let results = vec![ServerStatus::Online];
    reg.reconcile(&results);
    let snap = reg.snapshot();
    assert!(matches!(snap[0].status, ServerStatus::Online));
    assert!(matches!(snap[1].status, ServerStatus::Unchecked));
}
