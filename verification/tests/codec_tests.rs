use server_monitor::Registry;
use server_monitor::ServerStatus;

#[test]
fn one_endpoint_renders_to_the_documented_format() {
    let mut reg = Registry::new();
    reg.add("web", "10.0.0.1", "8080").unwrap();
    let text = reg.to_config_text();
    assert_eq!(text, "3:web\n8:10.0.0.1\n8080\nU\n20:http://10.0.0.1:8080\n");
}

#[test]
fn statuses_render_with_their_tags() {
    let mut reg = Registry::new();
    reg.add("a", "h", "1").unwrap();
    reg.add("b", "h", "2").unwrap();
    reg.add("c", "h", "3").unwrap();
    reg.add("d", "h", "4").unwrap();
    let results = vec![
        ServerStatus::Online,
        ServerStatus::Offline,
        ServerStatus::Error(404),
        ServerStatus::Unchecked,
    ];
    reg.reconcile(&results);
    let text = reg.to_config_text();
    assert_eq!(
        text,
        "1:a\n1:h\n1\nN\n10:http://h:1\n\
         1:b\n1:h\n2\nF\n10:http://h:2\n\
         1:c\n1:h\n3\nE404\n10:http://h:3\n\
         1:d\n1:h\n4\nU\n10:http://h:4\n"
    );
}

#[test]
fn empty_registry_renders_to_empty_text_and_loads_back() {
    let mut reg = Registry::new();
    let text = reg.to_config_text();
    assert_eq!(text, "");
    assert!(reg.load_from_text(&text).is_ok());
    assert_eq!(reg.len(), 0);
}

#[test]
fn saving_then_loading_yields_the_same_endpoints() {
    let mut reg = Registry::new();
    reg.add("网页服务", "143.86.170.164", "8080").unwrap();
    reg.add("db", "db.example.org", "5432").unwrap();
    reg.add("cache", "10.1.2.3", "11211").unwrap();
    let results = vec![
        ServerStatus::Online,
        ServerStatus::Error(503),
        ServerStatus::Offline,
    ];
    reg.reconcile(&results);
    let text = reg.to_config_text();

    let mut loaded = Registry::new();
    assert!(loaded.load_from_text(&text).is_ok());
    let a = reg.snapshot();
    let b = loaded.snapshot();
    assert_eq!(a.len(), b.len());
    for (x, y) in a.iter().zip(b.iter()) {
        assert_eq!(x.name, y.name);
        assert_eq!(x.host, y.host);
        assert_eq!(x.port, y.port);
        assert_eq!(x.status, y.status);
        assert_eq!(x.url, y.url);
    }
}

#[test]
fn loading_the_default_registry_round_trips_too() {
    let mut reg = Registry::new();
    reg.load_default_servers();
    let text = reg.to_config_text();
    let mut loaded = Registry::new();
    assert!(loaded.load_from_text(&text).is_ok());
    assert_eq!(loaded.len(), 9);
    let a = reg.snapshot();
    let b = loaded.snapshot();
    for (x, y) in a.iter().zip(b.iter()) {
        assert_eq!(x.name, y.name);
        assert_eq!(x.url, y.url);
        assert_eq!(x.status, y.status);
    }
}

#[test]
fn malformed_texts_are_rejected() {
    for bad in [
        "x",
        "3:web",
        "3:web\n",
        "3:we\n",
        "4:web\n8:10.0.0.1\n8080\nU\n20:http://10.0.0.1:8080\n",
        "3:web\n8:10.0.0.1\n0\nU\n18:http://10.0.0.1:0\n",
        "3:web\n8:10.0.0.1\n65536\nU\n24:http://10.0.0.1:65536\n",
        "3:web\n8:10.0.0.1\n8080\nX\n20:http://10.0.0.1:8080\n",
        "3:web\n8:10.0.0.1\n8080\nE\n20:http://10.0.0.1:8080\n",
        "3:web\n8:10.0.0.1\n8080\nU\n19:http://10.0.0.1:808\n",
        "3:web\n8:10.0.0.1\n8080\nU\n20:http://10.0.0.1:8081\n",
        "0:\n8:10.0.0.1\n8080\nU\n20:http://10.0.0.1:8080\n",
        "3:web\n0:\n8080\nU\n20:http://:8080\n",
        "3:web\n8:10.0.0.1\n8080\nU\n20:http://10.0.0.1:8080\ntrailing",
    ] {
        let mut reg = Registry::new();
        assert!(reg.load_from_text(bad).is_err(), "text {:?}", bad);
        assert_eq!(reg.len(), 0);
    }
}

#[test]
fn url_mismatch_in_the_file_counts_as_schema_mismatch() {
    // the stored URL must be exactly the one derived from host and port
    let good = "3:web\n8:10.0.0.1\n8080\nU\n20:http://10.0.0.1:8080\n";
    let bad = "3:web\n8:10.0.0.1\n8080\nU\n20:http://10.0.0.2:8080\n";
    let mut reg = Registry::new();
    assert!(reg.load_from_text(good).is_ok());
    assert_eq!(reg.len(), 1);
    assert!(reg.load_from_text(bad).is_err());
}

#[test]
fn error_status_round_trips_with_its_code() {
    let text = "3:web\n8:10.0.0.1\n8080\nE500\n20:http://10.0.0.1:8080\n";
    let mut reg = Registry::new();
    assert!(reg.load_from_text(text).is_ok());
    let snap = reg.snapshot();
    assert_eq!(snap[0].status, ServerStatus::Error(500));
    assert_eq!(reg.to_config_text(), text);
}

#[test]
fn names_with_newlines_and_colons_round_trip() {
    // the length-prefixed format needs no escaping at all
    let mut reg = Registry::new();
    reg.add("a:b\nc", "h\n:h", "99").unwrap();
    let text = reg.to_config_text();
    let mut loaded = Registry::new();
    assert!(loaded.load_from_text(&text).is_ok());
    let snap = loaded.snapshot();
    assert_eq!(snap[0].name, "a:b\nc");
    assert_eq!(snap[0].host, "h\n:h");
    assert_eq!(snap[0].port, 99);
}
