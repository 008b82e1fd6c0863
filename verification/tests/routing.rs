use beat_ecoprove_proxy::error::ProxyError;
use beat_ecoprove_proxy::routing::{ConfigFault, Field, RoutingConfig, ServiceConfig, ServiceFields};

fn descriptor(host: &str, port: u16, prefix: &str) -> ServiceConfig {
    ServiceConfig {
        host: host.to_string(),
        port,
        prefix: prefix.to_string(),
        api_version: 1,
        strip_prefix: true,
        skip_prefix_for: Vec::new(),
    }
}

fn table(entries: Vec<(&str, ServiceConfig)>) -> Result<RoutingConfig, ProxyError> {
    RoutingConfig::from_services(entries.into_iter().map(|(n, s)| (n.to_string(), s)).collect())
}

fn config_error(entries: Vec<(&str, ServiceConfig)>) -> String {
    match table(entries) {
        Err(ProxyError::ConfigError(msg)) => msg,
        Err(ProxyError::RouteNotFound(p)) => panic!("route not found: {}", p),
        Ok(_) => panic!("the table was accepted"),
    }
}

fn loaded(entries: Vec<(&str, ServiceConfig)>) -> RoutingConfig {
    match table(entries) {
        Ok(t) => t,
        Err(e) => panic!("{}", e.message()),
    }
}

#[test]
fn from_services_keeps_entries_in_order() {
    let t = loaded(vec![
        ("users", descriptor("10.0.0.1", 8080, "/users")),
        ("orders", descriptor("10.0.0.2", 65535, "/orders")),
    ]);
    assert_eq!(t.len(), 2);
    let (name, sc) = t.entry(0);
    assert_eq!(name, "users");
    assert_eq!(sc.host, "10.0.0.1");
    assert_eq!(sc.port, 8080);
    let (name, sc) = t.entry(1);
    assert_eq!(name, "orders");
    assert_eq!(sc.prefix, "/orders");
    assert_eq!(sc.port, 65535);
}

#[test]
fn from_services_accepts_an_empty_table() {
    let t = loaded(Vec::new());
    assert_eq!(t.len(), 0);
    assert!(t.find_service("/anything").is_none());
}

#[test]
fn from_services_refuses_port_zero() {
    let msg = config_error(vec![
        ("users", descriptor("h", 1, "/users")),
        ("orders", descriptor("h", 0, "/orders")),
    ]);
    assert_eq!(msg, "port out of range in service orders");
}

#[test]
fn from_services_refuses_an_empty_prefix() {
    let msg = config_error(vec![("users", descriptor("h", 80, ""))]);
    assert_eq!(msg, "empty prefix in service users");
}

#[test]
fn from_services_refuses_an_empty_host() {
    let msg = config_error(vec![("users", descriptor("", 80, "/users"))]);
    assert_eq!(msg, "empty host in service users");
}

#[test]
fn from_services_refuses_a_repeated_name() {
    let msg = config_error(vec![
        ("users", descriptor("h", 80, "/users")),
        ("orders", descriptor("h", 80, "/orders")),
        ("users", descriptor("h", 81, "/people")),
    ]);
    assert_eq!(msg, "duplicate service name users");
}

#[test]
fn from_services_reports_the_first_refused_entry() {
    let msg = config_error(vec![
        ("a", descriptor("h", 80, "/a")),
        ("b", descriptor("", 0, "")),
        ("a", descriptor("h", 0, "/c")),
    ]);
    assert_eq!(msg, "empty host in service b");
    let msg = config_error(vec![
        ("a", descriptor("h", 80, "/a")),
        ("a", descriptor("h", 0, "/c")),
    ]);
    assert_eq!(msg, "port out of range in service a");
}

#[test]
fn check_names_the_broken_rule() {
    assert!(descriptor("h", 80, "/p").check().is_none());
    assert!(matches!(descriptor("", 80, "/p").check(), Some(ConfigFault::EmptyHost)));
    assert!(matches!(descriptor("h", 0, "/p").check(), Some(ConfigFault::PortOutOfRange)));
    assert!(matches!(descriptor("h", 80, "").check(), Some(ConfigFault::EmptyPrefix)));
    assert!(matches!(descriptor("", 0, "").check(), Some(ConfigFault::EmptyHost)));
    assert!(matches!(descriptor("h", 0, "").check(), Some(ConfigFault::PortOutOfRange)));
}

#[test]
fn find_service_matches_by_prefix() {
    let t = loaded(vec![
        ("users", descriptor("u", 80, "/users")),
        ("orders", descriptor("o", 81, "/orders")),
    ]);
    match t.find_service("/orders/17") {
        Some((name, sc)) => {
            assert_eq!(name, "orders");
            assert_eq!(sc.host, "o");
            assert_eq!(sc.port, 81);
        },
        None => panic!("no service found"),
    }
    match t.find_service("/users") {
        Some((name, _)) => assert_eq!(name, "users"),
        None => panic!("no service found"),
    }
}

#[test]
fn find_service_finds_nothing_for_an_unknown_path() {
    let t = loaded(vec![
        ("users", descriptor("u", 80, "/users")),
        ("orders", descriptor("o", 81, "/orders")),
    ]);
    assert!(t.find_service("/unknown/path").is_none());
    assert!(t.find_service("/user").is_none());
    assert!(t.find_service("/Users/1").is_none());
    assert!(t.find_service("").is_none());
    assert!(t.find_service("x/users").is_none());
}

#[test]
fn find_service_takes_the_first_of_overlapping_prefixes() {
    let t = loaded(vec![
        ("api", descriptor("a", 80, "/api")),
        ("v1", descriptor("b", 80, "/api/v1")),
    ]);
    match t.find_service("/api/v1/x") {
        Some((name, _)) => assert_eq!(name, "api"),
        None => panic!("no service found"),
    }
    let t = loaded(vec![
        ("v1", descriptor("b", 80, "/api/v1")),
        ("api", descriptor("a", 80, "/api")),
    ]);
    match t.find_service("/api/v1/x") {
        Some((name, _)) => assert_eq!(name, "v1"),
        None => panic!("no service found"),
    }
    match t.find_service("/api/v2/x") {
        Some((name, _)) => assert_eq!(name, "api"),
        None => panic!("no service found"),
    }
}

#[test]
fn find_service_gives_the_same_answer_each_time() {
    let t = loaded(vec![
        ("a", descriptor("a", 80, "/a")),
        ("ab", descriptor("b", 80, "/ab")),
        ("abc", descriptor("c", 80, "/abc")),
    ]);
    for path in ["/abc/d", "/ab", "/a", "/", "/b", "/abcd"] {
        let first = t.find_service(path).map(|(n, s)| (n.clone(), s.prefix.clone()));
        for _ in 0..5 {
            let again = t.find_service(path).map(|(n, s)| (n.clone(), s.prefix.clone()));
            assert_eq!(first, again);
        }
    }
}

#[test]
fn get_looks_a_service_up_by_its_whole_name() {
    let t = loaded(vec![
        ("users", descriptor("u", 80, "/users")),
        ("orders", descriptor("o", 81, "/orders")),
    ]);
    match t.get(&"orders".to_string()) {
        Some(sc) => assert_eq!(sc.port, 81),
        None => panic!("no such service"),
    }
    assert!(t.get(&"order".to_string()).is_none());
    assert!(t.get(&"orders2".to_string()).is_none());
    assert!(t.get(&String::new()).is_none());
}

#[test]
fn errors_render_with_their_label() {
    let e = ProxyError::ConfigError("missing field `port`".to_string());
    assert_eq!(e.message(), "Config error: missing field `port`");
    let e = ProxyError::RouteNotFound("/unknown/path".to_string());
    assert_eq!(e.message(), "Route not found: /unknown/path");
    let e = ProxyError::RouteNotFound(String::new());
    assert_eq!(e.message(), "Route not found: ");
}

fn record(host: &str, port: i64, prefix: &str) -> ServiceFields {
    ServiceFields {
        host: Some(host.to_string()),
        port: Some(port),
        prefix: Some(prefix.to_string()),
        api_version: Some(3),
        strip_prefix: Some(true),
        skip_prefix_for: Some(vec!["/health".to_string(), "/metrics".to_string()]),
    }
}

fn document_error(records: Vec<(&str, ServiceFields)>) -> String {
    match RoutingConfig::load(records.into_iter().map(|(n, r)| (n.to_string(), r)).collect()) {
        Err(ProxyError::ConfigError(msg)) => msg,
        Err(ProxyError::RouteNotFound(p)) => panic!("route not found: {}", p),
        Ok(_) => panic!("the document was accepted"),
    }
}

#[test]
fn load_builds_the_table_of_a_complete_document() {
    let records = vec![
        ("users".to_string(), record("10.0.0.1", 1, "/users")),
        ("orders".to_string(), record("10.0.0.2", 65535, "/orders")),
    ];
    let t = match RoutingConfig::load(records) {
        Ok(t) => t,
        Err(e) => panic!("{}", e.message()),
    };
    assert_eq!(t.len(), 2);
    let (name, sc) = t.entry(0);
    assert_eq!(name, "users");
    assert_eq!(sc.host, "10.0.0.1");
    assert_eq!(sc.port, 1);
    assert_eq!(sc.prefix, "/users");
    assert_eq!(sc.api_version, 3);
    assert!(sc.strip_prefix);
    assert_eq!(sc.skip_prefix_for, vec!["/health".to_string(), "/metrics".to_string()]);
    let (name, sc) = t.entry(1);
    assert_eq!(name, "orders");
    assert_eq!(sc.port, 65535);
}

#[test]
fn load_refuses_a_document_without_a_port() {
    let mut r = record("h", 80, "/users");
    r.port = None;
    assert_eq!(document_error(vec![("users", r)]), "missing field port in service users");
}

#[test]
fn load_refuses_each_missing_field() {
    let mut r = record("h", 80, "/p");
    r.host = None;
    assert_eq!(document_error(vec![("s", r)]), "missing field host in service s");
    let mut r = record("h", 80, "/p");
    r.prefix = None;
    assert_eq!(document_error(vec![("s", r)]), "missing field prefix in service s");
    let mut r = record("h", 80, "/p");
    r.api_version = None;
    assert_eq!(document_error(vec![("s", r)]), "missing field apiVersion in service s");
    let mut r = record("h", 80, "/p");
    r.strip_prefix = None;
    assert_eq!(document_error(vec![("s", r)]), "missing field stripPrefix in service s");
    let mut r = record("h", 80, "/p");
    r.skip_prefix_for = None;
    assert_eq!(document_error(vec![("s", r)]), "missing field skipPrefixFor in service s");
}

#[test]
fn load_refuses_ports_out_of_range() {
    for port in [0, -1, 65536, i64::MAX, i64::MIN] {
        let msg = document_error(vec![("a", record("h", 80, "/a")), ("b", record("h", port, "/b"))]);
        assert_eq!(msg, "port out of range in service b");
    }
}

#[test]
fn load_refuses_versions_out_of_range() {
    for version in [-1, 65536, i64::MAX] {
        let mut r = record("h", 80, "/a");
        r.api_version = Some(version);
        assert_eq!(document_error(vec![("a", r)]), "apiVersion out of range in service a");
    }
    let mut r = record("h", 80, "/a");
    r.api_version = Some(0);
    assert!(RoutingConfig::load(vec![("a".to_string(), r)]).is_ok());
}

#[test]
fn load_refuses_empty_host_empty_prefix_and_repeated_names() {
    assert_eq!(document_error(vec![("a", record("", 80, "/a"))]), "empty host in service a");
    assert_eq!(document_error(vec![("a", record("h", 80, ""))]), "empty prefix in service a");
    let msg = document_error(vec![("a", record("h", 80, "/a")), ("a", record("h", 81, "/b"))]);
    assert_eq!(msg, "duplicate service name a");
}

#[test]
fn load_reports_missing_fields_before_other_faults() {
    let mut late = record("h", 80, "/late");
    late.strip_prefix = None;
    let msg = document_error(vec![("early", record("", 80, "/early")), ("late", late)]);
    assert_eq!(msg, "missing field stripPrefix in service late");
    let mut r = record("h", 0, "/p");
    r.host = None;
    r.port = None;
    assert_eq!(document_error(vec![("s", r)]), "missing field host in service s");
    let mut r = record("h", 0, "/p");
    r.skip_prefix_for = None;
    assert_eq!(document_error(vec![("s", r)]), "missing field skipPrefixFor in service s");
}

#[test]
fn from_fields_names_the_first_fault() {
    assert!(ServiceConfig::from_fields(&record("h", 80, "/p")).is_ok());
    let mut r = record("h", 80, "/p");
    r.port = None;
    r.prefix = None;
    assert!(matches!(
        ServiceConfig::from_fields(&r),
        Err(ConfigFault::MissingField(Field::Port))
    ));
    assert!(matches!(
        ServiceConfig::from_fields(&record("h", 70000, "/p")),
        Err(ConfigFault::PortOutOfRange)
    ));
    let mut r = record("h", 80, "/p");
    r.api_version = Some(-5);
    assert!(matches!(ServiceConfig::from_fields(&r), Err(ConfigFault::ApiVersionOutOfRange)));
    match ServiceConfig::from_fields(&record("", 80, "")) {
        Ok(sc) => assert!(matches!(sc.check(), Some(ConfigFault::EmptyHost))),
        Err(_) => panic!("complete fields were refused"),
    }
}
