use mstress::config::Config;

#[test]
fn config_defaults() {
    let c = Config::new(None, None, None).unwrap();
    assert_eq!(c.nats_url, "nats://nats:4222");
    assert_eq!(c.mongo_url, "mongodb://mongo");
    assert_eq!(c.web_port, 8080);
}

#[test]
fn config_given_values() {
    let c = Config::new(Some("nats://bus:1".to_string()), Some("mongodb://db".to_string()), Some("9090".to_string())).unwrap();
    assert_eq!(c.nats_url, "nats://bus:1");
    assert_eq!(c.mongo_url, "mongodb://db");
    assert_eq!(c.web_port, 9090);
}

#[test]
fn config_bad_port() {
    assert!(Config::new(None, None, Some("80x".to_string())).is_none());
    assert!(Config::new(None, None, Some(String::new())).is_none());
    assert!(Config::new(None, None, Some("99999999999999999999999".to_string())).is_none());
}

#[test]
fn directory_skips_control_plane() {
    let ids = vec!["a".to_string(), "cloud-master".to_string(), "b".to_string()];
    assert_eq!(mstress::subjects::directory_clients(&ids), vec!["a".to_string(), "b".to_string()]);
}
