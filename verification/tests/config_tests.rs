use sowback::config::{
    parse_services, resolve_client_config, resolve_server_config, ClientConfig, Config,
    ConfigError, ServerConfig, ServiceConfig,
};

#[test]
fn parses_a_well_formed_service_string() {
    let cfg = ServiceConfig::parse("127.0.0.1:19999:28000").unwrap();
    assert_eq!(cfg.name, "127.0.0.1:19999:28000");
    assert_eq!(cfg.local_ip, "127.0.0.1");
    assert_eq!(cfg.local_port, 19999);
    assert_eq!(cfg.remote_port, 28000);

    let cli = ServiceConfig::parse_cli("localhost:80:8080").unwrap();
    assert_eq!(cli.local_ip, "localhost");
    assert_eq!(cli.local_port, 80);
    assert_eq!(cli.remote_port, 8080);
}

#[test]
fn rejects_wrong_field_counts() {
    assert_eq!(
        ServiceConfig::parse("127.0.0.1:19999").unwrap_err(),
        ConfigError::InvalidServiceFormat
    );
    assert_eq!(
        ServiceConfig::parse("a:1:2:3").unwrap_err(),
        ConfigError::InvalidServiceFormat
    );
    assert_eq!(ServiceConfig::parse("").unwrap_err(), ConfigError::InvalidServiceFormat);
}

#[test]
fn rejects_bad_ports() {
    assert_eq!(ServiceConfig::parse("h:65536:1").unwrap_err(), ConfigError::InvalidPort);
    assert_eq!(ServiceConfig::parse("h:1:99999").unwrap_err(), ConfigError::InvalidPort);
    assert_eq!(ServiceConfig::parse("h::1").unwrap_err(), ConfigError::InvalidPort);
    assert_eq!(ServiceConfig::parse("h:1a:2").unwrap_err(), ConfigError::InvalidPort);
    assert_eq!(ServiceConfig::parse("h:-1:2").unwrap_err(), ConfigError::InvalidPort);
}

#[test]
fn accepts_boundary_and_zero_padded_ports() {
    let cfg = ServiceConfig::parse("h:65535:007").unwrap();
    assert_eq!(cfg.local_port, 65535);
    assert_eq!(cfg.remote_port, 7);
}

#[test]
fn parses_a_service_list_or_fails_on_the_first_bad_one() {
    let good = vec!["a:1:2".to_string(), "b:3:4".to_string()];
    let v = parse_services(&good).unwrap();
    assert_eq!(v.len(), 2);
    assert_eq!(v[1].local_ip, "b");
    let mixed = vec!["a:1:2".to_string(), "broken".to_string()];
    assert_eq!(parse_services(&mixed).unwrap_err(), ConfigError::InvalidServiceFormat);
}

#[test]
fn defaults_match_the_documented_values() {
    let s = ServerConfig::default();
    assert_eq!(s.listen_addr, "0.0.0.0:7000");
    assert_eq!(s.bind_host, "0.0.0.0");
    assert_eq!(s.token, "");
    assert_eq!(s.max_clients, 100);
    assert!(s.name.is_none() && s.log_file.is_none());

    let c = ClientConfig::default();
    assert!(c.servers.is_empty() && c.services.is_empty());
    assert_eq!(c.reconnect_interval, 5);
    assert_eq!(c.heartbeat_interval, 30);

    let whole = Config { server: Some(s), client: Some(c) };
    assert!(whole.server.is_some() && whole.client.is_some());
}

#[test]
fn server_overrides_win_and_token_is_required() {
    let base = ServerConfig::default();
    assert_eq!(
        resolve_server_config(base, None, None, None, None, None).unwrap_err(),
        ConfigError::MissingToken
    );

    let base = ServerConfig::default();
    let cfg = resolve_server_config(
        base,
        Some("0.0.0.0:17000".to_string()),
        Some("127.0.0.1".to_string()),
        Some("t".to_string()),
        Some("srv".to_string()),
        Some("log.json".to_string()),
    )
    .unwrap();
    assert_eq!(cfg.listen_addr, "0.0.0.0:17000");
    assert_eq!(cfg.bind_host, "127.0.0.1");
    assert_eq!(cfg.token, "t");
    assert_eq!(cfg.name, Some("srv".to_string()));
    assert_eq!(cfg.log_file, Some("log.json".to_string()));

    // a token already in the file suffices
    let mut base = ServerConfig::default();
    base.token = "from-file".to_string();
    let cfg = resolve_server_config(base, None, None, None, None, None).unwrap();
    assert_eq!(cfg.token, "from-file");
    assert_eq!(cfg.listen_addr, "0.0.0.0:7000");
}

#[test]
fn client_overrides_win_and_services_are_parsed() {
    let base = ClientConfig::default();
    let cfg = resolve_client_config(
        base,
        vec!["127.0.0.1:17000".to_string()],
        Some("t".to_string()),
        &vec!["127.0.0.1:19999:28000".to_string()],
        None,
        None,
    )
    .unwrap();
    assert_eq!(cfg.servers, vec!["127.0.0.1:17000".to_string()]);
    assert_eq!(cfg.token, "t");
    assert_eq!(cfg.services.len(), 1);
    assert_eq!(cfg.services[0].remote_port, 28000);

    let base = ClientConfig::default();
    assert_eq!(
        resolve_client_config(base, Vec::new(), None, &Vec::new(), None, None).unwrap_err(),
        ConfigError::MissingToken
    );

    let base = ClientConfig::default();
    assert_eq!(
        resolve_client_config(
            base,
            Vec::new(),
            Some("t".to_string()),
            &vec!["nonsense".to_string()],
            None,
            None,
        )
        .unwrap_err(),
        ConfigError::InvalidServiceFormat
    );
}
