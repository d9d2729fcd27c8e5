use sowback::client_state::{check_auth_response, ClientAction, ClientError, ClientState};
use sowback::config::ServiceConfig;
use sowback::crypto::{magic_salt, sha256_with_salt};
use sowback::protocol::Message;
use sowback::server_state::{
    check_auth_message, build_auth_failure, build_auth_success, AuthCheck, ProxyConfigStep,
    ServerAction, ServerState,
};

fn expected_hash(token: &str) -> Vec<u8> {
    let salt = magic_salt();
    sha256_with_salt(token.as_bytes(), &salt)
}

#[test]
fn client_ids_stay_unique() {
    let mut s = ServerState::new();
    assert!(s.register_client("c-1"));
    assert!(s.register_client("c-2"));
    assert!(!s.register_client("c-1"));
    assert!(s.client_alive("c-1"));
    assert!(s.client_alive("c-2"));
    assert!(!s.client_alive("c-3"));
}

#[test]
fn auth_message_check() {
    let hash = expected_hash("good");
    let ok = Message::new_auth("good", "c-1", Some("laptop".to_string()));
    match check_auth_message(ok, &hash) {
        AuthCheck::Accepted { client_id, client_name } => {
            assert_eq!(client_id, "c-1");
            assert_eq!(client_name, Some("laptop".to_string()));
        }
        other => panic!("expected acceptance: {:?}", other),
    }
    let bad = Message::new_auth("bad", "c-1", None);
    assert!(matches!(check_auth_message(bad, &hash), AuthCheck::BadToken));
    let not_auth = Message::Heartbeat { timestamp: 0 };
    assert!(matches!(check_auth_message(not_auth, &hash), AuthCheck::NotAuth));
}

#[test]
fn auth_responses_carry_the_right_fields() {
    match build_auth_success(vec![7u8; 32], Some("srv".to_string())) {
        Message::AuthResponse { success, session_key, name, error } => {
            assert!(success);
            assert_eq!(session_key, Some(vec![7u8; 32]));
            assert_eq!(name, Some("srv".to_string()));
            assert_eq!(error, None);
        }
        other => panic!("wrong variant: {:?}", other),
    }
    match build_auth_failure(None) {
        Message::AuthResponse { success, session_key, name, error } => {
            assert!(!success);
            assert_eq!(session_key, None);
            assert_eq!(name, None);
            assert_eq!(error, Some("Invalid token".to_string()));
        }
        other => panic!("wrong variant: {:?}", other),
    }
}

#[test]
fn port_conflict_exactly_one_winner() {
    let mut s = ServerState::new();
    assert!(s.register_client("c-1"));
    assert!(s.register_client("c-2"));

    // first client asks for the port: it is free, so a bind is requested
    let step = s.on_proxy_config("c-1", "127.0.0.1".to_string(), 19999, 28000, "p-1");
    assert!(matches!(step, ProxyConfigStep::NeedBind));
    let reply = s.finish_bind(28000, "c-1", "p-1", None).expect("reply");
    match reply {
        Message::ProxyConfigResponse { success, proxy_id, error } => {
            assert!(success);
            assert_eq!(proxy_id, Some("p-1".to_string()));
            assert_eq!(error, None);
        }
        other => panic!("wrong variant: {:?}", other),
    }

    // second client asking for the same port is refused
    let step = s.on_proxy_config("c-2", "127.0.0.1".to_string(), 19998, 28000, "p-2");
    match step {
        ProxyConfigStep::Respond { reply } => match reply {
            Message::ProxyConfigResponse { success, proxy_id, error } => {
                assert!(!success);
                assert_eq!(proxy_id, None);
                let text = error.expect("an error text");
                assert!(text.contains("already in use"));
                assert_eq!(text, "Port 28000 already in use by another client");
            }
            other => panic!("wrong variant: {:?}", other),
        },
        other => panic!("expected a refusal: {:?}", other),
    }

    // the owner asking again gets a fresh proxy id and no second listener
    let step = s.on_proxy_config("c-1", "127.0.0.1".to_string(), 19999, 28000, "p-3");
    match step {
        ProxyConfigStep::Respond { reply } => match reply {
            Message::ProxyConfigResponse { success, proxy_id, error } => {
                assert!(success);
                assert_eq!(proxy_id, Some("p-3".to_string()));
                assert_eq!(error, None);
            }
            other => panic!("wrong variant: {:?}", other),
        },
        other => panic!("expected an acknowledgement: {:?}", other),
    }

    // an unregistered client's request is dropped
    let step = s.on_proxy_config("ghost", "127.0.0.1".to_string(), 1, 28001, "p-4");
    assert!(matches!(step, ProxyConfigStep::UnknownClient));
}

#[test]
fn bind_failure_reports_the_reason_and_installs_nothing() {
    let mut s = ServerState::new();
    assert!(s.register_client("c-1"));
    let step = s.on_proxy_config("c-1", "127.0.0.1".to_string(), 19999, 28000, "p-1");
    assert!(matches!(step, ProxyConfigStep::NeedBind));
    let reply = s
        .finish_bind(28000, "c-1", "p-1", Some("Failed to bind port 28000: in use".to_string()))
        .expect("reply");
    match reply {
        Message::ProxyConfigResponse { success, proxy_id, error } => {
            assert!(!success);
            assert_eq!(proxy_id, None);
            assert_eq!(error, Some("Failed to bind port 28000: in use".to_string()));
        }
        other => panic!("wrong variant: {:?}", other),
    }
    // the port is still free afterwards
    let step = s.on_proxy_config("c-1", "127.0.0.1".to_string(), 19999, 28000, "p-2");
    assert!(matches!(step, ProxyConfigStep::NeedBind));
}

#[test]
fn connections_need_a_live_client() {
    let mut s = ServerState::new();
    assert!(!s.register_connection("conn-1", "nobody"));
    assert!(s.register_client("c-1"));
    assert!(s.register_connection("conn-1", "c-1"));
    assert!(!s.register_connection("conn-1", "c-1")); // id in use
    assert!(s.route_exists("conn-1"));
    assert!(!s.route_exists("conn-2"));
    assert!(s.remove_connection("conn-1"));
    assert!(!s.remove_connection("conn-1")); // removed exactly once
    assert!(!s.route_exists("conn-1"));
}

#[test]
fn heartbeat_echoes_the_timestamp() {
    let mut s = ServerState::new();
    assert!(s.register_client("c-1"));
    match s.heartbeat_reply("c-1", 1234) {
        Some(Message::HeartbeatResponse { timestamp }) => assert_eq!(timestamp, 1234),
        other => panic!("expected an echo: {:?}", other),
    }
    assert!(s.heartbeat_reply("ghost", 1).is_none());
}

#[test]
fn cleanup_sweeps_everything_and_is_idempotent() {
    let mut s = ServerState::new();
    assert!(s.register_client("c-1"));
    assert!(s.register_client("c-2"));
    assert!(matches!(
        s.on_proxy_config("c-1", "127.0.0.1".to_string(), 19999, 28000, "p-1"),
        ProxyConfigStep::NeedBind
    ));
    s.finish_bind(28000, "c-1", "p-1", None).unwrap();
    assert!(matches!(
        s.on_proxy_config("c-2", "127.0.0.1".to_string(), 19998, 28001, "p-2"),
        ProxyConfigStep::NeedBind
    ));
    s.finish_bind(28001, "c-2", "p-2", None).unwrap();
    assert!(s.register_connection("conn-1", "c-1"));
    assert!(s.register_connection("conn-2", "c-2"));

    let (removed, ports) = s.cleanup_client("c-1");
    assert!(removed);
    assert_eq!(ports, vec![28000]);
    assert!(!s.client_alive("c-1"));
    assert!(s.client_alive("c-2"));
    assert!(!s.route_exists("conn-1"));
    assert!(s.route_exists("conn-2"));

    // a fresh bind of the released port succeeds
    assert!(s.register_client("c-3"));
    assert!(matches!(
        s.on_proxy_config("c-3", "127.0.0.1".to_string(), 19999, 28000, "p-3"),
        ProxyConfigStep::NeedBind
    ));

    // the second sweep finds nothing
    let (removed, ports) = s.cleanup_client("c-1");
    assert!(!removed);
    assert!(ports.is_empty());
}

#[test]
fn client_checks_the_auth_response() {
    let ok = Message::AuthResponse {
        success: true,
        session_key: Some(vec![1u8; 32]),
        name: None,
        error: None,
    };
    assert_eq!(check_auth_response(ok).unwrap(), vec![1u8; 32]);
    let refused = Message::AuthResponse {
        success: false,
        session_key: None,
        name: None,
        error: Some("Invalid token".to_string()),
    };
    assert_eq!(check_auth_response(refused).unwrap_err(), ClientError::AuthFailed);
    let keyless = Message::AuthResponse {
        success: true,
        session_key: None,
        name: None,
        error: None,
    };
    assert_eq!(check_auth_response(keyless).unwrap_err(), ClientError::NoSessionKey);
    let odd = Message::Heartbeat { timestamp: 0 };
    assert_eq!(check_auth_response(odd).unwrap_err(), ClientError::UnexpectedMessage);
}

fn one_service() -> Vec<ServiceConfig> {
    vec![ServiceConfig {
        name: "127.0.0.1:19999:28000".to_string(),
        local_ip: "127.0.0.1".to_string(),
        local_port: 19999,
        remote_port: 28000,
    }]
}

#[test]
fn client_dials_the_first_service_for_new_connections() {
    let mut c = ClientState::new();
    let services = one_service();
    let msg = Message::NewConnection {
        proxy_id: "p-1".to_string(),
        connection_id: "conn-1".to_string(),
    };
    match c.handle_server_message(msg, &services) {
        ClientAction::ConnectLocal { local_ip, local_port, connection_id } => {
            assert_eq!(local_ip, "127.0.0.1");
            assert_eq!(local_port, 19999);
            assert_eq!(connection_id, "conn-1");
        }
        other => panic!("expected a dial: {:?}", other),
    }
    let msg = Message::NewConnection {
        proxy_id: "p-1".to_string(),
        connection_id: "conn-2".to_string(),
    };
    assert!(matches!(
        c.handle_server_message(msg, &Vec::new()),
        ClientAction::NoService
    ));
}

#[test]
fn client_routes_data_and_closes_exactly_once() {
    let mut c = ClientState::new();
    let services = one_service();
    assert!(c.add_connection("conn-1"));
    assert!(!c.add_connection("conn-1"));

    let msg = Message::Data { connection_id: "conn-1".to_string(), data: vec![1, 2, 3] };
    match c.handle_server_message(msg, &services) {
        ClientAction::ForwardLocal { connection_id, data } => {
            assert_eq!(connection_id, "conn-1");
            assert_eq!(data, vec![1, 2, 3]);
        }
        other => panic!("expected a forward: {:?}", other),
    }
    let msg = Message::Data { connection_id: "conn-9".to_string(), data: vec![4] };
    assert!(matches!(
        c.handle_server_message(msg, &services),
        ClientAction::DropData { .. }
    ));

    let close = Message::CloseConnection { connection_id: "conn-1".to_string() };
    match c.handle_server_message(close, &services) {
        ClientAction::CloseLocal { connection_id, existed } => {
            assert_eq!(connection_id, "conn-1");
            assert!(existed);
        }
        other => panic!("expected a close: {:?}", other),
    }
    let close = Message::CloseConnection { connection_id: "conn-1".to_string() };
    match c.handle_server_message(close, &services) {
        ClientAction::CloseLocal { existed, .. } => assert!(!existed),
        other => panic!("expected a close: {:?}", other),
    }
}

#[test]
fn client_logs_acks_and_flags_unexpected_messages() {
    let mut c = ClientState::new();
    let services = one_service();
    let msg = Message::ProxyConfigResponse {
        success: true,
        proxy_id: Some("p-1".to_string()),
        error: None,
    };
    assert!(matches!(
        c.handle_server_message(msg, &services),
        ClientAction::ConfigUpdate { success: true, .. }
    ));
    let msg = Message::HeartbeatResponse { timestamp: 5 };
    assert!(matches!(
        c.handle_server_message(msg, &services),
        ClientAction::HeartbeatAck { timestamp: 5 }
    ));
    let msg = Message::Error { message: "?".to_string() };
    assert!(matches!(c.handle_server_message(msg, &services), ClientAction::Unexpected));
}

#[test]
fn server_dispatch_covers_every_message_kind() {
    let mut s = ServerState::new();
    assert!(s.register_client("c-1"));
    assert!(s.register_connection("conn-1", "c-1"));

    let data = Message::Data { connection_id: "conn-1".to_string(), data: vec![9] };
    match s.handle_client_message("c-1", data, "p-x") {
        ServerAction::Forward { connection_id, data, known } => {
            assert_eq!(connection_id, "conn-1");
            assert_eq!(data, vec![9]);
            assert!(known);
        }
        other => panic!("expected a forward: {:?}", other),
    }
    let stray = Message::Data { connection_id: "conn-9".to_string(), data: vec![] };
    match s.handle_client_message("c-1", stray, "p-x") {
        ServerAction::Forward { known, .. } => assert!(!known),
        other => panic!("expected a forward: {:?}", other),
    }

    let config = Message::ProxyConfig {
        local_ip: "127.0.0.1".to_string(),
        local_port: 19999,
        remote_port: 28000,
    };
    match s.handle_client_message("c-1", config, "p-1") {
        ServerAction::Proxy { remote_port, step } => {
            assert_eq!(remote_port, 28000);
            assert!(matches!(step, ProxyConfigStep::NeedBind));
        }
        other => panic!("expected a proxy step: {:?}", other),
    }

    let beat = Message::Heartbeat { timestamp: 11 };
    match s.handle_client_message("c-1", beat, "p-x") {
        ServerAction::Reply { message } => match message {
            Message::HeartbeatResponse { timestamp } => assert_eq!(timestamp, 11),
            other => panic!("wrong reply: {:?}", other),
        },
        other => panic!("expected a reply: {:?}", other),
    }
    let beat = Message::Heartbeat { timestamp: 11 };
    assert!(matches!(
        s.handle_client_message("ghost", beat, "p-x"),
        ServerAction::NoReply
    ));

    let odd = Message::Error { message: "?".to_string() };
    assert!(matches!(
        s.handle_client_message("c-1", odd, "p-x"),
        ServerAction::Unexpected
    ));
}
