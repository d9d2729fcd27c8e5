use sowback::mux::project_stream;
use sowback::protocol::Message;

#[test]
fn delivered_bytes_equal_the_sent_chunks_in_order() {
    let msgs = vec![
        Message::new_data("conn-1", b"hel".to_vec()),
        Message::new_data("conn-2", b"NOISE".to_vec()),
        Message::new_data("conn-1", b"lo ".to_vec()),
        Message::HeartbeatResponse { timestamp: 1 },
        Message::new_data("conn-1", b"world".to_vec()),
        Message::new_close_connection("conn-1"),
    ];
    assert_eq!(project_stream(&msgs, "conn-1"), b"hello world".to_vec());
    assert_eq!(project_stream(&msgs, "conn-2"), b"NOISE".to_vec());
    assert_eq!(project_stream(&msgs, "conn-3"), Vec::<u8>::new());
}

#[test]
fn partial_delivery_is_a_prefix_of_the_whole() {
    let msgs: Vec<Message> = (0u8..10)
        .map(|i| Message::new_data("c", vec![i, i, i]))
        .collect();
    let whole = project_stream(&msgs, "c");
    for n in 0..=msgs.len() {
        let part = project_stream(&msgs[..n].to_vec(), "c");
        assert_eq!(&whole[..part.len()], part.as_slice());
    }
    assert_eq!(whole.len(), 30);
}

#[test]
fn constructors_build_the_documented_variants() {
    match Message::new_data("c-1", vec![1, 2]) {
        Message::Data { connection_id, data } => {
            assert_eq!(connection_id, "c-1");
            assert_eq!(data, vec![1, 2]);
        }
        other => panic!("wrong variant: {:?}", other),
    }
    match Message::new_close_connection("c-1") {
        Message::CloseConnection { connection_id } => assert_eq!(connection_id, "c-1"),
        other => panic!("wrong variant: {:?}", other),
    }
    match Message::new_heartbeat() {
        Message::Heartbeat { .. } => {}
        other => panic!("wrong variant: {:?}", other),
    }
    match Message::new_auth("tok", "c-1", None) {
        Message::Auth { enc_token, client_id, name } => {
            assert_eq!(enc_token.len(), 32);
            assert_eq!(client_id, "c-1");
            assert_eq!(name, None);
        }
        other => panic!("wrong variant: {:?}", other),
    }
}
