use rainbow_beacon::wire::{
    incoming, incoming_all, incoming_item, listen_address, outgoing, peer_address, socket_url,
    ws_config, SocketMessage, WsConfig,
};

#[test]
fn messages_and_frames_are_limited() {
    assert_eq!(
        ws_config(),
        Some(WsConfig { max_message_size: Some(100_000_000), max_frame_size: Some(100_000_000) })
    );
}

#[test]
fn only_binary_messages_carry_data() {
    assert_eq!(incoming(SocketMessage::Binary(vec![1, 2, 3])), Some(vec![1, 2, 3]));
    assert_eq!(incoming(SocketMessage::Binary(vec![])), Some(vec![]));
    assert_eq!(incoming(SocketMessage::Text("text".to_string())), None);
    assert_eq!(incoming(SocketMessage::Ping(vec![1])), None);
    assert_eq!(incoming(SocketMessage::Pong(vec![1])), None);
    assert_eq!(incoming(SocketMessage::Close), None);
    assert_eq!(incoming(SocketMessage::Frame), None);
}

#[test]
fn what_is_sent_is_taken_in() {
    assert_eq!(outgoing(vec![4, 5]), SocketMessage::Binary(vec![4, 5]));
    assert_eq!(incoming(outgoing(vec![4, 5])), Some(vec![4, 5]));
}

fn ok(message: SocketMessage) -> Result<SocketMessage, &'static str> {
    Ok(message)
}

#[test]
fn errors_are_passed_on() {
    assert_eq!(incoming_item::<&str>(Err("reset")), Some(Err("reset")));
    assert_eq!(incoming_item(ok(SocketMessage::Binary(vec![]))), Some(Ok(vec![])));
    assert_eq!(incoming_item(ok(SocketMessage::Binary(vec![8]))), Some(Ok(vec![8])));
    assert_eq!(incoming_item(ok(SocketMessage::Ping(vec![8]))), None);
    assert_eq!(incoming_item(ok(SocketMessage::Close)), None);
}

#[test]
fn errors_keep_their_place() {
    let items = vec![
        Err("first"),
        Ok(outgoing(vec![1])),
        Ok(SocketMessage::Close),
        Err("second"),
        Ok(SocketMessage::Text("text".to_string())),
        Ok(outgoing(vec![])),
        Err("third"),
        Ok(outgoing(vec![2])),
    ];
    assert_eq!(
        incoming_all(items),
        vec![
            Err("first"),
            Ok(vec![1]),
            Err("second"),
            Ok(vec![]),
            Err("third"),
            Ok(vec![2]),
        ]
    );
}

#[test]
fn binary_messages_and_errors_are_counted() {
    let items = vec![
        Ok(outgoing(vec![])),
        Ok(SocketMessage::Frame),
        Err("reset"),
        Ok(outgoing(vec![])),
        Ok(SocketMessage::Pong(vec![])),
    ];
    assert_eq!(incoming_all(items).len(), 3);
}

#[test]
fn sent_data_comes_out_in_order() {
    let data = vec![vec![1, 2], vec![], vec![3], vec![1, 2]];
    let items = data.iter().map(|piece| ok(outgoing(piece.clone()))).collect();
    let pieces: Vec<Result<Vec<u8>, &str>> = data.into_iter().map(Ok).collect();
    assert_eq!(incoming_all(items), pieces);
    assert_eq!(incoming_all::<&str>(vec![]), vec![]);
}

#[test]
fn messages_without_data_change_nothing() {
    let items = vec![
        ok(SocketMessage::Ping(vec![9])),
        ok(outgoing(vec![1])),
        ok(SocketMessage::Text("text".to_string())),
        ok(SocketMessage::Close),
        Err("reset"),
        ok(outgoing(vec![2, 3])),
        ok(SocketMessage::Pong(vec![9])),
        ok(SocketMessage::Frame),
    ];
    let others = vec![ok(outgoing(vec![1])), Err("reset"), ok(outgoing(vec![2, 3]))];
    assert_eq!(incoming_all(items), incoming_all(others));
}

#[test]
fn runs_of_items_do_not_meet() {
    let first = || vec![ok(outgoing(vec![1])), ok(SocketMessage::Close), Err("reset")];
    let second = || vec![ok(SocketMessage::Ping(vec![7])), ok(outgoing(vec![2]))];
    let mut both = first();
    both.extend(second());
    let mut apart = incoming_all(first());
    apart.extend(incoming_all(second()));
    assert_eq!(incoming_all(both), apart);
    assert_eq!(apart, vec![Ok(vec![1]), Err("reset"), Ok(vec![2])]);
}

#[test]
fn addresses_name_the_port() {
    assert_eq!(listen_address(), "0.0.0.0:11426");
    assert_eq!(peer_address("192.168.0.7"), "192.168.0.7:11426");
    assert_eq!(socket_url("192.168.0.7:11426"), "ws://192.168.0.7:11426");
}
