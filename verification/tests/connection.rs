use api_ws_demo::compressed_assets::AssetStore;
use api_ws_demo::stomp::broker::Broker;
use api_ws_demo::stomp::connection::{
    delayed_push_frame, destination_allowed, is_heartbeat, negotiate_heartbeat, split_frames,
    time_limit_reached, ws_message_for, Action, Next, PendingAcks, Session, Step, WsPayload,
};
use api_ws_demo::stomp::frame::{OutgoingItem, StompCommand, StompFrame};

#[test]
fn valid_utf8_becomes_a_text_frame() {
    assert!(matches!(ws_message_for(b"hello".to_vec()), WsPayload::Text(t) if t == "hello"));
}

#[test]
fn invalid_utf8_becomes_a_binary_frame() {
    let raw = vec![0x1f, 0x8b, 0x08, 0x00, 0xff, 0xfe, 0xfd];
    assert!(matches!(ws_message_for(raw.clone()), WsPayload::Binary(b) if b == raw));
}

#[test]
fn lone_heartbeat_newline_becomes_a_text_frame() {
    assert!(matches!(ws_message_for(vec![b'\n']), WsPayload::Text(t) if t == "\n"));
}

#[test]
fn negotiates_both_directions_when_both_sides_want_heartbeats() {
    assert_eq!(negotiate_heartbeat(Some("10000,10000"), 10_000, 10_000), (10_000, 10_000));
}

#[test]
fn absent_client_header_disables_both_directions() {
    assert_eq!(negotiate_heartbeat(None, 10_000, 10_000), (0, 0));
}

#[test]
fn malformed_client_header_defaults_to_disabled() {
    assert_eq!(negotiate_heartbeat(Some("garbage"), 10_000, 10_000), (0, 0));
}

#[test]
fn client_declining_to_receive_disables_outgoing_only() {
    assert_eq!(negotiate_heartbeat(Some("5000,0"), 10_000, 10_000), (0, 10_000));
}

#[test]
fn client_declining_to_send_disables_incoming_only() {
    assert_eq!(negotiate_heartbeat(Some("0,5000"), 10_000, 10_000), (10_000, 0));
}

#[test]
fn takes_the_larger_of_the_two_proposed_intervals() {
    assert_eq!(negotiate_heartbeat(Some("20000,20000"), 10_000, 10_000), (20_000, 20_000));
}

#[test]
fn heartbeat_values_may_be_padded_with_spaces() {
    assert_eq!(negotiate_heartbeat(Some(" 30000 , 0 "), 10_000, 10_000), (0, 30_000));
    assert_eq!(negotiate_heartbeat(Some("1,2,3"), 10_000, 10_000), (0, 0));
    assert_eq!(negotiate_heartbeat(Some("5,5"), 0, 10_000), (0, 10_000));
}

#[test]
fn only_end_of_line_bytes_are_a_heartbeat() {
    assert!(is_heartbeat(b""));
    assert!(is_heartbeat(b"\n"));
    assert!(is_heartbeat(b"\r\n\n"));
    assert!(!is_heartbeat(b"\nX"));
}

#[test]
fn secure_destinations_need_a_user() {
    assert!(destination_allowed("/topic/public/a", &None));
    assert!(!destination_allowed("/topic/secure/a", &None));
    assert!(destination_allowed("/topic/secure/a", &Some("alice".to_string())));
    assert!(destination_allowed("/topic/secure", &None));
}

#[test]
fn payloads_split_at_nul_bytes() {
    assert_eq!(split_frames(b"A\0B\0"), vec![b"A".to_vec(), b"B".to_vec(), Vec::new()]);
    assert_eq!(split_frames(b""), vec![Vec::<u8>::new()]);
    assert_eq!(split_frames(b"\0\0x"), vec![Vec::new(), Vec::new(), b"x".to_vec()]);
}

fn assets() -> AssetStore {
    AssetStore {
        json_gzip: vec![0x1f, 0x8b, 1],
        json_zstd: vec![0x28, 0xb5, 2],
        msgpack_plain: vec![0x81, 3],
        msgpack_gzip: vec![0x1f, 0x8b, 4],
        msgpack_zstd: vec![0x28, 0xb5, 5],
    }
}

fn reply(a: &Action) -> &StompFrame {
    match a {
        Action::Reply(f) => f,
        _ => panic!("not a reply"),
    }
}

fn error_message(step: &Step) -> String {
    assert_eq!(step.actions.len(), 1);
    let f = reply(&step.actions[0]);
    assert_eq!(f.command, StompCommand::Error);
    f.get("message").unwrap().to_string()
}

struct Conn {
    session: Session,
    acks: PendingAcks,
}

fn conn(id: u128) -> Conn {
    Conn { session: Session::new(id), acks: PendingAcks::new() }
}

fn chunk(c: &mut Conn, broker: &mut Broker, raw: &[u8]) -> Step {
    c.session.on_chunk(raw, broker, &assets(), &mut c.acks)
}

#[test]
fn connect_negotiates_and_answers_connected() {
    let mut broker = Broker::new();
    let mut c = conn(7);
    let step = chunk(&mut c, &mut broker, b"CONNECT\naccept-version:1.2\nheart-beat:10000,90000\n\n");
    assert!(matches!(step.next, Next::Continue));
    assert_eq!(step.actions.len(), 2);
    assert!(matches!(
        step.actions[0],
        Action::Heartbeats { outgoing_ms: Some(90_000), incoming_ms: Some(60_000) }
    ));
    let f = reply(&step.actions[1]);
    assert_eq!(f.command, StompCommand::Connected);
    assert_eq!(f.get("version"), Some("1.2"));
    assert_eq!(f.get("server"), Some("api-ws-demo/0.1.0"));
    assert_eq!(f.get("heart-beat"), Some("90000,60000"));
    assert_eq!(f.get("session"), Some("00000000-0000-0000-0000-000000000007"));
}

#[test]
fn connect_without_heartbeat_header_disables_heartbeats() {
    let mut broker = Broker::new();
    let mut c = conn(1);
    let step = chunk(&mut c, &mut broker, b"STOMP\n\n");
    assert!(matches!(step.actions[0], Action::Heartbeats { outgoing_ms: None, incoming_ms: None }));
    assert_eq!(reply(&step.actions[1]).get("heart-beat"), Some("0,0"));
}

#[test]
fn frames_before_connect_are_refused() {
    let mut broker = Broker::new();
    let mut c = conn(1);
    let step = chunk(&mut c, &mut broker, b"SEND\ndestination:/topic/a\n\nhi");
    assert_eq!(error_message(&step), "you must first issue a CONNECT frame");
    assert!(matches!(step.next, Next::Stop));
}

#[test]
fn heartbeat_chunks_do_nothing() {
    let mut broker = Broker::new();
    let mut c = conn(1);
    let step = chunk(&mut c, &mut broker, b"\r\n");
    assert!(step.actions.is_empty());
    assert!(matches!(step.next, Next::Continue));
}

#[test]
fn malformed_frames_end_the_connection() {
    let mut broker = Broker::new();
    let mut c = conn(1);
    let step = chunk(&mut c, &mut broker, b"BOGUS\n\n");
    assert_eq!(error_message(&step), "malformed frame: unknown command 'BOGUS'");
    assert!(matches!(step.next, Next::Stop));
}

#[test]
fn bearer_token_on_connect_is_checked_before_connected() {
    let mut broker = Broker::new();
    let mut c = conn(3);
    let step = chunk(&mut c, &mut broker, b"CONNECT\nAuthorization:Bearer abc.def.ghi\n\n");
    assert!(step.actions.is_empty());
    assert!(matches!(&step.next, Next::Authenticate(Some(t)) if t == "abc.def.ghi"));
    assert!(c.session.awaiting_authentication());
    let done = c.session.finish_connect(Some("alice".to_string()));
    assert!(!c.session.awaiting_authentication());
    assert_eq!(reply(&done.actions[1]).command, StompCommand::Connected);
    let step = chunk(&mut c, &mut broker, b"SUBSCRIBE\ndestination:/topic/secure/x\nid:s\n\n");
    assert!(matches!(step.next, Next::Continue));
    assert!(matches!(step.actions[0], Action::SchedulePush { .. }));
}

#[test]
fn invalid_bearer_token_ends_the_connection() {
    let mut broker = Broker::new();
    let mut c = conn(3);
    let step = chunk(&mut c, &mut broker, b"CONNECT\nauthorization:Token xyz\n\n");
    assert!(matches!(&step.next, Next::Authenticate(None)));
    let done = c.session.finish_connect(None);
    assert_eq!(error_message(&done), "invalid Authorization header on CONNECT");
    assert!(matches!(done.next, Next::Stop));
}

#[test]
fn anonymous_connections_cannot_use_secure_destinations() {
    let mut broker = Broker::new();
    let mut c = conn(1);
    chunk(&mut c, &mut broker, b"CONNECT\n\n");
    let step = chunk(&mut c, &mut broker, b"SUBSCRIBE\ndestination:/topic/secure/x\nid:s\n\n");
    assert_eq!(error_message(&step), "not authorized to subscribe to this destination");
    assert!(matches!(step.next, Next::Continue));
    let step = chunk(&mut c, &mut broker, b"SEND\ndestination:/topic/secure/x\n\nhi");
    assert_eq!(error_message(&step), "not authorized to send to this destination");
    assert!(matches!(step.next, Next::Continue));
}

#[test]
fn subscribe_send_and_delayed_push() {
    let mut broker = Broker::new();
    let mut a = conn(1);
    let mut b = conn(2);
    chunk(&mut a, &mut broker, b"CONNECT\n\n");
    chunk(&mut b, &mut broker, b"CONNECT\n\n");
    let step = chunk(&mut a, &mut broker, b"SUBSCRIBE\ndestination:/topic/room\nid:s1\nreceipt:r1\n\n");
    assert_eq!(step.actions.len(), 2);
    let r = reply(&step.actions[0]);
    assert_eq!(r.command, StompCommand::Receipt);
    assert_eq!(r.get("receipt-id"), Some("r1"));
    assert!(matches!(&step.actions[1],
        Action::SchedulePush { destination, subscription } if destination == "/topic/room" && subscription == "s1"));

    let push = delayed_push_frame(&broker, &assets(), "/topic/room", "s1");
    assert_eq!(push.body, b"{\"response\":\"ready\"}".to_vec());
    assert_eq!(push.get("content-length"), Some("20"));

    let step = chunk(&mut b, &mut broker, b"SEND\ndestination:/topic/room\n\nhello");
    assert!(matches!(step.next, Next::Continue));
    assert_eq!(step.actions.len(), 1);
    match &step.actions[0] {
        Action::Deliver(d) => {
            assert_eq!(d.conn_id, 1);
            assert_eq!(d.frame.command, StompCommand::Message);
            assert_eq!(d.frame.get("subscription"), Some("s1"));
            assert_eq!(d.frame.get("content-type"), Some("application/json"));
            assert_eq!(d.frame.body, b"{\"response\":\"hello\"}".to_vec());
            assert_eq!(d.frame.get("ack"), None);
        }
        _ => panic!("expected a delivery"),
    }
    assert_eq!(broker.last_message("/topic/room"), Some(b"{\"response\":\"hello\"}".to_vec()));
    let push = delayed_push_frame(&broker, &assets(), "/topic/room", "s1");
    assert_eq!(push.body, b"{\"response\":\"hello\"}".to_vec());
    assert_eq!(push.get("destination"), Some("/topic/room"));
}

#[test]
fn static_topics_broadcast_their_payload() {
    let mut broker = Broker::new();
    let mut a = conn(1);
    chunk(&mut a, &mut broker, b"CONNECT\n\n");
    chunk(&mut a, &mut broker, b"SUBSCRIBE\ndestination:/topic/compressed-mp\nid:s\n\n");
    let step = chunk(&mut a, &mut broker, b"SEND\ndestination:/topic/compressed-mp\nreceipt:z\n\nignored");
    assert_eq!(step.actions.len(), 2);
    match &step.actions[0] {
        Action::Deliver(d) => {
            assert_eq!(d.frame.body, vec![0x81, 3]);
            assert_eq!(d.frame.get("content-type"), Some("application/msgpack"));
            assert_eq!(d.frame.get("content-encoding"), None);
        }
        _ => panic!("expected a delivery"),
    }
    assert_eq!(reply(&step.actions[1]).get("receipt-id"), Some("z"));
    assert_eq!(broker.last_message("/topic/compressed-mp"), None);
    let push = delayed_push_frame(&broker, &assets(), "/topic/compressed", "q");
    assert_eq!(push.body, vec![0x1f, 0x8b, 1]);
    assert_eq!(push.get("content-encoding"), Some("gzip"));
}

#[test]
fn acks_are_confirmed_once() {
    let mut broker = Broker::new();
    let mut a = conn(1);
    chunk(&mut a, &mut broker, b"CONNECT\n\n");
    chunk(&mut a, &mut broker, b"SUBSCRIBE\ndestination:/q\nid:s\nack:client\n\n");
    let step = chunk(&mut a, &mut broker, b"SEND\ndestination:/q\n\nx");
    let frame = match &step.actions[0] {
        Action::Deliver(d) => d.frame.clone(),
        _ => panic!("expected a delivery"),
    };
    let ack_id = frame.get("ack").unwrap().to_string();
    let wire = a.acks.outgoing(&OutgoingItem::Frame(frame.clone()));
    assert_eq!(wire, frame.serialize());
    let ack = format!("ACK\nid:{ack_id}\n\n");
    let step = chunk(&mut a, &mut broker, ack.as_bytes());
    let r = reply(&step.actions[0]);
    assert_eq!(r.command, StompCommand::Receipt);
    assert_eq!(r.get("receipt-id"), Some(ack_id.as_str()));
    assert_eq!(r.body, b"{\"status\":\"ok\"}".to_vec());
    let nack = format!("NACK\nid:{ack_id}\n\n");
    let step = chunk(&mut a, &mut broker, nack.as_bytes());
    assert_eq!(error_message(&step), "unknown or already-acknowledged ack id");
    assert!(matches!(step.next, Next::Continue));
    let step = chunk(&mut a, &mut broker, b"ACK\n\n");
    assert_eq!(error_message(&step), "ACK/NACK requires 'id' header");
    assert!(matches!(step.next, Next::Continue));
}

#[test]
fn heartbeat_items_are_a_lone_newline() {
    let mut acks = PendingAcks::new();
    assert_eq!(acks.outgoing(&OutgoingItem::Heartbeat), vec![b'\n']);
    assert!(!acks.acknowledge("nothing"));
}

#[test]
fn unsubscribe_stops_deliveries_and_disconnect_receipts() {
    let mut broker = Broker::new();
    let mut a = conn(1);
    chunk(&mut a, &mut broker, b"CONNECT\n\n");
    chunk(&mut a, &mut broker, b"SUBSCRIBE\ndestination:/q\nid:s\n\n");
    let step = chunk(&mut a, &mut broker, b"UNSUBSCRIBE\nid:s\nreceipt:u\n\n");
    assert_eq!(reply(&step.actions[0]).get("receipt-id"), Some("u"));
    let step = chunk(&mut a, &mut broker, b"SEND\ndestination:/q\n\nx");
    assert!(step.actions.is_empty());
    let step = chunk(&mut a, &mut broker, b"DISCONNECT\nreceipt:bye\n\n");
    assert_eq!(reply(&step.actions[0]).get("receipt-id"), Some("bye"));
    assert!(matches!(step.next, Next::Stop));
}

#[test]
fn missing_headers_and_unsupported_commands_end_the_connection() {
    let mut broker = Broker::new();
    let mut a = conn(1);
    chunk(&mut a, &mut broker, b"CONNECT\n\n");
    let step = chunk(&mut a, &mut broker, b"SUBSCRIBE\nid:s\n\n");
    assert_eq!(error_message(&step), "SUBSCRIBE requires 'destination' and 'id' headers");
    assert!(matches!(step.next, Next::Stop));
    let step = chunk(&mut a, &mut broker, b"UNSUBSCRIBE\n\n");
    assert_eq!(error_message(&step), "UNSUBSCRIBE requires 'id' header");
    let step = chunk(&mut a, &mut broker, b"SEND\n\n");
    assert_eq!(error_message(&step), "SEND requires 'destination' header");
    let step = chunk(&mut a, &mut broker, b"BEGIN\n\n");
    assert_eq!(error_message(&step), "unsupported client command 'BEGIN'");
    assert!(matches!(step.next, Next::Stop));
}

#[test]
fn silence_beyond_three_intervals_ends_the_connection() {
    let mut broker = Broker::new();
    let mut a = conn(1);
    assert!(a.session.on_idle_check(u128::MAX).actions.is_empty());
    chunk(&mut a, &mut broker, b"CONNECT\nheart-beat:1000,0\n\n");
    let limit: u128 = 180_000 * 1_000_000;
    let step = a.session.on_idle_check(limit);
    assert!(step.actions.is_empty());
    assert!(matches!(step.next, Next::Continue));
    let step = a.session.on_idle_check(limit + 1);
    assert_eq!(error_message(&step), "missed heartbeat, connection considered dead");
    assert!(matches!(step.next, Next::Stop));
}

#[test]
fn the_time_limit_ends_the_connection() {
    let step = time_limit_reached();
    assert_eq!(error_message(&step), "connection time limit exceeded, please reconnect");
    assert!(matches!(step.next, Next::Stop));
}

#[test]
fn closing_removes_the_connections_subscriptions() {
    let mut broker = Broker::new();
    let mut a = conn(1);
    let mut b = conn(2);
    chunk(&mut a, &mut broker, b"CONNECT\n\n");
    chunk(&mut b, &mut broker, b"CONNECT\n\n");
    chunk(&mut a, &mut broker, b"SUBSCRIBE\ndestination:/q\nid:s\n\n");
    chunk(&mut b, &mut broker, b"SUBSCRIBE\ndestination:/q\nid:s\n\n");
    a.session.close(&mut broker);
    let deliveries = broker.publish("/q", None, b"x", &[]);
    assert_eq!(deliveries.len(), 1);
    assert_eq!(deliveries[0].conn_id, 2);
}
