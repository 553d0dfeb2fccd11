//! What one STOMP connection decides: the CONNECT handshake and heartbeat
//! negotiation, authorization of destinations, the handling of each client
//! frame, acknowledgements, and the frames the server sends back.
use vstd::prelude::*;
use vstd::utf8::{decode_utf8, encode_utf8, valid_utf8};

use crate::auth::extractor::bearer_token;
use crate::compressed_assets::{
    asset_content_encoding, asset_content_type, describes, lookup_by_topic, topic_asset, AssetStore,
};
use crate::ids::{id_text, id_to_string, new_id};
use crate::json::{response_json, response_json_text, string_from_utf8_lossy, utf8_lossy};
use crate::stomp::broker::{
    ack_mode_of, message_view, opt_view, other_than_conn, other_than_sub, pairs_view, AckMode, Broker, Delivery, SubView,
};
use crate::stomp::frame::{
    command_name, find_header, FrameView, OutgoingItem, StompCommand, StompFrame,
};
use crate::text::{
    chars_of, decimal, first_index, split_spec, has_prefix, parse_u64, parse_u64_spec, push_str, str_eq,
    strip_prefix, trim, trim_bounds, u64_to_string,
};

verus! {

broadcast use vstd::seq_lib::group_seq_properties;

/// The heartbeat interval the server can send at, in milliseconds.
pub const SERVER_HEARTBEAT_SEND_MS: u64 = 60_000;

/// The heartbeat interval the server wants to receive at, in milliseconds.
pub const SERVER_HEARTBEAT_WANT_MS: u64 = 60_000;

/// How many negotiated incoming intervals may pass without any data before
/// the peer is considered dead.
pub const HEARTBEAT_MISS_GRACE_FACTOR: u64 = 3;

/// How long a connection may live at all, in milliseconds.
pub const MAX_CONNECTION_LIFETIME_MS: u64 = 180_000;

/// How long after a SUBSCRIBE the server pushes a message to the new
/// subscriber, in milliseconds.
pub const DELAYED_PUSH_DELAY_MS: u64 = 3_000;

// ---------------------------------------------------------------------------
// Heartbeat negotiation

/// The `(cx, cy)` a client proposes in its `heart-beat` header: two
/// comma-separated numbers, each possibly surrounded by whitespace. A missing
/// or malformed header proposes `(0, 0)`.
pub open spec fn client_heartbeat(header: Option<Seq<char>>) -> (u64, u64) {
    match header {
        Some(h) => match first_index(h, ',') {
            Some(i) => match (parse_u64_spec(trim(h.take(i))), parse_u64_spec(trim(h.skip(i + 1)))) {
                (Some(a), Some(b)) => (a, b),
                _ => (0, 0),
            },
            None => (0, 0),
        },
        None => (0, 0),
    }
}

pub open spec fn max_u64(a: u64, b: u64) -> u64 {
    if a >= b { a } else { b }
}

/// The negotiated `(outgoing, incoming)` intervals: each direction is off
/// (`0`) when either side declines it, and otherwise the slower of the two
/// proposals.
pub open spec fn negotiated(client: (u64, u64), server_send_ms: u64, server_want_ms: u64) -> (u64, u64) {
    (
        if server_send_ms == 0 || client.1 == 0 { 0 } else { max_u64(server_send_ms, client.1) },
        if server_want_ms == 0 || client.0 == 0 { 0 } else { max_u64(server_want_ms, client.0) },
    )
}

/// STOMP 1.2 heartbeat negotiation. `client_header` is the raw value of the
/// client's CONNECT `heart-beat` header (`cx,cy`); absent or malformed means
/// `0,0`. Returns `(effective_outgoing_ms, effective_incoming_ms)`: what the
/// server will send at and expects to receive at (`0` = disabled).
pub fn negotiate_heartbeat(client_header: Option<&str>, server_send_ms: u64, server_want_ms: u64) -> (r: (
    u64,
    u64,
))
    ensures
        r == negotiated(client_heartbeat(opt_view(client_header)), server_send_ms, server_want_ms),
{
    let (client_send_ms, client_want_ms) = match client_header {
        None => (0, 0),
        Some(h) => {
            let cs = chars_of(h);
            match crate::text::find_char(&cs, 0, cs.len(), ',') {
                None => {
                    assert(cs@.subrange(0, cs@.len() as int) =~= h@);
                    (0, 0)
                },
                Some(i) => {
                    assert(cs@.subrange(0, cs@.len() as int) =~= h@);
                    let (a0, a1) = trim_bounds(&cs, 0, i);
                    let (b0, b1) = trim_bounds(&cs, i + 1, cs.len());
                    assert(cs@.subrange(0, i as int) =~= h@.take(i as int));
                    assert(cs@.subrange(i + 1, cs@.len() as int) =~= h@.skip(i + 1));
                    match (parse_u64(&cs, a0, a1), parse_u64(&cs, b0, b1)) {
                        (Some(a), Some(b)) => (a, b),
                        _ => (0, 0),
                    }
                },
            }
        },
    };
    let effective_outgoing = if server_send_ms == 0 || client_want_ms == 0 {
        0
    } else if server_send_ms >= client_want_ms {
        server_send_ms
    } else {
        client_want_ms
    };
    let effective_incoming = if server_want_ms == 0 || client_send_ms == 0 {
        0
    } else if server_want_ms >= client_send_ms {
        server_want_ms
    } else {
        client_send_ms
    };
    (effective_outgoing, effective_incoming)
}

// ---------------------------------------------------------------------------
// Small decisions

/// A chunk made only of end-of-line bytes is a heartbeat, not a frame.
pub open spec fn is_heartbeat_spec(b: Seq<u8>) -> bool {
    forall|i: int| 0 <= i < b.len() ==> b[i] == 10u8 || b[i] == 13u8
}

/// True when the chunk is a heartbeat (only end-of-line bytes).
pub fn is_heartbeat(b: &[u8]) -> (r: bool)
    ensures
        r == is_heartbeat_spec(b@),
{
    let mut i: usize = 0;
    while i < b.len()
        invariant
            i <= b@.len(),
            forall|j: int| 0 <= j < i ==> b@[j] == 10u8 || b@[j] == 13u8,
        decreases b.len() - i,
    {
        if b[i] != 10u8 && b[i] != 13u8 {
            return false;
        }
        i += 1;
    }
    true
}

/// Destinations under `/topic/secure/` need an authenticated connection;
/// every other destination is open.
pub open spec fn destination_allowed_spec(dest: Seq<char>, authenticated: bool) -> bool {
    if has_prefix(dest, "/topic/secure/"@) {
        authenticated
    } else {
        true
    }
}

/// Whether a connection (authenticated as `auth_user`, if at all) may use `dest`.
pub fn destination_allowed(dest: &str, auth_user: &Option<String>) -> (r: bool)
    ensures
        r == destination_allowed_spec(dest@, auth_user.is_some()),
{
    match strip_prefix(dest, "/topic/secure/") {
        Some(_) => auth_user.is_some(),
        None => true,
    }
}

/// The payload of one WebSocket message.
pub enum WsPayload {
    Text(String),
    Binary(Vec<u8>),
}

/// `String::from_utf8`: the text when `bytes` are valid UTF-8, else the bytes back.
#[verifier::external_body]
fn string_from_utf8(bytes: Vec<u8>) -> (r: Result<String, Vec<u8>>)
    ensures
        match r {
            Ok(s) => valid_utf8(bytes@) && s@ == decode_utf8(bytes@),
            Err(b) => !valid_utf8(bytes@) && b@ == bytes@,
        },
{
    match String::from_utf8(bytes) {
        Ok(s) => Ok(s),
        Err(e) => Err(e.into_bytes()),
    }
}

/// The WebSocket message that carries `bytes`: a text message when they are
/// valid UTF-8 (so clients' text paths get exercised too), else binary.
pub fn ws_message_for(bytes: Vec<u8>) -> (r: WsPayload)
    ensures
        match r {
            WsPayload::Text(s) => valid_utf8(bytes@) && s@ == decode_utf8(bytes@),
            WsPayload::Binary(b) => !valid_utf8(bytes@) && b@ == bytes@,
        },
{
    match string_from_utf8(bytes) {
        Ok(s) => WsPayload::Text(s),
        Err(b) => WsPayload::Binary(b),
    }
}

// ---------------------------------------------------------------------------
// Frames the server sends

/// The `server` header of the CONNECTED frame.
pub const SERVER_NAME: &'static str = "api-ws-demo/0.1.0";

/// The body pushed to a new subscriber when nothing was ever sent to its destination.
pub const READY_BODY: &'static str = "{\"response\":\"ready\"}";

/// The body of the RECEIPT that confirms an ACK or NACK.
pub const STATUS_OK_BODY: &'static str = "{\"status\":\"ok\"}";

/// An ERROR frame with the given `message` header and, when given, a text body.
pub open spec fn error_view(message: Seq<char>, detail: Option<Seq<char>>) -> FrameView {
    FrameView {
        command: StompCommand::Error,
        headers: seq![("message"@, message)],
        body: match detail {
            Some(d) => encode_utf8(d),
            None => Seq::empty(),
        },
    }
}

/// Builds an ERROR frame.
pub fn error_frame(message: &str, detail: Option<&str>) -> (r: StompFrame)
    ensures
        r@ == error_view(message@, opt_view(detail)),
{
    let mut f = StompFrame::new(StompCommand::Error).header("message", message);
    match detail {
        Some(d) => {
            f.body = vstd::slice::slice_to_vec(d.as_bytes());
        },
        None => {},
    }
    assert(f@.headers =~= seq![("message"@, message@)]);
    f
}

/// A RECEIPT frame for `receipt_id`, with no body.
pub open spec fn receipt_view(receipt_id: Seq<char>) -> FrameView {
    FrameView {
        command: StompCommand::Receipt,
        headers: seq![("receipt-id"@, receipt_id)],
        body: Seq::empty(),
    }
}

/// The RECEIPT a frame asks for with its `receipt` header, if it does.
pub open spec fn receipt_request(f: FrameView) -> Option<FrameView> {
    match find_header(f.headers, "receipt"@) {
        Some(r) => Some(receipt_view(r)),
        None => None,
    }
}

/// The RECEIPT frame `frame` asks for, if it has a `receipt` header.
pub fn receipt_for(frame: &StompFrame) -> (r: Option<StompFrame>)
    ensures
        match receipt_request(frame@) {
            Some(v) => r matches Some(f) && f@ == v,
            None => r is None,
        },
{
    match frame.get("receipt") {
        Some(id) => {
            let f = StompFrame::new(StompCommand::Receipt).header("receipt-id", id);
            assert(f@.headers =~= seq![("receipt-id"@, id@)]);
            Some(f)
        },
        None => None,
    }
}

/// The RECEIPT confirming an ACK/NACK of `ack_id`, with a JSON status body.
pub open spec fn status_ok_view(ack_id: Seq<char>) -> FrameView {
    FrameView {
        command: StompCommand::Receipt,
        headers: seq![
            ("receipt-id"@, ack_id),
            ("content-type"@, "application/json"@),
            ("content-length"@, decimal(encode_utf8(STATUS_OK_BODY@).len())),
        ],
        body: encode_utf8(STATUS_OK_BODY@),
    }
}

/// Builds the RECEIPT confirming an ACK/NACK.
pub fn status_ok_frame(ack_id: &str) -> (r: StompFrame)
    ensures
        r@ == status_ok_view(ack_id@),
{
    let body = STATUS_OK_BODY.as_bytes();
    let len_text = u64_to_string(body.len() as u64);
    let mut f = StompFrame::new(StompCommand::Receipt)
        .header("receipt-id", ack_id)
        .header("content-type", "application/json")
        .header("content-length", len_text.as_str());
    f.body = vstd::slice::slice_to_vec(body);
    assert(f@.headers =~= status_ok_view(ack_id@).headers);
    f
}

/// The `heart-beat` header value `out,in`.
pub open spec fn heartbeat_text(out_ms: u64, in_ms: u64) -> Seq<char> {
    decimal(out_ms as nat) + ","@ + decimal(in_ms as nat)
}

/// The CONNECTED frame: protocol version, server name, negotiated
/// heartbeats, and the session id.
pub open spec fn connected_view(out_ms: u64, in_ms: u64, conn_id: u128) -> FrameView {
    FrameView {
        command: StompCommand::Connected,
        headers: seq![
            ("version"@, "1.2"@),
            ("server"@, SERVER_NAME@),
            ("heart-beat"@, heartbeat_text(out_ms, in_ms)),
            ("session"@, id_text(conn_id)),
        ],
        body: Seq::empty(),
    }
}

/// Builds the CONNECTED frame.
pub fn connected_frame(out_ms: u64, in_ms: u64, conn_id: u128) -> (r: StompFrame)
    ensures
        r@ == connected_view(out_ms, in_ms, conn_id),
{
    let mut hb = u64_to_string(out_ms);
    push_str(&mut hb, ",");
    let in_text = u64_to_string(in_ms);
    push_str(&mut hb, in_text.as_str());
    let session = id_to_string(conn_id);
    let f = StompFrame::new(StompCommand::Connected)
        .header("version", "1.2")
        .header("server", SERVER_NAME)
        .header("heart-beat", hb.as_str())
        .header("session", session.as_str());
    assert(f@.headers =~= connected_view(out_ms, in_ms, conn_id).headers);
    f
}

/// What a new subscriber is pushed a few seconds after subscribing: the
/// static payload of a static topic; otherwise the last message sent to the
/// destination, or `{"response":"ready"}` when there was none.
pub open spec fn delayed_push_view(
    dest: Seq<char>,
    sub_id: Seq<char>,
    message_id: u128,
    last: Option<Seq<u8>>,
    assets: AssetStore,
) -> FrameView {
    let base = seq![
        ("destination"@, dest),
        ("subscription"@, sub_id),
        ("message-id"@, id_text(message_id)),
    ];
    match topic_asset(dest) {
        Some(kind) => FrameView {
            command: StompCommand::Message,
            headers: base + seq![
                ("content-type"@, asset_content_type(kind)),
                ("content-length"@, decimal(assets.bytes_of(kind).len())),
            ] + match asset_content_encoding(kind) {
                Some(e) => seq![("content-encoding"@, e)],
                None => Seq::empty(),
            },
            body: assets.bytes_of(kind),
        },
        None => {
            let body = match last {
                Some(b) => b,
                None => encode_utf8(READY_BODY@),
            };
            FrameView {
                command: StompCommand::Message,
                headers: base + seq![
                    ("content-type"@, "application/json"@),
                    ("content-length"@, decimal(body.len())),
                ],
                body,
            }
        },
    }
}

/// Builds the message pushed to subscription `sub_id` of `dest`, with a
/// fresh message id.
pub fn delayed_push_frame(broker: &Broker, assets: &AssetStore, dest: &str, sub_id: &str) -> (r:
    StompFrame)
    ensures
        exists|m: u128| r@ == delayed_push_view(dest@, sub_id@, m, broker.last_message_of(dest@), *assets),
{
    let m = new_id();
    let message_id = id_to_string(m);
    let mut frame = StompFrame::new(StompCommand::Message)
        .header("destination", dest)
        .header("subscription", sub_id)
        .header("message-id", message_id.as_str());
    let ghost base = frame@.headers;
    match lookup_by_topic(dest) {
        Some(asset) => {
            let bytes = assets.bytes(asset.kind);
            let len_text = u64_to_string(bytes.len() as u64);
            frame = frame.header("content-type", asset.content_type).header(
                "content-length",
                len_text.as_str(),
            );
            match asset.content_encoding {
                Some(enc) => {
                    frame = frame.header("content-encoding", enc);
                },
                None => {},
            }
            frame.body = vstd::slice::slice_to_vec(bytes);
        },
        None => {
            let body = match broker.last_message(dest) {
                Some(b) => b,
                None => vstd::slice::slice_to_vec(READY_BODY.as_bytes()),
            };
            let len_text = u64_to_string(body.len() as u64);
            frame = frame.header("content-type", "application/json").header(
                "content-length",
                len_text.as_str(),
            );
            frame.body = body;
        },
    }
    assert(frame@.headers =~= delayed_push_view(
        dest@,
        sub_id@,
        m,
        broker.last_message_of(dest@),
        *assets,
    ).headers);
    frame
}

// ---------------------------------------------------------------------------
// Acknowledgements

/// The ack ids this connection has handed out and not yet seen acknowledged.
pub struct PendingAcks {
    ids: Vec<String>,
}

/// The ack id an outgoing item hands to the client, if any: the `ack`
/// header of a MESSAGE frame.
pub open spec fn handed_out_ack(item: OutgoingItem) -> Option<Seq<char>> {
    match item {
        OutgoingItem::Frame(f) => if f.command == StompCommand::Message {
            find_header(f@.headers, "ack"@)
        } else {
            None
        },
        OutgoingItem::Heartbeat => None,
    }
}

/// The bytes of an outgoing item: a serialized frame, or a lone `\n`.
pub open spec fn outgoing_bytes_spec(item: OutgoingItem) -> Seq<u8> {
    match item {
        OutgoingItem::Frame(f) => crate::stomp::frame::serialize_spec(f@),
        OutgoingItem::Heartbeat => seq![10u8],
    }
}

impl PendingAcks {
    /// The ids awaiting acknowledgement.
    pub closed spec fn ids(&self) -> Set<Seq<char>> {
        self.ids@.map_values(|s: String| s@).to_set()
    }

    /// No ids pending.
    pub fn new() -> (r: Self)
        ensures
            r.ids() == Set::<Seq<char>>::empty(),
    {
        let r = PendingAcks { ids: Vec::new() };
        assert(r.ids@.map_values(|s: String| s@) =~= Seq::<Seq<char>>::empty());
        r
    }

    fn position(&self, id: &str) -> (r: Option<usize>)
        ensures
            match r {
                Some(i) => i < self.ids@.len() && self.ids@[i as int]@ == id@,
                None => !self.ids().contains(id@),
            },
    {
        let mut i: usize = 0;
        while i < self.ids.len()
            invariant
                i <= self.ids@.len(),
                forall|j: int| 0 <= j < i ==> self.ids@[j]@ != id@,
            decreases self.ids.len() - i,
        {
            if str_eq(self.ids[i].as_str(), id) {
                return Some(i);
            }
            i += 1;
        }
        proof {
            if self.ids().contains(id@) {
                let ghost v = self.ids@.map_values(|s: String| s@);
                let j = choose|j: int| 0 <= j < v.len() && #[trigger] v[j] == id@;
                assert(self.ids@[j]@ == id@);
            }
        }
        None
    }

    /// Records the ack id an outgoing item hands to the client, and gives the
    /// item's bytes for the wire.
    pub fn outgoing(&mut self, item: &OutgoingItem) -> (r: Vec<u8>)
        ensures
            r@ == outgoing_bytes_spec(*item),
            final(self).ids() == match handed_out_ack(*item) {
                Some(id) => old(self).ids().insert(id),
                None => old(self).ids(),
            },
    {
        match item {
            OutgoingItem::Frame(frame) => {
                if frame.command == StompCommand::Message {
                    match frame.get("ack") {
                        Some(id) => {
                            match self.position(id) {
                                None => {
                                    let ghost before = self.ids@;
                                    self.ids.push(id.to_owned());
                                    proof {
                                        let bv = before.map_values(|s: String| s@);
                                        assert(self.ids@.map_values(|s: String| s@) =~= bv.push(id@));
                                        bv.lemma_push_to_set_commute(id@);
                                    }
                                },
                                Some(i) => {
                                    proof {
                                        let bv = self.ids@.map_values(|s: String| s@);
                                        assert(bv[i as int] == id@);
                                        assert(self.ids().contains(id@));
                                        assert(self.ids() =~= self.ids().insert(id@));
                                    }
                                },
                            }
                            assert(self.ids() =~= old(self).ids().insert(id@));
                        },
                        None => {},
                    }
                }
                frame.serialize()
            },
            OutgoingItem::Heartbeat => {
                let mut v: Vec<u8> = Vec::new();
                v.push(10u8);
                v
            },
        }
    }

    /// Acknowledges `id`: true when it was pending, and it is pending no more.
    pub fn acknowledge(&mut self, id: &str) -> (r: bool)
        ensures
            r == old(self).ids().contains(id@),
            final(self).ids() == old(self).ids().remove(id@),
    {
        let mut found = false;
        loop
            invariant_except_break
                self.ids().remove(id@) == old(self).ids().remove(id@),
                found || self.ids() == old(self).ids(),
                found ==> old(self).ids().contains(id@),
            ensures
                self.ids() == old(self).ids().remove(id@),
                found == old(self).ids().contains(id@),
            decreases self.ids@.len(),
        {
            match self.position(id) {
                Some(i) => {
                    let ghost before = self.ids@;
                    let ghost bv = before.map_values(|s: String| s@);
                    self.ids.remove(i);
                    proof {
                        let after = self.ids@.map_values(|s: String| s@);
                        assert(after =~= bv.remove(i as int));
                        assert forall|x: Seq<char>| x != id@ implies (#[trigger] self.ids().contains(x)
                            <==> bv.to_set().contains(x)) by {
                            if bv.to_set().contains(x) {
                                let j = choose|j: int| 0 <= j < bv.len() && bv[j] == x;
                                if j < i {
                                    assert(after[j] == x);
                                } else {
                                    assert(j != i);
                                    assert(after[j - 1] == x);
                                }
                            }
                            if self.ids().contains(x) {
                                let j = choose|j: int| 0 <= j < after.len() && after[j] == x;
                                if j < i {
                                    assert(bv[j] == x);
                                } else {
                                    assert(bv[j + 1] == x);
                                }
                            }
                        }
                        assert(self.ids().remove(id@) =~= bv.to_set().remove(id@));
                        assert(bv.to_set().contains(id@)) by {
                            assert(bv[i as int] == id@);
                        }
                    }
                    found = true;
                },
                None => {
                    proof {
                        assert(self.ids() =~= self.ids().remove(id@));
                    }
                    break;
                },
            }
        }
        found
    }
}

// ---------------------------------------------------------------------------
// The session: one connection's handling of client frames

/// What the connection should do next.
pub enum Action {
    /// Send a frame to this connection.
    Reply(StompFrame),
    /// Send a MESSAGE frame to a subscribed connection (possibly this one).
    Deliver(Delivery),
    /// After `DELAYED_PUSH_DELAY_MS`, send this connection the delayed push
    /// for subscription `subscription` of `destination`.
    SchedulePush { destination: String, subscription: String },
    /// Install these heartbeat intervals (`None`: keep the current one).
    Heartbeats { outgoing_ms: Option<u64>, incoming_ms: Option<u64> },
}

/// How reading continues after a chunk.
pub enum Next {
    /// Read on.
    Continue,
    /// Stop reading and close the connection.
    Stop,
    /// Check this bearer token (`None`: the Authorization header had no
    /// bearer token) and call `finish_connect` with the user it names.
    Authenticate(Option<String>),
}

/// The outcome of one chunk: actions to perform in order, then how to go on.
pub struct Step {
    pub actions: Vec<Action>,
    pub next: Next,
}

pub enum ActionView {
    Reply(FrameView),
    Deliver(u128, FrameView),
    SchedulePush(Seq<char>, Seq<char>),
    Heartbeats(Option<u64>, Option<u64>),
}

pub enum NextView {
    Continue,
    Stop,
    Authenticate(Option<Seq<char>>),
}

pub struct StepView {
    pub actions: Seq<ActionView>,
    pub next: NextView,
}

pub open spec fn action_view(a: Action) -> ActionView {
    match a {
        Action::Reply(f) => ActionView::Reply(f@),
        Action::Deliver(d) => ActionView::Deliver(d.conn_id, d.frame@),
        Action::SchedulePush { destination, subscription } => ActionView::SchedulePush(
            destination@,
            subscription@,
        ),
        Action::Heartbeats { outgoing_ms, incoming_ms } => ActionView::Heartbeats(
            outgoing_ms,
            incoming_ms,
        ),
    }
}

pub open spec fn next_view(n: Next) -> NextView {
    match n {
        Next::Continue => NextView::Continue,
        Next::Stop => NextView::Stop,
        Next::Authenticate(t) => NextView::Authenticate(
            match t {
                Some(x) => Some(x@),
                None => None,
            },
        ),
    }
}

pub open spec fn actions_view(s: Seq<Action>) -> Seq<ActionView> {
    s.map_values(|a: Action| action_view(a))
}

pub open spec fn step_view(s: Step) -> StepView {
    StepView { actions: actions_view(s.actions@), next: next_view(s.next) }
}

/// The state of a connection.
pub struct Session {
    conn_id: u128,
    connected: bool,
    auth_user: Option<String>,
    awaiting: Option<StompFrame>,
    incoming_ms: Option<u64>,
}

pub struct SessionView {
    pub conn_id: u128,
    /// A CONNECT (or STOMP) frame was received.
    pub connected: bool,
    /// The user the connection authenticated as, if any.
    pub auth_user: Option<Seq<char>>,
    /// The CONNECT frame whose token is being checked.
    pub awaiting: Option<FrameView>,
    /// The negotiated incoming heartbeat interval, if any.
    pub incoming_ms: Option<u64>,
}

impl View for Session {
    type V = SessionView;

    closed spec fn view(&self) -> SessionView {
        SessionView {
            conn_id: self.conn_id,
            connected: self.connected,
            auth_user: match self.auth_user {
                Some(u) => Some(u@),
                None => None,
            },
            awaiting: match self.awaiting {
                Some(f) => Some(f@),
                None => None,
            },
            incoming_ms: self.incoming_ms,
        }
    }
}

/// An ERROR reply with the given message.
pub open spec fn error_action(message: Seq<char>) -> ActionView {
    ActionView::Reply(error_view(message, None))
}

/// The RECEIPT reply a frame asks for, if it does.
pub open spec fn receipt_actions(f: FrameView) -> Seq<ActionView> {
    match receipt_request(f) {
        Some(r) => seq![ActionView::Reply(r)],
        None => Seq::empty(),
    }
}

/// The value of a CONNECT frame's `Authorization` (or `authorization`) header.
pub open spec fn auth_header(f: FrameView) -> Option<Seq<char>> {
    match find_header(f.headers, "Authorization"@) {
        Some(h) => Some(h),
        None => find_header(f.headers, "authorization"@),
    }
}

/// The broker's subscriptions and messages are as they were.
pub open spec fn broker_same(b0: Broker, b1: Broker) -> bool {
    &&& forall|d: Seq<char>| #[trigger] b1.subscribers(d) == b0.subscribers(d)
    &&& forall|d: Seq<char>| #[trigger] b1.last_message_of(d) == b0.last_message_of(d)
}

/// A reply that reports `message`, nothing else changing, then `next`.
pub open spec fn refused(
    s0: SessionView,
    s1: SessionView,
    b0: Broker,
    b1: Broker,
    a0: Set<Seq<char>>,
    a1: Set<Seq<char>>,
    step: StepView,
    message: Seq<char>,
    next: NextView,
) -> bool {
    &&& step == StepView { actions: seq![error_action(message)], next }
    &&& s1 == s0
    &&& broker_same(b0, b1)
    &&& a1 == a0
}

/// The end of a CONNECT: heartbeats negotiated from the frame's
/// `heart-beat` header against the server's, the intervals to install, and
/// the CONNECTED reply.
pub open spec fn connect_completed(s0: SessionView, s1: SessionView, f: FrameView, step: StepView) -> bool {
    let hb = negotiated(
        client_heartbeat(find_header(f.headers, "heart-beat"@)),
        SERVER_HEARTBEAT_SEND_MS,
        SERVER_HEARTBEAT_WANT_MS,
    );
    &&& step == StepView {
        actions: seq![
            ActionView::Heartbeats(
                if hb.0 > 0 { Some(hb.0) } else { None },
                if hb.1 > 0 { Some(hb.1) } else { None },
            ),
            ActionView::Reply(connected_view(hb.0, hb.1, s0.conn_id)),
        ],
        next: NextView::Continue,
    }
    &&& s1 == SessionView {
        incoming_ms: if hb.1 > 0 { Some(hb.1) } else { s0.incoming_ms },
        awaiting: None,
        ..s0
    }
}

/// Every subscriber of `dest`, in order, is sent one MESSAGE frame with
/// `body`, the content type and the extra headers.
pub open spec fn delivers(
    actions: Seq<ActionView>,
    subs: Seq<SubView>,
    dest: Seq<char>,
    content_type: Option<Seq<char>>,
    body: Seq<u8>,
    extra: Seq<(Seq<char>, Seq<char>)>,
) -> bool {
    &&& actions.len() == subs.len()
    &&& forall|i: int|
        0 <= i < actions.len() ==> match #[trigger] actions[i] {
            ActionView::Deliver(c, f) => c == subs[i].conn_id && exists|m: u128, a: u128|
                f == message_view(dest, subs[i], m, a, content_type, body, extra),
            _ => false,
        }
}

/// The content-encoding header a static payload carries, if any.
pub open spec fn encoding_headers(kind: crate::compressed_assets::AssetKind) -> Seq<(Seq<char>, Seq<char>)> {
    match asset_content_encoding(kind) {
        Some(e) => seq![("content-encoding"@, e)],
        None => Seq::empty(),
    }
}

/// What handling the client frame `f` does, from session `s0`, broker `b0`
/// and pending acks `a0`, to `s1`, `b1`, `a1`, with the outcome `step`.
pub open spec fn frame_handled(
    s0: SessionView,
    s1: SessionView,
    b0: Broker,
    b1: Broker,
    a0: Set<Seq<char>>,
    a1: Set<Seq<char>>,
    assets: AssetStore,
    f: FrameView,
    step: StepView,
) -> bool {
    let authenticated = s0.auth_user is Some;
    match f.command {
        StompCommand::Connect | StompCommand::Stomp => {
            &&& broker_same(b0, b1)
            &&& a1 == a0
            &&& match auth_header(f) {
                Some(h) => {
                    &&& step == StepView {
                        actions: Seq::empty(),
                        next: NextView::Authenticate(bearer_token(h)),
                    }
                    &&& s1 == SessionView { connected: true, awaiting: Some(f), ..s0 }
                },
                None => connect_completed(SessionView { connected: true, ..s0 }, s1, f, step),
            }
        },
        StompCommand::Subscribe => match (
            find_header(f.headers, "destination"@),
            find_header(f.headers, "id"@),
        ) {
            (Some(dest), Some(id)) => if !destination_allowed_spec(dest, authenticated) {
                refused(
                    s0,
                    s1,
                    b0,
                    b1,
                    a0,
                    a1,
                    step,
                    "not authorized to subscribe to this destination"@,
                    NextView::Continue,
                )
            } else {
                &&& s1 == s0
                &&& a1 == a0
                &&& forall|d: Seq<char>| #[trigger] b1.last_message_of(d) == b0.last_message_of(d)
                &&& forall|d: Seq<char>|
                    #[trigger] b1.subscribers(d) == if d == dest {
                        b0.subscribers(d).push(
                            SubView {
                                conn_id: s0.conn_id,
                                sub_id: id,
                                ack_mode: ack_mode_of(find_header(f.headers, "ack"@)),
                            },
                        )
                    } else {
                        b0.subscribers(d)
                    }
                &&& step == StepView {
                    actions: receipt_actions(f) + seq![ActionView::SchedulePush(dest, id)],
                    next: NextView::Continue,
                }
            },
            _ => refused(
                s0,
                s1,
                b0,
                b1,
                a0,
                a1,
                step,
                "SUBSCRIBE requires 'destination' and 'id' headers"@,
                NextView::Stop,
            ),
        },
        StompCommand::Unsubscribe => match find_header(f.headers, "id"@) {
            Some(id) => {
                &&& s1 == s0
                &&& a1 == a0
                &&& forall|d: Seq<char>| #[trigger] b1.last_message_of(d) == b0.last_message_of(d)
                &&& forall|d: Seq<char>|
                    #[trigger] b1.subscribers(d) == b0.subscribers(d).filter(other_than_sub(s0.conn_id, id))
                &&& step == StepView { actions: receipt_actions(f), next: NextView::Continue }
            },
            None => refused(
                s0,
                s1,
                b0,
                b1,
                a0,
                a1,
                step,
                "UNSUBSCRIBE requires 'id' header"@,
                NextView::Stop,
            ),
        },
        StompCommand::Send => match find_header(f.headers, "destination"@) {
            Some(dest) => if !destination_allowed_spec(dest, authenticated) {
                refused(
                    s0,
                    s1,
                    b0,
                    b1,
                    a0,
                    a1,
                    step,
                    "not authorized to send to this destination"@,
                    NextView::Continue,
                )
            } else {
                &&& s1 == s0
                &&& a1 == a0
                &&& forall|d: Seq<char>| #[trigger] b1.subscribers(d) == b0.subscribers(d)
                &&& step.next == NextView::Continue
                &&& step.actions.len() >= receipt_actions(f).len()
                &&& step.actions.skip(step.actions.len() - receipt_actions(f).len())
                    == receipt_actions(f)
                &&& match topic_asset(dest) {
                    Some(kind) => {
                        &&& forall|d: Seq<char>|
                            #[trigger] b1.last_message_of(d) == b0.last_message_of(d)
                        &&& delivers(
                            step.actions.take(step.actions.len() - receipt_actions(f).len()),
                            b0.subscribers(dest),
                            dest,
                            Some(asset_content_type(kind)),
                            assets.bytes_of(kind),
                            encoding_headers(kind),
                        )
                    },
                    None => {
                        let wrapped = encode_utf8(response_json(utf8_lossy(f.body)));
                        &&& forall|d: Seq<char>|
                            #[trigger] b1.last_message_of(d) == if d == dest {
                                Some(wrapped)
                            } else {
                                b0.last_message_of(d)
                            }
                        &&& delivers(
                            step.actions.take(step.actions.len() - receipt_actions(f).len()),
                            b0.subscribers(dest),
                            dest,
                            Some("application/json"@),
                            wrapped,
                            Seq::empty(),
                        )
                    },
                }
            },
            None => refused(
                s0,
                s1,
                b0,
                b1,
                a0,
                a1,
                step,
                "SEND requires 'destination' header"@,
                NextView::Stop,
            ),
        },
        StompCommand::Ack | StompCommand::Nack => match find_header(f.headers, "id"@) {
            Some(id) => {
                &&& s1 == s0
                &&& broker_same(b0, b1)
                &&& a1 == a0.remove(id)
                &&& step == StepView {
                    actions: seq![
                        if a0.contains(id) {
                            ActionView::Reply(status_ok_view(id))
                        } else {
                            error_action("unknown or already-acknowledged ack id"@)
                        },
                    ],
                    next: NextView::Continue,
                }
            },
            None => refused(
                s0,
                s1,
                b0,
                b1,
                a0,
                a1,
                step,
                "ACK/NACK requires 'id' header"@,
                NextView::Continue,
            ),
        },
        StompCommand::Disconnect => {
            &&& s1 == s0
            &&& broker_same(b0, b1)
            &&& a1 == a0
            &&& step == StepView { actions: receipt_actions(f), next: NextView::Stop }
        },
        _ => refused(
            s0,
            s1,
            b0,
            b1,
            a0,
            a1,
            step,
            "unsupported client command '"@ + command_name(f.command) + "'"@,
            NextView::Stop,
        ),
    }
}

/// What handling one NUL-delimited chunk of a payload does: a heartbeat is
/// skipped; bytes that are not a frame, or any frame but CONNECT/STOMP
/// before the connection is established, are answered with an ERROR that
/// ends the connection; anything else is handled as `frame_handled` says.
pub open spec fn chunk_handled(
    s0: SessionView,
    s1: SessionView,
    b0: Broker,
    b1: Broker,
    a0: Set<Seq<char>>,
    a1: Set<Seq<char>>,
    assets: AssetStore,
    chunk: Seq<u8>,
    step: StepView,
) -> bool {
    if is_heartbeat_spec(chunk) {
        &&& step == StepView { actions: Seq::empty(), next: NextView::Continue }
        &&& s1 == s0
        &&& broker_same(b0, b1)
        &&& a1 == a0
    } else {
        match crate::stomp::frame::parse_spec(chunk) {
            Err(e) => refused(s0, s1, b0, b1, a0, a1, step, "malformed frame: "@ + e, NextView::Stop),
            Ok(f) => if !s0.connected && f.command != StompCommand::Connect && f.command
                != StompCommand::Stomp {
                refused(
                    s0,
                    s1,
                    b0,
                    b1,
                    a0,
                    a1,
                    step,
                    "you must first issue a CONNECT frame"@,
                    NextView::Stop,
                )
            } else {
                frame_handled(s0, s1, b0, b1, a0, a1, assets, f, step)
            },
        }
    }
}

pub open spec fn pieces_view(s: Seq<Vec<u8>>) -> Seq<Seq<u8>> {
    s.map_values(|v: Vec<u8>| v@)
}

/// Splits a received payload into the chunks between NUL bytes, each of
/// which holds at most one frame.
pub fn split_frames(payload: &[u8]) -> (r: Vec<Vec<u8>>)
    ensures
        pieces_view(r@) == split_spec(payload@, 0u8),
{
    let mut out: Vec<Vec<u8>> = Vec::new();
    let mut start: usize = 0;
    loop
        invariant
            start <= payload@.len(),
            pieces_view(out@) + split_spec(payload@.skip(start as int), 0u8) == split_spec(payload@, 0u8),
        decreases payload@.len() - start,
    {
        let ghost rest = payload@.skip(start as int);
        assert(payload@.subrange(start as int, payload@.len() as int) =~= rest);
        proof {
            crate::text::lemma_first_index(rest, 0u8);
        }
        match crate::text::find_byte(payload, start, payload.len(), 0u8) {
            Some(i) => {
                let piece = vstd::slice::slice_to_vec(
                    vstd::slice::slice_subrange(payload, start, start + i),
                );
                assert(piece@ =~= rest.take(i as int));
                assert(rest.skip(i + 1) =~= payload@.skip(start + i + 1));
                let ghost before = out@;
                out.push(piece);
                assert(pieces_view(out@) =~= pieces_view(before) + seq![rest.take(i as int)]);
                assert(pieces_view(out@) + split_spec(payload@.skip(start + i + 1), 0u8) =~= pieces_view(
                    before,
                ) + split_spec(rest, 0u8));
                start = start + i + 1;
            },
            None => {
                let piece = vstd::slice::slice_to_vec(
                    vstd::slice::slice_subrange(payload, start, payload.len()),
                );
                let ghost before = out@;
                out.push(piece);
                assert(pieces_view(out@) =~= pieces_view(before) + seq![rest]);
                return out;
            },
        }
    }
}

/// An ERROR reply with `message`, then `next`.
fn refuse(message: &str, next: Next) -> (r: Step)
    ensures
        step_view(r) == (StepView { actions: seq![error_action(message@)], next: next_view(next) }),
{
    let mut actions: Vec<Action> = Vec::new();
    actions.push(Action::Reply(error_frame(message, None)));
    let r = Step { actions, next };
    assert(step_view(r).actions =~= seq![error_action(message@)]);
    r
}

/// Appends the RECEIPT `f` asks for, if it asks for one.
fn push_receipt(actions: &mut Vec<Action>, f: &StompFrame)
    ensures
        actions_view(final(actions)@) == actions_view(old(actions)@) + receipt_actions(f@),
{
    match receipt_for(f) {
        Some(r) => {
            actions.push(Action::Reply(r));
        },
        None => {},
    }
    assert(actions_view(actions@) =~= actions_view(old(actions)@) + receipt_actions(f@));
}

pub open spec fn deliveries_view(ds: Seq<Delivery>) -> Seq<ActionView> {
    ds.map_values(|d: Delivery| ActionView::Deliver(d.conn_id, d.frame@))
}

/// Each delivery as an action, in order.
fn deliveries_to_actions(ds: Vec<Delivery>) -> (r: Vec<Action>)
    ensures
        actions_view(r@) == deliveries_view(ds@),
{
    let ghost orig = ds@;
    let mut out: Vec<Action> = Vec::new();
    for d in it: ds
        invariant
            it.seq() == orig,
            actions_view(out@) == deliveries_view(orig.take(it.index() as int)),
    {
        let ghost before = out@;
        out.push(Action::Deliver(d));
        assert(actions_view(out@) =~= actions_view(before).push(action_view(Action::Deliver(d))));
        assert(orig.take(it.index() + 1) =~= orig.take(it.index() as int).push(d));
        assert(deliveries_view(orig.take(it.index() + 1)) =~= deliveries_view(
            orig.take(it.index() as int),
        ).push(ActionView::Deliver(d.conn_id, d.frame@)));
    }
    assert(orig.take(orig.len() as int) =~= orig);
    out
}

impl Session {
    /// A fresh connection with id `conn_id`: not yet connected, anonymous.
    pub fn new(conn_id: u128) -> (r: Self)
        ensures
            r@ == (SessionView {
                conn_id,
                connected: false,
                auth_user: None,
                awaiting: None,
                incoming_ms: None,
            }),
    {
        Session { conn_id, connected: false, auth_user: None, awaiting: None, incoming_ms: None }
    }

    /// The connection's id.
    pub fn conn_id(&self) -> (r: u128)
        ensures
            r == self@.conn_id,
    {
        self.conn_id
    }

    /// Whether a CONNECT frame's token is being checked.
    pub fn awaiting_authentication(&self) -> (r: bool)
        ensures
            r == self@.awaiting is Some,
    {
        self.awaiting.is_some()
    }

    /// Ends a CONNECT: negotiates heartbeats and answers CONNECTED.
    fn complete_connect(&mut self, f: &StompFrame) -> (r: Step)
        ensures
            connect_completed(old(self)@, final(self)@, f@, step_view(r)),
    {
        let hb = f.get("heart-beat");
        assert(opt_view(hb) == find_header(f@.headers, "heart-beat"@));
        let (out_ms, in_ms) = negotiate_heartbeat(hb, SERVER_HEARTBEAT_SEND_MS, SERVER_HEARTBEAT_WANT_MS);
        let mut actions: Vec<Action> = Vec::new();
        actions.push(
            Action::Heartbeats {
                outgoing_ms: if out_ms > 0 { Some(out_ms) } else { None },
                incoming_ms: if in_ms > 0 { Some(in_ms) } else { None },
            },
        );
        if in_ms > 0 {
            self.incoming_ms = Some(in_ms);
        }
        self.awaiting = None;
        actions.push(Action::Reply(connected_frame(out_ms, in_ms, self.conn_id)));
        let r = Step { actions, next: Next::Continue };
        assert(step_view(r).actions =~= seq![
            ActionView::Heartbeats(
                if out_ms > 0 { Some(out_ms) } else { None },
                if in_ms > 0 { Some(in_ms) } else { None },
            ),
            ActionView::Reply(connected_view(out_ms, in_ms, old(self)@.conn_id)),
        ]);
        r
    }

    /// Handles CONNECT (or STOMP).
    fn on_connect(&mut self, f: StompFrame) -> (r: Step)
        ensures
            match auth_header(f@) {
                Some(h) => {
                    &&& step_view(r) == (StepView {
                        actions: Seq::empty(),
                        next: NextView::Authenticate(bearer_token(h)),
                    })
                    &&& final(self)@ == (SessionView { connected: true, awaiting: Some(f@), ..old(self)@ })
                },
                None => connect_completed(
                    SessionView { connected: true, ..old(self)@ },
                    final(self)@,
                    f@,
                    step_view(r),
                ),
            },
    {
        self.connected = true;
        let header = match f.get("Authorization") {
            Some(h) => Some(h),
            None => f.get("authorization"),
        };
        let token: Option<Option<String>> = match header {
            Some(h) => {
                proof {
                    reveal_strlit("Bearer ");
                }
                Some(strip_prefix(h, "Bearer "))
            },
            None => None,
        };
        match token {
            Some(t) => {
                let ghost fv = f@;
                self.awaiting = Some(f);
                let r = Step { actions: Vec::new(), next: Next::Authenticate(t) };
                assert(step_view(r).actions =~= Seq::<ActionView>::empty());
                r
            },
            None => self.complete_connect(&f),
        }
    }

    /// Ends a CONNECT whose token was checked: `user` is the user it names,
    /// or `None` when it was missing or invalid, which ends the connection.
    pub fn finish_connect(&mut self, user: Option<String>) -> (r: Step)
        ensures
            match old(self)@.awaiting {
                None => step_view(r) == (StepView { actions: Seq::empty(), next: NextView::Continue })
                    && final(self)@ == old(self)@,
                Some(f) => match user {
                    None => step_view(r) == (StepView {
                        actions: seq![error_action("invalid Authorization header on CONNECT"@)],
                        next: NextView::Stop,
                    }) && final(self)@ == (SessionView { awaiting: None, ..old(self)@ }),
                    Some(u) => connect_completed(
                        SessionView { auth_user: Some(u@), ..old(self)@ },
                        final(self)@,
                        f,
                        step_view(r),
                    ),
                },
            },
    {
        match self.awaiting.take() {
            None => {
                let r = Step { actions: Vec::new(), next: Next::Continue };
                assert(step_view(r).actions =~= Seq::<ActionView>::empty());
                r
            },
            Some(f) => match user {
                None => refuse("invalid Authorization header on CONNECT", Next::Stop),
                Some(u) => {
                    self.auth_user = Some(u);
                    self.complete_connect(&f)
                },
            },
        }
    }
}

impl Session {
    /// Handles SUBSCRIBE.
    fn on_subscribe(&self, f: &StompFrame, broker: &mut Broker, acks: &PendingAcks, assets: &AssetStore) -> (r:
        Step)
        requires
            f@.command == StompCommand::Subscribe,
        ensures
            frame_handled(
                self@,
                self@,
                *old(broker),
                *final(broker),
                acks.ids(),
                acks.ids(),
                *assets,
                f@,
                step_view(r),
            ),
    {
        let dest = f.get("destination");
        let id = f.get("id");
        match (dest, id) {
            (Some(dest), Some(id)) => {
                if !destination_allowed(dest, &self.auth_user) {
                    return refuse("not authorized to subscribe to this destination", Next::Continue);
                }
                let ack = f.get("ack");
                let ack_mode = AckMode::parse(ack);
                broker.subscribe(dest, self.conn_id, id, ack_mode);
                let mut actions: Vec<Action> = Vec::new();
                push_receipt(&mut actions, f);
                let ghost with_receipt = actions@;
                actions.push(
                    Action::SchedulePush { destination: dest.to_owned(), subscription: id.to_owned() },
                );
                let r = Step { actions, next: Next::Continue };
                assert(step_view(r).actions =~= receipt_actions(f@) + seq![
                    ActionView::SchedulePush(dest@, id@),
                ]);
                r
            },
            _ => refuse("SUBSCRIBE requires 'destination' and 'id' headers", Next::Stop),
        }
    }

    /// Handles UNSUBSCRIBE.
    fn on_unsubscribe(&self, f: &StompFrame, broker: &mut Broker, acks: &PendingAcks, assets: &AssetStore) -> (r:
        Step)
        requires
            f@.command == StompCommand::Unsubscribe,
        ensures
            frame_handled(
                self@,
                self@,
                *old(broker),
                *final(broker),
                acks.ids(),
                acks.ids(),
                *assets,
                f@,
                step_view(r),
            ),
    {
        match f.get("id") {
            Some(id) => {
                broker.unsubscribe(self.conn_id, id);
                let mut actions: Vec<Action> = Vec::new();
                push_receipt(&mut actions, f);
                assert(actions_view(actions@) =~= receipt_actions(f@));
                Step { actions, next: Next::Continue }
            },
            None => refuse("UNSUBSCRIBE requires 'id' header", Next::Stop),
        }
    }

    /// Handles SEND.
    #[verifier::rlimit(40)]
    fn on_send(&self, f: &StompFrame, broker: &mut Broker, acks: &PendingAcks, assets: &AssetStore) -> (r: Step)
        requires
            f@.command == StompCommand::Send,
        ensures
            frame_handled(
                self@,
                self@,
                *old(broker),
                *final(broker),
                acks.ids(),
                acks.ids(),
                *assets,
                f@,
                step_view(r),
            ),
    {
        let dest = match f.get("destination") {
            Some(d) => d,
            None => {
                return refuse("SEND requires 'destination' header", Next::Stop);
            },
        };
        if !destination_allowed(dest, &self.auth_user) {
            return refuse("not authorized to send to this destination", Next::Continue);
        }
        let ghost b0 = *broker;
        let deliveries = match lookup_by_topic(dest) {
            Some(asset) => {
                let mut extra: Vec<(&str, &str)> = Vec::new();
                match asset.content_encoding {
                    Some(enc) => {
                        extra.push(("content-encoding", enc));
                    },
                    None => {},
                }
                assert(pairs_view(extra@) =~= encoding_headers(asset.kind));
                broker.publish(dest, Some(asset.content_type), assets.bytes(asset.kind), extra.as_slice())
            },
            None => {
                let text = string_from_utf8_lossy(f.body.as_slice());
                let wrapped_text = response_json_text(text.as_str());
                let wrapped = wrapped_text.as_str().as_bytes();
                broker.record_last_message(dest, wrapped);
                let extra: Vec<(&str, &str)> = Vec::new();
                assert(pairs_view(extra@) =~= Seq::<(Seq<char>, Seq<char>)>::empty());
                broker.publish(dest, Some("application/json"), wrapped, extra.as_slice())
            },
        };
        let ghost dv = deliveries@;
        let mut actions = deliveries_to_actions(deliveries);
        let ghost delivered = actions_view(actions@);
        push_receipt(&mut actions, f);
        let r = Step { actions, next: Next::Continue };
        proof {
            let acts = step_view(r).actions;
            let n = receipt_actions(f@).len();
            assert(acts.take(acts.len() - n) =~= delivered);
            assert(acts.skip(acts.len() - n) =~= receipt_actions(f@));
        }
        r
    }

    /// Handles ACK and NACK.
    fn on_ack(&self, f: &StompFrame, broker: &Broker, acks: &mut PendingAcks, assets: &AssetStore) -> (r: Step)
        requires
            f@.command == StompCommand::Ack || f@.command == StompCommand::Nack,
        ensures
            frame_handled(
                self@,
                self@,
                *broker,
                *broker,
                old(acks).ids(),
                final(acks).ids(),
                *assets,
                f@,
                step_view(r),
            ),
    {
        match f.get("id") {
            Some(id) => {
                let known = acks.acknowledge(id);
                let reply = if known {
                    status_ok_frame(id)
                } else {
                    error_frame("unknown or already-acknowledged ack id", None)
                };
                let mut actions: Vec<Action> = Vec::new();
                actions.push(Action::Reply(reply));
                let r = Step { actions, next: Next::Continue };
                assert(step_view(r).actions =~= seq![
                    if old(acks).ids().contains(id@) {
                        ActionView::Reply(status_ok_view(id@))
                    } else {
                        error_action("unknown or already-acknowledged ack id"@)
                    },
                ]);
                r
            },
            None => refuse("ACK/NACK requires 'id' header", Next::Continue),
        }
    }

    /// Handles one client frame.
    pub fn on_frame(&mut self, f: StompFrame, broker: &mut Broker, assets: &AssetStore, acks: &mut PendingAcks) -> (r:
        Step)
        ensures
            frame_handled(
                old(self)@,
                final(self)@,
                *old(broker),
                *final(broker),
                old(acks).ids(),
                final(acks).ids(),
                *assets,
                f@,
                step_view(r),
            ),
    {
        match f.command {
            StompCommand::Connect | StompCommand::Stomp => self.on_connect(f),
            StompCommand::Subscribe => self.on_subscribe(&f, broker, acks, assets),
            StompCommand::Unsubscribe => self.on_unsubscribe(&f, broker, acks, assets),
            StompCommand::Send => self.on_send(&f, broker, acks, assets),
            StompCommand::Ack | StompCommand::Nack => self.on_ack(&f, broker, acks, assets),
            StompCommand::Disconnect => {
                let mut actions: Vec<Action> = Vec::new();
                push_receipt(&mut actions, &f);
                assert(actions_view(actions@) =~= receipt_actions(f@));
                Step { actions, next: Next::Stop }
            },
            _ => {
                let mut msg = String::new();
                push_str(&mut msg, "unsupported client command '");
                push_str(&mut msg, f.command.as_str());
                push_str(&mut msg, "'");
                assert(msg@ =~= "unsupported client command '"@ + command_name(f@.command) + "'"@);
                refuse(msg.as_str(), Next::Stop)
            },
        }
    }
}

impl Session {
    /// Handles one chunk of a received payload (the bytes between two NULs).
    pub fn on_chunk(&mut self, chunk: &[u8], broker: &mut Broker, assets: &AssetStore, acks: &mut PendingAcks) -> (r:
        Step)
        ensures
            chunk_handled(
                old(self)@,
                final(self)@,
                *old(broker),
                *final(broker),
                old(acks).ids(),
                final(acks).ids(),
                *assets,
                chunk@,
                step_view(r),
            ),
    {
        if is_heartbeat(chunk) {
            let r = Step { actions: Vec::new(), next: Next::Continue };
            assert(step_view(r).actions =~= Seq::<ActionView>::empty());
            return r;
        }
        let frame = match StompFrame::parse(chunk) {
            Ok(f) => f,
            Err(e) => {
                let mut msg = String::new();
                push_str(&mut msg, "malformed frame: ");
                push_str(&mut msg, e.0.as_str());
                assert(msg@ =~= "malformed frame: "@ + e.0@);
                return refuse(msg.as_str(), Next::Stop);
            },
        };
        if !self.connected && frame.command != StompCommand::Connect && frame.command
            != StompCommand::Stomp {
            return refuse("you must first issue a CONNECT frame", Next::Stop);
        }
        self.on_frame(frame, broker, assets, acks)
    }

    /// Run once per negotiated incoming interval: when the peer has
    /// sent nothing for `idle_ns` nanoseconds, more than
    /// `HEARTBEAT_MISS_GRACE_FACTOR` intervals, the connection is dead.
    pub fn on_idle_check(&self, idle_ns: u128) -> (r: Step)
        ensures
            step_view(r) == match self@.incoming_ms {
                Some(ms) => if idle_ns > ms * HEARTBEAT_MISS_GRACE_FACTOR * 1_000_000 {
                    StepView {
                        actions: seq![error_action("missed heartbeat, connection considered dead"@)],
                        next: NextView::Stop,
                    }
                } else {
                    StepView { actions: Seq::empty(), next: NextView::Continue }
                },
                None => StepView { actions: Seq::empty(), next: NextView::Continue },
            },
    {
        match self.incoming_ms {
            Some(ms) => {
                let limit: u128 = (ms as u128) * (HEARTBEAT_MISS_GRACE_FACTOR as u128) * 1_000_000u128;
                if idle_ns > limit {
                    return refuse("missed heartbeat, connection considered dead", Next::Stop);
                }
            },
            None => {},
        }
        let r = Step { actions: Vec::new(), next: Next::Continue };
        assert(step_view(r).actions =~= Seq::<ActionView>::empty());
        r
    }

    /// Removes every subscription of this connection from the broker, as
    /// when the connection ends.
    pub fn close(&self, broker: &mut Broker)
        ensures
            forall|d: Seq<char>|
                #[trigger] final(broker).subscribers(d) == old(broker).subscribers(d).filter(other_than_conn(self@.conn_id)),
            forall|d: Seq<char>| #[trigger] final(broker).last_message_of(d) == old(broker).last_message_of(d),
    {
        broker.disconnect(self.conn_id);
    }
}

/// What the connection does when its time is up: an ERROR, then it ends.
pub fn time_limit_reached() -> (r: Step)
    ensures
        step_view(r) == (StepView {
            actions: seq![error_action("connection time limit exceeded, please reconnect"@)],
            next: NextView::Stop,
        }),
{
    refuse("connection time limit exceeded, please reconnect", Next::Stop)
}

/// ACK and NACK ids are spent once: when an ACK or NACK frame `f` is
/// handled twice in a row, the second time is answered with an ERROR and
/// the connection goes on.
pub proof fn lemma_ack_id_is_spent_once(
    s0: SessionView,
    s1: SessionView,
    s2: SessionView,
    b0: Broker,
    b1: Broker,
    b2: Broker,
    a0: Set<Seq<char>>,
    a1: Set<Seq<char>>,
    a2: Set<Seq<char>>,
    assets: AssetStore,
    f: FrameView,
    step1: StepView,
    step2: StepView,
)
    requires
        f.command == StompCommand::Ack || f.command == StompCommand::Nack,
        find_header(f.headers, "id"@) is Some,
        frame_handled(s0, s1, b0, b1, a0, a1, assets, f, step1),
        frame_handled(s1, s2, b1, b2, a1, a2, assets, f, step2),
    ensures
        step2 == (StepView {
            actions: seq![error_action("unknown or already-acknowledged ack id"@)],
            next: NextView::Continue,
        }),
{
}

/// What is sent to a destination is what its later subscribers are pushed:
/// after SEND frame `f` with body `body` to a destination `dest` that is not
/// a static topic is handled, the delayed push for any subscription of
/// `dest` carries `{"response": <body as text>}`.
pub proof fn lemma_push_replays_last_send(
    s0: SessionView,
    s1: SessionView,
    b0: Broker,
    b1: Broker,
    a0: Set<Seq<char>>,
    a1: Set<Seq<char>>,
    assets: AssetStore,
    f: FrameView,
    step: StepView,
    dest: Seq<char>,
    sub_id: Seq<char>,
    message_id: u128,
)
    requires
        f.command == StompCommand::Send,
        find_header(f.headers, "destination"@) == Some(dest),
        destination_allowed_spec(dest, s0.auth_user is Some),
        topic_asset(dest) is None,
        frame_handled(s0, s1, b0, b1, a0, a1, assets, f, step),
    ensures
        delayed_push_view(dest, sub_id, message_id, b1.last_message_of(dest), assets).body == encode_utf8(
            response_json(utf8_lossy(f.body)),
        ),
{
}

} // verus!
