//! The in-memory publish/subscribe router behind the STOMP endpoint.
use vstd::prelude::*;

use crate::assoc::{
    distinct_keys, lemma_lookup, lemma_lookup_at, lemma_lookup_push, lemma_lookup_update, lookup,
};
use crate::ids::{id_text, id_to_string, new_id};
use crate::stomp::frame::{headers_view, FrameView, StompCommand, StompFrame};
use crate::text::{decimal, str_eq, u64_to_string};

verus! {

broadcast use vstd::seq_lib::group_seq_properties;

/// How a subscriber acknowledges messages.
#[derive(Debug, Clone, Copy, PartialEq, Eq, Structural)]
pub enum AckMode {
    Auto,
    Client,
    ClientIndividual,
}

/// The mode an `ack` header asks for: `client` and `client-individual` are
/// recognised, anything else (or no header) means `auto`.
pub open spec fn ack_mode_of(header: Option<Seq<char>>) -> AckMode {
    match header {
        Some(h) => if h == "client"@ {
            AckMode::Client
        } else if h == "client-individual"@ {
            AckMode::ClientIndividual
        } else {
            AckMode::Auto
        },
        None => AckMode::Auto,
    }
}

impl AckMode {
    /// The mode the `ack` header of a SUBSCRIBE frame asks for.
    pub fn parse(header: Option<&str>) -> (r: Self)
        ensures
            r == ack_mode_of(
                match header {
                    Some(h) => Some(h@),
                    None => None,
                },
            ),
    {
        match header {
            Some(h) => if str_eq(h, "client") {
                AckMode::Client
            } else if str_eq(h, "client-individual") {
                AckMode::ClientIndividual
            } else {
                AckMode::Auto
            },
            None => AckMode::Auto,
        }
    }
}

/// One subscription: which connection, under which id, in which ack mode.
pub struct Subscriber {
    pub conn_id: u128,
    pub sub_id: String,
    pub ack_mode: AckMode,
}

/// The mathematical content of a subscription.
pub struct SubView {
    pub conn_id: u128,
    pub sub_id: Seq<char>,
    pub ack_mode: AckMode,
}

pub open spec fn sub_view(s: Subscriber) -> SubView {
    SubView { conn_id: s.conn_id, sub_id: s.sub_id@, ack_mode: s.ack_mode }
}

pub open spec fn subs_view(l: Seq<Subscriber>) -> Seq<SubView> {
    l.map_values(|s: Subscriber| sub_view(s))
}

/// A MESSAGE frame to hand to one connection.
pub struct Delivery {
    pub conn_id: u128,
    pub frame: StompFrame,
}

/// The destinations' subscriptions, in subscription order, and the last body
/// sent to each destination. Both are lists with each destination once,
/// rather than hash maps keyed by destination: with `String` keys the maps'
/// specifications in vstd give nothing to prove lookups from, while the
/// lists' lookups are proved here.
pub struct Broker {
    subs: Vec<(String, Vec<Subscriber>)>,
    last_message: Vec<(String, Vec<u8>)>,
}

pub open spec fn sub_entries(e: Seq<(String, Vec<Subscriber>)>) -> Seq<(Seq<char>, Seq<SubView>)> {
    e.map_values(|p: (String, Vec<Subscriber>)| (p.0@, subs_view(p.1@)))
}

pub open spec fn msg_entries(e: Seq<(String, Vec<u8>)>) -> Seq<(Seq<char>, Seq<u8>)> {
    e.map_values(|p: (String, Vec<u8>)| (p.0@, p.1@))
}

/// The headers of a MESSAGE frame: destination, subscription, message id,
/// content length, then the content type when given, the extra headers, and
/// the ack id when the subscriber acknowledges.
pub open spec fn message_headers(
    dest: Seq<char>,
    sub_id: Seq<char>,
    message_id: Seq<char>,
    content_type: Option<Seq<char>>,
    body_len: nat,
    extra: Seq<(Seq<char>, Seq<char>)>,
    ack: Option<Seq<char>>,
) -> Seq<(Seq<char>, Seq<char>)> {
    seq![
        ("destination"@, dest),
        ("subscription"@, sub_id),
        ("message-id"@, message_id),
        ("content-length"@, decimal(body_len)),
    ] + match content_type {
        Some(ct) => seq![("content-type"@, ct)],
        None => Seq::empty(),
    } + extra + match ack {
        Some(a) => seq![("ack"@, a)],
        None => Seq::empty(),
    }
}

/// A MESSAGE frame as `publish` builds it for one subscriber, with the given
/// message and ack ids.
pub open spec fn message_view(
    dest: Seq<char>,
    sub: SubView,
    message_id: u128,
    ack_id: u128,
    content_type: Option<Seq<char>>,
    body: Seq<u8>,
    extra: Seq<(Seq<char>, Seq<char>)>,
) -> FrameView {
    FrameView {
        command: StompCommand::Message,
        headers: message_headers(
            dest,
            sub.sub_id,
            id_text(message_id),
            content_type,
            body.len(),
            extra,
            if sub.ack_mode == AckMode::Auto {
                None
            } else {
                Some(id_text(ack_id))
            },
        ),
        body,
    }
}

pub open spec fn opt_view(o: Option<&str>) -> Option<Seq<char>> {
    match o {
        Some(s) => Some(s@),
        None => None,
    }
}

pub open spec fn pairs_view(p: Seq<(&str, &str)>) -> Seq<(Seq<char>, Seq<char>)> {
    p.map_values(|h: (&str, &str)| (h.0@, h.1@))
}

/// Builds a MESSAGE frame from its parts.
pub fn message_frame(
    dest: &str,
    sub_id: &str,
    message_id: &str,
    content_type: Option<&str>,
    body: &[u8],
    extra: &[(&str, &str)],
    ack: Option<&str>,
) -> (r: StompFrame)
    ensures
        r@ == (FrameView {
            command: StompCommand::Message,
            headers: message_headers(
                dest@,
                sub_id@,
                message_id@,
                opt_view(content_type),
                body@.len(),
                pairs_view(extra@),
                opt_view(ack),
            ),
            body: body@,
        }),
{
    let len_text = u64_to_string(body.len() as u64);
    let mut f = StompFrame::new(StompCommand::Message)
        .header("destination", dest)
        .header("subscription", sub_id)
        .header("message-id", message_id)
        .header("content-length", len_text.as_str());
    let ghost base = f@.headers;
    match content_type {
        Some(ct) => {
            f = f.header("content-type", ct);
        },
        None => {},
    }
    let ghost with_ct = f@.headers;
    let mut i: usize = 0;
    while i < extra.len()
        invariant
            i <= extra@.len(),
            f@.command == StompCommand::Message,
            f@.body == Seq::<u8>::empty(),
            f@.headers == with_ct + pairs_view(extra@).take(i as int),
        decreases extra.len() - i,
    {
        let (k, v) = extra[i];
        f = f.header(k, v);
        assert(pairs_view(extra@).take(i + 1) =~= pairs_view(extra@).take(i as int).push((k@, v@)));
        i += 1;
    }
    assert(pairs_view(extra@).take(extra@.len() as int) =~= pairs_view(extra@));
    match ack {
        Some(a) => {
            f = f.header("ack", a);
        },
        None => {},
    }
    f.body = vstd::slice::slice_to_vec(body);
    assert(f@.headers =~= message_headers(
        dest@,
        sub_id@,
        message_id@,
        opt_view(content_type),
        body@.len(),
        pairs_view(extra@),
        opt_view(ack),
    ));
    f
}

impl Broker {
    #[verifier::type_invariant]
    spec fn wf(self) -> bool {
        &&& distinct_keys(sub_entries(self.subs@))
        &&& distinct_keys(msg_entries(self.last_message@))
    }

    /// The subscriptions to `dest`, oldest first.
    pub closed spec fn subscribers(&self, dest: Seq<char>) -> Seq<SubView> {
        entry_list(lookup(sub_entries(self.subs@), dest))
    }

    /// The last body sent to `dest`, if any.
    pub closed spec fn last_message_of(&self, dest: Seq<char>) -> Option<Seq<u8>> {
        lookup(msg_entries(self.last_message@), dest)
    }

    /// A broker with no subscriptions and no messages.
    pub fn new() -> (r: Self)
        ensures
            forall|d: Seq<char>| r.subscribers(d) == Seq::<SubView>::empty(),
            forall|d: Seq<char>| r.last_message_of(d) is None,
    {
        let r = Broker { subs: Vec::new(), last_message: Vec::new() };
        assert(sub_entries(r.subs@) =~= Seq::empty());
        assert(msg_entries(r.last_message@) =~= Seq::empty());
        r
    }

    fn find_dest(&self, dest: &str) -> (r: Option<usize>)
        ensures
            match r {
                Some(i) => i < self.subs@.len() && self.subs@[i as int].0@ == dest@,
                None => lookup(sub_entries(self.subs@), dest@) is None,
            },
    {
        let mut i: usize = 0;
        while i < self.subs.len()
            invariant
                i <= self.subs@.len(),
                forall|j: int| 0 <= j < i ==> sub_entries(self.subs@)[j].0 != dest@,
            decreases self.subs.len() - i,
        {
            if str_eq(self.subs[i].0.as_str(), dest) {
                return Some(i);
            }
            i += 1;
        }
        proof { lemma_lookup(sub_entries(self.subs@), dest@); }
        None
    }

    /// Adds a subscription of connection `conn_id` to `dest`, after the
    /// existing ones.
    pub fn subscribe(&mut self, dest: &str, conn_id: u128, sub_id: &str, ack_mode: AckMode)
        ensures
            forall|d: Seq<char>|
                #[trigger] final(self).subscribers(d) == if d == dest@ {
                    old(self).subscribers(d).push(SubView { conn_id, sub_id: sub_id@, ack_mode })
                } else {
                    old(self).subscribers(d)
                },
            forall|d: Seq<char>| #[trigger] final(self).last_message_of(d) == old(self).last_message_of(d),
    {
        proof { use_type_invariant(&*self); }
        let sub = Subscriber { conn_id, sub_id: sub_id.to_owned(), ack_mode };
        let ghost sv = sub_view(sub);
        let ghost e = sub_entries(self.subs@);
        match self.find_dest(dest) {
            Some(i) => {
                let mut subs: Vec<(String, Vec<Subscriber>)> = Vec::new();
                std::mem::swap(&mut subs, &mut self.subs);
                let (k, mut list) = subs.remove(i);
                let ghost old_list = list@;
                list.push(sub);
                subs.insert(i, (k, list));
                proof {
                    assert(subs_view(old_list.push(sub)) =~= subs_view(old_list).push(sv));
                    assert(sub_entries(subs@) =~= e.update(i as int, (e[i as int].0, subs_view(old_list).push(sv))));
                    lemma_lookup_at(e, i as int);
                    assert forall|d: Seq<char>| #[trigger] lookup(sub_entries(subs@), d) == if d == dest@ {
                        Some(subs_view(old_list).push(sv))
                    } else {
                        lookup(e, d)
                    } by {
                        lemma_lookup_update(e, i as int, subs_view(old_list).push(sv), d);
                    }
                    lemma_lookup_update(e, i as int, subs_view(old_list).push(sv), dest@);
                }
                self.subs = subs;
            },
            None => {
                let mut list: Vec<Subscriber> = Vec::new();
                list.push(sub);
                let mut subs: Vec<(String, Vec<Subscriber>)> = Vec::new();
                std::mem::swap(&mut subs, &mut self.subs);
                subs.push((dest.to_owned(), list));
                proof {
                    assert(subs_view(list@) =~= seq![sv]);
                    assert(sub_entries(subs@) =~= e.push((dest@, seq![sv])));
                    assert forall|d: Seq<char>| #[trigger] lookup(sub_entries(subs@), d) == if d == dest@ {
                        Some(seq![sv])
                    } else {
                        lookup(e, d)
                    } by {
                        lemma_lookup_push(e, dest@, seq![sv], d);
                    }
                    assert forall|a: int, b: int| 0 <= a < b < sub_entries(subs@).len() implies
                        sub_entries(subs@)[a].0 != sub_entries(subs@)[b].0 by {
                        if b == e.len() {
                            lemma_lookup(e, dest@);
                        }
                    }
                    assert(Seq::<SubView>::empty().push(sv) =~= seq![sv]);
                }
                self.subs = subs;
            },
        }
    }
}

/// The subscriptions that are not connection `conn_id`'s subscription `sub_id`.
pub open spec fn other_than_sub(conn_id: u128, sub_id: Seq<char>) -> spec_fn(SubView) -> bool {
    |s: SubView| !(s.conn_id == conn_id && s.sub_id == sub_id)
}

/// The subscriptions that are not connection `conn_id`'s.
pub open spec fn other_than_conn(conn_id: u128) -> spec_fn(SubView) -> bool {
    |s: SubView| s.conn_id != conn_id
}

/// Whether a subscription survives the removal of connection `conn_id`'s
/// subscription `sub_id` (or of all its subscriptions, for `None`).
pub open spec fn kept(s: SubView, conn_id: u128, sub_id: Option<Seq<char>>) -> bool {
    match sub_id {
        Some(id) => !(s.conn_id == conn_id && s.sub_id == id),
        None => s.conn_id != conn_id,
    }
}

/// The list an entry holds (empty when there is no entry).
pub open spec fn entry_list(o: Option<Seq<SubView>>) -> Seq<SubView> {
    match o {
        Some(l) => l,
        None => Seq::empty(),
    }
}

/// What a destination's entry becomes once its list is filtered.
pub open spec fn filtered_entry(o: Option<Seq<SubView>>, p: spec_fn(SubView) -> bool) -> Option<
    Seq<SubView>,
> {
    match o {
        Some(l) => if l.filter(p).len() > 0 {
            Some(l.filter(p))
        } else {
            None
        },
        None => None,
    }
}

fn filter_subscribers(list: &Vec<Subscriber>, conn_id: u128, sub_id: Option<&str>) -> (r: Vec<Subscriber>)
    ensures
        subs_view(r@) == subs_view(list@).filter(|s: SubView| kept(s, conn_id, opt_view(sub_id))),
{
    let ghost p = |s: SubView| kept(s, conn_id, opt_view(sub_id));
    let mut out: Vec<Subscriber> = Vec::new();
    let mut i: usize = 0;
    while i < list.len()
        invariant
            i <= list@.len(),
            p == (|s: SubView| kept(s, conn_id, opt_view(sub_id))),
            subs_view(out@) == subs_view(list@).take(i as int).filter(p),
        decreases list.len() - i,
    {
        let s = &list[i];
        let keep = match sub_id {
            Some(id) => !(s.conn_id == conn_id && str_eq(s.sub_id.as_str(), id)),
            None => s.conn_id != conn_id,
        };
        let ghost t = subs_view(list@).take(i + 1);
        assert(t.drop_last() =~= subs_view(list@).take(i as int));
        assert(t.last() == sub_view(list@[i as int]));
        assert(keep == p(sub_view(list@[i as int])));
        proof { reveal(Seq::filter); }
        if keep {
            let ghost before = out@;
            out.push(Subscriber { conn_id: s.conn_id, sub_id: s.sub_id.clone(), ack_mode: s.ack_mode });
            assert(subs_view(out@) =~= subs_view(before).push(sub_view(list@[i as int])));
        }
        i += 1;
    }
    assert(subs_view(list@).take(list@.len() as int) =~= subs_view(list@));
    proof { reveal(Seq::filter); }
    out
}

impl Broker {
    fn remove_subscriptions(&mut self, conn_id: u128, sub_id: Option<&str>)
        ensures
            forall|d: Seq<char>|
                #[trigger] final(self).subscribers(d) == old(self).subscribers(d).filter(
                    |s: SubView| kept(s, conn_id, opt_view(sub_id)),
                ),
            forall|d: Seq<char>| #[trigger] final(self).last_message_of(d) == old(self).last_message_of(d),
    {
        proof { use_type_invariant(&*self); }
        let ghost p = |s: SubView| kept(s, conn_id, opt_view(sub_id));
        let ghost old_e = sub_entries(self.subs@);
        let mut kept_entries: Vec<(String, Vec<Subscriber>)> = Vec::new();
        let mut i: usize = 0;
        while i < self.subs.len()
            invariant
                i <= self.subs@.len(),
                old_e == sub_entries(self.subs@),
                distinct_keys(old_e),
                p == (|s: SubView| kept(s, conn_id, opt_view(sub_id))),
                distinct_keys(sub_entries(kept_entries@)),
                forall|k: Seq<char>|
                    #[trigger] lookup(sub_entries(kept_entries@), k) == filtered_entry(
                        lookup(old_e.take(i as int), k),
                        p,
                    ),
            decreases self.subs.len() - i,
        {
            let filtered = filter_subscribers(&self.subs[i].1, conn_id, sub_id);
            let ghost ki = old_e[i as int].0;
            let ghost li = old_e[i as int].1;
            proof {
                assert(old_e.take(i + 1) =~= old_e.take(i as int).push((ki, li)));
                assert forall|j: int| 0 <= j < old_e.take(i as int).len() implies old_e.take(
                    i as int,
                )[j].0 != ki by {
                    assert(old_e.take(i as int)[j] == old_e[j]);
                }
                lemma_lookup(old_e.take(i as int), ki);
                assert forall|k: Seq<char>| #[trigger] lookup(old_e.take(i + 1), k) == match lookup(
                    old_e.take(i as int),
                    k,
                ) {
                    Some(x) => Some(x),
                    None => if k == ki {
                        Some(li)
                    } else {
                        None
                    },
                } by {
                    lemma_lookup_push(old_e.take(i as int), ki, li, k);
                }
            }
            if filtered.len() > 0 {
                let ghost before = sub_entries(kept_entries@);
                let key = self.subs[i].0.clone();
                kept_entries.push((key, filtered));
                proof {
                    assert(sub_entries(kept_entries@) =~= before.push((ki, li.filter(p))));
                    assert(lookup(before, ki) is None);
                    lemma_lookup(before, ki);
                    assert forall|k: Seq<char>| #[trigger] lookup(sub_entries(kept_entries@), k)
                        == filtered_entry(lookup(old_e.take(i + 1), k), p) by {
                        lemma_lookup_push(before, ki, li.filter(p), k);
                    }
                    assert forall|a: int, b: int| 0 <= a < b < sub_entries(kept_entries@).len() implies
                        sub_entries(kept_entries@)[a].0 != sub_entries(kept_entries@)[b].0 by {
                        if b == before.len() {
                            assert(sub_entries(kept_entries@)[a] == before[a]);
                        } else {
                            assert(sub_entries(kept_entries@)[a] == before[a]);
                            assert(sub_entries(kept_entries@)[b] == before[b]);
                        }
                    }
                }
            } else {
                proof {
                    assert(li.filter(p).len() == 0);
                    assert forall|k: Seq<char>| #[trigger] lookup(sub_entries(kept_entries@), k)
                        == filtered_entry(lookup(old_e.take(i + 1), k), p) by {}
                }
            }
            i += 1;
        }
        proof {
            assert(old_e.take(old_e.len() as int) =~= old_e);
            assert forall|d: Seq<char>| #[trigger] lookup(sub_entries(kept_entries@), d) == lookup(
                sub_entries(kept_entries@),
                d,
            ) implies entry_list(lookup(sub_entries(kept_entries@), d)) == entry_list(
                lookup(old_e, d),
            ).filter(p) by {
                reveal(Seq::filter);
                assert(Seq::<SubView>::empty().filter(p) =~= Seq::<SubView>::empty());
                match lookup(old_e, d) {
                    Some(l) => {
                        if l.filter(p).len() == 0 {
                            assert(l.filter(p) =~= Seq::<SubView>::empty());
                        }
                    },
                    None => {},
                }
            }
        }
        self.subs = kept_entries;
    }

    /// Removes connection `conn_id`'s subscription `sub_id` from every destination.
    pub fn unsubscribe(&mut self, conn_id: u128, sub_id: &str)
        ensures
            forall|d: Seq<char>|
                #[trigger] final(self).subscribers(d) == old(self).subscribers(d).filter(
                    other_than_sub(conn_id, sub_id@),
                ),
            forall|d: Seq<char>| #[trigger] final(self).last_message_of(d) == old(self).last_message_of(d),
    {
        self.remove_subscriptions(conn_id, Some(sub_id));
        assert forall|d: Seq<char>| #[trigger] final(self).subscribers(d) == old(self).subscribers(d).filter(
            other_than_sub(conn_id, sub_id@),
        ) by {
            assert((|s: SubView| kept(s, conn_id, opt_view(Some(sub_id)))) =~= other_than_sub(
                conn_id,
                sub_id@,
            ));
        }
    }

    /// Removes every subscription of connection `conn_id`.
    pub fn disconnect(&mut self, conn_id: u128)
        ensures
            forall|d: Seq<char>|
                #[trigger] final(self).subscribers(d) == old(self).subscribers(d).filter(
                    other_than_conn(conn_id),
                ),
            forall|d: Seq<char>| #[trigger] final(self).last_message_of(d) == old(self).last_message_of(d),
    {
        self.remove_subscriptions(conn_id, None);
        assert forall|d: Seq<char>| #[trigger] final(self).subscribers(d) == old(self).subscribers(d).filter(
            other_than_conn(conn_id),
        ) by {
            assert((|s: SubView| kept(s, conn_id, opt_view(None))) =~= other_than_conn(conn_id));
        }
    }
}

impl Broker {
    /// Sends `body` to every subscriber of `dest`: one MESSAGE frame per
    /// subscription, in subscription order, each with its own fresh message id
    /// and, for subscribers that acknowledge, a fresh ack id. `extra` headers
    /// (e.g. `content-encoding` for a static payload) follow the content type.
    pub fn publish(
        &self,
        dest: &str,
        content_type: Option<&str>,
        body: &[u8],
        extra: &[(&str, &str)],
    ) -> (r: Vec<Delivery>)
        ensures
            r@.len() == self.subscribers(dest@).len(),
            forall|i: int|
                0 <= i < r@.len() ==> {
                    let sub = self.subscribers(dest@)[i];
                    &&& (#[trigger] r@[i]).conn_id == sub.conn_id
                    &&& exists|m: u128, a: u128|
                        r@[i].frame@ == message_view(
                            dest@,
                            sub,
                            m,
                            a,
                            opt_view(content_type),
                            body@,
                            pairs_view(extra@),
                        )
                },
    {
        let mut out: Vec<Delivery> = Vec::new();
        match self.find_dest(dest) {
            None => {
                return out;
            },
            Some(di) => {
                proof {
                    use_type_invariant(self);
                    assert(sub_entries(self.subs@)[di as int].0 == dest@);
                    lemma_lookup_at(sub_entries(self.subs@), di as int);
                }
                let list = &self.subs[di].1;
                let ghost subs = self.subscribers(dest@);
                assert(subs == subs_view(list@));
                let mut i: usize = 0;
                while i < list.len()
                    invariant
                        i <= list@.len(),
                        subs == subs_view(list@),
                        out@.len() == i,
                        forall|j: int|
                            0 <= j < i ==> {
                                let sub = subs[j];
                                &&& (#[trigger] out@[j]).conn_id == sub.conn_id
                                &&& exists|m: u128, a: u128|
                                    out@[j].frame@ == message_view(
                                        dest@,
                                        sub,
                                        m,
                                        a,
                                        opt_view(content_type),
                                        body@,
                                        pairs_view(extra@),
                                    )
                            },
                    decreases list.len() - i,
                {
                    let sub = &list[i];
                    let m = new_id();
                    let message_id = id_to_string(m);
                    let a = new_id();
                    let ack_text = id_to_string(a);
                    let ack = if sub.ack_mode != AckMode::Auto {
                        Some(ack_text.as_str())
                    } else {
                        None
                    };
                    let frame = message_frame(
                        dest,
                        sub.sub_id.as_str(),
                        message_id.as_str(),
                        content_type,
                        body,
                        extra,
                        ack,
                    );
                    assert(frame@ == message_view(
                        dest@,
                        subs[i as int],
                        m,
                        a,
                        opt_view(content_type),
                        body@,
                        pairs_view(extra@),
                    ));
                    out.push(Delivery { conn_id: sub.conn_id, frame });
                    i += 1;
                }
                out
            },
        }
    }

    fn find_message(&self, dest: &str) -> (r: Option<usize>)
        ensures
            match r {
                Some(i) => i < self.last_message@.len() && self.last_message@[i as int].0@ == dest@,
                None => lookup(msg_entries(self.last_message@), dest@) is None,
            },
    {
        let mut i: usize = 0;
        while i < self.last_message.len()
            invariant
                i <= self.last_message@.len(),
                forall|j: int| 0 <= j < i ==> msg_entries(self.last_message@)[j].0 != dest@,
            decreases self.last_message.len() - i,
        {
            if str_eq(self.last_message[i].0.as_str(), dest) {
                return Some(i);
            }
            i += 1;
        }
        proof { lemma_lookup(msg_entries(self.last_message@), dest@); }
        None
    }

    /// Records `body` as the most recent message sent to `dest`.
    pub fn record_last_message(&mut self, dest: &str, body: &[u8])
        ensures
            forall|d: Seq<char>|
                #[trigger] final(self).last_message_of(d) == if d == dest@ {
                    Some(body@)
                } else {
                    old(self).last_message_of(d)
                },
            forall|d: Seq<char>| #[trigger] final(self).subscribers(d) == old(self).subscribers(d),
    {
        proof { use_type_invariant(&*self); }
        let ghost e = msg_entries(self.last_message@);
        let copy = vstd::slice::slice_to_vec(body);
        match self.find_message(dest) {
            Some(i) => {
                let mut msgs: Vec<(String, Vec<u8>)> = Vec::new();
                std::mem::swap(&mut msgs, &mut self.last_message);
                let (k, _) = msgs.remove(i);
                msgs.insert(i, (k, copy));
                proof {
                    assert(msg_entries(msgs@) =~= e.update(i as int, (e[i as int].0, body@)));
                    assert forall|d: Seq<char>| #[trigger] lookup(msg_entries(msgs@), d) == if d == dest@ {
                        Some(body@)
                    } else {
                        lookup(e, d)
                    } by {
                        lemma_lookup_update(e, i as int, body@, d);
                    }
                    lemma_lookup_update(e, i as int, body@, dest@);
                }
                self.last_message = msgs;
            },
            None => {
                let mut msgs: Vec<(String, Vec<u8>)> = Vec::new();
                std::mem::swap(&mut msgs, &mut self.last_message);
                msgs.push((dest.to_owned(), copy));
                proof {
                    assert(msg_entries(msgs@) =~= e.push((dest@, body@)));
                    assert forall|d: Seq<char>| #[trigger] lookup(msg_entries(msgs@), d) == if d == dest@ {
                        Some(body@)
                    } else {
                        lookup(e, d)
                    } by {
                        lemma_lookup_push(e, dest@, body@, d);
                    }
                    assert forall|a: int, b: int| 0 <= a < b < msg_entries(msgs@).len() implies
                        msg_entries(msgs@)[a].0 != msg_entries(msgs@)[b].0 by {
                        if b == e.len() {
                            lemma_lookup(e, dest@);
                        }
                    }
                }
                self.last_message = msgs;
            },
        }
    }

    /// The most recent body sent to `dest`, if any.
    pub fn last_message(&self, dest: &str) -> (r: Option<Vec<u8>>)
        ensures
            match self.last_message_of(dest@) {
                Some(b) => r matches Some(v) && v@ == b,
                None => r is None,
            },
    {
        proof { use_type_invariant(self); }
        match self.find_message(dest) {
            Some(i) => {
                proof { lemma_lookup_at(msg_entries(self.last_message@), i as int); }
                Some(vstd::slice::slice_to_vec(self.last_message[i].1.as_slice()))
            },
            None => None,
        }
    }
}

/// Connection `conn_id` has a subscription `sub_id` to some destination.
pub open spec fn has_subscription(b: Broker, conn_id: u128, sub_id: Seq<char>) -> bool {
    exists|d: Seq<char>, i: int|
        0 <= i < b.subscribers(d).len() && (#[trigger] b.subscribers(d)[i]).conn_id == conn_id
            && b.subscribers(d)[i].sub_id == sub_id
}

/// Connection `conn_id` has some subscription.
pub open spec fn has_any_subscription(b: Broker, conn_id: u128) -> bool {
    exists|d: Seq<char>, i: int|
        0 <= i < b.subscribers(d).len() && (#[trigger] b.subscribers(d)[i]).conn_id == conn_id
}

proof fn lemma_filter_keeps_all(s: Seq<SubView>, p: spec_fn(SubView) -> bool)
    requires
        forall|i: int| 0 <= i < s.len() ==> p(#[trigger] s[i]),
    ensures
        s.filter(p) == s,
    decreases s.len(),
{
    if s.len() == 0 {
        s.lemma_filter_len(p);
        assert(s.filter(p) =~= s);
    } else {
        let init = s.drop_last();
        lemma_filter_keeps_all(init, p);
        init.lemma_filter_push(s.last(), p);
        assert(init.push(s.last()) =~= s);
    }
}

/// Unsubscribing undoes subscribing: when connection `sub.conn_id` had no
/// subscription `sub.sub_id`, subscribing it to `dest` (from `b0` to `b1`)
/// and then unsubscribing it (from `b1` to `b2`) leaves every destination's
/// subscriptions as they were in `b0`.
pub proof fn lemma_unsubscribe_undoes_subscribe(b0: Broker, b1: Broker, b2: Broker, dest: Seq<char>, sub: SubView)
    requires
        !has_subscription(b0, sub.conn_id, sub.sub_id),
        forall|d: Seq<char>|
            #[trigger] b1.subscribers(d) == if d == dest {
                b0.subscribers(d).push(sub)
            } else {
                b0.subscribers(d)
            },
        forall|d: Seq<char>|
            #[trigger] b2.subscribers(d) == b1.subscribers(d).filter(other_than_sub(sub.conn_id, sub.sub_id)),
    ensures
        forall|d: Seq<char>| #[trigger] b2.subscribers(d) == b0.subscribers(d),
{
    let p = other_than_sub(sub.conn_id, sub.sub_id);
    assert forall|d: Seq<char>| #[trigger] b2.subscribers(d) == b0.subscribers(d) by {
        let l = b0.subscribers(d);
        assert forall|i: int| 0 <= i < l.len() implies p(#[trigger] l[i]) by {
            if !p(l[i]) {
                assert(b0.subscribers(d)[i].conn_id == sub.conn_id);
                assert(has_subscription(b0, sub.conn_id, sub.sub_id));
            }
        }
        lemma_filter_keeps_all(l, p);
        if d == dest {
            l.lemma_filter_push(sub, p);
        }
    }
}

/// Once a connection is disconnected (from `b0` to `b1`), none of its
/// subscriptions remain, and every other connection keeps all of its own.
pub proof fn lemma_disconnect_removes_connection(b0: Broker, b1: Broker, conn_id: u128)
    requires
        forall|d: Seq<char>|
            #[trigger] b1.subscribers(d) == b0.subscribers(d).filter(other_than_conn(conn_id)),
    ensures
        !has_any_subscription(b1, conn_id),
        forall|c: u128, s: Seq<char>| c != conn_id ==> (has_subscription(b1, c, s) <==> has_subscription(b0, c, s)),
{
    let p = other_than_conn(conn_id);
    if has_any_subscription(b1, conn_id) {
        let (d, i) = choose|d: Seq<char>, i: int|
            0 <= i < b1.subscribers(d).len() && (#[trigger] b1.subscribers(d)[i]).conn_id == conn_id;
        b0.subscribers(d).lemma_filter_pred(p, i);
    }
    assert forall|c: u128, s: Seq<char>| c != conn_id implies (has_subscription(b1, c, s) <==> has_subscription(b0, c, s)) by {
        if has_subscription(b1, c, s) {
            let (d, i) = choose|d: Seq<char>, i: int|
                0 <= i < b1.subscribers(d).len() && (#[trigger] b1.subscribers(d)[i]).conn_id == c
                    && b1.subscribers(d)[i].sub_id == s;
            b0.subscribers(d).lemma_filter_contains_rev(p, b1.subscribers(d)[i]);
            b0.subscribers(d).lemma_filter_pred(p, i);
            assert(b0.subscribers(d).filter(p).contains(b1.subscribers(d)[i]));
            let j = choose|j: int| 0 <= j < b0.subscribers(d).len() && b0.subscribers(d)[j] == b1.subscribers(d)[i];
            assert(b0.subscribers(d)[j].conn_id == c);
        }
        if has_subscription(b0, c, s) {
            let (d, i) = choose|d: Seq<char>, i: int|
                0 <= i < b0.subscribers(d).len() && (#[trigger] b0.subscribers(d)[i]).conn_id == c
                    && b0.subscribers(d)[i].sub_id == s;
            let x = b0.subscribers(d)[i];
            assert(p(x));
            b0.subscribers(d).lemma_filter_contains(p, i);
            let j = choose|j: int| 0 <= j < b1.subscribers(d).len() && b1.subscribers(d)[j] == x;
            assert(b1.subscribers(d)[j].conn_id == c);
        }
    }
}

/// The subscriptions of connection `conn_id`.
pub open spec fn of_conn(conn_id: u128) -> spec_fn(SubView) -> bool {
    |s: SubView| s.conn_id == conn_id
}

/// Filtering by a weaker test first changes nothing.
proof fn lemma_filter_twice(s: Seq<SubView>, p: spec_fn(SubView) -> bool, q: spec_fn(SubView) -> bool)
    requires
        forall|x: SubView| #[trigger] q(x) ==> p(x),
    ensures
        s.filter(p).filter(q) == s.filter(q),
    decreases s.len(),
{
    if s.len() == 0 {
        s.lemma_filter_len(p);
        s.lemma_filter_len(q);
        assert(s.filter(p) =~= s);
        assert(s.filter(q) =~= s);
    } else {
        let init = s.drop_last();
        let x = s.last();
        lemma_filter_twice(init, p, q);
        assert(init.push(x) =~= s);
        init.lemma_filter_push(x, p);
        init.lemma_filter_push(x, q);
        if p(x) {
            init.filter(p).lemma_filter_push(x, q);
        }
    }
}

/// Unsubscribing leaves every other connection alone: after connection
/// `conn_id` unsubscribes `sub_id` (from `b0` to `b1`), each other
/// connection has the same subscriptions, in the same order, on every
/// destination.
pub proof fn lemma_unsubscribe_keeps_other_connections(
    b0: Broker,
    b1: Broker,
    conn_id: u128,
    sub_id: Seq<char>,
    other: u128,
)
    requires
        other != conn_id,
        forall|d: Seq<char>|
            #[trigger] b1.subscribers(d) == b0.subscribers(d).filter(other_than_sub(conn_id, sub_id)),
    ensures
        forall|d: Seq<char>|
            #[trigger] b1.subscribers(d).filter(of_conn(other)) == b0.subscribers(d).filter(
                of_conn(other),
            ),
{
    assert forall|d: Seq<char>|
        #[trigger] b1.subscribers(d).filter(of_conn(other)) == b0.subscribers(d).filter(
            of_conn(other),
        ) by {
        lemma_filter_twice(b0.subscribers(d), other_than_sub(conn_id, sub_id), of_conn(other));
    }
}

/// Disconnecting leaves every other connection alone: after connection
/// `conn_id` is disconnected (from `b0` to `b1`), each other connection has
/// the same subscriptions, in the same order, on every destination.
pub proof fn lemma_disconnect_keeps_other_connections(b0: Broker, b1: Broker, conn_id: u128, other: u128)
    requires
        other != conn_id,
        forall|d: Seq<char>|
            #[trigger] b1.subscribers(d) == b0.subscribers(d).filter(other_than_conn(conn_id)),
    ensures
        forall|d: Seq<char>|
            #[trigger] b1.subscribers(d).filter(of_conn(other)) == b0.subscribers(d).filter(
                of_conn(other),
            ),
{
    assert forall|d: Seq<char>|
        #[trigger] b1.subscribers(d).filter(of_conn(other)) == b0.subscribers(d).filter(
            of_conn(other),
        ) by {
        lemma_filter_twice(b0.subscribers(d), other_than_conn(conn_id), of_conn(other));
    }
}

} // verus!
