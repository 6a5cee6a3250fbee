//! The streaming overlay: the session handshake, heartbeat replies,
//! publishing, subscriptions and acknowledgements, each turned into the
//! subject and envelope bytes to hand to the core client.
use vstd::prelude::*;
use crate::delivery::msg_proto_wire;
use crate::error::RatsioError;
use crate::nats_client::{NatsSid, bytes_eq};
use crate::nuid::{Nuid, digit_char, id_of, INC_SPAN, MAX_SEQ, MIN_INC, PREFIX_LEN};
use crate::ops::append_bytes;
use crate::parser::copy_all;
use crate::protocol::{
    Ack, CloseRequest, ConnectRequest, ConnectResponse, MsgProto, PubMsg, SubscriptionRequest,
    SubscriptionResponse, UnsubscribeRequest, ack_wire, close_request_wire, connect_request_wire,
    pub_msg_wire, subscription_target_wire, subscription_options_wire, unsubscribe_request_wire,
    connect_response_wire, subscription_response_wire,
};

verus! {

/// Default number of unacknowledged messages in flight per subscription.
pub const DEFAULT_MAX_INFLIGHT: i32 = 1024;

/// Default seconds before the server redelivers an unacknowledged message.
pub const DEFAULT_ACK_WAIT: i32 = 30;

/// Where in the server's log a subscription starts.
#[derive(Debug, Clone, Copy, PartialEq, Eq, Structural)]
pub enum StartPosition {
    /// Only messages published after the subscription is registered.
    NewOnly,
    /// The most recent message.
    LastReceived,
    /// Messages from a time delta ago.
    TimeDeltaStart,
    /// Messages from a sequence number on.
    SequenceStart,
    /// Every message in the log.
    First,
}

/// The code of a start position on the wire.
pub open spec fn start_position_code(p: StartPosition) -> i32 {
    match p {
        StartPosition::NewOnly => 0,
        StartPosition::LastReceived => 1,
        StartPosition::TimeDeltaStart => 2,
        StartPosition::SequenceStart => 3,
        StartPosition::First => 4,
    }
}

/// The code of a start position on the wire.
pub fn start_position_value(p: StartPosition) -> (r: i32)
    ensures
        r == start_position_code(p),
{
    match p {
        StartPosition::NewOnly => 0,
        StartPosition::LastReceived => 1,
        StartPosition::TimeDeltaStart => 2,
        StartPosition::SequenceStart => 3,
        StartPosition::First => 4,
    }
}

/// The bytes `_STAN.discover`, the default discovery prefix.
pub open spec fn discover_prefix() -> Seq<u8> {
    seq![95u8, 83u8, 84u8, 65u8, 78u8, 46u8, 100u8, 105u8, 115u8, 99u8, 111u8, 118u8, 101u8, 114u8]
}

/// The bytes `_HB`.
pub open spec fn heartbeat_prefix() -> Seq<u8> {
    seq![95u8, 72u8, 66u8]
}

/// The bytes `_SUB`.
pub open spec fn inbox_prefix() -> Seq<u8> {
    seq![95u8, 83u8, 85u8, 66u8]
}

/// `a.b`.
pub open spec fn dotted(a: Seq<u8>, b: Seq<u8>) -> Seq<u8> {
    a + seq![46u8] + b
}

/// `a.b`.
pub fn join_dot(a: &[u8], b: &[u8]) -> (r: Vec<u8>)
    ensures
        r@ == dotted(a@, b@),
{
    let mut out: Vec<u8> = Vec::new();
    append_bytes(&mut out, a);
    out.push(46u8);
    append_bytes(&mut out, b);
    assert(out@ =~= dotted(a@, b@));
    out
}

/// The default discovery prefix `_STAN.discover`.
pub fn default_discover_prefix() -> (r: Vec<u8>)
    ensures
        r@ == discover_prefix(),
{
    let v = vec![95u8, 83u8, 84u8, 65u8, 78u8, 46u8, 100u8, 105u8, 115u8, 99u8, 111u8, 118u8, 101u8, 114u8];
    assert(v@ =~= discover_prefix());
    v
}

/// The subject `<prefix>.<cluster_id>` on which a session with cluster
/// `cluster_id` is opened.
pub fn discover_subject(prefix: &[u8], cluster_id: &[u8]) -> (r: Vec<u8>)
    ensures
        r@ == dotted(prefix@, cluster_id@),
{
    join_dot(prefix, cluster_id)
}

/// The heartbeat inbox named by identifier `id`.
pub fn heartbeat_inbox_for(id: &[u8]) -> (r: Vec<u8>)
    ensures
        r@ == dotted(heartbeat_prefix(), id@),
{
    let p = vec![95u8, 72u8, 66u8];
    assert(p@ =~= heartbeat_prefix());
    join_dot(p.as_slice(), id)
}

/// The per-subscription inbox named by identifier `id`.
pub fn subscription_inbox_for(id: &[u8]) -> (r: Vec<u8>)
    ensures
        r@ == dotted(inbox_prefix(), id@),
{
    let p = vec![95u8, 83u8, 85u8, 66u8];
    assert(p@ =~= inbox_prefix());
    join_dot(p.as_slice(), id)
}

/// A name for the SHA-256 digest of some bytes.
pub uninterp spec fn sha256_of(data: Seq<u8>) -> Seq<u8>;

/// Relies on sha2's `Sha256::digest`: the SHA-256 digest of the data, which
/// is 32 bytes long.
#[verifier::external_body]
fn sha256(data: &[u8]) -> (r: Vec<u8>)
    ensures
        r@ == sha256_of(data@),
        r@.len() == 32,
{
    <sha2::Sha256 as sha2::Digest>::digest(data).to_vec()
}

/// The inboxes that the server assigned to a session.
pub struct ClientInfo {
    pub pub_prefix: Vec<u8>,
    pub sub_requests: Vec<u8>,
    pub unsub_requests: Vec<u8>,
    pub close_requests: Vec<u8>,
}

impl ClientInfo {
    /// The session inboxes of a connect response.
    pub fn from_response(r: ConnectResponse) -> (c: ClientInfo)
        ensures
            c.pub_prefix == r.pub_prefix,
            c.sub_requests == r.sub_requests,
            c.unsub_requests == r.unsub_requests,
            c.close_requests == r.close_requests,
    {
        ClientInfo {
            pub_prefix: r.pub_prefix,
            sub_requests: r.sub_requests,
            unsub_requests: r.unsub_requests,
            close_requests: r.close_requests,
        }
    }
}

/// A streaming subscription id: the id of the core subscription on its inbox.
#[derive(Debug)]
pub struct StanSid(pub NatsSid);

/// A message delivered on a streaming subscription.
pub struct StanMessage {
    pub subject: Vec<u8>,
    pub reply_to: Option<Vec<u8>>,
    pub payload: Vec<u8>,
    pub timestamp: i64,
    pub sequence: u64,
    pub redelivered: bool,
    /// Where acknowledgements of this message go.
    pub ack_inbox: Option<Vec<u8>>,
    /// The message is acknowledged by the library, not by the caller.
    pub auto_ack: bool,
}

/// A registered streaming subscription.
pub struct StanSubscription {
    pub sid: Vec<u8>,
    pub subject: Vec<u8>,
    pub durable_name: Vec<u8>,
    pub inbox: Vec<u8>,
}

/// A session being opened: the identifiers minted for it and the client
/// hello to send to the discovery subject.
pub struct StanHandshake {
    pub client_id: Vec<u8>,
    pub conn_id: Vec<u8>,
    pub heartbeat_inbox: Vec<u8>,
    pub discover_subject: Vec<u8>,
    pub request: Vec<u8>,
    pub ids: Nuid,
}

/// A subject and the envelope bytes to publish on it.
pub struct Outgoing {
    pub subject: Vec<u8>,
    pub payload: Vec<u8>,
}

/// The verified state of a streaming client.
pub struct StanClient {
    client_id: Vec<u8>,
    conn_id: Vec<u8>,
    heartbeat_inbox: Vec<u8>,
    client_info: ClientInfo,
    ids: Nuid,
    subscriptions: Vec<StanSubscription>,
}

fn clone_bytes(v: &Vec<u8>) -> (r: Vec<u8>)
    ensures
        r@ == v@,
{
    copy_all(v.as_slice())
}

/// `Some(v)` for non-empty `v`, `None` for an empty one.
pub open spec fn non_empty_opt(v: Seq<u8>) -> Option<Seq<u8>> {
    if v.len() == 0 {
        None
    } else {
        Some(v)
    }
}

pub open spec fn opt_bytes(o: Option<Vec<u8>>) -> Option<Seq<u8>> {
    match o {
        Some(v) => Some(v@),
        None => None,
    }
}

/// The value of an optional field on the wire: empty where it is absent.
pub open spec fn or_empty(o: Option<Vec<u8>>) -> Seq<u8> {
    match o {
        Some(v) => v@,
        None => seq![],
    }
}

fn unwrap_or_empty(o: Option<Vec<u8>>) -> (r: Vec<u8>)
    ensures
        r@ == or_empty(o),
{
    match o {
        Some(v) => v,
        None => Vec::new(),
    }
}

impl StanHandshake {
    /// Opens a session for `client_id` on cluster `cluster_id`: mints a
    /// connection id and a heartbeat inbox `_HB.<id>` from `ids`, and builds
    /// the client hello for the discovery subject `<discover_prefix>.<cluster>`.
    /// Fails when the generator has run out of identifiers.
    pub fn new(client_id: Vec<u8>, discover_prefix: &[u8], cluster_id: &[u8], ids: Nuid) -> (r: Result<
        StanHandshake,
        RatsioError,
    >)
        requires
            ids.wf(),
        ensures
            ids.seq() + 2 * ids.inc() < MAX_SEQ <==> r is Ok,
            r matches Err(e) ==> e == RatsioError::IdentifiersExhausted,
            r matches Ok(h) ==> {
                &&& h.ids.wf()
                &&& h.ids.prefix() == ids.prefix()
                &&& h.ids.seq() == ids.seq() + 2 * ids.inc()
                &&& h.client_id@ == client_id@
                &&& h.conn_id@ == id_of(ids.prefix(), ids.seq() + ids.inc())
                &&& h.heartbeat_inbox@ == dotted(heartbeat_prefix(), id_of(ids.prefix(), h.ids.seq()))
                &&& h.discover_subject@ == dotted(discover_prefix@, cluster_id@)
                &&& h.request@ == connect_request_wire(h.client_id@, h.heartbeat_inbox@, h.conn_id@)
            },
    {
        let mut ids = ids;
        let conn_id = match ids.next() {
            Some(id) => id,
            None => {
                return Err(RatsioError::IdentifiersExhausted);
            },
        };
        let hb = match ids.next() {
            Some(id) => id,
            None => {
                return Err(RatsioError::IdentifiersExhausted);
            },
        };
        let heartbeat_inbox = heartbeat_inbox_for(hb.as_slice());
        let req = ConnectRequest {
            client_id: clone_bytes(&client_id),
            heartbeat_inbox: clone_bytes(&heartbeat_inbox),
            conn_id: clone_bytes(&conn_id),
        };
        let request = req.encode();
        Ok(StanHandshake {
            client_id,
            conn_id,
            heartbeat_inbox,
            discover_subject: discover_subject(discover_prefix, cluster_id),
            request,
            ids,
        })
    }

    /// Completes the session with the server's answer to the client hello.
    /// Fails with a decode error on a malformed answer and with an internal
    /// server error where the answer carries an error.
    pub fn finish(self, response: &[u8]) -> (r: Result<StanClient, RatsioError>)
        requires
            self.ids.wf(),
        ensures
            r matches Ok(c) ==> {
                &&& c.wf()
                &&& c.client_id() == self.client_id@
                &&& c.conn_id() == self.conn_id@
                &&& c.heartbeat_inbox() == self.heartbeat_inbox@
                &&& c.ids() == self.ids
                &&& c.subs().len() == 0
            },
            r matches Err(e) ==> e == RatsioError::ProtocolDecodeError || e
                == RatsioError::InternalServerError,
            forall|c1: Seq<u8>, c2: Seq<u8>, c3: Seq<u8>, c4: Seq<u8>, c5: Seq<u8>| #[trigger]
                connect_response_wire(c1, c2, c3, c4, c5) == response@ ==> {
                    &&& c5.len() > 0 ==> r == Err::<StanClient, _>(RatsioError::InternalServerError)
                    &&& c5.len() == 0 ==> (r matches Ok(c) && c.pub_prefix() == c1 && c.sub_requests()
                        == c2 && c.unsub_requests() == c3 && c.close_requests() == c4)
                },
    {
        let resp = match ConnectResponse::decode(response) {
            Some(r) => r,
            None => {
                return Err(RatsioError::ProtocolDecodeError);
            },
        };
        if resp.error.len() > 0 {
            return Err(RatsioError::InternalServerError);
        }
        let c = StanClient {
            client_id: self.client_id,
            conn_id: self.conn_id,
            heartbeat_inbox: self.heartbeat_inbox,
            client_info: ClientInfo::from_response(resp),
            ids: self.ids,
            subscriptions: Vec::new(),
        };
        assert(c.subs().len() == 0);
        Ok(c)
    }
}

impl StanClient {
    pub closed spec fn client_id(&self) -> Seq<u8> {
        self.client_id@
    }

    pub closed spec fn conn_id(&self) -> Seq<u8> {
        self.conn_id@
    }

    pub closed spec fn heartbeat_inbox(&self) -> Seq<u8> {
        self.heartbeat_inbox@
    }

    pub closed spec fn pub_prefix(&self) -> Seq<u8> {
        self.client_info.pub_prefix@
    }

    pub closed spec fn sub_requests(&self) -> Seq<u8> {
        self.client_info.sub_requests@
    }

    pub closed spec fn unsub_requests(&self) -> Seq<u8> {
        self.client_info.unsub_requests@
    }

    pub closed spec fn close_requests(&self) -> Seq<u8> {
        self.client_info.close_requests@
    }

    pub closed spec fn ids(&self) -> Nuid {
        self.ids
    }

    /// The registered subscriptions, in the order of subscription.
    pub closed spec fn subs(&self) -> Seq<StanSubscription> {
        self.subscriptions@
    }

    pub open spec fn wf(&self) -> bool {
        self.ids().wf()
    }

    /// The identifier that the next successful mint returns.
    pub open spec fn next_id(&self) -> Seq<u8> {
        id_of(self.ids().prefix(), self.ids().seq() + self.ids().inc())
    }

    /// The generator has a next identifier.
    pub open spec fn can_mint(&self) -> bool {
        self.ids().seq() + self.ids().inc() < MAX_SEQ
    }

    /// The publication of `data` on `subject` with optional reply subject,
    /// given the message guid and the payload's SHA-256 digest: a PubMsg
    /// with this client's ids, published on `<pub_prefix>.<subject>`.
    pub fn build_publish(
        &self,
        subject: &[u8],
        reply_to: Option<Vec<u8>>,
        data: &[u8],
        guid: Vec<u8>,
        digest: Vec<u8>,
    ) -> (r: Outgoing)
        ensures
            r.subject@ == dotted(self.pub_prefix(), subject@),
            r.payload@ == pub_msg_wire(
                self.client_id(),
                guid@,
                subject@,
                or_empty(reply_to),
                data@,
                self.conn_id(),
                digest@,
            ),
    {
        let m = PubMsg {
            client_id: clone_bytes(&self.client_id),
            guid,
            subject: copy_all(subject),
            reply: unwrap_or_empty(reply_to),
            data: copy_all(data),
            conn_id: clone_bytes(&self.conn_id),
            sha256: digest,
        };
        let payload = m.encode();
        assert(payload@ == crate::protocol::pub_msg_bytes(m));
        Outgoing { subject: join_dot(self.client_info.pub_prefix.as_slice(), subject), payload }
    }
}

impl StanClient {
    /// Publishes `data` on `subject`, with an optional reply subject: mints
    /// a guid, digests the payload with SHA-256, and returns the PubMsg
    /// envelope with its subject `<pub_prefix>.<subject>`. Fails when the
    /// generator has run out of identifiers.
    pub fn send_inner(&mut self, subject: &[u8], reply_to: Option<Vec<u8>>, data: &[u8]) -> (r:
        Result<Outgoing, RatsioError>)
        requires
            old(self).wf(),
        ensures
            final(self).wf(),
            final(self).client_id() == old(self).client_id(),
            final(self).conn_id() == old(self).conn_id(),
            final(self).heartbeat_inbox() == old(self).heartbeat_inbox(),
            final(self).pub_prefix() == old(self).pub_prefix(),
            final(self).subs() == old(self).subs(),
            final(self).ids().prefix() == old(self).ids().prefix(),
            r is Ok <==> old(self).can_mint(),
            r matches Err(e) ==> e == RatsioError::IdentifiersExhausted,
            r matches Ok(out) ==> {
                &&& out.subject@ == dotted(old(self).pub_prefix(), subject@)
                &&& out.payload@ == pub_msg_wire(
                    old(self).client_id(),
                    old(self).next_id(),
                    subject@,
                    or_empty(reply_to),
                    data@,
                    old(self).conn_id(),
                    sha256_of(data@),
                )
                &&& final(self).ids().seq() == old(self).ids().seq() + old(self).ids().inc()
                &&& sha256_of(data@).len() == 32
            },
    {
        let guid = match self.ids.next() {
            Some(g) => g,
            None => {
                return Err(RatsioError::IdentifiersExhausted);
            },
        };
        let digest = sha256(data);
        Ok(self.build_publish(subject, reply_to, data, guid, digest))
    }

    /// Publishes `data` on `subject`, as `send_inner` does without a reply
    /// subject.
    pub fn publish(&mut self, subject: &[u8], data: &[u8]) -> (r: Result<Outgoing, RatsioError>)
        requires
            old(self).wf(),
        ensures
            final(self).wf(),
            final(self).subs() == old(self).subs(),
            r is Ok <==> old(self).can_mint(),
            r matches Ok(out) ==> {
                &&& out.subject@ == dotted(old(self).pub_prefix(), subject@)
                &&& out.payload@ == pub_msg_wire(
                    old(self).client_id(),
                    old(self).next_id(),
                    subject@,
                    seq![],
                    data@,
                    old(self).conn_id(),
                    sha256_of(data@),
                )
                &&& sha256_of(data@).len() == 32
            },
    {
        self.send_inner(subject, None, data)
    }

    /// Publishes `data` on `subject` with reply subject `reply_to`, as
    /// `send_inner` does.
    pub fn send_with_reply(&mut self, subject: &[u8], reply_to: Vec<u8>, data: &[u8]) -> (r:
        Result<Outgoing, RatsioError>)
        requires
            old(self).wf(),
        ensures
            final(self).wf(),
            final(self).subs() == old(self).subs(),
            r is Ok <==> old(self).can_mint(),
            r matches Ok(out) ==> {
                &&& out.subject@ == dotted(old(self).pub_prefix(), subject@)
                &&& out.payload@ == pub_msg_wire(
                    old(self).client_id(),
                    old(self).next_id(),
                    subject@,
                    reply_to@,
                    data@,
                    old(self).conn_id(),
                    sha256_of(data@),
                )
                &&& sha256_of(data@).len() == 32
            },
    {
        self.send_inner(subject, Some(reply_to), data)
    }

    /// Answers a message on the heartbeat inbox. Where it carries a reply
    /// subject, returns one PubMsg for that subject, with this client's ids,
    /// the heartbeat inbox as subject and a fresh guid; without a reply
    /// subject, or when no guid can be minted, there is nothing to send.
    pub fn process_heartbeat(&mut self, reply_to: Option<Vec<u8>>) -> (r: Option<Outgoing>)
        requires
            old(self).wf(),
        ensures
            final(self).wf(),
            final(self).client_id() == old(self).client_id(),
            final(self).conn_id() == old(self).conn_id(),
            final(self).heartbeat_inbox() == old(self).heartbeat_inbox(),
            final(self).subs() == old(self).subs(),
            r is Some <==> reply_to is Some && old(self).can_mint(),
            r matches Some(out) ==> {
                &&& out.subject@ == reply_to->0@
                &&& out.payload@ == pub_msg_wire(
                    old(self).client_id(),
                    old(self).next_id(),
                    old(self).heartbeat_inbox(),
                    seq![],
                    seq![],
                    old(self).conn_id(),
                    seq![],
                )
            },
    {
        let reply = match reply_to {
            Some(r) => r,
            None => {
                return None;
            },
        };
        let guid = match self.ids.next() {
            Some(g) => g,
            None => {
                return None;
            },
        };
        let m = PubMsg {
            client_id: clone_bytes(&self.client_id),
            guid,
            subject: clone_bytes(&self.heartbeat_inbox),
            reply: Vec::new(),
            data: Vec::new(),
            conn_id: clone_bytes(&self.conn_id),
            sha256: Vec::new(),
        };
        Some(Outgoing { subject: reply, payload: m.encode() })
    }

    /// Prepares a streaming subscription: mints its inbox `_SUB.<id>` and
    /// returns the inbox with the subscription request, addressed to the
    /// session's subscription-request inbox. An absent queue group, durable
    /// name or time delta goes on the wire as its default.
    pub fn subscription_request(
        &mut self,
        subject: &[u8],
        queue_group: Option<Vec<u8>>,
        durable_name: Option<Vec<u8>>,
        max_in_flight: i32,
        ack_wait_in_secs: i32,
        start_position: StartPosition,
        start_sequence: u64,
        start_time_delta: Option<i32>,
    ) -> (r: Result<(Vec<u8>, Outgoing), RatsioError>)
        requires
            old(self).wf(),
        ensures
            final(self).wf(),
            final(self).client_id() == old(self).client_id(),
            final(self).sub_requests() == old(self).sub_requests(),
            final(self).subs() == old(self).subs(),
            r is Ok <==> old(self).can_mint(),
            r matches Ok((inbox, out)) ==> {
                &&& inbox@ == dotted(inbox_prefix(), old(self).next_id())
                &&& out.subject@ == old(self).sub_requests()
                &&& out.payload@ == subscription_target_wire(
                    old(self).client_id(),
                    subject@,
                    or_empty(queue_group),
                    inbox@,
                ) + subscription_options_wire(
                    max_in_flight,
                    ack_wait_in_secs,
                    or_empty(durable_name),
                    start_position_code(start_position),
                    start_sequence,
                    match start_time_delta {
                        Some(d) => d as i64,
                        None => 0,
                    },
                )
            },
    {
        let id = match self.ids.next() {
            Some(g) => g,
            None => {
                return Err(RatsioError::IdentifiersExhausted);
            },
        };
        let inbox = subscription_inbox_for(id.as_slice());
        let delta: i64 = match start_time_delta {
            Some(d) => d as i64,
            None => 0,
        };
        let req = SubscriptionRequest {
            client_id: clone_bytes(&self.client_id),
            subject: copy_all(subject),
            q_group: unwrap_or_empty(queue_group),
            inbox: clone_bytes(&inbox),
            max_in_flight,
            ack_wait_in_secs,
            durable_name: unwrap_or_empty(durable_name),
            start_position: start_position_value(start_position),
            start_sequence,
            start_time_delta: delta,
        };
        let payload = req.encode();
        assert(payload@ == crate::protocol::subscription_request_bytes(req));
        Ok((inbox, Outgoing { subject: clone_bytes(&self.client_info.sub_requests), payload }))
    }

    /// Completes a streaming subscription with the server's answer: on
    /// success the subscription, under the id of the core subscription on
    /// its inbox, is registered and the ack inbox is returned. A malformed
    /// answer gives a decode error and an answer with an error an internal
    /// server error; neither registers anything.
    pub fn subscription_accepted(
        &mut self,
        sid: &NatsSid,
        subject: &[u8],
        durable_name: Option<Vec<u8>>,
        inbox: &[u8],
        response: &[u8],
    ) -> (r: Result<Vec<u8>, RatsioError>)
        requires
            old(self).wf(),
        ensures
            final(self).wf(),
            final(self).ids() == old(self).ids(),
            r is Err ==> final(self).subs() == old(self).subs(),
            r matches Err(e) ==> e == RatsioError::ProtocolDecodeError || e
                == RatsioError::InternalServerError,
            forall|a: Seq<u8>, e: Seq<u8>| #[trigger]
                subscription_response_wire(a, e) == response@ ==> {
                    &&& e.len() > 0 ==> r == Err::<Vec<u8>, _>(RatsioError::InternalServerError)
                    &&& e.len() == 0 ==> (r matches Ok(ack) && ack@ == a)
                },
            r is Ok ==> {
                &&& final(self).subs().drop_last() == old(self).subs()
                &&& final(self).subs().len() == old(self).subs().len() + 1
                &&& final(self).subs().last().sid@ == sid.0@
                &&& final(self).subs().last().subject@ == subject@
                &&& final(self).subs().last().inbox@ == inbox@
                &&& final(self).subs().last().durable_name@ == or_empty(durable_name)
            },
    {
        let resp = match SubscriptionResponse::decode(response) {
            Some(r) => r,
            None => {
                return Err(RatsioError::ProtocolDecodeError);
            },
        };
        if resp.error.len() > 0 {
            return Err(RatsioError::InternalServerError);
        }
        self.subscriptions.push(
            StanSubscription {
                sid: clone_bytes(&sid.0),
                subject: copy_all(subject),
                durable_name: unwrap_or_empty(durable_name),
                inbox: copy_all(inbox),
            },
        );
        assert(self.subs().drop_last() =~= old(self).subs());
        Ok(resp.ack_inbox)
    }

    /// The acknowledgement of message `sequence` on `subject`, for
    /// `ack_inbox`.
    pub fn ack_message(ack_inbox: &[u8], subject: &[u8], sequence: u64) -> (r: Outgoing)
        ensures
            r.subject@ == ack_inbox@,
            r.payload@ == ack_wire(subject@, sequence as nat),
    {
        let ack = Ack { subject: copy_all(subject), sequence };
        let payload = ack.encode();
        assert(payload@ == crate::protocol::ack_bytes(ack));
        Outgoing { subject: copy_all(ack_inbox), payload }
    }

    /// The acknowledgement of `message`; fails where it carries no ack inbox.
    pub fn acknowledge(message: &StanMessage) -> (r: Result<Outgoing, RatsioError>)
        ensures
            message.ack_inbox is None ==> r == Err::<Outgoing, _>(RatsioError::AckInboxMissing),
            message.ack_inbox matches Some(inbox) ==> (r matches Ok(out) && out.subject@
                == inbox@ && out.payload@ == ack_wire(
                message.subject@,
                message.sequence as nat,
            )),
    {
        match &message.ack_inbox {
            Some(inbox) => Ok(
                Self::ack_message(inbox.as_slice(), message.subject.as_slice(), message.sequence),
            ),
            None => Err(RatsioError::AckInboxMissing),
        }
    }

    /// The streaming message for a decoded envelope: subject, payload,
    /// timestamp, sequence and redelivery flag are taken over, an empty
    /// reply subject means none, the ack inbox is attached, and the message
    /// is acknowledged by the library unless acks are manual.
    pub fn from_proto(msg: MsgProto, ack_inbox: &[u8], manual_acks: bool) -> (r: StanMessage)
        ensures
            r.subject == msg.subject,
            r.payload == msg.data,
            r.timestamp == msg.timestamp,
            r.sequence == msg.sequence,
            r.redelivered == msg.redelivered,
            msg.reply@.len() == 0 ==> r.reply_to is None,
            msg.reply@.len() > 0 ==> r.reply_to == Some(msg.reply),
            r.ack_inbox matches Some(a) && a@ == ack_inbox@,
            r.auto_ack == !manual_acks,
    {
        let reply_to = if msg.reply.len() > 0 {
            Some(msg.reply)
        } else {
            None
        };
        StanMessage {
            subject: msg.subject,
            reply_to,
            payload: msg.data,
            timestamp: msg.timestamp,
            sequence: msg.sequence,
            redelivered: msg.redelivered,
            ack_inbox: Some(copy_all(ack_inbox)),
            auto_ack: !manual_acks,
        }
    }

    /// The delivery of a core message on a subscription inbox: its envelope
    /// decoded and turned into a streaming message by `from_proto`. Fails on
    /// a malformed envelope.
    pub fn to_message(payload: &[u8], ack_inbox: &[u8], manual_acks: bool) -> (r: Result<
        StanMessage,
        RatsioError,
    >)
        ensures
            r matches Err(e) ==> e == RatsioError::ProtocolDecodeError,
            r matches Ok(m) ==> {
                &&& m.ack_inbox matches Some(a) && a@ == ack_inbox@
                &&& m.auto_ack == !manual_acks
                &&& m.reply_to matches Some(rt) ==> rt@.len() > 0
            },
            payload@.len() == 0 ==> (r matches Ok(m) && m.subject@.len() == 0 && m.sequence == 0
                && m.payload@.len() == 0 && m.reply_to is None),
            forall|c1: u64, c2: Seq<u8>, c3: Seq<u8>, c4: Seq<u8>, c5: i64, c6: bool| #[trigger]
                msg_proto_wire(c1, c2, c3, c4, c5, c6) == payload@ ==> (r matches Ok(m)
                    && m.sequence == c1 && m.subject@ == c2 && m.payload@ == c4 && m.timestamp
                    == c5 && m.redelivered == c6 && (c3.len() == 0 ==> m.reply_to is None) && (
                c3.len() > 0 ==> (m.reply_to matches Some(rt) && rt@ == c3))),
    {
        match MsgProto::decode(payload) {
            Some(m) => Ok(Self::from_proto(m, ack_inbox, manual_acks)),
            None => Err(RatsioError::ProtocolDecodeError),
        }
    }

    fn find_sid(&self, sid: &[u8]) -> (r: Option<usize>)
        ensures
            r matches Some(i) ==> i < self.subs().len() && self.subs()[i as int].sid@ == sid@,
            r is None ==> forall|i: int| 0 <= i < self.subs().len() ==> self.subs()[i].sid@ != sid@,
    {
        let mut i: usize = 0;
        while i < self.subscriptions.len()
            invariant
                i <= self.subs().len(),
                forall|j: int| 0 <= j < i ==> self.subs()[j].sid@ != sid@,
            decreases self.subs().len() - i,
        {
            if bytes_eq(self.subscriptions[i].sid.as_slice(), sid) {
                return Some(i);
            }
            i = i + 1;
        }
        None
    }
}

impl StanClient {
    /// Ends streaming subscription `sid`: it leaves the registry and the
    /// UnsubscribeRequest for it, addressed to the session's unsubscribe
    /// inbox, is returned. An unknown id changes nothing and gives `None`.
    pub fn un_subscribe(&mut self, sid: &StanSid) -> (r: Option<Outgoing>)
        requires
            old(self).wf(),
        ensures
            final(self).wf(),
            final(self).ids() == old(self).ids(),
            final(self).client_id() == old(self).client_id(),
            (forall|i: int| 0 <= i < old(self).subs().len() ==> old(self).subs()[i].sid@ != sid.0.0@)
                ==> r is None && final(self).subs() == old(self).subs(),
            r matches Some(out) ==> exists|i: int|
                0 <= i < old(self).subs().len() && old(self).subs()[i].sid@ == sid.0.0@ && final(self).subs() == old(self).subs().remove(i) && out.subject@ == old(self).unsub_requests()
                    && out.payload@ == unsubscribe_request_wire(
                    old(self).client_id(),
                    old(self).subs()[i].subject@,
                    old(self).subs()[i].inbox@,
                    old(self).subs()[i].durable_name@,
                ),
            (exists|i: int| 0 <= i < old(self).subs().len() && old(self).subs()[i].sid@ == sid.0.0@)
                ==> r is Some,
    {
        match self.find_sid(sid.0.0.as_slice()) {
            Some(i) => {
                let sub = self.subscriptions.remove(i);
                let req = UnsubscribeRequest {
                    client_id: clone_bytes(&self.client_id),
                    subject: sub.subject,
                    inbox: sub.inbox,
                    durable_name: sub.durable_name,
                };
                let payload = req.encode();
                assert(self.subs() =~= old(self).subs().remove(i as int));
                Some(Outgoing { subject: clone_bytes(&self.client_info.unsub_requests), payload })
            },
            None => None,
        }
    }

    /// Ends this session: every streaming subscription leaves the registry,
    /// and the CloseRequest addressed to the session's close inbox is
    /// returned with the ids of the subscriptions whose delivery sequences
    /// are to end, in registry order.
    pub fn close(&mut self) -> (r: (Outgoing, Vec<Vec<u8>>))
        requires
            old(self).wf(),
        ensures
            final(self).wf(),
            final(self).subs().len() == 0,
            r.0.subject@ == old(self).close_requests(),
            r.0.payload@ == close_request_wire(old(self).client_id()),
            r.1@.len() == old(self).subs().len(),
            forall|i: int| 0 <= i < r.1@.len() ==> #[trigger] r.1@[i]@ == old(self).subs()[i].sid@,
    {
        let req = CloseRequest { client_id: clone_bytes(&self.client_id) };
        let out = Outgoing {
            subject: clone_bytes(&self.client_info.close_requests),
            payload: req.encode(),
        };
        let mut sids: Vec<Vec<u8>> = Vec::new();
        let mut i: usize = 0;
        while i < self.subscriptions.len()
            invariant
                i <= self.subs().len(),
                sids@.len() == i,
                forall|k: int| 0 <= k < i ==> #[trigger] sids@[k]@ == self.subs()[k].sid@,
            decreases self.subs().len() - i,
        {
            sids.push(clone_bytes(&self.subscriptions[i].sid));
            i = i + 1;
        }
        self.subscriptions.clear();
        assert(self.subs().len() == 0);
        (out, sids)
    }

    /// Gives the identifier generator a fresh prefix and sequence, drawn
    /// from caller-supplied entropy, once it has run out.
    pub fn reseed(&mut self, prefix_seed: &[u8; 12], seq_seed: u64, inc_seed: u64)
        ensures
            final(self).wf(),
            final(self).ids().prefix() == Seq::new(
                PREFIX_LEN as nat,
                |i: int| digit_char((prefix_seed@[i] % 62) as nat),
            ),
            final(self).ids().seq() == seq_seed % MAX_SEQ,
            final(self).ids().inc() == MIN_INC + inc_seed % INC_SPAN,
            final(self).subs() == old(self).subs(),
            final(self).client_id() == old(self).client_id(),
            final(self).conn_id() == old(self).conn_id(),
            final(self).heartbeat_inbox() == old(self).heartbeat_inbox(),
            final(self).pub_prefix() == old(self).pub_prefix(),
    {
        self.ids = Nuid::from_entropy(prefix_seed, seq_seed, inc_seed);
    }

    /// The heartbeat inbox of this session.
    pub fn heartbeat_inbox_subject(&self) -> (r: Vec<u8>)
        ensures
            r@ == self.heartbeat_inbox(),
    {
        clone_bytes(&self.heartbeat_inbox)
    }

    /// The number of registered streaming subscriptions.
    pub fn subscription_count(&self) -> (r: usize)
        ensures
            r == self.subs().len(),
    {
        self.subscriptions.len()
    }
}

} // verus!
