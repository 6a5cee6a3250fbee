//! The connection engine of the core client: connection state, the
//! subscription registry, inbound routing, heartbeat and reconnect decisions.
//! Each operation returns the actions that the caller performs on the
//! connection and on the delivery sinks, in order.
use vstd::prelude::*;
use crate::error::RatsioError;
use crate::nuid::{Nuid, digit_char, id_of, lemma_ids_distinct, INC_SPAN, MAX_SEQ, MIN_INC, PREFIX_LEN};
use crate::ops::{Connect, Message, Op, Publish, Subscribe, UnSubscribe};
use crate::parser::{copy_all, copy_range};

verus! {

#[verifier::external_type_specification]
#[verifier::external_body]
pub struct ExSystemTime(std::time::SystemTime);

#[verifier::external_type_specification]
#[verifier::external_body]
pub struct ExSystemTimeError(std::time::SystemTimeError);

/// Relies on std's `SystemTime::now`: the current wall-clock time, of
/// which nothing is promised.
pub assume_specification[ std::time::SystemTime::now ]() -> std::time::SystemTime;

/// Relies on std's `SystemTime::duration_since`: the time elapsed since
/// `earlier`, or an error where `earlier` is later; nothing is promised of
/// either.
pub assume_specification[ std::time::SystemTime::duration_since ](
    t: &std::time::SystemTime,
    earlier: std::time::SystemTime,
) -> Result<std::time::Duration, std::time::SystemTimeError>;

/// Relies on std's `Duration::as_millis`: the whole milliseconds of a
/// duration.
pub assume_specification[ std::time::Duration::as_millis ](d: &std::time::Duration) -> u128;

/// Relies on std's `UNIX_EPOCH` constant: the start of Unix time.
#[verifier::external_body]
fn unix_epoch() -> std::time::SystemTime {
    std::time::UNIX_EPOCH
}

/// The life cycle of a connection.
#[derive(Debug, Clone, Copy, PartialEq, Eq, Structural)]
pub enum NatsClientState {
    Connecting,
    Connected,
    Disconnected,
    Reconnecting,
    Shutdown,
}

/// A subscription id.
#[derive(Debug)]
pub struct NatsSid(pub Vec<u8>);

/// The configuration of a core client.
pub struct NatsClientOptions {
    pub cluster_uris: Vec<Vec<u8>>,
    pub username: Vec<u8>,
    pub password: Vec<u8>,
    pub auth_token: Vec<u8>,
    pub name: Vec<u8>,
    pub verbose: bool,
    pub pedantic: bool,
    pub tls_required: bool,
    /// Seconds between two pings.
    pub ping_interval: u32,
    /// Number of ping intervals without traffic after which the connection
    /// counts as lost.
    pub ping_max_out: u32,
    /// Milliseconds to wait before trying the server list again.
    pub reconnect_timeout: u64,
    pub subscribe_on_reconnect: bool,
}

/// What the caller of the engine does next.
pub enum Action {
    /// Write this operation to the connection.
    Send(Op),
    /// Put this message on the delivery sequence of its subscription id.
    Deliver(Message),
    /// End the delivery sequence of this subscription id.
    CloseSink(Vec<u8>),
}

/// `Some(v)` for a non-empty value, `None` for an empty one.
pub open spec fn non_empty(v: Seq<u8>) -> Option<Seq<u8>> {
    if v.len() == 0 {
        None
    } else {
        Some(v)
    }
}

pub open spec fn opt_view(o: Option<Vec<u8>>) -> Option<Seq<u8>> {
    match o {
        Some(v) => Some(v@),
        None => None,
    }
}

/// The bytes `rust`, the client language sent in CONNECT.
pub open spec fn client_lang() -> Seq<u8> {
    seq![114u8, 117u8, 115u8, 116u8]
}

/// The bytes `0.3.0`, the client version sent in CONNECT.
pub open spec fn client_version() -> Seq<u8> {
    seq![48u8, 46u8, 51u8, 46u8, 48u8]
}

/// The CONNECT options that a client with options `o` sends: empty
/// credentials and name are left out, the protocol is 1 and echo is off.
pub open spec fn connect_for(o: NatsClientOptions, c: Connect) -> bool {
    &&& c.verbose == o.verbose
    &&& c.pedantic == o.pedantic
    &&& c.tls_required == o.tls_required
    &&& opt_view(c.auth_token) == non_empty(o.auth_token@)
    &&& opt_view(c.user) == non_empty(o.username@)
    &&& opt_view(c.pass) == non_empty(o.password@)
    &&& opt_view(c.name) == non_empty(o.name@)
    &&& c.lang@ == client_lang()
    &&& c.version@ == client_version()
    &&& c.protocol == 1
    &&& !c.echo
    &&& c.sig is None
    &&& c.jwt is None
    &&& c.nkey is None
}

/// The registry entry at `i` has subscription id `sid`.
pub open spec fn sid_at(subs: Seq<Subscribe>, i: int, sid: Seq<u8>) -> bool {
    0 <= i < subs.len() && subs[i].sid@ == sid
}

/// Some registry entry has subscription id `sid`.
pub open spec fn registered(subs: Seq<Subscribe>, sid: Seq<u8>) -> bool {
    exists|i: int| #[trigger] sid_at(subs, i, sid)
}

/// No two registry entries share a subscription id.
pub open spec fn unique_sids(subs: Seq<Subscribe>) -> bool {
    forall|i: int, j: int|
        0 <= i < subs.len() && 0 <= j < subs.len() && i != j ==> #[trigger] subs[i].sid@
            != #[trigger] subs[j].sid@
}

/// The registry after removing every entry with subscription id `sid`.
pub open spec fn without_sid(subs: Seq<Subscribe>, sid: Seq<u8>) -> Seq<Subscribe> {
    subs.filter(|s: Subscribe| s.sid@ != sid)
}

/// The registry after unsubscribing `sid`: the entry with that id is taken
/// out, and an unknown id leaves the registry as it is.
pub open spec fn remove_sid(subs: Seq<Subscribe>, sid: Seq<u8>) -> Seq<Subscribe> {
    if registered(subs, sid) {
        subs.remove(choose|i: int| #[trigger] sid_at(subs, i, sid))
    } else {
        subs
    }
}

/// `sid` is an identifier that a generator with this prefix can hand out.
pub open spec fn minted_any(sid: Seq<u8>, prefix: Seq<u8>) -> bool {
    exists|s: nat| s < MAX_SEQ && #[trigger] id_of(prefix, s) == sid
}

/// `sid` was handed out by a generator now at sequence value `seq` on
/// `prefix`, or under one of the `retired` prefixes it used before.
#[verifier::opaque]
pub open spec fn issued_by(prefix: Seq<u8>, seq: nat, retired: Seq<Seq<u8>>, sid: Seq<u8>) -> bool {
    ||| minted(sid, prefix, seq)
    ||| exists|k: int| 0 <= k < retired.len() && minted_any(sid, #[trigger] retired[k])
}

/// `sid` is one of the identifiers that a generator with this prefix handed
/// out up to sequence value `bound`.
pub open spec fn minted(sid: Seq<u8>, prefix: Seq<u8>, bound: nat) -> bool {
    exists|s: nat| s <= bound && #[trigger] id_of(prefix, s) == sid
}

/// Whether two byte strings are equal.
pub fn bytes_eq(a: &[u8], b: &[u8]) -> (r: bool)
    ensures
        r == (a@ == b@),
{
    if a.len() != b.len() {
        return false;
    }
    let mut i: usize = 0;
    while i < a.len()
        invariant
            i <= a@.len() == b@.len(),
            forall|j: int| 0 <= j < i ==> a@[j] == b@[j],
        decreases a@.len() - i,
    {
        if a[i] != b[i] {
            return false;
        }
        i = i + 1;
    }
    assert(a@ =~= b@);
    true
}

fn clone_bytes(v: &Vec<u8>) -> (r: Vec<u8>)
    ensures
        r@ == v@,
{
    copy_all(v.as_slice())
}

fn clone_opt(o: &Option<Vec<u8>>) -> (r: Option<Vec<u8>>)
    ensures
        opt_view(r) == opt_view(*o),
        r is Some == o is Some,
        r matches Some(v) ==> v@ == o->0@,
{
    match o {
        Some(v) => Some(clone_bytes(v)),
        None => None,
    }
}

fn clone_subscribe(s: &Subscribe) -> (r: Subscribe)
    ensures
        r.subject@ == s.subject@,
        r.sid@ == s.sid@,
        opt_view(r.queue_group) == opt_view(s.queue_group),
        r.queue_group is Some == s.queue_group is Some,
{
    Subscribe {
        subject: clone_bytes(&s.subject),
        sid: clone_bytes(&s.sid),
        queue_group: clone_opt(&s.queue_group),
    }
}

fn non_empty_bytes(v: &Vec<u8>) -> (r: Option<Vec<u8>>)
    ensures
        opt_view(r) == non_empty(v@),
{
    if v.len() == 0 {
        None
    } else {
        Some(clone_bytes(v))
    }
}

/// The verified state of a core client.
pub struct NatsClientInner {
    opts: NatsClientOptions,
    state: NatsClientState,
    last_ping: u128,
    reconnect_version: u128,
    server_info: Option<Vec<u8>>,
    subscriptions: Vec<Subscribe>,
    ids: Nuid,
    retired: Vec<Vec<u8>>,
    has_client_ref: bool,
}

impl NatsClientInner {
    pub closed spec fn opts(&self) -> NatsClientOptions {
        self.opts
    }

    pub closed spec fn state(&self) -> NatsClientState {
        self.state
    }

    pub closed spec fn last_ping(&self) -> nat {
        self.last_ping as nat
    }

    pub closed spec fn version(&self) -> nat {
        self.reconnect_version as nat
    }

    pub closed spec fn server_info(&self) -> Option<Seq<u8>> {
        opt_view(self.server_info)
    }

    /// The subscription registry, in the order of subscription.
    pub closed spec fn subs(&self) -> Seq<Subscribe> {
        self.subscriptions@
    }

    pub closed spec fn ids(&self) -> Nuid {
        self.ids
    }

    /// The prefixes that the generator used before its current one.
    pub closed spec fn retired(&self) -> Seq<Seq<u8>> {
        self.retired@.map_values(|v: Vec<u8>| v@)
    }

    /// Whether the client still holds a reference to itself.
    pub closed spec fn has_client_ref(&self) -> bool {
        self.has_client_ref
    }

    /// `sid` was handed out by this client's generator.
    pub open spec fn issued(&self, sid: Seq<u8>) -> bool {
        issued_by(self.ids().prefix(), self.ids().seq(), self.retired(), sid)
    }

    /// The identifier generator is well formed, subscription ids are unique
    /// and each was handed out by the generator.
    pub open spec fn wf(&self) -> bool {
        &&& self.ids().wf()
        &&& unique_sids(self.subs())
        &&& forall|i: int| 0 <= i < self.subs().len() ==> self.issued(#[trigger] self.subs()[i].sid@)
        &&& forall|k: int|
            0 <= k < self.retired().len() ==> (#[trigger] self.retired()[k]).len() == PREFIX_LEN
                && self.retired()[k] != self.ids().prefix()
    }
}

/// `op` subscribes as registry entry `s` does.
pub open spec fn is_sub_of(op: Op, s: Subscribe) -> bool {
    op matches Op::SUB(t) && t.subject@ == s.subject@ && t.sid@ == s.sid@ && opt_view(
        t.queue_group,
    ) == opt_view(s.queue_group)
}

/// `op` ends subscription `sid` at once.
pub open spec fn is_unsub_of(op: Op, sid: Seq<u8>) -> bool {
    op matches Op::UNSUB(u) && u.sid@ == sid && u.max_msgs is None
}

/// `a` sends an operation that subscribes as `s` does.
pub open spec fn sends_sub_of(a: Action, s: Subscribe) -> bool {
    a matches Action::Send(op) && is_sub_of(op, s)
}

/// `a` sends an operation that ends subscription `sid`.
pub open spec fn sends_unsub_of(a: Action, sid: Seq<u8>) -> bool {
    a matches Action::Send(op) && is_unsub_of(op, sid)
}

/// `a` ends the delivery sequence of `sid`.
pub open spec fn closes_sink_of(a: Action, sid: Seq<u8>) -> bool {
    a matches Action::CloseSink(s) && s@ == sid
}

/// The actions that shut down subscriptions `subs`: for each, in order, its
/// delivery sequence is ended and an UNSUB is sent.
pub open spec fn closes_all(actions: Seq<Action>, subs: Seq<Subscribe>) -> bool {
    &&& actions.len() == 2 * subs.len()
    &&& forall|i: int|
        0 <= i < subs.len() ==> closes_sink_of(#[trigger] actions[2 * i], subs[i].sid@)
            && sends_unsub_of(actions[2 * i + 1], subs[i].sid@)
}

fn unsub_op(sid: &Vec<u8>) -> (r: Op)
    ensures
        is_unsub_of(r, sid@),
{
    Op::UNSUB(UnSubscribe { sid: clone_bytes(sid), max_msgs: None })
}

impl NatsClientInner {
    /// A client in the connecting state with an empty registry. Fails with a
    /// configuration error, before any I/O, when no server address is given.
    pub fn new(opts: NatsClientOptions, ids: Nuid, now: u128) -> (r: Result<
        NatsClientInner,
        RatsioError,
    >)
        requires
            ids.wf(),
        ensures
            r is Err <==> opts.cluster_uris@.len() == 0,
            r matches Err(e) ==> e == RatsioError::ConfigurationError,
            r matches Ok(c) ==> {
                &&& c.wf()
                &&& c.opts() == opts
                &&& c.ids() == ids
                &&& c.retired().len() == 0
                &&& c.state() == NatsClientState::Connecting
                &&& c.subs().len() == 0
                &&& c.version() == 1
                &&& c.last_ping() == now
                &&& c.server_info() is None
                &&& c.has_client_ref()
            },
    {
        if opts.cluster_uris.len() == 0 {
            return Err(RatsioError::ConfigurationError);
        }
        let c = NatsClientInner {
            opts,
            state: NatsClientState::Connecting,
            last_ping: now,
            reconnect_version: 1,
            server_info: None,
            subscriptions: Vec::new(),
            ids,
            retired: Vec::new(),
            has_client_ref: true,
        };
        assert(c.retired().len() == 0);
        assert(c.subs().len() == 0);
        Ok(c)
    }

    /// The CONNECT operation for this client's options.
    pub fn connect_command(&self) -> (r: Op)
        ensures
            r matches Op::CONNECT(c) && connect_for(self.opts(), c),
    {
        let c = Connect {
            verbose: self.opts.verbose,
            pedantic: self.opts.pedantic,
            tls_required: self.opts.tls_required,
            auth_token: non_empty_bytes(&self.opts.auth_token),
            user: non_empty_bytes(&self.opts.username),
            pass: non_empty_bytes(&self.opts.password),
            name: non_empty_bytes(&self.opts.name),
            lang: vec![114u8, 117u8, 115u8, 116u8],
            version: vec![48u8, 46u8, 51u8, 46u8, 48u8],
            protocol: 1,
            echo: false,
            sig: None,
            jwt: None,
            nkey: None,
        };
        assert(c.lang@ =~= client_lang());
        assert(c.version@ =~= client_version());
        Op::CONNECT(c)
    }

    /// Starts a connection: returns the CONNECT operation to send and marks
    /// the client connected, unless it was shut down.
    pub fn start(&mut self) -> (r: Op)
        requires
            old(self).wf(),
        ensures
            final(self).wf(),
            r matches Op::CONNECT(c) && connect_for(old(self).opts(), c),
            final(self).state() == if old(self).state() == NatsClientState::Shutdown {
                NatsClientState::Shutdown
            } else {
                NatsClientState::Connected
            },
            final(self).subs() == old(self).subs(),
            final(self).version() == old(self).version(),
            final(self).opts() == old(self).opts(),
            final(self).ids() == old(self).ids(),
            final(self).has_client_ref() == old(self).has_client_ref(),
    {
        let op = self.connect_command();
        if self.state != NatsClientState::Shutdown {
            self.state = NatsClientState::Connected;
        }
        assert(self.retired() == old(self).retired());
        assert(self.ids() == old(self).ids());
        assert(self.subs() == old(self).subs());
        op
    }

    /// Records inbound traffic at time `now`.
    pub fn ping_pong_reset(&mut self, now: u128)
        ensures
            final(self).retired() == old(self).retired(),
            final(self).last_ping() == now,
            final(self).state() == old(self).state(),
            final(self).subs() == old(self).subs(),
            final(self).version() == old(self).version(),
            final(self).opts() == old(self).opts(),
            final(self).ids() == old(self).ids(),
            final(self).server_info() == old(self).server_info(),
            final(self).has_client_ref() == old(self).has_client_ref(),
    {
        self.last_ping = now;
    }

    /// Subscribes to `subject`, in `queue_group` where one is given: mints a
    /// fresh subscription id, registers the subscription and returns the id
    /// with the SUB operation to send. Fails on a shut-down client and when
    /// the generator has run out of identifiers, leaving the client as it was.
    pub fn subscribe(&mut self, subject: Vec<u8>, queue_group: Option<Vec<u8>>) -> (r: Result<
        (NatsSid, Op),
        RatsioError,
    >)
        requires
            old(self).wf(),
        ensures
            final(self).wf(),
            final(self).state() == old(self).state(),
            final(self).version() == old(self).version(),
            final(self).opts() == old(self).opts(),
            final(self).has_client_ref() == old(self).has_client_ref(),
            final(self).ids().prefix() == old(self).ids().prefix(),
            final(self).ids().inc() == old(self).ids().inc(),
            final(self).retired() == old(self).retired(),
            old(self).state() == NatsClientState::Shutdown ==> r == Err::<(NatsSid, Op), _>(
                RatsioError::ClientClosed,
            ) && *final(self) == *old(self),
            old(self).state() != NatsClientState::Shutdown && old(self).ids().seq() + old(
                self,
            ).ids().inc() >= MAX_SEQ ==> r == Err::<(NatsSid, Op), _>(
                RatsioError::IdentifiersExhausted,
            ) && *final(self) == *old(self),
            r is Ok <==> old(self).state() != NatsClientState::Shutdown && old(self).ids().seq()
                + old(self).ids().inc() < MAX_SEQ,
            r matches Ok((sid, op)) ==> {
                &&& final(self).ids().seq() == old(self).ids().seq() + old(self).ids().inc()
                &&& sid.0@ == id_of(old(self).ids().prefix(), final(self).ids().seq())
                &&& !registered(old(self).subs(), sid.0@)
                &&& !old(self).issued(sid.0@)
                &&& final(self).issued(sid.0@)
                &&& final(self).subs().len() == old(self).subs().len() + 1
                &&& final(self).subs().drop_last() == old(self).subs()
                &&& final(self).subs().last().subject@ == subject@
                &&& final(self).subs().last().sid@ == sid.0@
                &&& opt_view(final(self).subs().last().queue_group) == opt_view(queue_group)
                &&& is_sub_of(op, final(self).subs().last())
            },
    {
        if self.state == NatsClientState::Shutdown {
            return Err(RatsioError::ClientClosed);
        }
        let ghost old_self = *self;
        let id = match self.ids.next() {
            Some(id) => id,
            None => {
                return Err(RatsioError::IdentifiersExhausted);
            },
        };
        proof {
            lemma_fresh_id(old_self, self.ids().seq());
            assert forall|i: int| 0 <= i < old_self.subs().len() implies #[trigger] old_self.subs()[i].sid@ != id@ by {
                assert(old_self.issued(old_self.subs()[i].sid@));
            }
        }
        let entry = Subscribe { subject: clone_bytes(&subject), sid: clone_bytes(&id), queue_group: clone_opt(&queue_group) };
        let op = Op::SUB(Subscribe { subject, sid: clone_bytes(&id), queue_group });
        self.subscriptions.push(entry);
        proof {
            let p = old_self.ids().prefix();
            let subs = self.subs();
            assert(subs.drop_last() =~= old_self.subs());
            assert forall|i: int| 0 <= i < subs.len() implies self.issued(#[trigger] subs[i].sid@) by {
                if i < subs.len() - 1 {
                    assert(subs[i] == old_self.subs()[i]);
                    lemma_issued_grows(old_self, *self, subs[i].sid@);
                } else {
                    reveal(issued_by);
                    assert(id_of(p, self.ids().seq()) == subs[i].sid@);
                }
            }
            assert forall|i: int, j: int| 0 <= i < subs.len() && 0 <= j < subs.len() && i != j implies #[trigger] subs[i].sid@ != #[trigger] subs[j].sid@ by {
                if i < subs.len() - 1 && j < subs.len() - 1 {
                    assert(subs[i] == old_self.subs()[i]);
                    assert(subs[j] == old_self.subs()[j]);
                } else if i < subs.len() - 1 {
                    assert(subs[i] == old_self.subs()[i]);
                } else {
                    assert(subs[j] == old_self.subs()[j]);
                }
            }
            if registered(old_self.subs(), id@) {
                let i = choose|i: int| #[trigger] sid_at(old_self.subs(), i, id@);
                assert(old_self.subs()[i].sid@ != id@);
            }
            reveal(issued_by);
            assert(id_of(p, self.ids().seq()) == id@);
            assert(self.retired() == old_self.retired());
        }
        Ok((NatsSid(id), op))
    }
}

/// The saturating difference `a - b`.
pub open spec fn sat_sub(a: nat, b: nat) -> nat {
    if a >= b {
        (a - b) as nat
    } else {
        0
    }
}

impl NatsClientInner {
    /// Where `sid` stands in the registry.
    fn find_sid(&self, sid: &[u8]) -> (r: Option<usize>)
        ensures
            r matches Some(i) ==> sid_at(self.subs(), i as int, sid@),
            r is None ==> !registered(self.subs(), sid@),
    {
        let mut i: usize = 0;
        while i < self.subscriptions.len()
            invariant
                i <= self.subs().len(),
                forall|j: int| 0 <= j < i ==> !sid_at(self.subs(), j, sid@),
            decreases self.subs().len() - i,
        {
            if bytes_eq(self.subscriptions[i].sid.as_slice(), sid) {
                return Some(i);
            }
            i = i + 1;
        }
        None
    }

    /// Ends subscription `sid`: removes it from the registry and returns the
    /// actions that end its delivery sequence and send UNSUB. An unknown id
    /// changes nothing and gives no action.
    pub fn un_subscribe(&mut self, sid: &NatsSid) -> (r: Vec<Action>)
        requires
            old(self).wf(),
        ensures
            final(self).retired() == old(self).retired(),
            final(self).wf(),
            final(self).state() == old(self).state(),
            final(self).version() == old(self).version(),
            final(self).opts() == old(self).opts(),
            final(self).ids() == old(self).ids(),
            final(self).has_client_ref() == old(self).has_client_ref(),
            !registered(final(self).subs(), sid.0@),
            final(self).subs() == remove_sid(old(self).subs(), sid.0@),
            registered(old(self).subs(), sid.0@) ==> {
                &&& r@.len() == 2
                &&& closes_sink_of(r@[0], sid.0@)
                &&& sends_unsub_of(r@[1], sid.0@)
            },
            !registered(old(self).subs(), sid.0@) ==> r@.len() == 0 && *final(self) == *old(
                self,
            ),
    {
        let mut actions: Vec<Action> = Vec::new();
        match self.find_sid(sid.0.as_slice()) {
            Some(i) => {
                let ghost old_subs = self.subs();
                let removed = self.subscriptions.remove(i);
                actions.push(Action::CloseSink(clone_bytes(&removed.sid)));
                actions.push(Action::Send(unsub_op(&removed.sid)));
                proof {
                    let subs = self.subs();
                    assert(subs =~= old_subs.remove(i as int));
                    assert forall|a: int, b: int| 0 <= a < subs.len() && 0 <= b < subs.len() && a != b implies #[trigger] subs[a].sid@ != #[trigger] subs[b].sid@ by {
                        let a2 = if a < i { a } else { a + 1 };
                        let b2 = if b < i { b } else { b + 1 };
                        assert(subs[a] == old_subs[a2]);
                        assert(subs[b] == old_subs[b2]);
                    }
                    assert forall|k: int| 0 <= k < subs.len() implies self.issued(#[trigger] subs[k].sid@) by {
                        let k2 = if k < i { k } else { k + 1 };
                        assert(subs[k] == old_subs[k2]);
                    }
                    if registered(subs, sid.0@) {
                        let k = choose|k: int| #[trigger] sid_at(subs, k, sid.0@);
                        let k2 = if k < i { k } else { k + 1 };
                        assert(subs[k] == old_subs[k2]);
                    }
                    assert(sid_at(old_subs, i as int, sid.0@));
                    let c = choose|k: int| #[trigger] sid_at(old_subs, k, sid.0@);
                    assert(c == i);
                }
            },
            None => {},
        }
        actions
    }

    /// Shuts the client down: for each subscription, in registry order, its
    /// delivery sequence is ended and an UNSUB is sent; the registry is
    /// emptied and the client drops its reference to itself.
    pub fn stop(&mut self) -> (r: Vec<Action>)
        requires
            old(self).wf(),
        ensures
            final(self).retired() == old(self).retired(),
            final(self).wf(),
            final(self).state() == NatsClientState::Shutdown,
            final(self).subs().len() == 0,
            !final(self).has_client_ref(),
            closes_all(r@, old(self).subs()),
            final(self).last_ping() == old(self).last_ping(),
            final(self).server_info() == old(self).server_info(),
            final(self).version() == old(self).version(),
            final(self).opts() == old(self).opts(),
            final(self).ids() == old(self).ids(),
    {
        self.state = NatsClientState::Shutdown;
        let mut actions: Vec<Action> = Vec::new();
        let mut i: usize = 0;
        while i < self.subscriptions.len()
            invariant
                i <= self.subs().len(),
                actions@.len() == 2 * i,
                forall|k: int|
                    0 <= k < i ==> closes_sink_of(#[trigger] actions@[2 * k], self.subs()[k].sid@)
                        && sends_unsub_of(actions@[2 * k + 1], self.subs()[k].sid@),
            decreases self.subs().len() - i,
        {
            let sid = &self.subscriptions[i].sid;
            actions.push(Action::CloseSink(clone_bytes(sid)));
            actions.push(Action::Send(unsub_op(sid)));
            proof {
                assert forall|k: int| 0 <= k < i + 1 implies closes_sink_of(#[trigger] actions@[2 * k], self.subs()[k].sid@)
                        && sends_unsub_of(actions@[2 * k + 1], self.subs()[k].sid@) by {
                    if k < i {
                        assert(actions@[2 * k] == actions@.drop_last().drop_last()[2 * k]);
                    }
                }
            }
            i = i + 1;
        }
        self.subscriptions.clear();
        self.has_client_ref = false;
        assert(self.subs().len() == 0);
        assert(self.retired() == old(self).retired());

        actions
    }

    /// Routes one inbound operation received at time `now`: any operation
    /// counts as traffic; PING is answered with PONG; INFO replaces the server
    /// information; MSG is delivered where its subscription id is registered
    /// and dropped otherwise; CLOSE shuts the client down.
    pub fn process_nats_event(&mut self, item: Op, now: u128) -> (r: Vec<Action>)
        requires
            old(self).wf(),
        ensures
            final(self).retired() == old(self).retired(),
            final(self).wf(),
            final(self).last_ping() == now,
            final(self).version() == old(self).version(),
            final(self).opts() == old(self).opts(),
            final(self).ids() == old(self).ids(),
            item is CLOSE ==> {
                &&& final(self).state() == NatsClientState::Shutdown
                &&& final(self).subs().len() == 0
                &&& !final(self).has_client_ref()
                &&& closes_all(r@, old(self).subs())
            },
            !(item is CLOSE) ==> {
                &&& final(self).subs() == old(self).subs()
                &&& final(self).state() == old(self).state()
                &&& final(self).has_client_ref() == old(self).has_client_ref()
            },
            item matches Op::INFO(j) ==> final(self).server_info() == Some(j@) && r@.len() == 0,
            !(item is INFO) ==> final(self).server_info() == old(self).server_info(),
            item is PING ==> r@.len() == 1 && (r@[0] matches Action::Send(op) && op is PONG),
            item matches Op::MSG(m) ==> if registered(old(self).subs(), m.sid@) {
                r@.len() == 1 && (r@[0] matches Action::Deliver(d) && d == m)
            } else {
                r@.len() == 0
            },
            !(item is CLOSE || item is PING || item is MSG) ==> r@.len() == 0,
    {
        self.ping_pong_reset(now);
        match item {
            Op::CLOSE => self.stop(),
            Op::INFO(j) => {
                self.server_info = Some(j);
                Vec::new()
            },
            Op::PING => {
                let mut actions: Vec<Action> = Vec::new();
                actions.push(Action::Send(Op::PONG));
                actions
            },
            Op::MSG(m) => {
                let mut actions: Vec<Action> = Vec::new();
                if self.find_sid(m.sid.as_slice()).is_some() {
                    actions.push(Action::Deliver(m));
                }
                actions
            },
            _ => Vec::new(),
        }
    }

    /// The PUB operation for a message on `subject`. Fails on a shut-down
    /// client.
    pub fn publish(&self, subject: Vec<u8>, reply_to: Option<Vec<u8>>, payload: Vec<u8>) -> (r:
        Result<Op, RatsioError>)
        ensures
            self.state() == NatsClientState::Shutdown ==> r == Err::<Op, _>(
                RatsioError::ClientClosed,
            ),
            self.state() != NatsClientState::Shutdown ==> (r matches Ok(Op::PUB(p)) && p.subject
                == subject && p.reply_to == reply_to && p.payload == payload),
    {
        if self.state == NatsClientState::Shutdown {
            return Err(RatsioError::ClientClosed);
        }
        Ok(Op::PUB(Publish { subject, reply_to, payload }))
    }

    /// Starts a request on `subject`: mints a reply inbox and then a
    /// subscription id, subscribes to the inbox under that id, and returns
    /// the id with the SUB to send first and the PUB, carrying the inbox as
    /// reply subject, to send next. Fails on a shut-down client and when the
    /// generator cannot mint two identifiers, leaving the client as it was.
    pub fn begin_request(&mut self, subject: Vec<u8>, payload: Vec<u8>) -> (r: Result<
        (NatsSid, Op, Op),
        RatsioError,
    >)
        requires
            old(self).wf(),
        ensures
            final(self).retired() == old(self).retired(),
            final(self).wf(),
            final(self).state() == old(self).state(),
            final(self).version() == old(self).version(),
            final(self).opts() == old(self).opts(),
            final(self).has_client_ref() == old(self).has_client_ref(),
            r is Ok <==> old(self).state() != NatsClientState::Shutdown && old(self).ids().seq()
                + 2 * old(self).ids().inc() < MAX_SEQ,
            old(self).state() == NatsClientState::Shutdown ==> r == Err::<(NatsSid, Op, Op), _>(
                RatsioError::ClientClosed,
            ),
            old(self).state() != NatsClientState::Shutdown && !(r is Ok) ==> r == Err::<
                (NatsSid, Op, Op),
                _,
            >(RatsioError::IdentifiersExhausted),
            r is Err ==> *final(self) == *old(self),
            r matches Ok((sid, sub, publ)) ==> {
                &&& final(self).ids().prefix() == old(self).ids().prefix()
                &&& final(self).ids().inc() == old(self).ids().inc()
                &&& final(self).ids().seq() == old(self).ids().seq() + 2 * old(self).ids().inc()
                &&& sid.0@ == id_of(old(self).ids().prefix(), final(self).ids().seq())
                &&& !old(self).issued(sid.0@)
                &&& final(self).issued(sid.0@)
                &&& !registered(old(self).subs(), sid.0@)
                &&& final(self).subs().len() == old(self).subs().len() + 1
                &&& final(self).subs().drop_last() == old(self).subs()
                &&& final(self).subs().last().sid@ == sid.0@
                &&& final(self).subs().last().subject@ == id_of(
                    old(self).ids().prefix(),
                    old(self).ids().seq() + old(self).ids().inc(),
                )
                &&& final(self).subs().last().queue_group is None
                &&& is_sub_of(sub, final(self).subs().last())
                &&& publ matches Op::PUB(p) && p.subject == subject && p.payload == payload
                    && (p.reply_to matches Some(inbox) && inbox@ == final(self).subs().last().subject@)
            },
    {
        if self.state == NatsClientState::Shutdown {
            return Err(RatsioError::ClientClosed);
        }
        if !self.ids.can_mint(2) {
            return Err(RatsioError::IdentifiersExhausted);
        }
        let ghost start = *self;
        let inbox = match self.ids.next() {
            Some(id) => id,
            None => {
                return Err(RatsioError::IdentifiersExhausted);
            },
        };
        assert(self.retired() == start.retired());
        assert forall|i: int| 0 <= i < self.subs().len() implies self.issued(#[trigger] self.subs()[i].sid@) by {
            lemma_issued_grows(start, *self, self.subs()[i].sid@);
        }
        let ghost mid = *self;
        let ghost inbox_v = inbox@;
        assert(inbox_v == id_of(start.ids().prefix(), start.ids().seq() + start.ids().inc()));
        let reply = clone_bytes(&inbox);
        let sub_result = self.subscribe(inbox, None);
        match sub_result {
            Ok((sid, sub)) => {
                proof {
                    if start.issued(sid.0@) {
                        lemma_issued_grows(start, mid, sid.0@);
                    }
                    assert(self.subs().last().subject@ == inbox_v);
                    assert(self.ids().seq() == start.ids().seq() + 2 * start.ids().inc());
                    assert(!start.issued(sid.0@));
                    assert(!registered(start.subs(), sid.0@));
                }
                let publ = Op::PUB(Publish { subject, reply_to: Some(reply), payload });
                assert(self.subs().last().sid@ == sid.0@);
                assert(is_sub_of(sub, self.subs().last()));
                assert(self.issued(sid.0@));
                assert(self.subs().drop_last() == start.subs());
                assert(self.ids().prefix() == start.ids().prefix());
                assert(sid.0@ == id_of(start.ids().prefix(), self.ids().seq()));
                Ok((sid, sub, publ))
            },
            Err(e) => Err(e),
        }
    }

    /// Ends a request with subscription id `sid`, given the first message of
    /// its reply sequence, if any: the reply subscription is removed, its
    /// delivery sequence ended and an UNSUB sent, and the message returned;
    /// an ended sequence gives `RequestStreamClosed`.
    pub fn finish_request(&mut self, sid: &NatsSid, response: Option<Message>) -> (r: (
        Result<Message, RatsioError>,
        Vec<Action>,
    ))
        requires
            old(self).wf(),
        ensures
            final(self).retired() == old(self).retired(),
            final(self).wf(),
            !registered(final(self).subs(), sid.0@),
            final(self).subs() == remove_sid(old(self).subs(), sid.0@),
            final(self).state() == old(self).state(),
            final(self).ids() == old(self).ids(),
            registered(old(self).subs(), sid.0@) ==> r.1@.len() == 2 && closes_sink_of(
                r.1@[0],
                sid.0@,
            ) && sends_unsub_of(r.1@[1], sid.0@),
            !registered(old(self).subs(), sid.0@) ==> r.1@.len() == 0,
            response matches Some(m) ==> r.0 == Ok::<Message, RatsioError>(m),
            response is None ==> r.0 == Err::<Message, _>(RatsioError::RequestStreamClosed),
    {
        let actions = self.un_subscribe(sid);
        match response {
            Some(m) => (Ok(m), actions),
            None => (Err(RatsioError::RequestStreamClosed), actions),
        }
    }

    /// The ping interval in milliseconds.
    pub fn ping_interval_ms(&self) -> (r: u128)
        ensures
            r == self.opts().ping_interval * 1000,
    {
        self.opts.ping_interval as u128 * 1000
    }

    /// The heartbeat monitor goes on pinging unless the client was shut down.
    pub fn should_ping(&self) -> (r: bool)
        ensures
            r == (self.state() != NatsClientState::Shutdown),
    {
        self.state != NatsClientState::Shutdown
    }

    /// At time `now`, the time since the last inbound traffic (zero if the
    /// clock went back) exceeds `ping_max_out` ping intervals.
    pub fn heartbeat_expired(&self, now: u128) -> (r: bool)
        ensures
            r == (sat_sub(now as nat, self.last_ping()) > self.opts().ping_interval * 1000
                * self.opts().ping_max_out),
    {
        let elapsed: u128 = if now >= self.last_ping {
            now - self.last_ping
        } else {
            0
        };
        proof {
            assert(self.opts().ping_interval * 1000 * self.opts().ping_max_out <= 0xffff_ffff * 1000
                * 0xffff_ffff) by (nonlinear_arith)
                requires
                    self.opts().ping_interval <= 0xffff_ffff,
                    self.opts().ping_max_out <= 0xffff_ffff,
            ;
        }
        let limit: u128 = self.opts.ping_interval as u128 * 1000 * self.opts.ping_max_out as u128;
        elapsed > limit
    }

    /// The connection was lost: the client becomes disconnected unless it was
    /// shut down. Returns whether the disconnect handlers are to run: only
    /// when this call ends a live connection (connecting or connected) and the
    /// client still holds its reference to itself, so that one loss runs them
    /// once.
    pub fn on_disconnect(&mut self) -> (r: bool)
        requires
            old(self).wf(),
        ensures
            final(self).retired() == old(self).retired(),
            final(self).wf(),
            final(self).state() == if old(self).state() == NatsClientState::Shutdown {
                NatsClientState::Shutdown
            } else {
                NatsClientState::Disconnected
            },
            r == (old(self).has_client_ref() && (old(self).state() == NatsClientState::Connected
                || old(self).state() == NatsClientState::Connecting)),
            final(self).subs() == old(self).subs(),
            final(self).version() == old(self).version(),
            final(self).ids() == old(self).ids(),
            final(self).opts() == old(self).opts(),
            final(self).has_client_ref() == old(self).has_client_ref(),
    {
        let live = self.state == NatsClientState::Connected || self.state
            == NatsClientState::Connecting;
        if self.state != NatsClientState::Shutdown {
            self.state = NatsClientState::Disconnected;
        }
        assert(self.retired() == old(self).retired());
        self.has_client_ref && live
    }

    /// Begins a reconnect: only a disconnected client moves to reconnecting
    /// and gets `true`; in any other state this is a no-op giving `false`.
    pub fn reconnect(&mut self) -> (r: bool)
        ensures
            final(self).retired() == old(self).retired(),
            r == (old(self).state() == NatsClientState::Disconnected),
            r ==> final(self).state() == NatsClientState::Reconnecting,
            !r ==> *final(self) == *old(self),
            final(self).subs() == old(self).subs(),
            final(self).version() == old(self).version(),
            final(self).ids() == old(self).ids(),
            final(self).opts() == old(self).opts(),
            final(self).has_client_ref() == old(self).has_client_ref(),
    {
        if self.state == NatsClientState::Disconnected {
            self.state = NatsClientState::Reconnecting;
            true
        } else {
            false
        }
    }

    /// A reconnecting client can reconnect only while it holds a reference
    /// to itself.
    pub fn can_reconnect(&self) -> (r: bool)
        ensures
            r == self.has_client_ref(),
    {
        self.has_client_ref
    }

    /// A new connection was established: the version is bumped, retiring
    /// readers of the old connection, the client is connected again, and the
    /// operations to send are CONNECT followed, where resubscription is
    /// configured, by one SUB for each registry entry in registry order.
    /// Without a reference to itself the client cannot reconnect: it goes
    /// back to disconnected with `CannotReconnectToServer`.
    pub fn resume(&mut self) -> (r: Result<Vec<Op>, RatsioError>)
        requires
            old(self).wf(),
            old(self).state() == NatsClientState::Reconnecting,
        ensures
            final(self).retired() == old(self).retired(),
            final(self).wf(),
            final(self).subs() == old(self).subs(),
            final(self).ids() == old(self).ids(),
            final(self).opts() == old(self).opts(),
            final(self).has_client_ref() == old(self).has_client_ref(),
            !old(self).has_client_ref() ==> r == Err::<Vec<Op>, _>(
                RatsioError::CannotReconnectToServer,
            ) && final(self).state() == NatsClientState::Disconnected && final(self).version()
                == old(self).version(),
            old(self).has_client_ref() ==> r is Ok && final(self).state()
                == NatsClientState::Connected && final(self).version() == if old(self).version()
                < u128::MAX {
                old(self).version() + 1
            } else {
                old(self).version()
            },
            r matches Ok(ops) ==> {
                &&& ops@[0] matches Op::CONNECT(c) && connect_for(old(self).opts(), c)
                &&& old(self).opts().subscribe_on_reconnect ==> ops@.len() == 1 + old(
                    self,
                ).subs().len() && forall|i: int|
                    0 <= i < old(self).subs().len() ==> is_sub_of(
                        #[trigger] ops@[i + 1],
                        old(self).subs()[i],
                    )
                &&& !old(self).opts().subscribe_on_reconnect ==> ops@.len() == 1
            },
    {
        if !self.has_client_ref {
            self.state = NatsClientState::Disconnected;
            assert(self.retired() == old(self).retired());
            return Err(RatsioError::CannotReconnectToServer);
        }
        if self.reconnect_version < u128::MAX {
            self.reconnect_version = self.reconnect_version + 1;
        }
        let mut ops: Vec<Op> = Vec::new();
        ops.push(self.connect_command());
        if self.opts.subscribe_on_reconnect {
            let mut i: usize = 0;
            while i < self.subscriptions.len()
                invariant
                    i <= self.subs().len(),
                    ops@.len() == 1 + i,
                    ops@[0] matches Op::CONNECT(c) && connect_for(self.opts(), c),
                    forall|k: int| 0 <= k < i ==> is_sub_of(#[trigger] ops@[k + 1], self.subs()[k]),
                decreases self.subs().len() - i,
            {
                ops.push(Op::SUB(clone_subscribe(&self.subscriptions[i])));
                i = i + 1;
            }
        }
        self.state = NatsClientState::Connected;
        assert(self.retired() == old(self).retired());
        Ok(ops)
    }

    /// A reconnect attempt failed: the client is disconnected again.
    pub fn reconnect_failed(&mut self)
        requires
            old(self).wf(),
        ensures
            final(self).retired() == old(self).retired(),
            final(self).wf(),
            final(self).state() == if old(self).state() == NatsClientState::Shutdown {
                NatsClientState::Shutdown
            } else {
                NatsClientState::Disconnected
            },
            final(self).subs() == old(self).subs(),
            final(self).version() == old(self).version(),
            final(self).ids() == old(self).ids(),
            final(self).opts() == old(self).opts(),
            final(self).has_client_ref() == old(self).has_client_ref(),
    {
        if self.state != NatsClientState::Shutdown {
            self.state = NatsClientState::Disconnected;
        }
        assert(self.retired() == old(self).retired());
    }

    /// Gives the identifier generator a fresh prefix and sequence, drawn from
    /// caller-supplied entropy, once it has run out. The new prefix must
    /// differ from the current one and from every prefix used before, so that
    /// no identifier is ever handed out twice; otherwise nothing changes and
    /// the result is `false`.
    pub fn reseed(&mut self, prefix_seed: &[u8; 12], seq_seed: u64, inc_seed: u64) -> (r: bool)
        requires
            old(self).wf(),
        ensures
            final(self).wf(),
            final(self).subs() == old(self).subs(),
            final(self).state() == old(self).state(),
            final(self).version() == old(self).version(),
            final(self).opts() == old(self).opts(),
            final(self).has_client_ref() == old(self).has_client_ref(),
            r <==> {
                let np = Seq::new(PREFIX_LEN as nat, |i: int| digit_char((prefix_seed@[i] % 62) as nat));
                np != old(self).ids().prefix() && !old(self).retired().contains(np)
            },
            !r ==> *final(self) == *old(self),
            r ==> {
                &&& final(self).ids().prefix() == Seq::new(
                    PREFIX_LEN as nat,
                    |i: int| digit_char((prefix_seed@[i] % 62) as nat),
                )
                &&& final(self).ids().seq() == seq_seed % MAX_SEQ
                &&& final(self).ids().inc() == MIN_INC + inc_seed % INC_SPAN
                &&& final(self).retired() == old(self).retired().push(old(self).ids().prefix())
            },
    {
        let candidate = Nuid::from_entropy(prefix_seed, seq_seed, inc_seed);
        let np = candidate.prefix_bytes();
        let cur = self.ids.prefix_bytes();
        if bytes_eq(np.as_slice(), cur.as_slice()) {
            return false;
        }
        let mut k: usize = 0;
        while k < self.retired.len()
            invariant
                k <= self.retired().len(),
                *self == *old(self),
                self.wf(),
                np@ == Seq::new(PREFIX_LEN as nat, |i: int| digit_char((prefix_seed@[i] % 62) as nat)),
                np@ != self.ids().prefix(),
                self.retired@.len() == self.retired().len(),
                forall|j: int| 0 <= j < k ==> self.retired()[j] != np@,
            decreases self.retired().len() - k,
        {
            if bytes_eq(np.as_slice(), self.retired[k].as_slice()) {
                assert(self.retired()[k as int] == np@);
                assert(self.retired().contains(np@));
                return false;
            }
            k = k + 1;
        }
        let ghost old_self = *self;
        self.retired.push(cur);
        self.ids = candidate;
        proof {
            reveal(issued_by);
            assert(self.retired() =~= old_self.retired().push(old_self.ids().prefix()));
            assert forall|i: int| 0 <= i < self.subs().len() implies self.issued(#[trigger] self.subs()[i].sid@) by {
                let x = self.subs()[i].sid@;
                assert(old_self.issued(x));
                let last = old_self.retired().len() as int;
                if minted(x, old_self.ids().prefix(), old_self.ids().seq()) {
                    let p = old_self.ids().prefix();
                    let s = choose|s: nat| s <= old_self.ids().seq() && #[trigger] id_of(p, s) == x;
                    assert(id_of(p, s) == x);
                    assert(minted_any(x, self.retired()[last]));
                } else {
                    let k2 = choose|k: int| 0 <= k < old_self.retired().len() && minted_any(x, #[trigger] old_self.retired()[k]);
                    assert(self.retired()[k2] == old_self.retired()[k2]);
                }
            }
            if old_self.retired().contains(np@) {
                let j = choose|j: int| 0 <= j < old_self.retired().len() && old_self.retired()[j] == np@;
                assert(false);
            }
            assert forall|k2: int| 0 <= k2 < self.retired().len() implies (#[trigger] self.retired()[k2]).len()
                == PREFIX_LEN && self.retired()[k2] != self.ids().prefix() by {
                if k2 < old_self.retired().len() {
                    assert(self.retired()[k2] == old_self.retired()[k2]);
                }
            }
        }
        true
    }

    /// A reader started for connection version `version` may still route
    /// operations.
    pub fn is_current(&self, version: u128) -> (r: bool)
        ensures
            r == (version == self.version()),
    {
        version == self.reconnect_version
    }

    /// The current connection version.
    pub fn reconnect_version(&self) -> (r: u128)
        ensures
            r == self.version(),
    {
        self.reconnect_version
    }

    /// The current connection state.
    pub fn current_state(&self) -> (r: NatsClientState)
        ensures
            r == self.state(),
    {
        self.state
    }

    /// The most recent server information, if any was received.
    pub fn latest_server_info(&self) -> (r: Option<Vec<u8>>)
        ensures
            opt_view(r) == self.server_info(),
    {
        clone_opt(&self.server_info)
    }

    /// Whether subscription id `sid` is registered.
    pub fn is_subscribed(&self, sid: &NatsSid) -> (r: bool)
        ensures
            r == registered(self.subs(), sid.0@),
    {
        self.find_sid(sid.0.as_slice()).is_some()
    }

    /// The number of registered subscriptions.
    pub fn subscription_count(&self) -> (r: usize)
        ensures
            r == self.subs().len(),
    {
        self.subscriptions.len()
    }

    /// Milliseconds since the Unix epoch, or zero where the clock stands
    /// before it.
    pub fn time_in_millis() -> (r: u128) {
        let now = std::time::SystemTime::now();
        match now.duration_since(unix_epoch()) {
            Ok(duration) => duration.as_millis(),
            Err(_) => 0,
        }
    }
}

/// Unsubscribing is idempotent: unsubscribing the same id a second time
/// leaves the registry as the first call left it.
pub proof fn lemma_unsubscribe_idempotent(subs: Seq<Subscribe>, sid: Seq<u8>)
    requires
        unique_sids(subs),
    ensures
        !registered(remove_sid(subs, sid), sid),
        remove_sid(remove_sid(subs, sid), sid) == remove_sid(subs, sid),
{
    if registered(subs, sid) {
        let i = choose|i: int| #[trigger] sid_at(subs, i, sid);
        let after = subs.remove(i);
        if registered(after, sid) {
            let k = choose|k: int| #[trigger] sid_at(after, k, sid);
            let k2 = if k < i { k } else { k + 1 };
            assert(after[k] == subs[k2]);
        }
    }
}

/// A request leaves no reply subscription behind: where the request added
/// one entry with a fresh id to the registry, removing that id once the
/// reply has come gives back the registry as it was before the request.
pub proof fn lemma_request_leaves_no_subscription(
    before: Seq<Subscribe>,
    during: Seq<Subscribe>,
    sid: Seq<u8>,
)
    requires
        !registered(before, sid),
        during.len() == before.len() + 1,
        during.drop_last() == before,
        during.last().sid@ == sid,
    ensures
        remove_sid(during, sid) == before,
        !registered(remove_sid(during, sid), sid),
{
    let last = during.len() - 1;
    assert(sid_at(during, last, sid));
    let i = choose|i: int| #[trigger] sid_at(during, i, sid);
    if i != last {
        assert(during[i] == before[i]);
        assert(sid_at(before, i, sid));
    }
    assert(during.remove(last) =~= before);
}

/// Identifiers handed out by a client are never handed out again: an id the
/// client issued before differs from the id that a later subscribe mints
/// from a greater sequence value.
pub proof fn lemma_subscribe_sid_fresh(client: NatsClientInner, earlier: Seq<u8>, later_seq: nat)
    requires
        client.wf(),
        client.issued(earlier),
        client.ids().seq() < later_seq,
        later_seq < MAX_SEQ,
    ensures
        earlier != id_of(client.ids().prefix(), later_seq),
{
    lemma_fresh_id(client, later_seq);
}

/// An identifier minted from a sequence value beyond the current one has
/// not been issued: not under the current prefix, whose values stay below,
/// and not under a retired prefix, which differs from the current one.
pub proof fn lemma_fresh_id(c: NatsClientInner, later_seq: nat)
    requires
        c.wf(),
        c.ids().seq() < later_seq < MAX_SEQ,
    ensures
        !c.issued(id_of(c.ids().prefix(), later_seq)),
{
    reveal(issued_by);
    let p = c.ids().prefix();
    let x = id_of(p, later_seq);
    if minted(x, p, c.ids().seq()) {
        let s = choose|s: nat| s <= c.ids().seq() && #[trigger] id_of(p, s) == x;
        lemma_ids_distinct(p, s, later_seq);
    }
    if exists|k: int| 0 <= k < c.retired().len() && minted_any(x, #[trigger] c.retired()[k]) {
        let k = choose|k: int| 0 <= k < c.retired().len() && minted_any(x, #[trigger] c.retired()[k]);
        let q = c.retired()[k];
        let s = choose|s: nat| s < MAX_SEQ && #[trigger] id_of(q, s) == x;
        assert(id_of(q, s).subrange(0, 12) =~= q);
        assert(x.subrange(0, 12) =~= p);
    }
}

/// What a client issued stays issued while its generator only moves
/// forward on the same prefix.
pub proof fn lemma_issued_grows(c: NatsClientInner, d: NatsClientInner, x: Seq<u8>)
    requires
        c.issued(x),
        d.ids().prefix() == c.ids().prefix(),
        c.ids().seq() <= d.ids().seq(),
        d.retired() == c.retired(),
    ensures
        d.issued(x),
{
    reveal(issued_by);
    if minted(x, c.ids().prefix(), c.ids().seq()) {
        let p = c.ids().prefix();
        let s = choose|s: nat| s <= c.ids().seq() && #[trigger] id_of(p, s) == x;
        assert(id_of(p, s) == x);
    }
}

/// The bytes `nats://`.
pub open spec fn nats_scheme() -> Seq<u8> {
    seq![110u8, 97u8, 116u8, 115u8, 58u8, 47u8, 47u8]
}

/// A server address without its `nats://` scheme, where it has one.
pub open spec fn without_scheme(uri: Seq<u8>) -> Seq<u8> {
    if uri.len() >= 7 && uri.subrange(0, 7) == nats_scheme() {
        uri.subrange(7, uri.len() as int)
    } else {
        uri
    }
}

/// `uri` without its `nats://` scheme, where it has one: the `host:port`
/// to resolve.
pub fn strip_scheme(uri: &[u8]) -> (r: Vec<u8>)
    ensures
        r@ == without_scheme(uri@),
{
    let scheme = [110u8, 97u8, 116u8, 115u8, 58u8, 47u8, 47u8];
    assert(scheme@ =~= nats_scheme());
    if crate::parser::has_at(uri, 0, uri.len(), scheme.as_slice()) {
        copy_range(uri, 7, uri.len())
    } else {
        copy_all(uri)
    }
}

/// The `host:port` of each configured server address, in order.
pub fn candidate_uris(uris: &Vec<Vec<u8>>) -> (r: Vec<Vec<u8>>)
    ensures
        r@.len() == uris@.len(),
        forall|i: int| 0 <= i < uris@.len() ==> #[trigger] r@[i]@ == without_scheme(uris@[i]@),
{
    let mut r: Vec<Vec<u8>> = Vec::new();
    let mut i: usize = 0;
    while i < uris.len()
        invariant
            i <= uris@.len(),
            r@.len() == i,
            forall|k: int| 0 <= k < i ==> #[trigger] r@[k]@ == without_scheme(uris@[k]@),
        decreases uris@.len() - i,
    {
        r.push(strip_scheme(uris[i].as_slice()));
        i = i + 1;
    }
    r
}

/// The next step of connecting to one of the server addresses.
pub enum ConnectStep {
    /// Try the address at this index.
    Try(usize),
    /// Wait this many milliseconds, then start again from the first address.
    Wait(u64),
    /// Give up with this error.
    Fail(RatsioError),
}

/// The step after `tried` of `addresses` addresses were tried without
/// success: addresses are tried in the order given, and once all failed the
/// client waits and starts over where retries are asked for, and otherwise
/// gives up with no route. With no address at all the configuration is
/// unusable.
pub fn connect_step(tried: usize, addresses: usize, keep_retrying: bool, reconnect_timeout: u64) -> (r:
    ConnectStep)
    requires
        tried <= addresses,
    ensures
        tried < addresses ==> r == ConnectStep::Try(tried),
        tried == addresses && addresses == 0 ==> r == ConnectStep::Fail(
            RatsioError::ConfigurationError,
        ),
        tried == addresses && addresses > 0 && keep_retrying ==> r == ConnectStep::Wait(
            reconnect_timeout,
        ),
        tried == addresses && addresses > 0 && !keep_retrying ==> r == ConnectStep::Fail(
            RatsioError::NoRouteToHostError,
        ),
{
    if tried < addresses {
        ConnectStep::Try(tried)
    } else {
        match after_all_failed(addresses, keep_retrying, reconnect_timeout) {
            Ok(ms) => ConnectStep::Wait(ms),
            Err(e) => ConnectStep::Fail(e),
        }
    }
}

/// What to do once every candidate address was tried without success:
/// with no address at all the configuration is unusable; otherwise wait
/// `reconnect_timeout` milliseconds and go again where retries are asked
/// for, or give up with no route.
pub fn after_all_failed(addresses: usize, keep_retrying: bool, reconnect_timeout: u64) -> (r:
    Result<u64, RatsioError>)
    ensures
        addresses == 0 ==> r == Err::<u64, _>(RatsioError::ConfigurationError),
        addresses > 0 && keep_retrying ==> r == Ok::<u64, RatsioError>(reconnect_timeout),
        addresses > 0 && !keep_retrying ==> r == Err::<u64, _>(RatsioError::NoRouteToHostError),
{
    if addresses == 0 {
        Err(RatsioError::ConfigurationError)
    } else if keep_retrying {
        Ok(reconnect_timeout)
    } else {
        Err(RatsioError::NoRouteToHostError)
    }
}

/// The messages that a sequence of actions delivers, in order.
pub open spec fn deliveries(actions: Seq<Action>) -> Seq<Message>
    decreases actions.len(),
{
    if actions.len() == 0 {
        seq![]
    } else {
        deliveries(actions.drop_last()) + match actions.last() {
            Action::Deliver(m) => seq![m],
            _ => seq![],
        }
    }
}

/// The MSG operations among `items` whose subscription id is registered in
/// `subs`, in order.
pub open spec fn routed(subs: Seq<Subscribe>, items: Seq<Op>) -> Seq<Message>
    decreases items.len(),
{
    if items.len() == 0 {
        seq![]
    } else {
        routed(subs, items.drop_last()) + match items.last() {
            Op::MSG(m) => if registered(subs, m.sid@) {
                seq![m]
            } else {
                seq![]
            },
            _ => seq![],
        }
    }
}

/// The number of PONG operations that a sequence of actions sends.
pub open spec fn pong_count(actions: Seq<Action>) -> nat
    decreases actions.len(),
{
    if actions.len() == 0 {
        0
    } else {
        pong_count(actions.drop_last()) + match actions.last() {
            Action::Send(Op::PONG) => 1nat,
            _ => 0nat,
        }
    }
}

/// The number of PING operations among `items`.
pub open spec fn ping_count(items: Seq<Op>) -> nat
    decreases items.len(),
{
    if items.len() == 0 {
        0
    } else {
        ping_count(items.drop_last()) + if items.last() is PING {
            1nat
        } else {
            0nat
        }
    }
}

proof fn lemma_pong_count_append(a: Seq<Action>, b: Seq<Action>)
    ensures
        pong_count(a + b) == pong_count(a) + pong_count(b),
    decreases b.len(),
{
    if b.len() == 0 {
        assert(a + b =~= a);
    } else {
        lemma_pong_count_append(a, b.drop_last());
        assert((a + b).drop_last() =~= a + b.drop_last());
        assert((a + b).last() == b.last());
    }
}

proof fn lemma_deliveries_append(a: Seq<Action>, b: Seq<Action>)
    ensures
        deliveries(a + b) == deliveries(a) + deliveries(b),
    decreases b.len(),
{
    if b.len() == 0 {
        assert(a + b =~= a);
    } else {
        lemma_deliveries_append(a, b.drop_last());
        assert((a + b).drop_last() =~= a + b.drop_last());
        assert((a + b).last() == b.last());
    }
}

impl NatsClientInner {
    /// Routes inbound operations received at time `now`, in order, as
    /// `process_nats_event` does for each. Where no CLOSE is among them the
    /// registry stays as it is and the delivered messages are exactly the
    /// MSG operations for registered ids, in the order they came: messages
    /// of one subscription reach its consumer in the server's order, and one
    /// PONG is sent for each PING. Any operation counts as traffic at `now`.
    pub fn process_events(&mut self, items: Vec<Op>, now: u128) -> (r: Vec<Action>)
        requires
            old(self).wf(),
        ensures
            final(self).retired() == old(self).retired(),
            final(self).wf(),
            final(self).version() == old(self).version(),
            final(self).ids() == old(self).ids(),
            items@.len() > 0 ==> final(self).last_ping() == now,
            items@.len() == 0 ==> *final(self) == *old(self) && r@.len() == 0,
            (forall|i: int| 0 <= i < items@.len() ==> !(#[trigger] items@[i] is CLOSE)) ==> {
                &&& final(self).subs() == old(self).subs()
                &&& deliveries(r@) == routed(old(self).subs(), items@)
                &&& pong_count(r@) == ping_count(items@)
            },
    {
        let ghost all = items@;
        let ghost subs0 = self.subs();
        let mut items = items;
        let total = items.len();
        let mut actions: Vec<Action> = Vec::new();
        let mut k: usize = 0;
        let ghost no_close = forall|i: int| 0 <= i < all.len() ==> !(#[trigger] all[i] is CLOSE);
        while items.len() > 0
            invariant
                self.wf(),
                self.version() == old(self).version(),
                self.ids() == old(self).ids(),
                self.retired() == old(self).retired(),
                k <= all.len(),
                total == all.len(),
                items@ == all.subrange(k as int, all.len() as int),
                no_close == (forall|i: int| 0 <= i < all.len() ==> !(#[trigger] all[i] is CLOSE)),
                no_close ==> self.subs() == subs0,
                no_close ==> deliveries(actions@) == routed(subs0, all.subrange(0, k as int)),
                no_close ==> pong_count(actions@) == ping_count(all.subrange(0, k as int)),
                k > 0 ==> self.last_ping() == now,
                k == 0 ==> *self == *old(self) && actions@.len() == 0,
            decreases items@.len(),
        {
            let item = items.remove(0);
            let ghost before = actions@;
            assert(item == all[k as int]);
            let step = self.process_nats_event(item, now);
            let mut step = step;
            let ghost step_v = step@;
            actions.append(&mut step);
            proof {
                if no_close {
                    assert(!(all[k as int] is CLOSE));
                    lemma_deliveries_append(before, step_v);
                    lemma_pong_count_append(before, step_v);
                    reveal_with_fuel(pong_count, 2);
                    assert(pong_count(step_v) == if all[k as int] is PING {
                        1nat
                    } else {
                        0nat
                    });
                    assert(all.subrange(0, k + 1).drop_last() =~= all.subrange(0, k as int));
                    assert(all.subrange(0, k + 1).last() == all[k as int]);
                    reveal_with_fuel(deliveries, 2);
                    if step_v.len() == 1 {
                        assert(step_v.drop_last() =~= Seq::<Action>::empty());
                    }
                    assert(deliveries(step_v) == match all[k as int] {
                        Op::MSG(m) => if registered(subs0, m.sid@) {
                            seq![m]
                        } else {
                            seq![]
                        },
                        _ => seq![],
                    });
                }
            }
            k = k + 1;
        }
        proof {
            assert(all.subrange(0, all.len() as int) =~= all);
        }
        actions
    }
}

} // verus!
