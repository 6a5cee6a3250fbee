//! The binary envelopes of the streaming protocol, in the protobuf wire
//! format: fields in tag order, fields that hold their default value left out.
use vstd::prelude::*;

verus! {

/// The base-128 varint encoding of `v`, least significant group first.
pub open spec fn varint(v: nat) -> Seq<u8>
    decreases v,
{
    if v < 128 {
        seq![v as u8]
    } else {
        seq![(v % 128 + 128) as u8] + varint(v / 128)
    }
}

/// A length-delimited field; an empty value is left out.
pub open spec fn ld_field(tag: nat, v: Seq<u8>) -> Seq<u8> {
    if v.len() == 0 {
        seq![]
    } else {
        varint(tag * 8 + 2) + varint(v.len()) + v
    }
}

/// A varint field; zero is left out.
pub open spec fn varint_field(tag: nat, v: nat) -> Seq<u8> {
    if v == 0 {
        seq![]
    } else {
        varint(tag * 8) + varint(v)
    }
}

/// Relies on prost::encoding::bytes::encode: appends the key of a
/// length-delimited field with this tag (`tag << 3 | 2` as a varint), the
/// length of the value as a varint, and the value (its key encoding asserts,
/// in debug builds, a tag from 1 to 2^29 - 1).
#[verifier::external_body]
fn encode_bytes_field(tag: u32, v: &Vec<u8>, buf: &mut Vec<u8>)
    requires
        1 <= tag < 0x2000_0000,
    ensures
        final(buf)@ == old(buf)@ + varint((tag * 8 + 2) as nat) + varint(v@.len()) + v@,
{
    prost::encoding::bytes::encode(tag, v, buf)
}

/// Relies on prost::encoding::uint64::encode: appends the key of a varint
/// field with this tag (`tag << 3` as a varint) and the value as a varint
/// (its key encoding asserts, in debug builds, a tag from 1 to 2^29 - 1).
#[verifier::external_body]
fn encode_uint64_field(tag: u32, v: u64, buf: &mut Vec<u8>)
    requires
        1 <= tag < 0x2000_0000,
    ensures
        final(buf)@ == old(buf)@ + varint((tag * 8) as nat) + varint(v as nat),
{
    prost::encoding::uint64::encode(tag, &v, buf)
}

/// Appends a length-delimited field.
pub fn push_ld_field(tag: u32, v: &Vec<u8>, out: &mut Vec<u8>)
    requires
        1 <= tag < 0x1000,
    ensures
        final(out)@ == old(out)@ + ld_field(tag as nat, v@),
{
    if v.len() > 0 {
        encode_bytes_field(tag, v, out);
    } else {
        assert(out@ =~= old(out)@ + ld_field(tag as nat, v@));
    }
}

/// Appends a varint field.
pub fn push_varint_field(tag: u32, v: u64, out: &mut Vec<u8>)
    requires
        1 <= tag < 0x1000,
    ensures
        final(out)@ == old(out)@ + varint_field(tag as nat, v as nat),
{
    if v != 0 {
        encode_uint64_field(tag, v, out);
    } else {
        assert(out@ =~= old(out)@ + varint_field(tag as nat, v as nat));
    }
}

/// The protobuf value of a bool.
pub open spec fn bool_value(b: bool) -> nat {
    if b {
        1
    } else {
        0
    }
}

/// The protobuf value of a signed 32-bit integer: sign-extended to 64 bits.
pub open spec fn int32_value(v: i32) -> nat {
    ((v as i64) as u64) as nat
}

/// The protobuf value of a signed 64-bit integer.
pub open spec fn int64_value(v: i64) -> nat {
    (v as u64) as nat
}

/// Client hello sent to the discovery subject.
pub struct ConnectRequest {
    pub client_id: Vec<u8>,
    pub heartbeat_inbox: Vec<u8>,
    pub conn_id: Vec<u8>,
}

#[verifier::opaque]
pub open spec fn connect_request_wire(client_id: Seq<u8>, heartbeat_inbox: Seq<u8>, conn_id: Seq<
    u8,
>) -> Seq<u8> {
    ld_field(1, client_id) + ld_field(2, heartbeat_inbox) + ld_field(4, conn_id)
}

pub open spec fn connect_request_bytes(m: ConnectRequest) -> Seq<u8> {
    connect_request_wire(m.client_id@, m.heartbeat_inbox@, m.conn_id@)
}

/// A message published through the streaming server.
pub struct PubMsg {
    pub client_id: Vec<u8>,
    pub guid: Vec<u8>,
    pub subject: Vec<u8>,
    pub reply: Vec<u8>,
    pub data: Vec<u8>,
    pub conn_id: Vec<u8>,
    pub sha256: Vec<u8>,
}

/// The PubMsg envelope with these fields.
#[verifier::opaque]
pub open spec fn pub_msg_wire(
    client_id: Seq<u8>,
    guid: Seq<u8>,
    subject: Seq<u8>,
    reply: Seq<u8>,
    data: Seq<u8>,
    conn_id: Seq<u8>,
    sha256: Seq<u8>,
) -> Seq<u8> {
    ld_field(1, client_id) + ld_field(2, guid) + ld_field(3, subject) + ld_field(4, reply)
        + ld_field(5, data) + ld_field(6, conn_id) + ld_field(10, sha256)
}

pub open spec fn pub_msg_bytes(m: PubMsg) -> Seq<u8> {
    pub_msg_wire(m.client_id@, m.guid@, m.subject@, m.reply@, m.data@, m.conn_id@, m.sha256@)
}

/// A request for a streaming subscription.
pub struct SubscriptionRequest {
    pub client_id: Vec<u8>,
    pub subject: Vec<u8>,
    pub q_group: Vec<u8>,
    pub inbox: Vec<u8>,
    pub max_in_flight: i32,
    pub ack_wait_in_secs: i32,
    pub durable_name: Vec<u8>,
    pub start_position: i32,
    pub start_sequence: u64,
    pub start_time_delta: i64,
}

/// The identification part of a subscription request.
#[verifier::opaque]
pub open spec fn subscription_target_wire(
    client_id: Seq<u8>,
    subject: Seq<u8>,
    q_group: Seq<u8>,
    inbox: Seq<u8>,
) -> Seq<u8> {
    ld_field(1, client_id) + ld_field(2, subject) + ld_field(3, q_group) + ld_field(4, inbox)
}

/// The delivery options of a subscription request.
#[verifier::opaque]
pub open spec fn subscription_options_wire(
    max_in_flight: i32,
    ack_wait_in_secs: i32,
    durable_name: Seq<u8>,
    start_position: i32,
    start_sequence: u64,
    start_time_delta: i64,
) -> Seq<u8> {
    varint_field(5, int32_value(max_in_flight)) + varint_field(6, int32_value(ack_wait_in_secs))
        + ld_field(7, durable_name) + varint_field(10, int32_value(start_position))
        + varint_field(11, start_sequence as nat) + varint_field(12, int64_value(start_time_delta))
}

pub open spec fn subscription_request_bytes(m: SubscriptionRequest) -> Seq<u8> {
    subscription_target_wire(m.client_id@, m.subject@, m.q_group@, m.inbox@)
        + subscription_options_wire(
        m.max_in_flight,
        m.ack_wait_in_secs,
        m.durable_name@,
        m.start_position,
        m.start_sequence,
        m.start_time_delta,
    )
}

/// The end of a streaming subscription.
pub struct UnsubscribeRequest {
    pub client_id: Vec<u8>,
    pub subject: Vec<u8>,
    pub inbox: Vec<u8>,
    pub durable_name: Vec<u8>,
}

#[verifier::opaque]
pub open spec fn unsubscribe_request_wire(
    client_id: Seq<u8>,
    subject: Seq<u8>,
    inbox: Seq<u8>,
    durable_name: Seq<u8>,
) -> Seq<u8> {
    ld_field(1, client_id) + ld_field(2, subject) + ld_field(3, inbox) + ld_field(4, durable_name)
}

pub open spec fn unsubscribe_request_bytes(m: UnsubscribeRequest) -> Seq<u8> {
    unsubscribe_request_wire(m.client_id@, m.subject@, m.inbox@, m.durable_name@)
}

/// The end of a streaming session.
pub struct CloseRequest {
    pub client_id: Vec<u8>,
}

#[verifier::opaque]
pub open spec fn close_request_wire(client_id: Seq<u8>) -> Seq<u8> {
    ld_field(1, client_id)
}

pub open spec fn close_request_bytes(m: CloseRequest) -> Seq<u8> {
    close_request_wire(m.client_id@)
}

/// The acknowledgement of one message.
pub struct Ack {
    pub subject: Vec<u8>,
    pub sequence: u64,
}

#[verifier::opaque]
pub open spec fn ack_wire(subject: Seq<u8>, sequence: nat) -> Seq<u8> {
    ld_field(1, subject) + varint_field(2, sequence)
}

pub open spec fn ack_bytes(m: Ack) -> Seq<u8> {
    ack_wire(m.subject@, m.sequence as nat)
}

impl ConnectRequest {
    pub fn encode(&self) -> (r: Vec<u8>)
        ensures
            r@ == connect_request_bytes(*self),
    {
        reveal(connect_request_wire);
        let mut out: Vec<u8> = Vec::new();
        push_ld_field(1, &self.client_id, &mut out);
        push_ld_field(2, &self.heartbeat_inbox, &mut out);
        push_ld_field(4, &self.conn_id, &mut out);
        assert(out@ =~= connect_request_bytes(*self));
        out
    }
}

impl PubMsg {
    pub fn encode(&self) -> (r: Vec<u8>)
        ensures
            r@ == pub_msg_bytes(*self),
    {
        reveal(pub_msg_wire);
        let mut out: Vec<u8> = Vec::new();
        push_ld_field(1, &self.client_id, &mut out);
        push_ld_field(2, &self.guid, &mut out);
        push_ld_field(3, &self.subject, &mut out);
        push_ld_field(4, &self.reply, &mut out);
        push_ld_field(5, &self.data, &mut out);
        push_ld_field(6, &self.conn_id, &mut out);
        push_ld_field(10, &self.sha256, &mut out);
        assert(out@ =~= pub_msg_bytes(*self));
        out
    }
}

impl SubscriptionRequest {
    pub fn encode(&self) -> (r: Vec<u8>)
        ensures
            r@ == subscription_request_bytes(*self),
    {
        reveal(subscription_target_wire);
        reveal(subscription_options_wire);
        let mut out: Vec<u8> = Vec::new();
        push_ld_field(1, &self.client_id, &mut out);
        push_ld_field(2, &self.subject, &mut out);
        push_ld_field(3, &self.q_group, &mut out);
        push_ld_field(4, &self.inbox, &mut out);
        push_varint_field(5, (self.max_in_flight as i64) as u64, &mut out);
        push_varint_field(6, (self.ack_wait_in_secs as i64) as u64, &mut out);
        push_ld_field(7, &self.durable_name, &mut out);
        push_varint_field(10, (self.start_position as i64) as u64, &mut out);
        push_varint_field(11, self.start_sequence, &mut out);
        push_varint_field(12, self.start_time_delta as u64, &mut out);
        assert(out@ =~= subscription_request_bytes(*self));
        out
    }
}

impl UnsubscribeRequest {
    pub fn encode(&self) -> (r: Vec<u8>)
        ensures
            r@ == unsubscribe_request_bytes(*self),
    {
        reveal(unsubscribe_request_wire);
        let mut out: Vec<u8> = Vec::new();
        push_ld_field(1, &self.client_id, &mut out);
        push_ld_field(2, &self.subject, &mut out);
        push_ld_field(3, &self.inbox, &mut out);
        push_ld_field(4, &self.durable_name, &mut out);
        assert(out@ =~= unsubscribe_request_bytes(*self));
        out
    }
}

impl CloseRequest {
    pub fn encode(&self) -> (r: Vec<u8>)
        ensures
            r@ == close_request_bytes(*self),
    {
        reveal(close_request_wire);
        let mut out: Vec<u8> = Vec::new();
        push_ld_field(1, &self.client_id, &mut out);
        assert(out@ =~= close_request_bytes(*self));
        out
    }
}

impl Ack {
    pub fn encode(&self) -> (r: Vec<u8>)
        ensures
            r@ == ack_bytes(*self),
    {
        reveal(ack_wire);
        let mut out: Vec<u8> = Vec::new();
        push_ld_field(1, &self.subject, &mut out);
        push_varint_field(2, self.sequence, &mut out);
        assert(out@ =~= ack_bytes(*self));
        out
    }
}

/// The value of a little-endian base-128 group sequence.
pub open spec fn leb_value(s: Seq<u8>) -> nat
    decreases s.len(),
{
    if s.len() == 0 {
        0
    } else {
        (s[0] % 128) as nat + 128 * leb_value(s.drop_first())
    }
}

/// `s` is one complete varint: every byte but the last has its high bit set.
pub open spec fn is_varint(s: Seq<u8>) -> bool {
    &&& 1 <= s.len() <= 10
    &&& forall|i: int| 0 <= i < s.len() - 1 ==> s[i] >= 128
    &&& s.last() < 128
}

/// A varint has its high bit set on every byte but the last, and its groups
/// add up to the value.
pub proof fn lemma_varint_shape(v: nat)
    ensures
        varint(v).len() >= 1,
        forall|i: int| 0 <= i < varint(v).len() - 1 ==> #[trigger] varint(v)[i] >= 128,
        varint(v).last() < 128,
        leb_value(varint(v)) == v,
    decreases v,
{
    if v >= 128 {
        lemma_varint_shape(v / 128);
        let t = varint(v / 128);
        let s = varint(v);
        assert(s == seq![(v % 128 + 128) as u8] + t);
        assert(s.drop_first() =~= t);
        assert forall|i: int| 0 <= i < s.len() - 1 implies #[trigger] s[i] >= 128 by {
            if i > 0 {
                assert(s[i] == t[i - 1]);
            }
        }
        assert(s.last() == t.last());
        assert(s[0] == (v % 128 + 128) as u8);
        assert((s[0] % 128) as nat == v % 128);
        assert(leb_value(s) == (s[0] % 128) as nat + 128 * leb_value(s.drop_first()));
        assert(v == v % 128 + 128 * (v / 128));
    } else {
        assert(varint(v).drop_first() =~= Seq::<u8>::empty());
        assert(leb_value(Seq::<u8>::empty()) == 0);
        assert(leb_value(varint(v)) == (varint(v)[0] % 128) as nat + 128 * leb_value(
            varint(v).drop_first(),
        ));
    }
}

/// Where a buffer starts with the varint of `v`, the only complete varint
/// at its start is that one.
pub proof fn lemma_varint_unique(v: nat, s: Seq<u8>, n: int)
    requires
        varint(v).len() <= s.len(),
        s.subrange(0, varint(v).len() as int) == varint(v),
        1 <= n <= s.len(),
        is_varint(s.subrange(0, n)),
    ensures
        n == varint(v).len(),
        s.subrange(0, n) == varint(v),
{
    lemma_varint_shape(v);
    let l = varint(v).len() as int;
    if n < l {
        assert(s.subrange(0, n).last() == s[n - 1]);
        assert(s.subrange(0, l)[n - 1] == s[n - 1]);
    } else if n > l {
        assert(s.subrange(0, n)[l - 1] == s[l - 1]);
        assert(s.subrange(0, l)[l - 1] == s[l - 1]);
    }
    assert(s.subrange(0, n) =~= s.subrange(0, l));
}

/// Relies on prost::encoding::decode_varint, which reads one varint of at
/// most ten bytes from the front of a slice and advances the slice past it;
/// it fails where no complete varint stands there or the value overflows
/// 64 bits, and succeeds on the shortest encoding of a 64-bit value.
/// Returns the value and the number of bytes left after it.
#[verifier::external_body]
fn decode_varint(buf: &[u8]) -> (r: Option<(u64, usize)>)
    ensures
        r matches Some((v, left)) ==> left < buf@.len() && is_varint(
            buf@.subrange(0, buf@.len() - left),
        ) && leb_value(buf@.subrange(0, buf@.len() - left)) == v,
        forall|v: nat|
            v < 0x1_0000_0000_0000_0000 && varint(v).len() <= buf@.len() && #[trigger] buf@.subrange(
                0,
                varint(v).len() as int,
            ) == varint(v) ==> r is Some,
{
    let mut rest: &[u8] = buf;
    match prost::encoding::decode_varint(&mut rest) {
        Ok(v) => Some((v, rest.len())),
        Err(_) => None,
    }
}

/// Relies on prost::encoding::decode_key, which reads one varint key from
/// the front of a slice as `decode_varint` does and splits it into tag and
/// wire type; it fails where the key exceeds 32 bits, the wire type is 6 or
/// 7, or the tag is 0. Returns the tag, the wire type as a number and the
/// number of bytes left.
#[verifier::external_body]
fn decode_key(buf: &[u8]) -> (r: Option<(u32, u64, usize)>)
    ensures
        r matches Some((tag, wire, left)) ==> left < buf@.len() && is_varint(
            buf@.subrange(0, buf@.len() - left),
        ) && leb_value(buf@.subrange(0, buf@.len() - left)) == tag * 8 + wire && wire <= 5
            && tag >= 1,
        forall|v: nat|
            8 <= v <= 0xffff_ffff && v % 8 <= 5 && varint(v).len() <= buf@.len()
                && #[trigger] buf@.subrange(0, varint(v).len() as int) == varint(v) ==> r is Some,
{
    let mut rest: &[u8] = buf;
    match prost::encoding::decode_key(&mut rest) {
        Ok((tag, wire)) => Some((tag, wire as u64, rest.len())),
        Err(_) => None,
    }
}

/// Reads the field key at `buf[pos..]`: its tag, wire type and the
/// position after it.
pub fn read_key(buf: &[u8], pos: usize) -> (r: Option<(u32, u64, usize)>)
    requires
        pos <= buf@.len(),
    ensures
        r matches Some((tag, wire, end)) ==> pos < end <= buf@.len() && wire <= 5 && tag >= 1,
        forall|v: nat|
            8 <= v <= 0xffff_ffff && v % 8 <= 5 && pos + varint(v).len() <= buf@.len()
                && #[trigger] buf@.subrange(pos as int, pos + varint(v).len()) == varint(v) ==> (r
                matches Some((tag, wire, end)) && tag == v / 8 && wire == v % 8 && end == pos
                + varint(v).len()),
{
    let rest = slice_from(buf, pos);
    assert forall|v: nat|
        8 <= v <= 0xffff_ffff && v % 8 <= 5 && pos + varint(v).len() <= buf@.len()
            && #[trigger] buf@.subrange(pos as int, pos + varint(v).len()) == varint(v) implies rest@.subrange(
            0,
            varint(v).len() as int,
        ) == varint(v) by {
        assert(rest@.subrange(0, varint(v).len() as int) =~= buf@.subrange(pos as int, pos + varint(v).len()));
    }
    match decode_key(rest) {
        Some((tag, wire, left)) => {
            let end = buf.len() - left;
            assert forall|v: nat|
                8 <= v <= 0xffff_ffff && v % 8 <= 5 && pos + varint(v).len() <= buf@.len()
                    && #[trigger] buf@.subrange(pos as int, pos + varint(v).len()) == varint(v) implies tag
                == v / 8 && wire == v % 8 && end == pos + varint(v).len() by {
                let n = (end - pos) as int;
                assert(rest@.subrange(0, n) =~= buf@.subrange(pos as int, end as int));
                assert(rest@.subrange(0, varint(v).len() as int) =~= buf@.subrange(pos as int, pos + varint(v).len()));
                lemma_varint_unique(v, rest@, n);
                lemma_varint_shape(v);
            }
            Some((tag, wire, end))
        },
        None => None,
    }
}

/// Reads the varint at `buf[pos..]`: its value and the position after it.
pub fn read_varint(buf: &[u8], pos: usize) -> (r: Option<(u64, usize)>)
    requires
        pos <= buf@.len(),
    ensures
        r matches Some((v, end)) ==> pos < end <= buf@.len() && is_varint(
            buf@.subrange(pos as int, end as int),
        ) && leb_value(buf@.subrange(pos as int, end as int)) == v,
        forall|v: nat|
            v < 0x1_0000_0000_0000_0000 && pos + varint(v).len() <= buf@.len()
                && #[trigger] buf@.subrange(pos as int, pos + varint(v).len()) == varint(v) ==> r
                == Some((v as u64, (pos + varint(v).len()) as usize)),
{
    let rest = slice_from(buf, pos);
    assert forall|v: nat|
        v < 0x1_0000_0000_0000_0000 && pos + varint(v).len() <= buf@.len()
            && #[trigger] buf@.subrange(pos as int, pos + varint(v).len()) == varint(v) implies rest@.subrange(
            0,
            varint(v).len() as int,
        ) == varint(v) by {
        assert(rest@.subrange(0, varint(v).len() as int) =~= buf@.subrange(pos as int, pos + varint(v).len()));
    }
    match decode_varint(rest) {
        Some((v, left)) => {
            let end = buf.len() - left;
            assert(rest@.subrange(0, rest@.len() - left) =~= buf@.subrange(pos as int, end as int));
            assert forall|w: nat|
                w < 0x1_0000_0000_0000_0000 && pos + varint(w).len() <= buf@.len()
                    && #[trigger] buf@.subrange(pos as int, pos + varint(w).len()) == varint(w) implies v == w
                && end == pos + varint(w).len() by {
                let n = (end - pos) as int;
                assert(rest@.subrange(0, n) =~= buf@.subrange(pos as int, end as int));
                assert(rest@.subrange(0, varint(w).len() as int) =~= buf@.subrange(pos as int, pos + varint(w).len()));
                lemma_varint_unique(w, rest@, n);
                lemma_varint_shape(w);
            }
            Some((v, end))
        },
        None => None,
    }
}

fn slice_from(buf: &[u8], pos: usize) -> (r: &[u8])
    requires
        pos <= buf@.len(),
    ensures
        r@ == buf@.subrange(pos as int, buf@.len() as int),
{
    vstd::slice::slice_subrange(buf, pos, buf.len())
}

/// One field of an envelope.
pub struct Field {
    pub tag: u64,
    /// The wire type: 0 varint, 1 eight bytes, 2 length-delimited, 5 four bytes.
    pub wire: u64,
    /// The value of a varint field.
    pub value: u64,
    /// Where the content of a length-delimited field starts.
    pub start: usize,
    /// The position after the field.
    pub end: usize,
}

/// `buf[pos..]` starts with `field`.
pub open spec fn field_at(buf: Seq<u8>, pos: int, field: Seq<u8>) -> bool {
    pos + field.len() <= buf.len() && buf.subrange(pos, pos + field.len()) == field
}

/// Reads the field at `buf[pos..]`. Fails on a truncated field, a group or
/// an unknown wire type; a field in its shortest encoding is read back.
pub fn read_field(buf: &[u8], pos: usize) -> (r: Option<Field>)
    requires
        pos <= buf@.len(),
    ensures
        r matches Some(f) ==> pos < f.end <= buf@.len() && (f.wire == 2 ==> f.start <= f.end),
        forall|t: nat, c: Seq<u8>|
            1 <= t < 0x1000 && 0 < c.len() && #[trigger] field_at(buf@, pos as int, ld_field(t, c))
                ==> (r matches Some(f) && f.tag == t && f.wire == 2 && f.end == pos + ld_field(
                t,
                c,
            ).len() && f.start == f.end - c.len()),
        forall|t: nat, x: nat|
            1 <= t < 0x1000 && 0 < x < 0x1_0000_0000_0000_0000 && #[trigger] field_at(
                buf@,
                pos as int,
                varint_field(t, x),
            ) ==> (r matches Some(f) && f.tag == t && f.wire == 0 && f.value == x && f.end == pos
                + varint_field(t, x).len()),
{
    let blen = buf.len();
    proof {
        assert forall|t: nat, c: Seq<u8>|
            1 <= t < 0x1000 && 0 < c.len() && #[trigger] field_at(buf@, pos as int, ld_field(t, c))
                implies buf@.subrange(pos as int, pos + varint(t * 8 + 2).len()) == varint(
                t * 8 + 2,
            ) && buf@.subrange(
                pos + varint(t * 8 + 2).len(),
                pos + varint(t * 8 + 2).len() + varint(c.len()).len(),
            ) == varint(c.len()) by {
            let k = varint(t * 8 + 2);
            let l = varint(c.len());
            let f = ld_field(t, c);
            assert(f == k + l + c);
            assert(buf@.subrange(pos as int, pos + k.len()) =~= f.subrange(0, k.len() as int));
            assert(buf@.subrange(pos + k.len(), pos + k.len() + l.len()) =~= f.subrange(
                k.len() as int,
                (k.len() + l.len()) as int,
            ));
        }
        assert forall|t: nat, x: nat|
            1 <= t < 0x1000 && 0 < x < 0x1_0000_0000_0000_0000 && #[trigger] field_at(
                buf@,
                pos as int,
                varint_field(t, x),
            ) implies buf@.subrange(pos as int, pos + varint(t * 8).len()) == varint(t * 8)
            && buf@.subrange(pos + varint(t * 8).len(), pos + varint(t * 8).len() + varint(x).len())
            == varint(x) by {
            let k = varint(t * 8);
            let f = varint_field(t, x);
            assert(f == k + varint(x));
            assert(buf@.subrange(pos as int, pos + k.len()) =~= f.subrange(0, k.len() as int));
            assert(buf@.subrange(pos + k.len(), pos + k.len() + varint(x).len()) =~= f.subrange(
                k.len() as int,
                f.len() as int,
            ));
        }
    }
    let (tag32, wire, p) = match read_key(buf, pos) {
        Some(x) => x,
        None => {
            return None;
        },
    };
    let tag = tag32 as u64;
    if wire == 0 {
        match read_varint(buf, p) {
            Some((v, e)) => Some(Field { tag, wire, value: v, start: p, end: e }),
            None => None,
        }
    } else if wire == 1 {
        if buf.len() - p < 8 {
            None
        } else {
            Some(Field { tag, wire, value: 0, start: p, end: p + 8 })
        }
    } else if wire == 5 {
        if buf.len() - p < 4 {
            None
        } else {
            Some(Field { tag, wire, value: 0, start: p, end: p + 4 })
        }
    } else if wire == 2 {
        match read_varint(buf, p) {
            Some((len, start)) => {
                if len > (buf.len() - start) as u64 {
                    None
                } else {
                    Some(Field { tag, wire, value: len, start, end: start + len as usize })
                }
            },
            None => None,
        }
    } else {
        None
    }
}

/// The content of a length-delimited field sits at its end.
pub proof fn lemma_ld_content(buf: Seq<u8>, pos: int, t: nat, c: Seq<u8>)
    requires
        0 <= pos,
        field_at(buf, pos, ld_field(t, c)),
        c.len() > 0,
    ensures
        buf.subrange(pos + ld_field(t, c).len() - c.len(), pos + ld_field(t, c).len()) == c,
{
    let f = ld_field(t, c);
    let k = varint(t * 8 + 2) + varint(c.len());
    assert(f =~= k + c);
    assert(buf.subrange(pos + f.len() - c.len(), pos + f.len()) =~= f.subrange(
        k.len() as int,
        f.len() as int,
    ));
}

/// The answer to a subscription request with this ack inbox and error.
pub open spec fn subscription_response_wire(ack_inbox: Seq<u8>, error: Seq<u8>) -> Seq<u8> {
    ld_field(2, ack_inbox) + ld_field(3, error)
}

/// The stages of decoding a subscription response: nothing read yet, the
/// ack inbox read, or everything read.
pub open spec fn subscription_response_stage(
    buf: Seq<u8>,
    a: Seq<u8>,
    e: Seq<u8>,
    pos: int,
    ack: Seq<u8>,
    err: Seq<u8>,
) -> bool {
    ||| (pos == 0 && ack.len() == 0 && err.len() == 0)
    ||| (pos == ld_field(2, a).len() && a.len() > 0 && ack == a && err.len() == 0)
    ||| (pos == buf.len() && ack == a && err == e)
}

/// Where field `k + 1` starts in the answer to a client hello.
pub open spec fn connect_response_offset(c1: Seq<u8>, c2: Seq<u8>, c3: Seq<u8>, c4: Seq<u8>, c5: Seq<u8>, k: int) -> int {
    if k <= 0 {
        0
    } else if k == 1 {
        (ld_field(1, c1).len()) as int
    } else if k == 2 {
        (ld_field(1, c1).len() + ld_field(2, c2).len()) as int
    } else if k == 3 {
        (ld_field(1, c1).len() + ld_field(2, c2).len() + ld_field(3, c3).len()) as int
    } else if k == 4 {
        (ld_field(1, c1).len() + ld_field(2, c2).len() + ld_field(3, c3).len() + ld_field(4, c4).len()) as int
    } else if k == 5 {
        (ld_field(1, c1).len() + ld_field(2, c2).len() + ld_field(3, c3).len() + ld_field(4, c4).len() + ld_field(5, c5).len()) as int
    } else {
        connect_response_wire(c1, c2, c3, c4, c5).len() as int
    }
}

/// The answer to a client hello with these session inboxes and error.
pub open spec fn connect_response_wire(c1: Seq<u8>, c2: Seq<u8>, c3: Seq<u8>, c4: Seq<u8>, c5: Seq<u8>) -> Seq<u8> {
    ld_field(1, c1) + ld_field(2, c2) + ld_field(3, c3) + ld_field(4, c4) + ld_field(5, c5)
}

/// The stages of decoding a connect response: the first `k` fields read.
pub open spec fn connect_response_stage(
    buf: Seq<u8>,
    c1: Seq<u8>, c2: Seq<u8>, c3: Seq<u8>, c4: Seq<u8>, c5: Seq<u8>,
    pos: int,
    g1: Seq<u8>, g2: Seq<u8>, g3: Seq<u8>, g4: Seq<u8>, g5: Seq<u8>,
) -> bool {
    ||| (pos == connect_response_offset(c1, c2, c3, c4, c5, 0) && g1.len() == 0 && g2.len() == 0 && g3.len() == 0 && g4.len() == 0 && g5.len() == 0)
    ||| (pos == connect_response_offset(c1, c2, c3, c4, c5, 1) && g1 == c1 && g2.len() == 0 && g3.len() == 0 && g4.len() == 0 && g5.len() == 0)
    ||| (pos == connect_response_offset(c1, c2, c3, c4, c5, 2) && g1 == c1 && g2 == c2 && g3.len() == 0 && g4.len() == 0 && g5.len() == 0)
    ||| (pos == connect_response_offset(c1, c2, c3, c4, c5, 3) && g1 == c1 && g2 == c2 && g3 == c3 && g4.len() == 0 && g5.len() == 0)
    ||| (pos == connect_response_offset(c1, c2, c3, c4, c5, 4) && g1 == c1 && g2 == c2 && g3 == c3 && g4 == c4 && g5.len() == 0)
    ||| (pos == connect_response_offset(c1, c2, c3, c4, c5, 5) && g1 == c1 && g2 == c2 && g3 == c3 && g4 == c4 && g5 == c5)
}

/// A message delivered by the streaming server.
pub struct MsgProto {
    pub sequence: u64,
    pub subject: Vec<u8>,
    pub reply: Vec<u8>,
    pub data: Vec<u8>,
    pub timestamp: i64,
    pub redelivered: bool,
}

/// The prefixes and inboxes that the server assigns to a session.
pub struct ConnectResponse {
    pub pub_prefix: Vec<u8>,
    pub sub_requests: Vec<u8>,
    pub unsub_requests: Vec<u8>,
    pub close_requests: Vec<u8>,
    pub error: Vec<u8>,
}

/// The answer to a subscription request.
pub struct SubscriptionResponse {
    pub ack_inbox: Vec<u8>,
    pub error: Vec<u8>,
}

/// The content of length-delimited field `f`.
pub fn field_bytes(buf: &[u8], f: &Field) -> (r: Vec<u8>)
    requires
        f.start <= f.end <= buf@.len(),
    ensures
        r@ == buf@.subrange(f.start as int, f.end as int),
{
    crate::parser::copy_range(buf, f.start, f.end)
}

impl ConnectResponse {
    /// Decodes the answer to a client hello, as `MsgProto::decode` does; an
    /// answer in its shortest encoding is read back exactly.
    #[verifier::spinoff_prover]
    #[verifier::rlimit(100)]
    pub fn decode(buf: &[u8]) -> (r: Option<ConnectResponse>)
        ensures
            buf@.len() == 0 ==> (r matches Some(m) && m.pub_prefix@.len() == 0
                && m.sub_requests@.len() == 0 && m.unsub_requests@.len() == 0
                && m.close_requests@.len() == 0 && m.error@.len() == 0),
            forall|c1: Seq<u8>, c2: Seq<u8>, c3: Seq<u8>, c4: Seq<u8>, c5: Seq<u8>| #[trigger]
                connect_response_wire(c1, c2, c3, c4, c5) == buf@ ==> (r matches Some(m) && m.pub_prefix@ == c1
                    && m.sub_requests@ == c2 && m.unsub_requests@ == c3 && m.close_requests@ == c4
                    && m.error@ == c5),
    {
        let mut m = ConnectResponse {
            pub_prefix: Vec::new(),
            sub_requests: Vec::new(),
            unsub_requests: Vec::new(),
            close_requests: Vec::new(),
            error: Vec::new(),
        };
        let mut pos: usize = 0;
        while pos < buf.len()
            invariant
                pos <= buf@.len(),
                buf@.len() == 0 ==> m.pub_prefix@.len() == 0 && m.sub_requests@.len() == 0
                    && m.unsub_requests@.len() == 0 && m.close_requests@.len() == 0 && m.error@.len()
                    == 0,
                forall|c1: Seq<u8>, c2: Seq<u8>, c3: Seq<u8>, c4: Seq<u8>, c5: Seq<u8>| #[trigger]
                    connect_response_wire(c1, c2, c3, c4, c5) == buf@ ==> connect_response_stage(
                        buf@,
                        c1, c2, c3, c4, c5,
                        pos as int,
                        m.pub_prefix@, m.sub_requests@, m.unsub_requests@, m.close_requests@, m.error@,
                    ),
            decreases buf@.len() - pos,
        {
            let f = match read_field(buf, pos) {
                Some(f) => f,
                None => {
                    proof {
                        assert forall|c1: Seq<u8>, c2: Seq<u8>, c3: Seq<u8>, c4: Seq<u8>, c5: Seq<u8>| #[trigger] connect_response_wire(c1, c2, c3, c4, c5) == buf@ implies false by {
                            let w = connect_response_wire(c1, c2, c3, c4, c5);
                            let old_pos = pos as int;
                            if old_pos == connect_response_offset(c1, c2, c3, c4, c5, 0) && m.pub_prefix@.len() == 0 && m.sub_requests@.len() == 0 && m.unsub_requests@.len() == 0 && m.close_requests@.len() == 0 && m.error@.len() == 0 {
                                if c1.len() > 0 {
                                    assert(w.subrange(connect_response_offset(c1, c2, c3, c4, c5, 0), connect_response_offset(c1, c2, c3, c4, c5, 1)) =~= ld_field(1, c1));
                                    assert(old_pos == connect_response_offset(c1, c2, c3, c4, c5, 0));
                                    assert(field_at(buf@, old_pos, ld_field(1, c1)));
                                } else if c1.len() == 0 && c2.len() > 0 {
                                    assert(w.subrange(connect_response_offset(c1, c2, c3, c4, c5, 1), connect_response_offset(c1, c2, c3, c4, c5, 2)) =~= ld_field(2, c2));
                                    assert(old_pos == connect_response_offset(c1, c2, c3, c4, c5, 1));
                                    assert(field_at(buf@, old_pos, ld_field(2, c2)));
                                } else if c1.len() == 0 && c2.len() == 0 && c3.len() > 0 {
                                    assert(w.subrange(connect_response_offset(c1, c2, c3, c4, c5, 2), connect_response_offset(c1, c2, c3, c4, c5, 3)) =~= ld_field(3, c3));
                                    assert(old_pos == connect_response_offset(c1, c2, c3, c4, c5, 2));
                                    assert(field_at(buf@, old_pos, ld_field(3, c3)));
                                } else if c1.len() == 0 && c2.len() == 0 && c3.len() == 0 && c4.len() > 0 {
                                    assert(w.subrange(connect_response_offset(c1, c2, c3, c4, c5, 3), connect_response_offset(c1, c2, c3, c4, c5, 4)) =~= ld_field(4, c4));
                                    assert(old_pos == connect_response_offset(c1, c2, c3, c4, c5, 3));
                                    assert(field_at(buf@, old_pos, ld_field(4, c4)));
                                } else if c1.len() == 0 && c2.len() == 0 && c3.len() == 0 && c4.len() == 0 && c5.len() > 0 {
                                    assert(w.subrange(connect_response_offset(c1, c2, c3, c4, c5, 4), connect_response_offset(c1, c2, c3, c4, c5, 5)) =~= ld_field(5, c5));
                                    assert(old_pos == connect_response_offset(c1, c2, c3, c4, c5, 4));
                                    assert(field_at(buf@, old_pos, ld_field(5, c5)));
                                } else {
                                    assert(old_pos == w.len());
                                }
                            } else if old_pos == connect_response_offset(c1, c2, c3, c4, c5, 1) && m.pub_prefix@ == c1 && m.sub_requests@.len() == 0 && m.unsub_requests@.len() == 0 && m.close_requests@.len() == 0 && m.error@.len() == 0 {
                                if c2.len() > 0 {
                                    assert(w.subrange(connect_response_offset(c1, c2, c3, c4, c5, 1), connect_response_offset(c1, c2, c3, c4, c5, 2)) =~= ld_field(2, c2));
                                    assert(old_pos == connect_response_offset(c1, c2, c3, c4, c5, 1));
                                    assert(field_at(buf@, old_pos, ld_field(2, c2)));
                                } else if c2.len() == 0 && c3.len() > 0 {
                                    assert(w.subrange(connect_response_offset(c1, c2, c3, c4, c5, 2), connect_response_offset(c1, c2, c3, c4, c5, 3)) =~= ld_field(3, c3));
                                    assert(old_pos == connect_response_offset(c1, c2, c3, c4, c5, 2));
                                    assert(field_at(buf@, old_pos, ld_field(3, c3)));
                                } else if c2.len() == 0 && c3.len() == 0 && c4.len() > 0 {
                                    assert(w.subrange(connect_response_offset(c1, c2, c3, c4, c5, 3), connect_response_offset(c1, c2, c3, c4, c5, 4)) =~= ld_field(4, c4));
                                    assert(old_pos == connect_response_offset(c1, c2, c3, c4, c5, 3));
                                    assert(field_at(buf@, old_pos, ld_field(4, c4)));
                                } else if c2.len() == 0 && c3.len() == 0 && c4.len() == 0 && c5.len() > 0 {
                                    assert(w.subrange(connect_response_offset(c1, c2, c3, c4, c5, 4), connect_response_offset(c1, c2, c3, c4, c5, 5)) =~= ld_field(5, c5));
                                    assert(old_pos == connect_response_offset(c1, c2, c3, c4, c5, 4));
                                    assert(field_at(buf@, old_pos, ld_field(5, c5)));
                                } else {
                                    assert(old_pos == w.len());
                                }
                            } else if old_pos == connect_response_offset(c1, c2, c3, c4, c5, 2) && m.pub_prefix@ == c1 && m.sub_requests@ == c2 && m.unsub_requests@.len() == 0 && m.close_requests@.len() == 0 && m.error@.len() == 0 {
                                if c3.len() > 0 {
                                    assert(w.subrange(connect_response_offset(c1, c2, c3, c4, c5, 2), connect_response_offset(c1, c2, c3, c4, c5, 3)) =~= ld_field(3, c3));
                                    assert(old_pos == connect_response_offset(c1, c2, c3, c4, c5, 2));
                                    assert(field_at(buf@, old_pos, ld_field(3, c3)));
                                } else if c3.len() == 0 && c4.len() > 0 {
                                    assert(w.subrange(connect_response_offset(c1, c2, c3, c4, c5, 3), connect_response_offset(c1, c2, c3, c4, c5, 4)) =~= ld_field(4, c4));
                                    assert(old_pos == connect_response_offset(c1, c2, c3, c4, c5, 3));
                                    assert(field_at(buf@, old_pos, ld_field(4, c4)));
                                } else if c3.len() == 0 && c4.len() == 0 && c5.len() > 0 {
                                    assert(w.subrange(connect_response_offset(c1, c2, c3, c4, c5, 4), connect_response_offset(c1, c2, c3, c4, c5, 5)) =~= ld_field(5, c5));
                                    assert(old_pos == connect_response_offset(c1, c2, c3, c4, c5, 4));
                                    assert(field_at(buf@, old_pos, ld_field(5, c5)));
                                } else {
                                    assert(old_pos == w.len());
                                }
                            } else if old_pos == connect_response_offset(c1, c2, c3, c4, c5, 3) && m.pub_prefix@ == c1 && m.sub_requests@ == c2 && m.unsub_requests@ == c3 && m.close_requests@.len() == 0 && m.error@.len() == 0 {
                                if c4.len() > 0 {
                                    assert(w.subrange(connect_response_offset(c1, c2, c3, c4, c5, 3), connect_response_offset(c1, c2, c3, c4, c5, 4)) =~= ld_field(4, c4));
                                    assert(old_pos == connect_response_offset(c1, c2, c3, c4, c5, 3));
                                    assert(field_at(buf@, old_pos, ld_field(4, c4)));
                                } else if c4.len() == 0 && c5.len() > 0 {
                                    assert(w.subrange(connect_response_offset(c1, c2, c3, c4, c5, 4), connect_response_offset(c1, c2, c3, c4, c5, 5)) =~= ld_field(5, c5));
                                    assert(old_pos == connect_response_offset(c1, c2, c3, c4, c5, 4));
                                    assert(field_at(buf@, old_pos, ld_field(5, c5)));
                                } else {
                                    assert(old_pos == w.len());
                                }
                            } else if old_pos == connect_response_offset(c1, c2, c3, c4, c5, 4) && m.pub_prefix@ == c1 && m.sub_requests@ == c2 && m.unsub_requests@ == c3 && m.close_requests@ == c4 && m.error@.len() == 0 {
                                if c5.len() > 0 {
                                    assert(w.subrange(connect_response_offset(c1, c2, c3, c4, c5, 4), connect_response_offset(c1, c2, c3, c4, c5, 5)) =~= ld_field(5, c5));
                                    assert(old_pos == connect_response_offset(c1, c2, c3, c4, c5, 4));
                                    assert(field_at(buf@, old_pos, ld_field(5, c5)));
                                } else {
                                    assert(old_pos == w.len());
                                }
                            }
                            assert(connect_response_stage(buf@, c1, c2, c3, c4, c5, old_pos, m.pub_prefix@, m.sub_requests@, m.unsub_requests@, m.close_requests@, m.error@));
                        }
                    }
                    return None;
                },
            };
            let ghost old_pos = pos as int;
            let ghost old_pub_prefix = m.pub_prefix@;
            let ghost old_sub_requests = m.sub_requests@;
            let ghost old_unsub_requests = m.unsub_requests@;
            let ghost old_close_requests = m.close_requests@;
            let ghost old_error = m.error@;
            if 1 <= f.tag && f.tag <= 5 {
                if f.wire != 2 {
                    proof {
                        assert forall|c1: Seq<u8>, c2: Seq<u8>, c3: Seq<u8>, c4: Seq<u8>, c5: Seq<u8>| #[trigger] connect_response_wire(c1, c2, c3, c4, c5) == buf@ implies false by {
                            let w = connect_response_wire(c1, c2, c3, c4, c5);
                            if old_pos == connect_response_offset(c1, c2, c3, c4, c5, 0) && old_pub_prefix.len() == 0 && old_sub_requests.len() == 0 && old_unsub_requests.len() == 0 && old_close_requests.len() == 0 && old_error.len() == 0 {
                                if c1.len() > 0 {
                                    assert(w.subrange(connect_response_offset(c1, c2, c3, c4, c5, 0), connect_response_offset(c1, c2, c3, c4, c5, 1)) =~= ld_field(1, c1));
                                    assert(old_pos == connect_response_offset(c1, c2, c3, c4, c5, 0));
                                    assert(field_at(buf@, old_pos, ld_field(1, c1)));
                                } else if c1.len() == 0 && c2.len() > 0 {
                                    assert(w.subrange(connect_response_offset(c1, c2, c3, c4, c5, 1), connect_response_offset(c1, c2, c3, c4, c5, 2)) =~= ld_field(2, c2));
                                    assert(old_pos == connect_response_offset(c1, c2, c3, c4, c5, 1));
                                    assert(field_at(buf@, old_pos, ld_field(2, c2)));
                                } else if c1.len() == 0 && c2.len() == 0 && c3.len() > 0 {
                                    assert(w.subrange(connect_response_offset(c1, c2, c3, c4, c5, 2), connect_response_offset(c1, c2, c3, c4, c5, 3)) =~= ld_field(3, c3));
                                    assert(old_pos == connect_response_offset(c1, c2, c3, c4, c5, 2));
                                    assert(field_at(buf@, old_pos, ld_field(3, c3)));
                                } else if c1.len() == 0 && c2.len() == 0 && c3.len() == 0 && c4.len() > 0 {
                                    assert(w.subrange(connect_response_offset(c1, c2, c3, c4, c5, 3), connect_response_offset(c1, c2, c3, c4, c5, 4)) =~= ld_field(4, c4));
                                    assert(old_pos == connect_response_offset(c1, c2, c3, c4, c5, 3));
                                    assert(field_at(buf@, old_pos, ld_field(4, c4)));
                                } else if c1.len() == 0 && c2.len() == 0 && c3.len() == 0 && c4.len() == 0 && c5.len() > 0 {
                                    assert(w.subrange(connect_response_offset(c1, c2, c3, c4, c5, 4), connect_response_offset(c1, c2, c3, c4, c5, 5)) =~= ld_field(5, c5));
                                    assert(old_pos == connect_response_offset(c1, c2, c3, c4, c5, 4));
                                    assert(field_at(buf@, old_pos, ld_field(5, c5)));
                                } else {
                                    assert(old_pos == w.len());
                                }
                            } else if old_pos == connect_response_offset(c1, c2, c3, c4, c5, 1) && old_pub_prefix == c1 && old_sub_requests.len() == 0 && old_unsub_requests.len() == 0 && old_close_requests.len() == 0 && old_error.len() == 0 {
                                if c2.len() > 0 {
                                    assert(w.subrange(connect_response_offset(c1, c2, c3, c4, c5, 1), connect_response_offset(c1, c2, c3, c4, c5, 2)) =~= ld_field(2, c2));
                                    assert(old_pos == connect_response_offset(c1, c2, c3, c4, c5, 1));
                                    assert(field_at(buf@, old_pos, ld_field(2, c2)));
                                } else if c2.len() == 0 && c3.len() > 0 {
                                    assert(w.subrange(connect_response_offset(c1, c2, c3, c4, c5, 2), connect_response_offset(c1, c2, c3, c4, c5, 3)) =~= ld_field(3, c3));
                                    assert(old_pos == connect_response_offset(c1, c2, c3, c4, c5, 2));
                                    assert(field_at(buf@, old_pos, ld_field(3, c3)));
                                } else if c2.len() == 0 && c3.len() == 0 && c4.len() > 0 {
                                    assert(w.subrange(connect_response_offset(c1, c2, c3, c4, c5, 3), connect_response_offset(c1, c2, c3, c4, c5, 4)) =~= ld_field(4, c4));
                                    assert(old_pos == connect_response_offset(c1, c2, c3, c4, c5, 3));
                                    assert(field_at(buf@, old_pos, ld_field(4, c4)));
                                } else if c2.len() == 0 && c3.len() == 0 && c4.len() == 0 && c5.len() > 0 {
                                    assert(w.subrange(connect_response_offset(c1, c2, c3, c4, c5, 4), connect_response_offset(c1, c2, c3, c4, c5, 5)) =~= ld_field(5, c5));
                                    assert(old_pos == connect_response_offset(c1, c2, c3, c4, c5, 4));
                                    assert(field_at(buf@, old_pos, ld_field(5, c5)));
                                } else {
                                    assert(old_pos == w.len());
                                }
                            } else if old_pos == connect_response_offset(c1, c2, c3, c4, c5, 2) && old_pub_prefix == c1 && old_sub_requests == c2 && old_unsub_requests.len() == 0 && old_close_requests.len() == 0 && old_error.len() == 0 {
                                if c3.len() > 0 {
                                    assert(w.subrange(connect_response_offset(c1, c2, c3, c4, c5, 2), connect_response_offset(c1, c2, c3, c4, c5, 3)) =~= ld_field(3, c3));
                                    assert(old_pos == connect_response_offset(c1, c2, c3, c4, c5, 2));
                                    assert(field_at(buf@, old_pos, ld_field(3, c3)));
                                } else if c3.len() == 0 && c4.len() > 0 {
                                    assert(w.subrange(connect_response_offset(c1, c2, c3, c4, c5, 3), connect_response_offset(c1, c2, c3, c4, c5, 4)) =~= ld_field(4, c4));
                                    assert(old_pos == connect_response_offset(c1, c2, c3, c4, c5, 3));
                                    assert(field_at(buf@, old_pos, ld_field(4, c4)));
                                } else if c3.len() == 0 && c4.len() == 0 && c5.len() > 0 {
                                    assert(w.subrange(connect_response_offset(c1, c2, c3, c4, c5, 4), connect_response_offset(c1, c2, c3, c4, c5, 5)) =~= ld_field(5, c5));
                                    assert(old_pos == connect_response_offset(c1, c2, c3, c4, c5, 4));
                                    assert(field_at(buf@, old_pos, ld_field(5, c5)));
                                } else {
                                    assert(old_pos == w.len());
                                }
                            } else if old_pos == connect_response_offset(c1, c2, c3, c4, c5, 3) && old_pub_prefix == c1 && old_sub_requests == c2 && old_unsub_requests == c3 && old_close_requests.len() == 0 && old_error.len() == 0 {
                                if c4.len() > 0 {
                                    assert(w.subrange(connect_response_offset(c1, c2, c3, c4, c5, 3), connect_response_offset(c1, c2, c3, c4, c5, 4)) =~= ld_field(4, c4));
                                    assert(old_pos == connect_response_offset(c1, c2, c3, c4, c5, 3));
                                    assert(field_at(buf@, old_pos, ld_field(4, c4)));
                                } else if c4.len() == 0 && c5.len() > 0 {
                                    assert(w.subrange(connect_response_offset(c1, c2, c3, c4, c5, 4), connect_response_offset(c1, c2, c3, c4, c5, 5)) =~= ld_field(5, c5));
                                    assert(old_pos == connect_response_offset(c1, c2, c3, c4, c5, 4));
                                    assert(field_at(buf@, old_pos, ld_field(5, c5)));
                                } else {
                                    assert(old_pos == w.len());
                                }
                            } else if old_pos == connect_response_offset(c1, c2, c3, c4, c5, 4) && old_pub_prefix == c1 && old_sub_requests == c2 && old_unsub_requests == c3 && old_close_requests == c4 && old_error.len() == 0 {
                                if c5.len() > 0 {
                                    assert(w.subrange(connect_response_offset(c1, c2, c3, c4, c5, 4), connect_response_offset(c1, c2, c3, c4, c5, 5)) =~= ld_field(5, c5));
                                    assert(old_pos == connect_response_offset(c1, c2, c3, c4, c5, 4));
                                    assert(field_at(buf@, old_pos, ld_field(5, c5)));
                                } else {
                                    assert(old_pos == w.len());
                                }
                            }
                            assert(connect_response_stage(buf@, c1, c2, c3, c4, c5, old_pos, old_pub_prefix, old_sub_requests, old_unsub_requests, old_close_requests, old_error));
                        }
                    }
                    return None;
                }
                let v = field_bytes(buf, &f);
                if f.tag == 1 {
                    m.pub_prefix = v;
                } else if f.tag == 2 {
                    m.sub_requests = v;
                } else if f.tag == 3 {
                    m.unsub_requests = v;
                } else if f.tag == 4 {
                    m.close_requests = v;
                } else if f.tag == 5 {
                    m.error = v;
                }
            }
            pos = f.end;
            proof {
                assert forall|c1: Seq<u8>, c2: Seq<u8>, c3: Seq<u8>, c4: Seq<u8>, c5: Seq<u8>| #[trigger] connect_response_wire(c1, c2, c3, c4, c5) == buf@ implies connect_response_stage(
                buf@,
                c1, c2, c3, c4, c5,
                pos as int,
                m.pub_prefix@, m.sub_requests@, m.unsub_requests@, m.close_requests@, m.error@,
                ) by {
                    let w = connect_response_wire(c1, c2, c3, c4, c5);
                    assert(connect_response_stage(buf@, c1, c2, c3, c4, c5, old_pos, old_pub_prefix, old_sub_requests, old_unsub_requests, old_close_requests, old_error));
                    if old_pos == connect_response_offset(c1, c2, c3, c4, c5, 0) && old_pub_prefix.len() == 0 && old_sub_requests.len() == 0 && old_unsub_requests.len() == 0 && old_close_requests.len() == 0 && old_error.len() == 0 {
                        if c1.len() > 0 {
                            assert(w.subrange(connect_response_offset(c1, c2, c3, c4, c5, 0), connect_response_offset(c1, c2, c3, c4, c5, 1)) =~= ld_field(1, c1));
                            assert(old_pos == connect_response_offset(c1, c2, c3, c4, c5, 0));
                            assert(field_at(buf@, old_pos, ld_field(1, c1)));
                            lemma_ld_content(buf@, old_pos, 1, c1);
                            assert(f.tag == 1 && f.wire == 2);
                            assert(m.pub_prefix@ == c1);
                            assert(pos == connect_response_offset(c1, c2, c3, c4, c5, 1));
                        } else if c1.len() == 0 && c2.len() > 0 {
                            assert(w.subrange(connect_response_offset(c1, c2, c3, c4, c5, 1), connect_response_offset(c1, c2, c3, c4, c5, 2)) =~= ld_field(2, c2));
                            assert(old_pos == connect_response_offset(c1, c2, c3, c4, c5, 1));
                            assert(field_at(buf@, old_pos, ld_field(2, c2)));
                            lemma_ld_content(buf@, old_pos, 2, c2);
                            assert(f.tag == 2 && f.wire == 2);
                            assert(m.sub_requests@ == c2);
                            assert(m.pub_prefix@ =~= c1);
                            assert(pos == connect_response_offset(c1, c2, c3, c4, c5, 2));
                        } else if c1.len() == 0 && c2.len() == 0 && c3.len() > 0 {
                            assert(w.subrange(connect_response_offset(c1, c2, c3, c4, c5, 2), connect_response_offset(c1, c2, c3, c4, c5, 3)) =~= ld_field(3, c3));
                            assert(old_pos == connect_response_offset(c1, c2, c3, c4, c5, 2));
                            assert(field_at(buf@, old_pos, ld_field(3, c3)));
                            lemma_ld_content(buf@, old_pos, 3, c3);
                            assert(f.tag == 3 && f.wire == 2);
                            assert(m.unsub_requests@ == c3);
                            assert(m.pub_prefix@ =~= c1);
                            assert(m.sub_requests@ =~= c2);
                            assert(pos == connect_response_offset(c1, c2, c3, c4, c5, 3));
                        } else if c1.len() == 0 && c2.len() == 0 && c3.len() == 0 && c4.len() > 0 {
                            assert(w.subrange(connect_response_offset(c1, c2, c3, c4, c5, 3), connect_response_offset(c1, c2, c3, c4, c5, 4)) =~= ld_field(4, c4));
                            assert(old_pos == connect_response_offset(c1, c2, c3, c4, c5, 3));
                            assert(field_at(buf@, old_pos, ld_field(4, c4)));
                            lemma_ld_content(buf@, old_pos, 4, c4);
                            assert(f.tag == 4 && f.wire == 2);
                            assert(m.close_requests@ == c4);
                            assert(m.pub_prefix@ =~= c1);
                            assert(m.sub_requests@ =~= c2);
                            assert(m.unsub_requests@ =~= c3);
                            assert(pos == connect_response_offset(c1, c2, c3, c4, c5, 4));
                        } else if c1.len() == 0 && c2.len() == 0 && c3.len() == 0 && c4.len() == 0 && c5.len() > 0 {
                            assert(w.subrange(connect_response_offset(c1, c2, c3, c4, c5, 4), connect_response_offset(c1, c2, c3, c4, c5, 5)) =~= ld_field(5, c5));
                            assert(old_pos == connect_response_offset(c1, c2, c3, c4, c5, 4));
                            assert(field_at(buf@, old_pos, ld_field(5, c5)));
                            lemma_ld_content(buf@, old_pos, 5, c5);
                            assert(f.tag == 5 && f.wire == 2);
                            assert(m.error@ == c5);
                            assert(m.pub_prefix@ =~= c1);
                            assert(m.sub_requests@ =~= c2);
                            assert(m.unsub_requests@ =~= c3);
                            assert(m.close_requests@ =~= c4);
                            assert(pos == connect_response_offset(c1, c2, c3, c4, c5, 5));
                        } else {
                            assert(old_pos == w.len());
                        }
                    } else if old_pos == connect_response_offset(c1, c2, c3, c4, c5, 1) && old_pub_prefix == c1 && old_sub_requests.len() == 0 && old_unsub_requests.len() == 0 && old_close_requests.len() == 0 && old_error.len() == 0 {
                        if c2.len() > 0 {
                            assert(w.subrange(connect_response_offset(c1, c2, c3, c4, c5, 1), connect_response_offset(c1, c2, c3, c4, c5, 2)) =~= ld_field(2, c2));
                            assert(old_pos == connect_response_offset(c1, c2, c3, c4, c5, 1));
                            assert(field_at(buf@, old_pos, ld_field(2, c2)));
                            lemma_ld_content(buf@, old_pos, 2, c2);
                            assert(f.tag == 2 && f.wire == 2);
                            assert(m.sub_requests@ == c2);
                            assert(pos == connect_response_offset(c1, c2, c3, c4, c5, 2));
                        } else if c2.len() == 0 && c3.len() > 0 {
                            assert(w.subrange(connect_response_offset(c1, c2, c3, c4, c5, 2), connect_response_offset(c1, c2, c3, c4, c5, 3)) =~= ld_field(3, c3));
                            assert(old_pos == connect_response_offset(c1, c2, c3, c4, c5, 2));
                            assert(field_at(buf@, old_pos, ld_field(3, c3)));
                            lemma_ld_content(buf@, old_pos, 3, c3);
                            assert(f.tag == 3 && f.wire == 2);
                            assert(m.unsub_requests@ == c3);
                            assert(m.sub_requests@ =~= c2);
                            assert(pos == connect_response_offset(c1, c2, c3, c4, c5, 3));
                        } else if c2.len() == 0 && c3.len() == 0 && c4.len() > 0 {
                            assert(w.subrange(connect_response_offset(c1, c2, c3, c4, c5, 3), connect_response_offset(c1, c2, c3, c4, c5, 4)) =~= ld_field(4, c4));
                            assert(old_pos == connect_response_offset(c1, c2, c3, c4, c5, 3));
                            assert(field_at(buf@, old_pos, ld_field(4, c4)));
                            lemma_ld_content(buf@, old_pos, 4, c4);
                            assert(f.tag == 4 && f.wire == 2);
                            assert(m.close_requests@ == c4);
                            assert(m.sub_requests@ =~= c2);
                            assert(m.unsub_requests@ =~= c3);
                            assert(pos == connect_response_offset(c1, c2, c3, c4, c5, 4));
                        } else if c2.len() == 0 && c3.len() == 0 && c4.len() == 0 && c5.len() > 0 {
                            assert(w.subrange(connect_response_offset(c1, c2, c3, c4, c5, 4), connect_response_offset(c1, c2, c3, c4, c5, 5)) =~= ld_field(5, c5));
                            assert(old_pos == connect_response_offset(c1, c2, c3, c4, c5, 4));
                            assert(field_at(buf@, old_pos, ld_field(5, c5)));
                            lemma_ld_content(buf@, old_pos, 5, c5);
                            assert(f.tag == 5 && f.wire == 2);
                            assert(m.error@ == c5);
                            assert(m.sub_requests@ =~= c2);
                            assert(m.unsub_requests@ =~= c3);
                            assert(m.close_requests@ =~= c4);
                            assert(pos == connect_response_offset(c1, c2, c3, c4, c5, 5));
                        } else {
                            assert(old_pos == w.len());
                        }
                    } else if old_pos == connect_response_offset(c1, c2, c3, c4, c5, 2) && old_pub_prefix == c1 && old_sub_requests == c2 && old_unsub_requests.len() == 0 && old_close_requests.len() == 0 && old_error.len() == 0 {
                        if c3.len() > 0 {
                            assert(w.subrange(connect_response_offset(c1, c2, c3, c4, c5, 2), connect_response_offset(c1, c2, c3, c4, c5, 3)) =~= ld_field(3, c3));
                            assert(old_pos == connect_response_offset(c1, c2, c3, c4, c5, 2));
                            assert(field_at(buf@, old_pos, ld_field(3, c3)));
                            lemma_ld_content(buf@, old_pos, 3, c3);
                            assert(f.tag == 3 && f.wire == 2);
                            assert(m.unsub_requests@ == c3);
                            assert(pos == connect_response_offset(c1, c2, c3, c4, c5, 3));
                        } else if c3.len() == 0 && c4.len() > 0 {
                            assert(w.subrange(connect_response_offset(c1, c2, c3, c4, c5, 3), connect_response_offset(c1, c2, c3, c4, c5, 4)) =~= ld_field(4, c4));
                            assert(old_pos == connect_response_offset(c1, c2, c3, c4, c5, 3));
                            assert(field_at(buf@, old_pos, ld_field(4, c4)));
                            lemma_ld_content(buf@, old_pos, 4, c4);
                            assert(f.tag == 4 && f.wire == 2);
                            assert(m.close_requests@ == c4);
                            assert(m.unsub_requests@ =~= c3);
                            assert(pos == connect_response_offset(c1, c2, c3, c4, c5, 4));
                        } else if c3.len() == 0 && c4.len() == 0 && c5.len() > 0 {
                            assert(w.subrange(connect_response_offset(c1, c2, c3, c4, c5, 4), connect_response_offset(c1, c2, c3, c4, c5, 5)) =~= ld_field(5, c5));
                            assert(old_pos == connect_response_offset(c1, c2, c3, c4, c5, 4));
                            assert(field_at(buf@, old_pos, ld_field(5, c5)));
                            lemma_ld_content(buf@, old_pos, 5, c5);
                            assert(f.tag == 5 && f.wire == 2);
                            assert(m.error@ == c5);
                            assert(m.unsub_requests@ =~= c3);
                            assert(m.close_requests@ =~= c4);
                            assert(pos == connect_response_offset(c1, c2, c3, c4, c5, 5));
                        } else {
                            assert(old_pos == w.len());
                        }
                    } else if old_pos == connect_response_offset(c1, c2, c3, c4, c5, 3) && old_pub_prefix == c1 && old_sub_requests == c2 && old_unsub_requests == c3 && old_close_requests.len() == 0 && old_error.len() == 0 {
                        if c4.len() > 0 {
                            assert(w.subrange(connect_response_offset(c1, c2, c3, c4, c5, 3), connect_response_offset(c1, c2, c3, c4, c5, 4)) =~= ld_field(4, c4));
                            assert(old_pos == connect_response_offset(c1, c2, c3, c4, c5, 3));
                            assert(field_at(buf@, old_pos, ld_field(4, c4)));
                            lemma_ld_content(buf@, old_pos, 4, c4);
                            assert(f.tag == 4 && f.wire == 2);
                            assert(m.close_requests@ == c4);
                            assert(pos == connect_response_offset(c1, c2, c3, c4, c5, 4));
                        } else if c4.len() == 0 && c5.len() > 0 {
                            assert(w.subrange(connect_response_offset(c1, c2, c3, c4, c5, 4), connect_response_offset(c1, c2, c3, c4, c5, 5)) =~= ld_field(5, c5));
                            assert(old_pos == connect_response_offset(c1, c2, c3, c4, c5, 4));
                            assert(field_at(buf@, old_pos, ld_field(5, c5)));
                            lemma_ld_content(buf@, old_pos, 5, c5);
                            assert(f.tag == 5 && f.wire == 2);
                            assert(m.error@ == c5);
                            assert(m.close_requests@ =~= c4);
                            assert(pos == connect_response_offset(c1, c2, c3, c4, c5, 5));
                        } else {
                            assert(old_pos == w.len());
                        }
                    } else if old_pos == connect_response_offset(c1, c2, c3, c4, c5, 4) && old_pub_prefix == c1 && old_sub_requests == c2 && old_unsub_requests == c3 && old_close_requests == c4 && old_error.len() == 0 {
                        if c5.len() > 0 {
                            assert(w.subrange(connect_response_offset(c1, c2, c3, c4, c5, 4), connect_response_offset(c1, c2, c3, c4, c5, 5)) =~= ld_field(5, c5));
                            assert(old_pos == connect_response_offset(c1, c2, c3, c4, c5, 4));
                            assert(field_at(buf@, old_pos, ld_field(5, c5)));
                            lemma_ld_content(buf@, old_pos, 5, c5);
                            assert(f.tag == 5 && f.wire == 2);
                            assert(m.error@ == c5);
                            assert(pos == connect_response_offset(c1, c2, c3, c4, c5, 5));
                        } else {
                            assert(old_pos == w.len());
                        }
                    }
                }
            }
        }
        proof {
            assert forall|c1: Seq<u8>, c2: Seq<u8>, c3: Seq<u8>, c4: Seq<u8>, c5: Seq<u8>| #[trigger] connect_response_wire(c1, c2, c3, c4, c5) == buf@ implies m.pub_prefix@ == c1
            && m.sub_requests@ == c2 && m.unsub_requests@ == c3 && m.close_requests@ == c4
            && m.error@ == c5 by {
                let w = connect_response_wire(c1, c2, c3, c4, c5);
                assert(connect_response_stage(buf@, c1, c2, c3, c4, c5, pos as int, m.pub_prefix@, m.sub_requests@, m.unsub_requests@, m.close_requests@, m.error@));
                if c1.len() == 0 {
                    assert(m.pub_prefix@ =~= c1);
                }
                if c2.len() == 0 {
                    assert(m.sub_requests@ =~= c2);
                }
                if c3.len() == 0 {
                    assert(m.unsub_requests@ =~= c3);
                }
                if c4.len() == 0 {
                    assert(m.close_requests@ =~= c4);
                }
                if c5.len() == 0 {
                    assert(m.error@ =~= c5);
                }
            }
        }
        Some(m)
    }
}

impl SubscriptionResponse {
    /// Decodes the answer to a subscription request, as `MsgProto::decode`
    /// does; an answer in its shortest encoding is read back exactly.
    pub fn decode(buf: &[u8]) -> (r: Option<SubscriptionResponse>)
        ensures
            buf@.len() == 0 ==> (r matches Some(m) && m.ack_inbox@.len() == 0 && m.error@.len()
                == 0),
            forall|a: Seq<u8>, e: Seq<u8>| #[trigger]
                subscription_response_wire(a, e) == buf@ ==> (r matches Some(m) && m.ack_inbox@
                    == a && m.error@ == e),
    {
        let mut m = SubscriptionResponse { ack_inbox: Vec::new(), error: Vec::new() };
        let mut pos: usize = 0;
        let blen = buf.len();
        while pos < buf.len()
            invariant
                pos <= buf@.len(),
                blen == buf@.len(),
                buf@.len() == 0 ==> m.ack_inbox@.len() == 0 && m.error@.len() == 0,
                forall|a: Seq<u8>, e: Seq<u8>| #[trigger]
                    subscription_response_wire(a, e) == buf@ ==> subscription_response_stage(
                        buf@,
                        a,
                        e,
                        pos as int,
                        m.ack_inbox@,
                        m.error@,
                    ),
            decreases buf@.len() - pos,
        {
            proof {
                assert forall|a: Seq<u8>, e: Seq<u8>| #[trigger]
                    subscription_response_wire(a, e) == buf@ implies (pos == 0 && a.len() > 0
                        ==> field_at(buf@, 0, ld_field(2, a))) && ((pos == 0 && a.len() == 0)
                        || (pos == ld_field(2, a).len() && a.len() > 0) ==> e.len() > 0
                        && field_at(buf@, pos as int, ld_field(3, e))) by {
                    let w = subscription_response_wire(a, e);
                    let l2 = ld_field(2, a);
                    let l3 = ld_field(3, e);
                    assert(w.subrange(0, l2.len() as int) =~= l2);
                    assert(w.subrange(l2.len() as int, w.len() as int) =~= l3);
                    if a.len() == 0 {
                        assert(l2.len() == 0);
                    }
                }
            }
            let f = match read_field(buf, pos) {
                Some(f) => f,
                None => {
                    return None;
                },
            };
            let ghost old_ack = m.ack_inbox@;
            let ghost old_err = m.error@;
            let ghost old_pos = pos as int;
            if f.tag == 2 || f.tag == 3 {
                if f.wire != 2 {
                    return None;
                }
                let v = field_bytes(buf, &f);
                if f.tag == 2 {
                    m.ack_inbox = v;
                } else {
                    m.error = v;
                }
            }
            pos = f.end;
            proof {
                assert forall|a: Seq<u8>, e: Seq<u8>| #[trigger]
                    subscription_response_wire(a, e) == buf@ implies subscription_response_stage(
                    buf@,
                    a,
                    e,
                    pos as int,
                    m.ack_inbox@,
                    m.error@,
                ) by {
                    let l2 = ld_field(2, a);
                    let l3 = ld_field(3, e);
                    let w = subscription_response_wire(a, e);
                    assert(w.len() == l2.len() + l3.len());
                    assert(subscription_response_stage(buf@, a, e, old_pos, old_ack, old_err));
                    if old_pos == 0 && a.len() > 0 {
                        assert(field_at(buf@, 0, l2));
                        lemma_ld_content(buf@, 0, 2, a);
                        assert(f.tag == 2 && f.wire == 2);
                        assert(m.ack_inbox@ == a);
                    } else {
                        assert(e.len() > 0);
                        assert(field_at(buf@, old_pos, l3));
                        lemma_ld_content(buf@, old_pos, 3, e);
                        assert(f.tag == 3 && f.wire == 2);
                        assert(m.error@ == e);
                        if a.len() == 0 {
                            assert(l2.len() == 0);
                            assert(m.ack_inbox@ =~= a);
                        }
                        assert(pos == buf@.len());
                    }
                }
            }
        }
        Some(m)
    }
}

} // verus!
