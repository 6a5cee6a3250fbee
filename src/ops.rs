//! The operations of the text protocol and their exact wire form.
use vstd::prelude::*;

verus! {

/// The bytes of `CONNECT `.
pub open spec fn lit_connect() -> Seq<u8> {
    seq![67u8, 79u8, 78u8, 78u8, 69u8, 67u8, 84u8, 32u8]
}

/// The bytes of `PUB `.
pub open spec fn lit_pub() -> Seq<u8> {
    seq![80u8, 85u8, 66u8, 32u8]
}

/// The bytes of `SUB `.
pub open spec fn lit_sub() -> Seq<u8> {
    seq![83u8, 85u8, 66u8, 32u8]
}

/// The bytes of `UNSUB `.
pub open spec fn lit_unsub() -> Seq<u8> {
    seq![85u8, 78u8, 83u8, 85u8, 66u8, 32u8]
}

/// The bytes of `MSG `.
pub open spec fn lit_msg() -> Seq<u8> {
    seq![77u8, 83u8, 71u8, 32u8]
}

/// The bytes of `PING`.
pub open spec fn lit_ping() -> Seq<u8> {
    seq![80u8, 73u8, 78u8, 71u8]
}

/// The bytes of `PONG`.
pub open spec fn lit_pong() -> Seq<u8> {
    seq![80u8, 79u8, 78u8, 71u8]
}

/// The bytes of `INFO `.
pub open spec fn lit_info() -> Seq<u8> {
    seq![73u8, 78u8, 70u8, 79u8, 32u8]
}

/// The bytes of `+OK`.
pub open spec fn lit_ok() -> Seq<u8> {
    seq![43u8, 79u8, 75u8]
}

/// The bytes of `-ERR `.
pub open spec fn lit_err() -> Seq<u8> {
    seq![45u8, 69u8, 82u8, 82u8, 32u8]
}

/// The bytes of `\r\n`.
pub open spec fn lit_crlf() -> Seq<u8> {
    seq![13u8, 10u8]
}

/// The bytes of `true`.
pub open spec fn lit_true() -> Seq<u8> {
    seq![116u8, 114u8, 117u8, 101u8]
}

/// The bytes of `false`.
pub open spec fn lit_false() -> Seq<u8> {
    seq![102u8, 97u8, 108u8, 115u8, 101u8]
}

/// The bytes of `{"verbose":`.
pub open spec fn key_verbose() -> Seq<u8> {
    seq![123u8, 34u8, 118u8, 101u8, 114u8, 98u8, 111u8, 115u8, 101u8, 34u8, 58u8]
}

/// The bytes of `,"pedantic":`.
pub open spec fn key_pedantic() -> Seq<u8> {
    seq![44u8, 34u8, 112u8, 101u8, 100u8, 97u8, 110u8, 116u8, 105u8, 99u8, 34u8, 58u8]
}

/// The bytes of `,"tls_required":`.
pub open spec fn key_tls_required() -> Seq<u8> {
    seq![44u8, 34u8, 116u8, 108u8, 115u8, 95u8, 114u8, 101u8, 113u8, 117u8, 105u8, 114u8, 101u8, 100u8, 34u8, 58u8]
}

/// The bytes of `,"auth_token":`.
pub open spec fn key_auth_token() -> Seq<u8> {
    seq![44u8, 34u8, 97u8, 117u8, 116u8, 104u8, 95u8, 116u8, 111u8, 107u8, 101u8, 110u8, 34u8, 58u8]
}

/// The bytes of `,"user":`.
pub open spec fn key_user() -> Seq<u8> {
    seq![44u8, 34u8, 117u8, 115u8, 101u8, 114u8, 34u8, 58u8]
}

/// The bytes of `,"pass":`.
pub open spec fn key_pass() -> Seq<u8> {
    seq![44u8, 34u8, 112u8, 97u8, 115u8, 115u8, 34u8, 58u8]
}

/// The bytes of `,"name":`.
pub open spec fn key_name() -> Seq<u8> {
    seq![44u8, 34u8, 110u8, 97u8, 109u8, 101u8, 34u8, 58u8]
}

/// The bytes of `,"lang":`.
pub open spec fn key_lang() -> Seq<u8> {
    seq![44u8, 34u8, 108u8, 97u8, 110u8, 103u8, 34u8, 58u8]
}

/// The bytes of `,"version":`.
pub open spec fn key_version() -> Seq<u8> {
    seq![44u8, 34u8, 118u8, 101u8, 114u8, 115u8, 105u8, 111u8, 110u8, 34u8, 58u8]
}

/// The bytes of `,"protocol":`.
pub open spec fn key_protocol() -> Seq<u8> {
    seq![44u8, 34u8, 112u8, 114u8, 111u8, 116u8, 111u8, 99u8, 111u8, 108u8, 34u8, 58u8]
}

/// The bytes of `,"echo":`.
pub open spec fn key_echo() -> Seq<u8> {
    seq![44u8, 34u8, 101u8, 99u8, 104u8, 111u8, 34u8, 58u8]
}

/// The bytes of `,"sig":`.
pub open spec fn key_sig() -> Seq<u8> {
    seq![44u8, 34u8, 115u8, 105u8, 103u8, 34u8, 58u8]
}

/// The bytes of `,"jwt":`.
pub open spec fn key_jwt() -> Seq<u8> {
    seq![44u8, 34u8, 106u8, 119u8, 116u8, 34u8, 58u8]
}

/// The bytes of `,"nkey":`.
pub open spec fn key_nkey() -> Seq<u8> {
    seq![44u8, 34u8, 110u8, 107u8, 101u8, 121u8, 34u8, 58u8]
}

/// The bytes of a single space.
pub open spec fn lit_space() -> Seq<u8> {
    seq![32u8]
}

/// The bytes of a double quote.
pub open spec fn lit_quote() -> Seq<u8> {
    seq![34u8]
}

/// The bytes of a closing brace.
pub open spec fn lit_close_brace() -> Seq<u8> {
    seq![125u8]
}

/// `n` in decimal, without leading zeros.
pub open spec fn decimal(n: nat) -> Seq<u8>
    decreases n,
{
    if n < 10 {
        seq![(48 + n) as u8]
    } else {
        decimal(n / 10).push((48 + n % 10) as u8)
    }
}

/// A lower-case hexadecimal digit.
pub open spec fn hex_digit(d: nat) -> u8 {
    if d < 10 {
        (48 + d) as u8
    } else {
        (87 + d) as u8
    }
}

/// One byte inside a JSON string: quote and backslash are escaped with a
/// backslash, control bytes as `\u00XX`, every other byte stands as it is.
pub open spec fn escape_byte(c: u8) -> Seq<u8> {
    if c == 34 || c == 92 {
        seq![92u8, c]
    } else if c < 32 {
        seq![92u8, 117u8, 48u8, 48u8, hex_digit((c / 16) as nat), hex_digit((c % 16) as nat)]
    } else {
        seq![c]
    }
}

/// The escaped form of `s` inside a JSON string.
pub open spec fn json_escape(s: Seq<u8>) -> Seq<u8>
    decreases s.len(),
{
    if s.len() == 0 {
        seq![]
    } else {
        json_escape(s.drop_last()) + escape_byte(s.last())
    }
}

/// `s` as a JSON string literal.
pub open spec fn json_string(s: Seq<u8>) -> Seq<u8> {
    lit_quote() + json_escape(s) + lit_quote()
}

pub open spec fn json_bool(b: bool) -> Seq<u8> {
    if b {
        lit_true()
    } else {
        lit_false()
    }
}

/// `key` followed by the string value, or nothing where the value is absent.
pub open spec fn opt_string_field(key: Seq<u8>, o: Option<Vec<u8>>) -> Seq<u8> {
    match o {
        Some(v) => key + json_string(v@),
        None => seq![],
    }
}

/// A space and the value, or nothing where the value is absent.
pub open spec fn space_then(o: Option<Vec<u8>>) -> Seq<u8> {
    match o {
        Some(v) => lit_space() + v@,
        None => seq![],
    }
}

/// The options sent in the CONNECT operation.
pub struct Connect {
    pub verbose: bool,
    pub pedantic: bool,
    pub tls_required: bool,
    pub auth_token: Option<Vec<u8>>,
    pub user: Option<Vec<u8>>,
    pub pass: Option<Vec<u8>>,
    pub name: Option<Vec<u8>>,
    pub lang: Vec<u8>,
    pub version: Vec<u8>,
    pub protocol: u64,
    pub echo: bool,
    pub sig: Option<Vec<u8>>,
    pub jwt: Option<Vec<u8>>,
    pub nkey: Option<Vec<u8>>,
}

/// A message published to a subject, with an optional reply subject.
pub struct Publish {
    pub subject: Vec<u8>,
    pub reply_to: Option<Vec<u8>>,
    pub payload: Vec<u8>,
}

/// Interest in a subject under a subscription id, with an optional queue group.
pub struct Subscribe {
    pub subject: Vec<u8>,
    pub sid: Vec<u8>,
    pub queue_group: Option<Vec<u8>>,
}

/// The end of interest for a subscription id, optionally after a number of
/// further messages.
pub struct UnSubscribe {
    pub sid: Vec<u8>,
    pub max_msgs: Option<u64>,
}

/// A message delivered by the server on a subscription.
pub struct Message {
    pub subject: Vec<u8>,
    pub sid: Vec<u8>,
    pub reply_to: Option<Vec<u8>>,
    pub payload: Vec<u8>,
}

/// The operations of the protocol. `CLOSE` stands for the end of the
/// connection and has no wire form.
#[allow(non_camel_case_types)]
pub enum Op {
    CONNECT(Connect),
    PUB(Publish),
    SUB(Subscribe),
    UNSUB(UnSubscribe),
    MSG(Message),
    PING,
    PONG,
    INFO(Vec<u8>),
    OK,
    ERR(Vec<u8>),
    CLOSE,
}

/// The flags that open the JSON object of a CONNECT operation.
pub open spec fn connect_flags(c: Connect) -> Seq<u8> {
    key_verbose() + json_bool(c.verbose) + key_pedantic() + json_bool(c.pedantic)
        + key_tls_required() + json_bool(c.tls_required)
}

/// The credentials and name of a CONNECT operation; absent ones are left out.
pub open spec fn connect_credentials(c: Connect) -> Seq<u8> {
    opt_string_field(key_auth_token(), c.auth_token) + opt_string_field(key_user(), c.user)
        + opt_string_field(key_pass(), c.pass) + opt_string_field(key_name(), c.name)
}

/// The client description of a CONNECT operation.
pub open spec fn connect_client(c: Connect) -> Seq<u8> {
    key_lang() + json_string(c.lang@) + key_version() + json_string(c.version@)
        + key_protocol() + decimal(c.protocol as nat) + key_echo() + json_bool(c.echo)
}

/// The signature fields of a CONNECT operation; absent ones are left out.
pub open spec fn connect_signature(c: Connect) -> Seq<u8> {
    opt_string_field(key_sig(), c.sig) + opt_string_field(key_jwt(), c.jwt)
        + opt_string_field(key_nkey(), c.nkey)
}

/// The JSON object of a CONNECT operation.
pub open spec fn connect_json(c: Connect) -> Seq<u8> {
    connect_flags(c) + connect_credentials(c) + connect_client(c) + connect_signature(c)
        + lit_close_brace()
}

/// The wire form of an operation.
pub open spec fn op_bytes(op: Op) -> Seq<u8> {
    match op {
        Op::CONNECT(c) => lit_connect() + connect_json(c) + lit_crlf(),
        Op::PUB(p) => lit_pub() + p.subject@ + space_then(p.reply_to) + lit_space() + decimal(
            p.payload@.len(),
        ) + lit_crlf() + p.payload@ + lit_crlf(),
        Op::SUB(s) => lit_sub() + s.subject@ + space_then(s.queue_group) + lit_space() + s.sid@
            + lit_crlf(),
        Op::UNSUB(u) => lit_unsub() + u.sid@ + match u.max_msgs {
            Some(m) => lit_space() + decimal(m as nat),
            None => seq![],
        } + lit_crlf(),
        Op::MSG(m) => lit_msg() + m.subject@ + lit_space() + m.sid@ + space_then(m.reply_to)
            + lit_space() + decimal(m.payload@.len()) + lit_crlf() + m.payload@ + lit_crlf(),
        Op::PING => lit_ping() + lit_crlf(),
        Op::PONG => lit_pong() + lit_crlf(),
        Op::INFO(j) => lit_info() + j@ + lit_crlf(),
        Op::OK => lit_ok() + lit_crlf(),
        Op::ERR(e) => lit_err() + e@ + lit_crlf(),
        Op::CLOSE => seq![],
    }
}

/// Appends the bytes of `s`.
pub fn append_bytes(out: &mut Vec<u8>, s: &[u8])
    ensures
        final(out)@ == old(out)@ + s@,
{
    let mut i: usize = 0;
    while i < s.len()
        invariant
            i <= s@.len(),
            out@ == old(out)@ + s@.subrange(0, i as int),
        decreases s@.len() - i,
    {
        out.push(s[i]);
        i = i + 1;
        assert(out@ =~= old(out)@ + s@.subrange(0, i as int));
    }
    assert(s@.subrange(0, s@.len() as int) =~= s@);
}

fn push_space(out: &mut Vec<u8>)
    ensures
        final(out)@ == old(out)@ + lit_space(),
{
    out.push(32u8);
    assert(out@ =~= old(out)@ + lit_space());
}

fn push_quote(out: &mut Vec<u8>)
    ensures
        final(out)@ == old(out)@ + lit_quote(),
{
    out.push(34u8);
    assert(out@ =~= old(out)@ + lit_quote());
}

/// Appends `n` in decimal.
pub fn push_decimal(n: u64, out: &mut Vec<u8>)
    ensures
        final(out)@ == old(out)@ + decimal(n as nat),
    decreases n,
{
    if n < 10 {
        out.push((48 + n) as u8);
        assert(out@ =~= old(out)@ + decimal(n as nat));
    } else {
        push_decimal(n / 10, out);
        out.push((48 + n % 10) as u8);
        assert(out@ =~= old(out)@ + decimal(n as nat));
    }
}

fn hex_byte(d: u8) -> (r: u8)
    requires
        d < 16,
    ensures
        r == hex_digit(d as nat),
{
    if d < 10 {
        48 + d
    } else {
        87 + d
    }
}

/// Appends `s` as a JSON string literal.
pub fn push_json_string(s: &[u8], out: &mut Vec<u8>)
    ensures
        final(out)@ == old(out)@ + json_string(s@),
{
    push_quote(out);
    let ghost start = out@;
    let mut i: usize = 0;
    while i < s.len()
        invariant
            i <= s@.len(),
            out@ == start + json_escape(s@.subrange(0, i as int)),
        decreases s@.len() - i,
    {
        let c = s[i];
        let ghost before = out@;
        if c == 34 || c == 92 {
            out.push(92u8);
            out.push(c);
        } else if c < 32 {
            out.push(92u8);
            out.push(117u8);
            out.push(48u8);
            out.push(48u8);
            out.push(hex_byte(c / 16));
            out.push(hex_byte(c % 16));
        } else {
            out.push(c);
        }
        assert(out@ =~= before + escape_byte(c));
        assert(s@.subrange(0, i + 1).drop_last() =~= s@.subrange(0, i as int));
        i = i + 1;
    }
    assert(s@.subrange(0, s@.len() as int) =~= s@);
    push_quote(out);
}

fn push_json_bool(b: bool, out: &mut Vec<u8>)
    ensures
        final(out)@ == old(out)@ + json_bool(b),
{
    if b {
        push_lit_true(out);
    } else {
        push_lit_false(out);
    }
}

fn push_space_then(o: &Option<Vec<u8>>, out: &mut Vec<u8>)
    ensures
        final(out)@ == old(out)@ + space_then(*o),
{
    match o {
        Some(v) => {
            push_space(out);
            append_bytes(out, v.as_slice());
        },
        None => {
            assert(out@ =~= old(out)@ + space_then(*o));
        },
    }
}

fn push_lit_connect(out: &mut Vec<u8>)
    ensures
        final(out)@ == old(out)@ + lit_connect(),
{
    let lit = [67u8, 79u8, 78u8, 78u8, 69u8, 67u8, 84u8, 32u8];
    append_bytes(out, lit.as_slice());
    assert(lit@ =~= lit_connect());
}

fn push_lit_pub(out: &mut Vec<u8>)
    ensures
        final(out)@ == old(out)@ + lit_pub(),
{
    let lit = [80u8, 85u8, 66u8, 32u8];
    append_bytes(out, lit.as_slice());
    assert(lit@ =~= lit_pub());
}

fn push_lit_sub(out: &mut Vec<u8>)
    ensures
        final(out)@ == old(out)@ + lit_sub(),
{
    let lit = [83u8, 85u8, 66u8, 32u8];
    append_bytes(out, lit.as_slice());
    assert(lit@ =~= lit_sub());
}

fn push_lit_unsub(out: &mut Vec<u8>)
    ensures
        final(out)@ == old(out)@ + lit_unsub(),
{
    let lit = [85u8, 78u8, 83u8, 85u8, 66u8, 32u8];
    append_bytes(out, lit.as_slice());
    assert(lit@ =~= lit_unsub());
}

fn push_lit_msg(out: &mut Vec<u8>)
    ensures
        final(out)@ == old(out)@ + lit_msg(),
{
    let lit = [77u8, 83u8, 71u8, 32u8];
    append_bytes(out, lit.as_slice());
    assert(lit@ =~= lit_msg());
}

fn push_lit_ping(out: &mut Vec<u8>)
    ensures
        final(out)@ == old(out)@ + lit_ping(),
{
    let lit = [80u8, 73u8, 78u8, 71u8];
    append_bytes(out, lit.as_slice());
    assert(lit@ =~= lit_ping());
}

fn push_lit_pong(out: &mut Vec<u8>)
    ensures
        final(out)@ == old(out)@ + lit_pong(),
{
    let lit = [80u8, 79u8, 78u8, 71u8];
    append_bytes(out, lit.as_slice());
    assert(lit@ =~= lit_pong());
}

fn push_lit_info(out: &mut Vec<u8>)
    ensures
        final(out)@ == old(out)@ + lit_info(),
{
    let lit = [73u8, 78u8, 70u8, 79u8, 32u8];
    append_bytes(out, lit.as_slice());
    assert(lit@ =~= lit_info());
}

fn push_lit_ok(out: &mut Vec<u8>)
    ensures
        final(out)@ == old(out)@ + lit_ok(),
{
    let lit = [43u8, 79u8, 75u8];
    append_bytes(out, lit.as_slice());
    assert(lit@ =~= lit_ok());
}

fn push_lit_err(out: &mut Vec<u8>)
    ensures
        final(out)@ == old(out)@ + lit_err(),
{
    let lit = [45u8, 69u8, 82u8, 82u8, 32u8];
    append_bytes(out, lit.as_slice());
    assert(lit@ =~= lit_err());
}

fn push_lit_crlf(out: &mut Vec<u8>)
    ensures
        final(out)@ == old(out)@ + lit_crlf(),
{
    let lit = [13u8, 10u8];
    append_bytes(out, lit.as_slice());
    assert(lit@ =~= lit_crlf());
}

fn push_lit_true(out: &mut Vec<u8>)
    ensures
        final(out)@ == old(out)@ + lit_true(),
{
    let lit = [116u8, 114u8, 117u8, 101u8];
    append_bytes(out, lit.as_slice());
    assert(lit@ =~= lit_true());
}

fn push_lit_false(out: &mut Vec<u8>)
    ensures
        final(out)@ == old(out)@ + lit_false(),
{
    let lit = [102u8, 97u8, 108u8, 115u8, 101u8];
    append_bytes(out, lit.as_slice());
    assert(lit@ =~= lit_false());
}

fn push_key_verbose(out: &mut Vec<u8>)
    ensures
        final(out)@ == old(out)@ + key_verbose(),
{
    let lit = [123u8, 34u8, 118u8, 101u8, 114u8, 98u8, 111u8, 115u8, 101u8, 34u8, 58u8];
    append_bytes(out, lit.as_slice());
    assert(lit@ =~= key_verbose());
}

fn push_key_pedantic(out: &mut Vec<u8>)
    ensures
        final(out)@ == old(out)@ + key_pedantic(),
{
    let lit = [44u8, 34u8, 112u8, 101u8, 100u8, 97u8, 110u8, 116u8, 105u8, 99u8, 34u8, 58u8];
    append_bytes(out, lit.as_slice());
    assert(lit@ =~= key_pedantic());
}

fn push_key_tls_required(out: &mut Vec<u8>)
    ensures
        final(out)@ == old(out)@ + key_tls_required(),
{
    let lit = [44u8, 34u8, 116u8, 108u8, 115u8, 95u8, 114u8, 101u8, 113u8, 117u8, 105u8, 114u8, 101u8, 100u8, 34u8, 58u8];
    append_bytes(out, lit.as_slice());
    assert(lit@ =~= key_tls_required());
}

fn push_key_auth_token(out: &mut Vec<u8>)
    ensures
        final(out)@ == old(out)@ + key_auth_token(),
{
    let lit = [44u8, 34u8, 97u8, 117u8, 116u8, 104u8, 95u8, 116u8, 111u8, 107u8, 101u8, 110u8, 34u8, 58u8];
    append_bytes(out, lit.as_slice());
    assert(lit@ =~= key_auth_token());
}

fn push_key_user(out: &mut Vec<u8>)
    ensures
        final(out)@ == old(out)@ + key_user(),
{
    let lit = [44u8, 34u8, 117u8, 115u8, 101u8, 114u8, 34u8, 58u8];
    append_bytes(out, lit.as_slice());
    assert(lit@ =~= key_user());
}

fn push_key_pass(out: &mut Vec<u8>)
    ensures
        final(out)@ == old(out)@ + key_pass(),
{
    let lit = [44u8, 34u8, 112u8, 97u8, 115u8, 115u8, 34u8, 58u8];
    append_bytes(out, lit.as_slice());
    assert(lit@ =~= key_pass());
}

fn push_key_name(out: &mut Vec<u8>)
    ensures
        final(out)@ == old(out)@ + key_name(),
{
    let lit = [44u8, 34u8, 110u8, 97u8, 109u8, 101u8, 34u8, 58u8];
    append_bytes(out, lit.as_slice());
    assert(lit@ =~= key_name());
}

fn push_key_lang(out: &mut Vec<u8>)
    ensures
        final(out)@ == old(out)@ + key_lang(),
{
    let lit = [44u8, 34u8, 108u8, 97u8, 110u8, 103u8, 34u8, 58u8];
    append_bytes(out, lit.as_slice());
    assert(lit@ =~= key_lang());
}

fn push_key_version(out: &mut Vec<u8>)
    ensures
        final(out)@ == old(out)@ + key_version(),
{
    let lit = [44u8, 34u8, 118u8, 101u8, 114u8, 115u8, 105u8, 111u8, 110u8, 34u8, 58u8];
    append_bytes(out, lit.as_slice());
    assert(lit@ =~= key_version());
}

fn push_key_protocol(out: &mut Vec<u8>)
    ensures
        final(out)@ == old(out)@ + key_protocol(),
{
    let lit = [44u8, 34u8, 112u8, 114u8, 111u8, 116u8, 111u8, 99u8, 111u8, 108u8, 34u8, 58u8];
    append_bytes(out, lit.as_slice());
    assert(lit@ =~= key_protocol());
}

fn push_key_echo(out: &mut Vec<u8>)
    ensures
        final(out)@ == old(out)@ + key_echo(),
{
    let lit = [44u8, 34u8, 101u8, 99u8, 104u8, 111u8, 34u8, 58u8];
    append_bytes(out, lit.as_slice());
    assert(lit@ =~= key_echo());
}

fn push_key_sig(out: &mut Vec<u8>)
    ensures
        final(out)@ == old(out)@ + key_sig(),
{
    let lit = [44u8, 34u8, 115u8, 105u8, 103u8, 34u8, 58u8];
    append_bytes(out, lit.as_slice());
    assert(lit@ =~= key_sig());
}

fn push_key_jwt(out: &mut Vec<u8>)
    ensures
        final(out)@ == old(out)@ + key_jwt(),
{
    let lit = [44u8, 34u8, 106u8, 119u8, 116u8, 34u8, 58u8];
    append_bytes(out, lit.as_slice());
    assert(lit@ =~= key_jwt());
}

fn push_key_nkey(out: &mut Vec<u8>)
    ensures
        final(out)@ == old(out)@ + key_nkey(),
{
    let lit = [44u8, 34u8, 110u8, 107u8, 101u8, 121u8, 34u8, 58u8];
    append_bytes(out, lit.as_slice());
    assert(lit@ =~= key_nkey());
}

fn push_opt_field_auth_token(o: &Option<Vec<u8>>, out: &mut Vec<u8>)
    ensures
        final(out)@ == old(out)@ + opt_string_field(key_auth_token(), *o),
{
    match o {
        Some(v) => {
            push_key_auth_token(out);
            push_json_string(v.as_slice(), out);
        },
        None => {
            assert(out@ =~= old(out)@ + opt_string_field(key_auth_token(), *o));
        },
    }
}

fn push_opt_field_user(o: &Option<Vec<u8>>, out: &mut Vec<u8>)
    ensures
        final(out)@ == old(out)@ + opt_string_field(key_user(), *o),
{
    match o {
        Some(v) => {
            push_key_user(out);
            push_json_string(v.as_slice(), out);
        },
        None => {
            assert(out@ =~= old(out)@ + opt_string_field(key_user(), *o));
        },
    }
}

fn push_opt_field_pass(o: &Option<Vec<u8>>, out: &mut Vec<u8>)
    ensures
        final(out)@ == old(out)@ + opt_string_field(key_pass(), *o),
{
    match o {
        Some(v) => {
            push_key_pass(out);
            push_json_string(v.as_slice(), out);
        },
        None => {
            assert(out@ =~= old(out)@ + opt_string_field(key_pass(), *o));
        },
    }
}

fn push_opt_field_name(o: &Option<Vec<u8>>, out: &mut Vec<u8>)
    ensures
        final(out)@ == old(out)@ + opt_string_field(key_name(), *o),
{
    match o {
        Some(v) => {
            push_key_name(out);
            push_json_string(v.as_slice(), out);
        },
        None => {
            assert(out@ =~= old(out)@ + opt_string_field(key_name(), *o));
        },
    }
}

fn push_opt_field_sig(o: &Option<Vec<u8>>, out: &mut Vec<u8>)
    ensures
        final(out)@ == old(out)@ + opt_string_field(key_sig(), *o),
{
    match o {
        Some(v) => {
            push_key_sig(out);
            push_json_string(v.as_slice(), out);
        },
        None => {
            assert(out@ =~= old(out)@ + opt_string_field(key_sig(), *o));
        },
    }
}

fn push_opt_field_jwt(o: &Option<Vec<u8>>, out: &mut Vec<u8>)
    ensures
        final(out)@ == old(out)@ + opt_string_field(key_jwt(), *o),
{
    match o {
        Some(v) => {
            push_key_jwt(out);
            push_json_string(v.as_slice(), out);
        },
        None => {
            assert(out@ =~= old(out)@ + opt_string_field(key_jwt(), *o));
        },
    }
}

fn push_opt_field_nkey(o: &Option<Vec<u8>>, out: &mut Vec<u8>)
    ensures
        final(out)@ == old(out)@ + opt_string_field(key_nkey(), *o),
{
    match o {
        Some(v) => {
            push_key_nkey(out);
            push_json_string(v.as_slice(), out);
        },
        None => {
            assert(out@ =~= old(out)@ + opt_string_field(key_nkey(), *o));
        },
    }
}

impl Connect {
    fn push_flags(&self, out: &mut Vec<u8>)
        ensures
            final(out)@ == old(out)@ + connect_flags(*self),
    {
        push_key_verbose(out);
        push_json_bool(self.verbose, out);
        push_key_pedantic(out);
        push_json_bool(self.pedantic, out);
        push_key_tls_required(out);
        push_json_bool(self.tls_required, out);
        assert(out@ =~= old(out)@ + connect_flags(*self));
    }

    fn push_credentials(&self, out: &mut Vec<u8>)
        ensures
            final(out)@ == old(out)@ + connect_credentials(*self),
    {
        push_opt_field_auth_token(&self.auth_token, out);
        push_opt_field_user(&self.user, out);
        push_opt_field_pass(&self.pass, out);
        push_opt_field_name(&self.name, out);
        assert(out@ =~= old(out)@ + connect_credentials(*self));
    }

    fn push_client(&self, out: &mut Vec<u8>)
        ensures
            final(out)@ == old(out)@ + connect_client(*self),
    {
        push_key_lang(out);
        push_json_string(self.lang.as_slice(), out);
        push_key_version(out);
        push_json_string(self.version.as_slice(), out);
        push_key_protocol(out);
        push_decimal(self.protocol, out);
        push_key_echo(out);
        push_json_bool(self.echo, out);
        assert(out@ =~= old(out)@ + connect_client(*self));
    }

    fn push_signature(&self, out: &mut Vec<u8>)
        ensures
            final(out)@ == old(out)@ + connect_signature(*self),
    {
        push_opt_field_sig(&self.sig, out);
        push_opt_field_jwt(&self.jwt, out);
        push_opt_field_nkey(&self.nkey, out);
        assert(out@ =~= old(out)@ + connect_signature(*self));
    }

    /// Appends the JSON object of these options.
    pub fn push_json(&self, out: &mut Vec<u8>)
        ensures
            final(out)@ == old(out)@ + connect_json(*self),
    {
        self.push_flags(out);
        self.push_credentials(out);
        self.push_client(out);
        self.push_signature(out);
        out.push(125u8);
        assert(out@ =~= old(out)@ + connect_json(*self));
    }
}

impl Op {
    /// The wire form of this operation.
    pub fn to_bytes(&self) -> (r: Vec<u8>)
        ensures
            r@ == op_bytes(*self),
    {
        let mut out: Vec<u8> = Vec::new();
        match self {
            Op::CONNECT(c) => {
                push_lit_connect(&mut out);
                c.push_json(&mut out);
                push_lit_crlf(&mut out);
            },
            Op::PUB(p) => {
                push_lit_pub(&mut out);
                append_bytes(&mut out, p.subject.as_slice());
                push_space_then(&p.reply_to, &mut out);
                push_space(&mut out);
                push_decimal(p.payload.len() as u64, &mut out);
                push_lit_crlf(&mut out);
                append_bytes(&mut out, p.payload.as_slice());
                push_lit_crlf(&mut out);
            },
            Op::SUB(sub) => {
                push_lit_sub(&mut out);
                append_bytes(&mut out, sub.subject.as_slice());
                push_space_then(&sub.queue_group, &mut out);
                push_space(&mut out);
                append_bytes(&mut out, sub.sid.as_slice());
                push_lit_crlf(&mut out);
            },
            Op::UNSUB(u) => {
                push_lit_unsub(&mut out);
                append_bytes(&mut out, u.sid.as_slice());
                match u.max_msgs {
                    Some(m) => {
                        push_space(&mut out);
                        push_decimal(m, &mut out);
                    },
                    None => {},
                }
                push_lit_crlf(&mut out);
            },
            Op::MSG(m) => {
                push_lit_msg(&mut out);
                append_bytes(&mut out, m.subject.as_slice());
                push_space(&mut out);
                append_bytes(&mut out, m.sid.as_slice());
                push_space_then(&m.reply_to, &mut out);
                push_space(&mut out);
                push_decimal(m.payload.len() as u64, &mut out);
                push_lit_crlf(&mut out);
                append_bytes(&mut out, m.payload.as_slice());
                push_lit_crlf(&mut out);
            },
            Op::PING => {
                push_lit_ping(&mut out);
                push_lit_crlf(&mut out);
            },
            Op::PONG => {
                push_lit_pong(&mut out);
                push_lit_crlf(&mut out);
            },
            Op::INFO(j) => {
                push_lit_info(&mut out);
                append_bytes(&mut out, j.as_slice());
                push_lit_crlf(&mut out);
            },
            Op::OK => {
                push_lit_ok(&mut out);
                push_lit_crlf(&mut out);
            },
            Op::ERR(e) => {
                push_lit_err(&mut out);
                append_bytes(&mut out, e.as_slice());
                push_lit_crlf(&mut out);
            },
            Op::CLOSE => {},
        }
        assert(out@ =~= op_bytes(*self));
        out
    }
}

} // verus!
