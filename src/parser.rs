//! Decoding of operations received from the server.
use vstd::prelude::*;
use crate::ops::{
    Message, Op, op_bytes, decimal, lit_crlf, lit_msg, lit_space, lit_ping, lit_pong, lit_info,
    lit_ok, lit_err, space_then,
};

verus! {

/// What one step of decoding found at the start of a buffer.
pub enum ParseOutcome {
    /// An operation and the number of bytes it took.
    Done(Op, usize),
    /// The buffer holds the start of an operation but not all of it.
    Incomplete,
    /// The buffer does not start with a well-formed operation.
    Invalid,
}

/// Operations that the server sends.
pub open spec fn is_inbound(op: Op) -> bool {
    match op {
        Op::MSG(_) | Op::PING | Op::PONG | Op::INFO(_) | Op::OK | Op::ERR(_) => true,
        _ => false,
    }
}

/// `s` holds a line end starting at `i`.
pub open spec fn crlf_at(s: Seq<u8>, i: int) -> bool {
    0 <= i && i + 1 < s.len() && s[i] == 13 && s[i + 1] == 10
}

/// A subject, subscription id or reply subject that can stand in a frame:
/// non-empty, without spaces or line-end bytes.
pub open spec fn token_ok(t: Seq<u8>) -> bool {
    &&& t.len() > 0
    &&& forall|i: int| 0 <= i < t.len() ==> #[trigger] t[i] != 32 && t[i] != 13 && t[i] != 10
}

/// A message that has a frame: its tokens are well formed and its length
/// has at most eighteen digits.
pub open spec fn msg_ok(m: Message) -> bool {
    &&& token_ok(m.subject@)
    &&& token_ok(m.sid@)
    &&& (m.reply_to matches Some(r) ==> token_ok(r@))
    &&& m.payload@.len() < pow10(18)
}

/// The header line of the frame of `m`, without its line end.
pub open spec fn msg_header(m: Message) -> Seq<u8> {
    lit_msg() + m.subject@ + lit_space() + m.sid@ + space_then(m.reply_to) + lit_space() + decimal(
        m.payload@.len(),
    )
}

/// Two messages with the same subject, id, reply subject and payload.
pub open spec fn same_message(p: Message, m: Message) -> bool {
    &&& p.subject@ == m.subject@
    &&& p.sid@ == m.sid@
    &&& p.reply_to is Some == m.reply_to is Some
    &&& (p.reply_to matches Some(r) ==> r@ == m.reply_to->0@)
    &&& p.payload@ == m.payload@
}

/// `buf` starts with the frame of message `m`.
pub open spec fn starts_with_msg(buf: Seq<u8>, m: Message) -> bool {
    &&& msg_ok(m)
    &&& op_bytes(Op::MSG(m)).len() <= buf.len()
    &&& buf.subrange(0, op_bytes(Op::MSG(m)).len() as int) == op_bytes(Op::MSG(m))
}

/// The length of the header line of the frame of `m`.
pub open spec fn header_len(m: Message) -> int {
    msg_header(m).len() as int
}

/// Where the subject of `m` ends in its frame.
pub open spec fn subject_end(m: Message) -> int {
    4 + m.subject@.len() as int
}

/// Where the subscription id of `m` ends in its frame.
pub open spec fn sid_end(m: Message) -> int {
    subject_end(m) + 1 + m.sid@.len() as int
}

/// Where the length of `m` starts in its frame.
pub open spec fn size_start(m: Message) -> int {
    match m.reply_to {
        Some(r) => sid_end(m) + 2 + r@.len() as int,
        None => sid_end(m) + 1,
    }
}

/// The layout of a frame of `m` at the start of `buf`.
pub proof fn lemma_msg_layout(buf: Seq<u8>, m: Message)
    requires
        starts_with_msg(buf, m),
    ensures
        op_bytes(Op::MSG(m)).len() == header_len(m) + 4 + m.payload@.len(),
        header_len(m) > size_start(m) > sid_end(m) > subject_end(m) > 4,
        forall|j: int| 0 <= j < header_len(m) ==> #[trigger] buf[j] != 13,
        crlf_at(buf, header_len(m)),
        buf.subrange(0, 4) == lit_msg(),
        forall|j: int| 4 <= j < subject_end(m) ==> #[trigger] buf[j] != 32,
        buf[subject_end(m)] == 32,
        forall|j: int| subject_end(m) < j < sid_end(m) ==> #[trigger] buf[j] != 32,
        buf[sid_end(m)] == 32,
        m.reply_to is Some ==> buf[size_start(m) - 1] == 32,
        m.reply_to is Some ==> forall|j: int|
            sid_end(m) < j < size_start(m) - 1 ==> #[trigger] buf[j] != 32,
        forall|j: int| size_start(m) <= j < header_len(m) ==> #[trigger] buf[j] != 32,
        buf.subrange(4, subject_end(m)) == m.subject@,
        buf.subrange(subject_end(m) + 1, sid_end(m)) == m.sid@,
        m.reply_to matches Some(r) ==> buf.subrange(sid_end(m) + 1, size_start(m) - 1) == r@,
        buf.subrange(size_start(m), header_len(m)) == decimal(m.payload@.len()),
        buf.subrange(header_len(m) + 2, header_len(m) + 2 + m.payload@.len() as int)
            == m.payload@,
        crlf_at(buf, header_len(m) + 2 + m.payload@.len() as int),
{
    let h = msg_header(m);
    let hl = h.len() as int;
    let f = op_bytes(Op::MSG(m));
    let d = decimal(m.payload@.len());
    let n = m.payload@.len() as int;
    let subj = m.subject@;
    let sid = m.sid@;
    assert(f =~= h + lit_crlf() + m.payload@ + lit_crlf());
    assert forall|i: int| 0 <= i < f.len() implies buf[i] == f[i] by {
        assert(buf.subrange(0, f.len() as int)[i] == buf[i]);
    }
    lemma_decimal_digits(n as nat);
    let a = size_start(m);
    let tail = space_then(m.reply_to);
    assert(h =~= lit_msg() + subj + lit_space() + sid + tail + lit_space() + d);
    assert(h.len() == a + d.len());
    assert forall|j: int| 0 <= j < h.len() implies #[trigger] buf[j] != 13 && (4 <= j < subject_end(
        m,
    ) ==> buf[j] != 32) && (subject_end(m) < j < sid_end(m) ==> buf[j] != 32) && (a <= j ==> buf[j]
        != 32) by {
        assert(buf[j] == f[j]);
        assert(f[j] == h[j]);
        if j < 4 {
        } else if j < subject_end(m) {
            assert(h[j] == subj[j - 4]);
        } else if j == subject_end(m) {
        } else if j < sid_end(m) {
            assert(h[j] == sid[j - subject_end(m) - 1]);
        } else if j == sid_end(m) {
        } else if j < a - 1 {
            let r = m.reply_to->0@;
            assert(h[j] == r[j - sid_end(m) - 1]);
        } else if j < a {
        } else {
            assert(h[j] == d[j - a]);
        }
    }
    if m.reply_to is Some {
        let r = m.reply_to->0@;
        assert forall|j: int| sid_end(m) < j < a - 1 implies #[trigger] buf[j] != 32 by {
            assert(buf[j] == f[j]);
            assert(h[j] == r[j - sid_end(m) - 1]);
        }
        assert(buf.subrange(sid_end(m) + 1, a - 1) =~= r);
        assert(buf[a - 1] == f[a - 1]);
    }
    assert(buf.subrange(0, 4) =~= lit_msg());
    assert(buf.subrange(4, subject_end(m)) =~= subj);
    assert(buf.subrange(subject_end(m) + 1, sid_end(m)) =~= sid);
    assert(buf.subrange(a, hl) =~= d);
    assert(buf.subrange(hl + 2, hl + 2 + n) =~= m.payload@);
    assert(buf[subject_end(m)] == f[subject_end(m)]);
    assert(buf[sid_end(m)] == f[sid_end(m)]);
    assert(buf[hl] == f[hl]);
    assert(buf[hl + 1] == f[hl + 1]);
    assert(buf[hl + 2 + n] == f[hl + 2 + n]);
    assert(buf[hl + 3 + n] == f[hl + 3 + n]);
}

/// A line without carriage returns, followed by a line end, at the start
/// of `buf`: its line end is the first one.
pub proof fn lemma_first_line_end(buf: Seq<u8>, line: Seq<u8>)
    requires
        line.len() + 2 <= buf.len(),
        buf.subrange(0, line.len() + 2int) == line + lit_crlf(),
        forall|i: int| 0 <= i < line.len() ==> #[trigger] line[i] != 13,
    ensures
        crlf_at(buf, line.len() as int),
        forall|j: int| 0 <= j < line.len() ==> !crlf_at(buf, j),
        buf.subrange(0, line.len() as int) == line,
{
    let f = line + lit_crlf();
    assert forall|i: int| 0 <= i < f.len() implies buf[i] == f[i] by {
        assert(buf.subrange(0, line.len() + 2int)[i] == buf[i]);
    }
    assert forall|j: int| 0 <= j < line.len() implies !crlf_at(buf, j) by {
        assert(buf[j] == line[j]);
    }
    assert(buf[line.len() as int] == f[line.len() as int]);
    assert(buf[line.len() + 1int] == f[line.len() + 1int]);
    assert(buf.subrange(0, line.len() as int) =~= line);
}

/// No byte of `s` is a carriage return.
pub open spec fn no_cr(s: Seq<u8>) -> bool {
    forall|i: int| 0 <= i < s.len() ==> #[trigger] s[i] != 13
}

/// `buf` starts with `lit`, then `body`, then a line end.
pub open spec fn starts_with_line(buf: Seq<u8>, lit: Seq<u8>, body: Seq<u8>) -> bool {
    &&& no_cr(body)
    &&& lit.len() + body.len() + 2 <= buf.len()
    &&& buf.subrange(0, lit.len() + body.len() + 2int) == lit + body + lit_crlf()
}

/// The first line end of a buffer that starts with a frame ends its header.
proof fn lemma_header_eol(buf: Seq<u8>, m: Message, eol: int)
    requires
        starts_with_msg(buf, m),
        crlf_at(buf, eol),
        forall|j: int| 0 <= j < eol ==> !crlf_at(buf, j),
    ensures
        eol == header_len(m),
{
    lemma_msg_layout(buf, m);
    if eol < header_len(m) {
        assert(buf[eol] != 13);
    } else if eol > header_len(m) {
        assert(!crlf_at(buf, header_len(m)));
    }
}

/// A search for the first space finds the one that the layout places.
proof fn lemma_first_space_is(buf: Seq<u8>, from: int, to: int, e: int, s: int)
    requires
        from <= s < to,
        buf[s] == 32,
        forall|j: int| from <= j < s ==> #[trigger] buf[j] != 32,
        from <= e <= to,
        e < to ==> buf[e] == 32,
        forall|j: int| from <= j < e ==> #[trigger] buf[j] != 32,
    ensures
        e == s,
{
    if e < s {
        assert(buf[e] != 32);
    } else if e > s {
        assert(buf[s] != 32);
    }
}

/// A search for a space where the layout places none runs to the end.
proof fn lemma_no_space(buf: Seq<u8>, from: int, to: int, e: int)
    requires
        forall|j: int| from <= j < to ==> #[trigger] buf[j] != 32,
        from <= e <= to,
        e < to ==> buf[e] == 32,
    ensures
        e == to,
{
    if e < to {
        assert(buf[e] != 32);
    }
}

/// A copy of `s[a..b]`.
pub fn copy_range(s: &[u8], a: usize, b: usize) -> (r: Vec<u8>)
    requires
        a <= b <= s@.len(),
    ensures
        r@ == s@.subrange(a as int, b as int),
{
    let mut r: Vec<u8> = Vec::new();
    let mut i: usize = a;
    while i < b
        invariant
            a <= i <= b <= s@.len(),
            r@ == s@.subrange(a as int, i as int),
        decreases b - i,
    {
        r.push(s[i]);
        i = i + 1;
        assert(r@ =~= s@.subrange(a as int, i as int));
    }
    r
}

/// A copy of `s`.
pub fn copy_all(s: &[u8]) -> (r: Vec<u8>)
    ensures
        r@ == s@,
{
    let r = copy_range(s, 0, s.len());
    assert(r@ =~= s@);
    r
}

/// The first line end in `s`.
pub fn find_crlf(s: &[u8]) -> (r: Option<usize>)
    ensures
        r matches Some(i) ==> crlf_at(s@, i as int) && forall|j: int|
            0 <= j < i ==> !crlf_at(s@, j),
        r is None ==> forall|j: int| 0 <= j < s@.len() ==> !crlf_at(s@, j),
{
    let mut i: usize = 0;
    while s.len() >= 2 && i < s.len() - 1
        invariant
            forall|j: int| 0 <= j < i ==> !crlf_at(s@, j),
        decreases s@.len() - i,
    {
        if s[i] == 13 && s[i + 1] == 10 {
            return Some(i);
        }
        i = i + 1;
    }
    None
}

/// The first space in `s[from..to]`, or `to` where there is none.
pub fn find_space(s: &[u8], from: usize, to: usize) -> (r: usize)
    requires
        from <= to <= s@.len(),
    ensures
        from <= r <= to,
        r < to ==> s@[r as int] == 32,
        forall|j: int| from <= j < r ==> s@[j] != 32,
{
    let mut i: usize = from;
    while i < to
        invariant
            from <= i <= to <= s@.len(),
            forall|j: int| from <= j < i ==> s@[j] != 32,
        decreases to - i,
    {
        if s[i] == 32 {
            return i;
        }
        i = i + 1;
    }
    i
}

/// `s[from..]` begins with `lit`.
pub fn has_at(s: &[u8], from: usize, end: usize, lit: &[u8]) -> (r: bool)
    requires
        from <= end <= s@.len(),
    ensures
        r == (from + lit@.len() <= end && s@.subrange(from as int, from + lit@.len()) == lit@),
{
    if lit.len() > end - from {
        return false;
    }
    let mut i: usize = 0;
    while i < lit.len()
        invariant
            i <= lit@.len(),
            from + lit@.len() <= end <= s@.len(),
            forall|j: int| 0 <= j < i ==> s@[from + j] == lit@[j],
        decreases lit@.len() - i,
    {
        if s[from + i] != lit[i] {
            assert(s@.subrange(from as int, from + lit@.len())[i as int] != lit@[i as int]);
            return false;
        }
        i = i + 1;
    }
    assert(s@.subrange(from as int, from + lit@.len()) =~= lit@);
    true
}

/// The decimal number in `s[a..b]`, written without leading zeros.
pub fn parse_decimal(s: &[u8], a: usize, b: usize) -> (r: Option<usize>)
    requires
        a <= b <= s@.len(),
    ensures
        r matches Some(v) ==> decimal(v as nat) == s@.subrange(a as int, b as int),
        forall|n: nat|
            n <= usize::MAX && n < pow10(18) && s@.subrange(a as int, b as int) == #[trigger] decimal(
                n,
            ) ==> r == Some(n as usize),
{
    proof {
        assert forall|n: nat|
            n < pow10(18) && s@.subrange(a as int, b as int) == #[trigger] decimal(n) implies {
                &&& a < b
                &&& b - a <= 18
                &&& (s@[a as int] == 48 ==> b - a == 1)
                &&& forall|i: int| a <= i < b ==> 48 <= #[trigger] s@[i] <= 57
            } by {
            lemma_decimal_digits(n);
            lemma_decimal_len(n, 18);
            assert(s@[a as int] == decimal(n)[0]);
            assert forall|i: int| a <= i < b implies 48 <= #[trigger] s@[i] <= 57 by {
                assert(s@[i] == decimal(n)[i - a]);
            }
        }
    }
    if a == b || b - a > 18 || (s[a] == 48 && b - a > 1) {
        return None;
    }
    let mut v: u64 = 0;
    let mut i: usize = a;
    while i < b
        invariant
            a <= i <= b <= s@.len(),
            b - a <= 18,
            i > a ==> decimal(v as nat) == s@.subrange(a as int, i as int),
            i > a && s@[a as int] != 48 ==> v > 0,
            s@[a as int] == 48 ==> b - a == 1,
            v < pow10((i - a) as nat),
        decreases b - i,
    {
        let c = s[i];
        if c < 48 || c > 57 {
            proof {
                assert forall|n: nat|
                    n < pow10(18) && s@.subrange(a as int, b as int) == #[trigger] decimal(n) implies false by {
                    lemma_decimal_digits(n);
                    assert(s@[i as int] == decimal(n)[i - a]);
                }
            }
            return None;
        }
        let d = (c - 48) as u64;
        proof {
            lemma_pow10_bound((i - a) as nat);
            lemma_pow10_step((i - a) as nat);
        }
        let nv = v * 10 + d;
        proof {
            if i > a {
                assert(nv >= 10);
                assert(nv / 10 == v);
                assert(nv % 10 == d);
            }
            assert(s@.subrange(a as int, i + 1) =~= s@.subrange(a as int, i as int).push(c));
        }
        v = nv;
        i = i + 1;
    }
    proof {
        lemma_pow10_bound((b - a) as nat);
        assert forall|n: nat|
            n < pow10(18) && s@.subrange(a as int, b as int) == #[trigger] decimal(n) implies n
            == v by {
            lemma_decimal_injective(n, v as nat);
        }
    }
    if v > usize::MAX as u64 {
        return None;
    }
    Some(v as usize)
}

/// Every byte of a decimal is a digit, it has at least one, at least two
/// from ten on, and it starts with a zero only for zero.
pub proof fn lemma_decimal_digits(n: nat)
    ensures
        decimal(n).len() >= 1,
        n >= 10 ==> decimal(n).len() >= 2,
        forall|i: int| 0 <= i < decimal(n).len() ==> 48 <= #[trigger] decimal(n)[i] <= 57,
        decimal(n)[0] == 48 ==> n == 0,
    decreases n,
{
    if n >= 10 {
        lemma_decimal_digits(n / 10);
        let d = decimal(n / 10);
        assert(decimal(n) == d.push((48 + n % 10) as u8));
        assert forall|i: int| 0 <= i < decimal(n).len() implies 48 <= #[trigger] decimal(n)[i] <= 57 by {
            if i < d.len() {
                assert(decimal(n)[i] == d[i]);
            }
        }
        assert(decimal(n)[0] == d[0]);
    }
}

/// A number below ten to the `k` has at most `k` decimal digits.
pub proof fn lemma_decimal_len(n: nat, k: nat)
    requires
        n < pow10(k),
        k >= 1,
    ensures
        decimal(n).len() <= k,
    decreases n,
{
    if n >= 10 {
        let k1 = (k - 1) as nat;
        assert(pow10(k) == 10 * pow10(k1));
        if k == 1 {
            assert(pow10(0) == 1);
        }
        lemma_decimal_len(n / 10, k1);
    }
}

/// Distinct numbers have distinct decimals.
pub proof fn lemma_decimal_injective(a: nat, b: nat)
    requires
        decimal(a) == decimal(b),
    ensures
        a == b,
    decreases a,
{
    lemma_decimal_digits(a);
    lemma_decimal_digits(b);
    if a >= 10 && b >= 10 {
        assert(decimal(a).last() == decimal(b).last());
        assert(decimal(a).drop_last() == decimal(a / 10));
        assert(decimal(b).drop_last() == decimal(b / 10));
        lemma_decimal_injective(a / 10, b / 10);
        assert(decimal(a).last() == (48 + a % 10) as u8);
        assert(decimal(b).last() == (48 + b % 10) as u8);
        assert(a % 10 == b % 10);
        assert(a == 10 * (a / 10) + a % 10);
        assert(b == 10 * (b / 10) + b % 10);
    } else if a < 10 && b < 10 {
        assert(decimal(a)[0] == decimal(b)[0]);
    }
}

pub open spec fn pow10(n: nat) -> nat
    decreases n,
{
    if n == 0 {
        1
    } else {
        10 * pow10((n - 1) as nat)
    }
}

proof fn lemma_pow10_step(n: nat)
    ensures
        pow10(n + 1) == 10 * pow10(n),
{
}

proof fn lemma_pow10_bound(n: nat)
    requires
        n <= 18,
    ensures
        pow10(n) <= 1000000000000000000,
    decreases 18 - n,
{
    reveal_with_fuel(pow10, 19);
    if n < 18 {
        lemma_pow10_bound(n + 1);
        assert(pow10(n + 1) == 10 * pow10(n));
    }
}

/// Decodes the MSG operation whose header line is `buf[0..eol]`; `buf[eol..]`
/// starts with the first line end.
#[verifier::spinoff_prover]
#[verifier::rlimit(100)]
fn parse_msg(buf: &[u8], eol: usize) -> (r: ParseOutcome)
    requires
        crlf_at(buf@, eol as int),
        forall|j: int| 0 <= j < eol ==> !crlf_at(buf@, j),
        4 <= eol,
        buf@.subrange(0, 4) == lit_msg(),
    ensures
        r matches ParseOutcome::Done(op, n) ==> n <= buf@.len() && buf@.subrange(0, n as int)
            == op_bytes(op) && op is MSG,
        forall|m: Message| #[trigger]
            starts_with_msg(buf@, m) ==> (r matches ParseOutcome::Done(Op::MSG(p), n) && n
                == op_bytes(Op::MSG(m)).len() && same_message(p, m)),
{
    let blen = buf.len();
    let e1 = find_space(buf, 4, eol);
    assert forall|m: Message| #[trigger] starts_with_msg(buf@, m) implies eol == header_len(m)
        && e1 == subject_end(m) && 4 < e1 < eol by {
        lemma_msg_layout(buf@, m);
        lemma_header_eol(buf@, m, eol as int);
        lemma_first_space_is(buf@, 4, eol as int, e1 as int, subject_end(m));
    }
    if e1 == 4 || e1 == eol {
        return ParseOutcome::Invalid;
    }
    let e2 = find_space(buf, e1 + 1, eol);
    assert forall|m: Message| #[trigger] starts_with_msg(buf@, m) implies e2 == sid_end(m) && e1
        + 1 < e2 < eol by {
        lemma_msg_layout(buf@, m);
        lemma_first_space_is(buf@, e1 + 1, eol as int, e2 as int, sid_end(m));
    }
    if e2 == e1 + 1 || e2 == eol {
        return ParseOutcome::Invalid;
    }
    let e3 = find_space(buf, e2 + 1, eol);
    assert forall|m: Message| #[trigger] starts_with_msg(buf@, m) implies (m.reply_to is Some
        ==> e3 == size_start(m) - 1 && e2 + 1 < e3 < eol) && (m.reply_to is None ==> e3 == eol
        && e2 + 1 == size_start(m)) by {
        lemma_msg_layout(buf@, m);
        if m.reply_to is Some {
            lemma_first_space_is(buf@, e2 + 1, eol as int, e3 as int, size_start(m) - 1);
        } else {
            lemma_no_space(buf@, e2 + 1, eol as int, e3 as int);
        }
    }
    if e3 == e2 + 1 {
        return ParseOutcome::Invalid;
    }
    let (reply_to, size, sz) = if e3 == eol {
        (None, parse_decimal(buf, e2 + 1, e3), e2 + 1)
    } else {
        let e4 = find_space(buf, e3 + 1, eol);
        assert forall|m: Message| #[trigger] starts_with_msg(buf@, m) implies e4 == eol
            && size_start(m) == e3 + 1 && e3 + 1 < eol by {
            lemma_msg_layout(buf@, m);
            lemma_no_space(buf@, e3 + 1, eol as int, e4 as int);
        }
        if e4 != eol || e4 == e3 + 1 {
            return ParseOutcome::Invalid;
        }
        (Some(copy_range(buf, e2 + 1, e3)), parse_decimal(buf, e3 + 1, eol), e3 + 1)
    };
    assert forall|m: Message| #[trigger] starts_with_msg(buf@, m) implies size == Some(
        m.payload@.len() as usize,
    ) && sz == size_start(m) && m.payload@.len() <= blen by {
        lemma_msg_layout(buf@, m);
        assert(buf@.subrange(sz as int, eol as int) == decimal(m.payload@.len()));
    }
    let n = match size {
        Some(n) => n,
        None => {
            return ParseOutcome::Invalid;
        },
    };
    if buf.len() - (eol + 2) < n || buf.len() - (eol + 2) - n < 2 {
        proof {
            assert forall|m: Message| #[trigger] starts_with_msg(buf@, m) implies false by {
                lemma_msg_layout(buf@, m);
            }
        }
        return ParseOutcome::Incomplete;
    }
    let start = eol + 2;
    let end = start + n;
    if buf[end] != 13 || buf[end + 1] != 10 {
        proof {
            assert forall|m: Message| #[trigger] starts_with_msg(buf@, m) implies false by {
                lemma_msg_layout(buf@, m);
            }
        }
        return ParseOutcome::Invalid;
    }
    let msg = Message {
        subject: copy_range(buf, 4, e1),
        sid: copy_range(buf, e1 + 1, e2),
        reply_to,
        payload: copy_range(buf, start, end),
    };
    proof {
        let b = buf@;
        assert(space_then(msg.reply_to) == if e3 == eol {
            Seq::<u8>::empty()
        } else {
            lit_space() + b.subrange(e2 + 1, e3 as int)
        });
        assert(b.subrange(sz as int, eol as int) == decimal(n as nat));
        assert(b.subrange(0, end + 2) =~= lit_msg() + b.subrange(4, e1 as int) + lit_space()
            + b.subrange(e1 + 1, e2 as int) + space_then(msg.reply_to) + lit_space() + b.subrange(
            sz as int,
            eol as int,
        ) + lit_crlf() + b.subrange(start as int, end as int) + lit_crlf());
        assert forall|m: Message| #[trigger] starts_with_msg(b, m) implies end + 2 == op_bytes(
            Op::MSG(m),
        ).len() && same_message(msg, m) by {
            lemma_msg_layout(b, m);
        }
    }
    ParseOutcome::Done(Op::MSG(msg), end + 2)
}

/// Decodes the operation at the start of `buf`.
pub fn parse_op(buf: &[u8]) -> (r: ParseOutcome)
    ensures
        r matches ParseOutcome::Done(op, n) ==> n <= buf@.len() && buf@.subrange(0, n as int)
            == op_bytes(op) && is_inbound(op),
        r is Incomplete ==> forall|j: int| 0 <= j < buf@.len() ==> !crlf_at(buf@, j)
            || has_msg_header(buf@),
        forall|m: Message| #[trigger]
            starts_with_msg(buf@, m) ==> (r matches ParseOutcome::Done(Op::MSG(p), n) && n
                == op_bytes(Op::MSG(m)).len() && same_message(p, m)),
        buf@.len() >= 6 && buf@.subrange(0, 6) == op_bytes(Op::PING) ==> (r matches ParseOutcome::Done(
            Op::PING,
            n,
        ) && n == 6),
        buf@.len() >= 6 && buf@.subrange(0, 6) == op_bytes(Op::PONG) ==> (r matches ParseOutcome::Done(
            Op::PONG,
            n,
        ) && n == 6),
        buf@.len() >= 5 && buf@.subrange(0, 5) == op_bytes(Op::OK) ==> (r matches ParseOutcome::Done(
            Op::OK,
            n,
        ) && n == 5),
        forall|j: Seq<u8>| #[trigger]
            starts_with_line(buf@, lit_info(), j) ==> (r matches ParseOutcome::Done(Op::INFO(v), n)
                && v@ == j && n == j.len() + 7),
        forall|e: Seq<u8>| #[trigger]
            starts_with_line(buf@, lit_err(), e) ==> (r matches ParseOutcome::Done(Op::ERR(v), n)
                && v@ == e && n == e.len() + 7),
{
    proof {
        assert forall|j: Seq<u8>| #[trigger] starts_with_line(buf@, lit_info(), j) implies crlf_at(
            buf@,
            j.len() + 5int,
        ) && (forall|i: int| 0 <= i < j.len() + 5 ==> !crlf_at(buf@, i)) && buf@.subrange(0, 5)
            == lit_info() && buf@[0] == 73 && buf@.subrange(5, j.len() + 5int) == j by {
            let line = lit_info() + j;
            assert(line + lit_crlf() == lit_info() + j + lit_crlf());
            assert forall|i: int| 0 <= i < line.len() implies #[trigger] line[i] != 13 by {
                if i >= 5 {
                    assert(line[i] == j[i - 5]);
                }
            }
            lemma_first_line_end(buf@, line);
            assert(buf@.subrange(0, 5) =~= line.subrange(0, 5));
            assert(buf@.subrange(5, j.len() + 5int) =~= line.subrange(5, line.len() as int));
            assert(buf@[0] == line[0]);
        }
        assert forall|e: Seq<u8>| #[trigger] starts_with_line(buf@, lit_err(), e) implies crlf_at(
            buf@,
            e.len() + 5int,
        ) && (forall|i: int| 0 <= i < e.len() + 5 ==> !crlf_at(buf@, i)) && buf@.subrange(0, 5)
            == lit_err() && buf@[0] == 45 && buf@.subrange(5, e.len() + 5int) == e by {
            let line = lit_err() + e;
            assert(line + lit_crlf() == lit_err() + e + lit_crlf());
            assert forall|i: int| 0 <= i < line.len() implies #[trigger] line[i] != 13 by {
                if i >= 5 {
                    assert(line[i] == e[i - 5]);
                }
            }
            lemma_first_line_end(buf@, line);
            assert(buf@.subrange(0, 5) =~= line.subrange(0, 5));
            assert(buf@.subrange(5, e.len() + 5int) =~= line.subrange(5, line.len() as int));
            assert(buf@[0] == line[0]);
        }
        if buf@.len() >= 5 && buf@.subrange(0, 5) == op_bytes(Op::OK) {
            lemma_first_line_end(buf@, lit_ok());
            assert(buf@[0] == buf@.subrange(0, 3)[0]);
        }
    }
    proof {
        if buf@.len() >= 6 && (buf@.subrange(0, 6) == op_bytes(Op::PING) || buf@.subrange(0, 6)
            == op_bytes(Op::PONG)) {
            let f = buf@.subrange(0, 6);
            assert(f[0] == buf@[0] && f[1] == buf@[1] && f[2] == buf@[2] && f[3] == buf@[3]);
            assert(f[4] == buf@[4] && f[5] == buf@[5]);
            assert(crlf_at(buf@, 4));
            assert(forall|j: int| 0 <= j < 4 ==> !crlf_at(buf@, j));
        }
    }
    let eol = match find_crlf(buf) {
        Some(i) => i,
        None => {
            proof {
                assert forall|m: Message| #[trigger] starts_with_msg(buf@, m) implies false by {
                    lemma_msg_layout(buf@, m);
                }
            }
            return ParseOutcome::Incomplete;
        },
    };
    assert forall|m: Message| #[trigger] starts_with_msg(buf@, m) implies eol == header_len(m)
        && header_len(m) >= 4 && buf@.subrange(0, 4) == lit_msg() by {
        lemma_msg_layout(buf@, m);
        lemma_header_eol(buf@, m, eol as int);
    }
    let len = buf.len();
    assert(eol + 2 <= len);
    proof {
        assert forall|j: Seq<u8>| #[trigger] starts_with_line(buf@, lit_info(), j) implies eol
            == j.len() + 5 && buf@.subrange(0, 4) != lit_msg() && buf@.subrange(0, 5) != lit_err() by {
            assert(buf@.subrange(0, 4)[0] == buf@[0]);
            assert(buf@.subrange(0, 5)[0] == buf@[0]);
        }
        assert forall|e: Seq<u8>| #[trigger] starts_with_line(buf@, lit_err(), e) implies eol
            == e.len() + 5 && buf@.subrange(0, 4) != lit_msg() && buf@.subrange(0, 5) != lit_info() by {
            assert(buf@.subrange(0, 4)[0] == buf@[0]);
            assert(buf@.subrange(0, 5)[0] == buf@[0]);
        }
        if buf@.len() >= 5 && buf@.subrange(0, 5) == op_bytes(Op::OK) {
            assert(eol == 3);
            assert(buf@.subrange(0, 4)[0] == buf@[0]);
            assert(buf@.subrange(0, 3) =~= lit_ok());
        }
        if buf@.len() >= 6 && (buf@.subrange(0, 6) == op_bytes(Op::PING) || buf@.subrange(0, 6)
            == op_bytes(Op::PONG)) {
            let f = buf@.subrange(0, 6);
            assert(f[0] == buf@[0] && f[1] == buf@[1] && f[2] == buf@[2] && f[3] == buf@[3]);
            assert(eol == 4);
            assert(buf@.subrange(0, 4)[0] == 80);
            assert(buf@.subrange(0, 4) != lit_msg());
            if buf@.subrange(0, 6) == op_bytes(Op::PING) {
                assert(buf@.subrange(0, 4) =~= lit_ping());
            } else {
                assert(buf@.subrange(0, 4) =~= lit_pong());
                assert(buf@.subrange(0, 4) != lit_ping());
            }
        }
    }
    let msg = [77u8, 83u8, 71u8, 32u8];
    let ping = [80u8, 73u8, 78u8, 71u8];
    let pong = [80u8, 79u8, 78u8, 71u8];
    let info = [73u8, 78u8, 70u8, 79u8, 32u8];
    let ok = [43u8, 79u8, 75u8];
    let err = [45u8, 69u8, 82u8, 82u8, 32u8];
    assert(msg@ =~= lit_msg());
    assert(ping@ =~= lit_ping());
    assert(pong@ =~= lit_pong());
    assert(info@ =~= lit_info());
    assert(ok@ =~= lit_ok());
    assert(err@ =~= lit_err());
    if has_at(buf, 0, eol, msg.as_slice()) {
        let r = parse_msg(buf, eol);
        assert(r is Incomplete ==> has_msg_header(buf@));
        r
    } else if eol == 4 && has_at(buf, 0, eol, ping.as_slice()) {
        assert(buf@.subrange(0, 6) =~= lit_ping() + lit_crlf());
        ParseOutcome::Done(Op::PING, 6)
    } else if eol == 4 && has_at(buf, 0, eol, pong.as_slice()) {
        assert(buf@.subrange(0, 6) =~= lit_pong() + lit_crlf());
        ParseOutcome::Done(Op::PONG, 6)
    } else if eol == 3 && has_at(buf, 0, eol, ok.as_slice()) {
        assert(buf@.subrange(0, 5) =~= lit_ok() + lit_crlf());
        ParseOutcome::Done(Op::OK, 5)
    } else if has_at(buf, 0, eol, info.as_slice()) {
        let j = copy_range(buf, 5, eol);
        assert(buf@.subrange(0, eol + 2) =~= lit_info() + j@ + lit_crlf());
        ParseOutcome::Done(Op::INFO(j), eol + 2)
    } else if has_at(buf, 0, eol, err.as_slice()) {
        let e = copy_range(buf, 5, eol);
        assert(buf@.subrange(0, eol + 2) =~= lit_err() + e@ + lit_crlf());
        ParseOutcome::Done(Op::ERR(e), eol + 2)
    } else {
        ParseOutcome::Invalid
    }
}

/// `s` starts with a MSG header line.
pub open spec fn has_msg_header(s: Seq<u8>) -> bool {
    s.len() >= 4 && s.subrange(0, 4) == lit_msg()
}

} // verus!
