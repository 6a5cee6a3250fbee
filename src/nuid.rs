//! Short, collision-resistant identifiers: a fixed random prefix followed by a
//! base-62 counter that grows by a random increment.
use vstd::prelude::*;

verus! {

/// Number of characters in the random prefix.
pub const PREFIX_LEN: usize = 12;

/// Number of base-62 digits in the sequential suffix.
pub const SEQ_LEN: usize = 10;

/// 62 to the power `SEQ_LEN`: the sequential part always stays below it.
pub const MAX_SEQ: u64 = 839299365868340224;

/// Smallest increment between two consecutive sequence values.
pub const MIN_INC: u64 = 33;

/// Increments are drawn from `MIN_INC .. MIN_INC + INC_SPAN`.
pub const INC_SPAN: u64 = 300;

/// The character of base-62 digit `d`: `0-9`, then `A-Z`, then `a-z`.
pub open spec fn digit_char(d: nat) -> u8 {
    if d < 10 {
        (48 + d) as u8
    } else if d < 36 {
        (55 + d) as u8
    } else {
        (61 + d) as u8
    }
}

/// A byte that may stand in an identifier.
pub open spec fn is_id_char(c: u8) -> bool {
    exists|d: nat| d < 62 && #[trigger] digit_char(d) == c
}

/// `n` written with exactly `width` base-62 digits, most significant first
/// (higher digits are dropped).
pub open spec fn base62(n: nat, width: nat) -> Seq<u8>
    decreases width,
{
    if width == 0 {
        seq![]
    } else {
        base62(n / 62, (width - 1) as nat).push(digit_char(n % 62))
    }
}

pub open spec fn pow62(w: nat) -> nat
    decreases w,
{
    if w == 0 {
        1
    } else {
        62 * pow62((w - 1) as nat)
    }
}

/// The identifier made of `prefix` and sequence value `seq`.
pub open spec fn id_of(prefix: Seq<u8>, seq: nat) -> Seq<u8> {
    prefix + base62(seq, SEQ_LEN as nat)
}

pub proof fn lemma_max_seq()
    ensures
        pow62(SEQ_LEN as nat) == MAX_SEQ,
{
    reveal_with_fuel(pow62, 11);
}

proof fn lemma_digit_char_injective(a: nat, b: nat)
    requires
        a < 62,
        b < 62,
        digit_char(a) == digit_char(b),
    ensures
        a == b,
{
}

proof fn lemma_base62_injective(a: nat, b: nat, w: nat)
    requires
        a < pow62(w),
        b < pow62(w),
        base62(a, w) == base62(b, w),
    ensures
        a == b,
    decreases w,
{
    if w > 0 {
        let sa = base62(a, w);
        let sb = base62(b, w);
        assert(sa.last() == digit_char(a % 62));
        assert(sb.last() == digit_char(b % 62));
        lemma_digit_char_injective(a % 62, b % 62);
        assert(sa.drop_last() == base62(a / 62, (w - 1) as nat));
        assert(sb.drop_last() == base62(b / 62, (w - 1) as nat));
        let p = pow62((w - 1) as nat);
        assert(a / 62 < p) by (nonlinear_arith)
            requires
                a < 62 * p,
        ;
        assert(b / 62 < p) by (nonlinear_arith)
            requires
                b < 62 * p,
        ;
        lemma_base62_injective(a / 62, b / 62, (w - 1) as nat);
    }
}

proof fn lemma_base62_len(n: nat, w: nat)
    ensures
        base62(n, w).len() == w,
    decreases w,
{
    if w > 0 {
        lemma_base62_len(n / 62, (w - 1) as nat);
    }
}

/// Identifiers built on one prefix from two different sequence values differ.
pub proof fn lemma_ids_distinct(prefix: Seq<u8>, a: nat, b: nat)
    requires
        a < MAX_SEQ,
        b < MAX_SEQ,
        a != b,
    ensures
        id_of(prefix, a) != id_of(prefix, b),
{
    lemma_max_seq();
    if id_of(prefix, a) == id_of(prefix, b) {
        lemma_base62_len(a, SEQ_LEN as nat);
        lemma_base62_len(b, SEQ_LEN as nat);
        assert(base62(a, SEQ_LEN as nat) == id_of(prefix, a).subrange(
            prefix.len() as int,
            id_of(prefix, a).len() as int,
        ));
        assert(base62(b, SEQ_LEN as nat) == id_of(prefix, b).subrange(
            prefix.len() as int,
            id_of(prefix, b).len() as int,
        ));
        lemma_base62_injective(a, b, SEQ_LEN as nat);
    }
}

/// The byte of base-62 digit `d`.
pub fn digit_byte(d: u64) -> (c: u8)
    requires
        d < 62,
    ensures
        c == digit_char(d as nat),
{
    if d < 10 {
        (48 + d) as u8
    } else if d < 36 {
        (55 + d) as u8
    } else {
        (61 + d) as u8
    }
}

/// Appends `n` written with `width` base-62 digits.
fn push_base62(n: u64, width: usize, out: &mut Vec<u8>)
    ensures
        final(out)@ == old(out)@ + base62(n as nat, width as nat),
    decreases width,
{
    if width > 0 {
        push_base62(n / 62, width - 1, out);
        out.push(digit_byte(n % 62));
        assert(base62(n as nat, width as nat) == base62((n / 62) as nat, (width - 1) as nat).push(
            digit_char((n % 62) as nat),
        ));
    }
}

/// An identifier generator.
pub struct Nuid {
    prefix: Vec<u8>,
    seq: u64,
    inc: u64,
}

impl Nuid {
    pub closed spec fn prefix(&self) -> Seq<u8> {
        self.prefix@
    }

    pub closed spec fn seq(&self) -> nat {
        self.seq as nat
    }

    pub closed spec fn inc(&self) -> nat {
        self.inc as nat
    }

    /// The prefix has the fixed length and is made of identifier characters,
    /// the sequence value is in range and the increment is in its band.
    pub open spec fn wf(&self) -> bool {
        &&& self.prefix().len() == PREFIX_LEN
        &&& forall|i: int| 0 <= i < PREFIX_LEN ==> is_id_char(#[trigger] self.prefix()[i])
        &&& self.seq() < MAX_SEQ
        &&& MIN_INC <= self.inc() < MIN_INC + INC_SPAN
    }

    /// A generator seeded from caller-supplied entropy: each prefix byte is
    /// taken modulo 62, the sequence value modulo `MAX_SEQ`, and the
    /// increment is `MIN_INC` plus the increment seed modulo `INC_SPAN`.
    pub fn from_entropy(prefix_seed: &[u8; 12], seq_seed: u64, inc_seed: u64) -> (r: Nuid)
        ensures
            r.wf(),
            r.prefix() == Seq::new(
                PREFIX_LEN as nat,
                |i: int| digit_char((prefix_seed@[i] % 62) as nat),
            ),
            r.seq() == seq_seed % MAX_SEQ,
            r.inc() == MIN_INC + inc_seed % INC_SPAN,
    {
        let mut r = Nuid { prefix: Vec::new(), seq: 0, inc: MIN_INC };
        r.randomize_prefix(prefix_seed);
        r.reset_sequential(seq_seed, inc_seed);
        r
    }

    /// Replaces the prefix with characters drawn from `seed`.
    pub fn randomize_prefix(&mut self, seed: &[u8; 12])
        ensures
            final(self).prefix() == Seq::new(
                PREFIX_LEN as nat,
                |i: int| digit_char((seed@[i] % 62) as nat),
            ),
            final(self).seq() == old(self).seq(),
            final(self).inc() == old(self).inc(),
            forall|i: int| 0 <= i < PREFIX_LEN ==> is_id_char(#[trigger] final(self).prefix()[i]),
    {
        let mut p: Vec<u8> = Vec::new();
        let mut i: usize = 0;
        while i < PREFIX_LEN
            invariant
                i <= PREFIX_LEN,
                seed@.len() == PREFIX_LEN,
                p@ == Seq::new(i as nat, |j: int| digit_char((seed@[j] % 62) as nat)),
            decreases PREFIX_LEN - i,
        {
            p.push(digit_byte((seed[i] % 62) as u64));
            i = i + 1;
            assert(p@ =~= Seq::new(i as nat, |j: int| digit_char((seed@[j] % 62) as nat)));
        }
        self.prefix = p;
        assert forall|i: int| 0 <= i < PREFIX_LEN implies is_id_char(
            #[trigger] self.prefix()[i],
        ) by {
            assert(digit_char((seed@[i] % 62) as nat) == self.prefix()[i]);
        }
    }

    /// Restarts the sequential part from the given seeds.
    pub fn reset_sequential(&mut self, seq_seed: u64, inc_seed: u64)
        ensures
            final(self).prefix() == old(self).prefix(),
            final(self).seq() == seq_seed % MAX_SEQ,
            final(self).inc() == MIN_INC + inc_seed % INC_SPAN,
    {
        self.seq = seq_seed % MAX_SEQ;
        self.inc = MIN_INC + inc_seed % INC_SPAN;
    }

    /// Whether `count` more identifiers can be minted before the sequence
    /// runs out.
    pub fn can_mint(&self, count: u64) -> (r: bool)
        requires
            self.wf(),
            count <= 2,
        ensures
            r == (self.seq() + count * self.inc() < MAX_SEQ),
    {
        assert(count * self.inc() <= 2 * 333) by (nonlinear_arith)
            requires
                count <= 2,
                self.inc() < 333,
        ;
        let step: u64 = count * self.inc;
        self.seq < MAX_SEQ - step
    }

    /// The prefix of the identifiers.
    pub fn prefix_bytes(&self) -> (r: Vec<u8>)
        ensures
            r@ == self.prefix(),
    {
        self.prefix.clone()
    }

    /// Advances the sequence and returns the new identifier. Returns `None`,
    /// leaving the generator unchanged, when the sequence would reach
    /// `MAX_SEQ`: the caller then reseeds.
    pub fn next(&mut self) -> (r: Option<Vec<u8>>)
        requires
            old(self).wf(),
        ensures
            final(self).wf(),
            final(self).prefix() == old(self).prefix(),
            final(self).inc() == old(self).inc(),
            old(self).seq() + old(self).inc() < MAX_SEQ ==> {
                &&& final(self).seq() == old(self).seq() + old(self).inc()
                &&& r matches Some(id) && id@ == id_of(old(self).prefix(), final(self).seq())
            },
            old(self).seq() + old(self).inc() >= MAX_SEQ ==> r is None && *final(self) == *old(self),
    {
        if self.seq >= MAX_SEQ - self.inc {
            return None;
        }
        self.seq = self.seq + self.inc;
        let mut id = self.prefix.clone();
        push_base62(self.seq, SEQ_LEN, &mut id);
        Some(id)
    }
}

/// Sequence values handed out by a generator only grow, and identifiers on
/// one prefix are distinct for distinct values: an identifier returned by
/// `next` differs from every identifier the generator returned before.
pub proof fn lemma_next_fresh(prefix: Seq<u8>, earlier: nat, later: nat)
    requires
        earlier < later,
        later < MAX_SEQ,
    ensures
        id_of(prefix, earlier) != id_of(prefix, later),
{
    lemma_ids_distinct(prefix, earlier, later);
}

} // verus!
