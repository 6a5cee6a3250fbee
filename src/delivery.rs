//! Decoding of delivered message envelopes, read back exactly where they
//! come in their shortest encoding.
use vstd::prelude::*;
use crate::protocol::{
    Field, MsgProto, bool_value, field_at, field_bytes, int64_value, ld_field, lemma_ld_content,
    read_field, varint_field,
};

verus! {

/// A delivered message envelope with these fields, in its shortest encoding.
pub open spec fn msg_proto_wire(c1: u64, c2: Seq<u8>, c3: Seq<u8>, c4: Seq<u8>, c5: i64, c6: bool) -> Seq<u8> {
    varint_field(1, c1 as nat) + ld_field(2, c2) + ld_field(3, c3) + ld_field(4, c4) + varint_field(5, int64_value(c5)) + varint_field(6, bool_value(c6))
}

/// Where field `k + 1` starts in a delivered message envelope.
pub open spec fn msg_proto_offset(c1: u64, c2: Seq<u8>, c3: Seq<u8>, c4: Seq<u8>, c5: i64, c6: bool, k: int) -> int {
    if k <= 0 {
        0
    } else if k == 1 {
        (varint_field(1, c1 as nat).len()) as int
    } else if k == 2 {
        (varint_field(1, c1 as nat).len() + ld_field(2, c2).len()) as int
    } else if k == 3 {
        (varint_field(1, c1 as nat).len() + ld_field(2, c2).len() + ld_field(3, c3).len()) as int
    } else if k == 4 {
        (varint_field(1, c1 as nat).len() + ld_field(2, c2).len() + ld_field(3, c3).len() + ld_field(4, c4).len()) as int
    } else if k == 5 {
        (varint_field(1, c1 as nat).len() + ld_field(2, c2).len() + ld_field(3, c3).len() + ld_field(4, c4).len() + varint_field(5, int64_value(c5)).len()) as int
    } else if k == 6 {
        (varint_field(1, c1 as nat).len() + ld_field(2, c2).len() + ld_field(3, c3).len() + ld_field(4, c4).len() + varint_field(5, int64_value(c5)).len() + varint_field(6, bool_value(c6)).len()) as int
    } else {
        msg_proto_wire(c1, c2, c3, c4, c5, c6).len() as int
    }
}

/// The stages of decoding a delivered message envelope: the first `k`
/// fields read.
pub open spec fn msg_proto_stage(buf: Seq<u8>, c1: u64, c2: Seq<u8>, c3: Seq<u8>, c4: Seq<u8>, c5: i64, c6: bool, pos: int, g1: u64, g2: Seq<u8>, g3: Seq<u8>, g4: Seq<u8>, g5: i64, g6: bool) -> bool {
    ||| (pos == msg_proto_offset(c1, c2, c3, c4, c5, c6, 0) && g1 == 0 && g2.len() == 0 && g3.len() == 0 && g4.len() == 0 && g5 == 0 && !g6)
    ||| (pos == msg_proto_offset(c1, c2, c3, c4, c5, c6, 1) && g1 == c1 && g2.len() == 0 && g3.len() == 0 && g4.len() == 0 && g5 == 0 && !g6)
    ||| (pos == msg_proto_offset(c1, c2, c3, c4, c5, c6, 2) && g1 == c1 && g2 == c2 && g3.len() == 0 && g4.len() == 0 && g5 == 0 && !g6)
    ||| (pos == msg_proto_offset(c1, c2, c3, c4, c5, c6, 3) && g1 == c1 && g2 == c2 && g3 == c3 && g4.len() == 0 && g5 == 0 && !g6)
    ||| (pos == msg_proto_offset(c1, c2, c3, c4, c5, c6, 4) && g1 == c1 && g2 == c2 && g3 == c3 && g4 == c4 && g5 == 0 && !g6)
    ||| (pos == msg_proto_offset(c1, c2, c3, c4, c5, c6, 5) && g1 == c1 && g2 == c2 && g3 == c3 && g4 == c4 && g5 == c5 && !g6)
    ||| (pos == msg_proto_offset(c1, c2, c3, c4, c5, c6, 6) && g1 == c1 && g2 == c2 && g3 == c3 && g4 == c4 && g5 == c5 && g6 == c6)
}

/// A signed 64-bit value survives the trip through its unsigned bits.
proof fn lemma_i64_bits(t: i64)
    ensures
        ((t as u64) as i64) == t,
{
    assert(((t as u64) as i64) == t) by (bit_vector);
}

/// Before the end of an envelope, the next field that holds a value starts
/// at the current position.
#[verifier::spinoff_prover]
#[verifier::rlimit(100)]
proof fn lemma_msg_proto_next(buf: Seq<u8>, c1: u64, c2: Seq<u8>, c3: Seq<u8>, c4: Seq<u8>, c5: i64, c6: bool, pos: int, g1: u64, g2: Seq<u8>, g3: Seq<u8>, g4: Seq<u8>, g5: i64, g6: bool)
    requires
        msg_proto_wire(c1, c2, c3, c4, c5, c6) == buf,
        msg_proto_stage(buf, c1, c2, c3, c4, c5, c6, pos, g1, g2, g3, g4, g5, g6),
        pos < buf.len(),
    ensures
        ({
            ||| (c1 != 0 && field_at(buf, pos, varint_field(1, c1 as nat)) && pos == msg_proto_offset(c1, c2, c3, c4, c5, c6, 0) && g1 == 0 && g2.len() == 0 && g3.len() == 0 && g4.len() == 0 && g5 == 0 && !g6)
            ||| (c2.len() > 0 && field_at(buf, pos, ld_field(2, c2)) && pos == msg_proto_offset(c1, c2, c3, c4, c5, c6, 1) && g1 == c1 && g2.len() == 0 && g3.len() == 0 && g4.len() == 0 && g5 == 0 && !g6)
            ||| (c3.len() > 0 && field_at(buf, pos, ld_field(3, c3)) && pos == msg_proto_offset(c1, c2, c3, c4, c5, c6, 2) && g1 == c1 && g2 == c2 && g3.len() == 0 && g4.len() == 0 && g5 == 0 && !g6)
            ||| (c4.len() > 0 && field_at(buf, pos, ld_field(4, c4)) && pos == msg_proto_offset(c1, c2, c3, c4, c5, c6, 3) && g1 == c1 && g2 == c2 && g3 == c3 && g4.len() == 0 && g5 == 0 && !g6)
            ||| (c5 != 0 && field_at(buf, pos, varint_field(5, int64_value(c5))) && pos == msg_proto_offset(c1, c2, c3, c4, c5, c6, 4) && g1 == c1 && g2 == c2 && g3 == c3 && g4 == c4 && g5 == 0 && !g6)
            ||| (c6 && field_at(buf, pos, varint_field(6, bool_value(c6))) && pos == msg_proto_offset(c1, c2, c3, c4, c5, c6, 5) && g1 == c1 && g2 == c2 && g3 == c3 && g4 == c4 && g5 == c5 && !g6)
        }),
{
    lemma_i64_bits(c5);
    if pos == msg_proto_offset(c1, c2, c3, c4, c5, c6, 0) && g1 == 0 && g2.len() == 0 && g3.len() == 0 && g4.len() == 0 && g5 == 0 && !g6 {
        if c1 != 0 {
            assert(buf.subrange(msg_proto_offset(c1, c2, c3, c4, c5, c6, 0), msg_proto_offset(c1, c2, c3, c4, c5, c6, 1)) =~= varint_field(1, c1 as nat));
            assert((c1 != 0 && field_at(buf, pos, varint_field(1, c1 as nat)) && pos == msg_proto_offset(c1, c2, c3, c4, c5, c6, 0) && g1 == 0 && g2.len() == 0 && g3.len() == 0 && g4.len() == 0 && g5 == 0 && !g6));
        } else if !(c1 != 0) && c2.len() > 0 {
            assert(buf.subrange(msg_proto_offset(c1, c2, c3, c4, c5, c6, 1), msg_proto_offset(c1, c2, c3, c4, c5, c6, 2)) =~= ld_field(2, c2));
            assert((c2.len() > 0 && field_at(buf, pos, ld_field(2, c2)) && pos == msg_proto_offset(c1, c2, c3, c4, c5, c6, 1) && g1 == c1 && g2.len() == 0 && g3.len() == 0 && g4.len() == 0 && g5 == 0 && !g6));
        } else if !(c1 != 0) && !(c2.len() > 0) && c3.len() > 0 {
            assert(buf.subrange(msg_proto_offset(c1, c2, c3, c4, c5, c6, 2), msg_proto_offset(c1, c2, c3, c4, c5, c6, 3)) =~= ld_field(3, c3));
            assert(g2 =~= c2);
            assert((c3.len() > 0 && field_at(buf, pos, ld_field(3, c3)) && pos == msg_proto_offset(c1, c2, c3, c4, c5, c6, 2) && g1 == c1 && g2 == c2 && g3.len() == 0 && g4.len() == 0 && g5 == 0 && !g6));
        } else if !(c1 != 0) && !(c2.len() > 0) && !(c3.len() > 0) && c4.len() > 0 {
            assert(buf.subrange(msg_proto_offset(c1, c2, c3, c4, c5, c6, 3), msg_proto_offset(c1, c2, c3, c4, c5, c6, 4)) =~= ld_field(4, c4));
            assert(g2 =~= c2);
            assert(g3 =~= c3);
            assert((c4.len() > 0 && field_at(buf, pos, ld_field(4, c4)) && pos == msg_proto_offset(c1, c2, c3, c4, c5, c6, 3) && g1 == c1 && g2 == c2 && g3 == c3 && g4.len() == 0 && g5 == 0 && !g6));
        } else if !(c1 != 0) && !(c2.len() > 0) && !(c3.len() > 0) && !(c4.len() > 0) && c5 != 0 {
            assert(buf.subrange(msg_proto_offset(c1, c2, c3, c4, c5, c6, 4), msg_proto_offset(c1, c2, c3, c4, c5, c6, 5)) =~= varint_field(5, int64_value(c5)));
            assert(g2 =~= c2);
            assert(g3 =~= c3);
            assert(g4 =~= c4);
            assert((c5 != 0 && field_at(buf, pos, varint_field(5, int64_value(c5))) && pos == msg_proto_offset(c1, c2, c3, c4, c5, c6, 4) && g1 == c1 && g2 == c2 && g3 == c3 && g4 == c4 && g5 == 0 && !g6));
        } else if !(c1 != 0) && !(c2.len() > 0) && !(c3.len() > 0) && !(c4.len() > 0) && !(c5 != 0) && c6 {
            assert(buf.subrange(msg_proto_offset(c1, c2, c3, c4, c5, c6, 5), msg_proto_offset(c1, c2, c3, c4, c5, c6, 6)) =~= varint_field(6, bool_value(c6)));
            assert(g2 =~= c2);
            assert(g3 =~= c3);
            assert(g4 =~= c4);
            assert((c6 && field_at(buf, pos, varint_field(6, bool_value(c6))) && pos == msg_proto_offset(c1, c2, c3, c4, c5, c6, 5) && g1 == c1 && g2 == c2 && g3 == c3 && g4 == c4 && g5 == c5 && !g6));
        } else {
            assert(pos == buf.len());
        }
    } else if pos == msg_proto_offset(c1, c2, c3, c4, c5, c6, 1) && g1 == c1 && g2.len() == 0 && g3.len() == 0 && g4.len() == 0 && g5 == 0 && !g6 {
        if c2.len() > 0 {
            assert(buf.subrange(msg_proto_offset(c1, c2, c3, c4, c5, c6, 1), msg_proto_offset(c1, c2, c3, c4, c5, c6, 2)) =~= ld_field(2, c2));
            assert((c2.len() > 0 && field_at(buf, pos, ld_field(2, c2)) && pos == msg_proto_offset(c1, c2, c3, c4, c5, c6, 1) && g1 == c1 && g2.len() == 0 && g3.len() == 0 && g4.len() == 0 && g5 == 0 && !g6));
        } else if !(c2.len() > 0) && c3.len() > 0 {
            assert(buf.subrange(msg_proto_offset(c1, c2, c3, c4, c5, c6, 2), msg_proto_offset(c1, c2, c3, c4, c5, c6, 3)) =~= ld_field(3, c3));
            assert(g2 =~= c2);
            assert((c3.len() > 0 && field_at(buf, pos, ld_field(3, c3)) && pos == msg_proto_offset(c1, c2, c3, c4, c5, c6, 2) && g1 == c1 && g2 == c2 && g3.len() == 0 && g4.len() == 0 && g5 == 0 && !g6));
        } else if !(c2.len() > 0) && !(c3.len() > 0) && c4.len() > 0 {
            assert(buf.subrange(msg_proto_offset(c1, c2, c3, c4, c5, c6, 3), msg_proto_offset(c1, c2, c3, c4, c5, c6, 4)) =~= ld_field(4, c4));
            assert(g2 =~= c2);
            assert(g3 =~= c3);
            assert((c4.len() > 0 && field_at(buf, pos, ld_field(4, c4)) && pos == msg_proto_offset(c1, c2, c3, c4, c5, c6, 3) && g1 == c1 && g2 == c2 && g3 == c3 && g4.len() == 0 && g5 == 0 && !g6));
        } else if !(c2.len() > 0) && !(c3.len() > 0) && !(c4.len() > 0) && c5 != 0 {
            assert(buf.subrange(msg_proto_offset(c1, c2, c3, c4, c5, c6, 4), msg_proto_offset(c1, c2, c3, c4, c5, c6, 5)) =~= varint_field(5, int64_value(c5)));
            assert(g2 =~= c2);
            assert(g3 =~= c3);
            assert(g4 =~= c4);
            assert((c5 != 0 && field_at(buf, pos, varint_field(5, int64_value(c5))) && pos == msg_proto_offset(c1, c2, c3, c4, c5, c6, 4) && g1 == c1 && g2 == c2 && g3 == c3 && g4 == c4 && g5 == 0 && !g6));
        } else if !(c2.len() > 0) && !(c3.len() > 0) && !(c4.len() > 0) && !(c5 != 0) && c6 {
            assert(buf.subrange(msg_proto_offset(c1, c2, c3, c4, c5, c6, 5), msg_proto_offset(c1, c2, c3, c4, c5, c6, 6)) =~= varint_field(6, bool_value(c6)));
            assert(g2 =~= c2);
            assert(g3 =~= c3);
            assert(g4 =~= c4);
            assert((c6 && field_at(buf, pos, varint_field(6, bool_value(c6))) && pos == msg_proto_offset(c1, c2, c3, c4, c5, c6, 5) && g1 == c1 && g2 == c2 && g3 == c3 && g4 == c4 && g5 == c5 && !g6));
        } else {
            assert(pos == buf.len());
        }
    } else if pos == msg_proto_offset(c1, c2, c3, c4, c5, c6, 2) && g1 == c1 && g2 == c2 && g3.len() == 0 && g4.len() == 0 && g5 == 0 && !g6 {
        if c3.len() > 0 {
            assert(buf.subrange(msg_proto_offset(c1, c2, c3, c4, c5, c6, 2), msg_proto_offset(c1, c2, c3, c4, c5, c6, 3)) =~= ld_field(3, c3));
            assert((c3.len() > 0 && field_at(buf, pos, ld_field(3, c3)) && pos == msg_proto_offset(c1, c2, c3, c4, c5, c6, 2) && g1 == c1 && g2 == c2 && g3.len() == 0 && g4.len() == 0 && g5 == 0 && !g6));
        } else if !(c3.len() > 0) && c4.len() > 0 {
            assert(buf.subrange(msg_proto_offset(c1, c2, c3, c4, c5, c6, 3), msg_proto_offset(c1, c2, c3, c4, c5, c6, 4)) =~= ld_field(4, c4));
            assert(g3 =~= c3);
            assert((c4.len() > 0 && field_at(buf, pos, ld_field(4, c4)) && pos == msg_proto_offset(c1, c2, c3, c4, c5, c6, 3) && g1 == c1 && g2 == c2 && g3 == c3 && g4.len() == 0 && g5 == 0 && !g6));
        } else if !(c3.len() > 0) && !(c4.len() > 0) && c5 != 0 {
            assert(buf.subrange(msg_proto_offset(c1, c2, c3, c4, c5, c6, 4), msg_proto_offset(c1, c2, c3, c4, c5, c6, 5)) =~= varint_field(5, int64_value(c5)));
            assert(g3 =~= c3);
            assert(g4 =~= c4);
            assert((c5 != 0 && field_at(buf, pos, varint_field(5, int64_value(c5))) && pos == msg_proto_offset(c1, c2, c3, c4, c5, c6, 4) && g1 == c1 && g2 == c2 && g3 == c3 && g4 == c4 && g5 == 0 && !g6));
        } else if !(c3.len() > 0) && !(c4.len() > 0) && !(c5 != 0) && c6 {
            assert(buf.subrange(msg_proto_offset(c1, c2, c3, c4, c5, c6, 5), msg_proto_offset(c1, c2, c3, c4, c5, c6, 6)) =~= varint_field(6, bool_value(c6)));
            assert(g3 =~= c3);
            assert(g4 =~= c4);
            assert((c6 && field_at(buf, pos, varint_field(6, bool_value(c6))) && pos == msg_proto_offset(c1, c2, c3, c4, c5, c6, 5) && g1 == c1 && g2 == c2 && g3 == c3 && g4 == c4 && g5 == c5 && !g6));
        } else {
            assert(pos == buf.len());
        }
    } else if pos == msg_proto_offset(c1, c2, c3, c4, c5, c6, 3) && g1 == c1 && g2 == c2 && g3 == c3 && g4.len() == 0 && g5 == 0 && !g6 {
        if c4.len() > 0 {
            assert(buf.subrange(msg_proto_offset(c1, c2, c3, c4, c5, c6, 3), msg_proto_offset(c1, c2, c3, c4, c5, c6, 4)) =~= ld_field(4, c4));
            assert((c4.len() > 0 && field_at(buf, pos, ld_field(4, c4)) && pos == msg_proto_offset(c1, c2, c3, c4, c5, c6, 3) && g1 == c1 && g2 == c2 && g3 == c3 && g4.len() == 0 && g5 == 0 && !g6));
        } else if !(c4.len() > 0) && c5 != 0 {
            assert(buf.subrange(msg_proto_offset(c1, c2, c3, c4, c5, c6, 4), msg_proto_offset(c1, c2, c3, c4, c5, c6, 5)) =~= varint_field(5, int64_value(c5)));
            assert(g4 =~= c4);
            assert((c5 != 0 && field_at(buf, pos, varint_field(5, int64_value(c5))) && pos == msg_proto_offset(c1, c2, c3, c4, c5, c6, 4) && g1 == c1 && g2 == c2 && g3 == c3 && g4 == c4 && g5 == 0 && !g6));
        } else if !(c4.len() > 0) && !(c5 != 0) && c6 {
            assert(buf.subrange(msg_proto_offset(c1, c2, c3, c4, c5, c6, 5), msg_proto_offset(c1, c2, c3, c4, c5, c6, 6)) =~= varint_field(6, bool_value(c6)));
            assert(g4 =~= c4);
            assert((c6 && field_at(buf, pos, varint_field(6, bool_value(c6))) && pos == msg_proto_offset(c1, c2, c3, c4, c5, c6, 5) && g1 == c1 && g2 == c2 && g3 == c3 && g4 == c4 && g5 == c5 && !g6));
        } else {
            assert(pos == buf.len());
        }
    } else if pos == msg_proto_offset(c1, c2, c3, c4, c5, c6, 4) && g1 == c1 && g2 == c2 && g3 == c3 && g4 == c4 && g5 == 0 && !g6 {
        if c5 != 0 {
            assert(buf.subrange(msg_proto_offset(c1, c2, c3, c4, c5, c6, 4), msg_proto_offset(c1, c2, c3, c4, c5, c6, 5)) =~= varint_field(5, int64_value(c5)));
            assert((c5 != 0 && field_at(buf, pos, varint_field(5, int64_value(c5))) && pos == msg_proto_offset(c1, c2, c3, c4, c5, c6, 4) && g1 == c1 && g2 == c2 && g3 == c3 && g4 == c4 && g5 == 0 && !g6));
        } else if !(c5 != 0) && c6 {
            assert(buf.subrange(msg_proto_offset(c1, c2, c3, c4, c5, c6, 5), msg_proto_offset(c1, c2, c3, c4, c5, c6, 6)) =~= varint_field(6, bool_value(c6)));
            assert((c6 && field_at(buf, pos, varint_field(6, bool_value(c6))) && pos == msg_proto_offset(c1, c2, c3, c4, c5, c6, 5) && g1 == c1 && g2 == c2 && g3 == c3 && g4 == c4 && g5 == c5 && !g6));
        } else {
            assert(pos == buf.len());
        }
    } else if pos == msg_proto_offset(c1, c2, c3, c4, c5, c6, 5) && g1 == c1 && g2 == c2 && g3 == c3 && g4 == c4 && g5 == c5 && !g6 {
        if c6 {
            assert(buf.subrange(msg_proto_offset(c1, c2, c3, c4, c5, c6, 5), msg_proto_offset(c1, c2, c3, c4, c5, c6, 6)) =~= varint_field(6, bool_value(c6)));
            assert((c6 && field_at(buf, pos, varint_field(6, bool_value(c6))) && pos == msg_proto_offset(c1, c2, c3, c4, c5, c6, 5) && g1 == c1 && g2 == c2 && g3 == c3 && g4 == c4 && g5 == c5 && !g6));
        } else {
            assert(pos == buf.len());
        }
    }
}

/// Reading the next field of an envelope moves decoding to a later stage.
#[verifier::spinoff_prover]
#[verifier::rlimit(100)]
proof fn lemma_msg_proto_step(buf: Seq<u8>, c1: u64, c2: Seq<u8>, c3: Seq<u8>, c4: Seq<u8>, c5: i64, c6: bool, old_pos: int, o1: u64, o2: Seq<u8>, o3: Seq<u8>, o4: Seq<u8>, o5: i64, o6: bool, f: Field, n1: u64, n2: Seq<u8>, n3: Seq<u8>, n4: Seq<u8>, n5: i64, n6: bool)
    requires
        msg_proto_wire(c1, c2, c3, c4, c5, c6) == buf,
        0 <= old_pos,
        (c1 != 0 && field_at(buf, old_pos, varint_field(1, c1 as nat)) && old_pos == msg_proto_offset(c1, c2, c3, c4, c5, c6, 0) && o1 == 0 && o2.len() == 0 && o3.len() == 0 && o4.len() == 0 && o5 == 0 && !o6)
            || (c2.len() > 0 && field_at(buf, old_pos, ld_field(2, c2)) && old_pos == msg_proto_offset(c1, c2, c3, c4, c5, c6, 1) && o1 == c1 && o2.len() == 0 && o3.len() == 0 && o4.len() == 0 && o5 == 0 && !o6)
            || (c3.len() > 0 && field_at(buf, old_pos, ld_field(3, c3)) && old_pos == msg_proto_offset(c1, c2, c3, c4, c5, c6, 2) && o1 == c1 && o2 == c2 && o3.len() == 0 && o4.len() == 0 && o5 == 0 && !o6)
            || (c4.len() > 0 && field_at(buf, old_pos, ld_field(4, c4)) && old_pos == msg_proto_offset(c1, c2, c3, c4, c5, c6, 3) && o1 == c1 && o2 == c2 && o3 == c3 && o4.len() == 0 && o5 == 0 && !o6)
            || (c5 != 0 && field_at(buf, old_pos, varint_field(5, int64_value(c5))) && old_pos == msg_proto_offset(c1, c2, c3, c4, c5, c6, 4) && o1 == c1 && o2 == c2 && o3 == c3 && o4 == c4 && o5 == 0 && !o6)
            || (c6 && field_at(buf, old_pos, varint_field(6, bool_value(c6))) && old_pos == msg_proto_offset(c1, c2, c3, c4, c5, c6, 5) && o1 == c1 && o2 == c2 && o3 == c3 && o4 == c4 && o5 == c5 && !o6),
        forall|t: nat, c: Seq<u8>|
            1 <= t < 0x1000 && 0 < c.len() && #[trigger] field_at(buf, old_pos, ld_field(t, c))
                ==> f.tag == t && f.wire == 2 && f.end == old_pos + ld_field(t, c).len()
                && f.start == f.end - c.len(),
        forall|t: nat, x: nat|
            1 <= t < 0x1000 && 0 < x < 0x1_0000_0000_0000_0000 && #[trigger] field_at(
                buf,
                old_pos,
                varint_field(t, x),
            ) ==> f.tag == t && f.wire == 0 && f.value == x && f.end == old_pos
                + varint_field(t, x).len(),
        n1 == if f.tag == 1 { f.value } else { o1 },
        n2 == if f.tag == 2 { buf.subrange(f.start as int, f.end as int) } else { o2 },
        n3 == if f.tag == 3 { buf.subrange(f.start as int, f.end as int) } else { o3 },
        n4 == if f.tag == 4 { buf.subrange(f.start as int, f.end as int) } else { o4 },
        n5 == if f.tag == 5 { f.value as i64 } else { o5 },
        n6 == if f.tag == 6 { f.value != 0 } else { o6 },
    ensures
        msg_proto_stage(buf, c1, c2, c3, c4, c5, c6, f.end as int, n1, n2, n3, n4, n5, n6),
{
    lemma_i64_bits(c5);
    if (c1 != 0 && field_at(buf, old_pos, varint_field(1, c1 as nat)) && old_pos == msg_proto_offset(c1, c2, c3, c4, c5, c6, 0) && o1 == 0 && o2.len() == 0 && o3.len() == 0 && o4.len() == 0 && o5 == 0 && !o6) {
        assert(f.tag == 1);
        assert(f.end == msg_proto_offset(c1, c2, c3, c4, c5, c6, 1));
    } else if (c2.len() > 0 && field_at(buf, old_pos, ld_field(2, c2)) && old_pos == msg_proto_offset(c1, c2, c3, c4, c5, c6, 1) && o1 == c1 && o2.len() == 0 && o3.len() == 0 && o4.len() == 0 && o5 == 0 && !o6) {
        lemma_ld_content(buf, old_pos, 2, c2);
        assert(f.tag == 2);
        assert(f.end == msg_proto_offset(c1, c2, c3, c4, c5, c6, 2));
    } else if (c3.len() > 0 && field_at(buf, old_pos, ld_field(3, c3)) && old_pos == msg_proto_offset(c1, c2, c3, c4, c5, c6, 2) && o1 == c1 && o2 == c2 && o3.len() == 0 && o4.len() == 0 && o5 == 0 && !o6) {
        lemma_ld_content(buf, old_pos, 3, c3);
        assert(f.tag == 3);
        assert(f.end == msg_proto_offset(c1, c2, c3, c4, c5, c6, 3));
    } else if (c4.len() > 0 && field_at(buf, old_pos, ld_field(4, c4)) && old_pos == msg_proto_offset(c1, c2, c3, c4, c5, c6, 3) && o1 == c1 && o2 == c2 && o3 == c3 && o4.len() == 0 && o5 == 0 && !o6) {
        lemma_ld_content(buf, old_pos, 4, c4);
        assert(f.tag == 4);
        assert(f.end == msg_proto_offset(c1, c2, c3, c4, c5, c6, 4));
    } else if (c5 != 0 && field_at(buf, old_pos, varint_field(5, int64_value(c5))) && old_pos == msg_proto_offset(c1, c2, c3, c4, c5, c6, 4) && o1 == c1 && o2 == c2 && o3 == c3 && o4 == c4 && o5 == 0 && !o6) {
        assert(f.tag == 5);
        assert(f.end == msg_proto_offset(c1, c2, c3, c4, c5, c6, 5));
    } else if (c6 && field_at(buf, old_pos, varint_field(6, bool_value(c6))) && old_pos == msg_proto_offset(c1, c2, c3, c4, c5, c6, 5) && o1 == c1 && o2 == c2 && o3 == c3 && o4 == c4 && o5 == c5 && !o6) {
        assert(f.tag == 6);
        assert(f.end == msg_proto_offset(c1, c2, c3, c4, c5, c6, 6));
    }
}

impl MsgProto {
    /// Decodes a message envelope; for a repeated field the last occurrence
    /// counts, unknown fields are skipped. Fails on a malformed field or a
    /// known field of the wrong wire type. An envelope in its shortest
    /// encoding is read back exactly.
    pub fn decode(buf: &[u8]) -> (r: Option<MsgProto>)
        ensures
            buf@.len() == 0 ==> (r matches Some(m) && m.sequence == 0 && m.subject@.len() == 0
                && m.reply@.len() == 0 && m.data@.len() == 0 && m.timestamp == 0
                && !m.redelivered),
            forall|c1: u64, c2: Seq<u8>, c3: Seq<u8>, c4: Seq<u8>, c5: i64, c6: bool| #[trigger]
                msg_proto_wire(c1, c2, c3, c4, c5, c6) == buf@ ==> (r matches Some(m) && m.sequence == c1
                    && m.subject@ == c2 && m.reply@ == c3 && m.data@ == c4 && m.timestamp == c5
                    && m.redelivered == c6),
    {
        let mut m = MsgProto {
            sequence: 0,
            subject: Vec::new(),
            reply: Vec::new(),
            data: Vec::new(),
            timestamp: 0,
            redelivered: false,
        };
        let mut pos: usize = 0;
        while pos < buf.len()
            invariant
                pos <= buf@.len(),
                buf@.len() == 0 ==> m.sequence == 0 && m.subject@.len() == 0 && m.reply@.len() == 0
                    && m.data@.len() == 0 && m.timestamp == 0 && !m.redelivered,
                forall|c1: u64, c2: Seq<u8>, c3: Seq<u8>, c4: Seq<u8>, c5: i64, c6: bool| #[trigger]
                    msg_proto_wire(c1, c2, c3, c4, c5, c6) == buf@ ==> msg_proto_stage(
                        buf@,
                        c1, c2, c3, c4, c5, c6,
                        pos as int,
                        m.sequence,
                        m.subject@,
                        m.reply@,
                        m.data@,
                        m.timestamp,
                        m.redelivered,
                    ),
            decreases buf@.len() - pos,
        {
            proof {
                assert forall|c1: u64, c2: Seq<u8>, c3: Seq<u8>, c4: Seq<u8>, c5: i64, c6: bool| #[trigger] msg_proto_wire(c1, c2, c3, c4, c5, c6) == buf@ implies
                    (c1 != 0 && field_at(buf@, pos as int, varint_field(1, c1 as nat)) && pos as int == msg_proto_offset(c1, c2, c3, c4, c5, c6, 0) && m.sequence == 0 && m.subject@.len() == 0 && m.reply@.len() == 0 && m.data@.len() == 0 && m.timestamp == 0 && !m.redelivered)
                    || (c2.len() > 0 && field_at(buf@, pos as int, ld_field(2, c2)) && pos as int == msg_proto_offset(c1, c2, c3, c4, c5, c6, 1) && m.sequence == c1 && m.subject@.len() == 0 && m.reply@.len() == 0 && m.data@.len() == 0 && m.timestamp == 0 && !m.redelivered)
                    || (c3.len() > 0 && field_at(buf@, pos as int, ld_field(3, c3)) && pos as int == msg_proto_offset(c1, c2, c3, c4, c5, c6, 2) && m.sequence == c1 && m.subject@ == c2 && m.reply@.len() == 0 && m.data@.len() == 0 && m.timestamp == 0 && !m.redelivered)
                    || (c4.len() > 0 && field_at(buf@, pos as int, ld_field(4, c4)) && pos as int == msg_proto_offset(c1, c2, c3, c4, c5, c6, 3) && m.sequence == c1 && m.subject@ == c2 && m.reply@ == c3 && m.data@.len() == 0 && m.timestamp == 0 && !m.redelivered)
                    || (c5 != 0 && field_at(buf@, pos as int, varint_field(5, int64_value(c5))) && pos as int == msg_proto_offset(c1, c2, c3, c4, c5, c6, 4) && m.sequence == c1 && m.subject@ == c2 && m.reply@ == c3 && m.data@ == c4 && m.timestamp == 0 && !m.redelivered)
                    || (c6 && field_at(buf@, pos as int, varint_field(6, bool_value(c6))) && pos as int == msg_proto_offset(c1, c2, c3, c4, c5, c6, 5) && m.sequence == c1 && m.subject@ == c2 && m.reply@ == c3 && m.data@ == c4 && m.timestamp == c5 && !m.redelivered) by {
                    lemma_msg_proto_next(
                        buf@,
                        c1, c2, c3, c4, c5, c6,
                        pos as int,
                        m.sequence,
                        m.subject@,
                        m.reply@,
                        m.data@,
                        m.timestamp,
                        m.redelivered,
                    );
                }
            }
            let f = match read_field(buf, pos) {
                Some(f) => f,
                None => {
                    proof {
                        assert forall|c1: u64, c2: Seq<u8>, c3: Seq<u8>, c4: Seq<u8>, c5: i64, c6: bool| #[trigger] msg_proto_wire(c1, c2, c3, c4, c5, c6) == buf@ implies false by {
                            lemma_i64_bits(c5);
                        }
                    }
                    return None;
                },
            };
            let ghost old_pos = pos as int;
            let ghost o1 = m.sequence;
            let ghost o2 = m.subject@;
            let ghost o3 = m.reply@;
            let ghost o4 = m.data@;
            let ghost o5 = m.timestamp;
            let ghost o6 = m.redelivered;
            if f.tag == 1 || f.tag == 5 || f.tag == 6 {
                if f.wire != 0 {
                    proof {
                        assert forall|c1: u64, c2: Seq<u8>, c3: Seq<u8>, c4: Seq<u8>, c5: i64, c6: bool| #[trigger] msg_proto_wire(c1, c2, c3, c4, c5, c6) == buf@ implies false by {
                            lemma_i64_bits(c5);
                        }
                    }
                    return None;
                }
                if f.tag == 1 {
                    m.sequence = f.value;
                } else if f.tag == 5 {
                    m.timestamp = #[verifier::truncate] (f.value as i64);
                } else {
                    m.redelivered = f.value != 0;
                }
            } else if f.tag == 2 || f.tag == 3 || f.tag == 4 {
                if f.wire != 2 {
                    proof {
                        assert forall|c1: u64, c2: Seq<u8>, c3: Seq<u8>, c4: Seq<u8>, c5: i64, c6: bool| #[trigger] msg_proto_wire(c1, c2, c3, c4, c5, c6) == buf@ implies false by {
                            lemma_i64_bits(c5);
                        }
                    }
                    return None;
                }
                let v = field_bytes(buf, &f);
                if f.tag == 2 {
                    m.subject = v;
                } else if f.tag == 3 {
                    m.reply = v;
                } else {
                    m.data = v;
                }
            }
            pos = f.end;
            proof {
                assert forall|c1: u64, c2: Seq<u8>, c3: Seq<u8>, c4: Seq<u8>, c5: i64, c6: bool| #[trigger] msg_proto_wire(c1, c2, c3, c4, c5, c6) == buf@ implies msg_proto_stage(
                    buf@,
                    c1, c2, c3, c4, c5, c6,
                    pos as int,
                    m.sequence,
                    m.subject@,
                    m.reply@,
                    m.data@,
                    m.timestamp,
                    m.redelivered,
                ) by {
                    lemma_msg_proto_step(
                        buf@,
                        c1, c2, c3, c4, c5, c6,
                        old_pos,
                        o1,
                        o2,
                        o3,
                        o4,
                        o5,
                        o6,
                        f,
                        m.sequence,
                        m.subject@,
                        m.reply@,
                        m.data@,
                        m.timestamp,
                        m.redelivered,
                    );
                }
            }
        }
        proof {
            assert forall|c1: u64, c2: Seq<u8>, c3: Seq<u8>, c4: Seq<u8>, c5: i64, c6: bool| #[trigger] msg_proto_wire(c1, c2, c3, c4, c5, c6) == buf@ implies m.sequence == c1
                && m.subject@ == c2 && m.reply@ == c3 && m.data@ == c4 && m.timestamp == c5
                && m.redelivered == c6 by {
                lemma_i64_bits(c5);
                assert(msg_proto_stage(
                    buf@,
                    c1, c2, c3, c4, c5, c6,
                    pos as int,
                    m.sequence,
                    m.subject@,
                    m.reply@,
                    m.data@,
                    m.timestamp,
                    m.redelivered,
                ));
                if c2.len() == 0 {
                    assert(m.subject@ =~= c2);
                }
                if c3.len() == 0 {
                    assert(m.reply@ =~= c3);
                }
                if c4.len() == 0 {
                    assert(m.data@ =~= c4);
                }
            }
        }
        Some(m)
    }
}

} // verus!
