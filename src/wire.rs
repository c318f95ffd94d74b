//! The compact binary path format: an opcode byte followed by its operands as
//! little-endian 32-bit words (IEEE-754 single-precision bit patterns).
//!
//! | opcode | command | operands                   |
//! |--------|---------|----------------------------|
//! | 0x00   | MoveTo  | x y                        |
//! | 0x01   | LineTo  | x y                        |
//! | 0x02   | CubicTo | cp1x cp1y cp2x cp2y x y    |
//! | 0x03   | QuadTo  | cpx cpy x y                |
//! | 0x04   | Close   |                            |
//!
//! Decoding is best-effort: it stops at the first unknown opcode or at a
//! command whose operands run past the end, keeping every command before it.
use vstd::prelude::*;

verus! {

/// One decoded command; each operand is the raw bit pattern of a coordinate.
#[derive(PartialEq, Eq, Structural, Clone, Copy, Debug)]
pub enum PathOp {
    MoveTo(u32, u32),
    LineTo(u32, u32),
    CubicTo(u32, u32, u32, u32, u32, u32),
    QuadTo(u32, u32, u32, u32),
    Close,
}

/// The little-endian word in bytes `i .. i + 4`.
pub open spec fn le_word(d: Seq<u8>, i: int) -> u32 {
    (d[i] + d[i + 1] * 0x100 + d[i + 2] * 0x10000 + d[i + 3] * 0x1000000) as u32
}

/// The four little-endian bytes of a word.
pub open spec fn le_bytes(w: u32) -> Seq<u8> {
    seq![(w % 0x100) as u8, ((w / 0x100) % 0x100) as u8, ((w / 0x10000) % 0x100) as u8, (w / 0x1000000) as u8]
}

/// How many operand words an opcode takes; -1 for an unknown opcode.
pub open spec fn operand_count(op: u8) -> int {
    if op == 0 || op == 1 {
        2
    } else if op == 2 {
        6
    } else if op == 3 {
        4
    } else if op == 4 {
        0
    } else {
        -1
    }
}

/// The command whose opcode is at `i`, with operands read after it.
pub open spec fn op_at(d: Seq<u8>, i: int) -> PathOp {
    let w = |k: int| le_word(d, i + 1 + 4 * k);
    if d[i] == 0 {
        PathOp::MoveTo(w(0), w(1))
    } else if d[i] == 1 {
        PathOp::LineTo(w(0), w(1))
    } else if d[i] == 2 {
        PathOp::CubicTo(w(0), w(1), w(2), w(3), w(4), w(5))
    } else if d[i] == 3 {
        PathOp::QuadTo(w(0), w(1), w(2), w(3))
    } else {
        PathOp::Close
    }
}

/// The commands decoded from byte `i` on.
pub open spec fn decode_from(d: Seq<u8>, i: int) -> Seq<PathOp>
    decreases d.len() - i,
{
    if i < 0 || i >= d.len() {
        seq![]
    } else {
        let n = operand_count(d[i]);
        if n < 0 || i + 1 + 4 * n > d.len() {
            seq![]
        } else {
            seq![op_at(d, i)] + decode_from(d, i + 1 + 4 * n)
        }
    }
}

/// The commands that a buffer holds.
pub open spec fn decode(d: Seq<u8>) -> Seq<PathOp> {
    decode_from(d, 0)
}

/// The encoding of one command.
pub open spec fn encode_op(op: PathOp) -> Seq<u8> {
    match op {
        PathOp::MoveTo(x, y) => seq![0u8] + le_bytes(x) + le_bytes(y),
        PathOp::LineTo(x, y) => seq![1u8] + le_bytes(x) + le_bytes(y),
        PathOp::CubicTo(a, b, c, d, x, y) => seq![2u8] + le_bytes(a) + le_bytes(b) + le_bytes(c) + le_bytes(d)
            + le_bytes(x) + le_bytes(y),
        PathOp::QuadTo(a, b, x, y) => seq![3u8] + le_bytes(a) + le_bytes(b) + le_bytes(x) + le_bytes(y),
        PathOp::Close => seq![4u8],
    }
}

/// The encoding of a command sequence.
pub open spec fn encode(ops: Seq<PathOp>) -> Seq<u8>
    decreases ops.len(),
{
    if ops.len() == 0 {
        seq![]
    } else {
        encode_op(ops[0]) + encode(ops.drop_first())
    }
}

proof fn lemma_le_word(d: Seq<u8>, i: int, w: u32)
    requires
        0 <= i,
        i + 4 <= d.len(),
        d.subrange(i, i + 4) == le_bytes(w),
    ensures
        le_word(d, i) == w,
{
    assert(d[i] == le_bytes(w)[0] && d[i + 1] == le_bytes(w)[1] && d[i + 2] == le_bytes(w)[2] && d[i + 3]
        == le_bytes(w)[3]);
    let (b0, b1, b2, b3) = (w % 0x100, (w / 0x100) % 0x100, (w / 0x10000) % 0x100, w / 0x1000000);
    assert(b0 + b1 * 0x100 + b2 * 0x10000 + b3 * 0x1000000 == w) by (nonlinear_arith)
        requires
            b0 == w % 0x100,
            b1 == (w / 0x100) % 0x100,
            b2 == (w / 0x10000) % 0x100,
            b3 == w / 0x1000000,
            0 <= w < 0x1_0000_0000,
    {
    }
}

/// Decoding from `a.len() + j` in `a + b` reads `b` from `j`.
proof fn lemma_decode_shift(a: Seq<u8>, b: Seq<u8>, j: int)
    requires
        0 <= j,
    ensures
        decode_from(a + b, a.len() + j) == decode_from(b, j),
    decreases b.len() - j,
{
    let d = a + b;
    let i = a.len() + j;
    if j < b.len() {
        assert(d[i] == b[j]);
        let n = operand_count(b[j]);
        if n >= 0 && j + 1 + 4 * n <= b.len() {
            assert forall|k: int| 0 <= k < n implies #[trigger] le_word(d, i + 1 + 4 * k) == le_word(b, j + 1 + 4 * k) by {
                assert(d[i + 1 + 4 * k] == b[j + 1 + 4 * k]);
                assert(d[i + 2 + 4 * k] == b[j + 2 + 4 * k]);
                assert(d[i + 3 + 4 * k] == b[j + 3 + 4 * k]);
                assert(d[i + 4 + 4 * k] == b[j + 4 + 4 * k]);
            }
            lemma_decode_shift(a, b, j + 1 + 4 * n);
            assert(op_at(d, i) == op_at(b, j));
        }
    }
}

proof fn lemma_word_in(d: Seq<u8>, e: Seq<u8>, i: int, w: u32)
    requires
        e.len() <= d.len(),
        d.subrange(0, e.len() as int) == e,
        0 <= i,
        i + 4 <= e.len(),
        e.subrange(i, i + 4) == le_bytes(w),
    ensures
        le_word(d, i) == w,
{
    assert(d.subrange(i, i + 4) =~= e.subrange(i, i + 4)) by {
        assert forall|k: int| 0 <= k < 4 implies #[trigger] d[i + k] == e[i + k] by {
            assert(d.subrange(0, e.len() as int)[i + k] == d[i + k]);
        }
    }
    lemma_le_word(d, i, w);
}

/// The command at the start of an encoded command is that command.
#[verifier::rlimit(40)]
proof fn lemma_op_at_encoded(op: PathOp, rest: Seq<u8>)
    ensures
        op_at(encode_op(op) + rest, 0) == op,
        (encode_op(op) + rest)[0] == encode_op(op)[0],
        encode_op(op).len() == 1 + 4 * operand_count(encode_op(op)[0]),
{
    let e = encode_op(op);
    let d = e + rest;
    assert(d.subrange(0, e.len() as int) =~= e);
    match op {
        PathOp::MoveTo(x, y) | PathOp::LineTo(x, y) => {
            assert(e.subrange(1, 5) =~= le_bytes(x));
            assert(e.subrange(5, 9) =~= le_bytes(y));
            lemma_word_in(d, e, 1, x);
            lemma_word_in(d, e, 5, y);
        },
        PathOp::CubicTo(a, b, c, dd, x, y) => {
            assert(e.subrange(1, 5) =~= le_bytes(a));
            assert(e.subrange(5, 9) =~= le_bytes(b));
            assert(e.subrange(9, 13) =~= le_bytes(c));
            assert(e.subrange(13, 17) =~= le_bytes(dd));
            assert(e.subrange(17, 21) =~= le_bytes(x));
            assert(e.subrange(21, 25) =~= le_bytes(y));
            lemma_word_in(d, e, 1, a);
            lemma_word_in(d, e, 5, b);
            lemma_word_in(d, e, 9, c);
            lemma_word_in(d, e, 13, dd);
            lemma_word_in(d, e, 17, x);
            lemma_word_in(d, e, 21, y);
        },
        PathOp::QuadTo(a, b, x, y) => {
            assert(e.subrange(1, 5) =~= le_bytes(a));
            assert(e.subrange(5, 9) =~= le_bytes(b));
            assert(e.subrange(9, 13) =~= le_bytes(x));
            assert(e.subrange(13, 17) =~= le_bytes(y));
            lemma_word_in(d, e, 1, a);
            lemma_word_in(d, e, 5, b);
            lemma_word_in(d, e, 9, x);
            lemma_word_in(d, e, 13, y);
        },
        PathOp::Close => {},
    }
}

/// One encoded command followed by anything decodes to that command followed by
/// what the rest decodes to.
proof fn lemma_decode_op(op: PathOp, rest: Seq<u8>)
    ensures
        decode(encode_op(op) + rest) == seq![op] + decode(rest),
{
    let e = encode_op(op);
    lemma_op_at_encoded(op, rest);
    lemma_decode_shift(e, rest, 0);
    assert(decode_from(e + rest, 0) == seq![op_at(e + rest, 0)] + decode_from(e + rest, e.len() as int));
}

/// Decoding the encoding of some commands followed by any bytes gives those
/// commands followed by what the bytes decode to.
pub proof fn lemma_decode_encode(ops: Seq<PathOp>, tail: Seq<u8>)
    ensures
        decode(encode(ops) + tail) == ops + decode(tail),
    decreases ops.len(),
{
    if ops.len() == 0 {
        assert(encode(ops) + tail =~= tail);
        assert(ops + decode(tail) =~= decode(tail));
    } else {
        let rest = encode(ops.drop_first()) + tail;
        assert(encode(ops) + tail =~= encode_op(ops[0]) + rest);
        lemma_decode_op(ops[0], rest);
        lemma_decode_encode(ops.drop_first(), tail);
        assert(seq![ops[0]] + (ops.drop_first() + decode(tail)) =~= ops + decode(tail));
    }
}

/// A buffer that ends inside a command (an opcode whose operands are cut short)
/// or at an unknown opcode decodes to exactly the complete commands before it.
pub proof fn lemma_truncated_keeps_prefix(ops: Seq<PathOp>, opcode: u8, partial: Seq<u8>)
    requires
        operand_count(opcode) < 0 || partial.len() < 4 * operand_count(opcode),
    ensures
        decode(encode(ops) + seq![opcode] + partial) == ops,
{
    let tail = seq![opcode] + partial;
    assert(encode(ops) + seq![opcode] + partial =~= encode(ops) + tail);
    lemma_decode_encode(ops, tail);
    assert(tail[0] == opcode);
    assert(decode(tail) == Seq::<PathOp>::empty());
    assert(ops + Seq::<PathOp>::empty() =~= ops);
}

/// Reads the little-endian word at `i`.
fn read_le_word(d: &[u8], i: usize) -> (r: u32)
    requires
        i + 4 <= d@.len(),
    ensures
        r == le_word(d@, i as int),
{
    let r = d[i] as u32 + (d[i + 1] as u32) * 0x100 + (d[i + 2] as u32) * 0x10000 + (d[i + 3] as u32) * 0x1000000;
    r
}

/// Decodes a binary path buffer into its commands, keeping every complete
/// command before the first unknown opcode or truncated operand list.
pub fn decode_path(data: &[u8]) -> (r: Vec<PathOp>)
    ensures
        r@ == decode(data@),
{
    let mut out: Vec<PathOp> = Vec::new();
    let mut i: usize = 0;
    let len = data.len();
    loop
        invariant
            i <= len,
            len == data@.len(),
            out@ + decode_from(data@, i as int) == decode(data@),
        ensures
            out@ == decode(data@),
        decreases len - i,
    {
        if i >= len {
            assert(out@ + Seq::<PathOp>::empty() =~= out@);
            break;
        }
        let op = data[i];
        let n: usize = if op == 0 || op == 1 {
            2
        } else if op == 2 {
            6
        } else if op == 3 {
            4
        } else if op == 4 {
            0
        } else {
            assert(decode_from(data@, i as int) == Seq::<PathOp>::empty());
            assert(out@ + Seq::<PathOp>::empty() =~= out@);
            break;
        };
        if n * 4 + 1 > len - i {
            assert(decode_from(data@, i as int) == Seq::<PathOp>::empty());
            assert(out@ + Seq::<PathOp>::empty() =~= out@);
            break;
        }
        let j = i + 1;
        let cmd = if op == 0 {
            PathOp::MoveTo(read_le_word(data, j), read_le_word(data, j + 4))
        } else if op == 1 {
            PathOp::LineTo(read_le_word(data, j), read_le_word(data, j + 4))
        } else if op == 2 {
            PathOp::CubicTo(
                read_le_word(data, j),
                read_le_word(data, j + 4),
                read_le_word(data, j + 8),
                read_le_word(data, j + 12),
                read_le_word(data, j + 16),
                read_le_word(data, j + 20),
            )
        } else if op == 3 {
            PathOp::QuadTo(
                read_le_word(data, j),
                read_le_word(data, j + 4),
                read_le_word(data, j + 8),
                read_le_word(data, j + 12),
            )
        } else {
            PathOp::Close
        };
        assert(cmd == op_at(data@, i as int));
        let ghost before = out@;
        out.push(cmd);
        i = i + 1 + 4 * n;
        assert(out@ + decode_from(data@, i as int) =~= before + decode_from(data@, (i - 1 - 4 * n) as int));
    }
    out
}

} // verus!
