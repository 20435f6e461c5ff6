//! The virtual machine's instructions and their byte encoding.
use crate::diagnostic::Span;
use vstd::prelude::*;

verus! {

/// An instruction. A constant holds the bits of its 32-bit float (as
/// `f32::to_bits` gives them), so that it is carried, stored and compared
/// exactly.
#[derive(Clone, Copy, Debug, PartialEq, Eq, Structural)]
pub enum Op {
    Print,
    Return,
    Constant(u32),
    Add,
    Mul,
    Minus,
    Divide,
}

/// The opcode byte of each instruction.
pub open spec fn spec_opcode(op: Op) -> u8 {
    match op {
        Op::Print => 0,
        Op::Return => 1,
        Op::Constant(_) => 2,
        Op::Add => 3,
        Op::Mul => 4,
        Op::Minus => 5,
        Op::Divide => 6,
    }
}

/// The number of bytes that follow the opcode.
pub open spec fn spec_size(op: Op) -> nat {
    match op {
        Op::Constant(_) => 4,
        _ => 0,
    }
}

/// The little-endian bytes of `v`.
pub open spec fn spec_le_bytes(v: u32) -> Seq<u8> {
    seq![
        (v & 0xff) as u8,
        ((v >> 8u32) & 0xff) as u8,
        ((v >> 16u32) & 0xff) as u8,
        ((v >> 24u32) & 0xff) as u8,
    ]
}

/// The value of four little-endian bytes.
pub open spec fn spec_from_le(b0: u8, b1: u8, b2: u8, b3: u8) -> u32 {
    (b0 as u32) | ((b1 as u32) << 8u32) | ((b2 as u32) << 16u32) | ((b3 as u32) << 24u32)
}

/// The encoding of an instruction: its opcode, then a constant's little-endian bytes.
pub open spec fn spec_encode(op: Op) -> Seq<u8> {
    match op {
        Op::Constant(v) => seq![2u8] + spec_le_bytes(v),
        _ => seq![spec_opcode(op)],
    }
}

/// `bytes` starts with a whole instruction.
pub open spec fn spec_decodable(bytes: Seq<u8>) -> bool {
    &&& bytes.len() >= 1
    &&& bytes[0] < 7
    &&& bytes[0] == 2 ==> bytes.len() >= 5
}

/// The instruction at the start of `bytes`.
pub open spec fn spec_decode(bytes: Seq<u8>) -> Op {
    if bytes[0] == 0 {
        Op::Print
    } else if bytes[0] == 1 {
        Op::Return
    } else if bytes[0] == 2 {
        Op::Constant(spec_from_le(bytes[1], bytes[2], bytes[3], bytes[4]))
    } else if bytes[0] == 3 {
        Op::Add
    } else if bytes[0] == 4 {
        Op::Mul
    } else if bytes[0] == 5 {
        Op::Minus
    } else {
        Op::Divide
    }
}

/// The bytes from `idx` on are a sequence of whole instructions.
pub open spec fn spec_valid_from(bytes: Seq<u8>, idx: int) -> bool
    decreases bytes.len() - idx,
{
    if idx >= bytes.len() || idx < 0 {
        true
    } else {
        let rest = bytes.subrange(idx, bytes.len() as int);
        let next = idx + 1 + spec_size(spec_decode(rest));
        spec_decodable(rest) && next <= bytes.len() && spec_valid_from(bytes, next)
    }
}

/// The instructions encoded from `idx` on.
pub open spec fn spec_decode_from(bytes: Seq<u8>, idx: int) -> Seq<Op>
    decreases bytes.len() - idx,
{
    if idx >= bytes.len() || idx < 0 {
        Seq::empty()
    } else {
        let op = spec_decode(bytes.subrange(idx, bytes.len() as int));
        let next = idx + 1 + spec_size(op);
        if next <= bytes.len() {
            seq![op] + spec_decode_from(bytes, next)
        } else {
            seq![op]
        }
    }
}

/// The encoding of a sequence of instructions, one after the other.
pub open spec fn spec_encode_all(ops: Seq<Op>) -> Seq<u8>
    decreases ops.len(),
{
    if ops.len() == 0 {
        Seq::empty()
    } else {
        spec_encode(ops[0]) + spec_encode_all(ops.drop_first())
    }
}

/// Appending an instruction appends its encoding.
pub proof fn lemma_encode_all_push(ops: Seq<Op>, op: Op)
    ensures
        spec_encode_all(ops.push(op)) == spec_encode_all(ops) + spec_encode(op),
    decreases ops.len(),
{
    if ops.len() == 0 {
        assert(ops.push(op).drop_first() =~= Seq::<Op>::empty());
        assert(spec_encode_all(ops.push(op)) == spec_encode(op) + spec_encode_all(Seq::<Op>::empty()));
        assert(spec_encode(op) + Seq::<u8>::empty() =~= spec_encode(op));
    } else {
        lemma_encode_all_push(ops.drop_first(), op);
        assert(ops.push(op).drop_first() =~= ops.drop_first().push(op));
        assert(spec_encode(ops[0]) + (spec_encode_all(ops.drop_first()) + spec_encode(op)) =~= (
        spec_encode(ops[0]) + spec_encode_all(ops.drop_first())) + spec_encode(op));
    }
}

/// An encoded instruction decodes to itself, whatever follows it.
pub proof fn lemma_decode_encode(op: Op, rest: Seq<u8>)
    ensures
        spec_decodable(spec_encode(op) + rest),
        spec_decode(spec_encode(op) + rest) == op,
        spec_encode(op).len() == 1 + spec_size(op),
{
    let b = spec_encode(op) + rest;
    match op {
        Op::Constant(v) => {
            assert(b[0] == 2);
            assert(spec_from_le(
                (v & 0xff) as u8,
                ((v >> 8u32) & 0xff) as u8,
                ((v >> 16u32) & 0xff) as u8,
                ((v >> 24u32) & 0xff) as u8,
            ) == v) by (bit_vector);
            assert(b[1] == (v & 0xff) as u8);
            assert(b[2] == ((v >> 8u32) & 0xff) as u8);
            assert(b[3] == ((v >> 16u32) & 0xff) as u8);
            assert(b[4] == ((v >> 24u32) & 0xff) as u8);
        },
        _ => {
            assert(b[0] == spec_opcode(op));
        },
    }
}

/// Decoding from a position past a prefix reads only what follows the prefix.
proof fn lemma_decode_from_shift(p: Seq<u8>, b: Seq<u8>, idx: int)
    requires
        0 <= idx,
    ensures
        spec_decode_from(p + b, p.len() + idx) == spec_decode_from(b, idx),
        spec_valid_from(p + b, p.len() + idx) == spec_valid_from(b, idx),
    decreases b.len() - idx,
{
    let pb = p + b;
    let i = p.len() + idx;
    if idx < b.len() {
        assert(pb.subrange(i, pb.len() as int) =~= b.subrange(idx, b.len() as int));
        let op = spec_decode(b.subrange(idx, b.len() as int));
        let next = idx + 1 + spec_size(op);
        if next <= b.len() {
            lemma_decode_from_shift(p, b, next);
        }
    }
}

/// What is encoded is read back: a sequence of instructions, encoded one
/// after the other, is a valid program that decodes to the same sequence.
pub proof fn lemma_decode_encode_all(ops: Seq<Op>)
    ensures
        spec_valid_from(spec_encode_all(ops), 0),
        spec_decode_from(spec_encode_all(ops), 0) == ops,
    decreases ops.len(),
{
    if ops.len() > 0 {
        let head = spec_encode(ops[0]);
        let tail = spec_encode_all(ops.drop_first());
        lemma_decode_encode_all(ops.drop_first());
        lemma_decode_encode(ops[0], tail);
        lemma_decode_from_shift(head, tail, 0);
        let all = head + tail;
        assert(all.subrange(0, all.len() as int) =~= all);
        assert(seq![ops[0]] + ops.drop_first() =~= ops);
    }
}

impl Op {
    /// The number of bytes that follow the opcode: 4 for a constant, else 0.
    pub fn size(&self) -> (n: usize)
        ensures
            n == spec_size(*self),
    {
        match self {
            Op::Constant(_) => 4,
            _ => 0,
        }
    }

    /// Decodes the instruction at the start of `bytes`.
    pub fn from_bytes(bytes: &[u8]) -> (op: Op)
        requires
            spec_decodable(bytes@),
        ensures
            op == spec_decode(bytes@),
    {
        match bytes[0] {
            0 => Op::Print,
            1 => Op::Return,
            2 => Op::Constant(
                (bytes[1] as u32) | ((bytes[2] as u32) << 8u32) | ((bytes[3] as u32) << 16u32) | ((
                bytes[4] as u32) << 24u32),
            ),
            3 => Op::Add,
            4 => Op::Mul,
            5 => Op::Minus,
            _ => Op::Divide,
        }
    }

    /// Appends the instruction's encoding to `buf`.
    pub fn to_bytes(self, buf: &mut Vec<u8>)
        ensures
            final(buf)@ == old(buf)@ + spec_encode(self),
    {
        match self {
            Op::Print => buf.push(0),
            Op::Return => buf.push(1),
            Op::Constant(v) => {
                buf.push(2);
                buf.push((v & 0xff) as u8);
                buf.push(((v >> 8u32) & 0xff) as u8);
                buf.push(((v >> 16u32) & 0xff) as u8);
                buf.push(((v >> 24u32) & 0xff) as u8);
            },
            Op::Add => buf.push(3),
            Op::Mul => buf.push(4),
            Op::Minus => buf.push(5),
            Op::Divide => buf.push(6),
        }
        proof {
            assert(buf@ =~= old(buf)@ + spec_encode(self));
        }
    }
}

/// A program: the encoded instructions, their spans, and a read position.
pub struct Ops {
    pub op_list: Vec<u8>,
    pub span_list: Vec<Span>,
    pub op_idx: usize,
}

impl Ops {
    pub fn new() -> (r: Self)
        ensures
            r.op_list@ == Seq::<u8>::empty(),
            r.span_list@ == Seq::<Span>::empty(),
            r.op_idx == 0,
    {
        Ops { op_list: Vec::new(), span_list: Vec::new(), op_idx: 0 }
    }

    /// Appends an instruction.
    pub fn push(&mut self, op: Op)
        ensures
            final(self).op_list@ == old(self).op_list@ + spec_encode(op),
            final(self).span_list == old(self).span_list,
            final(self).op_idx == old(self).op_idx,
    {
        op.to_bytes(&mut self.op_list);
    }

    /// Reads the next instruction and moves past it; `None` at the end.
    pub fn next_op(&mut self) -> (r: Option<Op>)
        requires
            spec_valid_from(old(self).op_list@, old(self).op_idx as int),
        ensures
            final(self).op_list == old(self).op_list,
            final(self).span_list == old(self).span_list,
            spec_valid_from(final(self).op_list@, final(self).op_idx as int),
            old(self).op_idx >= old(self).op_list@.len() ==> r is None && final(self).op_idx
                == old(self).op_idx,
            old(self).op_idx < old(self).op_list@.len() ==> old(self).op_idx < final(self).op_idx
                <= final(self).op_list@.len(),
            old(self).op_idx < old(self).op_list@.len() ==> r == Some(
                spec_decode_from(old(self).op_list@, old(self).op_idx as int)[0],
            ) && spec_decode_from(final(self).op_list@, final(self).op_idx as int)
                == spec_decode_from(old(self).op_list@, old(self).op_idx as int).drop_first(),
    {
        if self.op_idx >= self.op_list.len() {
            return None;
        }
        let op = Op::from_bytes(slice_from(&self.op_list, self.op_idx));
        self.op_idx = self.op_idx + 1 + op.size();
        proof {
            let s = spec_decode_from(old(self).op_list@, old(self).op_idx as int);
            assert(s == seq![op] + spec_decode_from(self.op_list@, self.op_idx as int));
            assert((seq![op] + spec_decode_from(self.op_list@, self.op_idx as int)).drop_first()
                =~= spec_decode_from(self.op_list@, self.op_idx as int));
        }
        Some(op)
    }

    /// Reads all the instructions left, as an iterator over the program would.
    pub fn collect_ops(self) -> (r: Vec<Op>)
        requires
            spec_valid_from(self.op_list@, self.op_idx as int),
        ensures
            r@ == spec_decode_from(self.op_list@, self.op_idx as int),
    {
        let ghost all = spec_decode_from(self.op_list@, self.op_idx as int);
        let mut ops = self;
        let mut r: Vec<Op> = Vec::new();
        loop
            invariant
                spec_valid_from(ops.op_list@, ops.op_idx as int),
                r@ + spec_decode_from(ops.op_list@, ops.op_idx as int) == all,
                all == spec_decode_from(self.op_list@, self.op_idx as int),
            decreases ops.op_list@.len() - ops.op_idx,
        {
            let ghost before = spec_decode_from(ops.op_list@, ops.op_idx as int);
            match ops.next_op() {
                Some(op) => {
                    r.push(op);
                    proof {
                        assert(before == seq![op] + before.drop_first());
                    }
                },
                None => {
                    proof {
                        assert(before == Seq::<Op>::empty());
                        assert(r@ + before =~= r@);
                    }
                    return r;
                },
            }
        }
    }

    /// An iterator over the instructions that leaves the program as it is.
    pub fn iter(&self) -> (it: OpsIter<'_>)
        ensures
            it.ops == self,
            it.idx == 0,
    {
        OpsIter { ops: self, idx: 0 }
    }
}

/// The bytes from `from` on.
fn slice_from(v: &Vec<u8>, from: usize) -> (s: &[u8])
    requires
        from <= v@.len(),
    ensures
        s@ == v@.subrange(from as int, v@.len() as int),
{
    let all = v.as_slice();
    vstd::slice::slice_subrange(all, from, all.len())
}

/// Reads the instructions of a program it borrows, from the start.
pub struct OpsIter<'a> {
    pub ops: &'a Ops,
    pub idx: usize,
}

impl<'a> OpsIter<'a> {
    /// Reads the next instruction and moves past it; `None` at the end.
    pub fn next_op(&mut self) -> (r: Option<Op>)
        requires
            spec_valid_from(old(self).ops.op_list@, old(self).idx as int),
        ensures
            final(self).ops == old(self).ops,
            spec_valid_from(final(self).ops.op_list@, final(self).idx as int),
            old(self).idx >= old(self).ops.op_list@.len() ==> r is None && final(self).idx == old(
                self,
            ).idx,
            old(self).idx < old(self).ops.op_list@.len() ==> old(self).idx < final(self).idx
                <= final(self).ops.op_list@.len(),
            old(self).idx < old(self).ops.op_list@.len() ==> r == Some(
                spec_decode_from(old(self).ops.op_list@, old(self).idx as int)[0],
            ) && spec_decode_from(final(self).ops.op_list@, final(self).idx as int)
                == spec_decode_from(old(self).ops.op_list@, old(self).idx as int).drop_first(),
    {
        if self.idx >= self.ops.op_list.len() {
            return None;
        }
        let op = Op::from_bytes(slice_from(&self.ops.op_list, self.idx));
        self.idx = self.idx + 1 + op.size();
        proof {
            let s = spec_decode_from(old(self).ops.op_list@, old(self).idx as int);
            assert(s == seq![op] + spec_decode_from(self.ops.op_list@, self.idx as int));
            assert((seq![op] + spec_decode_from(self.ops.op_list@, self.idx as int)).drop_first()
                =~= spec_decode_from(self.ops.op_list@, self.idx as int));
        }
        Some(op)
    }

    /// Reads all the instructions left.
    pub fn collect_ops(self) -> (r: Vec<Op>)
        requires
            spec_valid_from(self.ops.op_list@, self.idx as int),
        ensures
            r@ == spec_decode_from(self.ops.op_list@, self.idx as int),
    {
        let ghost all = spec_decode_from(self.ops.op_list@, self.idx as int);
        let ghost ops = self.ops;
        let mut it = self;
        let mut r: Vec<Op> = Vec::new();
        loop
            invariant
                it.ops == ops,
                spec_valid_from(it.ops.op_list@, it.idx as int),
                r@ + spec_decode_from(it.ops.op_list@, it.idx as int) == all,
                all == spec_decode_from(self.ops.op_list@, self.idx as int),
            decreases it.ops.op_list@.len() - it.idx,
        {
            let ghost before = spec_decode_from(it.ops.op_list@, it.idx as int);
            match it.next_op() {
                Some(op) => {
                    r.push(op);
                    proof {
                        assert(before == seq![op] + before.drop_first());
                    }
                },
                None => {
                    proof {
                        assert(before == Seq::<Op>::empty());
                        assert(r@ + before =~= r@);
                    }
                    return r;
                },
            }
        }
    }
}

} // verus!
