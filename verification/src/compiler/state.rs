use vstd::prelude::*;
use crate::chunk::Chunk;
use crate::chunk::Op;
use crate::compiler::model::ConstView;
use crate::mem::gc_ref::GcRef;
use crate::value::Value;

verus! {

/// What is being compiled: a function, the initializer or another method
/// of a class, or the script itself.
#[derive(Clone, Copy, Debug, PartialEq, Eq, Structural)]
pub enum FunctionKind {
    Function,
    Initializer,
    Method,
    Script,
}

/// A local variable: its name, the depth of the scope it was declared in,
/// which is unset until its initializer has been compiled, and whether a
/// closure captures it.
pub struct Local {
    pub name: Vec<u8>,
    pub depth: Option<usize>,
    pub is_captured: bool,
}

/// A variable a function captures: a local of the function around it, or
/// an upvalue of that function, by index.
#[derive(Clone, Copy, Debug)]
pub struct Upvalue {
    pub index: u8,
    pub is_local: bool,
}

/// The most locals, upvalues and constants a function can have.
pub const LIMIT: usize = 256;

/// The bytes from `start` up to `end` are one instruction: an opcode with
/// as many operand bytes as it takes, a `Closure` with its pairs; and if
/// the first operand names a constant, the pool of `pool` constants has
/// it.
pub open spec fn instruction_ok(code: Seq<u8>, pool: int, start: int, end: int) -> bool {
    &&& 0 <= start < end <= code.len()
    &&& match Op::decode(code[start]) {
        Some(op) => (if op == Op::Closure {
            end - start >= 2 && (end - start) % 2 == 0
        } else {
            end - start == 1 + op.operand_bytes()
        }) && (op.reads_constant() ==> code[start + 1] < pool),
        None => false,
    }
}

/// Where the instruction at mark `i` ends: at the next mark, or at the end
/// of the code.
pub open spec fn mark_end(code: Seq<u8>, marks: Seq<int>, i: int) -> int {
    if i + 1 < marks.len() {
        marks[i + 1]
    } else {
        code.len() as int
    }
}

/// The code is a run of instructions that start at the marks, the first
/// at offset zero, each ending where the next starts.
#[verifier::opaque]
pub open spec fn code_ok(code: Seq<u8>, pool: int, marks: Seq<int>) -> bool {
    &&& marks.len() == 0 ==> code.len() == 0
    &&& marks.len() > 0 ==> marks[0] == 0
    &&& forall|i: int|
        0 <= i < marks.len() ==> instruction_ok(code, pool, #[trigger] marks[i], mark_end(code, marks, i))
}

/// The marks are in ascending order.
pub proof fn lemma_marks_ascend(code: Seq<u8>, pool: int, marks: Seq<int>, i: int, k: int)
    requires
        code_ok(code, pool, marks),
        0 <= i < k < marks.len(),
    ensures
        marks[i] < marks[k],
        mark_end(code, marks, i) <= marks[k],
    decreases k - i,
{
    reveal(code_ok);
    assert(instruction_ok(code, pool, marks[i], mark_end(code, marks, i)));
    if i + 1 < k {
        lemma_marks_ascend(code, pool, marks, i + 1, k);
        assert(instruction_ok(code, pool, marks[i + 1], mark_end(code, marks, i + 1)));
    }
}

/// The bytes that follow a `Closure` instruction: for each upvalue, one
/// if it is a local of the function around, else zero, and its index.
pub open spec fn pair_bytes(upvalues: Seq<Upvalue>) -> Seq<u8>
    decreases upvalues.len(),
{
    if upvalues.len() == 0 {
        Seq::empty()
    } else {
        pair_bytes(upvalues.drop_last()).push(
            if upvalues.last().is_local {
                1u8
            } else {
                0u8
            },
        ).push(upvalues.last().index)
    }
}

pub proof fn lemma_pair_bytes_len(upvalues: Seq<Upvalue>)
    ensures
        pair_bytes(upvalues).len() == 2 * upvalues.len(),
    decreases upvalues.len(),
{
    if upvalues.len() > 0 {
        lemma_pair_bytes_len(upvalues.drop_last());
    }
}

/// The pair of bytes for the `j`th upvalue says whether it is a local, and
/// gives its index.
pub proof fn lemma_pair_bytes_match(upvalues: Seq<Upvalue>, j: int)
    requires
        0 <= j < upvalues.len(),
    ensures
        pair_bytes(upvalues).len() == 2 * upvalues.len(),
        (pair_bytes(upvalues)[2 * j] != 0) == upvalues[j].is_local,
        pair_bytes(upvalues)[2 * j + 1] == upvalues[j].index,
    decreases upvalues.len(),
{
    lemma_pair_bytes_len(upvalues);
    lemma_pair_bytes_len(upvalues.drop_last());
    if j < upvalues.len() - 1 {
        lemma_pair_bytes_match(upvalues.drop_last(), j);
    }
}

/// In code that is in order, the constant that an instruction names is in
/// the pool.
pub proof fn lemma_constants_in_range(code: Seq<u8>, pool: int, marks: Seq<int>, i: int)
    requires
        code_ok(code, pool, marks),
        0 <= i < marks.len(),
    ensures
        0 <= marks[i] < code.len(),
        Op::decode(code[marks[i]]).is_some(),
        Op::decode(code[marks[i]]).unwrap().reads_constant() ==> marks[i] + 1 < code.len()
            && code[marks[i] + 1] < pool,
{
    reveal(code_ok);
    assert(instruction_ok(code, pool, marks[i], mark_end(code, marks, i)));
}

/// Whether `byte` is the opcode of a jump, forwards or back.
pub open spec fn is_jump(byte: u8) -> bool {
    byte == Op::Jump.byte() || byte == Op::JumpIfFalse.byte() || byte == Op::Loop.byte()
}

/// Where the jump that starts at `start` leads: as far beyond its own end
/// as its operand says, or for a `Loop` as far back from there.
pub open spec fn jump_target(code: Seq<u8>, start: int) -> int {
    let distance = code[start + 1] as int * 256 + code[start + 2] as int;
    if code[start] == Op::Loop.byte() {
        start + 3 - distance
    } else {
        start + 3 + distance
    }
}

/// An instruction starts at `at`, or the code ends there.
pub open spec fn starts_at(code: Seq<u8>, marks: Seq<int>, at: int) -> bool {
    marks.contains(at) || at == code.len()
}

/// Every jump leads to where an instruction starts or the code ends,
/// but for those whose operand stands at a place in `pending`.
#[verifier::opaque]
pub open spec fn jumps_ok(code: Seq<u8>, marks: Seq<int>, pending: Set<int>) -> bool {
    forall|i: int|
        0 <= i < marks.len() && is_jump(code[#[trigger] marks[i]]) && !pending.contains(
            marks[i] + 1,
        ) ==> starts_at(code, marks, jump_target(code, marks[i]))
}

/// Every jump leads to the start of an instruction.
pub open spec fn jumps_land(code: Seq<u8>, marks: Seq<int>) -> bool {
    forall|i: int|
        0 <= i < marks.len() && is_jump(code[#[trigger] marks[i]]) ==> marks.contains(
            jump_target(code, marks[i]),
        )
}

/// A function under construction.
pub struct FunctionState {
    /// The function object, allocated when construction began.
    pub function: GcRef,
    pub fn_kind: FunctionKind,
    pub name: Option<GcRef>,
    pub arity: usize,
    pub chunk: Chunk,
    pub locals: Vec<Local>,
    pub upvalues: Vec<Upvalue>,
    pub scope_depth: usize,
    /// Where in the code the instructions start.
    pub marks: Ghost<Seq<int>>,
    /// Where the operands of the jumps stand that wait to be patched.
    pub pending: Ghost<Set<int>>,
    /// What the constants are.
    pub consts: Ghost<Seq<ConstView>>,
    /// The text of the name.
    pub name_text: Ghost<Option<Seq<u8>>>,
}

impl FunctionState {
    /// The state is in order: the code is a run of whole instructions
    /// whose constants exist, every jump that does not wait to be patched
    /// leads to an instruction or to the end, and nothing is over its
    /// limit.
    pub open spec fn ok(&self) -> bool {
        &&& self.chunk.wf()
        &&& 1 <= self.locals@.len() <= LIMIT
        &&& self.upvalues@.len() <= LIMIT
        &&& self.chunk.constants@.len() <= LIMIT
        &&& self.arity <= 255
        &&& code_ok(self.chunk.bytecode@, self.chunk.constants@.len() as int, self.marks@)
        &&& jumps_ok(self.chunk.bytecode@, self.marks@, self.pending@)
        &&& forall|site: int| #[trigger]
            self.pending@.contains(site) ==> 0 < site && site + 1 < self.chunk.bytecode@.len()
    }

    /// The state `self` continues the state `before`: what was emitted is
    /// still there, instruction for instruction, though operands may have
    /// been patched; and where an instruction started or the code ended,
    /// an instruction starts or the code ends.
    pub open spec fn extends(&self, before: &Self) -> bool {
        &&& self.function == before.function
        &&& self.fn_kind == before.fn_kind
        &&& self.name == before.name
        &&& self.name_text == before.name_text
        &&& before.marks@.len() <= self.marks@.len()
        &&& before.chunk.bytecode@.len() <= self.chunk.bytecode@.len()
        &&& before.chunk.constants@.len() <= self.chunk.constants@.len()
        &&& forall|i: int|
            0 <= i < before.marks@.len() ==> self.marks@[i] == (#[trigger] before.marks@[i])
                && self.chunk.bytecode@[before.marks@[i]] == before.chunk.bytecode@[before.marks@[i]]
        &&& forall|at: int| #[trigger]
            starts_at(before.chunk.bytecode@, before.marks@, at) ==> starts_at(
                self.chunk.bytecode@,
                self.marks@,
                at,
            )
    }

    /// The state `self` is the state `before` with the instruction
    /// `bytes` emitted.
    pub open spec fn appended(&self, before: &Self, bytes: Seq<u8>) -> bool {
        &&& self.chunk.bytecode@ == before.chunk.bytecode@ + bytes
        &&& self.chunk.lines@.len() == before.chunk.lines@.len() + bytes.len()
        &&& self.chunk.constants == before.chunk.constants
        &&& self.marks@ == before.marks@.push(before.chunk.bytecode@.len() as int)
        &&& self.consts == before.consts
        &&& self.name_text == before.name_text
        &&& self.function == before.function
        &&& self.fn_kind == before.fn_kind
        &&& self.name == before.name
        &&& self.arity == before.arity
        &&& self.locals == before.locals
        &&& self.upvalues == before.upvalues
        &&& self.scope_depth == before.scope_depth
    }

    /// The bytes emitted since `before` come from the line `line`.
    pub open spec fn lined(&self, before: &Self, line: u32) -> bool {
        self.chunk.lines@ == before.chunk.lines@ + Seq::new(
            (self.chunk.bytecode@.len() - before.chunk.bytecode@.len()) as nat,
            |i: int| line,
        )
    }

    /// Emitting a whole instruction keeps the code in order, if it is no
    /// jump, or a jump that waits to be patched, or one that leads to
    /// where an instruction started or the code ended.
    pub proof fn lemma_appended_ok(&self, before: &Self, bytes: Seq<u8>)
        requires
            before.ok(),
            self.appended(before, bytes),
            self.chunk.wf(),
            instruction_ok(
                self.chunk.bytecode@,
                self.chunk.constants@.len() as int,
                before.chunk.bytecode@.len() as int,
                self.chunk.bytecode@.len() as int,
            ),
            self.pending@ == before.pending@ || (bytes.len() == 3 && self.pending@
                == before.pending@.insert(before.chunk.bytecode@.len() as int + 1)),
            is_jump(bytes[0]) && self.pending@ == before.pending@ ==> starts_at(
                before.chunk.bytecode@,
                before.marks@,
                jump_target(self.chunk.bytecode@, before.chunk.bytecode@.len() as int),
            ),
        ensures
            self.ok(),
            self.extends(before),
    {
        let code = self.chunk.bytecode@;
        let old_code = before.chunk.bytecode@;
        let pool = self.chunk.constants@.len() as int;
        let marks = self.marks@;
        let old_marks = before.marks@;
        reveal(code_ok);
        assert forall|i: int| 0 <= i < marks.len() implies instruction_ok(
            code,
            pool,
            #[trigger] marks[i],
            mark_end(code, marks, i),
        ) by {
            if i < old_marks.len() {
                assert(marks[i] == old_marks[i]);
                assert(instruction_ok(old_code, pool, old_marks[i], mark_end(old_code, old_marks, i)));
                assert(mark_end(code, marks, i) == mark_end(old_code, old_marks, i));
                assert(code[old_marks[i]] == old_code[old_marks[i]]);
                if old_marks[i] + 1 < old_code.len() {
                    assert(code[old_marks[i] + 1] == old_code[old_marks[i] + 1]);
                }
            }
        }
        if old_marks.len() > 0 {
            assert(marks[0] == old_marks[0]);
        }
        assert forall|i: int| 0 <= i < old_marks.len() implies marks[i] == (
        #[trigger] old_marks[i]) && code[old_marks[i]] == old_code[old_marks[i]] by {
            assert(instruction_ok(old_code, pool, old_marks[i], mark_end(old_code, old_marks, i)));
        }
        assert forall|at: int| #[trigger] starts_at(old_code, old_marks, at) implies starts_at(
            code,
            marks,
            at,
        ) by {
            if old_marks.contains(at) {
                let k = choose|k: int| 0 <= k < old_marks.len() && old_marks[k] == at;
                assert(marks[k] == at);
            } else {
                assert(marks[old_marks.len() as int] == at);
            }
        }
        reveal(jumps_ok);
        assert forall|i: int|
            0 <= i < marks.len() && is_jump(code[#[trigger] marks[i]]) && !self.pending@.contains(
                marks[i] + 1,
            ) implies starts_at(code, marks, jump_target(code, marks[i])) by {
            self.lemma_appended_jump(before, bytes, i);
        }
    }

    /// After an instruction is emitted, a jump that led to where an
    /// instruction started or the code ended leads to where an instruction
    /// starts.
    pub proof fn lemma_appended_jump(&self, before: &Self, bytes: Seq<u8>, i: int)
        requires
            before.ok(),
            self.appended(before, bytes),
            0 <= i < self.marks@.len(),
            is_jump(self.chunk.bytecode@[self.marks@[i]]),
            i < before.marks@.len() ==> !before.pending@.contains(self.marks@[i] + 1),
            i == before.marks@.len() ==> bytes.len() == 3 && starts_at(
                before.chunk.bytecode@,
                before.marks@,
                jump_target(self.chunk.bytecode@, before.chunk.bytecode@.len() as int),
            ),
        ensures
            self.marks@.contains(jump_target(self.chunk.bytecode@, self.marks@[i])),
    {
        let code = self.chunk.bytecode@;
        let old_code = before.chunk.bytecode@;
        let pool = before.chunk.constants@.len() as int;
        let marks = self.marks@;
        let old_marks = before.marks@;
        let target = jump_target(code, marks[i]);
        reveal(jumps_ok);
        reveal(code_ok);
        if i < old_marks.len() {
            let start = old_marks[i];
            assert(marks[i] == start);
            assert(instruction_ok(old_code, pool, start, mark_end(old_code, old_marks, i)));
            if i + 1 < old_marks.len() {
                lemma_marks_ascend(old_code, pool, old_marks, i, i + 1);
                assert(instruction_ok(
                    old_code,
                    pool,
                    old_marks[i + 1],
                    mark_end(old_code, old_marks, i + 1),
                ));
            }
            assert(code[start] == old_code[start]);
            assert(code[start + 1] == old_code[start + 1]);
            assert(code[start + 2] == old_code[start + 2]);
            assert(target == jump_target(old_code, start));
            assert(starts_at(old_code, old_marks, target));
        }
        if old_marks.contains(target) {
            let k = choose|k: int| 0 <= k < old_marks.len() && old_marks[k] == target;
            assert(marks[k] == target);
        } else {
            assert(marks[old_marks.len() as int] == target);
        }
    }

    /// Emits an instruction without operands.
    pub fn emit_op(&mut self, op: Op, line: u32)
        requires
            old(self).ok(),
            op.operand_bytes() == 0,
            op != Op::Closure,
        ensures
            final(self).ok(),
            final(self).extends(old(self)),
            final(self).appended(old(self), seq![op.byte()]),
            final(self).pending == old(self).pending,
            final(self).lined(old(self), line),
    {
        let ghost before = *self;
        self.chunk.push(op.to_byte(), line);
        proof {
            assert(self.chunk.lines@ =~= before.chunk.lines@ + Seq::new(1, |i: int| line));
            self.marks@ = before.marks@.push(before.chunk.bytecode@.len() as int);
            assert(self.chunk.bytecode@ =~= before.chunk.bytecode@ + seq![op.byte()]);
            crate::chunk::lemma_op_round_trip(op, op.byte());
            self.lemma_appended_ok(&before, seq![op.byte()]);
        }
    }

    /// Emits an instruction with one operand.
    pub fn emit_op_operand(&mut self, op: Op, operand: u8, line: u32)
        requires
            old(self).ok(),
            op.operand_bytes() == 1,
            op != Op::Closure,
            op.reads_constant() ==> operand < old(self).chunk.constants@.len(),
        ensures
            final(self).ok(),
            final(self).extends(old(self)),
            final(self).appended(old(self), seq![op.byte(), operand]),
            final(self).pending == old(self).pending,
            final(self).lined(old(self), line),
    {
        let ghost before = *self;
        self.chunk.push(op.to_byte(), line);
        self.chunk.push(operand, line);
        proof {
            assert(self.chunk.lines@ =~= before.chunk.lines@ + Seq::new(2, |i: int| line));
            self.marks@ = before.marks@.push(before.chunk.bytecode@.len() as int);
            assert(self.chunk.bytecode@ =~= before.chunk.bytecode@ + seq![op.byte(), operand]);
            crate::chunk::lemma_op_round_trip(op, op.byte());
            self.lemma_appended_ok(&before, seq![op.byte(), operand]);
        }
    }

    /// Emits an instruction with two operands that is no jump.
    pub fn emit_op_operands(&mut self, op: Op, first: u8, second: u8, line: u32)
        requires
            old(self).ok(),
            op == Op::Invoke || op == Op::SuperInvoke,
            first < old(self).chunk.constants@.len(),
        ensures
            final(self).ok(),
            final(self).extends(old(self)),
            final(self).appended(old(self), seq![op.byte(), first, second]),
            final(self).pending == old(self).pending,
            final(self).lined(old(self), line),
    {
        let ghost before = *self;
        self.chunk.push(op.to_byte(), line);
        self.chunk.push(first, line);
        self.chunk.push(second, line);
        proof {
            assert(self.chunk.lines@ =~= before.chunk.lines@ + Seq::new(3, |i: int| line));
            self.marks@ = before.marks@.push(before.chunk.bytecode@.len() as int);
            assert(self.chunk.bytecode@ =~= before.chunk.bytecode@ + seq![op.byte(), first, second]);
            crate::chunk::lemma_op_round_trip(op, op.byte());
            self.lemma_appended_ok(&before, seq![op.byte(), first, second]);
        }
    }

    /// Emits the jump `op` with an operand that waits to be patched, and
    /// returns where the operand stands.
    pub fn emit_jump(&mut self, op: Op, line: u32) -> (site: usize)
        requires
            old(self).ok(),
            op == Op::Jump || op == Op::JumpIfFalse || op == Op::Loop,
        ensures
            final(self).ok(),
            final(self).extends(old(self)),
            final(self).appended(old(self), seq![op.byte(), 255u8, 255u8]),
            final(self).pending@ == old(self).pending@.insert(site as int),
            site == old(self).chunk.bytecode@.len() + 1,
            op != Op::Loop ==> final(self).jump_site(site as int),
            final(self).lined(old(self), line),
    {
        let ghost before = *self;
        self.chunk.push(op.to_byte(), line);
        self.chunk.push(255, line);
        self.chunk.push(255, line);
        proof {
            assert(self.chunk.lines@ =~= before.chunk.lines@ + Seq::new(3, |i: int| line));
            self.marks@ = before.marks@.push(before.chunk.bytecode@.len() as int);
            self.pending@ = before.pending@.insert(before.chunk.bytecode@.len() as int + 1);
            assert(self.chunk.bytecode@ =~= before.chunk.bytecode@ + seq![op.byte(), 255u8, 255u8]);
            crate::chunk::lemma_op_round_trip(op, op.byte());
            assert(!before.pending@.contains(before.chunk.bytecode@.len() as int + 1));
            assert(self.pending@.contains(before.chunk.bytecode@.len() as int + 1));
            self.lemma_appended_ok(&before, seq![op.byte(), 255u8, 255u8]);
            assert(self.marks@[self.marks@.len() - 1] == before.chunk.bytecode@.len());
        }
        self.chunk.bytecode.len() - 2
    }

    /// Emits a jump back to `start`, where an instruction starts or the
    /// code ends, if that is not too far for two bytes to say; else a
    /// `Loop` that waits to be patched.
    pub fn emit_loop(&mut self, start: usize, line: u32) -> (sent: bool)
        requires
            old(self).ok(),
            starts_at(old(self).chunk.bytecode@, old(self).marks@, start as int),
        ensures
            final(self).ok(),
            final(self).extends(old(self)),
            start <= old(self).chunk.bytecode@.len(),
            sent == (old(self).chunk.bytecode@.len() - start + 3 <= u16::MAX),
            sent ==> final(self).pending == old(self).pending && final(self).appended(
                old(self),
                seq![
                    Op::Loop.byte(),
                    ((old(self).chunk.bytecode@.len() - start + 3) / 256) as u8,
                    ((old(self).chunk.bytecode@.len() - start + 3) % 256) as u8,
                ],
            ),
            !sent ==> final(self).pending@ == old(self).pending@.insert(
                old(self).chunk.bytecode@.len() as int + 1,
            ) && final(self).appended(old(self), seq![Op::Loop.byte(), 255u8, 255u8]),
            final(self).lined(old(self), line),
    {
        let ghost before = *self;
        let count = self.chunk.bytecode.len();
        proof {
            if before.marks@.contains(start as int) {
                let k = choose|k: int| 0 <= k < before.marks@.len() && before.marks@[k] == start;
                lemma_constants_in_range(
                    before.chunk.bytecode@,
                    before.chunk.constants@.len() as int,
                    before.marks@,
                    k,
                );
            }
        }
        let distance = count - start;
        if distance > 65535 - 3 {
            self.emit_jump(Op::Loop, line);
            return false;
        }
        let distance = distance + 3;
        let high = (distance / 256) as u8;
        let low = (distance % 256) as u8;
        self.chunk.push(Op::Loop.to_byte(), line);
        self.chunk.push(high, line);
        self.chunk.push(low, line);
        proof {
            assert(self.chunk.lines@ =~= before.chunk.lines@ + Seq::new(3, |i: int| line));
            self.marks@ = before.marks@.push(before.chunk.bytecode@.len() as int);
            assert(self.chunk.bytecode@ =~= before.chunk.bytecode@ + seq![Op::Loop.byte(), high, low]);
            crate::chunk::lemma_op_round_trip(Op::Loop, Op::Loop.byte());
            assert(high as int * 256 + low as int == distance);
            assert(jump_target(self.chunk.bytecode@, count as int) == start);
            self.lemma_appended_ok(&before, seq![Op::Loop.byte(), high, low]);
        }
        true
    }

    /// Emits `Closure` for the function constant `constant`, followed by
    /// one pair of bytes for each of the function's upvalues, in order.
    pub fn emit_closure(&mut self, constant: u8, upvalues: &Vec<Upvalue>, line: u32)
        requires
            old(self).ok(),
            constant < old(self).chunk.constants@.len(),
        ensures
            final(self).ok(),
            final(self).extends(old(self)),
            final(self).appended(
                old(self),
                seq![Op::Closure.byte(), constant] + pair_bytes(upvalues@),
            ),
            final(self).pending == old(self).pending,
            final(self).lined(old(self), line),
    {
        let ghost before = *self;
        self.chunk.push(Op::Closure.to_byte(), line);
        self.chunk.push(constant, line);
        let mut i: usize = 0;
        proof {
            assert(self.chunk.lines@ =~= before.chunk.lines@ + Seq::new(2, |i: int| line));
            assert(upvalues@.take(0) =~= Seq::<Upvalue>::empty());
            assert(self.chunk.bytecode@ =~= before.chunk.bytecode@ + (seq![
                Op::Closure.byte(),
                constant,
            ] + pair_bytes(upvalues@.take(0))));
        }
        while i < upvalues.len()
            invariant
                i <= upvalues@.len(),
                self.chunk.wf(),
                self.chunk.bytecode@ == before.chunk.bytecode@ + (seq![Op::Closure.byte(), constant]
                    + pair_bytes(upvalues@.take(i as int))),
                self.chunk.constants == before.chunk.constants,
                self.marks == before.marks,
                self.pending == before.pending,
                self.consts == before.consts,
                self.name_text == before.name_text,
                self.lined(&before, line),
                self.function == before.function,
                self.fn_kind == before.fn_kind,
                self.name == before.name,
                self.arity == before.arity,
                self.locals == before.locals,
                self.upvalues == before.upvalues,
                self.scope_depth == before.scope_depth,
                before.chunk.wf(),
            decreases upvalues@.len() - i,
        {
            let upvalue = upvalues[i];
            let flag: u8 = if upvalue.is_local {
                1
            } else {
                0
            };
            let ghost looped = *self;
            self.chunk.push(flag, line);
            self.chunk.push(upvalue.index, line);
            proof {
                assert(self.chunk.lines@ =~= before.chunk.lines@ + Seq::new(
                    (self.chunk.bytecode@.len() - before.chunk.bytecode@.len()) as nat,
                    |i: int| line,
                ));
                assert(upvalues@.take(i + 1).drop_last() =~= upvalues@.take(i as int));
                assert(upvalues@.take(i + 1).last() == upvalue);
                assert(self.chunk.bytecode@ =~= before.chunk.bytecode@ + (seq![
                    Op::Closure.byte(),
                    constant,
                ] + pair_bytes(upvalues@.take(i + 1))));
            }
            i += 1;
        }
        proof {
            assert(upvalues@.take(upvalues@.len() as int) =~= upvalues@);
            lemma_pair_bytes_len(upvalues@);
            let bytes = seq![Op::Closure.byte(), constant] + pair_bytes(upvalues@);
            self.marks@ = before.marks@.push(before.chunk.bytecode@.len() as int);
            lemma_lines_follow(&before.chunk, &self.chunk);
            self.lemma_appended_ok(&before, bytes);
        }
    }

    /// Whether the two bytes at `site` are the operand of a forward jump.
    pub open spec fn jump_site(&self, site: int) -> bool {
        exists|j: int|
            0 <= j < self.marks@.len() && #[trigger] self.marks@[j] == site - 1 && (
            self.chunk.bytecode@[site - 1] == Op::Jump.byte() || self.chunk.bytecode@[site - 1]
                == Op::JumpIfFalse.byte())
    }

    /// Writes `high` and `low` into the operand of the jump at `site`,
    /// which then leads to where an instruction starts or the code ends,
    /// and waits no longer.
    pub fn patch(&mut self, site: usize, high: u8, low: u8)
        requires
            old(self).ok(),
            old(self).jump_site(site as int),
            starts_at(
                old(self).chunk.bytecode@,
                old(self).marks@,
                site + 2 + high as int * 256 + low as int,
            ),
        ensures
            final(self).ok(),
            final(self).extends(old(self)),
            final(self).chunk.bytecode@ == old(self).chunk.bytecode@.update(
                site as int,
                high,
            ).update(site + 1, low),
            final(self).pending@ == old(self).pending@.remove(site as int),
            final(self).chunk.constants == old(self).chunk.constants,
            final(self).chunk.lines == old(self).chunk.lines,
            final(self).marks == old(self).marks,
            final(self).consts == old(self).consts,
            final(self).function == old(self).function,
            final(self).arity == old(self).arity,
            final(self).locals == old(self).locals,
            final(self).upvalues == old(self).upvalues,
            final(self).scope_depth == old(self).scope_depth,
    {
        let ghost before = *self;
        let ghost code0 = self.chunk.bytecode@;
        let ghost pool = self.chunk.constants@.len() as int;
        let ghost marks = self.marks@;
        let ghost j = choose|j: int|
            0 <= j < marks.len() && #[trigger] marks[j] == site - 1 && (code0[site - 1]
                == Op::Jump.byte() || code0[site - 1] == Op::JumpIfFalse.byte());
        proof {
            reveal(code_ok);
            assert(instruction_ok(code0, pool, marks[j], mark_end(code0, marks, j)));
        }
        let count = self.chunk.bytecode.len();
        assert(site + 1 < count);
        self.chunk.bytecode[site] = high;
        self.chunk.bytecode[site + 1] = low;
        proof {
            self.pending@ = before.pending@.remove(site as int);
            reveal(jumps_ok);
            reveal(code_ok);
            let code = self.chunk.bytecode@;
            assert forall|i: int| 0 <= i < marks.len() implies instruction_ok(
                code,
                pool,
                #[trigger] marks[i],
                mark_end(code, marks, i),
            ) by {
                assert(instruction_ok(code0, pool, marks[i], mark_end(code0, marks, i)));
                if i < j {
                    lemma_marks_ascend(code0, pool, marks, i, j);
                } else if i > j {
                    lemma_marks_ascend(code0, pool, marks, j, i);
                }
            }
            assert forall|i: int| 0 <= i < marks.len() implies code[marks[i]]
                == code0[marks[i]] by {
                assert(instruction_ok(code0, pool, marks[i], mark_end(code0, marks, i)));
                if i < j {
                    lemma_marks_ascend(code0, pool, marks, i, j);
                } else if i > j {
                    lemma_marks_ascend(code0, pool, marks, j, i);
                }
            }
            assert forall|i: int|
                0 <= i < marks.len() && is_jump(code[#[trigger] marks[i]])
                    && !self.pending@.contains(marks[i] + 1) implies starts_at(
                code,
                marks,
                jump_target(code, marks[i]),
            ) by {
                assert(instruction_ok(code0, pool, marks[i], mark_end(code0, marks, i)));
                if i < j {
                    lemma_marks_ascend(code0, pool, marks, i, j);
                    assert(jump_target(code, marks[i]) == jump_target(code0, marks[i]));
                } else if i > j {
                    lemma_marks_ascend(code0, pool, marks, j, i);
                    assert(jump_target(code, marks[i]) == jump_target(code0, marks[i]));
                } else {
                    assert(jump_target(code, marks[i]) == site + 2 + high as int * 256
                        + low as int);
                }
            }
        }
    }

    /// Makes the jump whose operand stands at `site` lead to the end of
    /// the code, if that is not too far for two bytes to say.
    pub fn patch_to_end(&mut self, site: usize) -> (patched: bool)
        requires
            old(self).ok(),
            old(self).jump_site(site as int),
        ensures
            final(self).ok(),
            final(self).extends(old(self)),
            site + 2 <= old(self).chunk.bytecode@.len(),
            patched == (old(self).chunk.bytecode@.len() - site - 2 <= u16::MAX),
            !patched ==> *final(self) == *old(self),
            patched ==> final(self).chunk.bytecode@ == old(self).chunk.bytecode@.update(
                site as int,
                ((old(self).chunk.bytecode@.len() - site - 2) / 256) as u8,
            ).update(site + 1, ((old(self).chunk.bytecode@.len() - site - 2) % 256) as u8),
            patched ==> final(self).pending@ == old(self).pending@.remove(site as int),
            final(self).chunk.constants == old(self).chunk.constants,
            final(self).chunk.lines == old(self).chunk.lines,
            final(self).marks == old(self).marks,
            final(self).consts == old(self).consts,
            final(self).function == old(self).function,
            final(self).arity == old(self).arity,
            final(self).locals == old(self).locals,
            final(self).upvalues == old(self).upvalues,
            final(self).scope_depth == old(self).scope_depth,
    {
        let count = self.chunk.bytecode.len();
        proof {
            reveal(code_ok);
            let j = choose|j: int|
                0 <= j < self.marks@.len() && #[trigger] self.marks@[j] == site - 1 && (
                self.chunk.bytecode@[site - 1] == Op::Jump.byte() || self.chunk.bytecode@[site
                    - 1] == Op::JumpIfFalse.byte());
            assert(instruction_ok(
                self.chunk.bytecode@,
                self.chunk.constants@.len() as int,
                self.marks@[j],
                mark_end(self.chunk.bytecode@, self.marks@, j),
            ));
        }
        let jump = count - site - 2;
        if jump > 65535 {
            return false;
        }
        let high = (jump / 256) as u8;
        let low = (jump % 256) as u8;
        assert(high as int * 256 + low as int == jump);
        self.patch(site, high, low);
        true
    }

    /// Adds `value` to the constants and returns its index, if there is
    /// room for one more.
    pub fn make_constant(&mut self, value: Value) -> (index: Option<u8>)
        requires
            old(self).ok(),
        ensures
            final(self).ok(),
            final(self).extends(old(self)),
            final(self).chunk.bytecode == old(self).chunk.bytecode,
            final(self).chunk.lines == old(self).chunk.lines,
            final(self).marks == old(self).marks,
            final(self).consts == old(self).consts,
            final(self).function == old(self).function,
            final(self).pending == old(self).pending,
            final(self).arity == old(self).arity,
            final(self).locals == old(self).locals,
            final(self).upvalues == old(self).upvalues,
            final(self).scope_depth == old(self).scope_depth,
            old(self).chunk.constants@.len() < LIMIT ==> index == Some(
                old(self).chunk.constants@.len() as u8,
            ) && final(self).chunk.constants@ == old(self).chunk.constants@.push(value),
            old(self).chunk.constants@.len() >= LIMIT ==> index.is_none() && final(self).chunk.constants == old(self).chunk.constants,
    {
        let count = self.chunk.constants.len();
        if count >= LIMIT {
            return None;
        }
        let ghost before = *self;
        self.chunk.add_constant(value);
        proof {
            reveal(code_ok);
            let code = self.chunk.bytecode@;
            let marks = self.marks@;
            assert forall|i: int| 0 <= i < marks.len() implies instruction_ok(
                code,
                self.chunk.constants@.len() as int,
                #[trigger] marks[i],
                mark_end(code, marks, i),
            ) by {
                assert(instruction_ok(
                    code,
                    before.chunk.constants@.len() as int,
                    marks[i],
                    mark_end(code, marks, i),
                ));
            }
        }
        Some(count as u8)
    }
}

/// A chunk whose bytes all have their line still has after as many bytes
/// and lines are pushed.
pub proof fn lemma_lines_follow(before: &Chunk, after: &Chunk)
    requires
        before.wf(),
        after.wf(),
    ensures
        after.lines@.len() == before.lines@.len() + (after.bytecode@.len()
            - before.bytecode@.len()),
{
}

} // verus!
