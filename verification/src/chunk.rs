//! Bytecode: the instruction set and the chunk that holds one function's
//! code, source lines and constants.

use vstd::prelude::*;
use crate::value::Value;

verus! {

/// The instructions of the machine. Each is one byte, followed by the
/// operand bytes that `operand_bytes` counts; `Closure` is followed by two
/// more bytes for each variable its function captures.
#[derive(Clone, Copy, Debug, PartialEq, Eq, Structural)]
pub enum Op {
    Closure,
    Constant,
    False,
    Nil,
    True,
    Jump,
    JumpIfFalse,
    Loop,
    Pop,
    Return,
    Call,
    Invoke,
    SuperInvoke,
    CloseUpvalue,
    DefineGlobal,
    GetGlobal,
    GetLocal,
    GetProperty,
    GetSuper,
    GetUpvalue,
    SetGlobal,
    SetLocal,
    SetProperty,
    SetUpvalue,
    Equal,
    Greater,
    Less,
    Add,
    Divide,
    Multiply,
    Negate,
    Subtract,
    Not,
    Class,
    Inherit,
    Method,
    Print,
}

impl Op {
    /// The byte that encodes the instruction: its place in the list above.
    pub open spec fn byte(self) -> u8 {
        match self {
            Op::Closure => 0,
            Op::Constant => 1,
            Op::False => 2,
            Op::Nil => 3,
            Op::True => 4,
            Op::Jump => 5,
            Op::JumpIfFalse => 6,
            Op::Loop => 7,
            Op::Pop => 8,
            Op::Return => 9,
            Op::Call => 10,
            Op::Invoke => 11,
            Op::SuperInvoke => 12,
            Op::CloseUpvalue => 13,
            Op::DefineGlobal => 14,
            Op::GetGlobal => 15,
            Op::GetLocal => 16,
            Op::GetProperty => 17,
            Op::GetSuper => 18,
            Op::GetUpvalue => 19,
            Op::SetGlobal => 20,
            Op::SetLocal => 21,
            Op::SetProperty => 22,
            Op::SetUpvalue => 23,
            Op::Equal => 24,
            Op::Greater => 25,
            Op::Less => 26,
            Op::Add => 27,
            Op::Divide => 28,
            Op::Multiply => 29,
            Op::Negate => 30,
            Op::Subtract => 31,
            Op::Not => 32,
            Op::Class => 33,
            Op::Inherit => 34,
            Op::Method => 35,
            Op::Print => 36,
        }
    }

    /// The instruction a byte encodes, if it encodes one.
    pub open spec fn decode(byte: u8) -> Option<Op> {
        match byte {
            0 => Some(Op::Closure),
            1 => Some(Op::Constant),
            2 => Some(Op::False),
            3 => Some(Op::Nil),
            4 => Some(Op::True),
            5 => Some(Op::Jump),
            6 => Some(Op::JumpIfFalse),
            7 => Some(Op::Loop),
            8 => Some(Op::Pop),
            9 => Some(Op::Return),
            10 => Some(Op::Call),
            11 => Some(Op::Invoke),
            12 => Some(Op::SuperInvoke),
            13 => Some(Op::CloseUpvalue),
            14 => Some(Op::DefineGlobal),
            15 => Some(Op::GetGlobal),
            16 => Some(Op::GetLocal),
            17 => Some(Op::GetProperty),
            18 => Some(Op::GetSuper),
            19 => Some(Op::GetUpvalue),
            20 => Some(Op::SetGlobal),
            21 => Some(Op::SetLocal),
            22 => Some(Op::SetProperty),
            23 => Some(Op::SetUpvalue),
            24 => Some(Op::Equal),
            25 => Some(Op::Greater),
            26 => Some(Op::Less),
            27 => Some(Op::Add),
            28 => Some(Op::Divide),
            29 => Some(Op::Multiply),
            30 => Some(Op::Negate),
            31 => Some(Op::Subtract),
            32 => Some(Op::Not),
            33 => Some(Op::Class),
            34 => Some(Op::Inherit),
            35 => Some(Op::Method),
            36 => Some(Op::Print),
            _ => None,
        }
    }

    /// How many operand bytes follow the instruction, not counting the pairs
    /// that follow a `Closure`.
    pub open spec fn operand_bytes(self) -> nat {
        match self {
            Op::Constant | Op::Closure | Op::Call | Op::DefineGlobal | Op::GetGlobal | Op::GetLocal
            | Op::GetProperty | Op::GetSuper | Op::GetUpvalue | Op::SetGlobal | Op::SetLocal
            | Op::SetProperty | Op::SetUpvalue | Op::Class | Op::Method => 1,
            Op::Jump | Op::JumpIfFalse | Op::Loop | Op::Invoke | Op::SuperInvoke => 2,
            _ => 0,
        }
    }

    /// Whether the first operand byte is an index into the constant pool.
    pub open spec fn reads_constant(self) -> bool {
        match self {
            Op::Constant | Op::Closure | Op::DefineGlobal | Op::GetGlobal | Op::GetProperty
            | Op::GetSuper | Op::SetGlobal | Op::SetProperty | Op::Class | Op::Method | Op::Invoke
            | Op::SuperInvoke => true,
            _ => false,
        }
    }

    pub fn to_byte(self) -> (byte: u8)
        ensures
            byte == self.byte(),
    {
        match self {
            Op::Closure => 0,
            Op::Constant => 1,
            Op::False => 2,
            Op::Nil => 3,
            Op::True => 4,
            Op::Jump => 5,
            Op::JumpIfFalse => 6,
            Op::Loop => 7,
            Op::Pop => 8,
            Op::Return => 9,
            Op::Call => 10,
            Op::Invoke => 11,
            Op::SuperInvoke => 12,
            Op::CloseUpvalue => 13,
            Op::DefineGlobal => 14,
            Op::GetGlobal => 15,
            Op::GetLocal => 16,
            Op::GetProperty => 17,
            Op::GetSuper => 18,
            Op::GetUpvalue => 19,
            Op::SetGlobal => 20,
            Op::SetLocal => 21,
            Op::SetProperty => 22,
            Op::SetUpvalue => 23,
            Op::Equal => 24,
            Op::Greater => 25,
            Op::Less => 26,
            Op::Add => 27,
            Op::Divide => 28,
            Op::Multiply => 29,
            Op::Negate => 30,
            Op::Subtract => 31,
            Op::Not => 32,
            Op::Class => 33,
            Op::Inherit => 34,
            Op::Method => 35,
            Op::Print => 36,
        }
    }

    pub fn from_byte(byte: u8) -> (op: Option<Op>)
        ensures
            op == Op::decode(byte),
    {
        match byte {
            0 => Some(Op::Closure),
            1 => Some(Op::Constant),
            2 => Some(Op::False),
            3 => Some(Op::Nil),
            4 => Some(Op::True),
            5 => Some(Op::Jump),
            6 => Some(Op::JumpIfFalse),
            7 => Some(Op::Loop),
            8 => Some(Op::Pop),
            9 => Some(Op::Return),
            10 => Some(Op::Call),
            11 => Some(Op::Invoke),
            12 => Some(Op::SuperInvoke),
            13 => Some(Op::CloseUpvalue),
            14 => Some(Op::DefineGlobal),
            15 => Some(Op::GetGlobal),
            16 => Some(Op::GetLocal),
            17 => Some(Op::GetProperty),
            18 => Some(Op::GetSuper),
            19 => Some(Op::GetUpvalue),
            20 => Some(Op::SetGlobal),
            21 => Some(Op::SetLocal),
            22 => Some(Op::SetProperty),
            23 => Some(Op::SetUpvalue),
            24 => Some(Op::Equal),
            25 => Some(Op::Greater),
            26 => Some(Op::Less),
            27 => Some(Op::Add),
            28 => Some(Op::Divide),
            29 => Some(Op::Multiply),
            30 => Some(Op::Negate),
            31 => Some(Op::Subtract),
            32 => Some(Op::Not),
            33 => Some(Op::Class),
            34 => Some(Op::Inherit),
            35 => Some(Op::Method),
            36 => Some(Op::Print),
            _ => None,
        }
    }
}

/// Every instruction is decoded from the byte it is encoded as, and no other
/// byte decodes to it.
pub proof fn lemma_op_round_trip(op: Op, byte: u8)
    ensures
        Op::decode(op.byte()) == Some(op),
        Op::decode(byte) == Some(op) ==> byte == op.byte(),
{
}

/// One function's code: bytes, the source line of each byte, and the
/// constants the code refers to by index.
pub struct Chunk {
    pub bytecode: Vec<u8>,
    pub lines: Vec<u32>,
    pub constants: Vec<Value>,
}

impl Chunk {
    /// Every byte has its line.
    pub open spec fn wf(&self) -> bool {
        self.bytecode@.len() == self.lines@.len()
    }

    pub fn new() -> (chunk: Chunk)
        ensures
            chunk.wf(),
            chunk.bytecode@.len() == 0,
            chunk.constants@.len() == 0,
    {
        Chunk { bytecode: Vec::new(), lines: Vec::new(), constants: Vec::new() }
    }

    /// Appends one byte of code, read from source line `line`.
    pub fn push(&mut self, bytecode: u8, line: u32)
        ensures
            final(self).bytecode@ == old(self).bytecode@.push(bytecode),
            final(self).lines@ == old(self).lines@.push(line),
            final(self).constants == old(self).constants,
    {
        self.bytecode.push(bytecode);
        self.lines.push(line);
    }

    /// Appends `value` to the constant pool and returns its index.
    pub fn add_constant(&mut self, value: Value) -> (index: usize)
        ensures
            index == old(self).constants@.len(),
            final(self).constants@ == old(self).constants@.push(value),
            final(self).bytecode == old(self).bytecode,
            final(self).lines == old(self).lines,
    {
        self.constants.push(value);
        self.constants.len() - 1
    }
}

} // verus!
