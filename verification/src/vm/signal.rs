use vstd::prelude::*;
use vstd::string::StringSliceAdditionalSpecFns;
use crate::text::append_bytes;
use crate::text::append_decimal;
use crate::text::append_str;
use crate::text::decimal_digits;
use crate::value::Value;

verus! {

/// The four operations on numbers that the machine leaves to its host.
#[derive(Clone, Copy, Debug, PartialEq, Eq, Structural)]
pub enum ArithmeticOp {
    Add,
    Subtract,
    Multiply,
    Divide,
}

/// Why a program was stopped.
#[derive(Debug)]
pub enum RuntimeErrorKind {
    OperandMustBeANumber,
    OperandsMustBeNumbers,
    OperandsMustBeTwoNumbersOrTwoStrings,
    UndefinedVariable(Vec<u8>),
    UndefinedProperty(Vec<u8>),
    OnlyInstancesHaveProperties,
    OnlyInstancesHaveFields,
    OnlyInstancesHaveMethods,
    NotCallable,
    Arity { expected: usize, got: usize },
    StackOverflow,
    SuperclassMustBeAClass,
    /// The code is not what the compiler emits: an instruction reaches
    /// outside the code, the constants or the stack.
    Corrupt,
}

pub ghost enum RuntimeErrorKindView {
    OperandMustBeANumber,
    OperandsMustBeNumbers,
    OperandsMustBeTwoNumbersOrTwoStrings,
    UndefinedVariable(Seq<u8>),
    UndefinedProperty(Seq<u8>),
    OnlyInstancesHaveProperties,
    OnlyInstancesHaveFields,
    OnlyInstancesHaveMethods,
    NotCallable,
    Arity { expected: usize, got: usize },
    StackOverflow,
    SuperclassMustBeAClass,
    Corrupt,
}

impl View for RuntimeErrorKind {
    type V = RuntimeErrorKindView;

    open spec fn view(&self) -> RuntimeErrorKindView {
        match self {
            RuntimeErrorKind::OperandMustBeANumber => RuntimeErrorKindView::OperandMustBeANumber,
            RuntimeErrorKind::OperandsMustBeNumbers => RuntimeErrorKindView::OperandsMustBeNumbers,
            RuntimeErrorKind::OperandsMustBeTwoNumbersOrTwoStrings => RuntimeErrorKindView::OperandsMustBeTwoNumbersOrTwoStrings,
            RuntimeErrorKind::UndefinedVariable(name) => RuntimeErrorKindView::UndefinedVariable(
                name@,
            ),
            RuntimeErrorKind::UndefinedProperty(name) => RuntimeErrorKindView::UndefinedProperty(
                name@,
            ),
            RuntimeErrorKind::OnlyInstancesHaveProperties => RuntimeErrorKindView::OnlyInstancesHaveProperties,
            RuntimeErrorKind::OnlyInstancesHaveFields => RuntimeErrorKindView::OnlyInstancesHaveFields,
            RuntimeErrorKind::OnlyInstancesHaveMethods => RuntimeErrorKindView::OnlyInstancesHaveMethods,
            RuntimeErrorKind::NotCallable => RuntimeErrorKindView::NotCallable,
            RuntimeErrorKind::Arity { expected, got } => RuntimeErrorKindView::Arity {
                expected: *expected,
                got: *got,
            },
            RuntimeErrorKind::StackOverflow => RuntimeErrorKindView::StackOverflow,
            RuntimeErrorKind::SuperclassMustBeAClass => RuntimeErrorKindView::SuperclassMustBeAClass,
            RuntimeErrorKind::Corrupt => RuntimeErrorKindView::Corrupt,
        }
    }
}

/// The message of an error, as the user reads it.
pub open spec fn message_text(kind: RuntimeErrorKindView) -> Seq<u8> {
    match kind {
        RuntimeErrorKindView::OperandMustBeANumber => "Operand must be a number.".spec_bytes(),
        RuntimeErrorKindView::OperandsMustBeNumbers => "Operands must be numbers.".spec_bytes(),
        RuntimeErrorKindView::OperandsMustBeTwoNumbersOrTwoStrings => "Operands must be two numbers or two strings.".spec_bytes(),
        RuntimeErrorKindView::UndefinedVariable(name) => "Undefined variable '".spec_bytes() + name
            + "'.".spec_bytes(),
        RuntimeErrorKindView::UndefinedProperty(name) => "Undefined property '".spec_bytes() + name
            + "'.".spec_bytes(),
        RuntimeErrorKindView::OnlyInstancesHaveProperties => "Only instances have properties.".spec_bytes(),
        RuntimeErrorKindView::OnlyInstancesHaveFields => "Only instances have fields.".spec_bytes(),
        RuntimeErrorKindView::OnlyInstancesHaveMethods => "Only instances have methods.".spec_bytes(),
        RuntimeErrorKindView::NotCallable => "Can only call functions and classes.".spec_bytes(),
        RuntimeErrorKindView::Arity { expected, got } => "Expected ".spec_bytes() + decimal_digits(
            expected as nat,
        ) + " arguments but got ".spec_bytes() + decimal_digits(got as nat) + ".".spec_bytes(),
        RuntimeErrorKindView::StackOverflow => "Stack overflow.".spec_bytes(),
        RuntimeErrorKindView::SuperclassMustBeAClass => "Superclass must be a class.".spec_bytes(),
        RuntimeErrorKindView::Corrupt => "Corrupt bytecode.".spec_bytes(),
    }
}

impl RuntimeErrorKind {
    /// The message of the error.
    pub fn message(&self) -> (text: Vec<u8>)
        ensures
            text@ == message_text(self@),
    {
        let mut text: Vec<u8> = Vec::new();
        match self {
            RuntimeErrorKind::OperandMustBeANumber => append_str(
                &mut text,
                "Operand must be a number.",
            ),
            RuntimeErrorKind::OperandsMustBeNumbers => append_str(
                &mut text,
                "Operands must be numbers.",
            ),
            RuntimeErrorKind::OperandsMustBeTwoNumbersOrTwoStrings => append_str(
                &mut text,
                "Operands must be two numbers or two strings.",
            ),
            RuntimeErrorKind::UndefinedVariable(name) => {
                append_str(&mut text, "Undefined variable '");
                append_bytes(&mut text, name);
                append_str(&mut text, "'.");
            },
            RuntimeErrorKind::UndefinedProperty(name) => {
                append_str(&mut text, "Undefined property '");
                append_bytes(&mut text, name);
                append_str(&mut text, "'.");
            },
            RuntimeErrorKind::OnlyInstancesHaveProperties => append_str(
                &mut text,
                "Only instances have properties.",
            ),
            RuntimeErrorKind::OnlyInstancesHaveFields => append_str(
                &mut text,
                "Only instances have fields.",
            ),
            RuntimeErrorKind::OnlyInstancesHaveMethods => append_str(
                &mut text,
                "Only instances have methods.",
            ),
            RuntimeErrorKind::NotCallable => append_str(
                &mut text,
                "Can only call functions and classes.",
            ),
            RuntimeErrorKind::Arity { expected, got } => {
                append_str(&mut text, "Expected ");
                append_decimal(&mut text, *expected);
                append_str(&mut text, " arguments but got ");
                append_decimal(&mut text, *got);
                append_str(&mut text, ".");
            },
            RuntimeErrorKind::StackOverflow => append_str(&mut text, "Stack overflow."),
            RuntimeErrorKind::SuperclassMustBeAClass => append_str(
                &mut text,
                "Superclass must be a class.",
            ),
            RuntimeErrorKind::Corrupt => append_str(&mut text, "Corrupt bytecode."),
        }
        assert(Seq::<u8>::empty() + message_text(self@) =~= message_text(self@));
        assert(text@ =~= message_text(self@));
        text
    }
}

/// One line of a stack trace: the source line a call stood on, and the name
/// of the function it was in; the script has no name.
#[derive(Debug)]
pub struct TraceLine {
    pub line: u32,
    pub function: Option<Vec<u8>>,
}

pub ghost struct TraceLineView {
    pub line: u32,
    pub function: Option<Seq<u8>>,
}

impl View for TraceLine {
    type V = TraceLineView;

    open spec fn view(&self) -> TraceLineView {
        TraceLineView {
            line: self.line,
            function: match self.function {
                Some(name) => Some(name@),
                None => None,
            },
        }
    }
}

/// What a line of a stack trace reads.
pub open spec fn trace_text(line: TraceLineView) -> Seq<u8> {
    "[line ".spec_bytes() + decimal_digits(line.line as nat) + "] in ".spec_bytes() + (
    match line.function {
        Some(name) => name + "()".spec_bytes(),
        None => "script".spec_bytes(),
    })
}

impl TraceLine {
    /// The line as the user reads it.
    pub fn text(&self) -> (text: Vec<u8>)
        ensures
            text@ == trace_text(self@),
    {
        let mut text: Vec<u8> = Vec::new();
        append_str(&mut text, "[line ");
        append_decimal(&mut text, self.line as usize);
        append_str(&mut text, "] in ");
        match &self.function {
            Some(name) => {
                append_bytes(&mut text, name);
                append_str(&mut text, "()");
            },
            None => {
                append_str(&mut text, "script");
            },
        }
        assert(text@ =~= trace_text(self@));
        text
    }
}

/// A runtime error: what went wrong, and the calls that were in progress,
/// innermost first.
#[derive(Debug)]
pub struct RuntimeError {
    pub kind: RuntimeErrorKind,
    pub trace: Vec<TraceLine>,
}

/// What the machine is telling its host when it stops.
#[derive(Debug)]
pub enum Signal {
    /// The program has run to its end.
    Done,
    /// A line of text to print.
    Print(Vec<u8>),
    /// A number to print.
    PrintNumber(u64),
    /// Two numbers to combine. The machine waits for the result.
    Arithmetic { op: ArithmeticOp, left: u64, right: u64 },
    /// A native function to call. The machine waits for the result.
    Native { function: usize, args: Vec<Value> },
    /// The program was stopped by an error.
    Error(RuntimeError),
    /// The machine has run as many instructions as it was allowed.
    OutOfFuel,
}

pub ghost enum SignalView {
    Done,
    Print(Seq<u8>),
    PrintNumber(u64),
    Arithmetic { op: ArithmeticOp, left: u64, right: u64 },
    Native { function: usize, args: Seq<Value> },
    Error { kind: RuntimeErrorKindView, trace: Seq<TraceLineView> },
    OutOfFuel,
}

impl View for Signal {
    type V = SignalView;

    open spec fn view(&self) -> SignalView {
        match self {
            Signal::Done => SignalView::Done,
            Signal::Print(text) => SignalView::Print(text@),
            Signal::PrintNumber(bits) => SignalView::PrintNumber(*bits),
            Signal::Arithmetic { op, left, right } => SignalView::Arithmetic {
                op: *op,
                left: *left,
                right: *right,
            },
            Signal::Native { function, args } => SignalView::Native {
                function: *function,
                args: args@,
            },
            Signal::Error(error) => SignalView::Error {
                kind: error.kind@,
                trace: error.trace@.map_values(|line: TraceLine| line@),
            },
            Signal::OutOfFuel => SignalView::OutOfFuel,
        }
    }
}

/// The view of what a step hands back: nothing, or a signal.
pub open spec fn signal_view(out: Option<Signal>) -> Option<SignalView> {
    match out {
        Some(signal) => Some(signal@),
        None => None,
    }
}

} // verus!
