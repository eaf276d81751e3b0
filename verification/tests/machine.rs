use rlox::chunk::Chunk;
use rlox::chunk::Op;
use rlox::mem::gc_ref::GcRef;
use rlox::obj::obj::ObjData;
use rlox::obj::obj_function::ObjFunction;
use rlox::value::Value;
use rlox::vm::call_frame::CallFrame;
use rlox::vm::signal::ArithmeticOp;
use rlox::vm::signal::RuntimeErrorKind;
use rlox::vm::signal::Signal;
use rlox::vm::Vm;

fn number(n: f64) -> Value {
    Value::Number(n.to_bits())
}

/// A machine ready to run `code` with the constants `constants`.
fn machine(code: Vec<u8>, constants: Vec<Value>) -> Vm<4, 8> {
    let mut vm: Vm<4, 8> = Vm::new();
    let mut chunk = Chunk::new();
    for byte in code {
        chunk.push(byte, 1);
    }
    for constant in constants {
        chunk.add_constant(constant);
    }
    let function = vm.gc.place(ObjData::Function(ObjFunction {
        arity: 0,
        upvalue_count: 0,
        chunk,
        name: None,
    }));
    assert!(vm.load(function).is_none());
    vm
}

fn b(op: Op) -> u8 {
    op.to_byte()
}

fn kind_of(signal: Signal) -> RuntimeErrorKind {
    match signal {
        Signal::Error(error) => error.kind,
        other => panic!("no error: {:?}", other),
    }
}

#[test]
fn a_loaded_machine_holds_the_closure_in_slot_zero() {
    let vm = machine(vec![b(Op::Nil), b(Op::Return)], vec![]);
    assert_eq!(vm.stack.len(), 1);
    assert_eq!(vm.frames.len(), 1);
    let frame: CallFrame = *vm.frames.get(0);
    assert_eq!(frame.ip, 0);
    assert_eq!(frame.slots, 0);
    assert_eq!(vm.peek(0), Value::Obj(frame.closure));
    assert!(vm.gc.heap.closure(frame.closure).is_some());
}

#[test]
fn constant_pushes_and_return_ends_the_program() {
    let mut vm = machine(vec![b(Op::Constant), 0, b(Op::Return)], vec![number(2.5)]);
    assert!(vm.step().is_none());
    assert_eq!(vm.peek(0), number(2.5));
    assert_eq!(vm.frames.get(0).ip, 2);
    assert!(matches!(vm.step(), Some(Signal::Done)));
    assert_eq!(vm.stack.len(), 0);
    assert_eq!(vm.frames.len(), 0);
}

#[test]
fn arithmetic_is_handed_to_the_host_with_both_operands() {
    let mut vm = machine(
        vec![b(Op::Constant), 0, b(Op::Constant), 1, b(Op::Subtract), b(Op::Print), b(Op::Nil), b(Op::Return)],
        vec![number(7.0), number(2.0)],
    );
    match vm.run(100) {
        Signal::Arithmetic { op, left, right } => {
            assert_eq!(op, ArithmeticOp::Subtract);
            assert_eq!(f64::from_bits(left), 7.0);
            assert_eq!(f64::from_bits(right), 2.0);
        }
        other => panic!("unexpected {:?}", other),
    }
    assert_eq!(vm.stack.len(), 1);
    assert!(vm.resume(number(5.0)).is_none());
    match vm.run(100) {
        Signal::PrintNumber(bits) => assert_eq!(f64::from_bits(bits), 5.0),
        other => panic!("unexpected {:?}", other),
    }
    assert!(matches!(vm.run(100), Signal::Done));
}

#[test]
fn running_out_of_fuel_changes_nothing_else() {
    let mut vm = machine(vec![b(Op::Nil), b(Op::Pop), b(Op::Loop), 0, 5], vec![]);
    assert!(matches!(vm.run(0), Signal::OutOfFuel));
    assert_eq!(vm.frames.get(0).ip, 0);
    assert!(matches!(vm.run(7), Signal::OutOfFuel));
    assert_eq!(vm.frames.get(0).ip, 1);
    assert_eq!(vm.stack.len(), 2);
}

#[test]
fn jumps_read_their_operand_high_byte_first() {
    let mut code = vec![b(Op::Jump), 1, 2];
    code.resize(3 + 258, b(Op::Nil));
    code.push(b(Op::True));
    code.push(b(Op::Return));
    let mut vm = machine(code, vec![]);
    assert!(vm.step().is_none());
    assert_eq!(vm.frames.get(0).ip, 3 + 258);
    assert!(vm.step().is_none());
    assert_eq!(vm.peek(0), Value::Bool(true));
}

#[test]
fn jump_if_false_leaves_the_condition_on_the_stack() {
    let mut vm = machine(vec![b(Op::False), b(Op::JumpIfFalse), 0, 1, b(Op::Nil), b(Op::Return)], vec![]);
    vm.step();
    assert!(vm.step().is_none());
    assert_eq!(vm.frames.get(0).ip, 5);
    assert_eq!(vm.peek(0), Value::Bool(false));
    let mut vm = machine(vec![b(Op::True), b(Op::JumpIfFalse), 0, 1, b(Op::Nil), b(Op::Return)], vec![]);
    vm.step();
    assert!(vm.step().is_none());
    assert_eq!(vm.frames.get(0).ip, 4);
}

#[test]
fn locals_are_counted_from_the_frames_base() {
    let mut vm = machine(
        vec![b(Op::True), b(Op::Nil), b(Op::SetLocal), 1, b(Op::GetLocal), 1, b(Op::Return)],
        vec![],
    );
    vm.step();
    vm.step();
    assert!(vm.step().is_none());
    assert_eq!(*vm.stack.get(1), Value::Nil);
    assert_eq!(vm.stack.len(), 3);
    assert!(vm.step().is_none());
    assert_eq!(vm.peek(0), Value::Nil);
}

#[test]
fn code_that_reaches_outside_is_refused() {
    let mut vm = machine(vec![b(Op::Constant), 3], vec![number(1.0)]);
    assert!(matches!(kind_of(vm.step().unwrap()), RuntimeErrorKind::Corrupt));
    assert_eq!(vm.stack.len(), 0);
    assert_eq!(vm.frames.len(), 0);

    let mut vm = machine(vec![200], vec![]);
    assert!(matches!(kind_of(vm.step().unwrap()), RuntimeErrorKind::Corrupt));

    let mut vm = machine(vec![b(Op::Pop), b(Op::Pop)], vec![]);
    assert!(vm.step().is_none());
    assert!(matches!(kind_of(vm.step().unwrap()), RuntimeErrorKind::Corrupt));

    let mut vm = machine(vec![b(Op::GetLocal), 5], vec![]);
    assert!(matches!(kind_of(vm.step().unwrap()), RuntimeErrorKind::Corrupt));

    let mut vm = machine(vec![b(Op::Loop), 0, 9], vec![]);
    assert!(matches!(kind_of(vm.step().unwrap()), RuntimeErrorKind::Corrupt));

    let mut vm = machine(vec![b(Op::Nil)], vec![]);
    assert!(vm.step().is_none());
    assert!(matches!(kind_of(vm.step().unwrap()), RuntimeErrorKind::Corrupt));

    let mut vm: Vm<4, 8> = Vm::new();
    assert!(matches!(kind_of(vm.step().unwrap()), RuntimeErrorKind::Corrupt));
}

#[test]
fn a_full_stack_is_an_overflow() {
    let mut vm = machine(vec![b(Op::Nil); 10], vec![]);
    for _ in 0..7 {
        assert!(vm.step().is_none());
    }
    assert_eq!(vm.stack.len(), 8);
    assert!(matches!(kind_of(vm.step().unwrap()), RuntimeErrorKind::StackOverflow));
}

#[test]
fn a_machine_without_room_cannot_load() {
    let mut vm: Vm<0, 8> = Vm::new();
    let function = vm.gc.place(ObjData::Function(ObjFunction::new()));
    assert!(matches!(kind_of(vm.load(function).unwrap()), RuntimeErrorKind::StackOverflow));
    let mut vm: Vm<4, 0> = Vm::new();
    let function = vm.gc.place(ObjData::Function(ObjFunction::new()));
    assert!(matches!(kind_of(vm.load(function).unwrap()), RuntimeErrorKind::StackOverflow));
}

#[test]
fn upvalues_are_kept_in_descending_order_of_slot_and_found_again() {
    let mut vm = machine(vec![b(Op::Nil); 8], vec![]);
    for _ in 0..5 {
        vm.step();
    }
    let three = vm.capture_upvalue(3);
    let one = vm.capture_upvalue(1);
    let five = vm.capture_upvalue(5);
    let two = vm.capture_upvalue(2);
    assert_eq!(vm.capture_upvalue(3), three);
    let slots: Vec<usize> = vm.open_upvalues.iter().map(|entry| entry.slot).collect();
    assert_eq!(slots, vec![5, 3, 2, 1]);
    let refs: Vec<GcRef> = vm.open_upvalues.iter().map(|entry| entry.upvalue).collect();
    assert_eq!(refs, vec![five, three, two, one]);
}

#[test]
fn closing_takes_the_values_off_the_stack_from_the_boundary_up() {
    let mut vm = machine(vec![b(Op::True), b(Op::False), b(Op::Nil), b(Op::True)], vec![]);
    for _ in 0..4 {
        vm.step();
    }
    let one = vm.capture_upvalue(1);
    let two = vm.capture_upvalue(2);
    let four = vm.capture_upvalue(4);
    vm.close_upvalues(2);
    let slots: Vec<usize> = vm.open_upvalues.iter().map(|entry| entry.slot).collect();
    assert_eq!(slots, vec![1]);
    let closed = *vm.gc.heap.upvalue(two).unwrap();
    assert_eq!(closed.location, None);
    assert_eq!(closed.closed, Value::Bool(false));
    let closed = *vm.gc.heap.upvalue(four).unwrap();
    assert_eq!(closed.location, None);
    assert_eq!(closed.closed, Value::Bool(true));
    let open = *vm.gc.heap.upvalue(one).unwrap();
    assert_eq!(open.location, Some(1));
    assert_eq!(open.closed, Value::Nil);
    vm.close_upvalues(0);
    assert!(vm.open_upvalues.is_empty());
    assert_eq!(vm.gc.heap.upvalue(one).unwrap().closed, Value::Bool(true));
}

#[test]
fn a_native_is_handed_its_arguments_and_its_result_is_pushed() {
    let mut vm: Vm<4, 8> = Vm::new();
    vm.define_native(&b"count".to_vec(), 7);
    let mut chunk = Chunk::new();
    for byte in [b(Op::GetGlobal), 0, b(Op::True), b(Op::Nil), b(Op::Call), 2, b(Op::Return)] {
        chunk.push(byte, 1);
    }
    let name = vm.gc.place_string(&b"count".to_vec());
    chunk.add_constant(Value::Obj(name));
    let function =
        vm.gc.place(ObjData::Function(ObjFunction { arity: 0, upvalue_count: 0, chunk, name: None }));
    assert!(vm.load(function).is_none());
    match vm.run(100) {
        Signal::Native { function, args } => {
            assert_eq!(function, 7);
            assert_eq!(args, vec![Value::Bool(true), Value::Nil]);
        }
        other => panic!("unexpected {:?}", other),
    }
    assert_eq!(vm.stack.len(), 1);
    assert!(vm.resume(number(2.0)).is_none());
    assert_eq!(vm.peek(0), number(2.0));
    assert!(matches!(vm.run(100), Signal::Done));
}

#[test]
fn the_machine_collects_what_it_no_longer_holds() {
    let mut vm = machine(
        vec![
            b(Op::Constant), 0, b(Op::Constant), 1, b(Op::Add), b(Op::Pop),
            b(Op::Constant), 0, b(Op::Constant), 0, b(Op::Add), b(Op::Return),
        ],
        vec![],
    );
    let a = vm.gc.place_string(&b"a".to_vec());
    let bee = vm.gc.place_string(&b"b".to_vec());
    let frame = *vm.frames.get(0);
    let function = vm.gc.heap.closure(frame.closure).unwrap().function;
    let mut patched = ObjFunction::new();
    for byte in vm.gc.heap.function(function).unwrap().chunk.bytecode.clone() {
        patched.chunk.push(byte, 1);
    }
    patched.chunk.add_constant(Value::Obj(a));
    patched.chunk.add_constant(Value::Obj(bee));
    assert!(vm.gc.heap.set_function(function, patched));
    vm.gc.stress = true;
    for _ in 0..4 {
        assert!(vm.step().is_none());
    }
    let ab = vm.gc.heap.lookup_string(&b"ab".to_vec());
    assert!(ab.is_some());
    for _ in 0..3 {
        assert!(vm.step().is_none());
    }
    assert!(vm.gc.heap.lookup_string(&b"aa".to_vec()).is_some());
    assert_eq!(vm.gc.heap.lookup_string(&b"ab".to_vec()), None);
    assert!(vm.gc.heap.get(a).is_some());
    assert!(vm.gc.heap.get(bee).is_some());
    assert!(vm.gc.heap.lookup_string(&b"init".to_vec()).is_some());
}

#[test]
fn a_call_that_is_refused_leaves_the_machine_as_it_was() {
    let mut vm = machine(vec![b(Op::Nil), b(Op::Return)], vec![]);
    let closure = vm.frames.get(0).closure;
    vm.push(number(1.0));
    let stack = vm.stack.len();
    let signal = vm.call_value(number(3.0), 0, 2).unwrap();
    assert!(matches!(kind_of(signal), RuntimeErrorKind::NotCallable));
    assert_eq!(vm.stack.len(), stack);
    assert_eq!(vm.frames.len(), 1);
    assert_eq!(vm.frames.get(0).ip, 0);
    vm.push(Value::Obj(closure));
    vm.push(number(2.0));
    let signal = vm.call(closure, 1, 2).unwrap();
    assert!(matches!(kind_of(signal), RuntimeErrorKind::Arity { expected: 0, got: 1 }));
    assert_eq!(vm.stack.len(), stack + 2);
    assert_eq!(vm.peek(0), number(2.0));
    assert_eq!(vm.frames.len(), 1);
    assert_eq!(vm.frames.get(0).ip, 0);
}

#[test]
fn a_call_pushes_a_frame_beneath_the_arguments() {
    let mut vm = machine(vec![b(Op::Nil), b(Op::Return)], vec![]);
    let closure = vm.frames.get(0).closure;
    vm.push(Value::Obj(closure));
    assert!(vm.call(closure, 0, 2).is_none());
    assert_eq!(vm.frames.len(), 2);
    assert_eq!(vm.frames.get(0).ip, 2);
    let frame: CallFrame = *vm.frames.get(1);
    assert_eq!(frame.ip, 0);
    assert_eq!(frame.slots, 1);
    assert_eq!(frame.closure, closure);
    assert_eq!(vm.stack.len(), 2);
}

#[test]
fn an_instruction_whose_call_is_refused_stops_the_program() {
    let mut vm = machine(vec![b(Op::Nil), b(Op::Call), 0, b(Op::Return)], vec![]);
    assert!(vm.step().is_none());
    let signal = vm.step().unwrap();
    assert!(matches!(kind_of(signal), RuntimeErrorKind::NotCallable));
    assert_eq!(vm.stack.len(), 0);
    assert_eq!(vm.frames.len(), 0);
}
