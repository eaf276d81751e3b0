use vstd::prelude::*;
use crate::mem::gc_ref::GcRef;
use crate::obj::obj_bound_method::ObjBoundMethod;
use crate::obj::obj_class::ObjClass;
use crate::obj::obj_closure::ObjClosure;
use crate::obj::obj_function::ObjFunction;
use crate::obj::obj_instance::ObjInstance;
use crate::obj::obj_native::ObjNative;
use crate::obj::obj_string::ObjString;
use crate::obj::obj_upvalue::ObjUpvalue;
use crate::value::Value;

verus! {

/// The kind of a heap object.
#[derive(Clone, Copy, Debug, PartialEq, Eq, Structural)]
pub enum ObjType {
    BoundMethod,
    Class,
    Closure,
    Function,
    Instance,
    Native,
    String,
    Upvalue,
}

/// The header of every heap object: its kind, the collector's mark, and the
/// link that threads all live objects into one list.
#[derive(Clone, Copy, Debug)]
pub struct Obj {
    pub ty: ObjType,
    pub is_marked: bool,
    pub next: Option<GcRef>,
}

/// What an object holds, by kind.
pub enum ObjData {
    BoundMethod(ObjBoundMethod),
    Class(ObjClass),
    Closure(ObjClosure),
    Function(ObjFunction),
    Instance(ObjInstance),
    Native(ObjNative),
    String(ObjString),
    Upvalue(ObjUpvalue),
}

/// A heap object: header and payload.
pub struct Object {
    pub obj: Obj,
    pub data: ObjData,
}

/// What a payload holds, as mathematics: maps for the tables, sequences for
/// the vectors. The hash of a string is left out, as nothing depends on it.
#[allow(inconsistent_fields)]
pub ghost enum ObjView {
    BoundMethod { receiver: Value, method: GcRef },
    Class { name: GcRef, methods: Map<usize, GcRef> },
    Closure { function: GcRef, upvalues: Seq<GcRef> },
    Function {
        arity: usize,
        upvalue_count: usize,
        bytecode: Seq<u8>,
        lines: Seq<u32>,
        constants: Seq<Value>,
        name: Option<GcRef>,
    },
    Instance { klass: GcRef, fields: Map<usize, Value> },
    Native { function: usize },
    String { text: Seq<u8> },
    Upvalue { location: Option<usize>, closed: Value },
}

impl View for ObjData {
    type V = ObjView;

    open spec fn view(&self) -> ObjView {
        match self {
            ObjData::BoundMethod(b) => ObjView::BoundMethod {
                receiver: b.receiver,
                method: b.method,
            },
            ObjData::Class(c) => ObjView::Class { name: c.name, methods: c.methods@ },
            ObjData::Closure(c) => ObjView::Closure { function: c.function, upvalues: c.upvalues@ },
            ObjData::Function(f) => ObjView::Function {
                arity: f.arity,
                upvalue_count: f.upvalue_count,
                bytecode: f.chunk.bytecode@,
                lines: f.chunk.lines@,
                constants: f.chunk.constants@,
                name: f.name,
            },
            ObjData::Instance(i) => ObjView::Instance { klass: i.klass, fields: i.fields@ },
            ObjData::Native(n) => ObjView::Native { function: n.function },
            ObjData::String(s) => ObjView::String { text: s.text@ },
            ObjData::Upvalue(u) => ObjView::Upvalue { location: u.location, closed: u.closed },
        }
    }
}

impl ObjData {
    pub open spec fn ty_spec(&self) -> ObjType {
        match self {
            ObjData::BoundMethod(_) => ObjType::BoundMethod,
            ObjData::Class(_) => ObjType::Class,
            ObjData::Closure(_) => ObjType::Closure,
            ObjData::Function(_) => ObjType::Function,
            ObjData::Instance(_) => ObjType::Instance,
            ObjData::Native(_) => ObjType::Native,
            ObjData::String(_) => ObjType::String,
            ObjData::Upvalue(_) => ObjType::Upvalue,
        }
    }

    /// The kind of object this payload belongs to.
    pub fn ty(&self) -> (ty: ObjType)
        ensures
            ty == self.ty_spec(),
    {
        match self {
            ObjData::BoundMethod(_) => ObjType::BoundMethod,
            ObjData::Class(_) => ObjType::Class,
            ObjData::Closure(_) => ObjType::Closure,
            ObjData::Function(_) => ObjType::Function,
            ObjData::Instance(_) => ObjType::Instance,
            ObjData::Native(_) => ObjType::Native,
            ObjData::String(_) => ObjType::String,
            ObjData::Upvalue(_) => ObjType::Upvalue,
        }
    }

    /// The bytes of a string payload; of any other payload, nothing.
    pub open spec fn text(&self) -> Option<Seq<u8>> {
        match self {
            ObjData::String(s) => Some(s.text@),
            _ => None,
        }
    }
}

} // verus!
