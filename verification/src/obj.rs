//! Heap objects: a header that every object carries, and one payload for
//! each of the eight kinds.

pub mod obj;
pub mod obj_bound_method;
pub mod obj_class;
pub mod obj_closure;
pub mod obj_function;
pub mod obj_instance;
pub mod obj_native;
pub mod obj_string;
pub mod obj_upvalue;

pub use self::obj::Obj;
pub use self::obj::ObjData;
pub use self::obj::ObjType;
pub use self::obj::ObjView;
pub use self::obj::Object;
pub use self::obj_bound_method::ObjBoundMethod;
pub use self::obj_class::ObjClass;
pub use self::obj_closure::ObjClosure;
pub use self::obj_function::ObjFunction;
pub use self::obj_instance::ObjInstance;
pub use self::obj_native::ObjNative;
pub use self::obj_string::ObjString;
pub use self::obj_upvalue::ObjUpvalue;
