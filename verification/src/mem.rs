//! Memory: references to heap objects, the bounded and keyed collections the
//! machine is built from, and the collector.

pub mod collector;
pub mod gc;
pub mod gc_map;
pub mod gc_ptr;
pub mod gc_ref;
pub mod inline_vec;

pub use self::collector::Gc;
pub use self::collector::GcRoot;
pub use self::collector::GrayStack;
pub use self::gc::GarbageCollector;
pub use self::gc_map::GcMap;
pub use self::gc_ptr::GcPtr;
pub use self::gc_ref::GcRef;
pub use self::inline_vec::InlineVec;
