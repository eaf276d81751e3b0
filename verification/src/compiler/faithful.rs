use vstd::prelude::*;
use crate::compiler::model::ConstView;
use crate::compiler::model::FunctionView;
use crate::mem::collector::reachable;
use crate::mem::collector::refers_to;
use crate::mem::gc::slot_live;
use crate::mem::gc::slot_object;
use crate::mem::gc_ref::GcRef;
use crate::obj::obj::Object;
use crate::obj::obj::ObjType;
use crate::value::Value;

verus! {

/// In the heap `slots`, the reference `name`, if there is one, is to the
/// string with the text `text`.
pub open spec fn named(slots: Seq<Option<Object>>, name: Option<GcRef>, text: Option<Seq<u8>>) -> bool {
    match text {
        Some(text) => name.is_some() && slot_live(slots, name.unwrap().index as int)
            && slot_object(slots, name.unwrap().index as int).data.text() == Some(text),
        None => name.is_none(),
    }
}

/// In the heap `slots`, the value `value` is the constant `constant`: the
/// number that `parse_number` makes of the text, the string with the
/// text, or a function with the code and with constants that are the
/// constants of `constant` in turn.
pub open spec fn represents<F: Fn(&Vec<u8>) -> u64>(
    slots: Seq<Option<Object>>,
    parse_number: F,
    value: Value,
    constant: ConstView,
) -> bool
    decreases constant,
{
    match constant {
        ConstView::Number(text) => value is Number && exists|written: Vec<u8>|
            written@ == text && #[trigger] call_ensures(
                parse_number,
                (&written,),
                value->Number_0,
            ),
        ConstView::Text(text) => value is Obj && slot_live(slots, value->Obj_0.index as int)
            && slot_object(slots, value->Obj_0.index as int).data.text() == Some(text),
        ConstView::Function(function) => value is Obj && slot_live(
            slots,
            value->Obj_0.index as int,
        ) && ({
            let data = slot_object(slots, value->Obj_0.index as int).data@;
            &&& data is Function
            &&& named(slots, data->Function_name, function.name)
            &&& data->Function_bytecode == function.code
            &&& data->Function_lines == function.lines
            &&& data->Function_arity == function.arity
            &&& data->Function_upvalue_count == function.upvalues
            &&& data->Function_constants.len() == function.consts.len()
            &&& forall|j: int|
                0 <= j < function.consts.len() ==> represents(
                    slots,
                    parse_number,
                    data->Function_constants[j],
                    #[trigger] function.consts[j],
                )
        }),
    }
}

/// The values `values` are the constants `constants`, one for one.
pub open spec fn all_represented<F: Fn(&Vec<u8>) -> u64>(
    slots: Seq<Option<Object>>,
    parse_number: F,
    values: Seq<Value>,
    constants: Seq<ConstView>,
) -> bool {
    &&& values.len() == constants.len()
    &&& forall|j: int|
        0 <= j < constants.len() ==> represents(
            slots,
            parse_number,
            values[j],
            #[trigger] constants[j],
        )
}

/// A value that is a constant in one heap is that constant in every heap
/// that holds the objects of the first as they are.
pub proof fn lemma_represented_when_kept<F: Fn(&Vec<u8>) -> u64>(
    before: Seq<Option<Object>>,
    after: Seq<Option<Object>>,
    parse_number: F,
    value: Value,
    constant: ConstView,
)
    requires
        represents(before, parse_number, value, constant),
        forall|i: int| #[trigger]
            slot_live(before, i) ==> slot_live(after, i) && slot_object(after, i).data
                == slot_object(before, i).data,
    ensures
        represents(after, parse_number, value, constant),
    decreases constant,
{
    match constant {
        ConstView::Function(function) => {
            let data = slot_object(before, value->Obj_0.index as int).data@;
            assert(slot_live(before, value->Obj_0.index as int));
            if function.name.is_some() {
                assert(slot_live(before, data->Function_name.unwrap().index as int));
            }
            assert forall|j: int| 0 <= j < function.consts.len() implies represents(
                after,
                parse_number,
                data->Function_constants[j],
                #[trigger] function.consts[j],
            ) by {
                lemma_represented_when_kept(
                    before,
                    after,
                    parse_number,
                    data->Function_constants[j],
                    function.consts[j],
                );
            }
        },
        ConstView::Text(_) => {
            assert(slot_live(before, value->Obj_0.index as int));
        },
        ConstView::Number(_) => {},
    }
}

/// A value that a path leads to from the roots and that is a constant
/// is that constant in a heap that holds what paths lead to as it was.
pub proof fn lemma_represented_when_reached<F: Fn(&Vec<u8>) -> u64>(
    before: Seq<Option<Object>>,
    after: Seq<Option<Object>>,
    roots: Set<GcRef>,
    parse_number: F,
    value: Value,
    constant: ConstView,
)
    requires
        represents(before, parse_number, value, constant),
        value is Obj ==> reachable(before, roots, value->Obj_0),
        forall|r: GcRef| #[trigger]
            reachable(before, roots, r) ==> slot_live(after, r.index as int) && slot_object(
                after,
                r.index as int,
            ).data == slot_object(before, r.index as int).data,
    ensures
        represents(after, parse_number, value, constant),
    decreases constant,
{
    match constant {
        ConstView::Function(function) => {
            let r = value->Obj_0;
            let data = slot_object(before, r.index as int).data@;
            assert(reachable(before, roots, r));
            if function.name.is_some() {
                let name = data->Function_name.unwrap();
                assert(refers_to(data, name));
                crate::mem::collector::lemma_reachable_step(before, roots, r, name);
                assert(reachable(before, roots, name));
            }
            assert forall|j: int| 0 <= j < function.consts.len() implies represents(
                after,
                parse_number,
                data->Function_constants[j],
                #[trigger] function.consts[j],
            ) by {
                let inner = data->Function_constants[j];
                assert(represents(before, parse_number, inner, function.consts[j]));
                if inner is Obj {
                    assert(slot_live(before, inner->Obj_0.index as int));
                    assert(refers_to(data, inner->Obj_0));
                    crate::mem::collector::lemma_reachable_step(before, roots, r, inner->Obj_0);
                }
                lemma_represented_when_reached(
                    before,
                    after,
                    roots,
                    parse_number,
                    inner,
                    function.consts[j],
                );
            }
        },
        ConstView::Text(_) => {
            assert(reachable(before, roots, value->Obj_0));
        },
        ConstView::Number(_) => {},
    }
}

/// A value that is a constant stays that constant when a function
/// without code gets its code.
pub proof fn lemma_represented_when_installed<F: Fn(&Vec<u8>) -> u64>(
    before: Seq<Option<Object>>,
    after: Seq<Option<Object>>,
    installed: int,
    parse_number: F,
    value: Value,
    constant: ConstView,
)
    requires
        represents(before, parse_number, value, constant),
        slot_live(before, installed),
        slot_object(before, installed).data@ is Function,
        slot_object(before, installed).data@->Function_bytecode.len() == 0,
        forall|i: int| #[trigger]
            slot_live(before, i) && i != installed ==> slot_live(after, i) && slot_object(
                after,
                i,
            ).data == slot_object(before, i).data,
        well_ended(constant),
    ensures
        represents(after, parse_number, value, constant),
    decreases constant,
{
    match constant {
        ConstView::Function(function) => {
            let r = value->Obj_0;
            let data = slot_object(before, r.index as int).data@;
            assert(slot_live(before, r.index as int));
            assert(r.index != installed);
            if function.name.is_some() {
                assert(slot_live(before, data->Function_name.unwrap().index as int));
                assert(data->Function_name.unwrap().index != installed);
            }
            assert forall|j: int| 0 <= j < function.consts.len() implies represents(
                after,
                parse_number,
                data->Function_constants[j],
                #[trigger] function.consts[j],
            ) by {
                lemma_represented_when_installed(
                    before,
                    after,
                    installed,
                    parse_number,
                    data->Function_constants[j],
                    function.consts[j],
                );
            }
        },
        ConstView::Text(_) => {
            assert(slot_live(before, value->Obj_0.index as int));
        },
        ConstView::Number(_) => {},
    }
}

/// Every function in the constant `constant`, the functions among its
/// constants and so on, has code that is a run of whole instructions, the
/// last of them a `Return`; every constant an instruction names is among
/// the function's constants, which are at most 256.
pub open spec fn well_ended(constant: ConstView) -> bool
    decreases constant,
{
    match constant {
        ConstView::Function(function) => function.code.len() > 0
            && crate::compiler::driver::returns_last(function.code, function.consts.len() as int)
            && function.consts.len() <= crate::compiler::state::LIMIT && forall|j: int|
            0 <= j < function.consts.len() ==> well_ended(#[trigger] function.consts[j]),
        _ => true,
    }
}

} // verus!
