use rlox::chunk::Chunk;
use rlox::chunk::Op;
use rlox::mem::gc_map::GcMap;
use rlox::mem::gc_ptr::GcPtr;
use rlox::mem::gc_ref::GcRef;
use rlox::mem::inline_vec::InlineVec;
use rlox::text::append_decimal;
use rlox::text::bytes_eq;
use rlox::text::copy_range;
use rlox::value::negate_number;
use rlox::value::number_is_nan;
use rlox::value::numbers_equal;
use rlox::value::numbers_less;
use rlox::value::Value;
use rlox::value::ValueKind;

fn samples() -> Vec<f64> {
    vec![
        0.0,
        -0.0,
        1.0,
        -1.0,
        0.5,
        -0.5,
        1.0e308,
        -1.0e308,
        5.0e-324,
        -5.0e-324,
        f64::INFINITY,
        f64::NEG_INFINITY,
        f64::NAN,
        -f64::NAN,
        f64::MAX,
        f64::MIN,
        f64::MIN_POSITIVE,
        3.141592653589793,
        -2.718281828459045,
    ]
}

#[test]
fn numbers_are_ordered_as_doubles_are() {
    for a in samples() {
        for b in samples() {
            assert_eq!(numbers_less(a.to_bits(), b.to_bits()), a < b, "{a} < {b}");
            assert_eq!(numbers_equal(a.to_bits(), b.to_bits()), a == b, "{a} == {b}");
        }
    }
}

#[test]
fn negation_flips_the_sign_and_nothing_else() {
    for a in samples() {
        assert_eq!(negate_number(a.to_bits()), (-a).to_bits(), "-{a}");
        assert_eq!(number_is_nan(a.to_bits()), a.is_nan());
    }
}

#[test]
fn values_of_different_kinds_are_never_equal() {
    let one = Value::Number(1.0f64.to_bits());
    let values = [Value::Nil, Value::Bool(true), Value::Bool(false), one, Value::Obj(GcRef::new_raw(1))];
    for (i, a) in values.iter().enumerate() {
        for (j, b) in values.iter().enumerate() {
            assert_eq!(a == b, i == j);
        }
    }
    assert!(Value::Obj(GcRef::new_raw(3)) == Value::Obj(GcRef::new_raw(3)));
    assert!(Value::Obj(GcRef::new_raw(3)) != Value::Obj(GcRef::new_raw(4)));
    let nan = Value::Number(f64::NAN.to_bits());
    assert!(nan != nan);
}

#[test]
fn only_nil_and_false_are_falsey() {
    assert!(Value::Nil.is_falsey());
    assert!(Value::Bool(false).is_falsey());
    assert!(!Value::Bool(true).is_falsey());
    assert!(!Value::Number(0).is_falsey());
    assert!(!Value::Obj(GcRef::new_raw(0)).is_falsey());
}

#[test]
fn a_value_knows_its_kind_and_gives_up_its_payload() {
    let v = Value::Number(7);
    assert_eq!(v.kind(), ValueKind::Number);
    assert!(v.is_number() && !v.is_bool() && !v.is_nil() && !v.is_obj());
    assert_eq!(v.as_number(), Some(7));
    assert_eq!(v.as_bool(), None);
    assert_eq!(v.as_obj(), None);
    assert_eq!(Value::Bool(true).as_bool(), Some(true));
    assert_eq!(Value::Bool(true).kind(), ValueKind::Bool);
    assert_eq!(Value::Nil.kind(), ValueKind::Nil);
    assert!(Value::Nil.is_nil());
    let r = GcRef::new_raw(12);
    assert_eq!(r.as_ptr(), 12);
    assert_eq!(Value::Obj(r).as_obj(), Some(r));
    assert_eq!(Value::Obj(r).kind(), ValueKind::Obj);
    assert!(Value::Obj(r).is_obj());
}

#[test]
fn every_instruction_is_read_back_from_its_byte() {
    let mut seen = 0;
    for byte in 0..=255u8 {
        match Op::from_byte(byte) {
            Some(op) => {
                assert_eq!(op.to_byte(), byte);
                seen += 1;
            }
            None => assert!(byte > 36),
        }
    }
    assert_eq!(seen, 37);
    assert_eq!(Op::Closure.to_byte(), 0);
    assert_eq!(Op::Return.to_byte(), 9);
    assert_eq!(Op::Print.to_byte(), 36);
}

#[test]
fn a_chunk_keeps_a_line_for_every_byte() {
    let mut chunk = Chunk::new();
    chunk.push(3, 10);
    chunk.push(9, 11);
    assert_eq!(chunk.add_constant(Value::Nil), 0);
    assert_eq!(chunk.add_constant(Value::Bool(true)), 1);
    assert_eq!(chunk.bytecode, vec![3, 9]);
    assert_eq!(chunk.lines, vec![10, 11]);
    assert_eq!(chunk.constants.len(), 2);
}

#[test]
fn an_inline_vec_is_bounded() {
    let mut v: InlineVec<3, u8> = InlineVec::new();
    assert!(v.is_empty() && !v.is_full());
    assert_eq!(v.last(), None);
    assert_eq!(v.pop(), None);
    v.push(1);
    v.push(2);
    v.push(3);
    assert!(v.is_full());
    assert_eq!(v.len(), 3);
    assert_eq!(v.last(), Some(&3));
    assert_eq!(*v.get(1), 2);
    v.set(1, 9);
    assert_eq!(v.pop(), Some(3));
    v.pop_n(5);
    assert!(v.is_empty());
    v.push(4);
    v.push(5);
    v.pop_n(1);
    assert_eq!(v.items, vec![4]);
    v.clear();
    assert!(v.is_empty());
}

#[test]
fn a_map_holds_the_last_value_under_each_key() {
    let mut map: GcMap<u32> = GcMap::new();
    let a = GcRef::new_raw(1);
    let b = GcRef::new_raw(2);
    assert_eq!(map.get(a), None);
    assert_eq!(map.insert(a, 10), None);
    assert_eq!(map.insert(b, 20), None);
    assert_eq!(map.insert(a, 11), Some(10));
    assert_eq!(map.get(a), Some(11));
    assert_eq!(map.get(b), Some(20));
    let mut entries = map.entries();
    entries.sort();
    assert_eq!(entries, vec![(1, 11), (2, 20)]);
    assert_eq!(map.remove(a), Some(11));
    assert_eq!(map.remove(a), None);
    assert_eq!(map.get(a), None);
    assert_eq!(map.entries(), vec![(2, 20)]);
}

#[test]
fn a_pointer_is_unset_until_it_is_set() {
    let unset = GcPtr::null();
    assert!(unset.is_null());
    let set = GcPtr::new(GcRef::new_raw(5));
    assert!(!set.is_null());
    assert_eq!(set.get(), GcRef::new_raw(5));
}

#[test]
fn text_helpers() {
    assert!(bytes_eq(&b"abc".to_vec(), &b"abc".to_vec()));
    assert!(!bytes_eq(&b"abc".to_vec(), &b"abd".to_vec()));
    assert!(!bytes_eq(&b"abc".to_vec(), &b"ab".to_vec()));
    assert!(bytes_eq(&Vec::new(), &Vec::new()));
    assert_eq!(copy_range(&b"hello".to_vec(), 1, 4), b"ell".to_vec());
    assert_eq!(copy_range(&b"hello".to_vec(), 2, 2), Vec::<u8>::new());
    for (n, text) in [(0usize, "0"), (7, "7"), (10, "10"), (255, "255"), (1048576, "1048576")] {
        let mut out = b"n=".to_vec();
        append_decimal(&mut out, n);
        assert_eq!(String::from_utf8(out).unwrap(), format!("n={text}"));
    }
}
