use basilisk_cpython::convert::{
    try_from_vm_value, try_from_vm_value_generic_array, try_into_vm_value,
    try_into_vm_value_generic_array, variant_from_py_object, variant_into_py_object, Bytes,
    TryFromPyObject, TryIntoPyObject,
};
use basilisk_cpython::dict::PyDict;
use basilisk_cpython::object::PyObjectRef;
use basilisk_cpython::runtime::{PyValue, Runtime, NONE_ID};
use basilisk_cpython::tuple::PyTuple;

fn round_trip<T: TryIntoPyObject + TryFromPyObject>(rt: &mut Runtime, v: T) -> T {
    let obj = try_into_vm_value(v, rt).unwrap_or_else(|_| panic!("into failed"));
    try_from_vm_value::<T>(obj, rt).unwrap()
}

#[test]
fn unit_round_trip() {
    let mut rt = Runtime::new();
    let obj = ().try_into_py_object(&mut rt).unwrap_or_else(|_| panic!("into failed"));
    assert_eq!(obj.as_ptr(), NONE_ID);
    assert_eq!(round_trip(&mut rt, ()), ());
}

#[test]
fn u8_max_round_trips() {
    let mut rt = Runtime::new();
    assert_eq!(round_trip(&mut rt, 255u8), 255u8);
}

#[test]
fn primitive_round_trips() {
    let mut rt = Runtime::new();
    assert_eq!(round_trip(&mut rt, true), true);
    assert_eq!(round_trip(&mut rt, false), false);
    assert_eq!(round_trip(&mut rt, i8::MIN), i8::MIN);
    assert_eq!(round_trip(&mut rt, i16::MAX), i16::MAX);
    assert_eq!(round_trip(&mut rt, -123456i32), -123456i32);
    assert_eq!(round_trip(&mut rt, i64::MIN), i64::MIN);
    assert_eq!(round_trip(&mut rt, u16::MAX), u16::MAX);
    assert_eq!(round_trip(&mut rt, u32::MAX), u32::MAX);
    assert_eq!(round_trip(&mut rt, u64::MAX), u64::MAX);
    assert_eq!(round_trip(&mut rt, 5i128), 5i128);
    assert_eq!(round_trip(&mut rt, 5u128), 5u128);
    assert_eq!(round_trip(&mut rt, "héllo".to_string()), "héllo");
}

#[test]
fn str_slices_convert_to_str_objects() {
    let mut rt = Runtime::new();
    let obj = "abc".try_into_py_object(&mut rt).unwrap_or_else(|_| panic!("into failed"));
    assert_eq!(obj.extract_str(&rt).unwrap(), "abc");
}

#[test]
fn wide_integers_keep_their_low_64_bits() {
    let mut rt = Runtime::new();
    assert_eq!(round_trip(&mut rt, u128::MAX), u64::MAX as u128);
    assert_eq!(round_trip(&mut rt, i128::MAX), -1i128);
    assert_eq!(round_trip(&mut rt, (1u128 << 64) + 3), 3u128);
}

#[test]
fn narrowing_reads_truncate() {
    let mut rt = Runtime::new();
    let obj = PyObjectRef::from_i64(&mut rt, 300).unwrap();
    assert_eq!(u8::try_from_py_object(obj, &mut rt).unwrap(), 44u8);
}

#[test]
fn bytes_round_trip() {
    let mut rt = Runtime::new();
    let obj = Bytes(vec![0, 1, 255]).try_into_py_object(&mut rt).unwrap_or_else(|_| panic!("into failed"));
    match &rt.objects[obj.as_ptr()].value {
        PyValue::Bytes(b) => assert_eq!(b, &vec![0u8, 1, 255]),
        _ => panic!("not bytes"),
    }
    assert_eq!(Bytes::try_from_py_object(obj, &mut rt).unwrap().0, vec![0u8, 1, 255]);
}

#[test]
fn options_round_trip() {
    let mut rt = Runtime::new();
    assert_eq!(round_trip(&mut rt, Some(7i32)), Some(7i32));
    assert_eq!(round_trip(&mut rt, None::<i32>), None);
    assert_eq!(round_trip(&mut rt, Some(Some(false))), Some(Some(false)));
}

#[test]
fn some_of_none_reads_back_as_none() {
    let mut rt = Runtime::new();
    assert_eq!(round_trip(&mut rt, Some(None::<u8>)), None);
    assert_eq!(round_trip(&mut rt, Some(())), None);
}

#[test]
fn lists_round_trip() {
    let mut rt = Runtime::new();
    let v = vec![vec![1u16, 2], vec![], vec![3]];
    assert_eq!(round_trip(&mut rt, v.clone()), v);
    let w = vec![Some("a".to_string()), None];
    assert_eq!(round_trip(&mut rt, w.clone()), w);
    let obj = try_into_vm_value_generic_array(vec![4i64, 5], &mut rt).unwrap_or_else(|_| panic!("into failed"));
    assert_eq!(obj.sequence_len(&rt).unwrap(), 2);
    assert_eq!(try_from_vm_value_generic_array::<i64>(obj, &mut rt).unwrap(), vec![4i64, 5]);
}

#[test]
fn tuples_read_as_lists() {
    let mut rt = Runtime::new();
    let a = PyObjectRef::from_i64(&mut rt, 1).unwrap();
    let b = PyObjectRef::from_i64(&mut rt, 2).unwrap();
    let t = PyTuple::new(&mut rt, vec![a, b]).unwrap();
    assert_eq!(Vec::<i8>::try_from_py_object(t.into_object(), &mut rt).unwrap(), vec![1i8, 2]);
}

#[test]
fn list_read_stops_at_the_first_bad_item() {
    let mut rt = Runtime::new();
    let obj = vec!["x".to_string()].try_into_py_object(&mut rt).unwrap_or_else(|_| panic!("into failed"));
    assert_eq!(Vec::<u32>::try_from_py_object(obj, &mut rt).unwrap_err().kind, "TypeError");
    let n = PyObjectRef::from_i64(&mut rt, 3).unwrap();
    assert_eq!(Vec::<u32>::try_from_py_object(n, &mut rt).unwrap_err().kind, "TypeError");
    let neg = vec![-1i32].try_into_py_object(&mut rt).unwrap_or_else(|_| panic!("into failed"));
    assert_eq!(Vec::<u32>::try_from_py_object(neg, &mut rt).unwrap_err().kind, "OverflowError");
}

#[test]
fn variant_round_trip_status_error() {
    let mut rt = Runtime::new();
    let payload = "boom".try_into_py_object(&mut rt).unwrap_or_else(|_| panic!("into failed"));
    let obj = variant_into_py_object(&mut rt, "Error", payload).unwrap_or_else(|_| panic!("into failed"));
    match &rt.objects[obj.as_ptr()].value {
        PyValue::Dict(entries) => {
            assert_eq!(entries.len(), 1);
            assert_eq!(entries[0].key, "Error");
        }
        _ => panic!("not a dict"),
    }
    let names = vec!["Ok".to_string(), "Error".to_string()];
    let (which, item) = variant_from_py_object(&mut rt, &obj, &names).unwrap();
    assert_eq!(which, 1);
    assert_eq!(String::try_from_py_object(item, &mut rt).unwrap(), "boom");
}

#[test]
fn unit_variant_holds_none() {
    let mut rt = Runtime::new();
    let obj = variant_into_py_object(&mut rt, "Idle", PyObjectRef::none()).unwrap_or_else(|_| panic!("into failed"));
    let names = vec!["Busy".to_string(), "Idle".to_string()];
    let (which, item) = variant_from_py_object(&mut rt, &obj, &names).unwrap();
    assert_eq!(which, 1);
    assert!(item.is_none());
}

#[test]
fn variant_keys_are_tried_in_declaration_order() {
    let mut rt = Runtime::new();
    let d = PyDict::new(&mut rt).unwrap();
    let a = PyObjectRef::from_i64(&mut rt, 1).unwrap();
    let b = PyObjectRef::from_i64(&mut rt, 2).unwrap();
    d.set_item_str(&mut rt, "B", &b).unwrap();
    d.set_item_str(&mut rt, "A", &a).unwrap();
    let obj = d.into_object();
    let (which, item) = variant_from_py_object(&mut rt, &obj, &vec!["A".to_string(), "B".to_string()]).unwrap();
    assert_eq!((which, item.as_ptr()), (0, a.as_ptr()));
    let (which, item) = variant_from_py_object(&mut rt, &obj, &vec!["B".to_string(), "A".to_string()]).unwrap();
    assert_eq!((which, item.as_ptr()), (0, b.as_ptr()));
}

#[test]
fn unknown_variant_is_a_type_error() {
    let mut rt = Runtime::new();
    let d = PyDict::new(&mut rt).unwrap();
    let obj = d.into_object();
    let e = variant_from_py_object(&mut rt, &obj, &vec!["A".to_string()]).unwrap_err();
    assert_eq!(e.kind, "TypeError");
    assert_eq!(e.message, "Enum variant does not exist");
}

#[test]
fn named_record_through_a_dict() {
    let mut rt = Runtime::new();
    let d = PyDict::new(&mut rt).unwrap();
    let name = "ada".try_into_py_object(&mut rt).unwrap_or_else(|_| panic!("into failed"));
    let age = 36u8.try_into_py_object(&mut rt).unwrap_or_else(|_| panic!("into failed"));
    d.set_item_str(&mut rt, "name", &name).unwrap();
    d.set_item_str(&mut rt, "age", &age).unwrap();
    name.release(&mut rt);
    age.release(&mut rt);
    let obj = d.into_object();
    let n = obj.get_item_str(&mut rt, "name").unwrap();
    let a = obj.get_item_str(&mut rt, "age").unwrap();
    assert_eq!(String::try_from_py_object(n, &mut rt).unwrap(), "ada");
    assert_eq!(u8::try_from_py_object(a, &mut rt).unwrap(), 36);
    assert_eq!(obj.get_item_str(&mut rt, "missing").unwrap_err().kind, "KeyError");
}

#[test]
fn positional_record_through_a_tuple() {
    let mut rt = Runtime::new();
    let x = 1i32.try_into_py_object(&mut rt).unwrap_or_else(|_| panic!("into failed"));
    let y = "two".try_into_py_object(&mut rt).unwrap_or_else(|_| panic!("into failed"));
    let t = PyTuple::new(&mut rt, vec![x, y]).unwrap();
    let f0 = t.get(&mut rt, 0).unwrap();
    let f1 = t.get(&mut rt, 1).unwrap();
    assert_eq!(i32::try_from_py_object(f0, &mut rt).unwrap(), 1);
    assert_eq!(String::try_from_py_object(f1, &mut rt).unwrap(), "two");
    assert!(t.get(&mut rt, 2).is_none());
}

#[test]
fn pairs_round_trip_as_tuples() {
    let mut rt = Runtime::new();
    let v = (1i32, "two".to_string());
    let obj = v.clone().try_into_py_object(&mut rt).unwrap_or_else(|_| panic!("into failed"));
    match &rt.objects[obj.as_ptr()].value {
        PyValue::Tuple(items) => assert_eq!(items.len(), 2),
        _ => panic!("not a tuple"),
    }
    assert_eq!(<(i32, String)>::try_from_py_object(obj, &mut rt).unwrap(), v);
    let nested = ((7u8, true), vec![Some(1u64), None]);
    assert_eq!(round_trip(&mut rt, nested.clone()), nested);
}

#[test]
fn pair_from_a_short_or_wrong_object_is_an_index_error() {
    let mut rt = Runtime::new();
    let list = vec![1i32, 2].try_into_py_object(&mut rt).unwrap_or_else(|_| panic!("into failed"));
    assert_eq!(<(i32, i32)>::try_from_py_object(list, &mut rt).unwrap_err().kind, "IndexError");
    let one = PyObjectRef::from_i64(&mut rt, 1).unwrap();
    let t = PyTuple::new(&mut rt, vec![one]).unwrap();
    assert_eq!(<(i32, i32)>::try_from_py_object(t.into_object(), &mut rt).unwrap_err().kind, "IndexError");
    let a = PyObjectRef::from_str(&mut rt, "a").unwrap();
    let b = PyObjectRef::from_i64(&mut rt, 2).unwrap();
    let t = PyTuple::new(&mut rt, vec![a, b]).unwrap();
    assert_eq!(<(i32, i32)>::try_from_py_object(t.into_object(), &mut rt).unwrap_err().kind, "TypeError");
}

#[test]
fn outcome_round_trips() {
    let mut rt = Runtime::new();
    let ok: Result<(), String> = Ok(());
    let err: Result<(), String> = Err("bad".to_string());
    assert_eq!(round_trip(&mut rt, ok.clone()), ok);
    assert_eq!(round_trip(&mut rt, err.clone()), err);
    let obj = err.try_into_py_object(&mut rt).unwrap_or_else(|_| panic!("into failed"));
    match &rt.objects[obj.as_ptr()].value {
        PyValue::Dict(entries) => {
            assert_eq!(entries.len(), 1);
            assert_eq!(entries[0].key, "Err");
        }
        _ => panic!("not a dict"),
    }
}

#[test]
fn outcome_err_is_checked_before_ok() {
    let mut rt = Runtime::new();
    let d = PyDict::new(&mut rt).unwrap();
    let none = PyObjectRef::none();
    let msg = PyObjectRef::from_str(&mut rt, "both").unwrap();
    d.set_item_str(&mut rt, "Ok", &none).unwrap();
    d.set_item_str(&mut rt, "Err", &msg).unwrap();
    let r = <Result<(), String>>::try_from_py_object(d.into_object(), &mut rt).unwrap();
    assert_eq!(r, Err("both".to_string()));
}

#[test]
fn outcome_from_other_objects_is_a_type_error() {
    let mut rt = Runtime::new();
    let n = PyObjectRef::from_i64(&mut rt, 1).unwrap();
    let e = <Result<(), String>>::try_from_py_object(n, &mut rt).unwrap_err();
    assert_eq!(e.kind, "TypeError");
    assert_eq!(e.message, "expected Result but received int");
    let d = PyDict::new(&mut rt).unwrap();
    let n = PyObjectRef::from_i64(&mut rt, 1).unwrap();
    d.set_item_str(&mut rt, "Err", &n).unwrap();
    let e = <Result<(), String>>::try_from_py_object(d.into_object(), &mut rt).unwrap_err();
    assert_eq!(e.kind, "TypeError");
}
