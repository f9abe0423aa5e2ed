use basilisk_cpython::dict::PyDict;
use basilisk_cpython::object::{PyError, PyObjectRef};
use basilisk_cpython::runtime::Runtime;

#[test]
fn set_and_get_by_string_key() {
    let mut rt = Runtime::new();
    let d = PyDict::new(&mut rt).unwrap();
    let v = PyObjectRef::from_i64(&mut rt, 5).unwrap();
    let vid = v.as_ptr();
    d.set_item_str(&mut rt, "a", &v).unwrap();
    assert_eq!(rt.refcount(vid), 2);
    assert_eq!(d.len(&rt), 1);
    let got = d.get_item_str(&mut rt, "a").unwrap();
    assert_eq!(got.as_ptr(), vid);
    assert_eq!(rt.refcount(vid), 3);
}

#[test]
fn replacing_a_value_releases_the_old_one() {
    let mut rt = Runtime::new();
    let d = PyDict::new(&mut rt).unwrap();
    let v1 = PyObjectRef::from_i64(&mut rt, 1).unwrap();
    let v2 = PyObjectRef::from_i64(&mut rt, 2).unwrap();
    d.set_item_str(&mut rt, "k", &v1).unwrap();
    d.set_item_str(&mut rt, "k", &v2).unwrap();
    assert_eq!(d.len(&rt), 1);
    assert_eq!(rt.refcount(v1.as_ptr()), 1);
    assert_eq!(rt.refcount(v2.as_ptr()), 2);
    assert_eq!(d.get_item_str(&mut rt, "k").unwrap().as_ptr(), v2.as_ptr());
}

#[test]
fn missing_string_key_is_absent_and_leaves_nothing_pending() {
    let mut rt = Runtime::new();
    let d = PyDict::new(&mut rt).unwrap();
    PyError::new("ValueError", "earlier").restore(&mut rt);
    assert!(d.get_item_str(&mut rt, "missing").is_none());
    assert!(rt.pending.is_none());
}

#[test]
fn missing_object_key_is_a_key_error_and_leaves_nothing_pending() {
    let mut rt = Runtime::new();
    let d = PyDict::new(&mut rt).unwrap();
    let key = PyObjectRef::from_str(&mut rt, "missing").unwrap();
    PyError::new("ValueError", "earlier").restore(&mut rt);
    let e = d.get_item(&mut rt, &key).unwrap_err();
    assert_eq!(e.kind, "KeyError");
    assert!(rt.pending.is_none());
}

#[test]
fn object_keys_must_be_strings() {
    let mut rt = Runtime::new();
    let d = PyDict::new(&mut rt).unwrap();
    let k = PyObjectRef::from_i64(&mut rt, 1).unwrap();
    let v = PyObjectRef::none();
    assert_eq!(d.set_item(&mut rt, &k, &v).unwrap_err().kind, "TypeError");
    let sk = PyObjectRef::from_str(&mut rt, "one").unwrap();
    d.set_item(&mut rt, &sk, &v).unwrap();
    assert!(d.contains(&rt, &sk));
    assert!(!d.contains(&rt, &k));
    assert_eq!(d.get_item(&mut rt, &sk).unwrap().as_ptr(), v.as_ptr());
}

#[test]
fn iteration_in_insertion_order_and_restartable() {
    let mut rt = Runtime::new();
    let d = PyDict::new(&mut rt).unwrap();
    let a = PyObjectRef::from_i64(&mut rt, 1).unwrap();
    let b = PyObjectRef::from_i64(&mut rt, 2).unwrap();
    d.set_item_str(&mut rt, "x", &a).unwrap();
    d.set_item_str(&mut rt, "y", &b).unwrap();
    let mut it = d.iter();
    let (k1, v1) = it.next(&mut rt).unwrap();
    assert_eq!(k1.extract_str(&rt).unwrap(), "x");
    assert_eq!(v1.as_ptr(), a.as_ptr());
    let (k2, v2) = it.next(&mut rt).unwrap();
    assert_eq!(k2.extract_str(&rt).unwrap(), "y");
    assert_eq!(v2.as_ptr(), b.as_ptr());
    assert!(it.next(&mut rt).is_none());
    let mut again = d.iter();
    let (k, _) = again.next(&mut rt).unwrap();
    assert_eq!(k.extract_str(&rt).unwrap(), "x");
    assert!(!d.is_empty(&rt));
}
