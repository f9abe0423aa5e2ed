use basilisk_cpython::backend::{python_backend_from, use_cpython, PythonBackend};
use basilisk_cpython::interpreter::{Interpreter, RunMode};
use basilisk_cpython::object::PyObjectRef;
use basilisk_cpython::runtime::Runtime;
use basilisk_cpython::text::{make_cstring, python_repr, CString};

#[test]
fn initialize_twice_sets_up_once() {
    let mut rt = Runtime::new();
    let first = Interpreter::initialize(&mut rt).unwrap();
    let g = first.globals_ptr();
    let objects = rt.objects.len();
    let count = rt.refcount(g);
    let second = Interpreter::initialize(&mut rt).unwrap();
    assert_eq!(second.globals_ptr(), g);
    assert_eq!(rt.objects.len(), objects);
    assert_eq!(rt.refcount(g), count + 1);
    let scope = second.new_scope(&mut rt);
    assert_eq!(scope.globals.as_ptr(), g);
    assert_eq!(rt.refcount(g), count + 2);
    second.release(&mut rt);
    assert_eq!(rt.refcount(g), count + 1);
    assert!(first.get_global(&mut rt, "__builtins__").is_ok());
}

#[test]
fn globals_set_and_get() {
    let mut rt = Runtime::new();
    let interp = Interpreter::initialize(&mut rt).unwrap();
    let v = PyObjectRef::from_i64(&mut rt, 42).unwrap();
    let vid = v.as_ptr();
    interp.set_global(&mut rt, "answer", v).unwrap();
    assert_eq!(rt.refcount(vid), 1);
    let got = interp.get_global(&mut rt, "answer").unwrap();
    assert_eq!(got.extract_i64(&rt).unwrap(), 42);
    let e = interp.get_global(&mut rt, "nope").unwrap_err();
    assert_eq!(e.kind, "KeyError");
    assert_eq!(e.message, "'nope'");
    let scope = interp.new_scope(&mut rt);
    assert_eq!(scope.get_global(&mut rt, "answer").unwrap().as_ptr(), vid);
    let w = PyObjectRef::from_str(&mut rt, "w").unwrap();
    scope.set_global(&mut rt, "w", w).unwrap();
    assert!(interp.get_global(&mut rt, "w").is_ok());
    let b = PyObjectRef::from_bool(true);
    interp.set_builtin(&mut rt, "flag", b).unwrap();
}

#[test]
fn code_to_run() {
    let mut rt = Runtime::new();
    let interp = Interpreter::initialize(&mut rt).unwrap();
    let run = interp.import_star("main");
    assert_eq!(run.source, "from main import *");
    assert!(matches!(run.mode, RunMode::File));
    assert_eq!(run.globals, interp.globals_ptr());
    assert!(matches!(interp.eval_expression("1 + 1").mode, RunMode::Eval));
    assert_eq!(interp.run_code_string("x = 1").source, "x = 1");
    let frozen = interp.add_frozen_source("m", "a = 'b'\n");
    assert!(frozen.source.contains("_mod = types.ModuleType(\"m\")"));
    assert!(frozen.source.contains("exec(compile('a = \\'b\\'\\n', \"<frozen m>\", \"exec\"), _mod.__dict__)"));
    assert!(frozen.source.contains("sys.modules[\"m\"] = _mod"));
}

#[test]
fn python_repr_escapes() {
    assert_eq!(python_repr("plain"), "'plain'");
    assert_eq!(python_repr("a'b\\c\n\r\t"), "'a\\'b\\\\c\\n\\r\\t'");
    assert_eq!(python_repr(""), "''");
}

#[test]
fn wide_chars_and_c_strings() {
    assert_eq!(Interpreter::str_to_wchar("aé"), vec![97, 233]);
    assert_eq!(make_cstring("hi").as_bytes_with_nul(), &[104u8, 105, 0]);
    assert_eq!(CString::new("").as_bytes_with_nul(), &[0u8]);
}

#[test]
fn backend_selection() {
    assert_eq!(python_backend_from(Some("CPython")), PythonBackend::CPython);
    assert_eq!(python_backend_from(Some("cpython3")), PythonBackend::RustPython);
    assert_eq!(python_backend_from(None), PythonBackend::RustPython);
    assert!(use_cpython(Some("CPYTHON")));
    assert!(!use_cpython(Some("rustpython")));
}
