use basilisk_cpython::coroutine::{AsyncOp, CoroutineDriver, DriverAction, ResumeOutcome};
use basilisk_cpython::object::{PyError, PyObjectRef};
use basilisk_cpython::runtime::{Runtime, NONE_ID};
use basilisk_cpython::tuple::new_list;

fn stop(value: Option<PyObjectRef>) -> ResumeOutcome {
    ResumeOutcome::Raised(PyError { kind: "StopIteration".to_string(), message: String::new(), value })
}

#[test]
fn plain_value_is_the_result() {
    let mut rt = Runtime::new();
    let v = PyObjectRef::from_i64(&mut rt, 3).unwrap();
    let vid = v.as_ptr();
    let (d, action) = CoroutineDriver::start(v, false);
    assert!(!d.is_running());
    match action {
        DriverAction::Done(Ok(r)) => assert_eq!(r.as_ptr(), vid),
        _ => panic!("expected the value"),
    }
}

#[test]
fn nested_coroutines_take_two_n_plus_one_resumes() {
    for n in 0..5usize {
        let mut rt = Runtime::new();
        let c = PyObjectRef::from_str(&mut rt, "outer").unwrap();
        let v = PyObjectRef::from_i64(&mut rt, 99).unwrap();
        let vid = v.as_ptr();
        let (mut d, mut action) = CoroutineDriver::start(c, true);
        let mut resumes = 0usize;
        let mut awaited = 0usize;
        let mut pending_value = Some(v);
        let result;
        loop {
            match action {
                DriverAction::Resume { target, input } => {
                    resumes += 1;
                    assert_eq!(input.as_ptr(), NONE_ID);
                    let outcome = if rt.objects.len() > target && d.is_running() && awaited < n
                        && matches!(&rt.objects[target].value, basilisk_cpython::runtime::PyValue::Str(s) if s == "outer")
                    {
                        awaited += 1;
                        ResumeOutcome::Awaits(PyObjectRef::from_str(&mut rt, "inner").unwrap())
                    } else if matches!(&rt.objects[target].value, basilisk_cpython::runtime::PyValue::Str(s) if s == "inner") {
                        stop(None)
                    } else {
                        stop(pending_value.take())
                    };
                    action = d.on_resumed(&mut rt, outcome);
                }
                DriverAction::Done(r) => {
                    result = r;
                    break;
                }
                DriverAction::Perform { .. } => panic!("no operation was asked for"),
            }
        }
        assert_eq!(resumes, 2 * n + 1);
        assert_eq!(result.unwrap().as_ptr(), vid);
        assert!(!d.is_running());
    }
}

#[test]
fn requests_are_performed_and_resumed_with_the_result() {
    let mut rt = Runtime::new();
    let c = PyObjectRef::from_str(&mut rt, "c").unwrap();
    let cid = c.as_ptr();
    let (mut d, _) = CoroutineDriver::start(c, true);
    let args = new_list(&mut rt, vec![]);
    let action = d.on_resumed(&mut rt, ResumeOutcome::Requests { name: "call_with_payment128".to_string(), args });
    assert!(matches!(action, DriverAction::Perform { op: AsyncOp::CallWithPayment128, .. }));
    let result = PyObjectRef::from_i64(&mut rt, 1).unwrap();
    let rid = result.as_ptr();
    match d.on_call_settled(&mut rt, result) {
        DriverAction::Resume { target, input } => {
            assert_eq!(target, cid);
            assert_eq!(input.as_ptr(), rid);
        }
        _ => panic!("expected a resume"),
    }
}

#[test]
fn unknown_operation_is_a_system_error() {
    let mut rt = Runtime::new();
    let c = PyObjectRef::from_str(&mut rt, "c").unwrap();
    let (mut d, _) = CoroutineDriver::start(c, true);
    let args = new_list(&mut rt, vec![]);
    match d.on_resumed(&mut rt, ResumeOutcome::Requests { name: "teleport".to_string(), args }) {
        DriverAction::Done(Err(e)) => {
            assert_eq!(e.kind, "SystemError");
            assert_eq!(e.message, "async operation 'teleport' not supported");
        }
        _ => panic!("expected an error"),
    }
    assert!(!d.is_running());
}

#[test]
fn other_exceptions_end_the_drive() {
    let mut rt = Runtime::new();
    let c = PyObjectRef::from_str(&mut rt, "c").unwrap();
    let (mut d, _) = CoroutineDriver::start(c, true);
    let inner = PyObjectRef::from_str(&mut rt, "i").unwrap();
    let _ = d.on_resumed(&mut rt, ResumeOutcome::Awaits(inner));
    let raised = ResumeOutcome::Raised(PyError::new("ValueError", "no"));
    match d.on_resumed(&mut rt, raised) {
        DriverAction::Done(Err(e)) => assert_eq!(e.to_rust_err_string(), "ValueError: no"),
        _ => panic!("expected the error"),
    }
    assert!(!d.is_running());
}

#[test]
fn finished_without_value_gives_none() {
    let mut rt = Runtime::new();
    let c = PyObjectRef::from_str(&mut rt, "c").unwrap();
    let (mut d, _) = CoroutineDriver::start(c, true);
    match d.on_resumed(&mut rt, stop(None)) {
        DriverAction::Done(Ok(v)) => assert!(v.is_none()),
        _ => panic!("expected None"),
    }
}

#[test]
fn operation_names() {
    assert_eq!(AsyncOp::from_name("call"), Some(AsyncOp::Call));
    assert_eq!(AsyncOp::from_name("call_with_payment"), Some(AsyncOp::CallWithPayment));
    assert_eq!(AsyncOp::from_name("call_raw"), Some(AsyncOp::CallRaw));
    assert_eq!(AsyncOp::from_name("call_raw128"), Some(AsyncOp::CallRaw128));
    assert_eq!(AsyncOp::from_name("notify"), None);
}
