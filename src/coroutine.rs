use vstd::prelude::*;
use crate::runtime::{Runtime, NONE_ID};
use crate::object::{PyObjectRef, PyError};
use crate::text::push_char;

verus! {

/// The asynchronous operations that a coroutine can ask the host to perform.
#[derive(Clone, Copy, Debug, PartialEq, Eq, Structural)]
pub enum AsyncOp {
    Call,
    CallWithPayment,
    CallWithPayment128,
    CallRaw,
    CallRaw128,
}

/// The name by which a coroutine asks for the operation.
pub open spec fn op_name(op: AsyncOp) -> Seq<char> {
    match op {
        AsyncOp::Call => "call"@,
        AsyncOp::CallWithPayment => "call_with_payment"@,
        AsyncOp::CallWithPayment128 => "call_with_payment128"@,
        AsyncOp::CallRaw => "call_raw"@,
        AsyncOp::CallRaw128 => "call_raw128"@,
    }
}

/// The operation with this name, if any.
pub open spec fn op_named(name: Seq<char>) -> Option<AsyncOp> {
    if name == "call"@ {
        Some(AsyncOp::Call)
    } else if name == "call_with_payment"@ {
        Some(AsyncOp::CallWithPayment)
    } else if name == "call_with_payment128"@ {
        Some(AsyncOp::CallWithPayment128)
    } else if name == "call_raw"@ {
        Some(AsyncOp::CallRaw)
    } else if name == "call_raw128"@ {
        Some(AsyncOp::CallRaw128)
    } else {
        None
    }
}

impl AsyncOp {
    /// Decodes an operation name; absent for a name outside the closed set.
    pub fn from_name(name: &str) -> (r: Option<AsyncOp>)
        ensures
            r == op_named(name@),
    {
        let n = String::from_str(name);
        if n == String::from_str("call") {
            Some(AsyncOp::Call)
        } else if n == String::from_str("call_with_payment") {
            Some(AsyncOp::CallWithPayment)
        } else if n == String::from_str("call_with_payment128") {
            Some(AsyncOp::CallWithPayment128)
        } else if n == String::from_str("call_raw") {
            Some(AsyncOp::CallRaw)
        } else if n == String::from_str("call_raw128") {
            Some(AsyncOp::CallRaw128)
        } else {
            None
        }
    }
}

/// What resuming the current coroutine gave, as the host reports it.
pub enum ResumeOutcome {
    /// It yielded another coroutine, to be driven to completion first.
    Awaits(PyObjectRef),
    /// It yielded a request: the operation's name and its argument list.
    Requests { name: String, args: PyObjectRef },
    /// It raised; a `StopIteration` means that it finished.
    Raised(PyError),
}

/// What the host is to do next.
pub enum DriverAction {
    /// Resume the coroutine at `target` (the driver keeps its reference) with
    /// `input` (whose reference moves to the host).
    Resume { target: usize, input: PyObjectRef },
    /// Perform the operation with these arguments and report its result.
    Perform { op: AsyncOp, args: PyObjectRef },
    /// Driving is over, with the final value or the error.
    Done(Result<PyObjectRef, PyError>),
}

/// An event of the driver, by object ids.
pub enum Event {
    Awaits(int),
    Requests(Seq<char>, int),
    Raised(Seq<char>, Option<int>),
    Settled(int),
}

/// An action of the driver, by object ids; an error by its kind.
pub enum Step {
    Resume(int, int),
    Perform(AsyncOp, int),
    Finished(Result<int, Seq<char>>),
}

/// One transition over the stack of coroutines being driven, innermost last.
pub open spec fn step(stack: Seq<int>, ev: Event) -> (Seq<int>, Step) {
    if stack.len() == 0 {
        (stack, Step::Finished(Err("SystemError"@)))
    } else {
        match ev {
            Event::Awaits(c) => (stack.push(c), Step::Resume(c, NONE_ID as int)),
            Event::Requests(name, args) => match op_named(name) {
                Some(op) => (stack, Step::Perform(op, args)),
                None => (Seq::empty(), Step::Finished(Err("SystemError"@))),
            },
            Event::Raised(kind, value) => if kind == "StopIteration"@ {
                let v = match value {
                    Some(v) => v,
                    None => NONE_ID as int,
                };
                let rest = stack.drop_last();
                if rest.len() == 0 {
                    (rest, Step::Finished(Ok(v)))
                } else {
                    (rest, Step::Resume(rest.last(), v))
                }
            } else {
                (Seq::empty(), Step::Finished(Err(kind)))
            },
            Event::Settled(v) => (stack, Step::Resume(stack.last(), v)),
        }
    }
}

/// The steps that a sequence of events gives, and the stack it leaves.
pub open spec fn run(stack: Seq<int>, events: Seq<Event>) -> (Seq<int>, Seq<Step>)
    decreases events.len(),
{
    if events.len() == 0 {
        (stack, Seq::empty())
    } else {
        let (s1, a1) = step(stack, events[0]);
        let (s2, rest) = run(s1, events.skip(1));
        (s2, seq![a1] + rest)
    }
}

/// Every step of driving the coroutine `c` when its resumes give `events`: the
/// first resume that `start` asks for, then one step per event.
pub open spec fn drive(c: int, events: Seq<Event>) -> Seq<Step> {
    seq![Step::Resume(c, NONE_ID as int)] + run(seq![c], events).1
}

/// The number of resumes among the steps.
pub open spec fn resumes(steps: Seq<Step>) -> nat
    decreases steps.len(),
{
    if steps.len() == 0 {
        0
    } else {
        (if steps[0] is Resume {
            1nat
        } else {
            0nat
        }) + resumes(steps.skip(1))
    }
}

/// The events of a coroutine that awaits each of `subs` in turn (each finishing
/// at once, with no value) and then returns `v`.
pub open spec fn nested_events(subs: Seq<int>, v: int) -> Seq<Event>
    decreases subs.len(),
{
    if subs.len() == 0 {
        seq![Event::Raised("StopIteration"@, Some(v))]
    } else {
        seq![Event::Awaits(subs[0]), Event::Raised("StopIteration"@, None)] + nested_events(subs.skip(1), v)
    }
}

/// Drives coroutines on behalf of a host that performs the resumes and the
/// operations: the stack of coroutines under way, innermost last.
pub struct CoroutineDriver {
    stack: Vec<PyObjectRef>,
}

impl Event {
    pub open spec fn of_outcome(o: ResumeOutcome) -> Event {
        match o {
            ResumeOutcome::Awaits(c) => Event::Awaits(c.id()),
            ResumeOutcome::Requests { name, args } => Event::Requests(name@, args.id()),
            ResumeOutcome::Raised(e) => Event::Raised(
                e.kind@,
                match e.value {
                    Some(v) => Some(v.id()),
                    None => None,
                },
            ),
        }
    }

    pub open spec fn outcome_valid(rt: Runtime, o: ResumeOutcome) -> bool {
        match o {
            ResumeOutcome::Awaits(c) => rt.valid(c.id()),
            ResumeOutcome::Requests { name, args } => rt.valid(args.id()),
            ResumeOutcome::Raised(e) => e.value is Some ==> rt.valid(e.value->0.id()),
        }
    }
}

impl Step {
    pub open spec fn of_action(a: DriverAction) -> Step {
        match a {
            DriverAction::Resume { target, input } => Step::Resume(target as int, input.id()),
            DriverAction::Perform { op, args } => Step::Perform(op, args.id()),
            DriverAction::Done(r) => Step::Finished(
                match r {
                    Ok(v) => Ok(v.id()),
                    Err(e) => Err(e.kind@),
                },
            ),
        }
    }
}

impl CoroutineDriver {
    pub closed spec fn ids(&self) -> Seq<int> {
        self.stack@.map_values(|h: PyObjectRef| h.id())
    }

    /// Every coroutine under way is an object of `rt`.
    pub closed spec fn inv(&self, rt: Runtime) -> bool {
        forall|i: int| 0 <= i < self.stack@.len() ==> rt.valid(#[trigger] self.stack@[i].id())
    }

    /// Starts driving `obj`. A value that is no coroutine is the result at once;
    /// a coroutine is resumed first with `None`.
    pub fn start(obj: PyObjectRef, is_coroutine: bool) -> (r: (CoroutineDriver, DriverAction))
        ensures
            is_coroutine ==> r.0.ids() == seq![obj.id()] && Step::of_action(r.1) == Step::Resume(
                obj.id(),
                NONE_ID as int,
            ),
            !is_coroutine ==> r.0.ids().len() == 0 && Step::of_action(r.1) == Step::Finished(
                Ok(obj.id()),
            ),
    {
        if is_coroutine {
            let target = obj.as_ptr();
            let mut stack: Vec<PyObjectRef> = Vec::new();
            stack.push(obj);
            let d = CoroutineDriver { stack };
            assert(d.ids() =~= seq![obj.id()]);
            (d, DriverAction::Resume { target, input: PyObjectRef::none() })
        } else {
            let d = CoroutineDriver { stack: Vec::new() };
            assert(d.ids() =~= Seq::<int>::empty());
            (d, DriverAction::Done(Ok(obj)))
        }
    }

    /// Whether a coroutine is still under way.
    pub fn is_running(&self) -> (r: bool)
        ensures
            r == (self.ids().len() > 0),
    {
        self.stack.len() > 0
    }

    /// Takes the host's report of the last resume and says what to do next.
    pub fn on_resumed(&mut self, rt: &mut Runtime, outcome: ResumeOutcome) -> (r: DriverAction)
        requires
            old(rt).wf(),
            old(self).inv(*old(rt)),
            Event::outcome_valid(*old(rt), outcome),
        ensures
            final(rt).wf(),
            final(self).inv(*final(rt)),
            Runtime::values_kept(*old(rt), *final(rt)),
            (final(self).ids(), Step::of_action(r)) == step(old(self).ids(), Event::of_outcome(outcome)),
    {
        proof {
            self.lemma_ids_len();
        }
        if self.stack.len() == 0 {
            release_outcome(rt, outcome);
            return DriverAction::Done(Err(PyError::new("SystemError", "no coroutine is under way")));
        }
        match outcome {
            ResumeOutcome::Awaits(c) => {
                let target = c.as_ptr();
                self.stack.push(c);
                assert(self.ids() =~= old(self).ids().push(c.id()));
                DriverAction::Resume { target, input: PyObjectRef::none() }
            },
            ResumeOutcome::Requests { name, args } => {
                match AsyncOp::from_name(name.as_str()) {
                    Some(op) => DriverAction::Perform { op, args },
                    None => {
                        args.release(rt);
                        self.abandon(rt);
                        let mut msg = String::from_str("async operation ");
                        push_char(&mut msg, '\'');
                        msg.append(name.as_str());
                        push_char(&mut msg, '\'');
                        msg.append(" not supported");
                        DriverAction::Done(Err(PyError { kind: String::from_str("SystemError"), message: msg, value: None }))
                    },
                }
            },
            ResumeOutcome::Raised(e) => {
                if e.kind == String::from_str("StopIteration") {
                    let v = match e.value {
                        Some(v) => v,
                        None => PyObjectRef::none(),
                    };
                    let finished = self.stack.pop().unwrap();
                    finished.release(rt);
                    assert(self.ids() =~= old(self).ids().drop_last());
                    proof {
                        self.lemma_ids_len();
                    }
                    if self.stack.len() == 0 {
                        DriverAction::Done(Ok(v))
                    } else {
                        let target = self.stack[self.stack.len() - 1].as_ptr();
                        DriverAction::Resume { target, input: v }
                    }
                } else {
                    self.abandon(rt);
                    DriverAction::Done(Err(e))
                }
            },
        }
    }

    /// Takes the result of the operation that was performed and resumes the
    /// current coroutine with it.
    pub fn on_call_settled(&mut self, rt: &mut Runtime, result: PyObjectRef) -> (r: DriverAction)
        requires
            old(rt).wf(),
            old(self).inv(*old(rt)),
            old(rt).valid(result.id()),
        ensures
            final(rt).wf(),
            final(self).inv(*final(rt)),
            Runtime::values_kept(*old(rt), *final(rt)),
            (final(self).ids(), Step::of_action(r)) == step(old(self).ids(), Event::Settled(result.id())),
    {
        proof {
            self.lemma_ids_len();
        }
        if self.stack.len() == 0 {
            result.release(rt);
            return DriverAction::Done(Err(PyError::new("SystemError", "no coroutine is under way")));
        }
        let target = self.stack[self.stack.len() - 1].as_ptr();
        DriverAction::Resume { target, input: result }
    }

    proof fn lemma_ids_len(&self)
        ensures
            self.ids().len() == self.stack@.len(),
            forall|i: int| 0 <= i < self.stack@.len() ==> #[trigger] self.ids()[i] == self.stack@[i].id(),
    {
    }

    /// Releases every coroutine under way.
    fn abandon(&mut self, rt: &mut Runtime)
        requires
            old(rt).wf(),
            old(self).inv(*old(rt)),
        ensures
            final(rt).wf(),
            final(self).ids().len() == 0,
            final(self).inv(*final(rt)),
            Runtime::values_kept(*old(rt), *final(rt)),
    {
        while self.stack.len() > 0
            invariant
                rt.wf(),
                self.inv(*rt),
                Runtime::values_kept(*old(rt), *rt),
            decreases self.stack@.len(),
        {
            let h = self.stack.pop().unwrap();
            h.release(rt);
        }
        assert(self.ids() =~= Seq::<int>::empty());
    }
}

fn release_outcome(rt: &mut Runtime, outcome: ResumeOutcome)
    requires
        old(rt).wf(),
        Event::outcome_valid(*old(rt), outcome),
    ensures
        final(rt).wf(),
        Runtime::values_kept(*old(rt), *final(rt)),
{
    match outcome {
        ResumeOutcome::Awaits(c) => c.release(rt),
        ResumeOutcome::Requests { name, args } => args.release(rt),
        ResumeOutcome::Raised(e) => match e.value {
            Some(v) => v.release(rt),
            None => {},
        },
    }
}

/// A coroutine that awaits `n` sub-coroutines one after another, each finishing
/// when first resumed, and then returns `v`, is driven to completion in `2n + 1`
/// resumes (the first one included) and gives `v`.
pub proof fn lemma_nested_coroutines_finish(c: int, subs: Seq<int>, v: int)
    ensures
        run(seq![c], nested_events(subs, v)).0.len() == 0,
        resumes(drive(c, nested_events(subs, v))) == 2 * subs.len() + 1,
        drive(c, nested_events(subs, v)).last() == Step::Finished(Ok(v)),
{
    lemma_nested_run(c, subs, v);
    let steps = run(seq![c], nested_events(subs, v)).1;
    let all = drive(c, nested_events(subs, v));
    assert(all.skip(1) =~= steps);
}

proof fn lemma_nested_run(c: int, subs: Seq<int>, v: int)
    ensures
        ({
            let (stack, steps) = run(seq![c], nested_events(subs, v));
            &&& stack.len() == 0
            &&& resumes(steps) == 2 * subs.len()
            &&& steps.len() > 0
            &&& steps.last() == Step::Finished(Ok(v))
        }),
    decreases subs.len(),
{
    let ev = nested_events(subs, v);
    if subs.len() == 0 {
        assert(ev =~= seq![Event::Raised("StopIteration"@, Some(v))]);
        assert(ev.skip(1) =~= Seq::<Event>::empty());
        let e: Seq<int> = Seq::empty();
        assert(seq![c].drop_last() =~= e);
        assert(step(seq![c], ev[0]) == (e, Step::Finished(Ok(v))));
        assert(run(e, ev.skip(1)) == (e, Seq::<Step>::empty()));
        let steps = run(seq![c], ev).1;
        assert(steps =~= seq![Step::Finished(Ok(v))]);
        assert(steps.skip(1) =~= Seq::<Step>::empty());
        assert(resumes(steps.skip(1)) == 0);
    } else {
        let rest = nested_events(subs.skip(1), v);
        lemma_nested_run(c, subs.skip(1), v);
        assert(ev =~= seq![Event::Awaits(subs[0]), Event::Raised("StopIteration"@, None)] + rest);
        assert(ev[0] == Event::Awaits(subs[0]));
        let ev1 = ev.skip(1);
        assert(ev1 =~= seq![Event::Raised("StopIteration"@, None)] + rest);
        assert(ev1[0] == Event::Raised("StopIteration"@, None));
        assert(ev1.skip(1) =~= rest);
        let s1 = seq![c].push(subs[0]);
        assert(step(seq![c], ev[0]) == (s1, Step::Resume(subs[0], NONE_ID as int)));
        assert(s1.drop_last() =~= seq![c]);
        assert(step(s1, ev1[0]) == (seq![c], Step::Resume(c, NONE_ID as int)));
        let tail = run(seq![c], rest).1;
        let mid = run(s1, ev1).1;
        assert(run(s1, ev1) == (run(seq![c], rest).0, seq![Step::Resume(c, NONE_ID as int)] + tail));
        assert(mid == seq![Step::Resume(c, NONE_ID as int)] + tail);
        let all = run(seq![c], ev).1;
        assert(run(seq![c], ev) == (run(seq![c], rest).0, seq![Step::Resume(subs[0], NONE_ID as int)] + mid));
        assert(all == seq![Step::Resume(subs[0], NONE_ID as int)] + mid);
        assert(all.skip(1) =~= mid);
        assert(mid.skip(1) =~= tail);
        assert(resumes(all) == 1 + resumes(mid));
        assert(resumes(mid) == 1 + resumes(tail));
        assert(all.last() == tail.last());
    }
}

} // verus!
