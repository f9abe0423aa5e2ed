use vstd::prelude::*;
use crate::runtime::{Runtime, PyValue, dict_view, dict_set, dict_get, lemma_dict_get, bump, drop_one, NULL};
use crate::object::{PyObjectRef, PyError};
use crate::text::{push_char, python_repr};

verus! {

/// The namespace state that `initialize` leaves: `b` is initialized and, where
/// `a` was already, nothing but the count of the namespace changed.
pub open spec fn initialized_from(a: Runtime, b: Runtime, globals: int) -> bool {
    &&& b.initialized
    &&& b.is_dict(b.globals as int)
    &&& globals == b.globals
    &&& b.pending == a.pending
    &&& if a.initialized {
        &&& b.globals == a.globals
        &&& b.builtins == a.builtins
        &&& b.values() == a.values()
        &&& b.counts() == bump(a.counts(), a.globals as int)
    } else {
        &&& forall|i: int| 0 <= i < a.objects@.len() ==> #[trigger] b.value(i) == a.value(i)
        &&& b.globals == a.objects@.len()
        &&& b.builtins == a.objects@.len() + 1
        &&& b.objects@.len() == a.objects@.len() + 2
        &&& dict_view(b.entries(b.globals as int)) == seq![("__builtins__"@, b.builtins)]
        &&& dict_view(b.entries(b.builtins as int)).len() == 0
        &&& b.refcnt(b.globals as int) == 2
    }
}

/// How a piece of source text is to be compiled.
pub enum RunMode {
    /// A module: a sequence of statements.
    File,
    /// A single expression, whose value is the result.
    Eval,
}

/// Source text to be compiled and run in the namespace `globals`.
pub struct CodeRun {
    pub source: String,
    pub mode: RunMode,
    pub globals: usize,
}

/// The interpreter's `__main__` namespace, held by one reference.
pub struct Interpreter {
    globals: usize,
    owned: bool,
}

/// A namespace to run user code in: a second reference to the globals dict.
pub struct Scope {
    pub globals: PyObjectRef,
}

/// The program that registers `source` as the importable module `name`.
pub open spec fn frozen_program(name: Seq<char>, source: Seq<char>) -> Seq<char> {
    "\nimport importlib\nimport importlib.util\nimport types\n_mod = types.ModuleType(\""@ + name
        + "\")\n_mod.__file__ = \"<frozen "@ + name + ">\"\nexec(compile("@
        + crate::text::repr_of(source) + ", \"<frozen "@ + name
        + ">\", \"exec\"), _mod.__dict__)\nimport sys\nsys.modules[\""@ + name
        + "\"] = _mod\ndel _mod\n"@
}

/// A `KeyError` message: the name in single quotes.
pub open spec fn quoted(name: Seq<char>) -> Seq<char> {
    seq!['\''] + name + seq!['\'']
}

/// `d[key] = value` with the reference of `value` moving into the dict; the value
/// it replaces, if any, is released.
fn store_moved(rt: &mut Runtime, d: usize, key: &str, value: PyObjectRef)
    requires
        old(rt).wf(),
        old(rt).is_dict(d as int),
        old(rt).valid(value.id()),
    ensures
        final(rt).wf(),
        final(rt).is_dict(d as int),
        final(rt).objects@.len() == old(rt).objects@.len(),
        forall|i: int| 0 <= i < old(rt).objects@.len() && i != d ==> #[trigger] final(rt).value(i) == old(rt).value(i),
        dict_view(final(rt).entries(d as int)) == dict_set(dict_view(old(rt).entries(d as int)), key@, value.id() as usize),
        final(rt).counts() == match dict_get(old(rt).entries(d as int), key@) {
            Some(w) => drop_one(old(rt).counts(), w as int),
            None => old(rt).counts(),
        },
        Runtime::same_state(*old(rt), *final(rt)),
{
    let v = value.into_ptr();
    match rt.dict_insert(d, String::from_str(key), v) {
        Some(w) => {
            let ghost before = *rt;
            rt.decref(w);
            assert(rt.counts() =~= drop_one(before.counts(), w as int));
        },
        None => {},
    }
}

/// `d[key]` as a new reference, or a `KeyError` whose message is the quoted key.
fn load(rt: &mut Runtime, d: usize, key: &str) -> (r: Result<PyObjectRef, PyError>)
    requires
        old(rt).wf(),
        old(rt).is_dict(d as int),
    ensures
        final(rt).wf(),
        final(rt).values() == old(rt).values(),
        Runtime::same_state(*old(rt), *final(rt)),
        r is Ok <==> dict_get(old(rt).entries(d as int), key@) is Some,
        r is Ok ==> r->Ok_0.id() == dict_get(old(rt).entries(d as int), key@)->0
            && final(rt).counts() == bump(old(rt).counts(), r->Ok_0.id()),
        r is Err ==> r->Err_0.kind@ == "KeyError"@ && r->Err_0.message@ == quoted(key@)
            && final(rt).counts() == old(rt).counts(),
{
    let k = String::from_str(key);
    let found = match &rt.objects[d].value {
        PyValue::Dict(entries) => {
            assert(crate::runtime::value_ok(rt.value(d as int), rt.objects@.len() as int));
            match crate::runtime::find_key_index(entries, &k) {
                Some(i) => {
                    proof {
                        lemma_dict_get(entries@, key@, i as int);
                    }
                    Some(entries[i].value)
                },
                None => {
                    proof { crate::runtime::lemma_dict_get_none(entries@, key@); }
                    None
                },
            }
        },
        _ => None,
    };
    match found {
        Some(id) => {
            rt.incref(id);
            assert(rt.counts() =~= bump(old(rt).counts(), id as int));
            assert(rt.values() =~= old(rt).values());
            Ok(PyObjectRef::from_owned(id).unwrap())
        },
        None => {
            let mut msg = String::new();
            push_char(&mut msg, '\'');
            msg.append(key);
            push_char(&mut msg, '\'');
            assert(msg@ =~= quoted(key@));
            assert(rt.counts() =~= old(rt).counts());
            assert(rt.values() =~= old(rt).values());
            Err(PyError { kind: String::from_str("KeyError"), message: msg, value: None })
        },
    }
}

impl Interpreter {
    pub closed spec fn globals_id(&self) -> int {
        self.globals as int
    }

    /// Whether this handle holds a reference to the namespace.
    pub closed spec fn owns(&self) -> bool {
        self.owned
    }

    /// Sets up the interpreter once per process and returns a handle on its
    /// namespace. A second call finds it set up and only takes a new reference to
    /// the same namespace.
    pub fn initialize(rt: &mut Runtime) -> (r: Result<Interpreter, PyError>)
        requires
            old(rt).wf(),
        ensures
            final(rt).wf(),
            r is Ok,
            r->Ok_0.owns(),
            initialized_from(*old(rt), *final(rt), r->Ok_0.globals_id()),
    {
        if !rt.initialized {
            let g = rt.allocate(PyValue::Dict(Vec::new()));
            let b = rt.allocate(PyValue::Dict(Vec::new()));
            let ghost fresh = *rt;
            let _ = rt.dict_insert(g, String::from_str("__builtins__"), b);
            proof {
                assert(dict_view(fresh.entries(g as int)) =~= Seq::<(Seq<char>, usize)>::empty());
                assert(!(exists|i: int| 0 <= i < 0 && #[trigger] dict_view(fresh.entries(g as int))[i].0 == "__builtins__"@));
                assert(dict_view(rt.entries(g as int)) =~= seq![("__builtins__"@, b)]);
                crate::object::lemma_values_len(fresh);
                crate::object::lemma_values_len(*rt);
                assert(fresh.refcnt(g as int) == 1);
                assert(rt.counts()[g as int] == fresh.counts()[g as int]);
                assert(rt.refcnt(g as int) == 1);
                assert(forall|i: int| 0 <= i < old(rt).objects@.len() ==> #[trigger] rt.value(i) == old(rt).value(i));
            }
            rt.incref(b);
            assert(rt.refcnt(g as int) == 1);
            assert(forall|i: int| 0 <= i < old(rt).objects@.len() ==> #[trigger] rt.value(i) == old(rt).value(i));
            let ghost pre = *rt;
            rt.initialized = true;
            rt.globals = g;
            rt.builtins = b;
            assert(rt.objects@ == pre.objects@);
            assert(forall|i: int| 0 <= i < old(rt).objects@.len() ==> #[trigger] rt.value(i) == pre.value(i));
            assert(dict_view(rt.entries(b as int)) =~= Seq::<(Seq<char>, usize)>::empty());
            assert(forall|i: int| 0 <= i < old(rt).objects@.len() ==> #[trigger] rt.value(i) == old(rt).value(i));
        }
        let ghost set_up = *rt;
        let g = rt.globals;
        rt.incref(g);
        proof {
            if old(rt).initialized {
                assert(rt.counts() =~= bump(old(rt).counts(), old(rt).globals as int));
                assert(rt.values() =~= old(rt).values());
            } else {
                assert(rt.value(g as int) == set_up.value(g as int));
                assert(rt.value(rt.builtins as int) == set_up.value(rt.builtins as int));
                assert(dict_view(rt.entries(rt.globals as int)) == seq![("__builtins__"@, rt.builtins)]);
                assert(dict_view(rt.entries(rt.builtins as int)).len() == 0);
                assert(rt.refcnt(rt.globals as int) == 2);
                assert(forall|i: int| 0 <= i < old(rt).objects@.len() ==> #[trigger] rt.value(i) == set_up.value(i));
                assert(forall|i: int| 0 <= i < old(rt).objects@.len() ==> #[trigger] set_up.value(i) == old(rt).value(i));
                assert(rt.objects@.len() == old(rt).objects@.len() + 2);
                assert(rt.globals == old(rt).objects@.len());
                assert(rt.builtins == old(rt).objects@.len() + 1);
                assert(rt.pending == old(rt).pending);
                assert(rt.is_dict(rt.globals as int));
            }
        }
        Ok(Interpreter { globals: g, owned: true })
    }

    /// Each character widened to a 32-bit wide character.
    pub fn str_to_wchar(s: &str) -> (r: Vec<i32>)
        ensures
            r@ == s@.map_values(|c: char| c as u32 as i32),
    {
        let n = s.unicode_len();
        let mut out: Vec<i32> = Vec::new();
        let mut i: usize = 0;
        while i < n
            invariant
                n == s@.len(),
                i <= n,
                out@ == s@.take(i as int).map_values(|c: char| c as u32 as i32),
            decreases n - i,
        {
            let c = s.get_char(i);
            out.push(c as u32 as i32);
            assert(s@.take(i + 1).map_values(|c: char| c as u32 as i32) =~= s@.take(i as int).map_values(
                |c: char| c as u32 as i32,
            ).push(c as u32 as i32));
            i = i + 1;
        }
        assert(s@.take(n as int) =~= s@);
        out
    }

    /// A scope over the same namespace, with its own reference.
    pub fn new_scope(&self, rt: &mut Runtime) -> (r: Scope)
        requires
            old(rt).wf(),
            old(rt).initialized,
            self.globals_id() == old(rt).globals,
        ensures
            final(rt).wf(),
            r.globals.id() == self.globals_id(),
            final(rt).values() == old(rt).values(),
            final(rt).counts() == bump(old(rt).counts(), self.globals_id()),
            Runtime::same_state(*old(rt), *final(rt)),
    {
        rt.incref(self.globals);
        assert(rt.counts() =~= bump(old(rt).counts(), self.globals as int));
        assert(rt.values() =~= old(rt).values());
        Scope { globals: PyObjectRef::from_owned(self.globals).unwrap() }
    }

    /// The namespace's pointer (no reference is handed over).
    pub fn globals_ptr(&self) -> (r: usize)
        ensures
            r == self.globals_id(),
    {
        self.globals
    }

    /// `code` as a module to run in the namespace.
    pub fn run_code_string(&self, code: &str) -> (r: CodeRun)
        ensures
            r.source@ == code@,
            r.mode is File,
            r.globals == self.globals_id(),
    {
        CodeRun { source: String::from_str(code), mode: RunMode::File, globals: self.globals }
    }

    /// `expr` as an expression to evaluate in the namespace.
    pub fn eval_expression(&self, expr: &str) -> (r: CodeRun)
        ensures
            r.source@ == expr@,
            r.mode is Eval,
            r.globals == self.globals_id(),
    {
        CodeRun { source: String::from_str(expr), mode: RunMode::Eval, globals: self.globals }
    }

    /// `from <module_name> import *`, to run in the namespace.
    pub fn import_star(&self, module_name: &str) -> (r: CodeRun)
        ensures
            r.source@ == "from "@ + module_name@ + " import *"@,
            r.mode is File,
            r.globals == self.globals_id(),
    {
        let mut code = String::from_str("from ");
        code.append(module_name);
        code.append(" import *");
        CodeRun { source: code, mode: RunMode::File, globals: self.globals }
    }

    /// The program that makes `source` importable as the module `module_name`,
    /// to run in the namespace.
    pub fn add_frozen_source(&self, module_name: &str, source: &str) -> (r: CodeRun)
        ensures
            r.source@ == frozen_program(module_name@, source@),
            r.mode is File,
            r.globals == self.globals_id(),
    {
        let mut code = String::from_str("\nimport importlib\nimport importlib.util\nimport types\n_mod = types.ModuleType(\"");
        code.append(module_name);
        code.append("\")\n_mod.__file__ = \"<frozen ");
        code.append(module_name);
        code.append(">\"\nexec(compile(");
        let quoted_source = python_repr(source);
        code.append(quoted_source.as_str());
        code.append(", \"<frozen ");
        code.append(module_name);
        code.append(">\", \"exec\"), _mod.__dict__)\nimport sys\nsys.modules[\"");
        code.append(module_name);
        code.append("\"] = _mod\ndel _mod\n");
        CodeRun { source: code, mode: RunMode::File, globals: self.globals }
    }

    /// `globals[name] = value`; the reference of `value` moves into the namespace.
    pub fn set_global(&self, rt: &mut Runtime, name: &str, value: PyObjectRef) -> (r: Result<(), PyError>)
        requires
            old(rt).wf(),
            old(rt).initialized,
            self.globals_id() == old(rt).globals,
            old(rt).valid(value.id()),
        ensures
            final(rt).wf(),
            r is Ok,
            final(rt).objects@.len() == old(rt).objects@.len(),
            forall|i: int| 0 <= i < old(rt).objects@.len() && i != self.globals_id() ==> #[trigger] final(rt).value(i) == old(rt).value(i),
            dict_view(final(rt).entries(self.globals_id())) == dict_set(
                dict_view(old(rt).entries(self.globals_id())),
                name@,
                value.id() as usize,
            ),
            final(rt).counts() == match dict_get(old(rt).entries(self.globals_id()), name@) {
                Some(w) => drop_one(old(rt).counts(), w as int),
                None => old(rt).counts(),
            },
            Runtime::same_state(*old(rt), *final(rt)),
    {
        store_moved(rt, self.globals, name, value);
        Ok(())
    }

    /// `globals[name]` as a new reference, or a `KeyError` naming it.
    pub fn get_global(&self, rt: &mut Runtime, name: &str) -> (r: Result<PyObjectRef, PyError>)
        requires
            old(rt).wf(),
            old(rt).initialized,
            self.globals_id() == old(rt).globals,
        ensures
            final(rt).wf(),
            final(rt).values() == old(rt).values(),
            Runtime::same_state(*old(rt), *final(rt)),
            r is Ok <==> dict_get(old(rt).entries(self.globals_id()), name@) is Some,
            r is Ok ==> r->Ok_0.id() == dict_get(old(rt).entries(self.globals_id()), name@)->0
                && final(rt).counts() == bump(old(rt).counts(), r->Ok_0.id()),
            r is Err ==> r->Err_0.kind@ == "KeyError"@ && r->Err_0.message@ == quoted(name@)
                && final(rt).counts() == old(rt).counts(),
    {
        load(rt, self.globals, name)
    }

    /// `builtins.name = value`, visible from all code; the reference of `value`
    /// moves into the builtins namespace.
    pub fn set_builtin(&self, rt: &mut Runtime, name: &str, value: PyObjectRef) -> (r: Result<(), PyError>)
        requires
            old(rt).wf(),
            old(rt).initialized,
            old(rt).valid(value.id()),
        ensures
            final(rt).wf(),
            r is Ok,
            final(rt).objects@.len() == old(rt).objects@.len(),
            forall|i: int| 0 <= i < old(rt).objects@.len() && i != old(rt).builtins ==> #[trigger] final(rt).value(i) == old(rt).value(i),
            dict_view(final(rt).entries(old(rt).builtins as int)) == dict_set(
                dict_view(old(rt).entries(old(rt).builtins as int)),
                name@,
                value.id() as usize,
            ),
            final(rt).counts() == match dict_get(old(rt).entries(old(rt).builtins as int), name@) {
                Some(w) => drop_one(old(rt).counts(), w as int),
                None => old(rt).counts(),
            },
            Runtime::same_state(*old(rt), *final(rt)),
    {
        let b = rt.builtins;
        store_moved(rt, b, name, value);
        Ok(())
    }

    /// Gives the namespace reference back.
    pub fn release(self, rt: &mut Runtime)
        requires
            old(rt).wf(),
            old(rt).initialized,
            self.globals_id() == old(rt).globals,
        ensures
            final(rt).wf(),
            final(rt).values() == old(rt).values(),
            final(rt).counts() == if self.owns() {
                drop_one(old(rt).counts(), self.globals_id())
            } else {
                old(rt).counts()
            },
            Runtime::same_state(*old(rt), *final(rt)),
    {
        if self.owned && self.globals != NULL {
            rt.decref(self.globals);
            assert(rt.counts() =~= drop_one(old(rt).counts(), self.globals as int));
            assert(rt.values() =~= old(rt).values());
        }
    }
}

/// Running `initialize` a second time sets nothing up again: the namespace is the
/// same object with the same entries, no object is added, and its count rises by
/// exactly the one reference that the new handle holds.
pub proof fn lemma_initialize_idempotent(r0: Runtime, r1: Runtime, r2: Runtime, g1: int, g2: int)
    requires
        initialized_from(r0, r1, g1),
        initialized_from(r1, r2, g2),
    ensures
        g2 == g1,
        r2.values() == r1.values(),
        r2.objects@.len() == r1.objects@.len(),
        dict_view(r2.entries(g2)) == dict_view(r1.entries(g1)),
        r2.counts() == bump(r1.counts(), g1),
{
    crate::object::lemma_values_len(r1);
    crate::object::lemma_values_len(r2);
    assert(r2.values()[g1] == r1.values()[g1]);
    assert(r2.value(g1) == r1.value(g1));
}

impl Scope {
    /// `globals[name]` as a new reference.
    pub fn get_global(&self, rt: &mut Runtime, name: &str) -> (r: Result<PyObjectRef, PyError>)
        requires
            old(rt).wf(),
            old(rt).is_dict(self.globals.id()),
        ensures
            final(rt).wf(),
            final(rt).values() == old(rt).values(),
            r is Ok <==> dict_get(old(rt).entries(self.globals.id()), name@) is Some,
            r is Ok ==> r->Ok_0.id() == dict_get(old(rt).entries(self.globals.id()), name@)->0
                && final(rt).counts() == bump(old(rt).counts(), r->Ok_0.id()),
            r is Err ==> r->Err_0.kind@ == "KeyError"@ && *final(rt) == *old(rt),
    {
        let ghost a = *rt;
        let r = self.globals.get_item_str(rt, name);
        proof {
            if r is Ok {
                assert(rt.counts() =~= bump(a.counts(), r->Ok_0.id()));
                assert(rt.values() =~= a.values());
            }
        }
        r
    }

    /// `globals[name] = value`; the reference of `value` moves into the namespace.
    pub fn set_global(&self, rt: &mut Runtime, name: &str, value: PyObjectRef) -> (r: Result<(), PyError>)
        requires
            old(rt).wf(),
            old(rt).is_dict(self.globals.id()),
            old(rt).valid(value.id()),
        ensures
            final(rt).wf(),
            r is Ok,
            final(rt).objects@.len() == old(rt).objects@.len(),
            forall|i: int| 0 <= i < old(rt).objects@.len() && i != self.globals.id() ==> #[trigger] final(rt).value(i) == old(rt).value(i),
            dict_view(final(rt).entries(self.globals.id())) == dict_set(
                dict_view(old(rt).entries(self.globals.id())),
                name@,
                value.id() as usize,
            ),
            final(rt).counts() == match dict_get(old(rt).entries(self.globals.id()), name@) {
                Some(w) => drop_one(old(rt).counts(), w as int),
                None => old(rt).counts(),
            },
            Runtime::same_state(*old(rt), *final(rt)),
    {
        store_moved(rt, self.globals.as_ptr(), name, value);
        Ok(())
    }
}

} // verus!
