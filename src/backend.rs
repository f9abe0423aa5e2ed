use vstd::prelude::*;

verus! {

/// The interpreter that generated code targets.
#[derive(Clone, Copy, Debug, PartialEq, Eq, Structural)]
pub enum PythonBackend {
    RustPython,
    CPython,
}

/// The code of a character, with ASCII upper case letters made lower case.
pub open spec fn ascii_lower(c: char) -> u32 {
    if 'A' <= c && c <= 'Z' {
        (c as u32 + 32) as u32
    } else {
        c as u32
    }
}

/// Equality up to ASCII case.
pub open spec fn eq_ignore_ascii_case(a: Seq<char>, b: Seq<char>) -> bool {
    a.len() == b.len() && forall|i: int| 0 <= i < a.len() ==> #[trigger] ascii_lower(a[i]) == ascii_lower(b[i])
}

fn lower(c: char) -> (r: u32)
    ensures
        r == ascii_lower(c),
{
    if 'A' <= c && c <= 'Z' {
        c as u32 + 32
    } else {
        c as u32
    }
}

fn same_ignoring_ascii_case(a: &str, b: &str) -> (r: bool)
    ensures
        r == eq_ignore_ascii_case(a@, b@),
{
    let n = a.unicode_len();
    if n != b.unicode_len() {
        return false;
    }
    let mut i: usize = 0;
    while i < n
        invariant
            n == a@.len(),
            n == b@.len(),
            i <= n,
            forall|j: int| 0 <= j < i ==> #[trigger] ascii_lower(a@[j]) == ascii_lower(b@[j]),
        decreases n - i,
    {
        if lower(a.get_char(i)) != lower(b.get_char(i)) {
            return false;
        }
        i = i + 1;
    }
    true
}

/// Whether a setting selects CPython: `cpython` in any ASCII case.
pub open spec fn selects_cpython(setting: Option<Seq<char>>) -> bool {
    match setting {
        Some(s) => eq_ignore_ascii_case(s, "cpython"@),
        None => false,
    }
}

pub open spec fn opt_view(setting: Option<&str>) -> Option<Seq<char>> {
    match setting {
        Some(s) => Some(s@),
        None => None,
    }
}

/// The backend that a setting names: `cpython` in any ASCII case selects
/// CPython; anything else, or no setting, RustPython.
pub fn python_backend_from(setting: Option<&str>) -> (r: PythonBackend)
    ensures
        r == if selects_cpython(opt_view(setting)) {
            PythonBackend::CPython
        } else {
            PythonBackend::RustPython
        },
{
    match setting {
        Some(s) => if same_ignoring_ascii_case(s, "cpython") {
            PythonBackend::CPython
        } else {
            PythonBackend::RustPython
        },
        None => PythonBackend::RustPython,
    }
}

/// Whether the setting selects CPython.
pub fn use_cpython(setting: Option<&str>) -> (r: bool)
    ensures
        r == selects_cpython(opt_view(setting)),
{
    let b = python_backend_from(setting);
    match b {
        PythonBackend::CPython => true,
        PythonBackend::RustPython => false,
    }
}

} // verus!
