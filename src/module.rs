use vstd::prelude::*;
use crate::runtime::PyObject_HEAD;

verus! {

/// A method takes positional arguments as a tuple.
pub const METH_VARARGS: i32 = 0x0001;

/// A method takes no arguments.
pub const METH_NOARGS: i32 = 0x0004;

/// A method takes exactly one object argument.
pub const METH_O: i32 = 0x0008;

/// The header of a module definition.
#[allow(non_camel_case_types)]
pub struct PyModuleDef_Base {
    pub ob_base: PyObject_HEAD,
    pub m_index: usize,
}

impl PyModuleDef_Base {
    /// The header every module definition starts from: one reference, index 0.
    pub fn head_init() -> (r: PyModuleDef_Base)
        ensures
            r.ob_base.ob_refcnt == 1,
            r.m_index == 0,
    {
        PyModuleDef_Base { ob_base: PyObject_HEAD { ob_refcnt: 1 }, m_index: 0 }
    }
}

} // verus!
