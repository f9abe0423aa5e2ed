use vstd::prelude::*;
use vstd::string::StringSliceAdditionalSpecFns;

verus! {

/// How one character is written inside a single-quoted Python literal.
pub open spec fn escape_char(c: char) -> Seq<char> {
    if c == '\\' {
        seq!['\\', '\\']
    } else if c == '\'' {
        seq!['\\', '\'']
    } else if c == '\n' {
        seq!['\\', 'n']
    } else if c == '\r' {
        seq!['\\', 'r']
    } else if c == '\t' {
        seq!['\\', 't']
    } else {
        seq![c]
    }
}

/// The escaped form of every character of `s`, in order.
pub open spec fn escape_all(s: Seq<char>) -> Seq<char>
    decreases s.len(),
{
    if s.len() == 0 {
        Seq::empty()
    } else {
        escape_all(s.drop_last()) + escape_char(s.last())
    }
}

/// `s` as a single-quoted Python string literal.
pub open spec fn repr_of(s: Seq<char>) -> Seq<char> {
    seq!['\''] + escape_all(s) + seq!['\'']
}

/// Relies on `String::push`: appends one character.
#[verifier::external_body]
pub fn push_char(s: &mut String, c: char)
    ensures
        final(s)@ == old(s)@.push(c),
{
    s.push(c)
}

/// `s` as a single-quoted Python string literal, with backslashes, quotes,
/// newlines, carriage returns and tabs escaped.
pub fn python_repr(s: &str) -> (r: String)
    ensures
        r@ == repr_of(s@),
{
    let n = s.unicode_len();
    let mut out = String::new();
    push_char(&mut out, '\'');
    let mut i: usize = 0;
    while i < n
        invariant
            n == s@.len(),
            i <= n,
            out@ == seq!['\''] + escape_all(s@.take(i as int)),
        decreases n - i,
    {
        let c = s.get_char(i);
        if c == '\\' {
            push_char(&mut out, '\\');
            push_char(&mut out, '\\');
        } else if c == '\'' {
            push_char(&mut out, '\\');
            push_char(&mut out, '\'');
        } else if c == '\n' {
            push_char(&mut out, '\\');
            push_char(&mut out, 'n');
        } else if c == '\r' {
            push_char(&mut out, '\\');
            push_char(&mut out, 'r');
        } else if c == '\t' {
            push_char(&mut out, '\\');
            push_char(&mut out, 't');
        } else {
            push_char(&mut out, c);
        }
        assert(s@.take(i + 1).drop_last() =~= s@.take(i as int));
        assert(out@ =~= seq!['\''] + escape_all(s@.take(i + 1)));
        i = i + 1;
    }
    assert(s@.take(n as int) =~= s@);
    push_char(&mut out, '\'');
    assert(out@ =~= repr_of(s@));
    out
}

/// A text as the bytes of a C string: its UTF-8 encoding and a closing zero.
pub struct CString {
    data: Vec<u8>,
}

impl CString {
    pub closed spec fn bytes(&self) -> Seq<u8> {
        self.data@
    }

    pub fn new(s: &str) -> (r: CString)
        ensures
            r.bytes() == s.spec_bytes().push(0),
    {
        let mut data = vstd::slice::slice_to_vec(s.as_bytes());
        data.push(0);
        CString { data }
    }

    /// The bytes, the closing zero included.
    pub fn as_bytes_with_nul(&self) -> (r: &[u8])
        ensures
            r@ == self.bytes(),
    {
        self.data.as_slice()
    }
}

/// The C string of `s`.
pub fn make_cstring(s: &str) -> (r: CString)
    ensures
        r.bytes() == s.spec_bytes().push(0),
{
    CString::new(s)
}

} // verus!
