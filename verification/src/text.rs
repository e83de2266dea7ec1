//! Small string utilities shared by the verified modules.
use vstd::prelude::*;

verus! {

/// An owned copy of a string slice.
pub fn owned(s: &str) -> (r: String)
    ensures
        r@ == s@,
{
    String::from_str(s)
}

/// Character-wise equality of two string slices.
pub fn str_eq(a: &str, b: &str) -> (r: bool)
    ensures
        r == (a@ == b@),
{
    let n = a.unicode_len();
    if n != b.unicode_len() {
        return false;
    }
    let mut i: usize = 0;
    while i < n
        invariant
            n == a@.len(),
            n == b@.len(),
            i <= n,
            forall|j: int| 0 <= j < i ==> a@[j] == b@[j],
        decreases n - i,
    {
        if a.get_char(i) != b.get_char(i) {
            return false;
        }
        i = i + 1;
    }
    assert(a@ =~= b@);
    true
}

/// A copy of an optional owned string.
pub fn clone_opt_string(o: &Option<String>) -> (r: Option<String>)
    ensures
        r == *o,
{
    match o {
        Some(s) => Some(s.clone()),
        None => None,
    }
}

/// A copy of a vector of owned strings.
pub fn clone_strings(v: &Vec<String>) -> (r: Vec<String>)
    ensures
        r@ == v@,
{
    let mut out: Vec<String> = Vec::new();
    let mut i: usize = 0;
    while i < v.len()
        invariant
            i <= v.len(),
            out@ == v@.subrange(0, i as int),
        decreases v.len() - i,
    {
        out.push(v[i].clone());
        i = i + 1;
    }
    assert(v@.subrange(0, v.len() as int) =~= v@);
    out
}

/// `prefix` followed by `rest`.
pub fn joined(prefix: &str, rest: &str) -> (r: String)
    ensures
        r@ == prefix@ + rest@,
{
    let mut out = owned(prefix);
    out.append(rest);
    out
}

/// Whether an optional owned string holds exactly the characters of `s`.
pub fn opt_string_is(o: &Option<String>, s: &str) -> (r: bool)
    ensures
        r == (o matches Some(v) && v@ == s@),
{
    match o {
        Some(v) => str_eq(v.as_str(), s),
        None => false,
    }
}

/// Whether a string slice holds no characters.
pub fn is_empty_text(s: &str) -> (r: bool)
    ensures
        r == (s@ == Seq::<char>::empty()),
        r == (s@.len() == 0),
{
    let n = s.unicode_len();
    if n == 0 {
        assert(s@ =~= Seq::<char>::empty());
        true
    } else {
        false
    }
}

} // verus!
