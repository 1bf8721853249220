//! The result of a scan: either the input text, borrowed as-is, or a
//! freshly built replacement.
//!
//! Callers distinguish the zero-copy path from the allocating path only by
//! this tag; both variants expose the same read-only text through
//! [`Cow::as_str`].

use vstd::prelude::*;

verus! {

/// A borrowed-or-owned text value.
///
/// `Borrowed` is returned when the scan saw no change: it carries the input
/// slice itself, so nothing was allocated or copied. `Owned` carries the
/// freshly accumulated replacement text.
#[derive(Debug)]
pub enum Cow<'a> {
    Borrowed(&'a str),
    Owned(String),
}

impl<'a> View for Cow<'a> {
    type V = Seq<char>;

    open spec fn view(&self) -> Seq<char> {
        match self {
            Cow::Borrowed(s) => s@,
            Cow::Owned(s) => s@,
        }
    }
}

impl<'a> Cow<'a> {
    /// Read access to the text, the same for both variants.
    pub fn as_str(&self) -> (r: &str)
        ensures
            r@ == self@,
    {
        match self {
            Cow::Borrowed(s) => s,
            Cow::Owned(s) => s.as_str(),
        }
    }

    /// Whether this is the zero-copy variant.
    pub fn is_borrowed(&self) -> (r: bool)
        ensures
            r == (self is Borrowed),
    {
        match self {
            Cow::Borrowed(_) => true,
            Cow::Owned(_) => false,
        }
    }
}

/// Character-for-character equality of two string slices.
pub fn str_eq(a: &str, b: &str) -> (r: bool)
    ensures
        r == (a@ == b@),
{
    let a_len = a.unicode_len();
    let b_len = b.unicode_len();
    if a_len != b_len {
        return false;
    }
    let mut i: usize = 0;
    while i < a_len
        invariant
            a_len == a@.len(),
            a_len == b@.len(),
            i <= a_len,
            forall|j: int| 0 <= j < i ==> a@[j] == b@[j],
        decreases a_len - i,
    {
        if a.get_char(i) != b.get_char(i) {
            return false;
        }
        i = i + 1;
    }
    proof {
        assert(a@ =~= b@);
    }
    true
}

impl<'a> PartialEq for Cow<'a> {
    /// Two values are equal when they carry the same tag and the same text.
    fn eq(&self, other: &Cow<'a>) -> (r: bool) {
        match (self, other) {
            (Cow::Borrowed(a), Cow::Borrowed(b)) => str_eq(a, b),
            (Cow::Owned(a), Cow::Owned(b)) => str_eq(a.as_str(), b.as_str()),
            _ => false,
        }
    }
}

impl<'a> vstd::std_specs::cmp::PartialEqSpecImpl for Cow<'a> {
    open spec fn obeys_eq_spec() -> bool {
        true
    }

    open spec fn eq_spec(&self, other: &Cow<'a>) -> bool {
        match (self, other) {
            (Cow::Borrowed(a), Cow::Borrowed(b)) => a@ == b@,
            (Cow::Owned(a), Cow::Owned(b)) => a@ == b@,
            _ => false,
        }
    }
}

} // verus!
