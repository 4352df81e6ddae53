//! Names by which LDraw documents refer to parts.

use vstd::prelude::*;

use crate::text::{
    ascii_lowercase, forward_slashes, is_ascii_text, lowercase_of, to_forward_slashes, to_lowercase, trim, trimmed,
};

verus! {

/// The normal form of a part name: without surrounding white space,
/// lower-cased, with forward slashes as path separators.
pub open spec fn normal_form(name: Seq<char>) -> Seq<char> {
    forward_slashes(lowercase_of(trimmed(name)))
}

/// A name by which a document refers to a part, as written and in normal
/// form. Two aliases are equal when their normal forms are.
#[derive(Debug)]
pub struct PartAlias {
    /// The name in normal form (see [`normal_form`]).
    pub normalized: String,
    /// The name as it was written.
    pub original: String,
}

impl PartAlias {
    /// The key by which aliases are compared: the characters of the normal
    /// form.
    pub open spec fn key(self) -> Seq<char> {
        self.normalized@
    }

    /// An alias is well formed when its normal form is that of its original
    /// spelling.
    pub open spec fn wf(self) -> bool {
        self.normalized@ == normal_form(self.original@)
    }

    /// The normal form of `alias`: trimmed, lower-cased, and with forward
    /// slashes.
    pub fn normalize(alias: &str) -> (r: String)
        ensures
            r@ == normal_form(alias@),
            is_ascii_text(trimmed(alias@)) ==> r@ == forward_slashes(ascii_lowercase(trimmed(alias@))),
    {
        let trimmed_name = trim(alias);
        let lower = to_lowercase(trimmed_name.as_str());
        to_forward_slashes(lower.as_str())
    }

    /// Makes an alias from the name as written.
    pub fn new(alias: String) -> (r: PartAlias)
        ensures
            r.original@ == alias@,
            r.wf(),
            is_ascii_text(trimmed(alias@)) ==> r.key() == forward_slashes(ascii_lowercase(trimmed(alias@))),
    {
        let normalized = Self::normalize(alias.as_str());
        PartAlias { normalized, original: alias }
    }

    /// Compares two aliases by their normal forms.
    pub fn same_as(&self, other: &PartAlias) -> (r: bool)
        ensures
            r == (self.key() == other.key()),
    {
        self.normalized == other.normalized
    }
}

impl Clone for PartAlias {
    fn clone(&self) -> (r: Self)
        ensures
            r == *self,
    {
        PartAlias { normalized: self.normalized.clone(), original: self.original.clone() }
    }
}

impl PartialEq for PartAlias {
    fn eq(&self, other: &Self) -> (r: bool) {
        self.normalized == other.normalized
    }
}

impl vstd::std_specs::cmp::PartialEqSpecImpl for PartAlias {
    open spec fn obeys_eq_spec() -> bool {
        true
    }

    open spec fn eq_spec(&self, other: &Self) -> bool {
        self.normalized@ == other.normalized@
    }
}

impl Eq for PartAlias {}

} // verus!
