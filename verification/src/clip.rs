use vstd::prelude::*;

use crate::text::{is_blank, seq_less, str_is_blank, str_less};

verus! {

/// Why a clip identifier was refused.
#[derive(Clone, Copy, Debug, PartialEq, Eq, Structural, Hash, PartialOrd, Ord)]
pub enum ClipIdError {
    /// The name is empty or holds only white space.
    Empty,
}

impl ClipIdError {
    /// The message that describes the error.
    pub fn message(&self) -> (text: &'static str)
        ensures
            text@ == "clip file name must not be empty"@,
    {
        "clip file name must not be empty"
    }
}

/// The file name of a clip; never blank.
#[derive(Debug, Hash, PartialOrd, Ord)]
pub struct ClipId(String);

impl View for ClipId {
    type V = Seq<char>;

    closed spec fn view(&self) -> Seq<char> {
        self.0@
    }
}

impl ClipId {
    #[verifier::type_invariant]
    closed spec fn inv(self) -> bool {
        !is_blank(self.0@)
    }

    /// Makes an identifier from a file name; refuses a name that is empty or only
    /// white space.
    pub fn new(value: &str) -> (r: Result<ClipId, ClipIdError>)
        ensures
            match r {
                Ok(id) => !is_blank(value@) && id@ == value@,
                Err(e) => is_blank(value@) && e == ClipIdError::Empty,
            },
    {
        if str_is_blank(value) {
            return Err(ClipIdError::Empty);
        }
        let owned = value.to_owned();
        Ok(ClipId(owned))
    }

    /// The file name.
    pub fn as_str(&self) -> (s: &str)
        ensures
            s@ == self@,
            !is_blank(s@),
    {
        proof {
            use_type_invariant(self);
        }
        self.0.as_str()
    }

    /// Whether this identifier sorts before `other`, by the order of their names.
    pub fn less_than(&self, other: &ClipId) -> (r: bool)
        ensures
            r == seq_less(self@, other@),
    {
        str_less(self.0.as_str(), other.0.as_str())
    }

    /// Whether both identifiers hold the same name.
    pub fn same(&self, other: &ClipId) -> (r: bool)
        ensures
            r == (self@ == other@),
    {
        self.0 == other.0
    }
}

impl Clone for ClipId {
    fn clone(&self) -> (r: Self)
        ensures
            r@ == self@,
    {
        proof {
            use_type_invariant(self);
        }
        ClipId(self.0.clone())
    }
}

impl PartialEq for ClipId {
    fn eq(&self, other: &Self) -> (r: bool) {
        self.0 == other.0
    }
}

impl vstd::std_specs::cmp::PartialEqSpecImpl for ClipId {
    open spec fn obeys_eq_spec() -> bool {
        true
    }

    open spec fn eq_spec(&self, other: &ClipId) -> bool {
        self@ == other@
    }
}

impl Eq for ClipId {
}

} // verus!
