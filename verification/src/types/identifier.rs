//! Names of variables and functions.

use vstd::prelude::*;
use crate::app_error::{AppError, AppErrorModel};
use crate::keywords::{Keyword, keyword_of};
pub use crate::expression::IdentifierExpr;
use crate::text::{ascii_alnum, ascii_alpha, chars_of, is_ascii_alnum, is_ascii_alpha};

verus! {

broadcast use vstd::string::group_string_axioms;

/// A valid name: not empty, not a keyword, an ASCII letter first, then ASCII letters,
/// digits and underscores.
#[derive(Debug)]
pub struct Identifier {
    name: String,
}

impl View for Identifier {
    type V = Seq<char>;

    closed spec fn view(&self) -> Seq<char> {
        self.name@
    }
}

/// Whether a text is a valid name.
pub open spec fn is_valid_identifier(s: Seq<char>) -> bool {
    &&& s.len() > 0
    &&& keyword_of(s) is None
    &&& is_ascii_alpha(s[0])
    &&& forall|i: int| 1 <= i < s.len() ==> is_ascii_alnum(#[trigger] s[i]) || s[i] == '_'
}

impl Identifier {
    /// Checks a name: `Ok` exactly when it is valid, else `InvalidIdentifier` with the
    /// name.
    pub fn new(name: String) -> (r: Result<Identifier, AppError>)
        ensures
            r matches Ok(id) ==> is_valid_identifier(name@) && id@ == name@,
            r matches Err(e) ==> !is_valid_identifier(name@) && e@ == AppErrorModel::InvalidIdentifier(name@),
    {
        let chars = chars_of(name.as_str());
        if chars.len() == 0 {
            return Err(AppError::InvalidIdentifier(name));
        }
        if Keyword::from_chars(chars.as_slice()).is_some() {
            return Err(AppError::InvalidIdentifier(name));
        }
        if !ascii_alpha(chars[0]) {
            return Err(AppError::InvalidIdentifier(name));
        }
        let mut i: usize = 1;
        while i < chars.len()
            invariant
                1 <= i <= chars@.len(),
                chars@ == name@,
                forall|j: int| 1 <= j < i ==> is_ascii_alnum(#[trigger] chars@[j]) || chars@[j] == '_',
            decreases chars@.len() - i,
        {
            let c = chars[i];
            if !(ascii_alnum(c) || c == '_') {
                return Err(AppError::InvalidIdentifier(name));
            }
            i = i + 1;
        }
        Ok(Identifier { name })
    }

    pub fn as_str(&self) -> (r: &str)
        ensures
            r@ == self@,
    {
        self.name.as_str()
    }

    pub fn copy(&self) -> (r: Identifier)
        ensures
            r@ == self@,
    {
        Identifier { name: self.name.clone() }
    }

    /// Whether two names are the same.
    pub fn same(&self, other: &Identifier) -> (r: bool)
        ensures
            r == (self@ == other@),
    {
        self.name == other.name
    }
}

} // verus!
