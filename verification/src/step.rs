//! The compiled template.
//!
//! A [`Step`] is built from a raw template string in one validating pass and
//! is immutable afterwards: it may be shared freely and reused for any
//! number of match operations.

use vstd::prelude::*;
use vstd::string::*;

use crate::error::ParseError;
use crate::matching::has_lit_at;
use crate::matching::match_from;
use crate::matching::spec_match;
use crate::parts::get_parts;
use crate::parts::lemma_split_len;
use crate::parts::parts_ok;
use crate::parts::spec_split;
use crate::scan::generalize;
use crate::scan::get_names;
use crate::scan::names_ok;
use crate::scan::spec_generalize;
use crate::scan::spec_names;

verus! {

/// A template string is accepted exactly when the literal parts of its
/// generalized form and its placeholder names pass validation.
pub open spec fn spec_valid(s: Seq<char>) -> bool {
    &&& parts_ok(spec_split(spec_generalize(s)))
    &&& names_ok(spec_names(s))
}

/// A compiled path-segment template: the raw text, its generalized form,
/// the literal parts, and the placeholder names.  The literal parts drive
/// the matcher directly, so they are the compiled pattern.
#[derive(Debug)]
pub struct Step {
    s: String,
    generalized: String,
    parts: Vec<String>,
    names: Vec<String>,
}

/// The mathematical content of a compiled template.
pub struct StepModel {
    pub s: Seq<char>,
    pub generalized: Seq<char>,
    pub parts: Seq<Seq<char>>,
    pub names: Seq<Seq<char>>,
}

impl View for Step {
    type V = StepModel;

    closed spec fn view(&self) -> StepModel {
        StepModel {
            s: self.s@,
            generalized: self.generalized@,
            parts: self.parts.deep_view(),
            names: self.names.deep_view(),
        }
    }
}

impl Step {
    /// A compiled template holds exactly the parse of its raw text.
    pub open spec fn wf(&self) -> bool {
        &&& spec_valid(self@.s)
        &&& self@.generalized == spec_generalize(self@.s)
        &&& self@.parts == spec_split(spec_generalize(self@.s))
        &&& self@.names == spec_names(self@.s)
    }

    /// Compile a template string: locate the placeholder spans, derive the
    /// generalized form, the literal parts and the placeholder names, and
    /// validate them.  Construction succeeds exactly on valid templates and
    /// never hands out a partially built value.
    pub fn new(s: &str) -> (r: Result<Step, ParseError>)
        ensures
            r is Ok <==> spec_valid(s@),
            r matches Ok(step) ==> step.wf() && step@.s == s@,
    {
        let generalized: String = generalize(s);
        let parts: Vec<String> = match get_parts(generalized.as_str()) {
            Ok(parts) => parts,
            Err(e) => {
                return Err(e);
            },
        };
        let names: Vec<String> = match get_names(s) {
            Ok(names) => names,
            Err(e) => {
                return Err(e);
            },
        };
        Ok(
            Step {
                s: s.to_owned(),
                generalized,
                parts,
                names,
            },
        )
    }

    /// The original template text, kept verbatim.
    pub fn raw_text(&self) -> (r: &String)
        ensures
            r@ == self@.s,
    {
        &self.s
    }

    /// The template with every placeholder replaced by the marker `{}`.
    pub fn generalized_text(&self) -> (r: &String)
        ensures
            r@ == self@.generalized,
    {
        &self.generalized
    }

    /// The literal parts that stand around and between the placeholders.
    pub fn literal_parts(&self) -> (r: &Vec<String>)
        ensures
            r.deep_view() == self@.parts,
    {
        &self.parts
    }

    /// The placeholder names, in order of appearance.
    pub fn placeholder_names(&self) -> (r: &Vec<String>)
        ensures
            r.deep_view() == self@.names,
    {
        &self.names
    }

    /// Match a path segment: the substrings bound to the placeholders, in
    /// declaration order, when the whole segment fits the template's
    /// literal boundaries; `None` otherwise.
    pub fn match_segment<'a>(&self, s: &'a str) -> (r: Option<Vec<&'a str>>)
        requires
            self.wf(),
        ensures
            r.deep_view() == spec_match(self@.parts, s@),
    {
        proof {
            lemma_split_len(spec_generalize(self@.s));
        }
        let first: &str = self.parts[0].as_str();
        let flen: usize = first.unicode_len();
        if !has_lit_at(s, 0, first) {
            return None;
        }
        match_from(&self.parts, 1, s, flen)
    }
}

} // verus!
