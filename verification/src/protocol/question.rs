//! The question section.

use super::record_type::RecordType;
use vstd::prelude::*;

verus! {

/// The first question of a message.
#[derive(Debug)]
pub struct Question {
    /// The queried name, its labels joined by dots.
    pub domain_name: String,
    /// The queried record type.
    pub record_type: RecordType,
    /// The queried class; only the Internet class, 1, is in use.
    pub class: u16,
}

/// What a [`Question`] holds, as mathematical values.
pub struct QuestionView {
    pub domain_name: Seq<char>,
    pub record_type: RecordType,
    pub class: u16,
}

impl View for Question {
    type V = QuestionView;

    open spec fn view(&self) -> QuestionView {
        QuestionView {
            domain_name: self.domain_name@,
            record_type: self.record_type,
            class: self.class,
        }
    }
}

impl Clone for Question {
    fn clone(&self) -> (copy: Self)
        ensures
            copy == *self,
    {
        Question {
            domain_name: self.domain_name.clone(),
            record_type: self.record_type,
            class: self.class,
        }
    }
}

} // verus!
