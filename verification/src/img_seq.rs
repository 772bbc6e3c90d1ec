//! Errors raised while reading an image sequence.

use vstd::prelude::*;

verus! {

#[derive(Debug)]
pub struct ImgSeqError {
    description: String,
}

impl ImgSeqError {
    pub closed spec fn view(&self) -> Seq<char> {
        self.description@
    }

    pub fn new(description: String) -> (error: ImgSeqError)
        ensures
            error@ == description@,
    {
        ImgSeqError { description }
    }

    /// The text of the error, as it is shown to the user.
    pub fn to_string(&self) -> (text: String)
        ensures
            text@ == self@,
    {
        self.description.clone()
    }
}

} // verus!
