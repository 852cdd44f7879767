use vstd::prelude::*;

verus! {

/// One finished exchange with the chat service: the full answer text.
#[derive(Debug)]
pub struct Interaction {
    pub response: String,
}

impl Interaction {
    /// Records an answer.
    pub fn new(response: String) -> (res: Self)
        ensures
            res.response@ == response@,
    {
        Self { response }
    }
}

} // verus!
