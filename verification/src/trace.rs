use vstd::prelude::*;

verus! {

/// A change that applying the rules made to a phrase: which rule group made it.
#[derive(Debug, Clone, Copy, PartialEq, Eq)]
pub struct Change {
    pub rule_index: usize,
}

} // verus!
