use vstd::prelude::*;

verus! {

/// The phrases a confession or reply may not contain.
pub open spec fn blocked_list() -> Seq<Seq<char>> {
    seq!["kill yourself"@, "kys"@, "go die"@]
}

/// The blocked phrases, in the order they are tested.
pub fn blocked_words() -> (v: Vec<&'static str>)
    ensures
        v@.len() == blocked_list().len(),
        forall|i: int| 0 <= i < v@.len() ==> #[trigger] v@[i]@ == blocked_list()[i],
{
    vec!["kill yourself", "kys", "go die"]
}

} // verus!
