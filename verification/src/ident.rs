//! Fresh identifiers for resources and nodes.

use vstd::prelude::*;

verus! {

/// Draws a random version-4 UUID with `uuid::Uuid::new_v4` and prints it
/// with `to_string`. The text is the hyphenated form, which always has 36
/// characters; nothing else is known of it, and two calls may well return
/// different texts.
#[verifier::external_body]
pub(crate) fn random_uuid() -> (id: String)
    ensures
        id@.len() == 36,
{
    uuid::Uuid::new_v4().to_string()
}

/// A new identifier. It has 36 characters.
pub fn fresh_id() -> (id: String)
    ensures
        id@.len() == 36,
{
    random_uuid()
}

/// `count` new identifiers.
pub fn fresh_ids(count: usize) -> (ids: Vec<String>)
    ensures
        ids@.len() == count,
        forall|i: int| 0 <= i < count ==> (#[trigger] ids@[i])@.len() == 36,
{
    let mut ids: Vec<String> = Vec::new();
    while ids.len() < count
        invariant
            ids@.len() <= count,
            forall|i: int| 0 <= i < ids@.len() ==> (#[trigger] ids@[i])@.len() == 36,
        decreases count - ids@.len(),
    {
        ids.push(random_uuid());
    }
    ids
}

} // verus!
