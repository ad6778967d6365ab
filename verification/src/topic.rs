//! Keys of the key value store: the parts of a key stand between slashes.

use crate::text::{concat, decimal, decimal_text};
use vstd::prelude::*;

verus! {

/// A key with one more part.
pub open spec fn under(key: Seq<char>, part: Seq<char>) -> Seq<char> {
    key + "/"@ + part
}

/// A key with a number as one more part.
pub open spec fn under_number(key: Seq<char>, part: nat) -> Seq<char> {
    under(key, decimal(part))
}

/// Adds a part to a key.
pub fn below(key: String, part: &str) -> (longer: String)
    ensures
        longer@ == under(key@, part@),
{
    let mut longer = concat(key.as_str(), "/");
    longer.append(part);
    longer
}

/// Adds a number to a key.
pub fn below_number(key: String, part: u64) -> (longer: String)
    ensures
        longer@ == under_number(key@, part as nat),
{
    below(key, decimal_text(part).as_str())
}

/// A key with one more part begins with the key, goes on with one slash and ends
/// with the part. A number is written without leading zeros.
pub proof fn lemma_parts_of_a_key(key: Seq<char>, part: Seq<char>, number: nat)
    ensures
        under(key, part) == key.push('/') + part,
        under(key, part).take(key.len() as int) == key,
        under(key, part)[key.len() as int] == '/',
        under(key, part).skip(key.len() as int + 1) == part,
        under_number(key, number).skip(key.len() as int + 1) == decimal(number),
        under_number(key, number) == under(key, decimal(number)),
{
    reveal_strlit("/");
    assert(under(key, part) =~= key.push('/') + part);
    assert(under(key, part).take(key.len() as int) =~= key);
    assert(under(key, part).skip(key.len() as int + 1) =~= part);
    assert(under_number(key, number).skip(key.len() as int + 1) =~= decimal(number));
}

} // verus!
