//! Ids that are derived from names, so that they are the same after a restart and on every node
//! that derives them.

use vstd::prelude::*;
use vstd::string::*;

use crate::text::{dec, decimal};
use crate::uuid::{name_based, v5, Uuid};

verus! {

/// The namespace that all ids are derived in.
pub const ID_NAMESPACE: u128 = 0x6d786c2d6272696467652d6e732d0000;

/// The id that a name has.
pub open spec fn stable(name: Seq<char>) -> u128 {
    v5(ID_NAMESPACE, name)
}

/// The id that a name has.
pub fn stable_id(name: &str) -> (r: Uuid)
    ensures
        r.bits == stable(name@),
        name_based(r.bits),
{
    Uuid::v5(Uuid { bits: ID_NAMESPACE }, name)
}

/// The id of a name behind a prefix.
pub fn prefixed_id(prefix: &str, name: &str) -> (r: Uuid)
    ensures
        r.bits == stable(prefix@ + name@),
        name_based(r.bits),
{
    let mut s = prefix.to_owned();
    s.append(name);
    stable_id(s.as_str())
}

/// The id of a number behind a prefix.
pub fn numbered_id(prefix: &str, n: u64) -> (r: Uuid)
    ensures
        r.bits == stable(prefix@ + dec(n as nat)),
        name_based(r.bits),
{
    prefixed_id(prefix, decimal(n).as_str())
}

} // verus!
