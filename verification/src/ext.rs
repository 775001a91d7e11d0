//! The two calls into outside crates that the logic needs: a random 32-bit
//! value and the machine's hostname.  Every function that uses one takes the
//! result as a plain value and is verified for every possible outcome.

use vstd::prelude::*;

verus! {

/// Relies on rand::random: a fresh random 32-bit value.  Nothing can be
/// promised of a random result, so this carries no contract.
#[verifier::external_body]
pub(crate) fn random_u32() -> u32 {
    rand::random()
}

/// Relies on whoami::fallible::hostname: the machine's hostname, as bytes.
/// The result depends on the machine, so nothing is promised of it.
#[verifier::external_body]
pub(crate) fn hostname_bytes() -> Option<Vec<u8>> {
    match whoami::fallible::hostname() {
        Ok(s) => Some(s.into_bytes()),
        Err(_) => None,
    }
}

/// The fallback node name when the hostname cannot be read.
pub open spec fn text_localhost() -> Seq<u8> {
    seq![108u8, 111, 99, 97, 108, 104, 111, 115, 116]
}

/// The node's default name: the hostname, or a fixed fallback.
pub fn default_node_name() -> (r: Vec<u8>)
{
    match hostname_bytes() {
        Some(n) => n,
        None => {
            let v: Vec<u8> = vec![108u8, 111, 99, 97, 108, 104, 111, 115, 116];
            proof {
                assert(v@ =~= text_localhost());
            }
            v
        },
    }
}

} // verus!
