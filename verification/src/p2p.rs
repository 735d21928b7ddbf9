//! Decision kernels of the peer-to-peer debug surface: the retry count
//! of a fetch loop, the trusted-peer configuration check, and the arity
//! check on a bodies response.

use vstd::prelude::*;

verus! {

/// The effective number of retries of a fetch: the configured count,
/// but at least one attempt.
pub fn effective_retry_count(retries: usize) -> (r: usize)
    ensures
        r == (if retries >= 1 {
            retries as int
        } else {
            1
        }),
        r >= 1,
{
    if retries == 0 {
        1
    } else {
        retries
    }
}

/// Whether the peer configuration is usable: a trusted-only node needs
/// at least one trusted peer.
pub fn trusted_peers_ok(trusted_peer_count: usize, trusted_only: bool) -> (r: bool)
    ensures
        r == !(trusted_only && trusted_peer_count == 0),
{
    !(trusted_only && trusted_peer_count == 0)
}

/// A bodies response for one requested hash must hold exactly one body.
pub fn single_body_response_ok(count: usize) -> (r: bool)
    ensures
        r == (count == 1),
{
    count == 1
}

} // verus!
