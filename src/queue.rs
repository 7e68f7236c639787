//! The ring buffers: bbqueue's single-producer / single-consumer byte queue.
//!
//! A consumer's buffered bytes change under it while a producer commits
//! (from an interrupt handler, say), so they get no name here: a read hands
//! out a snapshot, of which only its bound is known, and the verified code
//! works on that snapshot.
use vstd::prelude::*;

verus! {

#[verifier::external_type_specification]
#[verifier::external_body]
pub struct ExProducer<'a, const N: usize>(bbqueue::Producer<'a, N>);

#[verifier::external_type_specification]
#[verifier::external_body]
pub struct ExConsumer<'a, const N: usize>(bbqueue::Consumer<'a, N>);

/// Relies on `Producer::grant_exact` and `GrantW::commit`: a grant of exactly
/// `bytes.len()` contiguous bytes is taken, filled and committed whole, or
/// the request is refused and nothing is written. A request for more than
/// the capacity `N` is always refused.
#[verifier::external_body]
pub(crate) fn write_all<const N: usize>(prod: &mut bbqueue::Producer<'_, N>, bytes: &[u8]) -> (r:
    bool)
    ensures
        bytes@.len() > N ==> !r,
{
    match prod.grant_exact(bytes.len()) {
        Ok(mut grant) => {
            grant.buf().copy_from_slice(bytes);
            grant.commit(bytes.len());
            true
        },
        Err(_) => false,
    }
}

#[verifier::external_type_specification]
#[verifier::external_body]
pub struct ExSplitGrantR<'a, const N: usize>(bbqueue::SplitGrantR<'a, N>);

/// Relies on `Consumer::split_read`: a read grant over every committed,
/// unreleased byte, or an error (mapped to `None`) when nothing is buffered
/// or a read grant is already held.
#[verifier::external_body]
pub(crate) fn split_read<'a, const N: usize>(cons: &mut bbqueue::Consumer<'a, N>) -> (r: Option<
    bbqueue::SplitGrantR<'a, N>,
>) {
    cons.split_read().ok()
}

/// Relies on `SplitGrantR::bufs`: copies of the granted bytes, oldest first,
/// in the two contiguous pieces the backing storage holds them in (the
/// second is empty unless the region wraps). Together they are at most the
/// capacity `N`.
#[verifier::external_body]
pub(crate) fn grant_bufs<const N: usize>(grant: &bbqueue::SplitGrantR<'_, N>) -> (r: (
    Vec<u8>,
    Vec<u8>,
))
    ensures
        r.0@.len() + r.1@.len() <= N,
{
    let (first, second) = grant.bufs();
    (first.to_vec(), second.to_vec())
}

/// Relies on `SplitGrantR::release`: frees the oldest `count` granted bytes
/// (all of them, if `count` is larger) and ends the grant.
#[verifier::external_body]
pub(crate) fn release_grant<const N: usize>(grant: bbqueue::SplitGrantR<'_, N>, count: usize) {
    grant.release(count)
}

} // verus!
