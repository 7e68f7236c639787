//! The receiving side: at most one frame per call, resynchronizing on noise.
use vstd::prelude::*;

use crate::error::DecodeError;
use crate::frame::{
    at_package_start, decode_step, is_package_start, next_zero, outcome_view, received,
    resync_length, resync_skip, zero_from,
};
use crate::queue::{grant_bufs, release_grant, split_read};
use bbqueue::Consumer;

pub use crate::codec::decode;

verus! {

/// Runs one receive step on the buffered bytes: releases what it has dealt
/// with and returns `None` while no whole frame is buffered, else the payload
/// of the next frame or the error for a frame that does not unstuff.
pub fn receive<const N: usize>(cons: &mut Consumer<'_, N>) -> (r: Option<
    Result<Vec<u8>, DecodeError>,
>)
    ensures
        exists|s: Seq<u8>| s.len() <= N && outcome_view(r) == received(s),
{
    match split_read(cons) {
        Some(grant) => {
            let (first, second) = grant_bufs(&grant);
            let (count, outcome) = decode_step(first.as_slice(), second.as_slice());
            release_grant(grant, count);
            assert(outcome_view(outcome) == received(first@ + second@));
            outcome
        },
        None => {
            assert(received(Seq::<u8>::empty()) is None);
            None
        },
    }
}

/// Whether the buffered bytes start at a frame boundary.
pub fn is_at_package_start<const N: usize>(cons: &mut Consumer<'_, N>) -> (r: bool)
    ensures
        exists|s: Seq<u8>| s.len() <= N && r == at_package_start(s),
{
    match split_read(cons) {
        Some(grant) => {
            let (first, second) = grant_bufs(&grant);
            let r = is_package_start(first.as_slice(), second.as_slice());
            release_grant(grant, 0);
            assert(r == at_package_start(first@ + second@));
            r
        },
        None => {
            assert(!at_package_start(Seq::<u8>::empty()));
            false
        },
    }
}

/// Drops leading noise: the non-zero bytes before the first zero and all but
/// the last zero of the run that follows. Drops nothing at a boundary or
/// while no zero is buffered.
pub fn skip_to_package_start<const N: usize>(cons: &mut Consumer<'_, N>) -> (r: usize)
    ensures
        exists|s: Seq<u8>| s.len() <= N && r == resync_skip(s),
{
    match split_read(cons) {
        Some(grant) => {
            let (first, second) = grant_bufs(&grant);
            let count = resync_length(first.as_slice(), second.as_slice());
            release_grant(grant, count);
            assert(count == resync_skip(first@ + second@));
            count
        },
        None => {
            assert(resync_skip(Seq::<u8>::empty()) == 0);
            0
        },
    }
}

/// Index of the first zero after the first buffered byte: the end of the
/// frame that starts there, if it is all buffered.
pub fn find_package_end<const N: usize>(cons: &mut Consumer<'_, N>) -> (r: Option<usize>)
    ensures
        exists|s: Seq<u8>|
            s.len() <= N && (match r {
                Some(e) => e == next_zero(s, 1) && e < s.len(),
                None => next_zero(s, 1) >= s.len(),
            }),
{
    match split_read(cons) {
        Some(grant) => {
            let (first, second) = grant_bufs(&grant);
            release_grant(grant, 0);
            let ghost s = first@ + second@;
            let len = first.len() + second.len();
            if len < 1 {
                assert(next_zero(s, 1) >= s.len());
                return None;
            }
            let end = zero_from(first.as_slice(), second.as_slice(), 1);
            if end < len {
                Some(end)
            } else {
                None
            }
        },
        None => {
            assert(next_zero(Seq::<u8>::empty(), 1) >= 0);
            None
        },
    }
}

} // verus!
