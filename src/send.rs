//! The sending side: frames go into the transmit ring buffer whole or not at all.
use vstd::prelude::*;

use crate::error::TransportError;
use crate::frame::{frame_of, is_frame_of};
use crate::queue::write_all;
use bbqueue::Producer;

pub use crate::codec::encode;

verus! {

/// The frame that carries `payload`: a length byte, then the COBS block with
/// its terminator.
pub fn encode_frame(payload: &[u8]) -> (r: Vec<u8>)
    ensures
        r@ == frame_of(payload@),
        r@[0] != 0 ==> is_frame_of(r@, payload@),
        payload@.len() <= 253 ==> is_frame_of(r@, payload@),
{
    let block = encode(payload);
    let mut frame: Vec<u8> = Vec::new();
    frame.push((block.len() % 256) as u8);
    frame.extend_from_slice(block.as_slice());
    assert(frame@ =~= frame_of(payload@));
    assert(frame@.drop_first() =~= block@);
    if block.len() <= 255 {
        assert(frame@[0] != 0);
    }
    frame
}

/// Writes the single zero that marks the first frame boundary. Call it once,
/// before the first `send`.
pub fn setup<const N: usize>(prod: &mut Producer<'_, N>) -> (r: Result<(), TransportError>)
    ensures
        N == 0 ==> r == Err::<(), TransportError>(TransportError::InsufficientSpace),
{
    let boundary: [u8; 1] = [0u8];
    if write_all(prod, boundary.as_slice()) {
        Ok(())
    } else {
        Err(TransportError::InsufficientSpace)
    }
}

/// Queues the frame of `payload` for transmission without blocking. It is
/// committed whole, or refused with `InsufficientSpace` and nothing written.
pub fn send<const N: usize>(prod: &mut Producer<'_, N>, payload: &[u8]) -> (r: Result<
    (),
    TransportError,
>)
    ensures
        frame_of(payload@).len() > N ==> r == Err::<(), TransportError>(
            TransportError::InsufficientSpace,
        ),
{
    let frame = encode_frame(payload);
    if write_all(prod, frame.as_slice()) {
        Ok(())
    } else {
        Err(TransportError::InsufficientSpace)
    }
}

} // verus!
