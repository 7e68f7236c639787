//! A transport session: the ring-buffer handles of both directions, as the
//! link adapter and the message logic of one end of the link share them.
use vstd::prelude::*;

use crate::error::{DecodeError, TransportError};
use crate::frame::{frame_of, join_segments, outcome_view, received};
use crate::queue::{grant_bufs, release_grant, split_read, write_all};
use bbqueue::{Consumer, Producer};

verus! {

pub struct Session<'a, const N: usize> {
    /// Outgoing frames are written here ...
    pub tx_producer: Producer<'a, N>,
    /// ... and taken from here by the link adapter.
    pub tx_consumer: Consumer<'a, N>,
    /// Received bytes are put here by the link adapter ...
    pub rx_producer: Producer<'a, N>,
    /// ... and decoded from here.
    pub rx_consumer: Consumer<'a, N>,
}

impl<'a, const N: usize> Session<'a, N> {
    pub fn new(
        tx_producer: Producer<'a, N>,
        tx_consumer: Consumer<'a, N>,
        rx_producer: Producer<'a, N>,
        rx_consumer: Consumer<'a, N>,
    ) -> (r: Self)
        ensures
            r.tx_producer == tx_producer,
            r.tx_consumer == tx_consumer,
            r.rx_producer == rx_producer,
            r.rx_consumer == rx_consumer,
    {
        Session { tx_producer, tx_consumer, rx_producer, rx_consumer }
    }

    /// Marks the first frame boundary on the outgoing side.
    pub fn setup(&mut self) -> (r: Result<(), TransportError>)
        ensures
            N == 0 ==> r == Err::<(), TransportError>(TransportError::InsufficientSpace),
            final(self).rx_consumer == old(self).rx_consumer,
            final(self).rx_producer == old(self).rx_producer,
            final(self).tx_consumer == old(self).tx_consumer,
    {
        crate::send::setup(&mut self.tx_producer)
    }

    /// Queues the frame of `payload`, whole or not at all.
    pub fn try_send(&mut self, payload: &[u8]) -> (r: Result<(), TransportError>)
        ensures
            frame_of(payload@).len() > N ==> r == Err::<(), TransportError>(
                TransportError::InsufficientSpace,
            ),
            final(self).rx_consumer == old(self).rx_consumer,
            final(self).rx_producer == old(self).rx_producer,
            final(self).tx_consumer == old(self).tx_consumer,
    {
        crate::send::send(&mut self.tx_producer, payload)
    }

    /// Decodes at most one received frame.
    pub fn poll_receive(&mut self) -> (r: Option<Result<Vec<u8>, DecodeError>>)
        ensures
            exists|s: Seq<u8>| s.len() <= N && outcome_view(r) == received(s),
            final(self).rx_producer == old(self).rx_producer,
            final(self).tx_consumer == old(self).tx_consumer,
            final(self).tx_producer == old(self).tx_producer,
    {
        crate::receive::receive(&mut self.rx_consumer)
    }

    /// Hands one byte read from the link to the receiving side; `false` when
    /// the receive buffer has no room for it.
    pub fn feed(&mut self, byte: u8) -> (r: bool)
        ensures
            N == 0 ==> !r,
            final(self).rx_consumer == old(self).rx_consumer,
            final(self).tx_consumer == old(self).tx_consumer,
            final(self).tx_producer == old(self).tx_producer,
    {
        let one: [u8; 1] = [byte];
        write_all(&mut self.rx_producer, one.as_slice())
    }

    /// Takes every byte waiting to go out on the link, oldest first: both
    /// pieces of the buffered region, joined, all of them released.
    pub fn drain(&mut self) -> (r: Vec<u8>)
        ensures
            r@.len() <= N,
            exists|first: Seq<u8>, second: Seq<u8>|
                first.len() + second.len() <= N && r@ == first + second,
            final(self).rx_consumer == old(self).rx_consumer,
            final(self).rx_producer == old(self).rx_producer,
            final(self).tx_producer == old(self).tx_producer,
    {
        let grant = match split_read(&mut self.tx_consumer) {
            Some(grant) => grant,
            None => {
                let empty: Vec<u8> = Vec::new();
                assert(empty@ =~= Seq::<u8>::empty() + Seq::<u8>::empty());
                return empty;
            },
        };
        let (first, second) = grant_bufs(&grant);
        let out = join_segments(first.as_slice(), second.as_slice());
        release_grant(grant, out.len());
        out
    }
}

} // verus!
