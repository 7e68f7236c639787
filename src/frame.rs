use vstd::prelude::*;

use crate::codec::{cobs_stuffed, cobs_unstuffed, decode, is_stuffed_block};
use crate::error::DecodeError;

verus! {

// The stream model. `s` is everything the receiving ring buffer holds, oldest
// byte first. A frame on the wire is `0, length, block` where `block` is a
// COBS block whose only zero is its last byte; that terminator doubles as the
// leading zero of the next frame.

/// Index of the first zero of `s` at or after `i`, or `s.len()` if there is none.
pub open spec fn next_zero(s: Seq<u8>, i: int) -> int
    decreases s.len() - i,
{
    if i < 0 || i >= s.len() {
        s.len() as int
    } else if s[i] == 0 {
        i
    } else {
        next_zero(s, i + 1)
    }
}

/// Index of the first non-zero byte of `s` at or after `i`, or `s.len()` if there is none.
pub open spec fn next_nonzero(s: Seq<u8>, i: int) -> int
    decreases s.len() - i,
{
    if i < 0 || i >= s.len() {
        s.len() as int
    } else if s[i] != 0 {
        i
    } else {
        next_nonzero(s, i + 1)
    }
}

/// The stream starts at a frame boundary: a zero followed by a non-zero byte.
pub open spec fn at_package_start(s: Seq<u8>) -> bool {
    s.len() >= 2 && s[0] == 0 && s[1] != 0
}

/// How many leading bytes resynchronization drops: none at a boundary or when
/// no zero has arrived yet; otherwise the leading non-zero bytes and all but
/// the last zero of the run that follows them.
pub open spec fn resync_skip(s: Seq<u8>) -> int {
    if at_package_start(s) || next_zero(s, 0) == s.len() {
        0
    } else {
        next_nonzero(s, next_zero(s, 0)) - 1
    }
}

/// Index of the terminator of the frame that starts at the boundary.
pub open spec fn terminator(s: Seq<u8>) -> int {
    next_zero(s, resync_skip(s) + 1)
}

/// A whole frame is buffered after the boundary.
pub open spec fn frame_complete(s: Seq<u8>) -> bool {
    terminator(s) < s.len()
}

/// The COBS block of the frame at the boundary: after the boundary zero and
/// the length byte, up to and including the terminator.
pub open spec fn frame_block(s: Seq<u8>) -> Seq<u8> {
    s.subrange(resync_skip(s) + 2, terminator(s) + 1)
}

/// How many bytes one receive step releases: through the byte before the
/// terminator when a frame is complete (the terminator stays as the next
/// boundary), else what resynchronization dropped.
pub open spec fn consumed(s: Seq<u8>) -> int {
    if frame_complete(s) {
        terminator(s)
    } else {
        resync_skip(s)
    }
}

/// What one receive step reports: nothing while no frame is complete, else
/// the unstuffed payload of the frame or a decode error.
pub open spec fn received(s: Seq<u8>) -> Option<Result<Seq<u8>, DecodeError>> {
    if frame_complete(s) {
        match cobs_unstuffed(frame_block(s)) {
            Some(p) => Some(Ok(p)),
            None => Some(Err(DecodeError)),
        }
    } else {
        None
    }
}

/// The stream left after one receive step.
pub open spec fn after_step(s: Seq<u8>) -> Seq<u8> {
    s.skip(consumed(s))
}

/// The frame that carries `payload`: its length byte (the block length, kept
/// to eight bits), then the COBS block.
pub open spec fn frame_of(payload: Seq<u8>) -> Seq<u8> {
    seq![(cobs_stuffed(payload).len() % 256) as u8] + cobs_stuffed(payload)
}

/// `f` is a frame whose block unstuffs to `payload` and whose length byte is
/// not zero.
pub open spec fn is_frame_of(f: Seq<u8>, payload: Seq<u8>) -> bool {
    &&& f.len() >= 3
    &&& f[0] != 0
    &&& is_stuffed_block(f.drop_first())
    &&& cobs_unstuffed(f.drop_first()) == Some(payload)
}

/// The exec view of a receive outcome.
pub open spec fn outcome_view(o: Option<Result<Vec<u8>, DecodeError>>) -> Option<
    Result<Seq<u8>, DecodeError>,
> {
    match o {
        None => None,
        Some(Ok(v)) => Some(Ok(v@)),
        Some(Err(e)) => Some(Err(e)),
    }
}

/// The stream held in two segments, as one sequence of bytes.
pub fn join_segments(first: &[u8], second: &[u8]) -> (r: Vec<u8>)
    ensures
        r@ == first@ + second@,
{
    let mut out: Vec<u8> = Vec::new();
    out.extend_from_slice(first);
    let mut i: usize = 0;
    while i < second.len()
        invariant
            i <= second@.len(),
            out@ == first@ + second@.subrange(0, i as int),
        decreases second.len() - i,
    {
        out.push(second[i]);
        i = i + 1;
    }
    assert(second@.subrange(0, second@.len() as int) =~= second@);
    out
}

/// Byte `i` of the stream held in two segments.
fn byte_at(first: &[u8], second: &[u8], i: usize) -> (b: u8)
    requires
        i < first@.len() + second@.len(),
    ensures
        b == (first@ + second@)[i as int],
{
    if i < first.len() {
        first[i]
    } else {
        second[i - first.len()]
    }
}

/// Index of the first zero at or after `from` in the two segments.
pub(crate) fn zero_from(first: &[u8], second: &[u8], from: usize) -> (r: usize)
    requires
        from <= first@.len() + second@.len() <= usize::MAX,
    ensures
        r as int == next_zero(first@ + second@, from as int),
        from <= r <= first@.len() + second@.len(),
{
    let ghost s = first@ + second@;
    let len = first.len() + second.len();
    let mut i: usize = from;
    while i < len
        invariant
            from <= i <= len,
            len == s.len(),
            s == first@ + second@,
            next_zero(s, i as int) == next_zero(s, from as int),
        decreases len - i,
    {
        if byte_at(first, second, i) == 0 {
            return i;
        }
        i = i + 1;
    }
    i
}

/// Index of the first non-zero byte at or after `from` in the two segments.
fn find_nonzero(first: &[u8], second: &[u8], from: usize) -> (r: usize)
    requires
        from <= first@.len() + second@.len() <= usize::MAX,
    ensures
        r as int == next_nonzero(first@ + second@, from as int),
        from <= r <= first@.len() + second@.len(),
{
    let ghost s = first@ + second@;
    let len = first.len() + second.len();
    let mut i: usize = from;
    while i < len
        invariant
            from <= i <= len,
            len == s.len(),
            s == first@ + second@,
            next_nonzero(s, i as int) == next_nonzero(s, from as int),
        decreases len - i,
    {
        if byte_at(first, second, i) != 0 {
            return i;
        }
        i = i + 1;
    }
    i
}

/// Whether the stream in the two segments starts at a frame boundary.
pub fn is_package_start(first: &[u8], second: &[u8]) -> (r: bool)
    requires
        first@.len() + second@.len() <= usize::MAX,
    ensures
        r == at_package_start(first@ + second@),
{
    let len = first.len() + second.len();
    len >= 2 && byte_at(first, second, 0) == 0 && byte_at(first, second, 1) != 0
}

/// How many leading bytes resynchronization drops from the stream in the two
/// segments.
pub fn resync_length(first: &[u8], second: &[u8]) -> (r: usize)
    requires
        first@.len() + second@.len() <= usize::MAX,
    ensures
        r as int == resync_skip(first@ + second@),
        r as int <= first@.len() + second@.len(),
{
    let ghost s = first@ + second@;
    if is_package_start(first, second) {
        return 0;
    }
    let zero = zero_from(first, second, 0);
    if zero == first.len() + second.len() {
        return 0;
    }
    proof {
        lemma_next_zero_bounds(s, 0);
    }
    let run_end = find_nonzero(first, second, zero);
    proof {
        lemma_next_nonzero_bounds(s, zero as int + 1);
        assert(next_nonzero(s, zero as int) == next_nonzero(s, zero as int + 1));
    }
    run_end - 1
}

/// One receive step on the stream held in two segments (the second is
/// non-empty only where the buffered region wraps around): how many leading
/// bytes to release, and the payload of the frame at the boundary (or a
/// decode error) once a whole frame is buffered.
pub fn decode_step(first: &[u8], second: &[u8]) -> (r: (usize, Option<Result<Vec<u8>, DecodeError>>))
    requires
        first@.len() + second@.len() <= usize::MAX,
    ensures
        r.0 as int == consumed(first@ + second@),
        outcome_view(r.1) == received(first@ + second@),
{
    let ghost s = first@ + second@;
    let len = first.len() + second.len();
    let skip = resync_length(first, second);
    if skip == len {
        return (skip, None);
    }
    let end = zero_from(first, second, skip + 1);
    if end == len {
        return (skip, None);
    }
    proof {
        lemma_boundary_after_resync(s);
    }
    let mut block: Vec<u8> = Vec::new();
    let mut i: usize = skip + 2;
    while i <= end
        invariant
            skip + 2 <= i <= end + 1,
            end < len,
            len == s.len(),
            s == first@ + second@,
            block@ == s.subrange(skip + 2, i as int),
        decreases end + 1 - i,
    {
        let b = byte_at(first, second, i);
        block.push(b);
        i = i + 1;
    }
    assert(block@ == frame_block(s));
    (end, Some(decode(block.as_slice())))
}

proof fn lemma_next_zero_bounds(s: Seq<u8>, i: int)
    requires
        0 <= i,
    ensures
        i <= next_zero(s, i) <= s.len() || (i > s.len() && next_zero(s, i) == s.len()),
        next_zero(s, i) < s.len() ==> s[next_zero(s, i)] == 0,
        forall|j: int| i <= j < next_zero(s, i) ==> s[j] != 0,
    decreases s.len() - i,
{
    if i < s.len() && s[i] != 0 {
        lemma_next_zero_bounds(s, i + 1);
    }
}

proof fn lemma_next_nonzero_bounds(s: Seq<u8>, i: int)
    requires
        0 <= i,
    ensures
        i <= next_nonzero(s, i) <= s.len() || (i > s.len() && next_nonzero(s, i) == s.len()),
        next_nonzero(s, i) < s.len() ==> s[next_nonzero(s, i)] != 0,
        forall|j: int| i <= j < next_nonzero(s, i) ==> s[j] == 0,
    decreases s.len() - i,
{
    if i < s.len() && s[i] == 0 {
        lemma_next_nonzero_bounds(s, i + 1);
    }
}

/// Where resynchronization stops short of the end, it stops on a zero that is
/// followed by a non-zero byte, if by anything.
proof fn lemma_boundary_after_resync(s: Seq<u8>)
    ensures
        0 <= resync_skip(s) <= s.len(),
        resync_skip(s) < s.len() && next_zero(s, 0) < s.len() ==> s[resync_skip(s)] == 0,
        resync_skip(s) + 1 < s.len() && next_zero(s, 0) < s.len() ==> s[resync_skip(s) + 1]
            != 0,
        frame_complete(s) ==> resync_skip(s) + 2 <= terminator(s) < s.len(),
        frame_complete(s) ==> s[terminator(s)] == 0,
        frame_complete(s) ==> s[resync_skip(s)] == 0,
{
    lemma_next_zero_bounds(s, 0);
    let z = next_zero(s, 0);
    if z < s.len() {
        lemma_next_nonzero_bounds(s, z);
    }
    let k = resync_skip(s);
    lemma_next_zero_bounds(s, k + 1);
}

proof fn lemma_next_zero_at(s: Seq<u8>, i: int, j: int)
    requires
        0 <= i <= j < s.len(),
        s[j] == 0,
        forall|k: int| i <= k < j ==> s[k] != 0,
    ensures
        next_zero(s, i) == j,
    decreases j - i,
{
    if i < j {
        lemma_next_zero_at(s, i + 1, j);
    }
}

proof fn lemma_next_zero_le(s: Seq<u8>, i: int, j: int)
    requires
        0 <= i <= j < s.len(),
        s[j] == 0,
    ensures
        next_zero(s, i) <= j,
{
    lemma_next_zero_bounds(s, i);
}

proof fn lemma_next_nonzero_le(s: Seq<u8>, i: int, j: int)
    requires
        0 <= i <= j < s.len(),
        s[j] != 0,
    ensures
        next_nonzero(s, i) <= j,
{
    lemma_next_nonzero_bounds(s, i);
}

/// The stream after `k` receive steps.
pub open spec fn stream_after(s: Seq<u8>, k: nat) -> Seq<u8>
    decreases k,
{
    if k == 0 {
        s
    } else {
        stream_after(after_step(s), (k - 1) as nat)
    }
}

/// A frame right after a boundary is received whole: the step reports its
/// payload and releases everything up to its terminator, which becomes the
/// boundary in front of whatever follows.
pub proof fn lemma_frame_round_trip(f: Seq<u8>, payload: Seq<u8>, rest: Seq<u8>)
    requires
        is_frame_of(f, payload),
    ensures
        received(seq![0u8] + f + rest) == Some(Ok::<Seq<u8>, DecodeError>(payload)),
        consumed(seq![0u8] + f + rest) == f.len(),
        after_step(seq![0u8] + f + rest) == seq![0u8] + rest,
{
    let s = seq![0u8] + f + rest;
    assert(at_package_start(s));
    assert(resync_skip(s) == 0);
    let block = f.drop_first();
    assert forall|k: int| 1 <= k < f.len() as int implies s[k] != 0 by {
        if k >= 2 {
            assert(s[k] == block.drop_last()[k - 2]);
        }
    }
    assert(s[f.len() as int] == block.last());
    lemma_next_zero_at(s, 1, f.len() as int);
    assert(frame_block(s) =~= block);
    assert(after_step(s) =~= seq![0u8] + rest);
}

/// Two frames buffered back to back come out one per step, in order.
pub proof fn lemma_one_frame_per_step(
    f1: Seq<u8>,
    p1: Seq<u8>,
    f2: Seq<u8>,
    p2: Seq<u8>,
    rest: Seq<u8>,
)
    requires
        is_frame_of(f1, p1),
        is_frame_of(f2, p2),
    ensures
        received(seq![0u8] + f1 + f2 + rest) == Some(Ok::<Seq<u8>, DecodeError>(p1)),
        after_step(seq![0u8] + f1 + f2 + rest) == seq![0u8] + f2 + rest,
        received(after_step(seq![0u8] + f1 + f2 + rest)) == Some(Ok::<Seq<u8>, DecodeError>(p2)),
        stream_after(seq![0u8] + f1 + f2 + rest, 2) == seq![0u8] + rest,
{
    assert(seq![0u8] + f1 + f2 + rest =~= seq![0u8] + f1 + (f2 + rest));
    lemma_frame_round_trip(f1, p1, f2 + rest);
    assert(seq![0u8] + (f2 + rest) =~= seq![0u8] + f2 + rest);
    lemma_frame_round_trip(f2, p2, rest);
    let s = seq![0u8] + f1 + f2 + rest;
    assert(stream_after(s, 2) == stream_after(after_step(s), 1));
    assert(stream_after(after_step(s), 1) == stream_after(after_step(after_step(s)), 0));
}

/// A frame-shaped block that does not unstuff is reported once as a decode
/// error, all its bytes are released, and the frame after it is received.
pub proof fn lemma_bad_frame_dropped(
    length: u8,
    bad: Seq<u8>,
    f: Seq<u8>,
    payload: Seq<u8>,
    rest: Seq<u8>,
)
    requires
        length != 0,
        is_stuffed_block(bad),
        cobs_unstuffed(bad) is None,
        is_frame_of(f, payload),
    ensures
        received(seq![0u8, length] + bad + f + rest) == Some(
            Err::<Seq<u8>, DecodeError>(DecodeError),
        ),
        after_step(seq![0u8, length] + bad + f + rest) == seq![0u8] + f + rest,
        received(after_step(seq![0u8, length] + bad + f + rest)) == Some(
            Ok::<Seq<u8>, DecodeError>(payload),
        ),
{
    let g = seq![length] + bad;
    assert(g.drop_first() =~= bad);
    assert(seq![0u8, length] + bad + f + rest =~= seq![0u8] + g + (f + rest));
    let s = seq![0u8] + g + (f + rest);
    assert(at_package_start(s));
    assert forall|k: int| 1 <= k < g.len() as int implies s[k] != 0 by {
        if k >= 2 {
            assert(s[k] == bad.drop_last()[k - 2]);
        }
    }
    assert(s[g.len() as int] == bad.last());
    lemma_next_zero_at(s, 1, g.len() as int);
    assert(frame_block(s) =~= bad);
    assert(after_step(s) =~= seq![0u8] + (f + rest));
    assert(seq![0u8] + (f + rest) =~= seq![0u8] + f + rest);
    lemma_frame_round_trip(f, payload, rest);
}

/// Whatever bytes come before a boundary zero, repeated receive steps reach
/// the frame that follows it: within `noise.len() + 1` steps one of them
/// reports its payload and leaves only its terminator in front of the rest.
pub proof fn lemma_resync(noise: Seq<u8>, f: Seq<u8>, payload: Seq<u8>, rest: Seq<u8>)
    requires
        is_frame_of(f, payload),
    ensures
        exists|k: nat|
            k <= noise.len() && received(#[trigger] stream_after(noise + seq![0u8] + f + rest, k))
                == Some(Ok::<Seq<u8>, DecodeError>(payload)) && after_step(
                stream_after(noise + seq![0u8] + f + rest, k),
            ) == seq![0u8] + rest,
    decreases noise.len(),
{
    let s = noise + seq![0u8] + f + rest;
    let q = noise.len() as int;
    if q == 0 {
        assert(s =~= seq![0u8] + f + rest);
        lemma_frame_round_trip(f, payload, rest);
        assert(stream_after(s, 0) == s);
        return;
    }
    assert(s[q] == 0);
    assert(s[q + 1] == f[0]);
    lemma_next_zero_le(s, 0, q);
    lemma_next_zero_bounds(s, 0);
    let z = next_zero(s, 0);
    if !at_package_start(s) {
        lemma_next_nonzero_le(s, z, q + 1);
    }
    lemma_boundary_after_resync(s);
    let k = resync_skip(s);
    assert(k <= q);
    if k == q {
        // The boundary in front of `f` is reached in this very step.
        let t = seq![0u8] + f + rest;
        assert forall|i: int| q + 1 <= i < q + f.len() implies s[i] != 0 by {
            assert(s[i] == t[i - q]);
            if i - q >= 2 {
                assert(t[i - q] == f.drop_first().drop_last()[i - q - 2]);
            }
        }
        assert(s[q + f.len()] == f.drop_first().last());
        lemma_next_zero_at(s, q + 1, q + f.len());
        assert(frame_block(s) =~= f.drop_first());
        assert(after_step(s) =~= seq![0u8] + rest);
        assert(stream_after(s, 0) == s);
    } else {
        // A frame inside the noise ends at or before the boundary of `f`.
        lemma_next_zero_le(s, k + 1, q);
        lemma_next_zero_bounds(s, k + 1);
        let e = terminator(s);
        assert(1 <= e <= q);
        let shorter = noise.skip(e);
        assert(after_step(s) =~= shorter + seq![0u8] + f + rest);
        lemma_resync(shorter, f, payload, rest);
        let k2 = choose|k2: nat|
            k2 <= shorter.len() && received(
                #[trigger] stream_after(shorter + seq![0u8] + f + rest, k2),
            ) == Some(Ok::<Seq<u8>, DecodeError>(payload)) && after_step(
                stream_after(shorter + seq![0u8] + f + rest, k2),
            ) == seq![0u8] + rest;
        assert(stream_after(s, k2 + 1) == stream_after(after_step(s), k2));
    }
}

/// A receive step never releases more than is buffered, and a step that
/// releases nothing reports nothing.
pub proof fn lemma_step_progress(s: Seq<u8>)
    ensures
        0 <= consumed(s) <= s.len(),
        consumed(s) == 0 ==> received(s) is None && after_step(s) == s,
{
    lemma_boundary_after_resync(s);
    if consumed(s) == 0 {
        assert(after_step(s) =~= s);
    }
}

proof fn lemma_next_zero_skip(s: Seq<u8>, k: int, i: int)
    requires
        0 <= k <= s.len(),
        0 <= i,
    ensures
        next_zero(s.skip(k), i) == next_zero(s, k + i) - k,
    decreases s.len() - k - i,
{
    if k + i < s.len() && s[k + i] != 0 {
        lemma_next_zero_skip(s, k, i + 1);
    }
}

/// A receive step that reports nothing leaves the stream at rest: calling
/// again with no new bytes releases nothing and reports nothing.
pub proof fn lemma_quiet_step_is_fixpoint(s: Seq<u8>)
    requires
        received(s) is None,
    ensures
        consumed(after_step(s)) == 0,
        received(after_step(s)) is None,
        after_step(after_step(s)) == after_step(s),
{
    lemma_boundary_after_resync(s);
    let k = resync_skip(s);
    let t = s.skip(k);
    assert(after_step(s) == t);
    lemma_next_zero_bounds(s, k + 1);
    assert(next_zero(s, k + 1) == s.len());
    lemma_next_zero_skip(s, k, 1);
    assert(next_zero(t, 1) == t.len());
    if next_zero(s, 0) == s.len() {
        lemma_next_zero_bounds(s, 0);
        assert(t =~= s);
    } else if t.len() >= 2 {
        assert(t[0] == s[k]);
        assert(t[1] == s[k + 1]);
        assert(at_package_start(t));
    } else if t.len() == 1 {
        lemma_next_zero_bounds(s, 0);
        assert(s[k] == 0);
        assert(t[0] == s[k]);
        assert(next_zero(t, 0) == 0);
        assert(next_nonzero(t, 1) == 1);
        assert(next_nonzero(t, 0) == 1);
    }
    assert(resync_skip(t) == 0);
    assert(t.skip(0) =~= t);
}

/// Repeated receive steps come to rest: after as many steps as there are
/// buffered bytes, a further step releases nothing and reports nothing.
pub proof fn lemma_steps_terminate(s: Seq<u8>, k: nat)
    requires
        k >= s.len(),
    ensures
        consumed(stream_after(s, k)) == 0,
        received(stream_after(s, k)) is None,
    decreases s.len(),
{
    lemma_step_progress(s);
    if consumed(s) == 0 {
        lemma_fixpoint_stays(s, k);
    } else {
        let t = after_step(s);
        assert(t.len() < s.len());
        lemma_steps_terminate(t, (k - 1) as nat);
    }
    lemma_step_progress(stream_after(s, k));
}

proof fn lemma_fixpoint_stays(s: Seq<u8>, k: nat)
    requires
        consumed(s) == 0,
    ensures
        stream_after(s, k) == s,
    decreases k,
{
    lemma_step_progress(s);
    if k > 0 {
        lemma_fixpoint_stays(s, (k - 1) as nat);
    }
}

} // verus!


