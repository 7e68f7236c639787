use vstd::prelude::*;

use crate::error::DecodeError;
use postcard::ser_flavors::Flavor;

verus! {

/// The COBS block that postcard's `Cobs` flavor writes for `payload`,
/// terminator zero included.
pub uninterp spec fn cobs_stuffed(payload: Seq<u8>) -> Seq<u8>;

/// What `cobs::decode_in_place` recovers from `data`, or `None` where it
/// reports the block as malformed.
pub uninterp spec fn cobs_unstuffed(data: Seq<u8>) -> Option<Seq<u8>>;

/// No byte of `s` is zero.
pub open spec fn zero_free(s: Seq<u8>) -> bool {
    forall|i: int| 0 <= i < s.len() ==> s[i] != 0
}

/// `block` is a COBS block: a zero-free run closed by one terminator zero.
pub open spec fn is_stuffed_block(block: Seq<u8>) -> bool {
    &&& block.len() >= 2
    &&& block.last() == 0
    &&& zero_free(block.drop_last())
}

#[verifier::external_type_specification]
#[verifier::external_body]
pub struct ExPostcardError(postcard::Error);

/// Relies on `postcard::ser_flavors::Cobs` over `AllocVec` (the flavor behind
/// `postcard::to_allocvec_cobs`): a placeholder byte, then every payload byte
/// (each zero turned into a code byte, one extra code byte after each run of
/// 254 non-zero bytes), then the terminator zero. `AllocVec` never reports
/// an error, and `cobs::decode_in_place` gives the payload back.
#[verifier::external_body]
fn stuff(payload: &[u8]) -> (r: Result<Vec<u8>, postcard::Error>)
    ensures
        r is Ok,
        r matches Ok(v) ==> v@ == cobs_stuffed(payload@),
        r matches Ok(v) ==> is_stuffed_block(v@),
        r matches Ok(v) ==> payload@.len() + 2 <= v@.len() <= payload@.len() + payload@.len()
            / 254 + 2,
        r matches Ok(v) ==> cobs_unstuffed(v@) == Some(payload@),
{
    let mut flavor = postcard::ser_flavors::Cobs::try_new(
        postcard::ser_flavors::AllocVec::new(),
    )?;
    flavor.try_extend(payload)?;
    flavor.finalize()
}

/// Relies on `cobs::decode_in_place` (what `postcard::from_bytes_cobs` runs
/// before deserializing): it decodes `data` up to its first zero byte and
/// returns the decoded length, or an error for a malformed block.
#[verifier::external_body]
fn unstuff(data: &[u8]) -> (r: Option<Vec<u8>>)
    ensures
        r matches Some(v) ==> cobs_unstuffed(data@) == Some(v@),
        r is None ==> cobs_unstuffed(data@) is None,
{
    let mut buf = data.to_vec();
    match cobs::decode_in_place(&mut buf) {
        Ok(n) => {
            buf.truncate(n);
            Some(buf)
        },
        Err(_) => None,
    }
}

/// Stuffs `payload` into one COBS block ending in its terminator zero.
pub fn encode(payload: &[u8]) -> (r: Vec<u8>)
    ensures
        r@ == cobs_stuffed(payload@),
        is_stuffed_block(r@),
        payload@.len() + 2 <= r@.len() <= payload@.len() + payload@.len() / 254 + 2,
        cobs_unstuffed(r@) == Some(payload@),
{
    match stuff(payload) {
        Ok(v) => v,
        Err(_) => {
            proof {
                assert(false);
            }
            Vec::new()
        },
    }
}

/// Reverses the stuffing of a COBS block; the bytes after its first zero are
/// ignored.
pub fn decode(data: &[u8]) -> (r: Result<Vec<u8>, DecodeError>)
    ensures
        r matches Ok(v) ==> cobs_unstuffed(data@) == Some(v@),
        r is Err ==> cobs_unstuffed(data@) is None,
{
    match unstuff(data) {
        Some(v) => Ok(v),
        None => Err(DecodeError),
    }
}

} // verus!
