//! The checks and the pixel layout around face recognition.

use vstd::prelude::*;

use crate::decimal::{decimal, decimal_of};
use crate::error::{DetectError, ErrorView};
use crate::text::owned;
use crate::types::Frame;

verus! {

broadcast use vstd::string::group_string_axioms;

/// Side length of the model's square input.
pub const INPUT_SIZE: u32 = 112;

/// Embedding width.
pub const EMBEDDING_DIM: usize = 512;

/// Name of the model's input tensor.
pub const INPUT_NAME: &'static str = "input.1";

/// Name of the model's output tensor.
pub const OUTPUT_NAME: &'static str = "516";

/// Refuse a frame whose buffer is not as long as its size asks for.
pub fn check_frame(frame: &Frame) -> (r: Result<(), DetectError>)
    requires
        frame.packed_len() <= usize::MAX,
    ensures
        r is Ok <==> frame.data@.len() == frame.packed_len(),
        r matches Err(e) ==> e@ == ErrorView::Config(
            "frame "@ + decimal(frame.seq as nat) + " is "@ + decimal(frame.data@.len()) + " bytes, expected "@
                + decimal(frame.packed_len() as nat),
        ),
{
    let n: usize = frame.data.len();
    let expected: usize = frame.expected_len();
    if n != expected {
        return Err(
            DetectError::Config(
                owned("frame ").concat(decimal_of(frame.seq).as_str()).concat(" is ").concat(
                    decimal_of(n as u64).as_str(),
                ).concat(" bytes, expected ").concat(decimal_of(expected as u64).as_str()),
            ),
        );
    }
    Ok(())
}

/// Lay interleaved pixels out in planes: all reds, then all greens, then all
/// blues.
pub fn to_planes(pixels: &[u8], plane: usize) -> (r: Vec<u8>)
    requires
        pixels@.len() == 3 * plane,
    ensures
        r@.len() == 3 * plane,
        forall|i: int|
            0 <= i < plane ==> #[trigger] r@[i] == pixels@[3 * i],
        forall|i: int|
            0 <= i < plane ==> r@[plane + i] == #[trigger] pixels@[3 * i + 1],
        forall|i: int|
            0 <= i < plane ==> r@[2 * plane + i] == #[trigger] pixels@[3 * i + 2],
{
    let n: usize = pixels.len();
    let mut r: Vec<u8> = Vec::new();
    for k in 0..n
        invariant
            n == pixels@.len(),
            n == 3 * plane,
            r@.len() == k,
            forall|j: int|
                0 <= j < k ==> #[trigger] r@[j] == pixels@[plane_source(j, plane as int)],
    {
        let channel: usize = k / plane;
        let i: usize = k % plane;
        assert(channel < 3 && k == channel * plane + i) by (nonlinear_arith)
            requires
                channel == k / plane,
                i == k % plane,
                k < 3 * plane,
                plane > 0,
        ;
        assert(3 * i + channel < n);
        r.push(pixels[3 * i + channel]);
    }
    proof {
        assert forall|i: int| 0 <= i < plane implies #[trigger] r@[i] == pixels@[3 * i] by {
            lemma_plane_source(0, i, plane as int);
        }
        assert forall|i: int| 0 <= i < plane implies r@[plane + i] == #[trigger] pixels@[3 * i + 1] by {
            lemma_plane_source(1, i, plane as int);
        }
        assert forall|i: int| 0 <= i < plane implies r@[2 * plane + i] == #[trigger] pixels@[3 * i + 2] by {
            lemma_plane_source(2, i, plane as int);
        }
    }
    r
}

/// Where the byte at `k` in planes stands when interleaved.
spec fn plane_source(k: int, plane: int) -> int {
    3 * (k % plane) + k / plane
}

proof fn lemma_plane_source(channel: int, i: int, plane: int)
    requires
        0 <= channel < 3,
        0 <= i < plane,
    ensures
        plane_source(channel * plane + i, plane) == 3 * i + channel,
{
    assert((channel * plane + i) % plane == i && (channel * plane + i) / plane == channel) by (nonlinear_arith)
        requires
            0 <= channel,
            0 <= i < plane,
    ;
}

/// What to say when the model lacks its output.
pub fn missing_output() -> (r: DetectError)
    ensures
        r@ == ErrorView::Config("arcface produced no `516` output"@),
{
    DetectError::Config(owned("arcface produced no `516` output"))
}

/// Refuse an embedding that is not as wide as it should be.
pub fn check_embedding(len: usize) -> (r: Result<(), DetectError>)
    ensures
        r is Ok <==> len == EMBEDDING_DIM,
        r matches Err(e) ==> e@ == ErrorView::Config(
            "arcface returned "@ + decimal(len as nat) + " values, expected 512"@,
        ),
{
    if len != EMBEDDING_DIM {
        return Err(
            DetectError::Config(
                owned("arcface returned ").concat(decimal_of(len as u64).as_str()).concat(" values, expected 512"),
            ),
        );
    }
    Ok(())
}

} // verus!
