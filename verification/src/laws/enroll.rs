//! Laws of enrollment.
use crate::embedding::EmbeddingError;
use crate::enrollment::{EmbeddingPool, EmbeddingPoolConfig};
use crate::laws::cut_out;
use crate::pipeline::{are_embedded, enroll_from_recording, enroll_window};
use crate::scalar::Scalar;
use vstd::prelude::*;

verus! {

/// An enrollment walks through the recording: anchor `i` is the embedding of the
/// three seconds that start one and a half seconds times `i` into it.
pub proof fn lemma_anchor_is_embedding_of_its_window<
    N: Scalar,
    M: Fn(&Vec<N>) -> Result<Vec<N>, EmbeddingError>,
    P: Fn(&[N]) -> (N, N),
>(
    audio: &[N],
    embed: &M,
    pitch: &P,
    pool_cfg: EmbeddingPoolConfig<N>,
    pool: EmbeddingPool<N>,
    i: int,
)
    requires
        call_ensures(
            enroll_from_recording::<N, M, P>,
            (audio, embed, pitch, pool_cfg),
            Ok(pool),
        ),
        audio@.len() >= 48_000,
        0 <= i < pool@.anchors.len(),
    ensures
        exists|window: Vec<N>|
            {
                &&& cut_out(audio@, i * 24_000, 48_000, window@)
                &&& #[trigger] call_ensures(*embed, (&window,), Ok(pool@.anchors[i]))
            },
{
    let anchor = pool@.anchors[i];
    assert(are_embedded(audio@, *embed, pool@.anchors));
    let window = choose|window: Vec<N>|
        window@ == enroll_window(audio@, i as nat) && #[trigger] call_ensures(
            *embed,
            (&window,),
            Ok(anchor),
        );
    assert(i <= (audio@.len() - 48_000) / 24_000);
    assert(cut_out(audio@, i * 24_000, 48_000, window@));
}

/// Every sample of a long recording but less than the last one and a half seconds
/// is heard by some window of the enrollment.
pub proof fn lemma_enrollment_hears_the_recording<
    N: Scalar,
    M: Fn(&Vec<N>) -> Result<Vec<N>, EmbeddingError>,
    P: Fn(&[N]) -> (N, N),
>(
    audio: &[N],
    embed: &M,
    pitch: &P,
    pool_cfg: EmbeddingPoolConfig<N>,
    pool: EmbeddingPool<N>,
    j: int,
)
    requires
        call_ensures(
            enroll_from_recording::<N, M, P>,
            (audio, embed, pitch, pool_cfg),
            Ok(pool),
        ),
        audio@.len() >= 48_000,
        0 <= j <= audio@.len() - 24_000,
    ensures
        exists|i: int|
            0 <= i < pool@.anchors.len() && #[trigger] (i * 24_000) <= j < i * 24_000 + 48_000,
{
    let last = pool@.anchors.len() - 1;
    let i = if j / 24_000 < last {
        j / 24_000
    } else {
        last
    };
    assert(last == (audio@.len() - 48_000) / 24_000);
    assert(i * 24_000 <= j < i * 24_000 + 48_000);
}

} // verus!
