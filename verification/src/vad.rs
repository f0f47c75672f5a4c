//! The voice-activity model seen from outside. It is fed a chunk of fixed
//! length behind a short tail of what it heard before, and carries a recurrent
//! state.
use crate::embedding::{incompatible_shape, unexpected_shape, EmbeddingError};
use crate::scalar::{lawful, num, Scalar};
use crate::shapes::{fill_shape, misfit, shape_text};
use crate::tse_stage::append_samples;
use vstd::prelude::*;

verus! {

/// Chunk length at 16 kHz.
pub const CHUNK_SAMPLES_16K: usize = 512;

/// Chunk length at 8 kHz.
pub const CHUNK_SAMPLES_8K: usize = 256;

/// Width of the recurrent state.
pub const STATE_HIDDEN: usize = 128;

/// Context samples put before a chunk at 16 kHz.
pub const CONTEXT_SAMPLES_16K: usize = 64;

/// Context samples put before a chunk at 8 kHz.
pub const CONTEXT_SAMPLES_8K: usize = 32;

/// What one run of the model gives: the probability and the next state, each
/// with the shape it was labelled with.
pub struct VadReply<N> {
    pub dims: Vec<i64>,
    pub data: Vec<N>,
    pub state_dims: Vec<i64>,
    pub state_data: Vec<N>,
}

/// What a detector carries from chunk to chunk.
pub struct VadView<N> {
    pub sample_rate: u32,
    pub context: Seq<N>,
    pub state: Seq<N>,
}

/// The chunk length at a sample rate.
pub open spec fn chunk_len(sample_rate: u32) -> nat {
    if sample_rate == 8000 {
        CHUNK_SAMPLES_8K as nat
    } else {
        CHUNK_SAMPLES_16K as nat
    }
}

/// The context length at a sample rate.
pub open spec fn context_len(sample_rate: u32) -> nat {
    if sample_rate == 8000 {
        CONTEXT_SAMPLES_8K as nat
    } else {
        CONTEXT_SAMPLES_16K as nat
    }
}

/// All entries are zero.
pub open spec fn is_silence<N: Scalar>(s: Seq<N>) -> bool {
    lawful::<N>() ==> forall|i: int| 0 <= i < s.len() ==> #[trigger] s[i] == num::<N>(0)
}

/// The reply carries one probability.
pub open spec fn is_scalar(dims: Seq<i64>) -> bool {
    dims.len() == 2 && dims[0] == 1 && dims[1] == 1
}

/// The reply carries a recurrent state of the right width.
pub open spec fn is_state(dims: Seq<i64>) -> bool {
    dims.len() == 3 && dims[0] == 2 && dims[2] == STATE_HIDDEN
}

/// Voice-activity detection with carried context and state.
pub struct SileroVad<N> {
    sample_rate: u32,
    state: Vec<N>,
    context: Vec<N>,
}

impl<N> View for SileroVad<N> {
    type V = VadView<N>;

    closed spec fn view(&self) -> VadView<N> {
        VadView { sample_rate: self.sample_rate, context: self.context@, state: self.state@ }
    }
}

fn zeros<N: Scalar>(n: usize) -> (r: Vec<N>)
    ensures
        r@.len() == n,
        is_silence(r@),
{
    let zero: N = N::from(0u16);
    let mut out: Vec<N> = Vec::new();
    while out.len() < n
        invariant
            out@.len() <= n,
            lawful::<N>() ==> zero == num::<N>(0),
            is_silence(out@),
        decreases n - out@.len(),
    {
        out.push(zero);
    }
    out
}

impl<N: Scalar> SileroVad<N> {
    /// The context has its length.
    pub open spec fn wf(&self) -> bool {
        self@.context.len() == context_len(self@.sample_rate)
    }

    /// A detector before any audio.
    pub fn new(sample_rate: u32) -> (r: Self)
        ensures
            r.wf(),
            r@.sample_rate == sample_rate,
            is_silence(r@.context),
            r@.state.len() == 2 * STATE_HIDDEN,
            is_silence(r@.state),
    {
        let context_len: usize = if sample_rate == 8000 {
            CONTEXT_SAMPLES_8K
        } else {
            CONTEXT_SAMPLES_16K
        };
        SileroVad { sample_rate, state: zeros(2 * STATE_HIDDEN), context: zeros(context_len) }
    }

    /// Forgets all audio heard so far.
    pub fn reset(&mut self)
        requires
            old(self).wf(),
        ensures
            final(self).wf(),
            final(self)@.sample_rate == old(self)@.sample_rate,
            final(self)@.state.len() == old(self)@.state.len(),
            is_silence(final(self)@.context),
            is_silence(final(self)@.state),
    {
        self.state = zeros(self.state.len());
        self.context = zeros(self.context.len());
    }

    /// Scores one chunk. `run` is given the carried context followed by the
    /// chunk, the carried state and the sample rate. After a well-shaped reply
    /// the tail of what was fed becomes the next context.
    pub fn score<M: Fn(&Vec<N>, &Vec<N>, u32) -> Result<VadReply<N>, EmbeddingError>>(
        &mut self,
        chunk: &[N],
        run: &M,
    ) -> (r: Result<N, EmbeddingError>)
        requires
            old(self).wf(),
            forall|a: &Vec<N>, b: &Vec<N>, c: u32| call_requires(*run, (a, b, c)),
        ensures
            final(self).wf(),
            final(self)@.sample_rate == old(self)@.sample_rate,
            is_scored(old(self)@, chunk@, *run, final(self)@, r),
    {
        let expected: usize = if self.sample_rate == 8000 {
            CHUNK_SAMPLES_8K
        } else {
            CHUNK_SAMPLES_16K
        };
        if chunk.len() != expected {
            return Err(incompatible_shape());
        }
        let mut fed: Vec<N> = Vec::new();
        append_samples(&mut fed, self.context.as_slice(), 0, self.context.len());
        append_samples(&mut fed, chunk, 0, chunk.len());
        assert(fed@ =~= self@.context + chunk@);
        let result: Result<VadReply<N>, EmbeddingError> = run(&fed, &self.state, self.sample_rate);
        assert(heard(old(self)@, chunk@, *run, result));
        match result {
            Err(e) => Err(e),
            Ok(reply) => {
                if reply.dims.len() != 2 || reply.dims[0] != 1 || reply.dims[1] != 1
                    || reply.data.len() == 0 {
                    return Err(unexpected_shape(reply.dims.as_slice(), 1));
                }
                let prob: N = reply.data[0];
                if reply.state_dims.len() != 3 || reply.state_dims[0] != 2 || reply.state_dims[2]
                    != 128 {
                    return Err(unexpected_shape(reply.state_dims.as_slice(), STATE_HIDDEN));
                }
                let batch: usize = reply.state_dims[1] as usize;
                let state: Vec<N> = match fill_shape((2, batch, STATE_HIDDEN), reply.state_data) {
                    Err(kind) => {
                        return Err(EmbeddingError::Shape(shape_text(kind)));
                    },
                    Ok(v) => v,
                };
                let ctx_len: usize = self.context.len();
                let mut tail: Vec<N> = Vec::new();
                append_samples(&mut tail, fed.as_slice(), fed.len() - ctx_len, fed.len());
                assert(tail@ =~= fed@.subrange(fed@.len() - ctx_len, fed@.len() as int));
                self.state = state;
                self.context = tail;
                Ok(prob)
            },
        }
    }
}

/// The model was run on the carried context and the chunk, with that outcome.
pub open spec fn heard<
    N: Scalar,
    M: Fn(&Vec<N>, &Vec<N>, u32) -> Result<VadReply<N>, EmbeddingError>,
>(
    before: VadView<N>,
    chunk: Seq<N>,
    run: M,
    outcome: Result<VadReply<N>, EmbeddingError>,
) -> bool {
    exists|fed: Vec<N>, state: Vec<N>|
        {
            &&& fed@ == before.context + chunk
            &&& state@ == before.state
            &&& #[trigger] call_ensures(run, (&fed, &state, before.sample_rate), outcome)
        }
}

/// What [`SileroVad::score`] returns and carries on.
pub open spec fn is_scored<
    N: Scalar,
    M: Fn(&Vec<N>, &Vec<N>, u32) -> Result<VadReply<N>, EmbeddingError>,
>(
    before: VadView<N>,
    chunk: Seq<N>,
    run: M,
    after: VadView<N>,
    r: Result<N, EmbeddingError>,
) -> bool {
    if chunk.len() != chunk_len(before.sample_rate) {
        after == before && (r matches Err(e) && e.is_incompatible())
    } else {
        exists|outcome: Result<VadReply<N>, EmbeddingError>|
            {
                &&& #[trigger] heard(before, chunk, run, outcome)
                &&& match outcome {
                    Err(e) => after == before && r == Err::<N, EmbeddingError>(e),
                    Ok(reply) => if !is_scalar(reply.dims@) || reply.data@.len() == 0 {
                        after == before && (r matches Err(e) && e.reports(reply.dims@, 1))
                    } else if !is_state(reply.state_dims@) {
                        after == before && (r matches Err(e) && e.reports(
                            reply.state_dims@,
                            STATE_HIDDEN,
                        ))
                    } else {
                        match misfit(
                            (2, reply.state_dims@[1] as usize, STATE_HIDDEN),
                            reply.state_data@.len(),
                        ) {
                            Some(kind) => after == before && (r matches Err(e) && e.is_misfit(
                                kind,
                            )),
                            None => {
                                let fed = before.context + chunk;
                                &&& r == Ok::<N, EmbeddingError>(reply.data@[0])
                                &&& after == (VadView {
                                    state: reply.state_data@,
                                    context: fed.subrange(
                                        fed.len() - before.context.len(),
                                        fed.len() as int,
                                    ),
                                    ..before
                                })
                            },
                        }
                    },
                }
            }
    }
}

} // verus!
