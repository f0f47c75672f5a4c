//! Resampling around an outside interpolator: of whole buffers, and of live audio
//! in blocks of a fixed length.
use crate::rings::copied;
use crate::scalar::Scalar;
use crate::tse_stage::{append_samples, is_padded, joined, lemma_joined_prefix, pad_to};
use vstd::prelude::*;
use vstd::string::*;

verus! {

/// Why a buffer could not be resampled.
#[derive(Debug)]
pub enum ResampleError {
    /// The interpolator refused its configuration or input.
    Rubato(String),
}

impl ResampleError {
    /// The words of the error.
    pub open spec fn words(self) -> Seq<char> {
        match self {
            ResampleError::Rubato(e) => "rubato resampler error: "@ + e@,
        }
    }

    /// The error in words.
    pub fn message(&self) -> (r: String)
        ensures
            r@ == self.words(),
    {
        match self {
            ResampleError::Rubato(e) => "rubato resampler error: ".to_owned().concat(e.as_str()),
        }
    }
}

/// `r` is what resampling gives: a copy at equal rates, nothing for nothing,
/// otherwise the first channel the interpolator returns.
pub open spec fn is_resampled<N, M: Fn(&[N], u32, u32) -> Result<Vec<Vec<N>>, ResampleError>>(
    audio: &[N],
    src_sr: u32,
    dst_sr: u32,
    run: M,
    r: Result<Vec<N>, ResampleError>,
) -> bool {
    if src_sr == dst_sr {
        r matches Ok(out) && out@ == audio@
    } else if audio@.len() == 0 {
        r matches Ok(out) && out@.len() == 0
    } else {
        exists|outcome: Result<Vec<Vec<N>>, ResampleError>|
            {
                &&& #[trigger] call_ensures(run, (audio, src_sr, dst_sr), outcome)
                &&& match outcome {
                    Err(e) => r == Err::<Vec<N>, ResampleError>(e),
                    Ok(channels) => if channels@.len() == 0 {
                        r matches Ok(out) && out@.len() == 0
                    } else {
                        r matches Ok(out) && out@ == channels@[0]@
                    },
                }
            }
    }
}

/// Resamples `audio` from `src_sr` to `dst_sr`; `run` interpolates.
pub fn resample_to<N: Copy, M: Fn(&[N], u32, u32) -> Result<Vec<Vec<N>>, ResampleError>>(
    audio: &[N],
    src_sr: u32,
    dst_sr: u32,
    run: &M,
) -> (r: Result<Vec<N>, ResampleError>)
    requires
        forall|a: &[N], s: u32, d: u32| call_requires(*run, (a, s, d)),
    ensures
        is_resampled(audio, src_sr, dst_sr, *run, r),
{
    if src_sr == dst_sr {
        return Ok(copied(audio));
    }
    if audio.len() == 0 {
        return Ok(Vec::new());
    }
    let outcome: Result<Vec<Vec<N>>, ResampleError> = run(audio, src_sr, dst_sr);
    match outcome {
        Err(e) => Err(e),
        Ok(channels) => {
            if channels.len() == 0 {
                Ok(Vec::new())
            } else {
                Ok(copied(channels[0].as_slice()))
            }
        },
    }
}

/// Block `k` of `frames` samples; the last one may be shorter.
pub open spec fn block_of<N>(mono: Seq<N>, frames: nat, k: nat) -> Seq<N> {
    let end = (k + 1) * frames;
    mono.subrange(
        (k * frames) as int,
        if end <= mono.len() {
            end as int
        } else {
            mono.len() as int
        },
    )
}

/// `n` blocks of `frames` samples are just enough for `len` samples.
pub open spec fn covers(n: nat, frames: nat, len: nat) -> bool {
    n * frames >= len && (n > 0 ==> (n - 1) * frames < len)
}

/// Block `k`, filled up with silence, was run with that outcome.
pub open spec fn ran_block<N: Scalar, F: Fn(&Vec<N>) -> Result<Vec<N>, String>>(
    mono: Seq<N>,
    frames: nat,
    step: F,
    k: nat,
    outcome: Result<Vec<N>, String>,
) -> bool {
    exists|v: Vec<N>|
        is_padded(block_of(mono, frames, k), frames, v@) && #[trigger] call_ensures(
            step,
            (&v,),
            outcome,
        )
}

/// The first blocks gave `outs`.
pub open spec fn ran_blocks<N: Scalar, F: Fn(&Vec<N>) -> Result<Vec<N>, String>>(
    mono: Seq<N>,
    frames: nat,
    step: F,
    outs: Seq<Vec<N>>,
) -> bool {
    forall|k: int|
        0 <= k < outs.len() ==> ran_block(mono, frames, step, k as nat, Ok(#[trigger] outs[k]))
}

/// What [`resample_one`] returns.
pub open spec fn is_resampled_live<N: Scalar, F: Fn(&Vec<N>) -> Result<Vec<N>, String>>(
    mono: Seq<N>,
    frames: nat,
    step: F,
    r: Result<Vec<N>, String>,
) -> bool {
    exists|outs: Seq<Vec<N>>|
        {
            &&& #[trigger] ran_blocks(mono, frames, step, outs)
            &&& match r {
                Ok(out) => covers(outs.len(), frames, mono.len()) && out@ == joined(
                    outs,
                    outs.len(),
                ),
                Err(e) => outs.len() * frames < mono.len() && ran_block(
                    mono,
                    frames,
                    step,
                    outs.len(),
                    Err::<Vec<N>, String>(e),
                ),
            }
        }
}

/// Resamples a piece of live audio in blocks of `frames` samples, the last one
/// filled up with silence.
pub fn resample_one<N: Scalar, F: Fn(&Vec<N>) -> Result<Vec<N>, String>>(
    mono: &[N],
    frames: usize,
    step: &F,
) -> (r: Result<Vec<N>, String>)
    requires
        frames > 0,
        forall|v: &Vec<N>| call_requires(*step, (v,)),
    ensures
        is_resampled_live(mono@, frames as nat, *step, r),
{
    let n: usize = mono.len();
    let mut out: Vec<N> = Vec::new();
    let ghost mut outs: Seq<Vec<N>> = Seq::empty();
    let mut idx: usize = 0;
    assert(0 * frames == 0) by (nonlinear_arith);
    while idx < n
        invariant
            frames > 0,
            n == mono@.len(),
            idx <= n,
            idx < n ==> idx == outs.len() * frames,
            idx == n ==> covers(outs.len(), frames as nat, n as nat),
            out@ == joined(outs, outs.len()),
            ran_blocks(mono@, frames as nat, *step, outs),
            forall|v: &Vec<N>| call_requires(*step, (v,)),
        decreases n - idx,
    {
        let ghost k = outs.len();
        let end: usize = if n - idx <= frames {
            n
        } else {
            idx + frames
        };
        let mut chunk: Vec<N> = Vec::new();
        append_samples(&mut chunk, mono, idx, end);
        let zero: N = N::from(0u16);
        proof {
            assert((k + 1) * frames == k * frames + frames) by (nonlinear_arith);
            assert(chunk@ =~= block_of(mono@, frames as nat, k));
        }
        let ghost block = chunk@;
        pad_to(&mut chunk, frames, zero);
        assert(is_padded(block, frames as nat, chunk@));
        let outcome: Result<Vec<N>, String> = step(&chunk);
        assert(ran_block(mono@, frames as nat, *step, k, outcome));
        match outcome {
            Err(e) => {
                return Err(e);
            },
            Ok(v) => {
                append_samples(&mut out, v.as_slice(), 0, v.len());
                proof {
                    let before = outs;
                    outs = outs.push(v);
                    lemma_joined_prefix(before, outs, k);
                    assert(v@.subrange(0, v@.len() as int) =~= v@);
                    assert forall|j: int| 0 <= j < outs.len() implies ran_block(
                        mono@,
                        frames as nat,
                        *step,
                        j as nat,
                        Ok(#[trigger] outs[j]),
                    ) by {
                        if j < k {
                            assert(outs[j] == before[j]);
                        }
                    }
                }
            },
        }
        idx = end;
    }
    Ok(out)
}

} // verus!
