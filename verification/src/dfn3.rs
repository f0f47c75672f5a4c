//! Noise suppression at 48 kHz: how audio is cut into the model's chunks, how
//! the spectral frames of a chunk are laid out for the network, and how the
//! enhanced frames become audio again. The transforms and the network are
//! parameters.
use crate::embedding::{incompatible_shape, unexpected_shape, EmbeddingError};
use crate::rings::{extend, take_front};
use crate::scalar::{count, count_fits, from_count, lawful, num, total, Scalar};
use crate::tse_stage::{
    append_samples, is_padded, joined, lemma_joined_concat, lemma_joined_length,
    lemma_joined_prefix, lemma_pieces_in_parts, lemma_quotient_exact, pad_to, piece,
};
use std::collections::VecDeque;
use vstd::prelude::*;
use vstd::std_specs::ops::{AddSpec, DivSpec, MulSpec, SubSpec};

verus! {

/// Sample rate of the model.
pub const DFN3_SR: usize = 48_000;

/// Transform length.
pub const DFN3_FFT: usize = 960;

/// Hop between frames.
pub const DFN3_HOP: usize = 480;

/// Smallest number of bins in a band.
pub const MIN_NB_FREQS: usize = 2;

/// Frames per chunk, fixed by the export.
pub const FRAMES_PER_CHUNK: usize = 102;

/// Bins of a spectral frame.
pub const N_FREQ: usize = 481;

/// Numbers in a spectral frame: a real and an imaginary part per bin.
pub const FRAME_VALUES: usize = 962;

/// Low bins handed to the deep-filter path.
pub const NB_DF: usize = 96;

/// Bands of the perceptual filterbank.
pub const N_ERB: usize = 32;

/// Audio samples per chunk.
pub const SAMPLES_PER_CHUNK: usize = FRAMES_PER_CHUNK * DFN3_HOP;

/// The product of the sizes in a shape.
pub open spec fn product(dims: Seq<i64>, n: nat) -> int
    decreases n,
{
    if n == 0 {
        1
    } else {
        product(dims, (n - 1) as nat) * dims[n - 1]
    }
}

/// A product that has grown past `bound` in magnitude never comes back to it:
/// it stays beyond, or becomes zero.
proof fn lemma_product_stays_out(dims: Seq<i64>, m: nat, n: nat, bound: int)
    requires
        m <= n,
        bound > 0,
        product(dims, m) > bound || product(dims, m) < -bound || product(dims, m) == 0,
    ensures
        product(dims, n) > bound || product(dims, n) < -bound || product(dims, n) == 0,
    decreases n,
{
    if m < n {
        lemma_product_stays_out(dims, m, (n - 1) as nat, bound);
        let p = product(dims, (n - 1) as nat);
        let d = dims[n - 1] as int;
        assert(p * d > bound || p * d < -bound || p * d == 0) by (nonlinear_arith)
            requires
                bound > 0,
                p > bound || p < -bound || p == 0,
        ;
    }
}

/// Whether the sizes of a shape multiply to `expected`.
fn has_volume(dims: &[i64], expected: usize) -> (r: bool)
    requires
        0 < expected <= 1_000_000,
    ensures
        r == (product(dims@, dims@.len()) == expected),
{
    let bound: i128 = expected as i128;
    let mut p: i128 = 1;
    let mut i: usize = 0;
    while i < dims.len()
        invariant
            i <= dims@.len(),
            bound == expected,
            0 < bound <= 1_000_000,
            -bound <= p <= bound,
            p == product(dims@, i as nat),
        decreases dims@.len() - i,
    {
        let d: i128 = dims[i] as i128;
        assert(-1_000_000 * 0x8000_0000_0000_0000 <= p * d <= 1_000_000 * 0x8000_0000_0000_0000)
            by (nonlinear_arith)
            requires
                -1_000_000 <= p <= 1_000_000,
                -0x8000_0000_0000_0000 <= d <= 0x7fff_ffff_ffff_ffff,
        ;
        p = p * d;
        i = i + 1;
        if p > bound || p < -bound {
            proof {
                lemma_product_stays_out(dims@, i as nat, dims@.len(), bound as int);
            }
            return false;
        }
    }
    p == bound
}

/// What the network returns: the enhanced frames with the shape they were
/// labelled with.
pub struct SpecReply<N> {
    pub dims: Vec<i64>,
    pub data: Vec<N>,
}

/// The network was run on the three buffers with that outcome.
pub open spec fn ran_on<N, M: Fn(&[N], &[N], &[N]) -> Result<SpecReply<N>, EmbeddingError>>(
    inputs: (Seq<N>, Seq<N>, Seq<N>),
    net: M,
    outcome: Result<SpecReply<N>, EmbeddingError>,
) -> bool {
    exists|a: &[N], b: &[N], c: &[N]|
        (a@, b@, c@) == inputs && #[trigger] call_ensures(net, (a, b, c), outcome)
}

/// What is made of the network's outcome: its frames, when they have the right
/// volume.
pub open spec fn replied<N>(
    outcome: Result<SpecReply<N>, EmbeddingError>,
    r: Result<Vec<N>, EmbeddingError>,
) -> bool {
    match outcome {
        Err(e) => r == Err::<Vec<N>, EmbeddingError>(e),
        Ok(reply) => if product(reply.dims@, reply.dims@.len()) == FRAMES_PER_CHUNK * N_FREQ * 2 {
            r == Ok::<Vec<N>, EmbeddingError>(reply.data)
        } else {
            r matches Err(e) && e.reports(
                reply.dims@,
                (FRAMES_PER_CHUNK * N_FREQ * 2) as usize,
            )
        },
    }
}

/// Runs the network on one chunk. The three inputs must have the lengths the
/// network was exported with; its output must have the volume of the first.
pub fn enhance_spec<
    N: Copy,
    M: Fn(&[N], &[N], &[N]) -> Result<SpecReply<N>, EmbeddingError>,
>(spec_buf: &[N], feat_erb: &[N], feat_spec: &[N], run: &M) -> (r: Result<Vec<N>, EmbeddingError>)
    requires
        forall|a: &[N], b: &[N], c: &[N]| call_requires(*run, (a, b, c)),
    ensures
        !spec_fits(spec_buf@.len(), feat_erb@.len(), feat_spec@.len()) ==> (r matches Err(e)
            && e.is_incompatible()),
        spec_fits(spec_buf@.len(), feat_erb@.len(), feat_spec@.len()) ==> exists|
            outcome: Result<SpecReply<N>, EmbeddingError>,
        | #[trigger]
            ran_on((spec_buf@, feat_erb@, feat_spec@), *run, outcome) && replied(outcome, r),
{
    let spec_expected: usize = FRAMES_PER_CHUNK * N_FREQ * 2;
    let erb_expected: usize = FRAMES_PER_CHUNK * N_ERB;
    let dfspec_expected: usize = FRAMES_PER_CHUNK * NB_DF * 2;
    if spec_buf.len() != spec_expected || feat_erb.len() != erb_expected || feat_spec.len()
        != dfspec_expected {
        return Err(incompatible_shape());
    }
    let outcome: Result<SpecReply<N>, EmbeddingError> = run(spec_buf, feat_erb, feat_spec);
    assert(ran_on((spec_buf@, feat_erb@, feat_spec@), *run, outcome));
    match outcome {
        Err(e) => Err(e),
        Ok(reply) => {
            if has_volume(reply.dims.as_slice(), spec_expected) {
                Ok(reply.data)
            } else {
                Err(unexpected_shape(reply.dims.as_slice(), spec_expected))
            }
        },
    }
}

/// The inputs have the lengths the network was exported with.
pub open spec fn spec_fits(spec_len: nat, erb_len: nat, df_len: nat) -> bool {
    &&& spec_len == FRAMES_PER_CHUNK * N_FREQ * 2
    &&& erb_len == FRAMES_PER_CHUNK * N_ERB
    &&& df_len == FRAMES_PER_CHUNK * NB_DF * 2
}

/// Point `i` of `n` on the line from `a` to `b`.
pub open spec fn lerp_point<N: Scalar>(a: N, b: N, n: nat, i: nat) -> N {
    a.add_spec(b.sub_spec(a).mul_spec(count(i)).div_spec(count::<N>(n).sub_spec(num(1))))
}

/// No operation of [`lerp_point`] leaves the range of `N`.
pub open spec fn lerp_fits<N: Scalar>(a: N, b: N, n: nat) -> bool {
    &&& count_fits::<N>(n)
    &&& count::<N>(n).sub_req(num(1))
    &&& b.sub_req(a)
    &&& forall|i: nat|
        i < n ==> {
            let c = #[trigger] count::<N>(i);
            &&& count_fits::<N>(i)
            &&& b.sub_spec(a).mul_req(c)
            &&& b.sub_spec(a).mul_spec(c).div_req(count::<N>(n).sub_spec(num(1)))
            &&& a.add_req(
                b.sub_spec(a).mul_spec(c).div_spec(count::<N>(n).sub_spec(num(1))),
            )
        }
}

/// `n` points on the line from `first` to `last`; a single point is `first`.
pub fn init_state_lerp<N: Scalar>(first: N, last: N, n: usize) -> (r: Vec<N>)
    requires
        n <= 1 || total::<N>() || lawful::<N>() && lerp_fits(first, last, n as nat),
    ensures
        r@.len() == n,
        n == 1 ==> r@[0] == first,
        n > 1 && lawful::<N>() ==> forall|i: int|
            0 <= i < n ==> #[trigger] r@[i] == lerp_point(first, last, n as nat, i as nat),
{
    let mut out: Vec<N> = Vec::new();
    if n <= 1 {
        if n == 1 {
            out.push(first);
        }
        return out;
    }
    let one: N = N::from(1u16);
    let span: N = last - first;
    let steps: N = from_count::<N>(n as u64) - one;
    let mut i: usize = 0;
    while i < n
        invariant
            i <= n,
            out@.len() == i,
            total::<N>() || lawful::<N>() && lerp_fits(first, last, n as nat),
            lawful::<N>() ==> span == last.sub_spec(first) && steps == count::<N>(
                n as nat,
            ).sub_spec(num(1)),
            lawful::<N>() ==> forall|j: int|
                0 <= j < i ==> #[trigger] out@[j] == lerp_point(first, last, n as nat, j as nat),
        decreases n - i,
    {
        proof {
            if !total::<N>() {
                let c = count::<N>(i as nat);
                assert(count_fits::<N>(i as nat) && span.mul_req(c));
            }
        }
        let at: N = from_count::<N>(i as u64);
        let x: N = first + span * at / steps;
        out.push(x);
        i = i + 1;
    }
    out
}

/// One analysed frame: the complex spectrum as alternating real and imaginary
/// parts, the band features, and the low bins for the deep filter.
pub struct AnalysedFrame<N> {
    pub spectrum: Vec<N>,
    pub erb: Vec<N>,
    pub df: Vec<N>,
}

/// The frame has the lengths the network's buffers are made of.
pub open spec fn frame_fits<N>(f: AnalysedFrame<N>) -> bool {
    &&& f.spectrum@.len() == FRAME_VALUES
    &&& f.erb@.len() == N_ERB
    &&& f.df@.len() == 2 * NB_DF
}

/// `frames` are the analysed hops of `padded`, in order.
pub open spec fn are_analysed<N, A: Fn(&Vec<N>) -> AnalysedFrame<N>>(
    padded: Seq<N>,
    analyse: A,
    frames: Seq<AnalysedFrame<N>>,
) -> bool {
    forall|i: int|
        0 <= i < frames.len() ==> analysed_as(
            piece(padded, DFN3_HOP as nat, i as nat),
            analyse,
            #[trigger] frames[i],
        )
}

/// Analysis of `hop` gave `f`.
pub open spec fn analysed_as<N, A: Fn(&Vec<N>) -> AnalysedFrame<N>>(
    hop: Seq<N>,
    analyse: A,
    f: AnalysedFrame<N>,
) -> bool {
    exists|v: Vec<N>| v@ == hop && #[trigger] call_ensures(analyse, (&v,), f)
}

/// The first `n` frames' spectra, band features and low bins, each one after
/// the other.
pub open spec fn laid_out<N>(frames: Seq<AnalysedFrame<N>>, n: nat) -> (Seq<N>, Seq<N>, Seq<N>)
    decreases n,
{
    if n == 0 {
        (Seq::empty(), Seq::empty(), Seq::empty())
    } else {
        let before = laid_out(frames, (n - 1) as nat);
        let f = frames[n - 1];
        (before.0 + f.spectrum@, before.1 + f.erb@, before.2 + f.df@)
    }
}

proof fn lemma_laid_out_prefix<N>(
    a: Seq<AnalysedFrame<N>>,
    b: Seq<AnalysedFrame<N>>,
    n: nat,
)
    requires
        n <= a.len(),
        n <= b.len(),
        forall|i: int| 0 <= i < n ==> #[trigger] a[i] == b[i],
    ensures
        laid_out(a, n) == laid_out(b, n),
    decreases n,
{
    if n > 0 {
        lemma_laid_out_prefix(a, b, (n - 1) as nat);
        assert(a[n - 1] == b[n - 1]);
    }
}

/// Audio cut or padded with silence to one chunk.
pub open spec fn is_chunk<N: Scalar>(audio: Seq<N>, chunk: Seq<N>) -> bool {
    if audio.len() >= SAMPLES_PER_CHUNK {
        chunk == audio.take(SAMPLES_PER_CHUNK as int)
    } else {
        is_padded(audio, SAMPLES_PER_CHUNK as nat, chunk)
    }
}

/// Cuts or pads audio to one chunk.
pub fn to_chunk<N: Scalar>(audio: &[N]) -> (r: Vec<N>)
    ensures
        r@.len() == SAMPLES_PER_CHUNK,
        is_chunk(audio@, r@),
{
    let n: usize = if audio.len() < SAMPLES_PER_CHUNK {
        audio.len()
    } else {
        SAMPLES_PER_CHUNK
    };
    let mut chunk: Vec<N> = Vec::new();
    append_samples(&mut chunk, audio, 0, n);
    assert(chunk@ =~= audio@.take(n as int));
    let zero: N = N::from(0u16);
    pad_to(&mut chunk, SAMPLES_PER_CHUNK, zero);
    assert(chunk@.take(n as int) =~= audio@.take(n as int));
    assert(audio@.len() < SAMPLES_PER_CHUNK ==> audio@.take(n as int) =~= audio@);
    assert(audio@.len() >= SAMPLES_PER_CHUNK ==> chunk@ =~= audio@.take(n as int));
    chunk
}

/// Analyses the hops of a chunk into the network's three input buffers.
pub fn analyse_chunk<N: Scalar, A: Fn(&Vec<N>) -> AnalysedFrame<N>>(
    chunk: &Vec<N>,
    analyse: &A,
) -> (r: (Vec<N>, Vec<N>, Vec<N>))
    requires
        chunk@.len() == SAMPLES_PER_CHUNK,
        forall|v: &Vec<N>| call_requires(*analyse, (v,)),
        forall|v: &Vec<N>, f: AnalysedFrame<N>| #[trigger]
            call_ensures(*analyse, (v,), f) ==> frame_fits(f),
    ensures
        spec_fits(r.0@.len(), r.1@.len(), r.2@.len()),
        exists|frames: Seq<AnalysedFrame<N>>|
            {
                &&& frames.len() == FRAMES_PER_CHUNK
                &&& #[trigger] are_analysed(chunk@, *analyse, frames)
                &&& (r.0@, r.1@, r.2@) == laid_out(frames, frames.len())
            },
{
    let mut spectrum: Vec<N> = Vec::new();
    let mut erb: Vec<N> = Vec::new();
    let mut df: Vec<N> = Vec::new();
    let ghost mut frames: Seq<AnalysedFrame<N>> = Seq::empty();
    let mut i: usize = 0;
    while i < FRAMES_PER_CHUNK
        invariant
            chunk@.len() == SAMPLES_PER_CHUNK,
            i <= FRAMES_PER_CHUNK,
            frames.len() == i,
            are_analysed(chunk@, *analyse, frames),
            (spectrum@, erb@, df@) == laid_out(frames, i as nat),
            spectrum@.len() == i * FRAME_VALUES,
            erb@.len() == i * N_ERB,
            df@.len() == i * 192,
            forall|v: &Vec<N>| call_requires(*analyse, (v,)),
            forall|v: &Vec<N>, f: AnalysedFrame<N>| #[trigger]
                call_ensures(*analyse, (v,), f) ==> frame_fits(f),
        decreases FRAMES_PER_CHUNK - i,
    {
        let start: usize = i * DFN3_HOP;
        let mut hop: Vec<N> = Vec::new();
        append_samples(&mut hop, chunk.as_slice(), start, start + DFN3_HOP);
        assert(hop@ =~= piece(chunk@, DFN3_HOP as nat, i as nat));
        let f: AnalysedFrame<N> = analyse(&hop);
        assert(analysed_as(piece(chunk@, DFN3_HOP as nat, i as nat), *analyse, f));
        append_samples(&mut spectrum, f.spectrum.as_slice(), 0, f.spectrum.len());
        append_samples(&mut erb, f.erb.as_slice(), 0, f.erb.len());
        append_samples(&mut df, f.df.as_slice(), 0, f.df.len());
        proof {
            let before = frames;
            frames = frames.push(f);
            lemma_laid_out_prefix(before, frames, i as nat);
            let prior = laid_out(frames, i as nat);
            assert(spectrum@ =~= prior.0 + f.spectrum@);
            assert(erb@ =~= prior.1 + f.erb@);
            assert(df@ =~= prior.2 + f.df@);
            assert forall|j: int| 0 <= j < frames.len() implies analysed_as(
                piece(chunk@, DFN3_HOP as nat, j as nat),
                *analyse,
                #[trigger] frames[j],
            ) by {
                if j < i {
                    assert(frames[j] == before[j]);
                }
            }
        }
        i = i + 1;
    }
    (spectrum, erb, df)
}

/// Synthesis of the frame `spectrum` gave `hop`.
pub open spec fn synthesised_as<N, S: Fn(&Vec<N>) -> Vec<N>>(
    spectrum: Seq<N>,
    synthesise: S,
    hop: Vec<N>,
) -> bool {
    exists|v: Vec<N>| v@ == spectrum && #[trigger] call_ensures(synthesise, (&v,), hop)
}

/// Turns the enhanced frames of a chunk back into audio, hop by hop.
pub fn synthesise_chunk<N: Scalar, S: Fn(&Vec<N>) -> Vec<N>>(
    enhanced: &Vec<N>,
    synthesise: &S,
) -> (r: Vec<N>)
    requires
        enhanced@.len() == FRAMES_PER_CHUNK * N_FREQ * 2,
        forall|v: &Vec<N>| call_requires(*synthesise, (v,)),
        forall|v: &Vec<N>, h: Vec<N>| #[trigger]
            call_ensures(*synthesise, (v,), h) ==> h@.len() == DFN3_HOP,
    ensures
        r@.len() == SAMPLES_PER_CHUNK,
        exists|hops: Seq<Vec<N>>|
            {
                &&& hops.len() == FRAMES_PER_CHUNK
                &&& #[trigger] are_synthesised(enhanced@, *synthesise, hops)
                &&& r@ == joined(hops, hops.len())
            },
{
    let mut out: Vec<N> = Vec::new();
    let ghost mut hops: Seq<Vec<N>> = Seq::empty();
    let mut i: usize = 0;
    while i < FRAMES_PER_CHUNK
        invariant
            enhanced@.len() == FRAMES_PER_CHUNK * N_FREQ * 2,
            i <= FRAMES_PER_CHUNK,
            hops.len() == i,
            out@.len() == i * DFN3_HOP,
            out@ == joined(hops, i as nat),
            are_synthesised(enhanced@, *synthesise, hops),
            forall|v: &Vec<N>| call_requires(*synthesise, (v,)),
            forall|v: &Vec<N>, h: Vec<N>| #[trigger]
                call_ensures(*synthesise, (v,), h) ==> h@.len() == DFN3_HOP,
        decreases FRAMES_PER_CHUNK - i,
    {
        let start: usize = i * FRAME_VALUES;
        let mut frame: Vec<N> = Vec::new();
        append_samples(&mut frame, enhanced.as_slice(), start, start + FRAME_VALUES);
        assert(frame@ =~= piece(enhanced@, FRAME_VALUES as nat, i as nat));
        let hop: Vec<N> = synthesise(&frame);
        assert(synthesised_as(
            piece(enhanced@, FRAME_VALUES as nat, i as nat),
            *synthesise,
            hop,
        ));
        append_samples(&mut out, hop.as_slice(), 0, hop.len());
        proof {
            let before = hops;
            hops = hops.push(hop);
            lemma_joined_prefix(before, hops, i as nat);
            assert(out@ =~= joined(hops, hops.len()));
            assert forall|j: int| 0 <= j < hops.len() implies synthesised_as(
                piece(enhanced@, FRAME_VALUES as nat, j as nat),
                *synthesise,
                #[trigger] hops[j],
            ) by {
                if j < i {
                    assert(hops[j] == before[j]);
                }
            }
        }
        i = i + 1;
    }
    out
}

/// `hops` are the synthesised frames of `enhanced`, in order.
pub open spec fn are_synthesised<N, S: Fn(&Vec<N>) -> Vec<N>>(
    enhanced: Seq<N>,
    synthesise: S,
    hops: Seq<Vec<N>>,
) -> bool {
    forall|i: int|
        0 <= i < hops.len() ==> synthesised_as(
            piece(enhanced, FRAME_VALUES as nat, i as nat),
            synthesise,
            #[trigger] hops[i],
        )
}

/// The three input buffers are those of the analysed hops of `chunk`.
pub open spec fn are_inputs<N, A: Fn(&Vec<N>) -> AnalysedFrame<N>>(
    chunk: Seq<N>,
    analyse: A,
    inputs: (Seq<N>, Seq<N>, Seq<N>),
) -> bool {
    exists|frames: Seq<AnalysedFrame<N>>|
        {
            &&& frames.len() == FRAMES_PER_CHUNK
            &&& #[trigger] are_analysed(chunk, analyse, frames)
            &&& inputs == laid_out(frames, frames.len())
        }
}

/// Suppresses noise in one chunk of audio: cut or pad, analyse, run the
/// network, synthesise. The result has the length of a chunk.
pub fn process<
    N: Scalar,
    A: Fn(&Vec<N>) -> AnalysedFrame<N>,
    M: Fn(&[N], &[N], &[N]) -> Result<SpecReply<N>, EmbeddingError>,
    S: Fn(&Vec<N>) -> Vec<N>,
>(audio: &[N], analyse: &A, net: &M, synthesise: &S) -> (r: Result<Vec<N>, EmbeddingError>)
    requires
        forall|v: &Vec<N>| call_requires(*analyse, (v,)),
        forall|v: &Vec<N>, f: AnalysedFrame<N>| #[trigger]
            call_ensures(*analyse, (v,), f) ==> frame_fits(f),
        forall|a: &[N], b: &[N], c: &[N]| call_requires(*net, (a, b, c)),
        forall|a: &[N], b: &[N], c: &[N], reply: SpecReply<N>| #[trigger]
            call_ensures(*net, (a, b, c), Ok(reply)) ==> reply.data@.len() == product(
                reply.dims@,
                reply.dims@.len(),
            ),
        forall|v: &Vec<N>| call_requires(*synthesise, (v,)),
        forall|v: &Vec<N>, h: Vec<N>| #[trigger]
            call_ensures(*synthesise, (v,), h) ==> h@.len() == DFN3_HOP,
    ensures
        r matches Ok(out) ==> out@.len() == SAMPLES_PER_CHUNK,
        exists|
            chunk: Seq<N>,
            inputs: (Seq<N>, Seq<N>, Seq<N>),
            outcome: Result<SpecReply<N>, EmbeddingError>,
            enhanced: Result<Vec<N>, EmbeddingError>,
        |
            {
                &&& is_chunk(audio@, chunk)
                &&& #[trigger] are_inputs(chunk, *analyse, inputs)
                &&& #[trigger] ran_on(inputs, *net, outcome)
                &&& #[trigger] replied(outcome, enhanced)
                &&& match enhanced {
                    Err(e) => r == Err::<Vec<N>, EmbeddingError>(e),
                    Ok(v) => r matches Ok(out) && exists|hops: Seq<Vec<N>>|
                        {
                            &&& hops.len() == FRAMES_PER_CHUNK
                            &&& #[trigger] are_synthesised(v@, *synthesise, hops)
                            &&& out@ == joined(hops, hops.len())
                        },
                }
            },
{
    let chunk: Vec<N> = to_chunk(audio);
    let (spectrum, erb, df): (Vec<N>, Vec<N>, Vec<N>) = analyse_chunk(&chunk, analyse);
    let ghost inputs = (spectrum@, erb@, df@);
    assert(are_inputs(chunk@, *analyse, inputs));
    let enhanced: Result<Vec<N>, EmbeddingError> = enhance_spec(
        spectrum.as_slice(),
        erb.as_slice(),
        df.as_slice(),
        net,
    );
    let ghost outcome = choose|outcome: Result<SpecReply<N>, EmbeddingError>| #[trigger]
        ran_on(inputs, *net, outcome) && replied(outcome, enhanced);
    assert(ran_on(inputs, *net, outcome));
    match enhanced {
        Err(e) => Err(e),
        Ok(v) => {
            let out: Vec<N> = synthesise_chunk(&v, synthesise);
            Ok(out)
        },
    }
}

/// The model was run on one chunk with that outcome.
pub open spec fn enhanced_as<N, M: Fn(&Vec<N>) -> Result<Vec<N>, EmbeddingError>>(
    chunk: Seq<N>,
    enhance: M,
    r: Result<Vec<N>, EmbeddingError>,
) -> bool {
    exists|v: Vec<N>| v@ == chunk && #[trigger] call_ensures(enhance, (&v,), r)
}

/// `outs` are the enhanced chunks at the start of `stream`, in order.
pub open spec fn are_enhanced<N, M: Fn(&Vec<N>) -> Result<Vec<N>, EmbeddingError>>(
    stream: Seq<N>,
    enhance: M,
    outs: Seq<Vec<N>>,
) -> bool {
    forall|i: int|
        0 <= i < outs.len() ==> enhanced_as(
            piece(stream, SAMPLES_PER_CHUNK as nat, i as nat),
            enhance,
            Ok(#[trigger] outs[i]),
        )
}

/// Outcome of pushing `samples` behind `pending`: on success every full chunk
/// was enhanced and the rest is pending; on failure the chunk that failed is
/// gone and what follows it is pending.
pub open spec fn is_pushed<N, M: Fn(&Vec<N>) -> Result<Vec<N>, EmbeddingError>>(
    pending: Seq<N>,
    samples: Seq<N>,
    enhance: M,
    after: Seq<N>,
    r: Result<Vec<N>, EmbeddingError>,
) -> bool {
    let stream = pending + samples;
    let c = SAMPLES_PER_CHUNK as nat;
    exists|outs: Seq<Vec<N>>|
        {
            &&& #[trigger] are_enhanced(stream, enhance, outs)
            &&& match r {
                Ok(out) => {
                    &&& outs.len() == stream.len() / c
                    &&& out@ == joined(outs, outs.len())
                    &&& after == stream.skip((outs.len() * c) as int)
                },
                Err(e) => {
                    &&& outs.len() < stream.len() / c
                    &&& enhanced_as(
                        piece(stream, c, outs.len()),
                        enhance,
                        Err::<Vec<N>, EmbeddingError>(e),
                    )
                    &&& after == stream.skip((outs.len() * c + c) as int)
                },
            }
        }
}

/// Live feeding of the model: samples queue up until a chunk is full.
pub struct Dfn3Streamer<N> {
    input_buffer: VecDeque<N>,
}

impl<N> View for Dfn3Streamer<N> {
    type V = Seq<N>;

    closed spec fn view(&self) -> Seq<N> {
        self.input_buffer@
    }
}

impl<N: Scalar> Dfn3Streamer<N> {
    /// A streamer with an empty queue.
    pub fn new() -> (r: Self)
        ensures
            r@.len() == 0,
    {
        Dfn3Streamer { input_buffer: VecDeque::new() }
    }

    /// Queues samples and returns the enhancement of the chunks they complete.
    pub fn push_samples<M: Fn(&Vec<N>) -> Result<Vec<N>, EmbeddingError>>(
        &mut self,
        samples: &[N],
        enhance: &M,
    ) -> (r: Result<Vec<N>, EmbeddingError>)
        requires
            forall|v: &Vec<N>| call_requires(*enhance, (v,)),
        ensures
            is_pushed(old(self)@, samples@, *enhance, final(self)@, r),
            r is Ok ==> final(self)@.len() < SAMPLES_PER_CHUNK,
    {
        extend(&mut self.input_buffer, samples);
        let ghost stream = self.input_buffer@;
        let ghost c = SAMPLES_PER_CHUNK as nat;
        let mut out: Vec<N> = Vec::new();
        let ghost mut outs: Seq<Vec<N>> = Seq::empty();
        assert(stream.skip(0) =~= stream);
        while self.input_buffer.len() >= SAMPLES_PER_CHUNK
            invariant
                stream == old(self)@ + samples@,
                c == SAMPLES_PER_CHUNK,
                outs.len() * c <= stream.len(),
                self.input_buffer@ == stream.skip((outs.len() * c) as int),
                out@ == joined(outs, outs.len()),
                are_enhanced(stream, *enhance, outs),
                forall|v: &Vec<N>| call_requires(*enhance, (v,)),
            decreases self.input_buffer@.len(),
        {
            let ghost k = outs.len();
            let chunk: Vec<N> = take_front(&mut self.input_buffer, SAMPLES_PER_CHUNK);
            proof {
                assert(chunk@ =~= piece(stream, c, k));
                assert((k + 1) * c == k * c + c) by (nonlinear_arith);
                assert(self.input_buffer@ =~= stream.skip((k * c + c) as int));
            }
            let enhanced: Result<Vec<N>, EmbeddingError> = enhance(&chunk);
            assert(enhanced_as(piece(stream, c, k), *enhance, enhanced));
            match enhanced {
                Err(e) => {
                    proof {
                        vstd::arithmetic::div_mod::lemma_div_is_ordered(
                            ((k + 1) * c) as int,
                            stream.len() as int,
                            c as int,
                        );
                        vstd::arithmetic::div_mod::lemma_div_by_multiple((k + 1) as int, c as int);
                    }
                    return Err(e);
                },
                Ok(v) => {
                    append_samples(&mut out, v.as_slice(), 0, v.len());
                    proof {
                        let before = outs;
                        outs = outs.push(v);
                        lemma_joined_prefix(before, outs, k);
                        assert(out@ =~= joined(outs, outs.len()));
                        assert forall|j: int| 0 <= j < outs.len() implies enhanced_as(
                            piece(stream, c, j as nat),
                            *enhance,
                            Ok(#[trigger] outs[j]),
                        ) by {
                            if j < k {
                                assert(outs[j] == before[j]);
                            }
                        }
                    }
                },
            }
        }
        proof {
            lemma_quotient_exact(stream.len(), c, outs.len(), self.input_buffer@.len());
        }
        Ok(out)
    }

    /// Pads what is queued with silence to a full chunk and enhances it;
    /// nothing when nothing is queued.
    pub fn flush<M: Fn(&Vec<N>) -> Result<Vec<N>, EmbeddingError>>(&mut self, enhance: &M) -> (r:
        Result<Vec<N>, EmbeddingError>)
        requires
            old(self)@.len() <= SAMPLES_PER_CHUNK,
            forall|v: &Vec<N>| call_requires(*enhance, (v,)),
        ensures
            final(self)@.len() == 0,
            old(self)@.len() == 0 ==> (r matches Ok(out) && out@.len() == 0),
            old(self)@.len() > 0 ==> exists|chunk: Seq<N>| #[trigger]
                is_padded(old(self)@, SAMPLES_PER_CHUNK as nat, chunk) && enhanced_as(
                    chunk,
                    *enhance,
                    r,
                ),
    {
        if self.input_buffer.len() == 0 {
            return Ok(Vec::new());
        }
        let n: usize = self.input_buffer.len();
        let mut chunk: Vec<N> = take_front(&mut self.input_buffer, n);
        assert(chunk@ =~= old(self)@);
        let zero: N = N::from(0u16);
        pad_to(&mut chunk, SAMPLES_PER_CHUNK, zero);
        assert(is_padded(old(self)@, SAMPLES_PER_CHUNK as nat, chunk@));
        let enhanced: Result<Vec<N>, EmbeddingError> = enhance(&chunk);
        assert(enhanced_as(chunk@, *enhance, enhanced));
        enhanced
    }

    /// Empties the queue.
    pub fn reset(&mut self)
        ensures
            final(self)@.len() == 0,
    {
        self.input_buffer.clear();
    }

    /// How many samples are queued.
    pub fn buffered_samples(&self) -> (r: usize)
        ensures
            r == self@.len(),
    {
        self.input_buffer.len()
    }
}

/// The model returns a full chunk.
pub open spec fn returns_chunks<N, M: Fn(&Vec<N>) -> Result<Vec<N>, EmbeddingError>>(
    enhance: M,
) -> bool {
    forall|v: &Vec<N>, out: Vec<N>| #[trigger]
        call_ensures(enhance, (v,), Ok(out)) ==> out@.len() == SAMPLES_PER_CHUNK
}

/// Pushing loses and invents no samples.
pub proof fn lemma_push_conserves<N, M: Fn(&Vec<N>) -> Result<Vec<N>, EmbeddingError>>(
    pending: Seq<N>,
    samples: Seq<N>,
    enhance: M,
    after: Seq<N>,
    out: Vec<N>,
)
    requires
        returns_chunks(enhance),
        is_pushed(pending, samples, enhance, after, Ok(out)),
    ensures
        out@.len() + after.len() == pending.len() + samples.len(),
{
    let stream = pending + samples;
    let c = SAMPLES_PER_CHUNK as nat;
    let outs = choose|outs: Seq<Vec<N>>|
        {
            &&& #[trigger] are_enhanced(stream, enhance, outs)
            &&& outs.len() == stream.len() / c
            &&& out@ == joined(outs, outs.len())
            &&& after == stream.skip((outs.len() * c) as int)
        };
    assert forall|j: int| 0 <= j < outs.len() implies (#[trigger] outs[j])@.len() == c by {
        assert(enhanced_as(piece(stream, c, j as nat), enhance, Ok(outs[j])));
    }
    lemma_joined_length(outs, outs.len(), c);
    vstd::arithmetic::div_mod::lemma_fundamental_div_mod(stream.len() as int, c as int);
}

/// Pushing `samples` succeeded with `out`.
pub open spec fn is_pushed_out<N, M: Fn(&Vec<N>) -> Result<Vec<N>, EmbeddingError>>(
    pending: Seq<N>,
    samples: Seq<N>,
    enhance: M,
    after: Seq<N>,
    out: Seq<N>,
) -> bool {
    let stream = pending + samples;
    let c = SAMPLES_PER_CHUNK as nat;
    exists|outs: Seq<Vec<N>>|
        {
            &&& #[trigger] are_enhanced(stream, enhance, outs)
            &&& outs.len() == stream.len() / c
            &&& out == joined(outs, outs.len())
            &&& after == stream.skip((outs.len() * c) as int)
        }
}

/// [`is_pushed_out`] is what pushing with success means.
pub proof fn lemma_pushed_out<N, M: Fn(&Vec<N>) -> Result<Vec<N>, EmbeddingError>>(
    pending: Seq<N>,
    samples: Seq<N>,
    enhance: M,
    after: Seq<N>,
    out: Vec<N>,
)
    ensures
        is_pushed(pending, samples, enhance, after, Ok(out)) ==> is_pushed_out(
            pending,
            samples,
            enhance,
            after,
            out@,
        ),
{
}

/// It does not matter in what parts audio is pushed: two parts one after the other
/// leave the queue and give the output that both at once do.
pub proof fn lemma_queue_in_parts<N, M: Fn(&Vec<N>) -> Result<Vec<N>, EmbeddingError>>(
    pending: Seq<N>,
    a: Seq<N>,
    b: Seq<N>,
    enhance: M,
    mid: Seq<N>,
    after: Seq<N>,
    first: Seq<N>,
    second: Seq<N>,
)
    requires
        is_pushed_out(pending, a, enhance, mid, first),
        is_pushed_out(mid, b, enhance, after, second),
    ensures
        is_pushed_out(pending, a + b, enhance, after, first + second),
{
    let c = SAMPLES_PER_CHUNK as nat;
    let s = pending + a;
    let outs1 = choose|outs: Seq<Vec<N>>|
        {
            &&& #[trigger] are_enhanced(s, enhance, outs)
            &&& outs.len() == s.len() / c
            &&& first == joined(outs, outs.len())
            &&& mid == s.skip((outs.len() * c) as int)
        };
    let k1 = outs1.len();
    let s2 = mid + b;
    let outs2 = choose|outs: Seq<Vec<N>>|
        {
            &&& #[trigger] are_enhanced(s2, enhance, outs)
            &&& outs.len() == s2.len() / c
            &&& second == joined(outs, outs.len())
            &&& after == s2.skip((outs.len() * c) as int)
        };
    let k2 = outs2.len();
    vstd::arithmetic::div_mod::lemma_fundamental_div_mod(s.len() as int, c as int);
    vstd::arithmetic::div_mod::lemma_fundamental_div_mod(s2.len() as int, c as int);
    let t = pending + (a + b);
    assert(t =~= s + b);
    lemma_quotient_exact(t.len(), c, k1 + k2, (s2.len() - k2 * c) as nat);
    let outs = outs1 + outs2;
    assert forall|i: int| 0 <= i < outs.len() implies enhanced_as(
        piece(t, c, i as nat),
        enhance,
        Ok(#[trigger] outs[i]),
    ) by {
        lemma_pieces_in_parts(s, b, c, k1, i as nat);
        if i < k1 {
            assert(outs[i] == outs1[i]);
        } else {
            assert(outs[i] == outs2[i - k1]);
        }
    }
    assert(are_enhanced(t, enhance, outs));
    lemma_joined_concat(outs1, outs2, k2);
    assert(t.skip((outs.len() * c) as int) =~= after);
}

} // verus!
