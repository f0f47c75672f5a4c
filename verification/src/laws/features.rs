//! Laws of features, embeddings and resampling.
use crate::embedding::{
    at, embedding_from_view, frame_features, is_encoded, is_pooled, lemma_transpose_twice,
    pooler_input, transpose, was_run, Backend, EcapaTdnn, EmbeddingError, FrameFeatures,
    GraphOutput,
};
use crate::features::{
    are_logs, are_transformed, decode_words, floored, is_embedded_window, is_hamming,
    is_transformed, measure_window, mel_powers, projected, tenfold, Fbank, FbankError,
};
use crate::laws::models::ends_in_silence;
use crate::laws::score::bounds;
use crate::laws::{adds_up, are_running_sums};
use crate::resample::{
    block_of, ran_block, ran_blocks, resample_one, resample_to, ResampleError,
};
use crate::scalar::{
    bottom, count, frac, gt, highest, lawful, le, lt, num, pick, total_order, Scalar,
};
use crate::tse_stage::{is_padded, joined};
use vstd::prelude::*;
use vstd::std_specs::ops::{AddSpec, DivSpec, MulSpec, SubSpec};

verus! {

// ---------------------------------------------------------------------
// Features
// ---------------------------------------------------------------------
/// `frame` is what the window shows around sample `160 * f` of the audio: two hundred
/// samples before it and as many from it on, silence where there is no audio, each times
/// its entry of the window.
pub open spec fn is_shown<N: Scalar>(
    audio: Seq<N>,
    window: Seq<N>,
    f: int,
    frame: Seq<N>,
) -> bool {
    &&& frame.len() == 400
    &&& forall|i: int|
        0 <= i < 400 && 0 <= f * 160 - 200 + i < audio.len() ==> #[trigger] frame[i]
            == audio[f * 160 - 200 + i].mul_spec(window[i])
    &&& forall|i: int|
        0 <= i < 400 && !(0 <= f * 160 - 200 + i < audio.len()) ==> #[trigger] frame[i]
            == num::<N>(0).mul_spec(window[i])
}

/// The power of each bin, weighted for band `m`.
pub open spec fn weighted<N: Scalar>(
    bins: Seq<(N, N)>,
    filterbank: Seq<N>,
    m: int,
) -> Seq<N> {
    Seq::new(
        201,
        |b: int|
            bins[b].0.mul_spec(bins[b].0).add_spec(bins[b].1.mul_spec(bins[b].1)).mul_spec(
                filterbank[b * 80 + m],
            ),
    )
}

/// `x` is ten times the logarithm of the power of band `m` in frame `f`, of no power below
/// the smallest.
pub open spec fn is_band<N: Scalar, F: Fn(&Vec<N>) -> Vec<(N, N)>, L: Fn(N) -> N>(
    bank: Fbank<N>,
    audio: Seq<N>,
    fft: F,
    log10: L,
    f: int,
    m: int,
    x: N,
) -> bool {
    exists|frame: Vec<N>, bins: Vec<(N, N)>, p: N, l: N|
        {
            &&& is_shown(audio, bank@.window, f, frame@)
            &&& #[trigger] call_ensures(fft, (&frame,), bins)
            &&& #[trigger] adds_up(weighted(bins@, bank@.filterbank, m), p)
            &&& #[trigger] call_ensures(
                log10,
                (pick(
                    p,
                    num::<N>(1).div_spec(num::<N>(10_000).mul_spec(num(10_000)).mul_spec(num(100))),
                ),),
                l,
            )
            &&& x == num::<N>(10).mul_spec(l)
        }
}

/// The features are the band powers of one frame after the other, eighty to a frame, in
/// decibels, none more than eighty below the largest of all.
pub proof fn lemma_features_are_band_powers<
    N: Scalar,
    F: Fn(&Vec<N>) -> Vec<(N, N)>,
    L: Fn(N) -> N,
>(bank: Fbank<N>, audio: &[N], fft: &F, log10: &L, r: Vec<N>)
    requires
        call_ensures(Fbank::<N>::compute::<F, L>, (&bank, audio, fft, log10), r),
        lawful::<N>(),
        total_order::<N>(),
        forall|x: N| #[trigger] le(bottom::<N>(), x),
    ensures
        r@.len() == (audio@.len() / 160 + 1) * 80,
        exists|db: Seq<N>, top: N|
            {
                &&& db.len() == r@.len()
                &&& forall|f: int, m: int|
                    0 <= f <= audio@.len() / 160 && 0 <= m < 80 ==> is_band(
                        bank,
                        audio@,
                        *fft,
                        *log10,
                        f,
                        m,
                        #[trigger] cell(db, f, m),
                    )
                &&& #[trigger] bounds(db, top)
                &&& db.contains(top) || top == bottom::<N>()
                &&& forall|k: int|
                    0 <= k < r@.len() ==> #[trigger] r@[k] == if lt(
                        db[k],
                        top.sub_spec(num(80)),
                    ) {
                        top.sub_spec(num(80))
                    } else {
                        db[k]
                    }
            },
{
    let (spectra, logs) = choose|spectra: Seq<Vec<(N, N)>>, logs: Seq<N>|
        {
            &&& spectra.len() == audio@.len() / 160 + 1
            &&& #[trigger] are_transformed(audio@, bank@.window, *fft, spectra)
            &&& #[trigger] are_logs(
                mel_powers(spectra, bank@.filterbank, spectra.len()),
                *log10,
                logs,
            )
            &&& r@ == floored(tenfold(logs))
        };
    let powers = mel_powers(spectra, bank@.filterbank, spectra.len());
    let db = tenfold(logs);
    let top = highest(db, db.len());
    lemma_mel_length(spectra, bank@.filterbank, spectra.len());
    lemma_highest_of(db, db.len());
    assert(bounds(db, top));
    if top != bottom::<N>() {
        let i = choose|i: int| 0 <= i < db.len() && #[trigger] db[i] == top;
        assert(db.contains(top));
    }
    assert forall|f: int, m: int|
        0 <= f <= audio@.len() / 160 && 0 <= m < 80 implies is_band(
        bank,
        audio@,
        *fft,
        *log10,
        f,
        m,
        #[trigger] cell(db, f, m),
    ) by {
        let k = f * 80 + m;
        let bins = spectra[f];
        assert(is_transformed(
            crate::features::windowed(audio@, bank@.window, f),
            *fft,
            spectra[f],
        ));
        let frame = choose|v: Vec<N>|
            v@ == crate::features::windowed(audio@, bank@.window, f) && #[trigger] call_ensures(
                *fft,
                (&v,),
                bins,
            );
        assert(is_shown(audio@, bank@.window, f, frame@));
        lemma_mel_at(spectra, bank@.filterbank, spectra.len(), f, m);
        let p = projected(bins@, bank@.filterbank, m, 201);
        lemma_projected_adds_up(bins@, bank@.filterbank, m);
        assert(powers[k] == p);
        let l = logs[k];
        assert(call_ensures(
            *log10,
            (pick(powers[k], crate::features::power_floor()),),
            logs[k],
        ));
        assert(adds_up(weighted(bins@, bank@.filterbank, m), p));
        assert(cell(db, f, m) == num::<N>(10).mul_spec(l));
    }
}

/// Value `m` of frame `f`.
pub open spec fn cell<N>(s: Seq<N>, f: int, m: int) -> N {
    s[f * 80 + m]
}

proof fn lemma_highest_of<N: Scalar>(s: Seq<N>, n: nat)
    requires
        n <= s.len(),
        total_order::<N>(),
        forall|x: N| #[trigger] le(bottom::<N>(), x),
    ensures
        forall|i: int| 0 <= i < n ==> le(#[trigger] s[i], highest(s, n)),
        highest(s, n) != bottom::<N>() ==> exists|i: int|
            0 <= i < n && #[trigger] s[i] == highest(s, n),
    decreases n,
{
    if n > 0 {
        let before = highest(s, (n - 1) as nat);
        lemma_highest_of(s, (n - 1) as nat);
        assert(gt(s[n - 1], before) == !le(s[n - 1], before));
        assert(le(s[n - 1], s[n - 1]));
        assert(le(before, s[n - 1]) || le(s[n - 1], before));
    }
}

proof fn lemma_mel_length<N: Scalar>(spectra: Seq<Vec<(N, N)>>, filterbank: Seq<N>, n: nat)
    ensures
        mel_powers(spectra, filterbank, n).len() == n * 80,
    decreases n,
{
    if n > 0 {
        lemma_mel_length(spectra, filterbank, (n - 1) as nat);
    }
}

proof fn lemma_mel_at<N: Scalar>(
    spectra: Seq<Vec<(N, N)>>,
    filterbank: Seq<N>,
    n: nat,
    f: int,
    m: int,
)
    requires
        0 <= f < n,
        0 <= m < 80,
    ensures
        mel_powers(spectra, filterbank, n)[f * 80 + m] == projected(
            spectra[f]@,
            filterbank,
            m,
            201,
        ),
    decreases n,
{
    lemma_mel_length(spectra, filterbank, (n - 1) as nat);
    if f < n - 1 {
        lemma_mel_at(spectra, filterbank, (n - 1) as nat, f, m);
    }
}

proof fn lemma_projected_adds_up<N: Scalar>(bins: Seq<(N, N)>, filterbank: Seq<N>, m: int)
    ensures
        adds_up(weighted(bins, filterbank, m), projected(bins, filterbank, m, 201)),
{
    let p = Seq::new(202, |i: int| projected(bins, filterbank, m, i as nat));
    assert(are_running_sums(weighted(bins, filterbank, m), p));
}

/// The window is the periodic Hamming window, and the filterbank is taken as it is given.
pub proof fn lemma_window_is_hamming<N: Scalar, C: Fn(N) -> N>(
    filterbank: &[N],
    pi: N,
    cos: &C,
    bank: Fbank<N>,
    i: int,
)
    requires
        call_ensures(Fbank::<N>::new::<C>, (filterbank, pi, cos), Ok(bank)),
        lawful::<N>(),
        0 <= i < 400,
    ensures
        bank@.filterbank == filterbank@,
        filterbank@.len() == 201 * 80,
        exists|c: N|
            {
                &&& #[trigger] call_ensures(
                    *cos,
                    (num::<N>(2).mul_spec(pi).mul_spec(count(i as nat)).div_spec(count(400)),),
                    c,
                )
                &&& bank@.window[i] == frac::<N>(27, 50).sub_spec(frac::<N>(23, 50).mul_spec(c))
            },
{
    assert(is_hamming(i as nat, pi, *cos, bank@.window[i]));
}

/// Number `k` is made of the bytes `4 * k` to `4 * k + 3`, in that order.
pub proof fn lemma_words_are_decoded_in_order<N, D: Fn([u8; 4]) -> N>(
    bytes: &[u8],
    decode: &D,
    r: Vec<N>,
    k: int,
)
    requires
        call_ensures(decode_words::<N, D>, (bytes, decode), r),
        0 <= k < bytes@.len() / 4,
    ensures
        r@.len() == bytes@.len() / 4,
        exists|w: [u8; 4]|
            {
                &&& #[trigger] call_ensures(*decode, (w,), r@[k])
                &&& w@[0] == bytes@[4 * k]
                &&& w@[1] == bytes@[4 * k + 1]
                &&& w@[2] == bytes@[4 * k + 2]
                &&& w@[3] == bytes@[4 * k + 3]
            },
{
    let x = r@[k];
    let w = choose|w: [u8; 4]|
        w@ == bytes@.subrange(4 * k, 4 * k + 4) && #[trigger] call_ensures(*decode, (w,), x);
    assert(w@[0] == bytes@.subrange(4 * k, 4 * k + 4)[0]);
    assert(w@[1] == bytes@.subrange(4 * k, 4 * k + 4)[1]);
    assert(w@[2] == bytes@.subrange(4 * k, 4 * k + 4)[2]);
    assert(w@[3] == bytes@.subrange(4 * k, 4 * k + 4)[3]);
}

/// A window is measured as a whole: the model gets its features, in rows of eighty, and
/// the pitch is that of the same window.
pub proof fn lemma_window_is_measured_whole<
    N: Scalar,
    F: Fn(&Vec<N>) -> Vec<(N, N)>,
    L: Fn(N) -> N,
    M: Fn(&Vec<N>, usize, usize) -> Result<Vec<N>, EmbeddingError>,
    P: Fn(&[N]) -> (N, N),
>(
    bank: Fbank<N>,
    window: &[N],
    fft: &F,
    log10: &L,
    model: &M,
    pitch: &P,
    e: Vec<N>,
    hz: N,
)
    requires
        call_ensures(
            measure_window::<N, F, L, M, P>,
            (&bank, window, fft, log10, model, pitch),
            Ok((e, hz)),
        ),
        window@.len() / 160 + 1 <= usize::MAX,
    ensures
        exists|feats: Vec<N>, spread: N|
            {
                &&& feats@.len() == (window@.len() / 160 + 1) * 80
                &&& #[trigger] call_ensures(
                    *model,
                    (&feats, (window@.len() / 160 + 1) as usize, 80usize),
                    Ok(e),
                )
                &&& #[trigger] call_ensures(*pitch, (window,), (hz, spread))
            },
{
    let made = choose|made: Result<Vec<N>, EmbeddingError>|
        #[trigger] is_embedded_window(bank@, window@, *fft, *log10, *model, made) && match made {
            Err(x) => false,
            Ok(v) => exists|mean: N, spread: N|
                #[trigger] call_ensures(*pitch, (window,), (mean, spread)) && (e, hz) == (v, mean),
        };
    let (feats, n) = choose|feats: Vec<N>, n: usize|
        {
            &&& n == window@.len() / 160 + 1
            &&& feats@.len() == n * 80
            &&& #[trigger] call_ensures(*model, (&feats, n, 80usize), made)
        };
    assert(made == Ok::<Vec<N>, EmbeddingError>(e));
    let (mean, spread) = choose|mean: N, spread: N|
        #[trigger] call_ensures(*pitch, (window,), (mean, spread)) && (e, hz) == (made->Ok_0, mean);
    assert(call_ensures(*pitch, (window,), (hz, spread)));
    assert(n == (window@.len() / 160 + 1) as usize);
    assert(call_ensures(
        *model,
        (&feats, (window@.len() / 160 + 1) as usize, 80usize),
        Ok::<Vec<N>, EmbeddingError>(e),
    ));
}

// ---------------------------------------------------------------------
// Embeddings
// ---------------------------------------------------------------------
/// Rows become columns, and doing it twice gives the matrix back.
pub proof fn lemma_rows_become_columns<N: Copy>(
    a: &[N],
    rows: usize,
    cols: usize,
    b: Vec<N>,
    s: &[N],
    c: Vec<N>,
)
    requires
        call_ensures(transpose::<N>, (a, rows, cols), b),
        call_ensures(transpose::<N>, (s, cols, rows), c),
        s@ == b@,
        a@.len() == rows * cols,
    ensures
        c@ == a@,
        forall|i: int, j: int|
            0 <= i < rows && 0 <= j < cols ==> #[trigger] entry(b@, rows as int, j, i) == entry(
                a@,
                cols as int,
                i,
                j,
            ),
{
    assert forall|i: int, j: int|
        0 <= i < rows && 0 <= j < cols implies #[trigger] entry(b@, rows as int, j, i) == entry(
        a@,
        cols as int,
        i,
        j,
    ) by {
        assert(at(b@, rows as nat, j, i) == at(a@, cols as nat, i, j));
    }
    lemma_transpose_twice(a@, rows as nat, cols as nat, b@, c@);
}

/// The entry in a row and a column of a matrix with that many columns.
pub open spec fn entry<N>(data: Seq<N>, cols: int, row: int, col: int) -> N {
    data[row * cols + col]
}

/// The pooler gets back exactly what the encoder gave.
pub proof fn lemma_pooler_hears_the_encoder<N: Copy>(
    dims: &[i64],
    data: &[N],
    f: FrameFeatures<N>,
    s: &[N],
    v: Vec<N>,
)
    requires
        call_ensures(frame_features::<N>, (dims, data), Ok(f)),
        call_ensures(pooler_input::<N>, (s, f.n_frames, f.c_mfa), Ok(v)),
        s@ == f.data@,
        dims@[1] >= 0 && dims@[2] >= 0,
        data@.len() == dims@[1] * dims@[2],
    ensures
        v@ == data@,
{
    lemma_transpose_twice(data@, dims@[1] as nat, dims@[2] as nat, f.data@, v@);
}

/// A split model runs its encoder on the features and its pooler on what that gave; the
/// embedding is the first one hundred and ninety-two values of the reply.
pub proof fn lemma_split_model_runs_in_turn<
    N: Copy,
    S: Fn(&Vec<N>, usize, usize) -> Result<GraphOutput<N>, EmbeddingError>,
>(
    encoder: S,
    pooler: S,
    features: &[N],
    n_frames: usize,
    n_mels: usize,
    e: Vec<N>,
)
    requires
        call_ensures(
            EcapaTdnn::<S>::embed_features::<N>,
            (
                &(EcapaTdnn { backend: Backend::Split { encoder, pooler } }),
                features,
                n_frames,
                n_mels,
            ),
            Ok(e),
        ),
        forall|v: Vec<N>, rows: usize, cols: usize, t: GraphOutput<N>| #[trigger]
            call_ensures(encoder, (&v, rows, cols), Ok::<GraphOutput<N>, EmbeddingError>(t))
                ==> t.wf(),
    ensures
        exists|input: Vec<N>, mid: GraphOutput<N>, fed: Vec<N>, out: GraphOutput<N>|
            {
                &&& input@ == features@
                &&& #[trigger] call_ensures(encoder, (&input, n_frames, n_mels), Ok(mid))
                &&& mid.dims@.len() == 3
                &&& fed@ == mid.data@
                &&& #[trigger] call_ensures(
                    pooler,
                    (&fed, mid.dims@[1] as usize, mid.dims@[2] as usize),
                    Ok(out),
                )
                &&& e@ == out.data@.take(192)
            },
{
    let f = choose|f: Result<FrameFeatures<N>, EmbeddingError>|
        #[trigger] is_encoded(encoder, features@, n_frames, n_mels, f) && match f {
            Err(x) => false,
            Ok(f) => is_pooled(pooler, f.data@, f.n_frames, f.c_mfa, Ok(e)),
        };
    let f = f->Ok_0;
    let first = choose|first: Result<GraphOutput<N>, EmbeddingError>|
        #[trigger] was_run(encoder, features@, n_frames, n_mels, first) && match first {
            Err(x) => false,
            Ok(t) => {
                &&& t.dims@.len() == 3 && t.dims@[0] == 1
                &&& f.c_mfa == t.dims@[1] && f.n_frames == t.dims@[2]
                &&& crate::embedding::is_transposed(
                    t.data@,
                    t.dims@[1] as nat,
                    t.dims@[2] as nat,
                    f.data@,
                )
            },
        };
    let mid = first->Ok_0;
    let input = choose|v: Vec<N>|
        v@ == features@ && #[trigger] call_ensures(encoder, (&v, n_frames, n_mels), first);
    assert(call_ensures(encoder, (&input, n_frames, n_mels), Ok(mid)));
    let (turned, second) = choose|turned: Seq<N>, second: Result<GraphOutput<N>, EmbeddingError>|
        {
            &&& crate::embedding::is_transposed(
                f.data@,
                f.n_frames as nat,
                f.c_mfa as nat,
                turned,
            )
            &&& #[trigger] was_run(pooler, turned, f.c_mfa, f.n_frames, second)
            &&& crate::embedding::is_read_out(second, Ok(e))
        };
    let fed = choose|v: Vec<N>|
        v@ == turned && #[trigger] call_ensures(pooler, (&v, f.c_mfa, f.n_frames), second);
    assert(mid.wf());
    assert(mid.data@.len() == mid.dims@[1] * mid.dims@[2]) by {
        let (a, b, c) = (mid.dims@[0], mid.dims@[1], mid.dims@[2]);
        assert(1 * b * c == b * c) by (nonlinear_arith);
    }
    lemma_transpose_twice(
        mid.data@,
        mid.dims@[1] as nat,
        mid.dims@[2] as nat,
        f.data@,
        turned,
    );
    assert(call_ensures(
        pooler,
        (&fed, mid.dims@[1] as usize, mid.dims@[2] as usize),
        Ok(second->Ok_0),
    ));
}

/// An embedding is the first one hundred and ninety-two values, where the shape says that
/// there are just those.
pub proof fn lemma_embedding_is_read_from_the_start<N: Copy>(
    dims: &[i64],
    data: &[N],
    e: Vec<N>,
    i: int,
)
    requires
        call_ensures(embedding_from_view::<N>, (dims, data), Ok(e)),
        data@.len() >= 192,
        0 <= i < 192,
    ensures
        e@.len() == 192,
        e@[i] == data@[i],
        dims@.last() == 192,
        dims@.len() == 1 || dims@.len() == 2 && dims@[0] == 1,
{
}

// ---------------------------------------------------------------------
// Resampling
// ---------------------------------------------------------------------
/// Audio that has the rate already stays as it is; other audio is what the interpolator
/// makes of it, its first channel.
pub proof fn lemma_resampling_uses_the_first_channel<
    N: Copy,
    M: Fn(&[N], u32, u32) -> Result<Vec<Vec<N>>, ResampleError>,
>(audio: &[N], src: u32, dst: u32, run: &M, out: Vec<N>)
    requires
        call_ensures(resample_to::<N, M>, (audio, src, dst, run), Ok(out)),
    ensures
        src == dst ==> out@ == audio@,
        audio@.len() == 0 ==> out@.len() == 0,
        src != dst && audio@.len() > 0 ==> exists|channels: Vec<Vec<N>>|
            {
                &&& #[trigger] call_ensures(*run, (audio, src, dst), Ok(channels))
                &&& channels@.len() > 0 ==> out@ == channels@[0]@
                &&& channels@.len() == 0 ==> out@.len() == 0
            },
{
    if src != dst && audio@.len() > 0 {
        let outcome = choose|outcome: Result<Vec<Vec<N>>, ResampleError>|
            {
                &&& #[trigger] call_ensures(*run, (audio, src, dst), outcome)
                &&& outcome matches Ok(channels) && (channels@.len() > 0 ==> out@
                    == channels@[0]@) && (channels@.len() == 0 ==> out@.len() == 0)
            };
        assert(call_ensures(*run, (audio, src, dst), Ok(outcome->Ok_0)));
    }
}

/// A piece of live audio goes through block by block, in order, the last one followed by
/// silence: with a step that hands its block back it comes out as it went in, followed by
/// less than a block of silence.
pub proof fn lemma_live_audio_keeps_its_order<
    N: Scalar,
    F: Fn(&Vec<N>) -> Result<Vec<N>, String>,
>(mono: &[N], frames: usize, step: &F, out: Vec<N>)
    requires
        call_ensures(resample_one::<N, F>, (mono, frames, step), Ok(out)),
        frames > 0,
        lawful::<N>(),
        forall|v: Vec<N>, w: Vec<N>| #[trigger]
            call_ensures(*step, (&v,), Ok::<Vec<N>, String>(w)) ==> w@ == v@,
    ensures
        ends_in_silence(mono@, out@.len(), out@),
        mono@.len() <= out@.len() < mono@.len() + frames,
{
    let m = mono@;
    let c = frames as nat;
    let outs = choose|outs: Seq<Vec<N>>|
        {
            &&& #[trigger] ran_blocks(m, c, *step, outs)
            &&& crate::resample::covers(outs.len(), c, m.len())
            &&& out@ == joined(outs, outs.len())
        };
    let n = outs.len();
    assert forall|k: int| 0 <= k < n implies is_padded(
        block_of(m, c, k as nat),
        c,
        (#[trigger] outs[k])@,
    ) by {
        assert(ran_block(m, c, *step, k as nat, Ok(outs[k])));
        let v = choose|v: Vec<N>|
            is_padded(block_of(m, c, k as nat), c, v@) && #[trigger] call_ensures(
                *step,
                (&v,),
                Ok::<Vec<N>, String>(outs[k]),
            );
    }
    lemma_blocks_join(m, c, outs, n);
    if n > 0 {
        assert((n - 1) * c + c == n * c) by (nonlinear_arith);
    } else {
        assert(0 * c == 0) by (nonlinear_arith);
    }
}

proof fn lemma_blocks_join<N: Scalar>(m: Seq<N>, c: nat, outs: Seq<Vec<N>>, n: nat)
    requires
        n <= outs.len(),
        c > 0,
        lawful::<N>(),
        n > 0 ==> (n - 1) * c < m.len(),
        forall|k: int|
            0 <= k < n ==> is_padded(block_of(m, c, k as nat), c, (#[trigger] outs[k])@),
    ensures
        joined(outs, n).len() == n * c,
        forall|i: int|
            0 <= i < n * c && i < m.len() ==> #[trigger] joined(outs, n)[i] == m[i],
        forall|i: int|
            m.len() <= i < n * c ==> #[trigger] joined(outs, n)[i] == num::<N>(0),
    decreases n,
{
    if n > 0 {
        let k = (n - 1) as nat;
        assert(k * c + c == n * c) by (nonlinear_arith)
            requires
                k == n - 1,
        ;
        if k > 0 {
            assert((k - 1) * c <= k * c) by (nonlinear_arith)
                requires
                    k > 0,
            ;
        }
        lemma_blocks_join(m, c, outs, k);
        let before = joined(outs, k);
        let b = block_of(m, c, k);
        let last = outs[k as int]@;
        assert(is_padded(b, c, last));
        assert(0 <= k * c) by (nonlinear_arith);
        assert forall|i: int| 0 <= i < n * c && i < m.len() implies #[trigger] joined(outs, n)[i]
            == m[i] by {
            if i < k * c {
                assert(joined(outs, n)[i] == before[i]);
            } else {
                assert(joined(outs, n)[i] == last[i - k * c]);
                assert(b[i - k * c] == last.take(b.len() as int)[i - k * c]);
            }
        }
        assert forall|i: int| m.len() <= i < n * c implies #[trigger] joined(outs, n)[i]
            == num::<N>(0) by {
            assert(i >= k * c);
            assert(joined(outs, n)[i] == last[i - k * c]);
        }
    } else {
        assert(0 * c == 0) by (nonlinear_arith);
    }
}

} // verus!
