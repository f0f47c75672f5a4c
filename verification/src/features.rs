//! Log-mel features: centred frames under a Hamming window, their power
//! spectrum, the projection on a given filterbank, and decibels with a floor
//! below the loudest value. The Fourier transform is a parameter.
use crate::embedding::EmbeddingError;
use crate::scalar::{
    below_all, count, frac, fraction, from_count, highest, lawful, lt, num, pick, pick_larger, total,
    Scalar,
};
use crate::text::{append_decimal, dec};
use vstd::prelude::*;
use vstd::std_specs::ops::{AddSpec, DivSpec, MulSpec, SubSpec};
use vstd::string::*;

verus! {

/// Number of mel bands.
pub const N_MELS: usize = 80;

/// Length of a frame.
pub const N_FFT: usize = 400;

/// Distance between frames.
pub const HOP_LENGTH: usize = 160;

/// Number of bins of a spectrum.
pub const N_STFT: usize = 201;

/// Silence ahead of the audio and behind it.
pub const HALF_FRAME: usize = 200;

/// Entries of a filterbank, one per bin and band.
pub const FILTERBANK_LEN: usize = 16_080;

/// Why no features can be computed.
#[derive(Debug)]
pub enum FbankError {
    /// The filterbank does not have one entry per bin and band.
    BadFilterbankLength { got: usize, expected: usize },
}

impl FbankError {
    /// The words of the error.
    pub open spec fn words(self) -> Seq<char> {
        match self {
            FbankError::BadFilterbankLength { got, expected } => "filterbank buffer is "@ + dec(
                got as nat,
            ) + " f32s, expected "@ + dec(expected as nat),
        }
    }

    /// The error in words.
    pub fn message(&self) -> (r: String)
        ensures
            r@ == self.words(),
    {
        match self {
            FbankError::BadFilterbankLength { got, expected } => {
                let mut s: String = "filterbank buffer is ".to_owned();
                append_decimal(&mut s, *got as u64);
                s.append(" f32s, expected ");
                append_decimal(&mut s, *expected as u64);
                s
            },
        }
    }
}

/// A filterbank and the window in front of it.
pub struct Fbank<N> {
    window: Vec<N>,
    filterbank: Vec<N>,
}

/// What an extractor holds.
pub struct FbankView<N> {
    pub window: Seq<N>,
    pub filterbank: Seq<N>,
}

impl<N> View for Fbank<N> {
    type V = FbankView<N>;

    closed spec fn view(&self) -> FbankView<N> {
        FbankView { window: self.window@, filterbank: self.filterbank@ }
    }
}

/// `w` is entry `i` of the periodic Hamming window.
pub open spec fn is_hamming<N: Scalar, C: Fn(N) -> N>(i: nat, pi: N, cos: C, w: N) -> bool {
    exists|c: N|
        {
            &&& #[trigger] call_ensures(
                cos,
                (num::<N>(2).mul_spec(pi).mul_spec(count(i)).div_spec(count(N_FFT as nat)),),
                c,
            )
            &&& w == frac::<N>(27, 50).sub_spec(frac::<N>(23, 50).mul_spec(c))
        }
}

/// The number of frames of `n` samples.
pub open spec fn frame_count(n: nat) -> nat {
    1 + n / HOP_LENGTH as nat
}

/// Sample `i` of frame `f` of the audio between its silences.
pub open spec fn padded_sample<N: Scalar>(audio: Seq<N>, f: int, i: int) -> N {
    let at = f * HOP_LENGTH as int + i;
    if at < HALF_FRAME || at >= HALF_FRAME + audio.len() {
        num(0)
    } else {
        audio[at - HALF_FRAME]
    }
}

/// Frame `f` under the window.
pub open spec fn windowed<N: Scalar>(audio: Seq<N>, window: Seq<N>, f: int) -> Seq<N> {
    Seq::new(N_FFT as nat, |i: int| padded_sample(audio, f, i).mul_spec(window[i]))
}

/// The power of a bin.
pub open spec fn power<N: Scalar>(bin: (N, N)) -> N {
    bin.0.mul_spec(bin.0).add_spec(bin.1.mul_spec(bin.1))
}

/// The first `b` bins projected on band `m`.
pub open spec fn projected<N: Scalar>(bins: Seq<(N, N)>, filterbank: Seq<N>, m: int, b: nat) -> N
    decreases b,
{
    if b == 0 {
        num(0)
    } else {
        projected(bins, filterbank, m, (b - 1) as nat).add_spec(
            power(bins[b - 1]).mul_spec(filterbank[(b - 1) * N_MELS + m]),
        )
    }
}

/// The smallest power whose logarithm is taken.
pub open spec fn power_floor<N: Scalar>() -> N {
    num::<N>(1).div_spec(num::<N>(10_000).mul_spec(num(10_000)).mul_spec(num(100)))
}

/// The values with those more than eighty below the largest raised to there.
pub open spec fn floored<N: Scalar>(db: Seq<N>) -> Seq<N> {
    let floor = highest(db, db.len()).sub_spec(num(80));
    db.map_values(
        |v: N|
            if lt(v, floor) {
                floor
            } else {
                v
            },
    )
}

/// The transform of a windowed frame was computed.
pub open spec fn is_transformed<N, F: Fn(&Vec<N>) -> Vec<(N, N)>>(
    frame: Seq<N>,
    fft: F,
    bins: Vec<(N, N)>,
) -> bool {
    exists|v: Vec<N>| v@ == frame && #[trigger] call_ensures(fft, (&v,), bins)
}

/// The transforms of the first frames.
pub open spec fn are_transformed<N: Scalar, F: Fn(&Vec<N>) -> Vec<(N, N)>>(
    audio: Seq<N>,
    window: Seq<N>,
    fft: F,
    spectra: Seq<Vec<(N, N)>>,
) -> bool {
    forall|f: int|
        0 <= f < spectra.len() ==> is_transformed(
            windowed(audio, window, f),
            fft,
            #[trigger] spectra[f],
        )
}

/// The mel powers of the first frames, frame by frame.
pub open spec fn mel_powers<N: Scalar>(
    spectra: Seq<Vec<(N, N)>>,
    filterbank: Seq<N>,
    n: nat,
) -> Seq<N>
    decreases n,
{
    if n == 0 {
        Seq::empty()
    } else {
        mel_powers(spectra, filterbank, (n - 1) as nat) + Seq::new(
            N_MELS as nat,
            |m: int| projected(spectra[n - 1]@, filterbank, m, N_STFT as nat),
        )
    }
}

/// `logs` are the logarithms of the powers, of none below the floor.
pub open spec fn are_logs<N: Scalar, L: Fn(N) -> N>(
    powers: Seq<N>,
    log10: L,
    logs: Seq<N>,
) -> bool {
    &&& logs.len() == powers.len()
    &&& forall|i: int|
        0 <= i < powers.len() ==> call_ensures(
            log10,
            (pick(powers[i], power_floor()),),
            #[trigger] logs[i],
        )
}

/// Ten times each value.
pub open spec fn tenfold<N: Scalar>(logs: Seq<N>) -> Seq<N> {
    logs.map_values(|l: N| num::<N>(10).mul_spec(l))
}

/// What [`Fbank::compute`] returns.
pub open spec fn are_features<N: Scalar, F: Fn(&Vec<N>) -> Vec<(N, N)>, L: Fn(N) -> N>(
    bank: FbankView<N>,
    audio: Seq<N>,
    fft: F,
    log10: L,
    out: Seq<N>,
) -> bool {
    exists|spectra: Seq<Vec<(N, N)>>, logs: Seq<N>|
        {
            &&& spectra.len() == frame_count(audio.len())
            &&& #[trigger] are_transformed(audio, bank.window, fft, spectra)
            &&& #[trigger] are_logs(
                mel_powers(spectra, bank.filterbank, spectra.len()),
                log10,
                logs,
            )
            &&& out == floored(tenfold(logs))
        }
}

impl<N: Scalar> Fbank<N> {
    /// Window and filterbank have their lengths.
    pub open spec fn wf(&self) -> bool {
        self@.window.len() == N_FFT && self@.filterbank.len() == FILTERBANK_LEN
    }

    /// An extractor for a filterbank, given bin by bin. One of another length is
    /// refused.
    pub fn new<C: Fn(N) -> N>(filterbank: &[N], pi: N, cos: &C) -> (r: Result<Self, FbankError>)
        requires
            total::<N>(),
            forall|x: N| call_requires(*cos, (x,)),
        ensures
            match r {
                Ok(bank) => {
                    &&& filterbank@.len() == FILTERBANK_LEN
                    &&& bank.wf()
                    &&& bank@.filterbank == filterbank@
                    &&& lawful::<N>() ==> forall|i: int|
                        0 <= i < N_FFT ==> is_hamming(
                            i as nat,
                            pi,
                            *cos,
                            #[trigger] bank@.window[i],
                        )
                },
                Err(e) => {
                    &&& filterbank@.len() != FILTERBANK_LEN
                    &&& e == (FbankError::BadFilterbankLength {
                        got: filterbank@.len() as usize,
                        expected: FILTERBANK_LEN,
                    })
                },
            },
    {
        if filterbank.len() != FILTERBANK_LEN {
            return Err(
                FbankError::BadFilterbankLength {
                    got: filterbank.len(),
                    expected: FILTERBANK_LEN,
                },
            );
        }
        let base: N = fraction(27, 50);
        let depth: N = fraction(23, 50);
        let turn: N = N::from(2u16) * pi;
        let len: N = from_count::<N>(N_FFT as u64);
        let mut window: Vec<N> = Vec::new();
        let mut i: usize = 0;
        while i < N_FFT
            invariant
                total::<N>(),
                i <= N_FFT,
                window@.len() == i,
                forall|x: N| call_requires(*cos, (x,)),
                lawful::<N>() ==> base == frac::<N>(27, 50) && depth == frac::<N>(23, 50) && turn
                    == num::<N>(2).mul_spec(pi) && len == count::<N>(N_FFT as nat),
                lawful::<N>() ==> forall|j: int|
                    0 <= j < i ==> is_hamming(j as nat, pi, *cos, #[trigger] window@[j]),
            decreases N_FFT - i,
        {
            let angle: N = turn * from_count::<N>(i as u64) / len;
            let c: N = cos(angle);
            let w: N = base - depth * c;
            proof {
                if lawful::<N>() {
                    assert(call_ensures(
                        *cos,
                        (num::<N>(2).mul_spec(pi).mul_spec(count(i as nat)).div_spec(
                            count(N_FFT as nat),
                        ),),
                        c,
                    ));
                    assert(is_hamming(i as nat, pi, *cos, w));
                }
            }
            window.push(w);
            i = i + 1;
        }
        Ok(Fbank { window, filterbank: crate::rings::copied(filterbank) })
    }

    fn windowed_frame(&self, audio: &[N], f: usize) -> (r: Vec<N>)
        requires
            self.wf(),
            total::<N>(),
            f * HOP_LENGTH <= audio@.len(),
        ensures
            r@.len() == N_FFT,
            lawful::<N>() ==> r@ =~= windowed(audio@, self@.window, f as int),
    {
        let zero: N = N::from(0u16);
        let n: usize = audio.len();
        let start: usize = f * HOP_LENGTH;
        let mut frame: Vec<N> = Vec::new();
        let mut i: usize = 0;
        while i < N_FFT
            invariant
                self.wf(),
                total::<N>(),
                i <= N_FFT,
                n == audio@.len(),
                start == f * HOP_LENGTH,
                start <= n,
                frame@.len() == i,
                lawful::<N>() ==> zero == num::<N>(0),
                lawful::<N>() ==> forall|j: int|
                    0 <= j < i ==> #[trigger] frame@[j] == windowed(
                        audio@,
                        self@.window,
                        f as int,
                    )[j],
            decreases N_FFT - i,
        {
            // The sample `i` of the frame lies `HALF_FRAME` earlier in the audio.
            let sample: N = if i < HALF_FRAME {
                let back: usize = HALF_FRAME - i;
                if start < back {
                    zero
                } else if start - back >= n {
                    zero
                } else {
                    audio[start - back]
                }
            } else {
                let ahead: usize = i - HALF_FRAME;
                if ahead >= n - start {
                    zero
                } else {
                    audio[start + ahead]
                }
            };
            frame.push(sample * self.window[i]);
            i = i + 1;
        }
        frame
    }

    fn project(&self, bins: &Vec<(N, N)>, out: &mut Vec<N>)
        requires
            self.wf(),
            total::<N>(),
            bins@.len() >= N_STFT,
        ensures
            final(out)@.len() == old(out)@.len() + N_MELS,
            lawful::<N>() ==> final(out)@ =~= old(out)@ + Seq::new(
                N_MELS as nat,
                |m: int| projected(bins@, self@.filterbank, m, N_STFT as nat),
            ),
    {
        let ghost row = Seq::new(
            N_MELS as nat,
            |m: int| projected(bins@, self@.filterbank, m, N_STFT as nat),
        );
        let mut m: usize = 0;
        while m < N_MELS
            invariant
                self.wf(),
                total::<N>(),
                bins@.len() >= N_STFT,
                m <= N_MELS,
                row == Seq::new(
                    N_MELS as nat,
                    |k: int| projected(bins@, self@.filterbank, k, N_STFT as nat),
                ),
                out@.len() == old(out)@.len() + m,
                lawful::<N>() ==> out@ =~= old(out)@ + row.take(m as int),
            decreases N_MELS - m,
        {
            let mut acc: N = N::from(0u16);
            let mut b: usize = 0;
            while b < N_STFT
                invariant
                    self.wf(),
                    total::<N>(),
                    bins@.len() >= N_STFT,
                    m < N_MELS,
                    b <= N_STFT,
                    lawful::<N>() ==> acc == projected(bins@, self@.filterbank, m as int, b as nat),
                decreases N_STFT - b,
            {
                let (re, im): (N, N) = bins[b];
                let p: N = re * re + im * im;
                acc = acc + p * self.filterbank[b * N_MELS + m];
                b = b + 1;
            }
            out.push(acc);
            m = m + 1;
        }
        assert(row.take(N_MELS as int) =~= row);
    }

    /// An extractor with the filterbank that `bytes` hold, four bytes to an entry.
    pub fn with_speechbrain_filterbank<D: Fn([u8; 4]) -> N, C: Fn(N) -> N>(
        bytes: &[u8],
        decode: &D,
        pi: N,
        cos: &C,
    ) -> (r: Result<Self, FbankError>)
        requires
            total::<N>(),
            forall|w: [u8; 4]| call_requires(*decode, (w,)),
            forall|x: N| call_requires(*cos, (x,)),
        ensures
            r is Ok <==> bytes@.len() / 4 == FILTERBANK_LEN,
            match r {
                Ok(f) => {
                    &&& f.wf()
                    &&& forall|k: int|
                        0 <= k < FILTERBANK_LEN ==> is_decoded(
                            bytes@,
                            *decode,
                            k,
                            #[trigger] f@.filterbank[k],
                        )
                    &&& lawful::<N>() ==> forall|i: int|
                        0 <= i < N_FFT ==> is_hamming(
                            i as nat,
                            pi,
                            *cos,
                            #[trigger] f@.window[i],
                        )
                },
                Err(e) => e == (FbankError::BadFilterbankLength {
                    got: (bytes@.len() / 4) as usize,
                    expected: FILTERBANK_LEN,
                }),
            },
    {
        let filterbank: Vec<N> = decode_words(bytes, decode);
        Self::new(filterbank.as_slice(), pi, cos)
    }

    /// The features of `audio`, frame by frame.
    pub fn compute<F: Fn(&Vec<N>) -> Vec<(N, N)>, L: Fn(N) -> N>(
        &self,
        audio: &[N],
        fft: &F,
        log10: &L,
    ) -> (r: Vec<N>)
        requires
            self.wf(),
            total::<N>(),
            forall|v: &Vec<N>| call_requires(*fft, (v,)),
            forall|v: &Vec<N>, bins: Vec<(N, N)>| #[trigger]
                call_ensures(*fft, (v,), bins) ==> bins@.len() >= N_STFT,
            forall|x: N| call_requires(*log10, (x,)),
        ensures
            r@.len() == frame_count(audio@.len()) * N_MELS,
            lawful::<N>() ==> are_features(self@, audio@, *fft, *log10, r@),
    {
        let n: usize = audio.len();
        let hops: usize = n / HOP_LENGTH;
        let mut raw: Vec<N> = Vec::new();
        let ghost mut spectra: Seq<Vec<(N, N)>> = Seq::empty();
        let mut f: usize = 0;
        loop
            invariant_except_break
                spectra.len() == f,
                raw@.len() == f * N_MELS,
                lawful::<N>() ==> raw@ == mel_powers(spectra, self@.filterbank, f as nat),
            invariant
                self.wf(),
                total::<N>(),
                n == audio@.len(),
                hops == n / HOP_LENGTH,
                f <= hops,
                forall|v: &Vec<N>| call_requires(*fft, (v,)),
                forall|v: &Vec<N>, bins: Vec<(N, N)>| #[trigger]
                    call_ensures(*fft, (v,), bins) ==> bins@.len() >= N_STFT,
                lawful::<N>() ==> are_transformed(audio@, self@.window, *fft, spectra),
            ensures
                f == hops,
                spectra.len() == f + 1,
                raw@.len() == (f + 1) * N_MELS,
                lawful::<N>() ==> are_transformed(audio@, self@.window, *fft, spectra),
                lawful::<N>() ==> raw@ == mel_powers(spectra, self@.filterbank, (f + 1) as nat),
            decreases hops - f,
        {
            let frame: Vec<N> = self.windowed_frame(audio, f);
            let bins: Vec<(N, N)> = fft(&frame);
            proof {
                if lawful::<N>() {
                    assert(is_transformed(windowed(audio@, self@.window, f as int), *fft, bins));
                }
            }
            self.project(&bins, &mut raw);
            proof {
                let before = spectra;
                spectra = spectra.push(bins);
                if lawful::<N>() {
                    lemma_mel_prefix(before, spectra, self@.filterbank, f as nat);
                    assert forall|k: int| 0 <= k < spectra.len() implies is_transformed(
                        windowed(audio@, self@.window, k),
                        *fft,
                        #[trigger] spectra[k],
                    ) by {
                        if k < f {
                            assert(spectra[k] == before[k]);
                        }
                    }
                    assert(raw@ =~= mel_powers(spectra, self@.filterbank, (f + 1) as nat));
                }
            }
            if f == hops {
                break;
            }
            f = f + 1;
        }
        let out: Vec<N> = to_decibels(&raw, log10);
        proof {
            if lawful::<N>() {
                let powers = mel_powers(spectra, self@.filterbank, spectra.len());
                assert(raw@ == powers);
                let logs = choose|logs: Seq<N>| #[trigger]
                    are_logs(raw@, *log10, logs) && out@ == floored(tenfold(logs));
                assert(are_logs(powers, *log10, logs));
                assert(are_transformed(audio@, self@.window, *fft, spectra));
            }
        }
        out
    }
}

proof fn lemma_mel_prefix<N: Scalar>(
    a: Seq<Vec<(N, N)>>,
    b: Seq<Vec<(N, N)>>,
    filterbank: Seq<N>,
    n: nat,
)
    requires
        n <= a.len(),
        n <= b.len(),
        forall|i: int| 0 <= i < n ==> a[i] == b[i],
    ensures
        mel_powers(a, filterbank, n) == mel_powers(b, filterbank, n),
    decreases n,
{
    if n > 0 {
        lemma_mel_prefix(a, b, filterbank, (n - 1) as nat);
    }
}

fn to_decibels<N: Scalar, L: Fn(N) -> N>(raw: &Vec<N>, log10: &L) -> (r: Vec<N>)
    requires
        total::<N>(),
        raw@.len() > 0,
        forall|x: N| call_requires(*log10, (x,)),
    ensures
        r@.len() == raw@.len(),
        lawful::<N>() ==> exists|logs: Seq<N>| #[trigger]
            are_logs(raw@, *log10, logs) && r@ == floored(tenfold(logs)),
{
    let floor_power: N = N::from(1u16) / (N::from(10_000u16) * N::from(10_000u16) * N::from(
        100u16,
    ));
    let ten: N = N::from(10u16);
    let mut db: Vec<N> = Vec::new();
    let ghost mut logs: Seq<N> = Seq::empty();
    let mut i: usize = 0;
    while i < raw.len()
        invariant
            total::<N>(),
            i <= raw@.len(),
            db@.len() == i,
            logs.len() == i,
            forall|x: N| call_requires(*log10, (x,)),
            lawful::<N>() ==> floor_power == power_floor::<N>() && ten == num::<N>(10),
            lawful::<N>() ==> forall|j: int|
                0 <= j < i ==> call_ensures(
                    *log10,
                    (pick(raw@[j], power_floor()),),
                    #[trigger] logs[j],
                ),
            lawful::<N>() ==> db@ =~= tenfold(logs),
        decreases raw@.len() - i,
    {
        let l: N = log10(pick_larger(raw[i], floor_power));
        proof {
            logs = logs.push(l);
        }
        db.push(ten * l);
        i = i + 1;
    }
    assert(lawful::<N>() ==> are_logs(raw@, *log10, logs));
    let mut top: N = below_all::<N>();
    let mut k: usize = 0;
    while k < db.len()
        invariant
            k <= db@.len(),
            total::<N>(),
            lawful::<N>() ==> top == highest(db@, k as nat),
        decreases db@.len() - k,
    {
        if db[k] > top {
            top = db[k];
        }
        k = k + 1;
    }
    let floor: N = top - N::from(80u16);
    let mut out: Vec<N> = Vec::new();
    let mut j: usize = 0;
    while j < db.len()
        invariant
            total::<N>(),
            j <= db@.len(),
            out@.len() == j,
            lawful::<N>() ==> floor == highest(db@, db@.len()).sub_spec(num(80)),
            lawful::<N>() ==> forall|q: int| 0 <= q < j ==> #[trigger] out@[q] == floored(db@)[q],
        decreases db@.len() - j,
    {
        let v: N = db[j];
        if v < floor {
            out.push(floor);
        } else {
            out.push(v);
        }
        j = j + 1;
    }
    proof {
        if lawful::<N>() {
            assert(out@ =~= floored(db@));
            assert(are_logs(raw@, *log10, logs));
        }
    }
    out
}

/// `x` is decoded from word `k` of four bytes.
pub open spec fn is_decoded<N, D: Fn([u8; 4]) -> N>(
    bytes: Seq<u8>,
    decode: D,
    k: int,
    x: N,
) -> bool {
    exists|w: [u8; 4]|
        w@ == bytes.subrange(4 * k, 4 * k + 4) && #[trigger] call_ensures(decode, (w,), x)
}

/// The numbers that bytes hold, four bytes each; up to three bytes at the end
/// are left over.
pub fn decode_words<N, D: Fn([u8; 4]) -> N>(bytes: &[u8], decode: &D) -> (r: Vec<N>)
    requires
        forall|w: [u8; 4]| call_requires(*decode, (w,)),
    ensures
        r@.len() == bytes@.len() / 4,
        forall|k: int|
            0 <= k < r@.len() ==> is_decoded(bytes@, *decode, k, #[trigger] r@[k]),
{
    let len: usize = bytes.len();
    let n: usize = len / 4;
    let mut out: Vec<N> = Vec::new();
    let mut k: usize = 0;
    while k < n
        invariant
            len == bytes@.len(),
            n == len / 4,
            k <= n,
            out@.len() == k,
            forall|w: [u8; 4]| call_requires(*decode, (w,)),
            forall|j: int| 0 <= j < k ==> is_decoded(bytes@, *decode, j, #[trigger] out@[j]),
        decreases n - k,
    {
        let at: usize = 4 * k;
        let w: [u8; 4] = [bytes[at], bytes[at + 1], bytes[at + 2], bytes[at + 3]];
        assert(w@ =~= bytes@.subrange(4 * k as int, 4 * k + 4));
        let x: N = decode(w);
        assert(is_decoded(bytes@, *decode, k as int, x));
        out.push(x);
        k = k + 1;
    }
    out
}

/// What [`fbank_ecapa_one`] returns: the features of the window, in frames of
/// one entry per band, through the model.
pub open spec fn is_embedded_window<
    N: Scalar,
    F: Fn(&Vec<N>) -> Vec<(N, N)>,
    L: Fn(N) -> N,
    M: Fn(&Vec<N>, usize, usize) -> Result<Vec<N>, EmbeddingError>,
>(
    bank: FbankView<N>,
    window: Seq<N>,
    fft: F,
    log10: L,
    model: M,
    r: Result<Vec<N>, EmbeddingError>,
) -> bool {
    exists|feats: Vec<N>, n_frames: usize|
        {
            &&& n_frames == frame_count(window.len())
            &&& feats@.len() == n_frames * N_MELS
            &&& lawful::<N>() ==> are_features(bank, window, fft, log10, feats@)
            &&& #[trigger] call_ensures(model, (&feats, n_frames, N_MELS), r)
        }
}

/// The embedding of a window of speech.
pub fn fbank_ecapa_one<
    N: Scalar,
    F: Fn(&Vec<N>) -> Vec<(N, N)>,
    L: Fn(N) -> N,
    M: Fn(&Vec<N>, usize, usize) -> Result<Vec<N>, EmbeddingError>,
>(bank: &Fbank<N>, window: &[N], fft: &F, log10: &L, model: &M) -> (r: Result<
    Vec<N>,
    EmbeddingError,
>)
    requires
        bank.wf(),
        total::<N>(),
        forall|v: &Vec<N>| call_requires(*fft, (v,)),
        forall|v: &Vec<N>, bins: Vec<(N, N)>| #[trigger]
            call_ensures(*fft, (v,), bins) ==> bins@.len() >= N_STFT,
        forall|x: N| call_requires(*log10, (x,)),
        forall|v: &Vec<N>, rows: usize, cols: usize| call_requires(*model, (v, rows, cols)),
    ensures
        is_embedded_window(bank@, window@, *fft, *log10, *model, r),
{
    let feats: Vec<N> = bank.compute(window, fft, log10);
    let n_frames: usize = feats.len() / N_MELS;
    let r: Result<Vec<N>, EmbeddingError> = model(&feats, n_frames, N_MELS);
    r
}

/// What [`measure_window`] returns.
pub open spec fn is_measured_window<
    N: Scalar,
    F: Fn(&Vec<N>) -> Vec<(N, N)>,
    L: Fn(N) -> N,
    M: Fn(&Vec<N>, usize, usize) -> Result<Vec<N>, EmbeddingError>,
    P: Fn(&[N]) -> (N, N),
>(
    bank: FbankView<N>,
    window: &[N],
    fft: F,
    log10: L,
    model: M,
    pitch: P,
    r: Result<(Vec<N>, N), EmbeddingError>,
) -> bool {
    exists|e: Result<Vec<N>, EmbeddingError>|
        #[trigger] is_embedded_window(bank, window@, fft, log10, model, e) && match e {
            Err(e) => r == Err::<(Vec<N>, N), EmbeddingError>(e),
            Ok(e) => exists|mean: N, spread: N|
                #[trigger] call_ensures(pitch, (window,), (mean, spread)) && r == Ok::<
                    (Vec<N>, N),
                    EmbeddingError,
                >((e, mean)),
        }
}

/// The embedding of a window of speech and its mean pitch. The pitch is left
/// out of a window on which the model fails.
pub fn measure_window<
    N: Scalar,
    F: Fn(&Vec<N>) -> Vec<(N, N)>,
    L: Fn(N) -> N,
    M: Fn(&Vec<N>, usize, usize) -> Result<Vec<N>, EmbeddingError>,
    P: Fn(&[N]) -> (N, N),
>(bank: &Fbank<N>, window: &[N], fft: &F, log10: &L, model: &M, pitch: &P) -> (r: Result<
    (Vec<N>, N),
    EmbeddingError,
>)
    requires
        bank.wf(),
        total::<N>(),
        forall|v: &Vec<N>| call_requires(*fft, (v,)),
        forall|v: &Vec<N>, bins: Vec<(N, N)>| #[trigger]
            call_ensures(*fft, (v,), bins) ==> bins@.len() >= N_STFT,
        forall|x: N| call_requires(*log10, (x,)),
        forall|v: &Vec<N>, rows: usize, cols: usize| call_requires(*model, (v, rows, cols)),
        forall|a: &[N]| call_requires(*pitch, (a,)),
    ensures
        is_measured_window(bank@, window, *fft, *log10, *model, *pitch, r),
{
    let e: Result<Vec<N>, EmbeddingError> = fbank_ecapa_one(bank, window, fft, log10, model);
    assert(is_embedded_window(bank@, window@, *fft, *log10, *model, e));
    match e {
        Err(e) => Err(e),
        Ok(e) => {
            let f0: (N, N) = pitch(window);
            assert(call_ensures(*pitch, (window,), (f0.0, f0.1)));
            Ok((e, f0.0))
        },
    }
}

} // verus!
