//! Feeding the extraction model: audio of any length is cut into chunks of the
//! length the model was exported with, and the tail is padded with silence.
use crate::scalar::{lawful, num, Scalar};
use crate::text::{append_decimal, dec};
use crate::tse::{
    chunk_ok, chunk_step, is_initial_state, is_row, shipped, TSE_COND_DIM, Tensor, TseConfig,
    TseError, TseReply, TseSession,
};
use vstd::prelude::*;
use vstd::string::*;

verus! {

/// Where the model is and how it is fed.
#[derive(Clone, Debug)]
pub struct TseStageConfig {
    /// Path of the exported model.
    pub onnx_path: String,
    /// Samples per chunk, as baked into the export.
    pub chunk_samples: usize,
    /// Architecture of the model.
    pub model: TseConfig,
}

impl TseStageConfig {
    /// The 16 kHz model with chunks of 160 samples.
    pub fn new(onnx_path: &str) -> (r: Self)
        ensures
            r.onnx_path@ == onnx_path@,
            r.chunk_samples == 160,
            r.model == shipped(16),
            r.model.fits(),
    {
        let model: TseConfig = TseConfig::poc_16k();
        proof {
            crate::tse::lemma_shipped_models_fit(model);
        }
        TseStageConfig { onnx_path: onnx_path.to_owned(), chunk_samples: 160, model }
    }

    /// The 48 kHz model with chunks of 480 samples.
    pub fn new_prod_48k(onnx_path: &str) -> (r: Self)
        ensures
            r.onnx_path@ == onnx_path@,
            r.chunk_samples == 480,
            r.model == shipped(48),
            r.model.fits(),
    {
        let model: TseConfig = TseConfig::prod_48k();
        proof {
            crate::tse::lemma_shipped_models_fit(model);
        }
        TseStageConfig { onnx_path: onnx_path.to_owned(), chunk_samples: 480, model }
    }
}

/// What can go wrong in the stage.
#[derive(Debug)]
pub enum TseStageError {
    /// The conditioning embedding has the wrong length.
    InvalidCondLength { got: usize, expected: usize },
    /// The chunk length is zero or no multiple of the encoder stride.
    InvalidChunkSamples { got: usize, enc_stride: usize },
    /// Passed on from the model.
    Tse(TseError),
}

impl TseStageError {
    /// The words of the error.
    pub open spec fn words(self) -> Seq<char> {
        match self {
            TseStageError::InvalidCondLength { got, expected } => "TSE cond embedding length "@
                + dec(got as nat) + " != expected "@ + dec(expected as nat),
            TseStageError::InvalidChunkSamples { got, enc_stride } => "TSE chunk_samples "@ + dec(
                got as nat,
            ) + " must be a positive multiple of enc_stride "@ + dec(enc_stride as nat),
            TseStageError::Tse(e) => "TSE session error: "@ + e.words(),
        }
    }

    /// The error in words.
    pub fn message(&self) -> (r: String)
        ensures
            r@ == self.words(),
    {
        match self {
            TseStageError::InvalidCondLength { got, expected } => {
                let mut s: String = "TSE cond embedding length ".to_owned();
                append_decimal(&mut s, *got as u64);
                s.append(" != expected ");
                append_decimal(&mut s, *expected as u64);
                s
            },
            TseStageError::InvalidChunkSamples { got, enc_stride } => {
                let mut s: String = "TSE chunk_samples ".to_owned();
                append_decimal(&mut s, *got as u64);
                s.append(" must be a positive multiple of enc_stride ");
                append_decimal(&mut s, *enc_stride as u64);
                s
            },
            TseStageError::Tse(e) => {
                let m: String = e.message();
                "TSE session error: ".to_owned().concat(m.as_str())
            },
        }
    }
}

/// Chunk `j` of a stream cut into pieces of `c` samples.
pub open spec fn piece<N>(stream: Seq<N>, c: nat, j: nat) -> Seq<N> {
    stream.subrange((j * c) as int, (j * c + c) as int)
}

/// The first `n` lists put together.
pub open spec fn joined<N>(lists: Seq<Vec<N>>, n: nat) -> Seq<N>
    decreases n,
{
    if n == 0 {
        Seq::empty()
    } else {
        joined(lists, (n - 1) as nat) + lists[n - 1]@
    }
}

/// The session took one step on the given chunk.
pub open spec fn stepped<
    N: Scalar,
    M: Fn(&[N], &[N], &Vec<Tensor<N>>) -> Result<TseReply<N>, TseError>,
>(
    config: TseConfig,
    state: Vec<Tensor<N>>,
    chunk: Seq<N>,
    cond: Seq<N>,
    run: M,
    next: Vec<Tensor<N>>,
    r: Result<Vec<N>, TseError>,
) -> bool {
    exists|v: &[N], w: &[N]|
        v@ == chunk && w@ == cond && #[trigger] chunk_step(config, state, v, w, run, next, r)
}

/// The session went through the first `outs.len()` chunks of `stream`, carrying
/// `states` and returning `outs`.
pub open spec fn is_trace<
    N: Scalar,
    M: Fn(&[N], &[N], &Vec<Tensor<N>>) -> Result<TseReply<N>, TseError>,
>(
    config: TseConfig,
    stream: Seq<N>,
    c: nat,
    cond: Seq<N>,
    run: M,
    states: Seq<Vec<Tensor<N>>>,
    outs: Seq<Vec<N>>,
) -> bool {
    &&& states.len() == outs.len() + 1
    &&& forall|j: int|
        #![trigger outs[j]]
        0 <= j < outs.len() ==> stepped(
            config,
            states[j],
            piece(stream, c, j as nat),
            cond,
            run,
            states[j + 1],
            Ok(outs[j]),
        )
}

/// What a stage holds.
pub struct StageView<N> {
    pub model: TseConfig,
    pub carried: Vec<Tensor<N>>,
    pub cond: Seq<N>,
    pub chunk: nat,
    pub pending: Seq<N>,
}

/// How many chunks a call with `samples` more samples completes.
pub open spec fn completed(pending: nat, samples: nat, c: nat) -> nat {
    if samples == 0 {
        0
    } else {
        (pending + samples) / c
    }
}

/// Outcome of feeding `samples` to a stage: on success every full chunk was
/// extracted and the rest is pending; on failure the chunk that failed is
/// pending and what followed it is lost.
pub open spec fn is_fed<
    N: Scalar,
    M: Fn(&[N], &[N], &Vec<Tensor<N>>) -> Result<TseReply<N>, TseError>,
>(
    before: StageView<N>,
    samples: Seq<N>,
    run: M,
    after: StageView<N>,
    r: Result<Vec<N>, TseStageError>,
) -> bool {
    let stream = before.pending + samples;
    let k = completed(before.pending.len(), samples.len(), before.chunk);
    exists|states: Seq<Vec<Tensor<N>>>, outs: Seq<Vec<N>>|
        {
            &&& #[trigger] is_trace(
                before.model,
                stream,
                before.chunk,
                before.cond,
                run,
                states,
                outs,
            )
            &&& states[0] == before.carried
            &&& match r {
                Ok(out) => {
                    &&& outs.len() == k
                    &&& out@ == joined(outs, k)
                    &&& after == (StageView {
                        carried: states[k as int],
                        pending: stream.subrange((k * before.chunk) as int, stream.len() as int),
                        ..before
                    })
                },
                Err(e) => {
                    let chunk = piece(stream, before.chunk, outs.len());
                    &&& outs.len() < k
                    &&& e matches TseStageError::Tse(cause)
                    &&& stepped(
                        before.model,
                        states[outs.len() as int],
                        chunk,
                        before.cond,
                        run,
                        after.carried,
                        Err(cause),
                    )
                    &&& after == (StageView { carried: after.carried, pending: chunk, ..before })
                },
            }
        }
}

/// Buffered feeding of a [`TseSession`].
pub struct TseStage<N> {
    session: TseSession<N>,
    cond_embedding: Vec<N>,
    chunk_samples: usize,
    chunk_buffer: Vec<N>,
}

impl<N: Scalar> View for TseStage<N> {
    type V = StageView<N>;

    closed spec fn view(&self) -> StageView<N> {
        StageView {
            model: self.session.model(),
            carried: self.session.carried(),
            cond: self.cond_embedding@,
            chunk: self.chunk_samples as nat,
            pending: self.chunk_buffer@,
        }
    }
}

impl<N: Scalar> TseStage<N> {
    /// Chunks suit the model, the conditioning embedding has its length, and no
    /// more than one chunk is pending.
    pub closed spec fn wf(&self) -> bool {
        &&& self.session.wf()
        &&& chunk_ok(self.chunk_samples as nat, self.session.model().enc_stride as nat)
        &&& self.cond_embedding@.len() == TSE_COND_DIM
        &&& self.chunk_buffer@.len() <= self.chunk_samples
    }

    /// Every stage has a conditioning embedding of the right length and less
    /// than two chunks pending.
    pub proof fn lemma_stage_bounds(&self)
        requires
            self.wf(),
        ensures
            self@.cond.len() == TSE_COND_DIM,
            0 < self@.chunk,
            self@.pending.len() <= self@.chunk,
    {
    }

    /// A stage around a session. The chunk length is checked first, then the
    /// conditioning embedding.
    pub fn from_session(session: TseSession<N>, chunk_samples: usize, cond_embedding: &[N]) -> (r:
        Result<Self, TseStageError>)
        requires
            session.wf(),
        ensures
            match r {
                Ok(stage) => {
                    &&& chunk_ok(chunk_samples as nat, session.model().enc_stride as nat)
                    &&& cond_embedding@.len() == TSE_COND_DIM
                    &&& stage.wf()
                    &&& stage@ == (StageView {
                        model: session.model(),
                        carried: session.carried(),
                        cond: cond_embedding@,
                        chunk: chunk_samples as nat,
                        pending: Seq::empty(),
                    })
                },
                Err(TseStageError::InvalidChunkSamples { got, enc_stride }) => {
                    &&& !chunk_ok(chunk_samples as nat, session.model().enc_stride as nat)
                    &&& got == chunk_samples
                    &&& enc_stride == session.model().enc_stride
                },
                Err(TseStageError::InvalidCondLength { got, expected }) => {
                    &&& chunk_ok(chunk_samples as nat, session.model().enc_stride as nat)
                    &&& cond_embedding@.len() != TSE_COND_DIM
                    &&& got == cond_embedding@.len()
                    &&& expected == TSE_COND_DIM
                },
                Err(TseStageError::Tse(_)) => false,
            },
    {
        let enc_stride: usize = session.config().enc_stride;
        if chunk_samples == 0 || chunk_samples % enc_stride != 0 {
            return Err(TseStageError::InvalidChunkSamples { got: chunk_samples, enc_stride });
        }
        if cond_embedding.len() != TSE_COND_DIM {
            return Err(
                TseStageError::InvalidCondLength {
                    got: cond_embedding.len(),
                    expected: TSE_COND_DIM,
                },
            );
        }
        let mut cond: Vec<N> = Vec::new();
        append_samples(&mut cond, cond_embedding, 0, cond_embedding.len());
        assert(cond@ =~= cond_embedding@);
        Ok(
            TseStage {
                session,
                cond_embedding: cond,
                chunk_samples,
                chunk_buffer: Vec::new(),
            },
        )
    }

    /// A stage from its configuration. `load` reads the model; a model that
    /// cannot be read is refused first.
    pub fn from_config<L: Fn(&str) -> Result<(), TseError>>(
        config: &TseStageConfig,
        cond_embedding: &[N],
        load: &L,
    ) -> (r: Result<Self, TseStageError>)
        requires
            config.model.enc_stride > 0,
            config.model.fits(),
            forall|path: &str| call_requires(*load, (path,)),
        ensures
            is_built(*config, cond_embedding@, *load, r),
            r matches Ok(stage) ==> stage.wf(),
    {
        let path: &str = config.onnx_path.as_str();
        match TseSession::from_onnx_path_with_config(path, config.model, load) {
            Err(e) => {
                assert(is_read(config.onnx_path@, *load, Err::<(), TseError>(e)));
                Err(TseStageError::Tse(e))
            },
            Ok(session) => {
                assert(is_read(config.onnx_path@, *load, Ok::<(), TseError>(())));
                TseStage::from_session(session, config.chunk_samples, cond_embedding)
            },
        }
    }

    pub fn chunk_samples(&self) -> (r: usize)
        ensures
            r == self@.chunk,
    {
        self.chunk_samples
    }

    pub fn cond_embedding(&self) -> (r: &[N])
        ensures
            r@ == self@.cond,
    {
        self.cond_embedding.as_slice()
    }

    /// Replaces the conditioning embedding; one of the wrong length is refused.
    pub fn set_cond_embedding(&mut self, cond: &[N]) -> (r: Result<(), TseStageError>)
        requires
            old(self).wf(),
        ensures
            final(self).wf(),
            r is Ok <==> cond@.len() == TSE_COND_DIM,
            r is Ok ==> final(self)@ == (StageView { cond: cond@, ..old(self)@ }),
            r matches Err(e) ==> final(self)@ == old(self)@ && e
                == (TseStageError::InvalidCondLength {
                got: cond@.len() as usize,
                expected: TSE_COND_DIM,
            }),
    {
        if cond.len() != TSE_COND_DIM {
            return Err(
                TseStageError::InvalidCondLength { got: cond.len(), expected: TSE_COND_DIM },
            );
        }
        let mut fresh: Vec<N> = Vec::new();
        append_samples(&mut fresh, cond, 0, cond.len());
        assert(fresh@ =~= cond@);
        self.cond_embedding = fresh;
        Ok(())
    }

    /// Forgets pending samples and all audio heard so far.
    pub fn reset(&mut self)
        requires
            old(self).wf(),
        ensures
            final(self).wf(),
            final(self)@ == (StageView {
                carried: final(self)@.carried,
                pending: Seq::empty(),
                ..old(self)@
            }),
            is_initial_state(final(self)@.model, final(self)@.carried@),
    {
        self.chunk_buffer.clear();
        self.session.reset();
    }

    /// Feeds samples and returns what was extracted from the chunks that they
    /// completed.
    pub fn process<M: Fn(&[N], &[N], &Vec<Tensor<N>>) -> Result<TseReply<N>, TseError>>(
        &mut self,
        samples: &[N],
        run: &M,
    ) -> (r: Result<Vec<N>, TseStageError>)
        requires
            old(self).wf(),
            forall|a: &[N], b: &[N], c: &Vec<Tensor<N>>| call_requires(*run, (a, b, c)),
        ensures
            final(self).wf(),
            is_fed(old(self)@, samples@, *run, final(self)@, r),
    {
        let mut out: Vec<N> = Vec::new();
        let mut cursor: usize = 0;
        let ghost stream = self.chunk_buffer@ + samples@;
        let ghost c = self.chunk_samples as nat;
        let ghost mut states: Seq<Vec<Tensor<N>>> = seq![self.session.carried()];
        let ghost mut outs: Seq<Vec<N>> = Seq::empty();
        let ghost held = self.chunk_buffer@.len();
        proof {
            assert(stream.subrange(0, held as int) =~= self.chunk_buffer@);
        }
        while cursor < samples.len()
            invariant
                self.wf(),
                self@.model == old(self)@.model,
                self@.cond == old(self)@.cond,
                self@.chunk == old(self)@.chunk,
                c == self.chunk_samples,
                held == old(self)@.pending.len(),
                stream == old(self)@.pending + samples@,
                cursor <= samples@.len(),
                self.session.carried() == states[outs.len() as int],
                states[0] == old(self)@.carried,
                is_trace(old(self)@.model, stream, c, old(self)@.cond, *run, states, outs),
                out@ == joined(outs, outs.len()),
                outs.len() * c + self.chunk_buffer@.len() == held + cursor,
                self.chunk_buffer@ == stream.subrange(
                    (outs.len() * c) as int,
                    (held + cursor) as int,
                ),
                cursor > 0 || outs.len() > 0 ==> self.chunk_buffer@.len() < c,
                samples@.len() == 0 ==> outs.len() == 0,
                forall|a: &[N], b: &[N], t: &Vec<Tensor<N>>| call_requires(*run, (a, b, t)),
            decreases samples@.len() - cursor, self.chunk_buffer@.len(),
        {
            let ghost cursor_before = cursor;
            let needed: usize = self.chunk_samples - self.chunk_buffer.len();
            let take: usize = if needed < samples.len() - cursor {
                needed
            } else {
                samples.len() - cursor
            };
            append_samples(&mut self.chunk_buffer, samples, cursor, cursor + take);
            cursor = cursor + take;
            assert(self.chunk_buffer@ =~= stream.subrange(
                (outs.len() * c) as int,
                (held + cursor) as int,
            ));
            if self.chunk_buffer.len() == self.chunk_samples {
                let ghost k = outs.len();
                let ghost carried_before = self.session.carried();
                assert(self.chunk_buffer@ == piece(stream, c, k));
                let extracted: Result<Vec<N>, TseError> = self.session.process_chunk_slice(
                    self.chunk_buffer.as_slice(),
                    self.cond_embedding.as_slice(),
                    run,
                );
                proof {
                    assert(stepped(
                        old(self)@.model,
                        carried_before,
                        piece(stream, c, k),
                        old(self)@.cond,
                        *run,
                        self.session.carried(),
                        extracted,
                    ));
                }
                match extracted {
                    Err(e) => {
                        proof {
                            assert((k + 1) * c == k * c + c) by (nonlinear_arith);
                            assert((held + samples@.len()) as nat / c >= k + 1) by {
                                lemma_quotient_at_least(held + samples@.len(), c, k + 1);
                            }
                        }
                        return Err(TseStageError::Tse(e));
                    },
                    Ok(piece_out) => {
                        append_samples(&mut out, piece_out.as_slice(), 0, piece_out.len());
                        proof {
                            let outs_before = outs;
                            outs = outs.push(piece_out);
                            states = states.push(self.session.carried());
                            lemma_joined_prefix(outs_before, outs, k);
                            assert(out@ =~= joined(outs, outs.len()));
                            assert forall|j: int| #![trigger outs[j]] 0 <= j < outs.len() implies stepped(
                                old(self)@.model,
                                states[j],
                                piece(stream, c, j as nat),
                                old(self)@.cond,
                                *run,
                                states[j + 1],
                                Ok(outs[j]),
                            ) by {
                                if j < k {
                                    assert(outs[j] == outs_before[j]);
                                }
                            }
                            assert((k + 1) * c == k * c + c) by (nonlinear_arith);
                        }
                        self.chunk_buffer.clear();
                        assert(self.chunk_buffer@ =~= stream.subrange(
                            (outs.len() * c) as int,
                            (held + cursor) as int,
                        ));
                    },
                }
            }
            proof {
                if cursor == cursor_before {
                    assert(needed == 0);
                }
            }
        }
        proof {
            let k = outs.len();
            if samples@.len() > 0 {
                lemma_quotient_exact(stream.len(), c, k, self.chunk_buffer@.len());
            }
            assert(k == completed(held, samples@.len(), c));
        }
        Ok(out)
    }

    /// Pads what is pending with silence to a full chunk and extracts it;
    /// nothing when nothing is pending.
    pub fn flush<M: Fn(&[N], &[N], &Vec<Tensor<N>>) -> Result<TseReply<N>, TseError>>(
        &mut self,
        run: &M,
    ) -> (r: Result<Vec<N>, TseStageError>)
        requires
            old(self).wf(),
            forall|a: &[N], b: &[N], c: &Vec<Tensor<N>>| call_requires(*run, (a, b, c)),
        ensures
            final(self).wf(),
            old(self)@.pending.len() == 0 ==> final(self)@ == old(self)@ && (r matches Ok(out)
                && out@.len() == 0),
            old(self)@.pending.len() > 0 ==> exists|padded: Seq<N>|
                {
                    &&& #[trigger] is_padded(old(self)@.pending, old(self)@.chunk, padded)
                    &&& match r {
                        Ok(out) => {
                            &&& stepped(
                                old(self)@.model,
                                old(self)@.carried,
                                padded,
                                old(self)@.cond,
                                *run,
                                final(self)@.carried,
                                Ok(out),
                            )
                            &&& final(self)@ == (StageView {
                                carried: final(self)@.carried,
                                pending: Seq::empty(),
                                ..old(self)@
                            })
                        },
                        Err(e) => {
                            &&& e matches TseStageError::Tse(cause)
                            &&& stepped(
                                old(self)@.model,
                                old(self)@.carried,
                                padded,
                                old(self)@.cond,
                                *run,
                                final(self)@.carried,
                                Err(cause),
                            )
                            &&& final(self)@ == (StageView {
                                carried: final(self)@.carried,
                                pending: padded,
                                ..old(self)@
                            })
                        },
                    }
                },
    {
        if self.chunk_buffer.len() == 0 {
            return Ok(Vec::new());
        }
        let zero: N = N::from(0u16);
        pad_to(&mut self.chunk_buffer, self.chunk_samples, zero);
        let ghost padded = self.chunk_buffer@;
        assert(is_padded(old(self)@.pending, old(self)@.chunk, padded));
        let extracted: Result<Vec<N>, TseError> = self.session.process_chunk_slice(
            self.chunk_buffer.as_slice(),
            self.cond_embedding.as_slice(),
            run,
        );
        assert(stepped(
            old(self)@.model,
            old(self)@.carried,
            padded,
            old(self)@.cond,
            *run,
            self.session.carried(),
            extracted,
        ));
        match extracted {
            Err(e) => Err(TseStageError::Tse(e)),
            Ok(out) => {
                self.chunk_buffer.clear();
                Ok(out)
            },
        }
    }
}

/// The model at `path` was read with that outcome.
pub open spec fn is_read<L: Fn(&str) -> Result<(), TseError>>(
    path: Seq<char>,
    load: L,
    r: Result<(), TseError>,
) -> bool {
    exists|p: &str| p@ == path && #[trigger] call_ensures(load, (p,), r)
}

/// What [`TseStage::from_config`] returns.
pub open spec fn is_built<N: Scalar, L: Fn(&str) -> Result<(), TseError>>(
    config: TseStageConfig,
    cond: Seq<N>,
    load: L,
    r: Result<TseStage<N>, TseStageError>,
) -> bool {
    exists|loaded: Result<(), TseError>|
        {
            &&& #[trigger] is_read(config.onnx_path@, load, loaded)
            &&& match loaded {
                Err(e) => r == Err::<TseStage<N>, TseStageError>(TseStageError::Tse(e)),
                Ok(_) => if !chunk_ok(
                    config.chunk_samples as nat,
                    config.model.enc_stride as nat,
                ) {
                    r == Err::<TseStage<N>, TseStageError>(
                        TseStageError::InvalidChunkSamples {
                            got: config.chunk_samples,
                            enc_stride: config.model.enc_stride,
                        },
                    )
                } else if cond.len() != TSE_COND_DIM {
                    r == Err::<TseStage<N>, TseStageError>(
                        TseStageError::InvalidCondLength {
                            got: cond.len() as usize,
                            expected: TSE_COND_DIM,
                        },
                    )
                } else {
                    &&& r matches Ok(stage)
                    &&& stage@.model == config.model
                    &&& is_initial_state(config.model, stage@.carried@)
                    &&& stage@.cond == cond
                    &&& stage@.chunk == config.chunk_samples
                    &&& stage@.pending.len() == 0
                },
            }
        }
}

/// `padded` is `s` followed by silence up to `c` samples.
pub open spec fn is_padded<N: Scalar>(s: Seq<N>, c: nat, padded: Seq<N>) -> bool {
    &&& padded.len() == c
    &&& s =~= padded.take(s.len() as int)
    &&& lawful::<N>() ==> forall|i: int|
        s.len() <= i < c ==> #[trigger] padded[i] == num::<N>(0)
}

/// Appends copies of `fill` up to length `n`.
pub fn pad_to<N: Copy>(v: &mut Vec<N>, n: usize, fill: N)
    requires
        old(v)@.len() <= n,
    ensures
        final(v)@ =~= old(v)@ + Seq::new((n - old(v)@.len()) as nat, |i: int| fill),
{
    while v.len() < n
        invariant
            old(v)@.len() <= v@.len() <= n,
            v@ =~= old(v)@ + Seq::new((v@.len() - old(v)@.len()) as nat, |i: int| fill),
        decreases n - v@.len(),
    {
        v.push(fill);
    }
}

/// Appends the samples from `from` up to `to`.
pub fn append_samples<N: Copy>(v: &mut Vec<N>, samples: &[N], from: usize, to: usize)
    requires
        from <= to <= samples@.len(),
    ensures
        final(v)@ == old(v)@ + samples@.subrange(from as int, to as int),
{
    let mut i: usize = from;
    while i < to
        invariant
            from <= i <= to <= samples@.len(),
            v@ =~= old(v)@ + samples@.subrange(from as int, i as int),
        decreases to - i,
    {
        v.push(samples[i]);
        i = i + 1;
    }
}

/// Joining depends on the leading lists only.
pub proof fn lemma_joined_prefix<N>(a: Seq<Vec<N>>, b: Seq<Vec<N>>, n: nat)
    requires
        n <= a.len(),
        n <= b.len(),
        forall|i: int| 0 <= i < n ==> #[trigger] a[i] == b[i],
    ensures
        joined(a, n) == joined(b, n),
    decreases n,
{
    if n > 0 {
        lemma_joined_prefix(a, b, (n - 1) as nat);
        assert(a[n - 1] == b[n - 1]);
    }
}

/// A total that covers `k` chunks has at least `k` of them.
proof fn lemma_quotient_at_least(n: nat, c: nat, k: nat)
    requires
        c > 0,
        k * c <= n,
    ensures
        n / c >= k,
{
    vstd::arithmetic::div_mod::lemma_div_is_ordered((k * c) as int, n as int, c as int);
    vstd::arithmetic::div_mod::lemma_div_by_multiple(k as int, c as int);
}

/// `k` chunks and a shorter rest make exactly `k` chunks.
pub proof fn lemma_quotient_exact(n: nat, c: nat, k: nat, rest: nat)
    requires
        n == k * c + rest,
        rest < c,
    ensures
        n / c == k,
{
    vstd::arithmetic::div_mod::lemma_fundamental_div_mod_converse(
        n as int,
        c as int,
        k as int,
        rest as int,
    );
}

/// The model returns as many samples as it labels.
pub open spec fn fills_its_label<
    N: Scalar,
    M: Fn(&[N], &[N], &Vec<Tensor<N>>) -> Result<TseReply<N>, TseError>,
>(run: M) -> bool {
    forall|a: &[N], b: &[N], c: &Vec<Tensor<N>>, reply: TseReply<N>| #[trigger]
        call_ensures(run, (a, b, c), Ok(reply)) && is_row(reply.dims@, a@.len())
            ==> reply.extracted@.len() == a@.len()
}

/// Lists of equal length put together.
pub proof fn lemma_joined_length<N>(lists: Seq<Vec<N>>, n: nat, c: nat)
    requires
        n <= lists.len(),
        forall|i: int| 0 <= i < n ==> (#[trigger] lists[i])@.len() == c,
    ensures
        joined(lists, n).len() == n * c,
    decreases n,
{
    if n > 0 {
        lemma_joined_length(lists, (n - 1) as nat, c);
        assert(lists[n - 1]@.len() == c);
        assert((n - 1) * c + c == n * c) by (nonlinear_arith);
    } else {
        assert(0 * c == 0) by (nonlinear_arith);
    }
}

/// Feeding loses and invents no samples: what came out and what is pending add
/// up to what was pending and what went in.
pub proof fn lemma_feed_conserves<
    N: Scalar,
    M: Fn(&[N], &[N], &Vec<Tensor<N>>) -> Result<TseReply<N>, TseError>,
>(before: StageView<N>, samples: Seq<N>, run: M, after: StageView<N>, out: Vec<N>)
    requires
        fills_its_label(run),
        before.chunk > 0,
        before.pending.len() <= before.chunk,
        is_fed(before, samples, run, after, Ok(out)),
    ensures
        out@.len() + after.pending.len() == before.pending.len() + samples.len(),
        samples.len() > 0 ==> after.pending.len() < before.chunk,
{
    let stream = before.pending + samples;
    let c = before.chunk;
    let k = completed(before.pending.len(), samples.len(), c);
    let (states, outs) = choose|states: Seq<Vec<Tensor<N>>>, outs: Seq<Vec<N>>|
        {
            &&& #[trigger] is_trace(before.model, stream, c, before.cond, run, states, outs)
            &&& states[0] == before.carried
            &&& outs.len() == k
            &&& out@ == joined(outs, k)
            &&& after == (StageView {
                carried: states[k as int],
                pending: stream.subrange((k * c) as int, stream.len() as int),
                ..before
            })
        };
    if samples.len() == 0 {
        assert(k * c == 0) by (nonlinear_arith)
            requires
                k == 0,
        ;
    } else {
        vstd::arithmetic::div_mod::lemma_fundamental_div_mod(stream.len() as int, c as int);
        assert(c * (stream.len() as int / c as int) == k * c) by (nonlinear_arith)
            requires
                k == stream.len() as int / c as int,
        ;
    }
    assert(k * c <= stream.len());
    assert forall|j: int| 0 <= j < k implies (#[trigger] outs[j])@.len() == c by {
        assert(stepped(
            before.model,
            states[j],
            piece(stream, c, j as nat),
            before.cond,
            run,
            states[j + 1],
            Ok(outs[j]),
        ));
        assert((j + 1) * c <= k * c) by (nonlinear_arith)
            requires
                j + 1 <= k,
        ;
        assert((j + 1) * c == j * c + c) by (nonlinear_arith);
        assert(j * c >= 0) by (nonlinear_arith)
            requires
                j >= 0,
        ;
        assert(piece(stream, c, j as nat).len() == c);
    }
    lemma_joined_length(outs, k, c);
}

/// Lists put together one list behind another.
pub proof fn lemma_joined_concat<N>(a: Seq<Vec<N>>, b: Seq<Vec<N>>, n: nat)
    requires
        n <= b.len(),
    ensures
        joined(a + b, a.len() + n) == joined(a, a.len()) + joined(b, n),
    decreases n,
{
    if n == 0 {
        lemma_joined_prefix(a + b, a, a.len());
        assert(joined(a, a.len()) + joined(b, 0) =~= joined(a, a.len()));
    } else {
        lemma_joined_concat(a, b, (n - 1) as nat);
        assert((a + b)[a.len() + n - 1] == b[n - 1]);
        assert(joined(a + b, a.len() + n) =~= joined(a, a.len()) + joined(b, n));
    }
}

/// The chunks of a stream in two parts: those of the first part, and behind them
/// those of its rest with the second part.
pub proof fn lemma_pieces_in_parts<N>(s: Seq<N>, t: Seq<N>, c: nat, k: nat, j: nat)
    requires
        k * c <= s.len(),
    ensures
        j < k ==> piece(s + t, c, j) == piece(s, c, j),
        j >= k && (j + 1) * c <= s.len() + t.len() ==> piece(s + t, c, j) == piece(
            s.skip((k * c) as int) + t,
            c,
            (j - k) as nat,
        ),
{
    assert((j + 1) * c == j * c + c) by (nonlinear_arith);
    if j < k {
        assert((j + 1) * c <= k * c) by (nonlinear_arith)
            requires
                j + 1 <= k,
        ;
        assert(piece(s + t, c, j) =~= piece(s, c, j));
    } else if (j + 1) * c <= s.len() + t.len() {
        assert((j - k) * c == j * c - k * c) by (nonlinear_arith);
        assert((j - k) * c >= 0) by (nonlinear_arith)
            requires
                j >= k,
        ;
        assert(piece(s + t, c, j) =~= piece(s.skip((k * c) as int) + t, c, (j - k) as nat));
    }
}

/// Feeding `samples` succeeded with `out`.
pub open spec fn is_fed_out<
    N: Scalar,
    M: Fn(&[N], &[N], &Vec<Tensor<N>>) -> Result<TseReply<N>, TseError>,
>(before: StageView<N>, samples: Seq<N>, run: M, after: StageView<N>, out: Seq<N>) -> bool {
    let stream = before.pending + samples;
    let k = completed(before.pending.len(), samples.len(), before.chunk);
    exists|states: Seq<Vec<Tensor<N>>>, outs: Seq<Vec<N>>|
        {
            &&& #[trigger] is_trace(
                before.model,
                stream,
                before.chunk,
                before.cond,
                run,
                states,
                outs,
            )
            &&& states[0] == before.carried
            &&& outs.len() == k
            &&& out == joined(outs, k)
            &&& after == (StageView {
                carried: states[k as int],
                pending: stream.subrange((k * before.chunk) as int, stream.len() as int),
                ..before
            })
        }
}

/// [`is_fed_out`] is what feeding with success means.
pub proof fn lemma_fed_out<
    N: Scalar,
    M: Fn(&[N], &[N], &Vec<Tensor<N>>) -> Result<TseReply<N>, TseError>,
>(before: StageView<N>, samples: Seq<N>, run: M, after: StageView<N>, out: Vec<N>)
    ensures
        is_fed(before, samples, run, after, Ok(out)) ==> is_fed_out(
            before,
            samples,
            run,
            after,
            out@,
        ),
{
}

/// It does not matter in what parts audio is fed: two parts one after the other
/// leave the stage and give the output that both at once do.
pub proof fn lemma_feed_in_parts<
    N: Scalar,
    M: Fn(&[N], &[N], &Vec<Tensor<N>>) -> Result<TseReply<N>, TseError>,
>(
    before: StageView<N>,
    a: Seq<N>,
    b: Seq<N>,
    run: M,
    mid: StageView<N>,
    after: StageView<N>,
    first: Seq<N>,
    second: Seq<N>,
)
    requires
        before.pending.len() < before.chunk,
        is_fed_out(before, a, run, mid, first),
        is_fed_out(mid, b, run, after, second),
    ensures
        is_fed_out(before, a + b, run, after, first + second),
{
    let c = before.chunk;
    let s = before.pending + a;
    let k1 = completed(before.pending.len(), a.len(), c);
    let (states1, outs1) = choose|states: Seq<Vec<Tensor<N>>>, outs: Seq<Vec<N>>|
        {
            &&& #[trigger] is_trace(before.model, s, c, before.cond, run, states, outs)
            &&& states[0] == before.carried
            &&& outs.len() == k1
            &&& first == joined(outs, k1)
            &&& mid == (StageView {
                carried: states[k1 as int],
                pending: s.subrange((k1 * c) as int, s.len() as int),
                ..before
            })
        };
    if a.len() == 0 {
        vstd::arithmetic::div_mod::lemma_small_mod(before.pending.len(), c);
        vstd::arithmetic::div_mod::lemma_basic_div(before.pending.len() as int, c as int);
    }
    assert(k1 == s.len() / c);
    vstd::arithmetic::div_mod::lemma_fundamental_div_mod(s.len() as int, c as int);
    assert(c * (s.len() as int / c as int) == k1 * c) by (nonlinear_arith)
        requires
            k1 == s.len() as int / c as int,
    ;
    assert(mid.pending =~= s.skip((k1 * c) as int));
    assert(mid.pending.len() < c);
    let s2 = mid.pending + b;
    let k2 = completed(mid.pending.len(), b.len(), c);
    let (states2, outs2) = choose|states: Seq<Vec<Tensor<N>>>, outs: Seq<Vec<N>>|
        {
            &&& #[trigger] is_trace(mid.model, s2, c, mid.cond, run, states, outs)
            &&& states[0] == mid.carried
            &&& outs.len() == k2
            &&& second == joined(outs, k2)
            &&& after == (StageView {
                carried: states[k2 as int],
                pending: s2.subrange((k2 * c) as int, s2.len() as int),
                ..mid
            })
        };
    if b.len() == 0 {
        vstd::arithmetic::div_mod::lemma_basic_div(mid.pending.len() as int, c as int);
    }
    assert(k2 == s2.len() / c);
    vstd::arithmetic::div_mod::lemma_fundamental_div_mod(s2.len() as int, c as int);
    assert(c * (s2.len() as int / c as int) == k2 * c) by (nonlinear_arith)
        requires
            k2 == s2.len() as int / c as int,
    ;
    let t = before.pending + (a + b);
    assert(t =~= s + b);
    let k = k1 + k2;
    assert((k1 + k2) * c == k1 * c + k2 * c) by (nonlinear_arith);
    lemma_quotient_exact(t.len(), c, k, (s2.len() - k2 * c) as nat);
    if (a + b).len() == 0 {
        vstd::arithmetic::div_mod::lemma_basic_div(before.pending.len() as int, c as int);
    }
    assert(k == completed(before.pending.len(), (a + b).len(), c));
    let states = states1 + states2.skip(1);
    let outs = outs1 + outs2;
    assert forall|j: int|
        #![trigger outs[j]]
        0 <= j < outs.len() implies stepped(
        before.model,
        states[j],
        piece(t, c, j as nat),
        before.cond,
        run,
        states[j + 1],
        Ok(outs[j]),
    ) by {
        assert((j + 1) * c <= k * c) by (nonlinear_arith)
            requires
                j + 1 <= k,
        ;
        lemma_pieces_in_parts(s, b, c, k1, j as nat);
        if j < k1 {
            assert(outs[j] == outs1[j]);
            assert(states[j] == states1[j] && states[j + 1] == states1[j + 1]);
        } else {
            assert(outs[j] == outs2[j - k1]);
            assert(states[j] == states2[j - k1]);
            assert(states[j + 1] == states2[j - k1 + 1]);
        }
    }
    assert(is_trace(before.model, t, c, before.cond, run, states, outs));
    lemma_joined_concat(outs1, outs2, k2);
    assert(states[k as int] == states2[k2 as int]);
    assert(t.subrange((k * c) as int, t.len() as int) =~= s2.subrange(
        (k2 * c) as int,
        s2.len() as int,
    ));
}

} // verus!
