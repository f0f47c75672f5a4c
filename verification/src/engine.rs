//! Audio in, gated audio out: cutting the stream into frames, running them, and
//! emptying everything at the end.
use crate::chain::{is_tail, is_tail_failure, lesser, Chain, ChainView, Memory};
use crate::config::StreamingConfig;
use crate::decisions::strictly_ordered;
use crate::embedding::{EmbeddingError, EMBEDDING_DIM};
use crate::enrollment::{uniform, EmbeddingPool, PoolView};
use crate::overlap::OverlapReply;
use crate::pipeline::{
    apply_refresh, is_pool_step, is_refreshed, is_spared, keeps_voice, log_event, logged,
    AutoLearnEvent, PipelineError, ScoreState,
};
use crate::refresh::{
    are_answers, is_answered, is_lost, unanswered, ChannelView, Received, RefreshChannel,
};
use crate::rings::{copied, extend, extend_with, take_front};
use crate::scalar::{lawful, total, Scalar};
use crate::streaming::{
    from_engine, keeps_counts, no_output, noted, scaled_by, Kit, Moment, OutputView,
    StreamingOutput, StreamingState,
};
use crate::tse::{Tensor, TseError, TseReply};
use crate::tse_stage::{append_samples, is_padded};
use crate::vad::{SileroVad, VadReply, CHUNK_SAMPLES_16K};
use std::collections::VecDeque;
use vstd::prelude::*;
use vstd::std_specs::ops::MulSpec;

verus! {

/// Audio that waits for its frame to fill.
pub struct Intake<N> {
    pub audio_ring: VecDeque<N>,
    /// Whether the decision side runs at another rate than the audio.
    pub dual_rate: bool,
}

/// One output behind another.
pub open spec fn joined_output<N>(a: OutputView<N>, b: OutputView<N>) -> OutputView<N> {
    OutputView {
        audio: a.audio + b.audio,
        gate_decisions: a.gate_decisions + b.gate_decisions,
        events: a.events + b.events,
        gate_per_frame: a.gate_per_frame + b.gate_per_frame,
        score_per_frame: a.score_per_frame + b.score_per_frame,
        cos_sim_max_per_frame: a.cos_sim_max_per_frame + b.cos_sim_max_per_frame,
        f0_match_per_frame: a.f0_match_per_frame + b.f0_match_per_frame,
        tse_applied: a.tse_applied || b.tse_applied,
    }
}

/// The first `n` outputs, one behind the other.
pub open spec fn outputs<N>(deltas: Seq<OutputView<N>>, n: nat) -> OutputView<N>
    decreases n,
{
    if n == 0 {
        no_output()
    } else {
        joined_output(outputs(deltas, (n - 1) as nat), deltas[n - 1])
    }
}

proof fn lemma_outputs_prefix<N>(a: Seq<OutputView<N>>, b: Seq<OutputView<N>>, n: nat)
    requires
        n <= a.len(),
        n <= b.len(),
        forall|i: int| 0 <= i < n ==> a[i] == b[i],
    ensures
        outputs(a, n) == outputs(b, n),
    decreases n,
{
    if n > 0 {
        lemma_outputs_prefix(a, b, (n - 1) as nat);
    }
}

proof fn lemma_outputs_concat<N>(a: Seq<OutputView<N>>, b: Seq<OutputView<N>>, n: nat)
    requires
        n <= b.len(),
    ensures
        outputs(a + b, a.len() + n) == joined_output(outputs(a, a.len()), outputs(b, n)),
    decreases n,
{
    if n == 0 {
        lemma_outputs_prefix(a + b, a, a.len());
        let o = outputs(a, a.len());
        assert(joined_output(o, no_output()) =~= o);
    } else {
        lemma_outputs_concat(a, b, (n - 1) as nat);
        let x = outputs(a, a.len());
        let y = outputs(b, (n - 1) as nat);
        let z = b[n - 1];
        assert((a + b)[a.len() + n - 1] == z);
        assert(joined_output(joined_output(x, y), z) =~= joined_output(x, joined_output(y, z)));
    }
}

impl<N> StreamingOutput<N> {
    /// Puts another output behind this one.
    pub fn append(&mut self, other: StreamingOutput<N>)
        ensures
            final(self)@ == joined_output(old(self)@, other@),
    {
        let mut other = other;
        self.audio.append(&mut other.audio);
        self.gate_decisions.append(&mut other.gate_decisions);
        self.events.append(&mut other.events);
        self.gate_per_frame.append(&mut other.gate_per_frame);
        self.score_per_frame.append(&mut other.score_per_frame);
        self.cos_sim_max_per_frame.append(&mut other.cos_sim_max_per_frame);
        self.f0_match_per_frame.append(&mut other.f0_match_per_frame);
        self.tse_applied = self.tse_applied || other.tse_applied;
    }
}

/// Without the last `n` samples, as far as there are so many.
pub open spec fn shortened<N>(audio: Seq<N>, n: int) -> Seq<N> {
    audio.take(if n < audio.len() {
        audio.len() - n
    } else {
        0
    })
}

/// How many frames the ring can hold at most: a frame takes one decision frame
/// where the rates agree, and at least one sample where they do not.
pub open spec fn frames_at_most(dual: bool, samples: nat) -> nat {
    if dual {
        samples
    } else {
        samples / CHUNK_SAMPLES_16K as nat
    }
}

/// The records of an output hold an entry for each of `frames` frames, if records
/// are kept.
pub open spec fn is_record_of<N>(out: OutputView<N>, frames: int, keep: bool) -> bool {
    let n: int = if keep {
        frames
    } else {
        0
    };
    &&& out.gate_per_frame.len() == n
    &&& out.score_per_frame.len() == n
    &&& out.cos_sim_max_per_frame.len() == n
    &&& out.f0_match_per_frame.len() == n
}

/// Decisions come one after the other, from one sample on and before another.
pub open spec fn in_turn(d: Seq<(usize, bool)>, from: usize, to: usize) -> bool {
    &&& from <= to
    &&& strictly_ordered(d)
    &&& forall|i: int| 0 <= i < d.len() ==> from <= (#[trigger] d[i]).0 < to
}

/// The engine between frames, with the audio that waits.
pub struct Station<N> {
    pub ring: Seq<N>,
    pub at: Moment<N>,
}

impl<
    N: Scalar,
    V: Fn(&Vec<N>, &Vec<N>, u32) -> Result<VadReply<N>, EmbeddingError>,
    R: Fn(&Vec<N>) -> Result<(Vec<N>, N), EmbeddingError>,
    S: Fn(Vec<N>) -> bool,
    C: Fn(bool) -> Received<N>,
    P: Fn(&Vec<N>) -> Option<N>,
    O: Fn(&Vec<N>) -> Result<OverlapReply<N>, EmbeddingError>,
    M: Fn(&[N], &[N], &Vec<Tensor<N>>) -> Result<TseReply<N>, TseError>,
    D: Fn(&Vec<N>) -> Result<Vec<N>, EmbeddingError>,
    I: Fn() -> usize,
    J: Fn(&Vec<N>) -> Result<Vec<N>, String>,
    E: Fn(N) -> N,
    Q: Fn(N) -> N,
    W: Fn(N) -> N,
    T: Fn(N) -> N,
    F: Fn(Memory),
> Kit<N, V, R, S, C, P, O, M, D, I, J, E, Q, W, T, F> {
    // -----------------------------------------------------------------
    // Cutting frames
    // -----------------------------------------------------------------
    /// The next frame takes `n` samples: as many as the resampler asks for, or
    /// one decision frame where the rates agree.
    pub open spec fn needs(&self, dual: bool, n: usize) -> bool {
        if dual {
            call_ensures(self.next_input, (), n)
        } else {
            n == CHUNK_SAMPLES_16K
        }
    }

    /// The resampler was run on `chunk` with that outcome.
    pub open spec fn is_resampling(&self, chunk: Seq<N>, r: Result<Vec<N>, String>) -> bool {
        exists|v: Vec<N>| v@ == chunk && #[trigger] call_ensures(self.resample, (&v,), r)
    }

    /// `frame` is the decision frame of the first `n` samples of the ring.
    pub open spec fn is_cut(&self, dual: bool, ring: Seq<N>, n: usize, frame: Vec<N>) -> bool {
        &&& self.needs(dual, n)
        &&& n <= ring.len()
        &&& if dual {
            self.is_resampling(ring.take(n as int), Ok(frame))
        } else {
            frame@ == ring.take(n as int)
        }
    }

    /// The resampler failed on the first samples of the ring, which left it.
    pub open spec fn is_miscut(&self, ring: Seq<N>, rest: Seq<N>, e: PipelineError) -> bool {
        exists|n: usize, cause: String|
            {
                &&& #[trigger] self.needs(true, n)
                &&& n <= ring.len()
                &&& rest == ring.skip(n as int)
                &&& #[trigger] self.is_resampling(
                    ring.take(n as int),
                    Err::<Vec<N>, String>(cause),
                )
                &&& e matches PipelineError::Embedding(EmbeddingError::Ort(m))
                &&& m@ == "streaming resampler step failed: "@ + cause@
            }
    }

    /// The samples that the next frame takes.
    pub fn input_per_frame(&self, dual_rate: bool) -> (n: usize)
        requires
            self.ready(),
        ensures
            self.needs(dual_rate, n),
            n > 0,
    {
        if dual_rate {
            (self.next_input)()
        } else {
            CHUNK_SAMPLES_16K
        }
    }

    /// Takes the audio of one frame off the ring, if it is there, and brings it
    /// to the decision rate.
    pub fn drain_one_frame(&self, intake: &mut Intake<N>) -> (r: Result<
        Option<(Vec<N>, Vec<N>)>,
        PipelineError,
    >)
        requires
            self.ready(),
        ensures
            r matches Err(e) ==> from_engine(e),
            final(intake).dual_rate == old(intake).dual_rate,
            match r {
                Ok(Some((chunk, frame))) => {
                    &&& 0 < chunk@.len() <= old(intake).audio_ring@.len()
                    &&& self.is_cut(
                        old(intake).dual_rate,
                        old(intake).audio_ring@,
                        chunk@.len() as usize,
                        frame,
                    )
                    &&& chunk@ == old(intake).audio_ring@.take(chunk@.len() as int)
                    &&& final(intake).audio_ring@ == old(intake).audio_ring@.skip(
                        chunk@.len() as int,
                    )
                },
                Ok(None) => {
                    &&& exists|n: usize| #[trigger]
                        self.needs(old(intake).dual_rate, n) && old(intake).audio_ring@.len() < n
                    &&& final(intake).audio_ring@ == old(intake).audio_ring@
                },
                Err(e) => old(intake).dual_rate && self.is_miscut(
                    old(intake).audio_ring@,
                    final(intake).audio_ring@,
                    e,
                ),
            },
    {
        let n: usize = self.input_per_frame(intake.dual_rate);
        if intake.audio_ring.len() < n {
            return Ok(None);
        }
        let chunk: Vec<N> = take_front(&mut intake.audio_ring, n);
        if intake.dual_rate {
            let outcome: Result<Vec<N>, String> = (self.resample)(&chunk);
            assert(self.is_resampling(old(intake).audio_ring@.take(n as int), outcome));
            match outcome {
                Err(cause) => {
                    let text: String = "streaming resampler step failed: ".to_owned().concat(
                        cause.as_str(),
                    );
                    assert(self.needs(true, n));
                    Err(PipelineError::Embedding(EmbeddingError::Ort(text)))
                },
                Ok(frame) => Ok(Some((chunk, frame))),
            }
        } else {
            let frame: Vec<N> = copied(chunk.as_slice());
            Ok(Some((chunk, frame)))
        }
    }

    // -----------------------------------------------------------------
    // Running frames
    // -----------------------------------------------------------------
    /// One frame was cut off the ring and stepped.
    pub open spec fn is_turned(
        &self,
        dual: bool,
        a: Station<N>,
        b: Station<N>,
        delta: OutputView<N>,
        cohort: Seq<Vec<N>>,
        config: StreamingConfig<N>,
    ) -> bool {
        exists|n: usize, frame: Vec<N>|
            {
                &&& #[trigger] self.is_cut(dual, a.ring, n, frame)
                &&& b.ring == a.ring.skip(n as int)
                &&& self.is_stepped(
                    a.at,
                    a.ring.take(n as int),
                    frame@,
                    cohort,
                    config,
                    b.at,
                    delta,
                )
            }
    }

    /// The engine went from station to station, each frame giving its output.
    pub open spec fn is_run(
        &self,
        dual: bool,
        stations: Seq<Station<N>>,
        deltas: Seq<OutputView<N>>,
        cohort: Seq<Vec<N>>,
        config: StreamingConfig<N>,
    ) -> bool {
        &&& stations.len() == deltas.len() + 1
        &&& forall|i: int|
            0 <= i < deltas.len() ==> self.is_turned(
                dual,
                stations[i],
                stations[i + 1],
                #[trigger] deltas[i],
                cohort,
                config,
            )
    }

    /// The engine ran from `start` to `end` and gave `out` on the way.
    pub open spec fn is_way(
        &self,
        dual: bool,
        start: Station<N>,
        end: Station<N>,
        out: OutputView<N>,
        cohort: Seq<Vec<N>>,
        config: StreamingConfig<N>,
    ) -> bool {
        exists|stations: Seq<Station<N>>, deltas: Seq<OutputView<N>>|
            {
                &&& #[trigger] self.is_run(dual, stations, deltas, cohort, config)
                &&& stations[0] == start
                &&& stations.last() == end
                &&& out == outputs(deltas, deltas.len())
            }
    }

    /// The engine cannot go on from a station: the frame cannot be cut, or it
    /// fails. Its samples have left the ring.
    pub open spec fn is_stuck(
        &self,
        dual: bool,
        s: Station<N>,
        end: Station<N>,
        cohort: Seq<Vec<N>>,
        config: StreamingConfig<N>,
        e: PipelineError,
    ) -> bool {
        ||| dual && self.is_miscut(s.ring, end.ring, e) && end.at == s.at
        ||| exists|n: usize, frame: Vec<N>|
            {
                &&& #[trigger] self.is_cut(dual, s.ring, n, frame)
                &&& end.ring == s.ring.skip(n as int)
                &&& self.is_broken(
                    s.at,
                    s.ring.take(n as int),
                    frame@,
                    cohort,
                    config,
                    end.at,
                    e,
                )
            }
    }

    /// The engine ran from `start` until it was stuck, and stands at `end`.
    pub open spec fn is_dead_end(
        &self,
        dual: bool,
        start: Station<N>,
        end: Station<N>,
        cohort: Seq<Vec<N>>,
        config: StreamingConfig<N>,
        e: PipelineError,
    ) -> bool {
        exists|last: Station<N>, out: OutputView<N>| #[trigger]
            self.is_way(dual, start, last, out, cohort, config) && self.is_stuck(
                dual,
                last,
                end,
                cohort,
                config,
                e,
            )
    }

    /// The ring does not hold another frame.
    pub open spec fn is_dry(&self, dual: bool, ring: Seq<N>) -> bool {
        exists|n: usize| #[trigger] self.needs(dual, n) && ring.len() < n
    }

    /// Standing still is a way.
    pub(crate) proof fn lemma_stand_still(
        &self,
        dual: bool,
        s: Station<N>,
        cohort: Seq<Vec<N>>,
        config: StreamingConfig<N>,
    )
        ensures
            self.is_way(dual, s, s, no_output(), cohort, config),
    {
        let stations = seq![s];
        let deltas = Seq::<OutputView<N>>::empty();
        assert(self.is_run(dual, stations, deltas, cohort, config));
    }

    /// A way can be followed by another frame.
    proof fn lemma_one_more(
        &self,
        dual: bool,
        start: Station<N>,
        mid: Station<N>,
        end: Station<N>,
        out: OutputView<N>,
        delta: OutputView<N>,
        cohort: Seq<Vec<N>>,
        config: StreamingConfig<N>,
    )
        requires
            self.is_way(dual, start, mid, out, cohort, config),
            self.is_turned(dual, mid, end, delta, cohort, config),
        ensures
            self.is_way(dual, start, end, joined_output(out, delta), cohort, config),
    {
        let (stations, deltas) = choose|stations: Seq<Station<N>>, deltas: Seq<OutputView<N>>|
            {
                &&& #[trigger] self.is_run(dual, stations, deltas, cohort, config)
                &&& stations[0] == start
                &&& stations.last() == mid
                &&& out == outputs(deltas, deltas.len())
            };
        let s2 = stations.push(end);
        let d2 = deltas.push(delta);
        assert forall|i: int| 0 <= i < d2.len() implies self.is_turned(
            dual,
            s2[i],
            s2[i + 1],
            #[trigger] d2[i],
            cohort,
            config,
        ) by {
            if i < deltas.len() {
                assert(d2[i] == deltas[i]);
                assert(s2[i] == stations[i] && s2[i + 1] == stations[i + 1]);
            }
        }
        assert(self.is_run(dual, s2, d2, cohort, config));
        lemma_outputs_prefix(d2, deltas, deltas.len());
        assert(outputs(d2, d2.len()) == joined_output(out, delta));
    }

    /// Runs every frame that the ring holds.
    #[verifier::rlimit(50)]
    #[verifier::spinoff_prover]
    pub fn run_frames(
        &self,
        intake: &mut Intake<N>,
        state: &mut StreamingState<N>,
        vad: &mut SileroVad<N>,
        pool: &mut EmbeddingPool<N>,
        cohort: &Vec<Vec<N>>,
        config: &StreamingConfig<N>,
    ) -> (r: Result<StreamingOutput<N>, PipelineError>)
        requires
            self.ready(),
            total::<N>(),
            old(state).sound(config.pipeline),
            old(state).room(
                frames_at_most(old(intake).dual_rate, old(intake).audio_ring@.len()),
            ),
            old(state).audio_samples_emitted + old(intake).audio_ring@.len() <= usize::MAX,
            old(vad).wf(),
            old(pool).wf(),
            old(pool)@.uniform(EMBEDDING_DIM as nat),
            uniform(cohort@, EMBEDDING_DIM as nat),
        ensures
            r matches Err(e) ==> from_engine(e),
            final(intake).dual_rate == old(intake).dual_rate,
            final(state).sound(config.pipeline),
            final(vad).wf(),
            final(pool).wf(),
            final(pool)@.uniform(EMBEDDING_DIM as nat),
            is_spared(config.pipeline.enable_auto_learn, old(pool)@, final(pool)@),
            match r {
                Ok(out) => {
                    &&& old(state).wf(config.pipeline) ==> final(state).wf(config.pipeline)
                    &&& is_record_of(
                        out@,
                        final(state).frame_idx - old(state).frame_idx,
                        config.diagnostics,
                    )
                    &&& !config.pipeline.enable_auto_learn ==> out@.events.len() == 0
                    &&& forall|k: nat|
                        old(state).room(
                            k + frames_at_most(
                                old(intake).dual_rate,
                                old(intake).audio_ring@.len(),
                            ),
                        ) ==> #[trigger] final(state).room(
                            k + frames_at_most(
                                old(intake).dual_rate,
                                final(intake).audio_ring@.len(),
                            ),
                        )
                    &&& final(state).audio_samples_emitted + final(intake).audio_ring@.len()
                        == old(state).audio_samples_emitted + old(intake).audio_ring@.len()
                    &&& self.is_dry(old(intake).dual_rate, final(intake).audio_ring@)
                    &&& !old(intake).dual_rate ==> final(intake).audio_ring@.len()
                        == old(intake).audio_ring@.len() % CHUNK_SAMPLES_16K as nat
                        && final(state).frame_idx == old(state).frame_idx + old(
                        intake).audio_ring@.len() / CHUNK_SAMPLES_16K as nat
                    &&& in_turn(
                        out@.gate_decisions,
                        old(state).audio_samples_emitted,
                        final(state).audio_samples_emitted,
                    )
                    &&& final(state).chain@.adaptive() == old(state).chain@.adaptive()
                    &&& old(state).wf(config.pipeline) && !old(state).chain@.adaptive()
                        ==> out@.audio.len() + final(state).chain@.held_back() + final(
                        intake).audio_ring@.len() == old(state).chain@.held_back() + old(
                        intake).audio_ring@.len()
                    &&& self.is_way(
                        old(intake).dual_rate,
                        Station {
                            ring: old(intake).audio_ring@,
                            at: Moment { state: *old(state), vad: old(vad)@, pool: old(pool)@ },
                        },
                        Station {
                            ring: final(intake).audio_ring@,
                            at: Moment {
                                state: *final(state),
                                vad: final(vad)@,
                                pool: final(pool)@,
                            },
                        },
                        out@,
                        cohort@,
                        *config,
                    )
                },
                Err(e) => self.is_dead_end(
                    old(intake).dual_rate,
                    Station {
                        ring: old(intake).audio_ring@,
                        at: Moment { state: *old(state), vad: old(vad)@, pool: old(pool)@ },
                    },
                    Station {
                        ring: final(intake).audio_ring@,
                        at: Moment { state: *final(state), vad: final(vad)@, pool: final(pool)@ },
                    },
                    cohort@,
                    *config,
                    e,
                ),
            },
    {
        let ghost dual = intake.dual_rate;
        let ghost start = Station {
            ring: intake.audio_ring@,
            at: Moment { state: *state, vad: vad@, pool: pool@ },
        };
        let mut out: StreamingOutput<N> = StreamingOutput::new();
        proof {
            self.lemma_stand_still(dual, start, cohort@, *config);
        }
        loop
            invariant
                self.ready(),
                total::<N>(),
                dual == intake.dual_rate,
                dual == old(intake).dual_rate,
                start == (Station {
                    ring: old(intake).audio_ring@,
                    at: Moment { state: *old(state), vad: old(vad)@, pool: old(pool)@ },
                }),
                state.sound(config.pipeline),
                old(state).wf(config.pipeline) ==> state.wf(config.pipeline),
                is_spared(config.pipeline.enable_auto_learn, old(pool)@, pool@),
                !config.pipeline.enable_auto_learn ==> out@.events.len() == 0,
                is_record_of(out@, state.frame_idx - old(state).frame_idx, config.diagnostics),
                !dual ==> state.frame_idx - old(state).frame_idx
                    + intake.audio_ring@.len() / CHUNK_SAMPLES_16K as nat == old(
                    intake).audio_ring@.len() / CHUNK_SAMPLES_16K as nat,
                old(state).room(frames_at_most(dual, old(intake).audio_ring@.len())),
                forall|k: nat|
                    old(state).room(k + frames_at_most(dual, old(intake).audio_ring@.len()))
                        ==> #[trigger] state.room(
                        k + frames_at_most(dual, intake.audio_ring@.len()),
                    ),
                state.audio_samples_emitted + intake.audio_ring@.len() == old(
                    state).audio_samples_emitted + old(intake).audio_ring@.len(),
                old(state).audio_samples_emitted + old(intake).audio_ring@.len() <= usize::MAX,
                vad.wf(),
                pool.wf(),
                pool@.uniform(EMBEDDING_DIM as nat),
                uniform(cohort@, EMBEDDING_DIM as nat),
                in_turn(
                    out@.gate_decisions,
                    old(state).audio_samples_emitted,
                    state.audio_samples_emitted,
                ),
                state.chain@.adaptive() == old(state).chain@.adaptive(),
                old(state).wf(config.pipeline) && !old(state).chain@.adaptive()
                    ==> out@.audio.len() + state.chain@.held_back() + intake.audio_ring@.len()
                    == old(state).chain@.held_back() + old(intake).audio_ring@.len(),
                !dual ==> intake.audio_ring@.len() % CHUNK_SAMPLES_16K as nat == old(
                    intake).audio_ring@.len() % CHUNK_SAMPLES_16K as nat,
                self.is_way(
                    dual,
                    start,
                    Station {
                        ring: intake.audio_ring@,
                        at: Moment { state: *state, vad: vad@, pool: pool@ },
                    },
                    out@,
                    cohort@,
                    *config,
                ),
            decreases intake.audio_ring@.len(),
        {
            let ghost here = Station {
                ring: intake.audio_ring@,
                at: Moment { state: *state, vad: vad@, pool: pool@ },
            };
            match self.drain_one_frame(intake) {
                Err(e) => {
                    proof {
                        let there = Station {
                            ring: intake.audio_ring@,
                            at: Moment { state: *state, vad: vad@, pool: pool@ },
                        };
                        assert(self.is_way(dual, start, here, out@, cohort@, *config));
                        assert(self.is_stuck(dual, here, there, cohort@, *config, e));
                    }
                    return Err(e);
                },
                Ok(None) => {
                    return Ok(out);
                },
                Ok(Some((chunk, frame))) => {
                    let n: usize = chunk.len();
                    assert(self.is_cut(dual, here.ring, n, frame));
                    proof {
                        assert(here.at.state.room(0 + frames_at_most(dual, here.ring.len())));
                        assert(frames_at_most(dual, here.ring.len()) >= 1);
                    }
                    let stepped: Result<StreamingOutput<N>, PipelineError> =
                        self.step_one_frame_core(
                        state,
                        vad,
                        pool,
                        chunk.as_slice(),
                        frame.as_slice(),
                        cohort,
                        config,
                    );
                    match stepped {
                        Err(e) => {
                            proof {
                                let there = Station {
                                    ring: intake.audio_ring@,
                                    at: Moment { state: *state, vad: vad@, pool: pool@ },
                                };
                                assert(self.is_way(dual, start, here, out@, cohort@, *config));
                                assert(self.is_stuck(dual, here, there, cohort@, *config, e));
                            }
                            return Err(e);
                        },
                        Ok(delta) => {
                            let ghost d = delta@;
                            let ghost o = out@;
                            out.append(delta);
                            proof {
                                let there = Station {
                                    ring: intake.audio_ring@,
                                    at: Moment { state: *state, vad: vad@, pool: pool@ },
                                };
                                assert(self.is_turned(dual, here, there, d, cohort@, *config));
                                self.lemma_one_more(
                                    dual,
                                    start,
                                    here,
                                    there,
                                    o,
                                    d,
                                    cohort@,
                                    *config,
                                );
                                let f0 = frames_at_most(dual, here.ring.len());
                                let f1 = frames_at_most(dual, there.ring.len());
                                assert(f1 < f0);
                                assert forall|k: nat|
                                    old(state).room(
                                        k + frames_at_most(dual, start.ring.len()),
                                    ) implies #[trigger] state.room(k + f1) by {
                                    assert(here.at.state.room(k + f0));
                                    assert(here.at.state.room(k + f1 + 1));
                                    assert(state.room(k + f1));
                                }
                            }
                        },
                    }
                },
            }
        }
    }

    /// Takes in audio and runs every frame that it completes.
    pub fn push_block(
        &self,
        intake: &mut Intake<N>,
        state: &mut StreamingState<N>,
        vad: &mut SileroVad<N>,
        pool: &mut EmbeddingPool<N>,
        samples: &[N],
        cohort: &Vec<Vec<N>>,
        config: &StreamingConfig<N>,
    ) -> (r: Result<StreamingOutput<N>, PipelineError>)
        requires
            self.ready(),
            total::<N>(),
            old(state).sound(config.pipeline),
            old(state).room(
                frames_at_most(
                    old(intake).dual_rate,
                    old(intake).audio_ring@.len() + samples@.len(),
                ),
            ),
            old(state).audio_samples_emitted + old(intake).audio_ring@.len() + samples@.len()
                <= usize::MAX,
            old(vad).wf(),
            old(pool).wf(),
            old(pool)@.uniform(EMBEDDING_DIM as nat),
            uniform(cohort@, EMBEDDING_DIM as nat),
        ensures
            r matches Err(e) ==> from_engine(e),
            final(intake).dual_rate == old(intake).dual_rate,
            final(state).sound(config.pipeline),
            final(vad).wf(),
            final(pool).wf(),
            final(pool)@.uniform(EMBEDDING_DIM as nat),
            is_spared(config.pipeline.enable_auto_learn, old(pool)@, final(pool)@),
            match r {
                Ok(out) => {
                    &&& old(state).wf(config.pipeline) ==> final(state).wf(config.pipeline)
                    &&& is_record_of(
                        out@,
                        final(state).frame_idx - old(state).frame_idx,
                        config.diagnostics,
                    )
                    &&& !config.pipeline.enable_auto_learn ==> out@.events.len() == 0
                    &&& forall|k: nat|
                        old(state).room(
                            k + frames_at_most(
                                old(intake).dual_rate,
                                old(intake).audio_ring@.len() + samples@.len(),
                            ),
                        ) ==> #[trigger] final(state).room(
                            k + frames_at_most(
                                old(intake).dual_rate,
                                final(intake).audio_ring@.len(),
                            ),
                        )
                    &&& final(state).audio_samples_emitted + final(intake).audio_ring@.len()
                        == old(state).audio_samples_emitted + old(intake).audio_ring@.len()
                        + samples@.len()
                    &&& self.is_dry(old(intake).dual_rate, final(intake).audio_ring@)
                    &&& !old(intake).dual_rate ==> final(intake).audio_ring@.len() == (old(
                        intake).audio_ring@.len() + samples@.len()) % CHUNK_SAMPLES_16K as nat
                        && final(state).frame_idx == old(state).frame_idx + (old(
                        intake).audio_ring@.len() + samples@.len()) / CHUNK_SAMPLES_16K as nat
                    &&& in_turn(
                        out@.gate_decisions,
                        old(state).audio_samples_emitted,
                        final(state).audio_samples_emitted,
                    )
                    &&& final(state).chain@.adaptive() == old(state).chain@.adaptive()
                    &&& old(state).wf(config.pipeline) && !old(state).chain@.adaptive()
                        ==> out@.audio.len() + final(state).chain@.held_back() + final(
                        intake).audio_ring@.len() == old(state).chain@.held_back() + old(
                        intake).audio_ring@.len() + samples@.len()
                    &&& self.is_way(
                        old(intake).dual_rate,
                        Station {
                            ring: old(intake).audio_ring@ + samples@,
                            at: Moment { state: *old(state), vad: old(vad)@, pool: old(pool)@ },
                        },
                        Station {
                            ring: final(intake).audio_ring@,
                            at: Moment {
                                state: *final(state),
                                vad: final(vad)@,
                                pool: final(pool)@,
                            },
                        },
                        out@,
                        cohort@,
                        *config,
                    )
                },
                Err(e) => self.is_dead_end(
                    old(intake).dual_rate,
                    Station {
                        ring: old(intake).audio_ring@ + samples@,
                        at: Moment { state: *old(state), vad: old(vad)@, pool: old(pool)@ },
                    },
                    Station {
                        ring: final(intake).audio_ring@,
                        at: Moment { state: *final(state), vad: final(vad)@, pool: final(pool)@ },
                    },
                    cohort@,
                    *config,
                    e,
                ),
            },
    {
        extend(&mut intake.audio_ring, samples);
        self.run_frames(intake, state, vad, pool, cohort, config)
    }

    /// What is behind a frame in the ring does not matter to it.
    proof fn lemma_turn_before_more(
        &self,
        dual: bool,
        x: Station<N>,
        y: Station<N>,
        delta: OutputView<N>,
        more: Seq<N>,
        cohort: Seq<Vec<N>>,
        config: StreamingConfig<N>,
    )
        requires
            self.is_turned(dual, x, y, delta, cohort, config),
        ensures
            self.is_turned(
                dual,
                Station { ring: x.ring + more, at: x.at },
                Station { ring: y.ring + more, at: y.at },
                delta,
                cohort,
                config,
            ),
    {
        let (n, frame) = choose|n: usize, frame: Vec<N>|
            {
                &&& #[trigger] self.is_cut(dual, x.ring, n, frame)
                &&& y.ring == x.ring.skip(n as int)
                &&& self.is_stepped(
                    x.at,
                    x.ring.take(n as int),
                    frame@,
                    cohort,
                    config,
                    y.at,
                    delta,
                )
            };
        let longer = x.ring + more;
        assert(longer.take(n as int) =~= x.ring.take(n as int));
        assert(longer.skip(n as int) =~= y.ring + more);
        let a = Station { ring: longer, at: x.at };
        let b = Station { ring: y.ring + more, at: y.at };
        assert(self.is_cut(dual, a.ring, n, frame));
        assert(b.ring == a.ring.skip(n as int));
        assert(self.is_stepped(
            a.at,
            a.ring.take(n as int),
            frame@,
            cohort,
            config,
            b.at,
            delta,
        ));
    }

    /// How audio is cut into pushes does not matter: running `a` and then, with
    /// what was left over, `b`, is a way of running both at once, to the same
    /// end and with the same output.
    pub proof fn lemma_push_in_parts(
        &self,
        dual: bool,
        ring: Seq<N>,
        a: Seq<N>,
        b: Seq<N>,
        start: Moment<N>,
        between: Station<N>,
        end: Station<N>,
        out_a: OutputView<N>,
        out_b: OutputView<N>,
        cohort: Seq<Vec<N>>,
        config: StreamingConfig<N>,
    )
        requires
            self.is_way(
                dual,
                Station { ring: ring + a, at: start },
                between,
                out_a,
                cohort,
                config,
            ),
            self.is_way(
                dual,
                Station { ring: between.ring + b, at: between.at },
                end,
                out_b,
                cohort,
                config,
            ),
        ensures
            self.is_way(
                dual,
                Station { ring: ring + (a + b), at: start },
                end,
                joined_output(out_a, out_b),
                cohort,
                config,
            ),
    {
        let first = Station { ring: ring + a, at: start };
        let second = Station { ring: between.ring + b, at: between.at };
        let (s1, d1) = choose|s: Seq<Station<N>>, d: Seq<OutputView<N>>|
            {
                &&& #[trigger] self.is_run(dual, s, d, cohort, config)
                &&& s[0] == first
                &&& s.last() == between
                &&& out_a == outputs(d, d.len())
            };
        let (s2, d2) = choose|s: Seq<Station<N>>, d: Seq<OutputView<N>>|
            {
                &&& #[trigger] self.is_run(dual, s, d, cohort, config)
                &&& s[0] == second
                &&& s.last() == end
                &&& out_b == outputs(d, d.len())
            };
        let k = d1.len() as int;
        let stations = Seq::new(
            k as nat + s2.len(),
            |i: int|
                if i < k {
                    Station { ring: s1[i].ring + b, at: s1[i].at }
                } else {
                    s2[i - k]
                },
        );
        let deltas = d1 + d2;
        assert forall|i: int| 0 <= i < deltas.len() implies self.is_turned(
            dual,
            stations[i],
            stations[i + 1],
            #[trigger] deltas[i],
            cohort,
            config,
        ) by {
            if i < k {
                assert(deltas[i] == d1[i]);
                let x = s1[i];
                let y = s1[i + 1];
                assert(self.is_turned(dual, x, y, d1[i], cohort, config));
                self.lemma_turn_before_more(dual, x, y, d1[i], b, cohort, config);
                assert(stations[i] == Station { ring: x.ring + b, at: x.at });
                assert(stations[i + 1] == Station { ring: y.ring + b, at: y.at });
            } else {
                assert(deltas[i] == d2[i - k]);
                assert(self.is_turned(dual, s2[i - k], s2[i - k + 1], d2[i - k], cohort, config));
                assert(stations[i] == s2[i - k] && stations[i + 1] == s2[i - k + 1]);
            }
        }
        assert(self.is_run(dual, stations, deltas, cohort, config));
        assert((ring + a) + b =~= ring + (a + b));
        assert(stations[0] == Station { ring: ring + (a + b), at: start });
        assert(stations.last() == end);
        lemma_outputs_concat(d1, d2, d2.len());
    }

    /// One frame leaves one record, and an entry in the log of decisions exactly
    /// where its decision is another than the one before.
    proof fn lemma_step_logs(
        &self,
        before: Moment<N>,
        chunk: Seq<N>,
        frame: Seq<N>,
        cohort: Seq<Vec<N>>,
        config: StreamingConfig<N>,
        after: Moment<N>,
        delta: OutputView<N>,
    )
        requires
            self.is_stepped(before, chunk, frame, cohort, config, after, delta),
        ensures
            after.state.current_decision matches Some(on) && {
                &&& delta.gate_per_frame == noted(Seq::empty(), on, config.diagnostics)
                &&& delta.gate_decisions == changed(
                    before.state.current_decision,
                    before.state.audio_samples_emitted,
                    on,
                )
            },
            after.state.audio_samples_emitted == (before.state.audio_samples_emitted
                + chunk.len()) as usize,
    {
        let d = delta.gate_decisions;
        let on = after.state.current_decision->0;
        assert(d =~= changed(
            before.state.current_decision,
            before.state.audio_samples_emitted,
            on,
        ));
        assert(delta.gate_per_frame =~= noted(Seq::empty(), on, config.diagnostics));
    }

    /// The first `n` frames of a run leave the log of decisions that their records
    /// give.
    proof fn lemma_run_logs(
        &self,
        dual: bool,
        stations: Seq<Station<N>>,
        deltas: Seq<OutputView<N>>,
        cohort: Seq<Vec<N>>,
        config: StreamingConfig<N>,
        n: nat,
    )
        requires
            self.is_run(dual, stations, deltas, cohort, config),
            config.diagnostics,
            n <= deltas.len(),
        ensures
            outputs(deltas, n).gate_per_frame.len() == n,
            outputs(deltas, n).gate_decisions == gate_log(
                stations[0].at.state.current_decision,
                starts_of(stations),
                outputs(deltas, n).gate_per_frame,
                n,
            ),
            stations[n as int].at.state.current_decision == last_flag(
                stations[0].at.state.current_decision,
                outputs(deltas, n).gate_per_frame,
                n,
            ),
        decreases n,
    {
        if n > 0 {
            let i = n - 1;
            self.lemma_run_logs(dual, stations, deltas, cohort, config, i as nat);
            let a = stations[i];
            let b = stations[i + 1];
            assert(self.is_turned(dual, a, b, deltas[i], cohort, config));
            let (m, frame) = choose|m: usize, frame: Vec<N>|
                {
                    &&& #[trigger] self.is_cut(dual, a.ring, m, frame)
                    &&& b.ring == a.ring.skip(m as int)
                    &&& self.is_stepped(
                        a.at,
                        a.ring.take(m as int),
                        frame@,
                        cohort,
                        config,
                        b.at,
                        deltas[i],
                    )
                };
            self.lemma_step_logs(
                a.at,
                a.ring.take(m as int),
                frame@,
                cohort,
                config,
                b.at,
                deltas[i],
            );
            let before = outputs(deltas, i as nat);
            let after = outputs(deltas, n);
            let first = stations[0].at.state.current_decision;
            lemma_gate_log_prefix(
                first,
                starts_of(stations),
                before.gate_per_frame,
                after.gate_per_frame,
                i as nat,
            );
            assert(after.gate_per_frame[i] == b.at.state.current_decision->0);
            assert(last_flag(first, before.gate_per_frame, i as nat) == last_flag(
                first,
                after.gate_per_frame,
                i as nat,
            ));
            assert(after.gate_decisions =~= gate_log(
                first,
                starts_of(stations),
                after.gate_per_frame,
                n,
            ));
        }
    }

    /// The frames of a run start one behind the other.
    proof fn lemma_run_advances(
        &self,
        dual: bool,
        stations: Seq<Station<N>>,
        deltas: Seq<OutputView<N>>,
        cohort: Seq<Vec<N>>,
        config: StreamingConfig<N>,
        n: nat,
    )
        requires
            self.ready(),
            self.is_run(dual, stations, deltas, cohort, config),
            stations[0].at.state.audio_samples_emitted + stations[0].ring.len() <= usize::MAX,
            n <= deltas.len(),
        ensures
            stations[n as int].at.state.audio_samples_emitted + stations[n as int].ring.len()
                == stations[0].at.state.audio_samples_emitted + stations[0].ring.len(),
            forall|i: int, j: int|
                0 <= i < j <= n ==> #[trigger] starts_of(stations)[i] < #[trigger] starts_of(
                    stations,
                )[j],
        decreases n,
    {
        if n > 0 {
            let i = n - 1;
            self.lemma_run_advances(dual, stations, deltas, cohort, config, i as nat);
            let a = stations[i];
            let b = stations[i + 1];
            assert(self.is_turned(dual, a, b, deltas[i], cohort, config));
            let (m, frame) = choose|m: usize, frame: Vec<N>|
                {
                    &&& #[trigger] self.is_cut(dual, a.ring, m, frame)
                    &&& b.ring == a.ring.skip(m as int)
                    &&& self.is_stepped(
                        a.at,
                        a.ring.take(m as int),
                        frame@,
                        cohort,
                        config,
                        b.at,
                        deltas[i],
                    )
                };
            self.lemma_step_logs(
                a.at,
                a.ring.take(m as int),
                frame@,
                cohort,
                config,
                b.at,
                deltas[i],
            );
            assert(m > 0);
            let s = starts_of(stations);
            assert(s[i] < s[i + 1]);
            assert forall|x: int, y: int| 0 <= x < y <= n implies #[trigger] s[x]
                < #[trigger] s[y] by {
                if y == n && x < i {
                    assert(s[x] < s[i]);
                }
            }
        }
    }

    /// The log of decisions has an entry for each frame whose decision is another
    /// than that of the frame before, and no other: the sample at which the frame
    /// starts, and the decision. What is carried on to the next call is the last
    /// decision, so this holds of all calls together as it does of one.
    pub proof fn lemma_log_of_changes(
        &self,
        dual: bool,
        start: Station<N>,
        end: Station<N>,
        out: OutputView<N>,
        cohort: Seq<Vec<N>>,
        config: StreamingConfig<N>,
    ) -> (starts: Seq<usize>)
        requires
            self.ready(),
            self.is_way(dual, start, end, out, cohort, config),
            config.diagnostics,
            start.at.state.audio_samples_emitted + start.ring.len() <= usize::MAX,
        ensures
            starts.len() == out.gate_per_frame.len() + 1,
            starts[0] == start.at.state.audio_samples_emitted,
            starts.last() == end.at.state.audio_samples_emitted,
            forall|i: int, j: int|
                0 <= i < j < starts.len() ==> #[trigger] starts[i] < #[trigger] starts[j],
            strictly_ordered(out.gate_decisions),
            out.gate_decisions == gate_log(
                start.at.state.current_decision,
                starts,
                out.gate_per_frame,
                out.gate_per_frame.len(),
            ),
            end.at.state.current_decision == last_flag(
                start.at.state.current_decision,
                out.gate_per_frame,
                out.gate_per_frame.len(),
            ),
    {
        let (stations, deltas) = choose|s: Seq<Station<N>>, d: Seq<OutputView<N>>|
            {
                &&& #[trigger] self.is_run(dual, s, d, cohort, config)
                &&& s[0] == start
                &&& s.last() == end
                &&& out == outputs(d, d.len())
            };
        self.lemma_run_logs(dual, stations, deltas, cohort, config, deltas.len());
        self.lemma_run_advances(dual, stations, deltas, cohort, config, deltas.len());
        lemma_log_in_order(
            start.at.state.current_decision,
            starts_of(stations),
            out.gate_per_frame,
            out.gate_per_frame.len(),
        );
        starts_of(stations)
    }

    /// The records and the log of decisions of a flush are those of the frames of
    /// what was left, padded with silence.
    pub proof fn lemma_flush_runs_the_rest(
        &self,
        dual: bool,
        start: Station<N>,
        end: Station<N>,
        out: OutputView<N>,
        cohort: Seq<Vec<N>>,
        config: StreamingConfig<N>,
    ) -> (r: (Station<N>, Station<N>, OutputView<N>))
        requires
            self.is_flushed(dual, start, end, out, cohort, config),
        ensures
            self.is_topped_up(dual, start.ring, r.0.ring),
            r.0.at == start.at,
            self.is_way(dual, r.0, r.1, r.2, cohort, config),
            self.is_dry(dual, r.1.ring),
            out.gate_decisions == r.2.gate_decisions,
            out.gate_per_frame == r.2.gate_per_frame,
            out.score_per_frame == r.2.score_per_frame,
            out.cos_sim_max_per_frame == r.2.cos_sim_max_per_frame,
            out.f0_match_per_frame == r.2.f0_match_per_frame,
            end.ring == r.1.ring,
            end.at.vad == r.1.at.vad,
            end.at.state.current_decision == r.1.at.state.current_decision,
            end.at.state.audio_samples_emitted == r.1.at.state.audio_samples_emitted,
    {
        let (padded, ran, ran_out, drained, drained_out, whole) = choose|
            padded: Seq<N>,
            ran: Station<N>,
            ran_out: OutputView<N>,
            drained: StreamingState<N>,
            drained_out: OutputView<N>,
            whole: OutputView<N>,
        |
            {
                &&& self.is_topped_up(dual, start.ring, padded)
                &&& #[trigger] self.is_way(
                    dual,
                    Station { ring: padded, at: start.at },
                    ran,
                    ran_out,
                    cohort,
                    config,
                )
                &&& self.is_dry(dual, ran.ring)
                &&& #[trigger] self.is_drained(
                    ran.at.state,
                    ran.at.pool,
                    ran_out,
                    cohort,
                    config,
                    drained,
                    end.at.pool,
                    drained_out,
                )
                &&& end.ring == ran.ring
                &&& end.at.vad == ran.at.vad
                &&& end.at.state == (StreamingState { chain: end.at.state.chain, ..drained })
                &&& #[trigger] self.is_emptied(
                    drained.chain@,
                    drained_out,
                    end.at.state.chain@,
                    whole,
                )
                &&& out == (OutputView {
                    audio: shortened(whole.audio, Self::surplus(dual, start.ring, padded)),
                    ..whole
                })
            };
        (Station { ring: padded, at: start.at }, ran, ran_out)
    }

    proof fn lemma_step_keeps_voice(
        &self,
        before: Moment<N>,
        chunk: Seq<N>,
        frame: Seq<N>,
        cohort: Seq<Vec<N>>,
        config: StreamingConfig<N>,
        after: Moment<N>,
        delta: OutputView<N>,
    )
        requires
            self.is_stepped(before, chunk, frame, cohort, config, after, delta),
        ensures
            keeps_voice(before.pool, after.pool),
    {
    }

    proof fn lemma_run_keeps_voice(
        &self,
        dual: bool,
        stations: Seq<Station<N>>,
        deltas: Seq<OutputView<N>>,
        cohort: Seq<Vec<N>>,
        config: StreamingConfig<N>,
        n: nat,
    )
        requires
            self.is_run(dual, stations, deltas, cohort, config),
            n <= deltas.len(),
        ensures
            keeps_voice(stations[0].at.pool, stations[n as int].at.pool),
        decreases n,
    {
        if n > 0 {
            let i = n - 1;
            self.lemma_run_keeps_voice(dual, stations, deltas, cohort, config, i as nat);
            let a = stations[i];
            let b = stations[i + 1];
            assert(self.is_turned(dual, a, b, deltas[i], cohort, config));
            let (m, frame) = choose|m: usize, frame: Vec<N>|
                {
                    &&& #[trigger] self.is_cut(dual, a.ring, m, frame)
                    &&& b.ring == a.ring.skip(m as int)
                    &&& self.is_stepped(
                        a.at,
                        a.ring.take(m as int),
                        frame@,
                        cohort,
                        config,
                        b.at,
                        deltas[i],
                    )
                };
            self.lemma_step_keeps_voice(
                a.at,
                a.ring.take(m as int),
                frame@,
                cohort,
                config,
                b.at,
                deltas[i],
            );
        }
    }

    /// No frame takes an enrolled voice away or changes it.
    pub proof fn lemma_way_keeps_voice(
        &self,
        dual: bool,
        start: Station<N>,
        end: Station<N>,
        out: OutputView<N>,
        cohort: Seq<Vec<N>>,
        config: StreamingConfig<N>,
    )
        requires
            self.is_way(dual, start, end, out, cohort, config),
        ensures
            keeps_voice(start.at.pool, end.at.pool),
    {
        let (stations, deltas) = choose|s: Seq<Station<N>>, d: Seq<OutputView<N>>|
            {
                &&& #[trigger] self.is_run(dual, s, d, cohort, config)
                &&& s[0] == start
                &&& s.last() == end
                &&& out == outputs(d, d.len())
            };
        self.lemma_run_keeps_voice(dual, stations, deltas, cohort, config, deltas.len());
    }

    // -----------------------------------------------------------------
    // The end of a stream
    // -----------------------------------------------------------------
    /// Results that came in at the end were folded in, one after the other.
    pub open spec fn is_trailed(
        &self,
        results: Seq<(usize, Vec<N>, N)>,
        before: StreamingState<N>,
        pool: PoolView<N>,
        log: Seq<AutoLearnEvent<N>>,
        cohort: Seq<Vec<N>>,
        config: StreamingConfig<N>,
        score_after: ScoreState<N>,
        pool_after: PoolView<N>,
        log_after: Seq<AutoLearnEvent<N>>,
    ) -> bool {
        exists|
            scores: Seq<ScoreState<N>>,
            pools: Seq<PoolView<N>>,
            events: Seq<Option<AutoLearnEvent<N>>>,
        |
            {
                &&& #[trigger] self.are_folded(
                    results,
                    before.speech@.speech_ms,
                    cohort,
                    config,
                    scores,
                    pools,
                    events,
                )
                &&& events.len() == results.len()
                &&& scores[0] == before.score
                &&& pools[0] == pool
                &&& scores.last() == score_after
                &&& pools.last() == pool_after
                &&& log_after == logged_all(log, events, events.len())
            }
    }

    /// The first results took the scores and pools from one to the next and left
    /// those events.
    pub open spec fn are_folded(
        &self,
        results: Seq<(usize, Vec<N>, N)>,
        speech_ms: N,
        cohort: Seq<Vec<N>>,
        config: StreamingConfig<N>,
        scores: Seq<ScoreState<N>>,
        pools: Seq<PoolView<N>>,
        events: Seq<Option<AutoLearnEvent<N>>>,
    ) -> bool {
        &&& scores.len() == events.len() + 1
        &&& pools.len() == events.len() + 1
        &&& forall|i: int|
            0 <= i < events.len() ==> is_pool_step(
                #[trigger] pools[i],
                results[i].1,
                true,
                pools[i + 1],
            )
        &&& !config.pipeline.enable_auto_learn ==> forall|i: int|
            0 <= i < events.len() ==> (#[trigger] events[i]) is None && pools[i + 1] == pools[i]
        &&& lawful::<N>() ==> forall|i: int|
            0 <= i < events.len() ==> is_refreshed(
                pools[i],
                scores[i],
                results[i].1,
                results[i].2,
                results[i].0,
                speech_ms,
                cohort,
                config.gate,
                config.pipeline.enable_auto_learn,
                true,
                config.pipeline.score_ema_alpha,
                self.eps,
                self.sqrt,
                self.exp,
                pools[i + 1],
                scores[i + 1],
                #[trigger] events[i],
            )
    }

    /// What [`Kit::drain_trailing_refreshes`] does.
    pub open spec fn is_drained(
        &self,
        before: StreamingState<N>,
        pool: PoolView<N>,
        out: OutputView<N>,
        cohort: Seq<Vec<N>>,
        config: StreamingConfig<N>,
        after: StreamingState<N>,
        pool_after: PoolView<N>,
        out_after: OutputView<N>,
    ) -> bool {
        &&& after == (StreamingState { score: after.score, channel: after.channel, ..before })
        &&& after.channel is Some <==> before.channel is Some
        &&& out_after == (OutputView { events: out_after.events, ..out })
        &&& match before.channel {
            None => after.score == before.score && pool_after == pool && out_after == out,
            Some(c) => exists|results: Seq<(usize, Vec<N>, N)>|
                {
                    &&& #[trigger] are_answers(c@, self.send, self.receive, results)
                    &&& after.channel matches Some(idle)
                    &&& idle@ == (ChannelView::<N> {
                        outstanding: 0,
                        pending: None,
                        frames: unanswered(c@.frames, results.len()),
                    })
                    &&& self.is_trailed(
                        results,
                        before,
                        pool,
                        out.events,
                        cohort,
                        config,
                        after.score,
                        pool_after,
                        out_after.events,
                    )
                },
        }
    }

    /// Waits for everything that the worker, if there is one, still works on and
    /// folds it in.
    pub fn drain_trailing_refreshes(
        &self,
        state: &mut StreamingState<N>,
        pool: &mut EmbeddingPool<N>,
        cohort: &Vec<Vec<N>>,
        config: &StreamingConfig<N>,
        out: &mut StreamingOutput<N>,
    ) -> (r: Result<(), PipelineError>)
        requires
            self.ready(),
            total::<N>(),
            old(state).sound(config.pipeline),
            old(pool).wf(),
            old(pool)@.uniform(EMBEDDING_DIM as nat),
            uniform(cohort@, EMBEDDING_DIM as nat),
        ensures
            r matches Err(e) ==> from_engine(e),
            final(state).sound(config.pipeline),
            old(state).wf(config.pipeline) ==> final(state).wf(config.pipeline),
            final(pool).wf(),
            final(pool)@.uniform(EMBEDDING_DIM as nat),
            is_spared(config.pipeline.enable_auto_learn, old(pool)@, final(pool)@),
            r is Ok && !config.pipeline.enable_auto_learn ==> final(out)@ == old(out)@,
            keeps_counts(*old(state), *final(state)),
            final(state).chain == old(state).chain,
            match r {
                Ok(_) => self.is_drained(
                    *old(state),
                    old(pool)@,
                    old(out)@,
                    cohort@,
                    *config,
                    *final(state),
                    final(pool)@,
                    final(out)@,
                ),
                Err(e) => {
                    &&& final(pool)@ == old(pool)@
                    &&& self.is_deserted(*old(state), *final(state), e)
                },
            },
    {
        let channel: Option<RefreshChannel<N>> = state.channel.take();
        match channel {
            None => {
                assert(*state == *old(state));
                Ok(())
            },
            Some(mut c) => {
                let ghost c0 = c@;
                let drained: Result<Vec<(usize, Vec<N>, N)>, EmbeddingError> = c.drain_blocking(
                    &self.send,
                    &self.receive,
                    self.lost.as_str(),
                );
                state.channel = Some(c);
                match drained {
                    Err(e) => Err(PipelineError::Embedding(e)),
                    Ok(results) => {
                        self.fold_all(state, pool, results, cohort, config, out);
                        assert(are_answers(c0, self.send, self.receive, results@));
                        Ok(())
                    },
                }
            },
        }
    }

    fn fold_all(
        &self,
        state: &mut StreamingState<N>,
        pool: &mut EmbeddingPool<N>,
        results: Vec<(usize, Vec<N>, N)>,
        cohort: &Vec<Vec<N>>,
        config: &StreamingConfig<N>,
        out: &mut StreamingOutput<N>,
    )
        requires
            self.ready(),
            total::<N>(),
            old(pool).wf(),
            old(pool)@.uniform(EMBEDDING_DIM as nat),
            uniform(cohort@, EMBEDDING_DIM as nat),
            forall|i: int|
                0 <= i < results@.len() ==> (#[trigger] results@[i]).1@.len() == EMBEDDING_DIM,
        ensures
            final(pool).wf(),
            final(pool)@.uniform(EMBEDDING_DIM as nat),
            is_spared(config.pipeline.enable_auto_learn, old(pool)@, final(pool)@),
            !config.pipeline.enable_auto_learn ==> final(out)@ == old(out)@,
            *final(state) == (StreamingState { score: final(state).score, ..*old(state) }),
            final(out)@ == (OutputView { events: final(out)@.events, ..old(out)@ }),
            self.is_trailed(
                results@,
                *old(state),
                old(pool)@,
                old(out)@.events,
                cohort@,
                *config,
                final(state).score,
                final(pool)@,
                final(out)@.events,
            ),
    {
        let ghost all = results@;
        let ghost mut scores: Seq<ScoreState<N>> = seq![state.score];
        let ghost mut pools: Seq<PoolView<N>> = seq![pool@];
        let ghost mut events: Seq<Option<AutoLearnEvent<N>>> = Seq::empty();
        let speech_ms: N = state.speech.consecutive_speech_ms();
        let mut left: Vec<(usize, Vec<N>, N)> = results;
        assert(left@ =~= all.skip(0));
        while left.len() > 0
            invariant
                self.ready(),
                total::<N>(),
                pool.wf(),
                pool@.uniform(EMBEDDING_DIM as nat),
                uniform(cohort@, EMBEDDING_DIM as nat),
                forall|i: int|
                    0 <= i < all.len() ==> (#[trigger] all[i]).1@.len() == EMBEDDING_DIM,
                speech_ms == old(state).speech@.speech_ms,
                events.len() <= all.len(),
                left@ == all.skip(events.len() as int),
                *state == (StreamingState { score: state.score, ..*old(state) }),
                out@ == (OutputView { events: out@.events, ..old(out)@ }),
                out@.events == logged_all(old(out)@.events, events, events.len()),
                scores.len() == events.len() + 1,
                pools.len() == events.len() + 1,
                scores[0] == old(state).score,
                pools[0] == old(pool)@,
                scores.last() == state.score,
                pools.last() == pool@,
                self.are_folded(all, speech_ms, cohort@, *config, scores, pools, events),
                is_spared(config.pipeline.enable_auto_learn, old(pool)@, pool@),
                !config.pipeline.enable_auto_learn ==> out@ == old(out)@,
            decreases left@.len(),
        {
            let ghost k = events.len() as int;
            let (frame_idx, emb, f0_mu): (usize, Vec<N>, N) = left.remove(0);
            assert((frame_idx, emb, f0_mu) == all[k]);
            let ghost candidate = emb;
            let ghost s0 = state.score;
            let ghost p0 = pool@;
            let event: Option<AutoLearnEvent<N>> = apply_refresh(
                emb,
                f0_mu,
                frame_idx,
                speech_ms,
                pool,
                cohort,
                &config.gate,
                config.pipeline.enable_auto_learn,
                true,
                config.pipeline.score_ema_alpha,
                self.eps,
                &self.sqrt,
                &self.exp,
                &mut state.score,
            );
            let ghost log0 = out@.events;
            log_event(&mut out.events, event);
            proof {
                let e0 = events;
                let sc0 = scores;
                let po0 = pools;
                events = events.push(event);
                scores = scores.push(state.score);
                pools = pools.push(pool@);
                lemma_logged_prefix(old(out)@.events, e0, events, e0.len());
                assert(out@.events == logged_all(old(out)@.events, events, events.len()));
                assert(out@ =~= (OutputView { events: out@.events, ..old(out)@ }));
                assert(left@ =~= all.skip(events.len() as int));
                assert forall|i: int| 0 <= i < events.len() implies is_pool_step(
                    #[trigger] pools[i],
                    all[i].1,
                    true,
                    pools[i + 1],
                ) by {
                    if i < k {
                        assert(pools[i] == po0[i] && pools[i + 1] == po0[i + 1]);
                    }
                }
                if !config.pipeline.enable_auto_learn {
                    assert forall|i: int| 0 <= i < events.len() implies (
                    #[trigger] events[i]) is None && pools[i + 1] == pools[i] by {
                        if i < k {
                            assert(events[i] == e0[i]);
                            assert(pools[i] == po0[i] && pools[i + 1] == po0[i + 1]);
                        }
                    }
                }
                if lawful::<N>() {
                    assert forall|i: int| 0 <= i < events.len() implies is_refreshed(
                        pools[i],
                        scores[i],
                        all[i].1,
                        all[i].2,
                        all[i].0,
                        speech_ms,
                        cohort@,
                        config.gate,
                        config.pipeline.enable_auto_learn,
                        true,
                        config.pipeline.score_ema_alpha,
                        self.eps,
                        self.sqrt,
                        self.exp,
                        pools[i + 1],
                        scores[i + 1],
                        #[trigger] events[i],
                    ) by {
                        if i < k {
                            assert(events[i] == e0[i]);
                            assert(pools[i] == po0[i] && pools[i + 1] == po0[i + 1]);
                            assert(scores[i] == sc0[i] && scores[i + 1] == sc0[i + 1]);
                        }
                    }
                }
            }
        }
        proof {
            assert(events.len() == all.len());
            assert(self.are_folded(
                all,
                old(state).speech@.speech_ms,
                cohort@,
                *config,
                scores,
                pools,
                events,
            ));
        }
    }

    proof fn lemma_folds_keep_voice(
        &self,
        results: Seq<(usize, Vec<N>, N)>,
        speech_ms: N,
        cohort: Seq<Vec<N>>,
        config: StreamingConfig<N>,
        scores: Seq<ScoreState<N>>,
        pools: Seq<PoolView<N>>,
        events: Seq<Option<AutoLearnEvent<N>>>,
        n: nat,
    )
        requires
            self.are_folded(results, speech_ms, cohort, config, scores, pools, events),
            n <= events.len(),
        ensures
            keeps_voice(pools[0], pools[n as int]),
        decreases n,
    {
        if n > 0 {
            let i = n - 1;
            self.lemma_folds_keep_voice(
                results,
                speech_ms,
                cohort,
                config,
                scores,
                pools,
                events,
                i as nat,
            );
            assert(is_pool_step(pools[i], results[i].1, true, pools[i + 1]));
        }
    }

    /// No result that comes in at the end takes an enrolled voice away or changes
    /// it.
    pub proof fn lemma_drain_keeps_voice(
        &self,
        before: StreamingState<N>,
        pool: PoolView<N>,
        out: OutputView<N>,
        cohort: Seq<Vec<N>>,
        config: StreamingConfig<N>,
        after: StreamingState<N>,
        pool_after: PoolView<N>,
        out_after: OutputView<N>,
    )
        requires
            self.is_drained(before, pool, out, cohort, config, after, pool_after, out_after),
        ensures
            keeps_voice(pool, pool_after),
    {
        if before.channel is Some {
            let c = before.channel->0;
            let results = choose|results: Seq<(usize, Vec<N>, N)>|
                {
                    &&& #[trigger] are_answers(c@, self.send, self.receive, results)
                    &&& self.is_trailed(
                        results,
                        before,
                        pool,
                        out.events,
                        cohort,
                        config,
                        after.score,
                        pool_after,
                        out_after.events,
                    )
                };
            let (scores, pools, events) = choose|
                scores: Seq<ScoreState<N>>,
                pools: Seq<PoolView<N>>,
                events: Seq<Option<AutoLearnEvent<N>>>,
            |
                {
                    &&& #[trigger] self.are_folded(
                        results,
                        before.speech@.speech_ms,
                        cohort,
                        config,
                        scores,
                        pools,
                        events,
                    )
                    &&& events.len() == results.len()
                    &&& scores[0] == before.score
                    &&& pools[0] == pool
                    &&& scores.last() == after.score
                    &&& pools.last() == pool_after
                    &&& out_after.events == logged_all(out.events, events, events.len())
                };
            self.lemma_folds_keep_voice(
                results,
                before.speech@.speech_ms,
                cohort,
                config,
                scores,
                pools,
                events,
                events.len(),
            );
        }
    }

    /// The ring with silence behind it, enough for one more frame; an empty ring
    /// gets none.
    pub open spec fn is_topped_up(&self, dual: bool, ring: Seq<N>, padded: Seq<N>) -> bool {
        if ring.len() == 0 {
            padded == ring
        } else {
            exists|n: usize|
                {
                    &&& #[trigger] self.needs(dual, n)
                    &&& if ring.len() >= n {
                        padded == ring
                    } else {
                        is_padded(ring, n as nat, padded)
                    }
                }
        }
    }

    /// How much of the silence behind the ring leaves the output again: all of
    /// it where the rates agree, where the output is as long as the input.
    pub open spec fn surplus(dual: bool, ring: Seq<N>, padded: Seq<N>) -> int {
        if dual {
            0
        } else {
            padded.len() - ring.len()
        }
    }

    /// What [`Kit::flush`] gives: the frames of what was left, padded with
    /// silence; then the results that were still out; then what the stages held
    /// back, without what became of the silence.
    pub open spec fn is_flushed(
        &self,
        dual: bool,
        start: Station<N>,
        end: Station<N>,
        out: OutputView<N>,
        cohort: Seq<Vec<N>>,
        config: StreamingConfig<N>,
    ) -> bool {
        exists|
            padded: Seq<N>,
            ran: Station<N>,
            ran_out: OutputView<N>,
            drained: StreamingState<N>,
            drained_out: OutputView<N>,
            whole: OutputView<N>,
        |
            {
                &&& self.is_topped_up(dual, start.ring, padded)
                &&& #[trigger] self.is_way(
                    dual,
                    Station { ring: padded, at: start.at },
                    ran,
                    ran_out,
                    cohort,
                    config,
                )
                &&& self.is_dry(dual, ran.ring)
                &&& #[trigger] self.is_drained(
                    ran.at.state,
                    ran.at.pool,
                    ran_out,
                    cohort,
                    config,
                    drained,
                    end.at.pool,
                    drained_out,
                )
                &&& end.ring == ran.ring
                &&& end.at.vad == ran.at.vad
                &&& end.at.state == (StreamingState { chain: end.at.state.chain, ..drained })
                &&& #[trigger] self.is_emptied(
                    drained.chain@,
                    drained_out,
                    end.at.state.chain@,
                    whole,
                )
                &&& out == (OutputView {
                    audio: shortened(whole.audio, Self::surplus(dual, start.ring, padded)),
                    ..whole
                })
            }
    }

    /// A flush takes no enrolled voice away and changes none.
    pub proof fn lemma_flush_keeps_voice(
        &self,
        dual: bool,
        start: Station<N>,
        end: Station<N>,
        out: OutputView<N>,
        cohort: Seq<Vec<N>>,
        config: StreamingConfig<N>,
    )
        requires
            self.is_flushed(dual, start, end, out, cohort, config),
        ensures
            keeps_voice(start.at.pool, end.at.pool),
    {
        let (padded, ran, ran_out, drained, drained_out, whole) = choose|
            padded: Seq<N>,
            ran: Station<N>,
            ran_out: OutputView<N>,
            drained: StreamingState<N>,
            drained_out: OutputView<N>,
            whole: OutputView<N>,
        |
            {
                &&& self.is_topped_up(dual, start.ring, padded)
                &&& #[trigger] self.is_way(
                    dual,
                    Station { ring: padded, at: start.at },
                    ran,
                    ran_out,
                    cohort,
                    config,
                )
                &&& self.is_dry(dual, ran.ring)
                &&& #[trigger] self.is_drained(
                    ran.at.state,
                    ran.at.pool,
                    ran_out,
                    cohort,
                    config,
                    drained,
                    end.at.pool,
                    drained_out,
                )
                &&& #[trigger] self.is_emptied(
                    drained.chain@,
                    drained_out,
                    end.at.state.chain@,
                    whole,
                )
            };
        self.lemma_way_keeps_voice(
            dual,
            Station { ring: padded, at: start.at },
            ran,
            ran_out,
            cohort,
            config,
        );
        self.lemma_drain_keeps_voice(
            ran.at.state,
            ran.at.pool,
            ran_out,
            cohort,
            config,
            drained,
            end.at.pool,
            drained_out,
        );
    }

    /// A flush of an engine that has nothing left gives nothing and changes
    /// nothing.
    pub proof fn lemma_flush_of_nothing(
        &self,
        dual: bool,
        start: Station<N>,
        end: Station<N>,
        out: OutputView<N>,
        cohort: Seq<Vec<N>>,
        config: StreamingConfig<N>,
    )
        requires
            self.ready(),
            start.ring.len() == 0,
            start.at.state.chain@.gains.len() == 0,
            start.at.state.channel matches Some(c) ==> c@.outstanding == 0 && c@.pending is None,
            self.is_flushed(dual, start, end, out, cohort, config),
        ensures
            out == no_output::<N>(),
            end.ring == start.ring,
            end.at.vad == start.at.vad,
            end.at.pool == start.at.pool,
            end.at.state.score == start.at.state.score,
            end.at.state.chain@ == start.at.state.chain@,
    {
        let (padded, ran, ran_out, drained, drained_out, whole) = choose|
            padded: Seq<N>,
            ran: Station<N>,
            ran_out: OutputView<N>,
            drained: StreamingState<N>,
            drained_out: OutputView<N>,
            whole: OutputView<N>,
        |
            {
                &&& self.is_topped_up(dual, start.ring, padded)
                &&& #[trigger] self.is_way(
                    dual,
                    Station { ring: padded, at: start.at },
                    ran,
                    ran_out,
                    cohort,
                    config,
                )
                &&& self.is_dry(dual, ran.ring)
                &&& #[trigger] self.is_drained(
                    ran.at.state,
                    ran.at.pool,
                    ran_out,
                    cohort,
                    config,
                    drained,
                    end.at.pool,
                    drained_out,
                )
                &&& end.ring == ran.ring
                &&& end.at.vad == ran.at.vad
                &&& end.at.state == (StreamingState { chain: end.at.state.chain, ..drained })
                &&& #[trigger] self.is_emptied(
                    drained.chain@,
                    drained_out,
                    end.at.state.chain@,
                    whole,
                )
                &&& out == (OutputView {
                    audio: shortened(whole.audio, Self::surplus(dual, start.ring, padded)),
                    ..whole
                })
            };
        let begin = Station { ring: padded, at: start.at };
        let (stations, deltas) = choose|s: Seq<Station<N>>, d: Seq<OutputView<N>>|
            {
                &&& #[trigger] self.is_run(dual, s, d, cohort, config)
                &&& s[0] == begin
                &&& s.last() == ran
                &&& ran_out == outputs(d, d.len())
            };
        if deltas.len() > 0 {
            assert(self.is_turned(dual, stations[0], stations[1], deltas[0], cohort, config));
        }
        assert(ran == begin && ran_out == no_output::<N>());
        assert(drained_out =~= ran_out);
        assert(out.audio =~= Seq::<N>::empty());
    }

    /// What the stages held back was put behind the output.
    pub open spec fn is_emptied(
        &self,
        before: ChainView<N>,
        out: OutputView<N>,
        after: ChainView<N>,
        out_after: OutputView<N>,
    ) -> bool {
        if before.gains.len() == 0 {
            after == before && out_after == out
        } else {
            &&& after.held_back() == 0
            &&& after == (ChainView {
                tse: after.tse,
                dfn3: after.dfn3,
                gains: Seq::empty(),
                raws: Seq::empty(),
                ..before
            })
            &&& out_after == (OutputView {
                audio: out_after.audio,
                tse_applied: before.tse is Some,
                ..out
            })
            &&& exists|tail: Seq<N>|
                {
                    let n = lesser(tail.len(), before.gains.len());
                    &&& #[trigger] is_tail(
                        before.stages(),
                        self.extract,
                        self.enhance,
                        after.stages(),
                        tail,
                    )
                    &&& out_after.audio.len() == out.audio.len() + n
                    &&& out_after.audio.take(out.audio.len() as int) == out.audio
                    &&& lawful::<N>() ==> out_after.audio.skip(out.audio.len() as int)
                        == scaled_by(tail.take(n as int), before.gains)
                }
        }
    }

    /// A stream could not be ended: a frame failed, the worker was lost, or a
    /// stage failed on what it held back.
    pub open spec fn is_flush_failure(
        &self,
        dual: bool,
        start: Station<N>,
        end: Station<N>,
        cohort: Seq<Vec<N>>,
        config: StreamingConfig<N>,
        e: PipelineError,
    ) -> bool {
        ||| exists|padded: Seq<N>| #[trigger]
            self.is_topped_up(dual, start.ring, padded) && self.is_dead_end(
                dual,
                Station { ring: padded, at: start.at },
                end,
                cohort,
                config,
                e,
            )
        ||| exists|ran: Station<N>, out: OutputView<N>|
            {
                &&& #[trigger] self.is_run_dry(dual, start, ran, out, cohort, config)
                &&& end.ring == ran.ring
                &&& end.at.vad == ran.at.vad
                &&& {
                    ||| end.at.pool == ran.at.pool && self.is_deserted(
                        ran.at.state,
                        end.at.state,
                        e,
                    )
                    ||| self.is_left_full(ran, out, end, cohort, config, e)
                }
            }
    }

    /// The results that were still out were folded in, and then a stage failed while
    /// the chain was emptied.
    pub open spec fn is_left_full(
        &self,
        ran: Station<N>,
        out: OutputView<N>,
        end: Station<N>,
        cohort: Seq<Vec<N>>,
        config: StreamingConfig<N>,
        e: PipelineError,
    ) -> bool {
        exists|drained: StreamingState<N>, drained_out: OutputView<N>|
            {
                &&& #[trigger] self.is_drained(
                    ran.at.state,
                    ran.at.pool,
                    out,
                    cohort,
                    config,
                    drained,
                    end.at.pool,
                    drained_out,
                )
                &&& end.at.state == (StreamingState { chain: end.at.state.chain, ..drained })
                &&& self.fails_to_empty(drained.chain@, end.at.state.chain@, e)
            }
    }

    /// The frames of what was left, padded with silence, were run.
    pub open spec fn is_run_dry(
        &self,
        dual: bool,
        start: Station<N>,
        ran: Station<N>,
        out: OutputView<N>,
        cohort: Seq<Vec<N>>,
        config: StreamingConfig<N>,
    ) -> bool {
        exists|padded: Seq<N>|
            {
                &&& self.is_topped_up(dual, start.ring, padded)
                &&& #[trigger] self.is_way(
                    dual,
                    Station { ring: padded, at: start.at },
                    ran,
                    out,
                    cohort,
                    config,
                )
                &&& self.is_dry(dual, ran.ring)
            }
    }

    /// There is a worker, and it is lost, at once or behind a first result, which is
    /// lost with it.
    pub open spec fn is_deserted(
        &self,
        before: StreamingState<N>,
        after: StreamingState<N>,
        e: PipelineError,
    ) -> bool {
        &&& before.channel matches Some(c)
        &&& after.channel matches Some(d)
        &&& after == (StreamingState { channel: after.channel, ..before })
        &&& d@ == c@ || is_answered(c@, self.send, d@)
        &&& e matches PipelineError::Embedding(cause)
        &&& is_lost(self.receive, self.lost@, cause)
    }

    /// A stage fails while that chain is emptied. Its queues stay as they are.
    pub open spec fn fails_to_empty(
        &self,
        before: ChainView<N>,
        after: ChainView<N>,
        e: PipelineError,
    ) -> bool {
        &&& before.gains.len() > 0
        &&& after == (ChainView { tse: after.tse, dfn3: after.dfn3, ..before })
        &&& is_tail_failure(before.stages(), self.extract, self.enhance, after.stages(), e)
    }

    /// Ends a stream: one more frame from what is left, padded with silence, the
    /// results that are still out, and what the stages hold back. Where the rates
    /// agree the silence is taken off again.
    #[verifier::rlimit(50)]
    #[verifier::spinoff_prover]
    pub fn flush(
        &self,
        intake: &mut Intake<N>,
        state: &mut StreamingState<N>,
        vad: &mut SileroVad<N>,
        pool: &mut EmbeddingPool<N>,
        cohort: &Vec<Vec<N>>,
        config: &StreamingConfig<N>,
    ) -> (r: Result<StreamingOutput<N>, PipelineError>)
        requires
            self.ready(),
            total::<N>(),
            old(state).sound(config.pipeline),
            old(state).room(
                frames_at_most(old(intake).dual_rate, old(intake).audio_ring@.len()),
            ),
            old(state).audio_samples_emitted + old(intake).audio_ring@.len() <= usize::MAX,
            forall|n: usize| #[trigger]
                self.needs(old(intake).dual_rate, n) ==> {
                    &&& old(state).room(
                        frames_at_most(
                            old(intake).dual_rate,
                            old(intake).audio_ring@.len() + n as nat,
                        ),
                    )
                    &&& old(state).audio_samples_emitted + old(intake).audio_ring@.len() + n
                        <= usize::MAX
                },
            old(vad).wf(),
            old(pool).wf(),
            old(pool)@.uniform(EMBEDDING_DIM as nat),
            uniform(cohort@, EMBEDDING_DIM as nat),
        ensures
            r matches Err(e) ==> from_engine(e),
            final(intake).dual_rate == old(intake).dual_rate,
            final(state).sound(config.pipeline),
            final(vad).wf(),
            final(pool).wf(),
            final(pool)@.uniform(EMBEDDING_DIM as nat),
            is_spared(config.pipeline.enable_auto_learn, old(pool)@, final(pool)@),
            match r {
                Ok(out) => {
                    &&& old(state).wf(config.pipeline) ==> final(state).wf(config.pipeline)
                        && final(state).chain@.held_back() == 0
                    &&& is_record_of(
                        out@,
                        final(state).frame_idx - old(state).frame_idx,
                        config.diagnostics,
                    )
                    &&& !config.pipeline.enable_auto_learn ==> out@.events.len() == 0
                    &&& !old(intake).dual_rate && self.is_dry(
                        old(intake).dual_rate,
                        old(intake).audio_ring@,
                    ) ==> final(intake).audio_ring@.len() == 0 && final(state).frame_idx == old(
                        state).frame_idx + (if old(intake).audio_ring@.len() > 0 {
                        1nat
                    } else {
                        0nat
                    })
                    &&& in_turn(
                        out@.gate_decisions,
                        old(state).audio_samples_emitted,
                        final(state).audio_samples_emitted,
                    )
                    &&& old(state).wf(config.pipeline) && !old(intake).dual_rate && !old(
                        state).chain@.adaptive() && self.is_dry(
                        old(intake).dual_rate,
                        old(intake).audio_ring@,
                    ) ==> out@.audio.len() == old(state).chain@.held_back() + old(
                        intake).audio_ring@.len()
                    &&& exists|n: usize| #[trigger]
                        self.needs(old(intake).dual_rate, n) && final(state).audio_samples_emitted
                            <= old(state).audio_samples_emitted + old(intake).audio_ring@.len() + n
                    &&& self.is_flushed(
                        old(intake).dual_rate,
                        Station {
                            ring: old(intake).audio_ring@,
                            at: Moment { state: *old(state), vad: old(vad)@, pool: old(pool)@ },
                        },
                        Station {
                            ring: final(intake).audio_ring@,
                            at: Moment {
                                state: *final(state),
                                vad: final(vad)@,
                                pool: final(pool)@,
                            },
                        },
                        out@,
                        cohort@,
                        *config,
                    )
                },
                Err(e) => self.is_flush_failure(
                    old(intake).dual_rate,
                    Station {
                        ring: old(intake).audio_ring@,
                        at: Moment { state: *old(state), vad: old(vad)@, pool: old(pool)@ },
                    },
                    Station {
                        ring: final(intake).audio_ring@,
                        at: Moment { state: *final(state), vad: final(vad)@, pool: final(pool)@ },
                    },
                    cohort@,
                    *config,
                    e,
                ),
            },
    {
        let ghost dual = intake.dual_rate;
        let ghost ring0 = intake.audio_ring@;
        let ghost m0 = Moment { state: *state, vad: vad@, pool: pool@ };
        let mut surplus: usize = 0;
        if intake.audio_ring.len() > 0 {
            let n: usize = self.input_per_frame(intake.dual_rate);
            if intake.audio_ring.len() < n {
                let zero: N = N::from(0u16);
                let pad: usize = n - intake.audio_ring.len();
                extend_with(&mut intake.audio_ring, zero, pad);
                if !intake.dual_rate {
                    surplus = pad;
                }
                assert(intake.audio_ring@.take(ring0.len() as int) =~= ring0);
                assert(is_padded(ring0, n as nat, intake.audio_ring@));
            }
            assert(self.needs(dual, n));
            assert(self.is_topped_up(dual, ring0, intake.audio_ring@));
            assert(state.room(frames_at_most(dual, ring0.len() + n as nat)));
        }
        let ghost padded = intake.audio_ring@;
        assert(surplus == Self::surplus(dual, ring0, padded));
        let mut out: StreamingOutput<N> = match self.run_frames(
            intake,
            state,
            vad,
            pool,
            cohort,
            config,
        ) {
            Err(e) => {
                proof {
                    let start = Station { ring: ring0, at: m0 };
                    let end = Station {
                        ring: intake.audio_ring@,
                        at: Moment { state: *state, vad: vad@, pool: pool@ },
                    };
                    assert(self.is_topped_up(dual, start.ring, padded));
                    assert(self.is_dead_end(
                        dual,
                        Station { ring: padded, at: start.at },
                        end,
                        cohort@,
                        *config,
                        e,
                    ));
                    assert(self.is_flush_failure(dual, start, end, cohort@, *config, e));
                }
                return Err(e);
            },
            Ok(o) => o,
        };
        let ghost ran = Station {
            ring: intake.audio_ring@,
            at: Moment { state: *state, vad: vad@, pool: pool@ },
        };
        let ghost ran_out = out@;
        assert(self.is_way(
            dual,
            Station { ring: padded, at: m0 },
            ran,
            ran_out,
            cohort@,
            *config,
        ));
        let trailing: Result<(), PipelineError> = self.drain_trailing_refreshes(
            state,
            pool,
            cohort,
            config,
            &mut out,
        );
        if let Err(e) = trailing {
            proof {
                let start = Station { ring: ring0, at: m0 };
                assert(self.is_run_dry(dual, start, ran, ran_out, cohort@, *config));
                assert(self.is_deserted(ran.at.state, *state, e));
            }
            return Err(e);
        }
        let ghost drained = *state;
        let ghost drained_out = out@;
        proof {
            if state.chain.wf() {
                state.chain.lemma_balanced();
            }
        }
        let emptied: Result<(), PipelineError> = self.empty(&mut state.chain, &mut out);
        if let Err(e) = emptied {
            proof {
                let start = Station { ring: ring0, at: m0 };
                assert(self.is_run_dry(dual, start, ran, ran_out, cohort@, *config));
                let end = Station {
                    ring: intake.audio_ring@,
                    at: Moment { state: *state, vad: vad@, pool: pool@ },
                };
                assert(self.is_drained(
                    ran.at.state,
                    ran.at.pool,
                    ran_out,
                    cohort@,
                    *config,
                    drained,
                    end.at.pool,
                    drained_out,
                ));
                assert(self.is_left_full(ran, ran_out, end, cohort@, *config, e));
            }
            return Err(e);
        }
        let ghost whole = out@;
        let kept: usize = out.audio.len().saturating_sub(surplus);
        out.audio.truncate(kept);
        proof {
            assert(out@.audio =~= shortened(whole.audio, surplus as int));
            assert(out@ =~= (OutputView { audio: out@.audio, ..whole }));
            if state.chain.wf() {
                state.chain.lemma_balanced();
            }
            let start = Station { ring: ring0, at: m0 };
            let end = Station {
                ring: intake.audio_ring@,
                at: Moment { state: *state, vad: vad@, pool: pool@ },
            };
            assert(self.is_topped_up(dual, start.ring, padded));
            assert(self.is_way(
                dual,
                Station { ring: padded, at: start.at },
                ran,
                ran_out,
                cohort@,
                *config,
            ));
            assert(self.is_drained(
                ran.at.state,
                ran.at.pool,
                ran_out,
                cohort@,
                *config,
                drained,
                end.at.pool,
                drained_out,
            ));
            assert(end.at.state == (StreamingState { chain: end.at.state.chain, ..drained }));
            assert(self.is_emptied(drained.chain@, drained_out, end.at.state.chain@, whole));
            assert(self.is_flushed(dual, start, end, out@, cohort@, *config));
        }
        Ok(out)
    }

    /// Empties the stages behind the output.
    fn empty(&self, chain: &mut Chain<N>, out: &mut StreamingOutput<N>) -> (r: Result<
        (),
        PipelineError,
    >)
        requires
            self.ready(),
            total::<N>(),
            old(chain).sound(),
        ensures
            r matches Err(e) ==> from_engine(e),
            final(chain).sound(),
            r is Ok ==> self.is_emptied(old(chain)@, old(out)@, final(chain)@, final(out)@),
            r is Ok && old(chain).wf() ==> {
                &&& final(chain).wf()
                &&& final(chain)@.held_back() == 0
                &&& final(out)@.audio.len() == old(out)@.audio.len() + old(chain)@.gains.len()
            },
            r matches Err(e) ==> self.fails_to_empty(old(chain)@, final(chain)@, e),
    {
        let ghost c0 = chain@;
        let ghost o0 = out@;
        proof {
            if chain.wf() {
                chain.lemma_balanced();
            }
        }
        let has_tse: bool = chain.has_tse();
        match chain.drain_tail(&self.extract, &self.enhance) {
            Err(e) => Err(e),
            Ok(None) => Ok(()),
            Ok(Some(v)) => {
                append_samples(&mut out.audio, v.as_slice(), 0, v.len());
                out.tse_applied = has_tse;
                proof {
                    assert(v@.subrange(0, v@.len() as int) =~= v@);
                    assert(out@.audio =~= o0.audio + v@);
                    assert(out@.audio.take(o0.audio.len() as int) =~= o0.audio);
                    assert(out@.audio.skip(o0.audio.len() as int) =~= v@);
                    let tail = choose|tail: Seq<N>|
                        {
                            &&& #[trigger] is_tail(
                                c0.stages(),
                                self.extract,
                                self.enhance,
                                chain@.stages(),
                                tail,
                            )
                            &&& v@.len() == lesser(tail.len(), c0.gains.len())
                            &&& lawful::<N>() ==> forall|i: int|
                                0 <= i < v@.len() ==> #[trigger] v@[i] == tail[i].mul_spec(
                                    c0.gains[i],
                                )
                        };
                    if lawful::<N>() {
                        assert(v@ =~= scaled_by(tail.take(v@.len() as int), c0.gains));
                    }
                    assert(is_tail(
                        c0.stages(),
                        self.extract,
                        self.enhance,
                        chain@.stages(),
                        tail,
                    ));
                }
                Ok(())
            },
        }
    }
}

/// What a decision adds to the log: an entry, if it is another than the one before.
pub open spec fn changed(before: Option<bool>, at: usize, on: bool) -> Seq<(usize, bool)> {
    if before == Some(on) {
        Seq::empty()
    } else {
        seq![(at, on)]
    }
}

/// The last of the first `n` decisions, or the one before them.
pub open spec fn last_flag(before: Option<bool>, flags: Seq<bool>, n: nat) -> Option<bool> {
    if n == 0 {
        before
    } else {
        Some(flags[n - 1])
    }
}

/// The log of the first `n` decisions, one for each frame: an entry for each frame
/// whose decision is another than the one before.
pub open spec fn gate_log(
    before: Option<bool>,
    starts: Seq<usize>,
    flags: Seq<bool>,
    n: nat,
) -> Seq<(usize, bool)>
    decreases n,
{
    if n == 0 {
        Seq::empty()
    } else {
        gate_log(before, starts, flags, (n - 1) as nat) + changed(
            last_flag(before, flags, (n - 1) as nat),
            starts[n - 1],
            flags[n - 1],
        )
    }
}

/// The samples at which the frames of a run start, and the one behind the last.
pub open spec fn starts_of<N>(stations: Seq<Station<N>>) -> Seq<usize> {
    stations.map_values(|s: Station<N>| s.at.state.audio_samples_emitted)
}

proof fn lemma_gate_log_prefix(
    before: Option<bool>,
    starts: Seq<usize>,
    a: Seq<bool>,
    b: Seq<bool>,
    n: nat,
)
    requires
        n <= a.len(),
        n <= b.len(),
        forall|i: int| 0 <= i < n ==> a[i] == b[i],
    ensures
        gate_log(before, starts, a, n) == gate_log(before, starts, b, n),
    decreases n,
{
    if n > 0 {
        lemma_gate_log_prefix(before, starts, a, b, (n - 1) as nat);
    }
}

/// Flags alternate in the log of decisions: the first entry is another than the
/// decision before, each further one another than the entry before it, and the last
/// one is the last decision.
pub proof fn lemma_flags_alternate(
    before: Option<bool>,
    starts: Seq<usize>,
    flags: Seq<bool>,
    n: nat,
)
    requires
        n <= flags.len(),
    ensures
        ({
            let log = gate_log(before, starts, flags, n);
            &&& log.len() > 0 ==> before != Some(log[0].1)
            &&& forall|i: int| 0 < i < log.len() ==> (#[trigger] log[i]).1 != log[i - 1].1
            &&& last_flag(before, flags, n) == if log.len() > 0 {
                Some(log.last().1)
            } else {
                before
            }
        }),
    decreases n,
{
    if n > 0 {
        lemma_flags_alternate(before, starts, flags, (n - 1) as nat);
    }
}

/// Entries of the log of decisions are in the order of their samples.
proof fn lemma_log_in_order(
    before: Option<bool>,
    starts: Seq<usize>,
    flags: Seq<bool>,
    n: nat,
)
    requires
        n <= flags.len(),
        n < starts.len(),
        forall|i: int, j: int| 0 <= i < j <= n ==> #[trigger] starts[i] < #[trigger] starts[j],
    ensures
        strictly_ordered(gate_log(before, starts, flags, n)),
        forall|i: int|
            0 <= i < gate_log(before, starts, flags, n).len() ==> (#[trigger] gate_log(
                before,
                starts,
                flags,
                n,
            )[i]).0 < starts[n as int],
    decreases n,
{
    if n > 0 {
        lemma_log_in_order(before, starts, flags, (n - 1) as nat);
        assert(starts[n - 1] < starts[n as int]);
    }
}

/// The log with the first `n` events appended.
pub open spec fn logged_all<N>(
    log: Seq<AutoLearnEvent<N>>,
    events: Seq<Option<AutoLearnEvent<N>>>,
    n: nat,
) -> Seq<AutoLearnEvent<N>>
    decreases n,
{
    if n == 0 {
        log
    } else {
        logged(logged_all(log, events, (n - 1) as nat), events[n - 1])
    }
}

proof fn lemma_logged_prefix<N>(
    log: Seq<AutoLearnEvent<N>>,
    a: Seq<Option<AutoLearnEvent<N>>>,
    b: Seq<Option<AutoLearnEvent<N>>>,
    n: nat,
)
    requires
        n <= a.len(),
        n <= b.len(),
        forall|i: int| 0 <= i < n ==> a[i] == b[i],
    ensures
        logged_all(log, a, n) == logged_all(log, b, n),
    decreases n,
{
    if n > 0 {
        lemma_logged_prefix(log, a, b, (n - 1) as nat);
    }
}

} // verus!
