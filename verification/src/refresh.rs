//! Refreshes on a worker: at most one window is being worked on and at most one
//! waits; results come back in the order of the frames that asked for them.
use crate::embedding::EmbeddingError;
use std::collections::VecDeque;
use vstd::prelude::*;

verus! {

/// What asking the worker for a result gives.
pub enum Received<N> {
    /// An embedding with its mean pitch, or the error that came instead.
    Ready(Result<(Vec<N>, N), EmbeddingError>),
    /// Nothing yet.
    Empty,
    /// The worker is gone.
    Disconnected,
}

/// The bookkeeping of a channel.
pub struct ChannelView<N> {
    pub outstanding: nat,
    pub pending: Option<Seq<N>>,
    pub frames: Seq<usize>,
}

/// Bookkeeping of the refreshes handed to a worker.
pub struct RefreshChannel<N> {
    outstanding: u32,
    pending: Option<Vec<N>>,
    refresh_frame_indices: VecDeque<usize>,
}

impl<N> View for RefreshChannel<N> {
    type V = ChannelView<N>;

    closed spec fn view(&self) -> ChannelView<N> {
        ChannelView {
            outstanding: self.outstanding as nat,
            pending: match self.pending {
                Some(w) => Some(w@),
                None => None,
            },
            frames: self.refresh_frame_indices@,
        }
    }
}

/// A window was offered to the worker, which took it or not.
pub open spec fn offered<N, S: Fn(Vec<N>) -> bool>(window: Seq<N>, send: S, taken: bool) -> bool {
    exists|w: Vec<N>| w@ == window && #[trigger] call_ensures(send, (w,), taken)
}

/// The channel after a window was submitted for a frame: an idle worker is
/// offered the window at once, a busy one leaves it waiting. A window that waited
/// before gives way, and its frame with it.
pub open spec fn is_submitted<N, S: Fn(Vec<N>) -> bool>(
    before: ChannelView<N>,
    window: Seq<N>,
    frame_idx: usize,
    send: S,
    after: ChannelView<N>,
) -> bool {
    &&& after.frames == if before.pending is Some {
        before.frames.drop_last().push(frame_idx)
    } else {
        before.frames.push(frame_idx)
    }
    &&& if before.outstanding == 0 {
        exists|taken: bool| #[trigger]
            offered(window, send, taken) && after.outstanding == (if taken {
                1nat
            } else {
                0nat
            }) && after.pending == before.pending
    } else {
        after.outstanding == before.outstanding && after.pending == Some(window)
    }
}

/// The channel after a result: the oldest frame is answered, and a waiting
/// window is offered to the worker.
pub open spec fn is_answered<N, S: Fn(Vec<N>) -> bool>(
    before: ChannelView<N>,
    send: S,
    after: ChannelView<N>,
) -> bool {
    &&& after.frames == if before.frames.len() > 0 {
        before.frames.drop_first()
    } else {
        before.frames
    }
    &&& after.pending is None
    &&& match before.pending {
        None => after.outstanding == before.outstanding - 1,
        Some(window) => exists|taken: bool| #[trigger]
            offered(window, send, taken) && after.outstanding == (if taken {
                1nat
            } else {
                (before.outstanding - 1) as nat
            }),
    }
}

/// How many results everything that is out gives: one for each window, and one for
/// the waiting window if the worker takes it.
pub open spec fn is_tally<N, S: Fn(Vec<N>) -> bool>(
    c: ChannelView<N>,
    send: S,
    n: nat,
) -> bool {
    match c.pending {
        None => n == c.outstanding,
        Some(window) => exists|taken: bool| #[trigger]
            offered(window, send, taken) && n == c.outstanding + (if taken {
                1nat
            } else {
                0nat
            }),
    }
}

/// What waiting for everything that is out gives: a result for each window, in
/// order, with the frame that asked for it.
pub open spec fn are_answers<N, S: Fn(Vec<N>) -> bool, R: Fn(bool) -> Received<N>>(
    c: ChannelView<N>,
    send: S,
    receive: R,
    results: Seq<(usize, Vec<N>, N)>,
) -> bool {
    &&& is_tally(c, send, results.len())
    &&& forall|i: int|
        #![trigger results[i]]
        0 <= i < results.len() ==> results[i].0 == (if i < c.frames.len() {
            c.frames[i]
        } else {
            0
        }) && call_ensures(
            receive,
            (true,),
            Received::Ready(Ok((results[i].1, results[i].2))),
        )
}

/// The frames on record once `n` of them were answered.
pub open spec fn unanswered(frames: Seq<usize>, n: nat) -> Seq<usize> {
    if n < frames.len() {
        frames.skip(n as int)
    } else {
        Seq::empty()
    }
}

/// The worker sent an error in place of a result, or nothing any more.
pub open spec fn is_lost<N, R: Fn(bool) -> Received<N>>(
    receive: R,
    lost: Seq<char>,
    e: EmbeddingError,
) -> bool {
    exists|got: Received<N>|
        {
            &&& #[trigger] call_ensures(receive, (true,), got)
            &&& match got {
                Received::Ready(Err(cause)) => e == cause,
                Received::Ready(Ok(_)) => false,
                _ => e matches EmbeddingError::Ort(m) && m@ == lost,
            }
        }
}

/// The frame that the next result answers; zero when none is on record.
pub open spec fn next_frame<N>(c: ChannelView<N>) -> usize {
    if c.frames.len() > 0 {
        c.frames[0]
    } else {
        0
    }
}

impl<N> RefreshChannel<N> {
    /// At most one window is out, one waits only behind another, and the frames of
    /// both are on record.
    pub open spec fn wf(&self) -> bool {
        &&& self@.outstanding <= 1
        &&& self@.pending is Some ==> self@.outstanding == 1
        &&& self@.frames.len() >= self@.outstanding + (if self@.pending is Some {
            1nat
        } else {
            0nat
        })
    }

    /// An idle channel.
    pub fn new() -> (r: Self)
        ensures
            r.wf(),
            r@.outstanding == 0,
            r@.pending is None,
            r@.frames.len() == 0,
    {
        RefreshChannel {
            outstanding: 0,
            pending: None,
            refresh_frame_indices: VecDeque::new(),
        }
    }

    /// Submits a window for a frame.
    pub fn submit<S: Fn(Vec<N>) -> bool>(&mut self, window: Vec<N>, frame_idx: usize, send: &S)
        requires
            old(self).wf(),
            forall|w: Vec<N>| call_requires(*send, (w,)),
        ensures
            final(self).wf(),
            is_submitted(old(self)@, window@, frame_idx, *send, final(self)@),
    {
        if self.pending.is_some() {
            let _ = self.refresh_frame_indices.pop_back();
        }
        self.refresh_frame_indices.push_back(frame_idx);
        if self.outstanding == 0 {
            let ghost w = window@;
            let taken: bool = send(window);
            assert(offered(w, *send, taken));
            if taken {
                self.outstanding = 1;
            }
        } else {
            self.pending = Some(window);
        }
    }

    fn answer<S: Fn(Vec<N>) -> bool>(&mut self, send: &S) -> (frame_idx: usize)
        requires
            old(self).wf(),
            old(self)@.outstanding == 1,
            forall|w: Vec<N>| call_requires(*send, (w,)),
        ensures
            final(self).wf(),
            frame_idx == next_frame(old(self)@),
            is_answered(old(self)@, *send, final(self)@),
    {
        let frame_idx: usize = match self.refresh_frame_indices.pop_front() {
            Some(f) => f,
            None => 0,
        };
        self.outstanding = self.outstanding - 1;
        let waiting: Option<Vec<N>> = self.pending.take();
        assert(waiting == old(self).pending);
        if let Some(next) = waiting {
            let ghost w = next@;
            let taken: bool = send(next);
            assert(old(self)@.pending == Some(w));
            assert(offered(old(self)@.pending->0, *send, taken));
            if taken {
                self.outstanding = 1;
            }
        }
        assert(self@.frames =~= if old(self)@.frames.len() > 0 {
            old(self)@.frames.drop_first()
        } else {
            old(self)@.frames
        });
        frame_idx
    }

    /// Asks for a result, `receive` being told not to wait: the frame it answers,
    /// the embedding and its mean pitch. Nothing is asked while nothing is out.
    pub fn try_recv_result<S: Fn(Vec<N>) -> bool, R: Fn(bool) -> Received<N>>(
        &mut self,
        send: &S,
        receive: &R,
        lost: &str,
    ) -> (r: Result<Option<(usize, Vec<N>, N)>, EmbeddingError>)
        requires
            old(self).wf(),
            forall|w: Vec<N>| call_requires(*send, (w,)),
            forall|wait: bool| call_requires(*receive, (wait,)),
        ensures
            final(self).wf(),
            old(self)@.outstanding == 0 ==> final(self)@ == old(self)@ && r == Ok::<
                Option<(usize, Vec<N>, N)>,
                EmbeddingError,
            >(None),
            old(self)@.outstanding > 0 ==> exists|got: Received<N>|
                {
                    &&& #[trigger] call_ensures(*receive, (false,), got)
                    &&& match got {
                        Received::Ready(Ok((emb, f0_mu))) => {
                            &&& r == Ok::<Option<(usize, Vec<N>, N)>, EmbeddingError>(
                                Some((next_frame(old(self)@), emb, f0_mu)),
                            )
                            &&& is_answered(old(self)@, *send, final(self)@)
                        },
                        Received::Ready(Err(e)) => {
                            &&& r == Err::<Option<(usize, Vec<N>, N)>, EmbeddingError>(e)
                            &&& final(self)@ == old(self)@
                        },
                        Received::Empty => {
                            &&& r == Ok::<Option<(usize, Vec<N>, N)>, EmbeddingError>(None)
                            &&& final(self)@ == old(self)@
                        },
                        Received::Disconnected => {
                            &&& r matches Err(EmbeddingError::Ort(m)) && m@ == lost@
                            &&& final(self)@ == old(self)@
                        },
                    }
                },
    {
        if self.outstanding == 0 {
            return Ok(None);
        }
        let got: Received<N> = receive(false);
        match got {
            Received::Ready(Ok((emb, f0_mu))) => {
                let frame_idx: usize = self.answer(send);
                Ok(Some((frame_idx, emb, f0_mu)))
            },
            Received::Ready(Err(e)) => Err(e),
            Received::Empty => Ok(None),
            Received::Disconnected => Err(EmbeddingError::Ort(lost.to_owned())),
        }
    }

    /// Waits for every result that is still out, in order: `receive` is told to
    /// wait. A worker that is gone, or an error in place of a result, ends it.
    pub fn drain_blocking<S: Fn(Vec<N>) -> bool, R: Fn(bool) -> Received<N>>(
        &mut self,
        send: &S,
        receive: &R,
        lost: &str,
    ) -> (r: Result<Vec<(usize, Vec<N>, N)>, EmbeddingError>)
        requires
            old(self).wf(),
            forall|w: Vec<N>| call_requires(*send, (w,)),
            forall|wait: bool| call_requires(*receive, (wait,)),
        ensures
            final(self).wf(),
            r matches Ok(results) ==> {
                &&& final(self)@ == (ChannelView::<N> {
                    outstanding: 0,
                    pending: None,
                    frames: unanswered(old(self)@.frames, results@.len()),
                })
                &&& are_answers(old(self)@, *send, *receive, results@)
            },
            r matches Err(e) ==> {
                &&& old(self)@.outstanding > 0
                &&& is_lost(*receive, lost@, e)
                &&& final(self)@ == old(self)@ || is_answered(old(self)@, *send, final(self)@)
            },
    {
        let mut results: Vec<(usize, Vec<N>, N)> = Vec::new();
        while self.outstanding > 0
            invariant
                self.wf(),
                old(self).wf(),
                forall|w: Vec<N>| call_requires(*send, (w,)),
                forall|wait: bool| call_requires(*receive, (wait,)),
                results@.len() == 0 ==> self@ == old(self)@,
                results@.len() > 0 ==> self@.pending is None && old(self)@.outstanding > 0
                    && is_tally(old(self)@, *send, results@.len() + self@.outstanding),
                results@.len() == 1 ==> is_answered(old(self)@, *send, self@),
                results@.len() > 1 ==> self@.outstanding == 0,
                self@.frames =~= unanswered(old(self)@.frames, results@.len()),
                forall|i: int|
                    #![trigger results@[i]]
                    0 <= i < results@.len() ==> results@[i].0 == (if i < old(self)@.frames.len() {
                        old(self)@.frames[i]
                    } else {
                        0
                    }) && call_ensures(
                        *receive,
                        (true,),
                        Received::Ready(Ok((results@[i].1, results@[i].2))),
                    ),
            decreases
                self@.outstanding + (if self@.pending is Some {
                    1nat
                } else {
                    0nat
                }),
        {
            let got: Received<N> = receive(true);
            match got {
                Received::Ready(Ok((emb, f0_mu))) => {
                    let frame_idx: usize = self.answer(send);
                    results.push((frame_idx, emb, f0_mu));
                },
                Received::Ready(Err(e)) => {
                    return Err(e);
                },
                _ => {
                    return Err(EmbeddingError::Ort(lost.to_owned()));
                },
            }
        }
        Ok(results)
    }
}

/// At most one window is ever out, and a window waits only while one is out:
/// both hold at the start and every submission keeps them, if the worker takes
/// what it is offered.
pub proof fn lemma_one_out_one_waiting<N, S: Fn(Vec<N>) -> bool>(
    before: ChannelView<N>,
    window: Seq<N>,
    frame_idx: usize,
    send: S,
    after: ChannelView<N>,
)
    requires
        before.outstanding <= 1,
        before.pending is Some ==> before.outstanding == 1,
        is_submitted(before, window, frame_idx, send, after),
    ensures
        after.outstanding <= 1,
        after.pending is Some ==> after.outstanding == 1,
{
}

/// A result carries the frame of its window, even after a burst: of three windows
/// in a row the worker is handed the first, the third takes the place of the
/// second, and it is the frame of the third that is on record behind the first.
pub proof fn lemma_frame_goes_with_window<N, S: Fn(Vec<N>) -> bool>(
    before: ChannelView<N>,
    window: Seq<N>,
    frame_idx: usize,
    send: S,
    after: ChannelView<N>,
)
    requires
        before.outstanding == 1,
        before.frames.len() == before.outstanding + (if before.pending is Some {
            1nat
        } else {
            0nat
        }),
        is_submitted(before, window, frame_idx, send, after),
    ensures
        after.pending == Some(window),
        after.frames == seq![before.frames[0], frame_idx],
{
    assert(after.frames =~= seq![before.frames[0], frame_idx]);
}

} // verus!
